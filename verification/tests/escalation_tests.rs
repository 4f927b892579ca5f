use docker_check::config::{
    ApplyTo, AwsAsgConfig, AwsConfig, Config, ContainersConfig, DockerConfig, LoggingConfig,
};
use docker_check::container::HealthState;
use docker_check::docker_checker::{DockerChecker, Observation};
use docker_check::stats::Action;

fn make_config(consecutive_failures: u16, hard_failures: u16, purge_unseen: u64) -> Config {
    let tokens = vec!["name".to_string()];
    Config {
        logging: LoggingConfig { checker: "debug".to_string(), default: "warn".to_string() },
        docker: DockerConfig {
            connect_uri: "unix:///var/run/docker.sock".to_string(),
            tls: false,
            purge_unseen,
        },
        containers: ContainersConfig {
            filter_by: ".*".to_string(),
            apply_filter_to: ApplyTo::from_vec(&tokens).unwrap(),
            consecutive_failures,
            hard_failures,
            run_on_failure: "/usr/local/bin/remediate.sh".to_string(),
            filter_self: "docker-checker".to_string(),
        },
        aws: AwsConfig { enabled: false, asg: AwsAsgConfig { healthcheck: false } },
    }
}

#[test]
fn restart_on_the_observation_past_the_threshold() {
    // consecutive_failures_threshold = 5: exactly one restart, on the 6th
    // unhealthy observation, and the streak resets to 0 right after.
    let mut dc = DockerChecker::new(&make_config(5, 100, 60)).unwrap();
    let id = "c-1".to_string();
    for tick in 1..=5u32 {
        let a = dc.observe(&id, Some(HealthState::Unhealthy));
        assert_eq!(a, Action::Nothing, "no restart expected on tick {}", tick);
        let s = dc.stats().get(&id).unwrap();
        assert_eq!(s.consecutive_failures as u32, tick);
        assert_eq!(s.restarts, 0);
    }
    let a = dc.observe(&id, Some(HealthState::Unhealthy));
    assert_eq!(a, Action::Restart);
    let s = dc.stats().get(&id).unwrap();
    assert_eq!(s.consecutive_failures, 0);
    assert_eq!(s.restarts, 1);
    // the next unhealthy observation starts a fresh streak
    let a = dc.observe(&id, Some(HealthState::Unhealthy));
    assert_eq!(a, Action::Nothing);
    assert_eq!(dc.stats().get(&id).unwrap().consecutive_failures, 1);
}

#[test]
fn third_restart_escalates_to_remediation() {
    // hard_failures_threshold = 3: the first two restarts stay plain, the
    // 3rd (and every later one) also dispatches the remediation command.
    let mut dc = DockerChecker::new(&make_config(1, 3, 60)).unwrap();
    let id = "c-2".to_string();
    let mut restart_actions = Vec::new();
    for _round in 0..4 {
        // threshold 1: the 2nd consecutive unhealthy observation restarts
        let a1 = dc.observe(&id, Some(HealthState::Unhealthy));
        assert_eq!(a1, Action::Nothing);
        let a2 = dc.observe(&id, Some(HealthState::Unhealthy));
        assert_ne!(a2, Action::Nothing);
        restart_actions.push(a2);
    }
    assert_eq!(restart_actions[0], Action::Restart);
    assert_eq!(restart_actions[1], Action::Restart);
    assert_eq!(restart_actions[2], Action::RestartAndRemediate);
    assert_eq!(restart_actions[3], Action::RestartAndRemediate);
    assert_eq!(dc.stats().get(&id).unwrap().restarts, 4);
}

#[test]
fn healthy_observations_count_but_do_not_reset_the_streak() {
    let mut dc = DockerChecker::new(&make_config(5, 100, 60)).unwrap();
    let id = "c-3".to_string();
    dc.observe(&id, Some(HealthState::Unhealthy));
    dc.observe(&id, Some(HealthState::Unhealthy));
    let a = dc.observe(&id, Some(HealthState::Healthy));
    assert_eq!(a, Action::Nothing);
    let s = dc.stats().get(&id).unwrap();
    assert_eq!(s.count, 1);
    assert_eq!(s.consecutive_failures, 2);
}

#[test]
fn starting_state_creates_no_entry_but_counts_as_seen() {
    let mut dc = DockerChecker::new(&make_config(5, 100, 60)).unwrap();
    let id = "c-4".to_string();
    // neither Starting nor a missing healthcheck status creates a record
    let a = dc.observe(&id, Some(HealthState::Starting));
    assert_eq!(a, Action::Nothing);
    assert!(dc.stats().get(&id).is_none());
    let a = dc.observe(&id, Some(HealthState::NoHealthcheck));
    assert_eq!(a, Action::Nothing);
    assert_eq!(dc.stats().len(), 0);
    // but a tracked container observed Starting still counts as seen:
    // its absence timer is cleared, its counters stay put
    dc.observe(&id, Some(HealthState::Unhealthy));
    dc.sweep(&Vec::new(), 100);
    assert_eq!(dc.stats().get(&id).unwrap().not_seen_since, Some(100));
    let obs = vec![Observation { id: id.clone(), health: Some(HealthState::Starting) }];
    let d = dc.tick(&obs, 110);
    assert!(d.is_empty());
    let s = dc.stats().get(&id).unwrap();
    assert_eq!(s.not_seen_since, None);
    assert_eq!(s.consecutive_failures, 1);
    assert_eq!(s.count, 0);
}

#[test]
fn no_healthcheck_leaves_no_trace_across_ticks() {
    // a container that never reports a health status produces zero stats
    // entries and zero dispatches, however many ticks pass
    let mut dc = DockerChecker::new(&make_config(2, 1, 30)).unwrap();
    for now in 0..10u64 {
        let obs = vec![Observation { id: "silent".to_string(), health: None }];
        let dispatches = dc.tick(&obs, now);
        assert!(dispatches.is_empty());
        assert_eq!(dc.stats().len(), 0);
    }
    assert!(dc.stats().get(&"silent".to_string()).is_none());
}

#[test]
fn end_to_end_scenario() {
    // filter_by ".*" on names, consecutive_failures 2, hard_failures 1,
    // purge_unseen 30: "web-1" unhealthy on ticks 1..3 restarts after the
    // 3rd observation, and restarts == 1 == hard_failures escalates at once,
    // with the container's identifier on the dispatch.
    let config = make_config(2, 1, 30);
    let mut dc = DockerChecker::new(&config).unwrap();
    let id = "web-1".to_string();
    let obs = |h: Option<HealthState>| vec![Observation { id: id.clone(), health: h }];

    let d1 = dc.tick(&obs(Some(HealthState::Unhealthy)), 1);
    assert!(d1.is_empty());
    let d2 = dc.tick(&obs(Some(HealthState::Unhealthy)), 2);
    assert!(d2.is_empty());
    let d3 = dc.tick(&obs(Some(HealthState::Unhealthy)), 3);
    assert_eq!(d3.len(), 1);
    assert_eq!(d3[0].id, id);
    assert_eq!(d3[0].action, Action::RestartAndRemediate);
    let s = dc.stats().get(&id).unwrap();
    assert_eq!(s.restarts, 1);
    assert_eq!(s.consecutive_failures, 0);
}

#[test]
fn tick_dispatches_in_listing_order() {
    let mut dc = DockerChecker::new(&make_config(0, 100, 60)).unwrap();
    // threshold 0: every unhealthy observation restarts immediately
    let obs = vec![
        Observation { id: "a".to_string(), health: Some(HealthState::Unhealthy) },
        Observation { id: "b".to_string(), health: Some(HealthState::Healthy) },
        Observation { id: "c".to_string(), health: Some(HealthState::Unhealthy) },
    ];
    let d = dc.tick(&obs, 1);
    assert_eq!(d.len(), 2);
    assert_eq!(d[0].id, "a");
    assert_eq!(d[1].id, "c");
}
