use docker_check::config::{
    ApplyTo, AwsAsgConfig, AwsConfig, Config, ContainersConfig, DockerConfig, LoggingConfig,
};
use docker_check::container::ContainerInfo;
use docker_check::docker_checker::{connection_scheme, CheckerError, DockerChecker, Transport};

fn make_config(
    filter_by: &str,
    filter_self: &str,
    apply_to: &[&str],
    consecutive_failures: u16,
    hard_failures: u16,
    purge_unseen: u64,
) -> Config {
    let tokens: Vec<String> = apply_to.iter().map(|s| s.to_string()).collect();
    Config {
        logging: LoggingConfig { checker: "debug".to_string(), default: "warn".to_string() },
        docker: DockerConfig {
            connect_uri: "unix:///var/run/docker.sock".to_string(),
            tls: false,
            purge_unseen,
        },
        containers: ContainersConfig {
            filter_by: filter_by.to_string(),
            apply_filter_to: ApplyTo::from_vec(&tokens).unwrap(),
            consecutive_failures,
            hard_failures,
            run_on_failure: "/usr/local/bin/remediate.sh".to_string(),
            filter_self: filter_self.to_string(),
        },
        aws: AwsConfig { enabled: false, asg: AwsAsgConfig { healthcheck: false } },
    }
}

fn mock_container(
    name: Option<String>,
    image: Option<String>,
    labels: Option<Vec<(String, String)>>,
) -> ContainerInfo {
    ContainerInfo {
        id: "dfdb8ee577c1".to_string(),
        image: image.unwrap_or("ce94baa47eed".to_string()),
        names: vec![name.unwrap_or("something_useful".to_string())],
        labels,
    }
}

#[test]
fn filter_containers_test() {
    let settings = make_config(".*", r"im\.lain\.docker-checker", &["label", "name"], 3, 5, 60);
    let dc = DockerChecker::new(&settings).unwrap();

    // filter by name
    assert!(
        dc.filter_containers(&mock_container(None, Some("filter_me".to_string()), None)),
        "Should not be filtered!"
    );

    // filter by image
    assert!(
        dc.filter_containers(&mock_container(Some("Random-image-id".to_string()), None, None)),
        "Should not be filtered!"
    );

    // filter by labels
    let map = vec![("im.lain.docker-checker".to_string(), "skipme".to_string())];
    assert!(
        !dc.filter_containers(&mock_container(None, Some("filter_me".to_string()), Some(map))),
        "Should be filtered by label!"
    );
}

#[test]
fn label_exclusion_wins_over_name_inclusion() {
    let settings = make_config("web-.*", "checker", &["label", "name"], 3, 5, 60);
    let dc = DockerChecker::new(&settings).unwrap();
    let labels = vec![("role".to_string(), "checker".to_string())];
    let c = mock_container(Some("web-1".to_string()), None, Some(labels));
    assert!(!dc.filter_containers(&c));
    let included = mock_container(Some("web-1".to_string()), None, None);
    assert!(dc.filter_containers(&included));
}

#[test]
fn name_inclusion_without_label_category() {
    let settings = make_config("web-.*", "self-name", &["name"], 3, 5, 60);
    let dc = DockerChecker::new(&settings).unwrap();
    assert!(dc.filter_containers(&mock_container(Some("web-1".to_string()), None, None)));
    assert!(dc.filter_containers(&mock_container(Some("self-name".to_string()), None, None)));
    assert!(!dc.filter_containers(&mock_container(Some("db-1".to_string()), None, None)));
    // labels are ignored when the category is off
    let labels = vec![("x".to_string(), "web-2".to_string())];
    assert!(!dc.filter_containers(&mock_container(
        Some("db-1".to_string()),
        None,
        Some(labels)
    )));
}

#[test]
fn image_category_is_a_fallback_behind_name() {
    let by_image = make_config("nginx:.*", "none", &["image"], 3, 5, 60);
    let dc = DockerChecker::new(&by_image).unwrap();
    assert!(dc.filter_containers(&mock_container(None, Some("nginx:latest".to_string()), None)));
    assert!(!dc.filter_containers(&mock_container(None, Some("redis:7".to_string()), None)));

    // with both categories on, only names decide
    let both = make_config("nginx:.*", "none", &["name", "image"], 3, 5, 60);
    let dc = DockerChecker::new(&both).unwrap();
    assert!(!dc.filter_containers(&mock_container(
        Some("db-1".to_string()),
        Some("nginx:latest".to_string()),
        None
    )));
}

#[test]
fn empty_category_mask_excludes_everything() {
    let settings = make_config(".*", ".*", &[], 3, 5, 60);
    let dc = DockerChecker::new(&settings).unwrap();
    assert!(!dc.filter_containers(&mock_container(None, None, None)));
}

#[test]
fn regex_matching_is_anchored_only_where_written() {
    let settings = make_config("^ab$", "zzz-never", &["name"], 3, 5, 60);
    let dc = DockerChecker::new(&settings).unwrap();
    assert!(dc.filter_containers(&mock_container(Some("ab".to_string()), None, None)));
    assert!(!dc.filter_containers(&mock_container(Some("abc".to_string()), None, None)));
    assert!(!dc.filter_containers(&mock_container(Some("xy".to_string()), None, None)));
}

#[test]
fn invalid_patterns_fail_startup() {
    let bad_by = make_config("(", ".*", &["name"], 3, 5, 60);
    assert_eq!(DockerChecker::new(&bad_by).unwrap_err(), CheckerError::BadFilterPattern);
    let bad_self = make_config(".*", "(", &["name"], 3, 5, 60);
    assert_eq!(DockerChecker::new(&bad_self).unwrap_err(), CheckerError::BadSelfPattern);
    let good = make_config(".*", ".*", &["name"], 3, 5, 60);
    assert!(DockerChecker::new(&good).is_ok());
    assert_eq!(
        CheckerError::BadFilterPattern.describe(),
        "invalid filter_by regular expression"
    );
}

#[test]
fn connection_scheme_by_uri_prefix() {
    assert_eq!(connection_scheme("http://localhost:2375").unwrap(), Transport::Http);
    assert_eq!(connection_scheme("https://localhost:2376").unwrap(), Transport::Http);
    assert_eq!(connection_scheme("unix:///var/run/docker.sock").unwrap(), Transport::Unix);
    assert_eq!(
        connection_scheme("tcp://localhost:2375").unwrap_err(),
        CheckerError::UnsupportedScheme
    );
    assert_eq!(
        connection_scheme("zhttp://oddity").unwrap_err(),
        CheckerError::UnsupportedScheme
    );
    assert_eq!(
        CheckerError::UnsupportedScheme.describe(),
        "unsupported connection URI scheme"
    );
}
