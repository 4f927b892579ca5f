//! The engine around the stats store: compiles the operator's patterns,
//! decides which containers are in scope, drives the per-container
//! escalation state machine over one poll tick, and says what the
//! surrounding loop must dispatch. The loop itself — listing containers,
//! fetching health, restarting, spawning the remediation command — is
//! runtime I/O and stays outside this crate.

use vstd::prelude::*;
use crate::config::Config;
use crate::config::ApplyTo;
use crate::container::ContainerInfo;
use crate::container::HealthState;
use crate::pattern::Pattern;
use crate::pattern::regex_match;
use crate::pattern::regex_valid;
use crate::stats::Action;
use crate::stats::ContainerStats;
use crate::stats::StatsStore;
use crate::stats::action_of_observe;
use crate::stats::ids_view;
use crate::stats::map_after_observe;
use crate::stats::sweep_map;

verus! {

/// What keeps the checker from starting: a pattern that does not compile,
/// or a connection URI whose scheme no transport handles.
#[derive(Debug, Clone, Copy, PartialEq, Eq, Structural)]
pub enum CheckerError {
    BadFilterPattern,
    BadSelfPattern,
    UnsupportedScheme,
}

impl CheckerError {
    /// A fixed description, for the operator's startup error message.
    pub fn describe(&self) -> (s: &'static str)
        ensures
            s@ == match self {
                CheckerError::BadFilterPattern => "invalid filter_by regular expression"@,
                CheckerError::BadSelfPattern => "invalid filter_self regular expression"@,
                CheckerError::UnsupportedScheme => "unsupported connection URI scheme"@,
            },
    {
        match self {
            CheckerError::BadFilterPattern => "invalid filter_by regular expression",
            CheckerError::BadSelfPattern => "invalid filter_self regular expression",
            CheckerError::UnsupportedScheme => "unsupported connection URI scheme",
        }
    }
}

/// The transport a connection URI selects.
#[derive(Debug, Clone, Copy, PartialEq, Eq, Structural)]
pub enum Transport {
    Http,
    Unix,
}

/// `p` is a prefix of `s`.
pub open spec fn starts_with_spec(s: Seq<char>, p: Seq<char>) -> bool {
    s.len() >= p.len() && s.subrange(0, p.len() as int) == p
}

/// Relies on `str::starts_with`: true if and only if the string begins
/// with the given prefix.
#[verifier::external_body]
fn str_starts_with(s: &str, prefix: &str) -> (b: bool)
    ensures
        b == starts_with_spec(s@, prefix@),
{
    s.starts_with(prefix)
}

/// Which transport a connection URI selects: HTTP(S) for a `http` prefix,
/// a local socket for a `unix` prefix; anything else is a startup-time
/// configuration error.
pub fn connection_scheme(uri: &str) -> (r: Result<Transport, CheckerError>)
    ensures
        r == if starts_with_spec(uri@, "http"@) {
            Result::<Transport, CheckerError>::Ok(Transport::Http)
        } else if starts_with_spec(uri@, "unix"@) {
            Result::<Transport, CheckerError>::Ok(Transport::Unix)
        } else {
            Result::<Transport, CheckerError>::Err(CheckerError::UnsupportedScheme)
        },
{
    if str_starts_with(uri, "http") {
        Result::Ok(Transport::Http)
    } else if str_starts_with(uri, "unix") {
        Result::Ok(Transport::Unix)
    } else {
        Result::Err(CheckerError::UnsupportedScheme)
    }
}

/// Either pattern matches the label's name or its value.
pub open spec fn pair_hit(fb: Seq<char>, fs: Seq<char>, p: (Seq<char>, Seq<char>)) -> bool {
    regex_match(fb, p.0) || regex_match(fs, p.0) || regex_match(fb, p.1) || regex_match(fs, p.1)
}

/// Some label pair is hit by either pattern.
pub open spec fn label_hit(fb: Seq<char>, fs: Seq<char>, pairs: Seq<(Seq<char>, Seq<char>)>) -> bool {
    exists|i: int| 0 <= i < pairs.len() && pair_hit(fb, fs, pairs[i])
}

/// Some name is matched by either pattern.
pub open spec fn name_hit(fb: Seq<char>, fs: Seq<char>, names: Seq<Seq<char>>) -> bool {
    exists|i: int|
        0 <= i < names.len() && (regex_match(fb, names[i]) || regex_match(fs, names[i]))
}

/// The image reference is matched by either pattern.
pub open spec fn image_hit(fb: Seq<char>, fs: Seq<char>, image: Seq<char>) -> bool {
    regex_match(fb, image) || regex_match(fs, image)
}

/// The checker: the operator's compiled scope patterns and thresholds,
/// and the stats store they govern.
#[derive(Debug)]
pub struct DockerChecker {
    apply_to: ApplyTo,
    filter_by: Pattern,
    filter_self: Pattern,
    consecutive_failures: u16,
    hard_failures: u16,
    purge_unseen: u64,
    run_on_failure: String,
    stats: StatsStore,
}

impl DockerChecker {
    /// The configured category mask.
    pub closed spec fn apply_spec(self) -> ApplyTo {
        self.apply_to
    }

    /// The tracked stats, as a map from identity to record.
    pub closed spec fn stats_spec(self) -> Map<Seq<char>, ContainerStats> {
        self.stats@
    }

    /// Read access to the stats store, for the status exporter.
    pub fn stats(&self) -> (s: &StatsStore)
        ensures
            s@ == self.stats_spec(),
    {
        &self.stats
    }

    /// The primary filter pattern's text.
    pub closed spec fn filter_by_spec(self) -> Seq<char> {
        self.filter_by.pattern()
    }

    /// The self-exclusion pattern's text.
    pub closed spec fn filter_self_spec(self) -> Seq<char> {
        self.filter_self.pattern()
    }

    /// The consecutive-failures threshold.
    pub closed spec fn threshold_spec(self) -> u16 {
        self.consecutive_failures
    }

    /// The hard-failures threshold.
    pub closed spec fn hard_spec(self) -> u16 {
        self.hard_failures
    }

    /// The purge duration for unseen containers, in poll-clock seconds.
    pub closed spec fn purge_spec(self) -> u64 {
        self.purge_unseen
    }

    /// The remediation command's text.
    pub closed spec fn run_on_failure_spec(self) -> Seq<char> {
        self.run_on_failure@
    }

    /// Everything but the stats store, bundled so contracts can say the
    /// settings are untouched.
    pub open spec fn settings(self) -> (ApplyTo, Seq<char>, Seq<char>, u16, u16, u64, Seq<char>) {
        (
            self.apply_spec(),
            self.filter_by_spec(),
            self.filter_self_spec(),
            self.threshold_spec(),
            self.hard_spec(),
            self.purge_spec(),
            self.run_on_failure_spec(),
        )
    }

    /// Builds the checker from validated configuration: both patterns are
    /// compiled here, once, or startup fails naming the offending one; the
    /// store starts empty.
    pub fn new(config: &Config) -> (r: Result<DockerChecker, CheckerError>)
        ensures
            r is Ok <==> regex_valid(config.containers.filter_by@) && regex_valid(
                config.containers.filter_self@,
            ),
            !regex_valid(config.containers.filter_by@) ==> r == Result::<
                DockerChecker,
                CheckerError,
            >::Err(CheckerError::BadFilterPattern),
            regex_valid(config.containers.filter_by@) && !regex_valid(
                config.containers.filter_self@,
            ) ==> r == Result::<DockerChecker, CheckerError>::Err(CheckerError::BadSelfPattern),
            r matches Result::Ok(c) ==> c.apply_spec() == config.containers.apply_filter_to
                && c.filter_by_spec() == config.containers.filter_by@ && c.filter_self_spec()
                == config.containers.filter_self@ && c.threshold_spec()
                == config.containers.consecutive_failures && c.hard_spec()
                == config.containers.hard_failures && c.purge_spec()
                == config.docker.purge_unseen && c.run_on_failure_spec()
                == config.containers.run_on_failure@ && c.stats_spec() == Map::<
                Seq<char>,
                ContainerStats,
            >::empty(),
    {
        let filter_by = match Pattern::compile(config.containers.filter_by.as_str()) {
            Option::Some(p) => p,
            Option::None => {
                return Result::Err(CheckerError::BadFilterPattern);
            },
        };
        let filter_self = match Pattern::compile(config.containers.filter_self.as_str()) {
            Option::Some(p) => p,
            Option::None => {
                return Result::Err(CheckerError::BadSelfPattern);
            },
        };
        Result::Ok(
            DockerChecker {
                apply_to: config.containers.apply_filter_to,
                filter_by,
                filter_self,
                consecutive_failures: config.containers.consecutive_failures,
                hard_failures: config.containers.hard_failures,
                purge_unseen: config.docker.purge_unseen,
                run_on_failure: config.containers.run_on_failure.clone(),
                stats: StatsStore::new(),
            },
        )
    }

    /// A copy of the remediation command, for the dispatching loop.
    pub fn run_on_failure(&self) -> (s: String)
        ensures
            s@ == self.run_on_failure_spec(),
    {
        self.run_on_failure.clone()
    }

    /// Whether a container is in scope, true meaning "hand it to the
    /// escalation pipeline".
    ///
    /// Labels are exclusion-only and win over everything: when the
    /// match-label category is on and either pattern hits any label name
    /// or value, the container is out, whatever its name or image says.
    /// Otherwise match-name, or failing that match-image, is the inclusion
    /// allow-list; with neither category on, nothing is included.
    pub open spec fn include_spec(self, c: ContainerInfo) -> bool {
        if self.apply_spec().filters_labels() && label_hit(
            self.filter_by_spec(),
            self.filter_self_spec(),
            c.label_pairs(),
        ) {
            false
        } else if self.apply_spec().filters_names() {
            name_hit(self.filter_by_spec(), self.filter_self_spec(), c.names_view())
        } else if self.apply_spec().filters_images() {
            image_hit(self.filter_by_spec(), self.filter_self_spec(), c.image@)
        } else {
            false
        }
    }

    /// Decides `include_spec` for one container.
    pub fn filter_containers(&self, c: &ContainerInfo) -> (b: bool)
        ensures
            b == self.include_spec(*c),
    {
        let ghost fb = self.filter_by_spec();
        let ghost fs = self.filter_self_spec();
        if self.apply_to.should_filter_labels() {
            match &c.labels {
                Option::Some(labels) => {
                    let mut i: usize = 0;
                    while i < labels.len()
                        invariant
                            i <= labels@.len(),
                            c.labels == Option::Some(*labels),
                            self.apply_spec().filters_labels(),
                            fb == self.filter_by_spec(),
                            fs == self.filter_self_spec(),
                            forall|j: int|
                                0 <= j < i as int ==> !pair_hit(fb, fs, c.label_pairs()[j]),
                        decreases labels@.len() - i,
                    {
                        let hit = self.filter_by.is_match(labels[i].0.as_str())
                            || self.filter_self.is_match(labels[i].0.as_str())
                            || self.filter_by.is_match(labels[i].1.as_str())
                            || self.filter_self.is_match(labels[i].1.as_str());
                        if hit {
                            proof {
                                assert(pair_hit(fb, fs, c.label_pairs()[i as int]));
                            }
                            return false;
                        }
                        i = i + 1;
                    }
                    proof {
                        assert(!label_hit(fb, fs, c.label_pairs()));
                    }
                },
                Option::None => {
                    proof {
                        assert(!label_hit(fb, fs, c.label_pairs()));
                    }
                },
            }
        }
        if self.apply_to.should_filter_names() {
            let mut i: usize = 0;
            while i < c.names.len()
                invariant
                    i <= c.names@.len(),
                    self.apply_spec().filters_names(),
                    !(self.apply_spec().filters_labels() && label_hit(fb, fs, c.label_pairs())),
                    fb == self.filter_by_spec(),
                    fs == self.filter_self_spec(),
                    forall|j: int|
                        0 <= j < i as int ==> !regex_match(fb, c.names_view()[j]) && !regex_match(
                            fs,
                            c.names_view()[j],
                        ),
                decreases c.names@.len() - i,
            {
                if self.filter_by.is_match(c.names[i].as_str()) || self.filter_self.is_match(
                    c.names[i].as_str(),
                ) {
                    proof {
                        let nv = c.names_view()[i as int];
                        assert(regex_match(fb, nv) || regex_match(fs, nv));
                    }
                    return true;
                }
                i = i + 1;
            }
            proof {
                assert(!name_hit(fb, fs, c.names_view()));
            }
            false
        } else if self.apply_to.should_filter_images() {
            self.filter_by.is_match(c.image.as_str()) || self.filter_self.is_match(c.image.as_str())
        } else {
            false
        }
    }
}

/// One container's report for a tick: its identity, and the health status
/// its detail carried. `None` stands for a container that must be skipped —
/// no healthcheck configured, or its detail could not be fetched — which
/// changes no state but still counts as seen for the eviction pass.
#[derive(Debug)]
pub struct Observation {
    pub id: String,
    pub health: Option<HealthState>,
}

impl View for Observation {
    type V = (Seq<char>, Option<HealthState>);

    open spec fn view(&self) -> (Seq<char>, Option<HealthState>) {
        (self.id@, self.health)
    }
}

/// One action the surrounding loop must dispatch, with the identity of the
/// container it concerns as its argument.
#[derive(Debug)]
pub struct Dispatch {
    pub id: String,
    pub action: Action,
}

impl View for Dispatch {
    type V = (Seq<char>, Action);

    open spec fn view(&self) -> (Seq<char>, Action) {
        (self.id@, self.action)
    }
}

/// The observations, as pairs of identity and health.
pub open spec fn obs_views(obs: Seq<Observation>) -> Seq<(Seq<char>, Option<HealthState>)> {
    obs.map_values(|o: Observation| (o.id@, o.health))
}

/// The dispatches, as pairs of identity and action.
pub open spec fn dispatch_views(ds: Seq<Dispatch>) -> Seq<(Seq<char>, Action)> {
    ds.map_values(|d: Dispatch| (d.id@, d.action))
}

/// The identities of a tick's observations, in listing order.
pub open spec fn obs_ids(obs: Seq<(Seq<char>, Option<HealthState>)>) -> Seq<Seq<char>> {
    obs.map_values(|o: (Seq<char>, Option<HealthState>)| o.0)
}

/// The store after a tick's observations, processed in listing order.
pub open spec fn map_after_obs_seq(
    m: Map<Seq<char>, ContainerStats>,
    obs: Seq<(Seq<char>, Option<HealthState>)>,
    threshold: u16,
) -> Map<Seq<char>, ContainerStats>
    decreases obs.len(),
{
    if obs.len() == 0 {
        m
    } else {
        map_after_observe(
            map_after_obs_seq(m, obs.drop_last(), threshold),
            obs.last().0,
            obs.last().1,
            threshold,
        )
    }
}

/// What a tick's observations dispatch, in listing order; observations
/// that dispatch nothing leave no trace.
pub open spec fn dispatches_of_obs_seq(
    m: Map<Seq<char>, ContainerStats>,
    obs: Seq<(Seq<char>, Option<HealthState>)>,
    threshold: u16,
    hard: u16,
) -> Seq<(Seq<char>, Action)>
    decreases obs.len(),
{
    if obs.len() == 0 {
        Seq::empty()
    } else {
        let prev = dispatches_of_obs_seq(m, obs.drop_last(), threshold, hard);
        let a = action_of_observe(
            map_after_obs_seq(m, obs.drop_last(), threshold),
            obs.last().0,
            obs.last().1,
            threshold,
            hard,
        );
        if a == Action::Nothing {
            prev
        } else {
            prev.push((obs.last().0, a))
        }
    }
}

/// The store after one whole tick: the observations drive the state
/// machine, then the eviction pass sweeps against the tick's identities.
pub open spec fn tick_map(
    m: Map<Seq<char>, ContainerStats>,
    obs: Seq<(Seq<char>, Option<HealthState>)>,
    threshold: u16,
    now: u64,
    purge: u64,
) -> Map<Seq<char>, ContainerStats> {
    sweep_map(map_after_obs_seq(m, obs, threshold), obs_ids(obs), now, purge)
}

impl DockerChecker {
    /// Drives the state machine one observation forward, under the
    /// checker's own thresholds.
    pub fn observe(&mut self, id: &String, health: Option<HealthState>) -> (a: Action)
        ensures
            final(self).stats_spec() == map_after_observe(
                old(self).stats_spec(),
                id@,
                health,
                old(self).threshold_spec(),
            ),
            a == action_of_observe(
                old(self).stats_spec(),
                id@,
                health,
                old(self).threshold_spec(),
                old(self).hard_spec(),
            ),
            final(self).settings() == old(self).settings(),
    {
        self.stats.observe(id, health, self.consecutive_failures, self.hard_failures)
    }

    /// The eviction pass, under the checker's own purge duration.
    pub fn sweep(&mut self, active: &Vec<String>, now: u64)
        ensures
            final(self).stats_spec() == sweep_map(
                old(self).stats_spec(),
                ids_view(active@),
                now,
                old(self).purge_spec(),
            ),
            final(self).settings() == old(self).settings(),
    {
        self.stats.sweep(active, now, self.purge_unseen)
    }

    /// One whole tick: every observation drives the state machine in
    /// listing order, the actions to dispatch are collected, and the
    /// eviction pass then sweeps against the tick's identities. `now` is
    /// the tick's poll-clock second.
    pub fn tick(&mut self, observations: &Vec<Observation>, now: u64) -> (d: Vec<Dispatch>)
        ensures
            final(self).stats_spec() == tick_map(
                old(self).stats_spec(),
                obs_views(observations@),
                old(self).threshold_spec(),
                now,
                old(self).purge_spec(),
            ),
            dispatch_views(d@) == dispatches_of_obs_seq(
                old(self).stats_spec(),
                obs_views(observations@),
                old(self).threshold_spec(),
                old(self).hard_spec(),
            ),
            final(self).settings() == old(self).settings(),
    {
        let ghost m0 = self.stats_spec();
        let ghost ov = obs_views(observations@);
        let ghost t = self.threshold_spec();
        let ghost h = self.hard_spec();
        let mut dispatches: Vec<Dispatch> = Vec::new();
        let mut active: Vec<String> = Vec::new();
        let mut i: usize = 0;
        while i < observations.len()
            invariant
                i <= observations@.len(),
                ov == obs_views(observations@),
                t == self.threshold_spec(),
                h == self.hard_spec(),
                self.settings() == old(self).settings(),
                self.stats_spec() == map_after_obs_seq(m0, ov.take(i as int), t),
                dispatch_views(dispatches@) == dispatches_of_obs_seq(m0, ov.take(i as int), t, h),
                ids_view(active@) == obs_ids(ov.take(i as int)),
            decreases observations@.len() - i,
        {
            let ghost prev_active = active@;
            let ghost prev_dispatches = dispatches@;
            let id = observations[i].id.clone();
            active.push(id);
            let a = self.observe(&observations[i].id, observations[i].health);
            if !(a == Action::Nothing) {
                let did = observations[i].id.clone();
                dispatches.push(Dispatch { id: did, action: a });
            }
            proof {
                assert(ov.take(i + 1).drop_last() =~= ov.take(i as int));
                assert(ov.take(i + 1).last() == ov[i as int]);
                assert(ov[i as int] == (observations@[i as int].id@, observations@[i as int].health));
                assert(ids_view(prev_active).len() == prev_active.len());
                assert(obs_ids(ov.take(i as int)).len() == i as int);
                assert(prev_active.len() == i as int);
                assert(active@.len() == i + 1);
                assert forall|j: int| 0 <= j < active@.len() implies ids_view(active@)[j] == obs_ids(
                    ov.take(i + 1),
                )[j] by {
                    assert(obs_ids(ov.take(i + 1))[j] == ov.take(i + 1)[j].0);
                    if j < prev_active.len() {
                        assert(active@[j] == prev_active[j]);
                        assert(ids_view(prev_active)[j] == obs_ids(ov.take(i as int))[j]);
                        assert(ov.take(i + 1)[j] == ov.take(i as int)[j]);
                    } else {
                        assert(active@[j]@ == ov[i as int].0);
                    }
                }
                assert(ids_view(active@) =~= obs_ids(ov.take(i + 1)));
                if a == Action::Nothing {
                    assert(dispatch_views(dispatches@) =~= dispatches_of_obs_seq(
                        m0,
                        ov.take(i + 1),
                        t,
                        h,
                    ));
                } else {
                    assert forall|j: int|
                        0 <= j < dispatches@.len() implies dispatch_views(dispatches@)[j]
                        == dispatches_of_obs_seq(m0, ov.take(i + 1), t, h)[j] by {
                        if j < prev_dispatches.len() {
                            assert(dispatches@[j] == prev_dispatches[j]);
                        } else {
                            assert(dispatches@[j].id@ == ov[i as int].0 && dispatches@[j].action
                                == a);
                        }
                    }
                    assert(dispatch_views(dispatches@) =~= dispatches_of_obs_seq(
                        m0,
                        ov.take(i + 1),
                        t,
                        h,
                    ));
                }
            }
            i = i + 1;
        }
        proof {
            assert(ov.take(observations@.len() as int) =~= ov);
        }
        self.sweep(&active, now);
        dispatches
    }
}

/// Every observation of the tick lacks a health status: nothing to track.
pub open spec fn all_skipped(obs: Seq<(Seq<char>, Option<HealthState>)>) -> bool {
    forall|i: int| 0 <= i < obs.len() ==> obs[i].1 is None
}

/// The store after a whole run of ticks, each a list of observations with
/// its poll-clock second.
pub open spec fn run_map(
    m: Map<Seq<char>, ContainerStats>,
    ticks: Seq<(Seq<(Seq<char>, Option<HealthState>)>, u64)>,
    threshold: u16,
    purge: u64,
) -> Map<Seq<char>, ContainerStats>
    decreases ticks.len(),
{
    if ticks.len() == 0 {
        m
    } else {
        tick_map(
            run_map(m, ticks.drop_last(), threshold, purge),
            ticks.last().0,
            threshold,
            ticks.last().1,
            purge,
        )
    }
}

/// Observations without a health status change nothing and dispatch
/// nothing.
proof fn lemma_skipped_obs(
    m: Map<Seq<char>, ContainerStats>,
    obs: Seq<(Seq<char>, Option<HealthState>)>,
    threshold: u16,
    hard: u16,
)
    requires
        all_skipped(obs),
    ensures
        map_after_obs_seq(m, obs, threshold) == m,
        dispatches_of_obs_seq(m, obs, threshold, hard) == Seq::<(Seq<char>, Action)>::empty(),
    decreases obs.len(),
{
    if obs.len() > 0 {
        assert forall|i: int| 0 <= i < obs.drop_last().len() implies obs.drop_last()[i].1
            is None by {
            assert(obs.drop_last()[i] == obs[i]);
        }
        lemma_skipped_obs(m, obs.drop_last(), threshold, hard);
        assert(obs.last().1 is None);
    }
}

/// Sweeping an empty store leaves it empty.
proof fn lemma_sweep_of_empty(active: Seq<Seq<char>>, now: u64, purge: u64)
    ensures
        sweep_map(Map::<Seq<char>, ContainerStats>::empty(), active, now, purge) == Map::<
            Seq<char>,
            ContainerStats,
        >::empty(),
{
    assert(sweep_map(Map::<Seq<char>, ContainerStats>::empty(), active, now, purge) =~= Map::<
        Seq<char>,
        ContainerStats,
    >::empty());
}

/// No-healthcheck scenario: containers that never report a health status
/// produce no stats entries and no dispatches, across any number of ticks
/// starting from the empty store.
pub proof fn lemma_no_healthcheck_scenario(
    ticks: Seq<(Seq<(Seq<char>, Option<HealthState>)>, u64)>,
    threshold: u16,
    hard: u16,
    purge: u64,
)
    requires
        forall|i: int| 0 <= i < ticks.len() ==> all_skipped(#[trigger] ticks[i].0),
    ensures
        run_map(Map::<Seq<char>, ContainerStats>::empty(), ticks, threshold, purge) == Map::<
            Seq<char>,
            ContainerStats,
        >::empty(),
        forall|i: int|
            0 <= i < ticks.len() ==> dispatches_of_obs_seq(
                run_map(Map::<Seq<char>, ContainerStats>::empty(), ticks.take(i), threshold, purge),
                #[trigger] ticks[i].0,
                threshold,
                hard,
            ) == Seq::<(Seq<char>, Action)>::empty(),
    decreases ticks.len(),
{
    let empty = Map::<Seq<char>, ContainerStats>::empty();
    if ticks.len() > 0 {
        let prefix = ticks.drop_last();
        assert forall|i: int| 0 <= i < prefix.len() implies all_skipped(#[trigger] prefix[i].0) by {
            assert(prefix[i] == ticks[i]);
        }
        lemma_no_healthcheck_scenario(prefix, threshold, hard, purge);
        lemma_skipped_obs(empty, ticks.last().0, threshold, hard);
        lemma_sweep_of_empty(obs_ids(ticks.last().0), ticks.last().1, purge);
        assert forall|i: int|
            0 <= i < ticks.len() implies dispatches_of_obs_seq(
            run_map(empty, ticks.take(i), threshold, purge),
            #[trigger] ticks[i].0,
            threshold,
            hard,
        ) == Seq::<(Seq<char>, Action)>::empty() by {
            if i < ticks.len() - 1 {
                assert(ticks.take(i) =~= prefix.take(i));
                assert(ticks[i] == prefix[i]);
            } else {
                assert(ticks.take(i) =~= prefix);
                lemma_skipped_obs(
                    run_map(empty, prefix, threshold, purge),
                    ticks.last().0,
                    threshold,
                    hard,
                );
            }
        }
    }
}

/// Filter priority: when the match-label category is on and either pattern
/// hits any label name or value, the container is excluded, whatever its
/// names or image would have decided.
pub proof fn lemma_filter_priority(dc: DockerChecker, c: ContainerInfo)
    requires
        dc.apply_spec().filters_labels(),
        label_hit(dc.filter_by_spec(), dc.filter_self_spec(), c.label_pairs()),
    ensures
        !dc.include_spec(c),
{
}

/// Inclusion fallback: with match-label off and match-name on, inclusion
/// is exactly "some name is matched by the primary or the self-exclusion
/// pattern".
pub proof fn lemma_inclusion_fallback(dc: DockerChecker, c: ContainerInfo)
    requires
        !dc.apply_spec().filters_labels(),
        dc.apply_spec().filters_names(),
    ensures
        dc.include_spec(c) == name_hit(
            dc.filter_by_spec(),
            dc.filter_self_spec(),
            c.names_view(),
        ),
{
}

} // verus!
