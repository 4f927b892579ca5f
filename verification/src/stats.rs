//! Per-container counters, the escalation transition that updates them on
//! each health observation, and the store that tracks one record per
//! container identity with time-based eviction of identities no longer seen.

use vstd::prelude::*;
use crate::container::HealthState;

verus! {

/// Counters accumulated for one container identity.
///
/// `count` tallies healthy observations over the record's lifetime
/// (saturating, never reset). `restarts` only grows. `consecutive_failures`
/// is reset when crossing the restart threshold. `not_seen_since` is the
/// poll-clock second at which the container first went missing, `None`
/// while it is present.
#[derive(Debug, Clone, Copy)]
pub struct ContainerStats {
    pub count: u32,
    pub restarts: u32,
    pub consecutive_failures: u16,
    pub not_seen_since: Option<u64>,
}

impl ContainerStats {
    /// The record a container starts with on its first observation.
    pub open spec fn initial() -> ContainerStats {
        ContainerStats { count: 0, restarts: 0, consecutive_failures: 0, not_seen_since: None }
    }
}

impl Default for ContainerStats {
    fn default() -> (s: Self)
        ensures
            s == ContainerStats::initial(),
    {
        ContainerStats { count: 0, restarts: 0, consecutive_failures: 0, not_seen_since: None }
    }
}

/// What one observation asks the surrounding loop to dispatch.
/// Both restart and remediation run off the poll thread, fire-and-forget.
#[derive(Debug, Clone, Copy, PartialEq, Eq, Structural)]
pub enum Action {
    Nothing,
    Restart,
    RestartAndRemediate,
}

/// The counters after one health observation.
///
/// Healthy bumps `count`. Unhealthy bumps `consecutive_failures`, except
/// when the record already carries `threshold` of them: that observation is
/// the one past the threshold, so it resets the streak and counts a restart.
/// A healthy observation does not reset the streak: only a restart does.
/// Any other status leaves the counters alone.
pub open spec fn stats_after(s: ContainerStats, h: HealthState, threshold: u16) -> ContainerStats {
    match h {
        HealthState::Healthy => ContainerStats { count: s.count.saturating_add(1), ..s },
        HealthState::Unhealthy => if s.consecutive_failures == threshold {
            ContainerStats {
                restarts: s.restarts.saturating_add(1),
                consecutive_failures: 0,
                ..s
            }
        } else {
            ContainerStats {
                consecutive_failures: s.consecutive_failures.saturating_add(1),
                ..s
            }
        },
        _ => s,
    }
}

/// What one health observation dispatches: a restart exactly when the
/// unhealthy streak crosses the threshold, escalated to remediation when
/// the restart count then reaches the hard-failure threshold. The
/// remediation re-fires on every later threshold crossing, by design.
pub open spec fn action_after(s: ContainerStats, h: HealthState, threshold: u16, hard: u16) -> Action {
    if h == HealthState::Unhealthy && s.consecutive_failures == threshold {
        if s.restarts.saturating_add(1) >= hard as u32 {
            Action::RestartAndRemediate
        } else {
            Action::Restart
        }
    } else {
        Action::Nothing
    }
}

/// The record an observation starts from: the tracked one, or a fresh one
/// for an identity seen for the first time.
pub open spec fn observe_base(m: Map<Seq<char>, ContainerStats>, id: Seq<char>) -> ContainerStats {
    if m.dom().contains(id) {
        m[id]
    } else {
        ContainerStats::initial()
    }
}

/// Only these health values touch the store: a record is created lazily on
/// the first healthy-or-unhealthy observation of an identity.
pub open spec fn counted_health(h: HealthState) -> bool {
    h == HealthState::Healthy || h == HealthState::Unhealthy
}

/// The store after one observation. A report without a health status is
/// skipped entirely, and any reported value other than healthy or unhealthy
/// changes no state: no record is created or changed for it.
pub open spec fn map_after_observe(
    m: Map<Seq<char>, ContainerStats>,
    id: Seq<char>,
    health: Option<HealthState>,
    threshold: u16,
) -> Map<Seq<char>, ContainerStats> {
    match health {
        Option::Some(h) => if counted_health(h) {
            m.insert(id, stats_after(observe_base(m, id), h, threshold))
        } else {
            m
        },
        Option::None => m,
    }
}

/// What one observation dispatches, against the store it happened in.
pub open spec fn action_of_observe(
    m: Map<Seq<char>, ContainerStats>,
    id: Seq<char>,
    health: Option<HealthState>,
    threshold: u16,
    hard: u16,
) -> Action {
    match health {
        Option::Some(h) => action_after(observe_base(m, id), h, threshold, hard),
        Option::None => Action::Nothing,
    }
}

/// The poll-clock second a container's absence is counted from: the stored
/// one, or the current tick for a container missing for the first time.
pub open spec fn absence_start(s: ContainerStats, now: u64) -> u64 {
    match s.not_seen_since {
        Option::Some(t) => t,
        Option::None => now,
    }
}

/// Whether the sweep keeps a record: every present container is kept, and
/// an absent one survives while its absence is still shorter than `purge`.
pub open spec fn swept_keeps(
    s: ContainerStats,
    present: bool,
    now: u64,
    purge: u64,
) -> bool {
    present || now.saturating_sub(absence_start(s, now)) < purge
}

/// A kept record after the sweep: presence clears the absence timer,
/// absence starts or keeps it.
pub open spec fn swept_stats(s: ContainerStats, present: bool, now: u64) -> ContainerStats {
    ContainerStats {
        not_seen_since: if present {
            Option::None
        } else {
            Option::Some(absence_start(s, now))
        },
        ..s
    }
}

/// The store after one sweep against the tick's set of active identities.
pub open spec fn sweep_map(
    m: Map<Seq<char>, ContainerStats>,
    active: Seq<Seq<char>>,
    now: u64,
    purge: u64,
) -> Map<Seq<char>, ContainerStats> {
    Map::new(
        |id: Seq<char>|
            m.dom().contains(id) && swept_keeps(m[id], active.contains(id), now, purge),
        |id: Seq<char>| swept_stats(m[id], active.contains(id), now),
    )
}

/// The identities in a list of names, as character sequences.
pub open spec fn ids_view(v: Seq<String>) -> Seq<Seq<char>> {
    v.map_values(|s: String| s@)
}

/// An association list of identities and records, as character sequences.
pub open spec fn pairs_view(es: Seq<(String, ContainerStats)>) -> Seq<(Seq<char>, ContainerStats)> {
    es.map_values(|e: (String, ContainerStats)| (e.0@, e.1))
}

/// Whether an association list holds an entry for `id`.
spec fn seq_has_id(es: Seq<(Seq<char>, ContainerStats)>, id: Seq<char>) -> bool {
    exists|k: int| 0 <= k < es.len() && es[k].0 == id
}

/// The record an association list holds for `id` (meaningful when the ids
/// are unique and `id` is present).
spec fn seq_lookup(es: Seq<(Seq<char>, ContainerStats)>, id: Seq<char>) -> ContainerStats {
    es[choose|k: int| 0 <= k < es.len() && es[k].0 == id].1
}

/// Ids of an association list are pairwise distinct.
spec fn unique_ids(es: Seq<(Seq<char>, ContainerStats)>) -> bool {
    forall|i: int, j: int|
        0 <= i < j < es.len() ==> es[i].0 != es[j].0
}

/// The mapping from container identity to its accumulated counters.
///
/// Entries are kept in first-observation order; the view abstracts the
/// store to a map from identity to record.
#[derive(Debug)]
pub struct StatsStore {
    entries: Vec<(String, ContainerStats)>,
}

impl View for StatsStore {
    type V = Map<Seq<char>, ContainerStats>;

    closed spec fn view(&self) -> Map<Seq<char>, ContainerStats> {
        Map::new(
            |id: Seq<char>| seq_has_id(self.entry_seq(), id),
            |id: Seq<char>| seq_lookup(self.entry_seq(), id),
        )
    }
}

impl StatsStore {
    /// The entries, in first-observation order.
    pub closed spec fn entry_seq(self) -> Seq<(Seq<char>, ContainerStats)> {
        pairs_view(self.entries@)
    }

    #[verifier::type_invariant]
    spec fn wf(self) -> bool {
        unique_ids(self.entry_seq())
    }

    /// An empty store: nothing is tracked at process start.
    pub fn new() -> (s: StatsStore)
        ensures
            s@ == Map::<Seq<char>, ContainerStats>::empty(),
            s.entry_seq() == Seq::<(Seq<char>, ContainerStats)>::empty(),
    {
        let s = StatsStore { entries: Vec::new() };
        proof {
            assert(s.entry_seq() =~= Seq::<(Seq<char>, ContainerStats)>::empty());
            assert(s@ =~= Map::<Seq<char>, ContainerStats>::empty());
        }
        s
    }

    /// How many identities are tracked.
    pub fn len(&self) -> (n: usize)
        ensures
            n == self.entry_seq().len(),
    {
        self.entries.len()
    }

    /// Whether nothing is tracked.
    pub fn is_empty(&self) -> (b: bool)
        ensures
            b == (self@ == Map::<Seq<char>, ContainerStats>::empty()),
    {
        proof {
            use_type_invariant(&*self);
            if self.entry_seq().len() == 0 {
                assert(self@ =~= Map::<Seq<char>, ContainerStats>::empty());
            } else {
                assert(seq_has_id(self.entry_seq(), self.entry_seq()[0].0));
                assert(self@.dom().contains(self.entry_seq()[0].0));
            }
        }
        self.entries.len() == 0
    }

    /// The index holding `id`, if any.
    fn find_index(&self, id: &String) -> (r: Option<usize>)
        ensures
            match r {
                Option::Some(i) => i < self.entry_seq().len() && self.entry_seq()[i as int].0
                    == id@,
                Option::None => !seq_has_id(self.entry_seq(), id@),
            },
    {
        let mut i: usize = 0;
        while i < self.entries.len()
            invariant
                i <= self.entry_seq().len(),
                forall|k: int| 0 <= k < i ==> self.entry_seq()[k].0 != id@,
            decreases self.entries.len() - i,
        {
            if self.entries[i].0 == *id {
                return Option::Some(i);
            }
            i = i + 1;
        }
        Option::None
    }

    /// The tracked record for `id`, read-only.
    pub fn get(&self, id: &String) -> (r: Option<&ContainerStats>)
        ensures
            match r {
                Option::Some(s) => self@.dom().contains(id@) && *s == self@[id@],
                Option::None => !self@.dom().contains(id@),
            },
    {
        proof {
            use_type_invariant(&*self);
        }
        match self.find_index(id) {
            Option::Some(i) => {
                proof {
                    lemma_unique_index(self.entry_seq(), id@, i as int);
                }
                Option::Some(&self.entries[i].1)
            },
            Option::None => Option::None,
        }
    }

    /// A copy of the tracked entries, in order, for the status exporter.
    pub fn snapshot(&self) -> (v: Vec<(String, ContainerStats)>)
        ensures
            pairs_view(v@) == self.entry_seq(),
    {
        let mut v: Vec<(String, ContainerStats)> = Vec::new();
        let mut i: usize = 0;
        while i < self.entries.len()
            invariant
                i <= self.entries@.len(),
                v@.len() == i as int,
                forall|j: int|
                    0 <= j < i as int ==> (#[trigger] v@[j]).0@ == self.entries@[j].0@ && v@[j].1
                        == self.entries@[j].1,
            decreases self.entries@.len() - i,
        {
            let name = self.entries[i].0.clone();
            v.push((name, self.entries[i].1));
            i = i + 1;
        }
        proof {
            assert forall|j: int| 0 <= j < v@.len() implies pairs_view(v@)[j] == self.entry_seq()[j]
            by {
                assert(v@[j].0@ == self.entries@[j].0@);
            }
            assert(pairs_view(v@) =~= self.entry_seq());
        }
        v
    }

    /// Drives the per-container state machine one observation forward and
    /// says what to dispatch for it. A record is created lazily on the
    /// first healthy-or-unhealthy observation; a report without a health
    /// status, or with any other value, changes nothing.
    pub fn observe(
        &mut self,
        id: &String,
        health: Option<HealthState>,
        threshold: u16,
        hard: u16,
    ) -> (a: Action)
        ensures
            final(self)@ == map_after_observe(old(self)@, id@, health, threshold),
            a == action_of_observe(old(self)@, id@, health, threshold, hard),
            final(self).entry_seq().len() >= old(self).entry_seq().len(),
    {
        proof {
            use_type_invariant(&*self);
        }
        let h = match health {
            Option::Some(h) => h,
            Option::None => {
                return Action::Nothing;
            },
        };
        match h {
            HealthState::Healthy | HealthState::Unhealthy => {},
            _ => {
                return Action::Nothing;
            },
        }
        let found = self.find_index(id);
        let base = match found {
            Option::Some(i) => self.entries[i].1,
            Option::None => ContainerStats::default(),
        };
        proof {
            if found is Some {
                lemma_unique_index(self.entry_seq(), id@, found->0 as int);
            } else {
                assert(!self@.dom().contains(id@));
            }
            assert(base == observe_base(old(self)@, id@));
        }
        let next = apply_health(base, h, threshold);
        let act = health_action(base, h, threshold, hard);
        let ghost es0 = old(self).entry_seq();
        let mut entries: Vec<(String, ContainerStats)> = Vec::new();
        core::mem::swap(&mut entries, &mut self.entries);
        match found {
            Option::Some(i) => {
                entries[i].1 = next;
                proof {
                    let es1 = pairs_view(entries@);
                    assert(es1 =~= es0.update(i as int, (id@, next)));
                    assert forall|p: int, q: int|
                        0 <= p < q < es1.len() implies es1[p].0 != es1[q].0 by {
                        assert(es1[p].0 == es0[p].0);
                        assert(es1[q].0 == es0[q].0);
                    }
                }
                self.entries = entries;
                proof {
                    let es1 = self.entry_seq();
                    lemma_updated_view(es0, es1, i as int, id@, next);
                    assert(self@ =~= old(self)@.insert(id@, next));
                }
            },
            Option::None => {
                entries.push((id.clone(), next));
                proof {
                    let es1 = pairs_view(entries@);
                    assert(es1 =~= es0.push((id@, next)));
                    assert forall|p: int, q: int|
                        0 <= p < q < es1.len() implies es1[p].0 != es1[q].0 by {
                        if q < es0.len() {
                            assert(es1[p].0 == es0[p].0);
                            assert(es1[q].0 == es0[q].0);
                        } else {
                            assert(es1[q].0 == id@);
                            assert(es1[p].0 == es0[p].0);
                        }
                    }
                }
                self.entries = entries;
                proof {
                    let es1 = self.entry_seq();
                    assert(es1 =~= es0.push((id@, next)));
                    lemma_pushed_view(es0, es1, id@, next);
                    assert(self@ =~= old(self)@.insert(id@, next));
                }
            },
        }
        act
    }
}

/// The store after `k` consecutive unhealthy observations of `id`.
pub open spec fn unhealthy_run(
    m: Map<Seq<char>, ContainerStats>,
    id: Seq<char>,
    k: nat,
    threshold: u16,
) -> Map<Seq<char>, ContainerStats>
    decreases k,
{
    if k == 0 {
        m
    } else {
        map_after_observe(
            unhealthy_run(m, id, (k - 1) as nat, threshold),
            id,
            Option::Some(HealthState::Unhealthy),
            threshold,
        )
    }
}

/// Escalation threshold: a container first observed unhealthy and kept
/// unhealthy dispatches nothing for its first `threshold` observations,
/// while its failure streak counts up; the observation after that — the
/// `threshold + 1`st — dispatches exactly one restart, and the streak is
/// reset to zero with the restart counted.
pub proof fn lemma_escalation_threshold(
    m: Map<Seq<char>, ContainerStats>,
    id: Seq<char>,
    threshold: u16,
    hard: u16,
    k: nat,
)
    requires
        !m.dom().contains(id),
        k <= threshold + 1,
    ensures
        k <= threshold ==> unhealthy_run(m, id, k, threshold) == if k == 0 {
            m
        } else {
            m.insert(
                id,
                ContainerStats {
                    count: 0,
                    restarts: 0,
                    consecutive_failures: k as u16,
                    not_seen_since: Option::None,
                },
            )
        },
        forall|j: nat|
            j < k && j < threshold ==> action_of_observe(
                unhealthy_run(m, id, j, threshold),
                id,
                Option::Some(HealthState::Unhealthy),
                threshold,
                hard,
            ) == Action::Nothing,
        k == threshold + 1 ==> action_of_observe(
            unhealthy_run(m, id, threshold as nat, threshold),
            id,
            Option::Some(HealthState::Unhealthy),
            threshold,
            hard,
        ) == if hard <= 1 {
            Action::RestartAndRemediate
        } else {
            Action::Restart
        },
        k == threshold + 1 ==> unhealthy_run(m, id, k, threshold) == m.insert(
            id,
            ContainerStats {
                count: 0,
                restarts: 1,
                consecutive_failures: 0,
                not_seen_since: Option::None,
            },
        ),
    decreases k,
{
    if k > 0 {
        lemma_escalation_threshold(m, id, threshold, hard, (k - 1) as nat);
        let prev = unhealthy_run(m, id, (k - 1) as nat, threshold);
        let base = observe_base(prev, id);
        if k - 1 == 0 {
            assert(base == ContainerStats::initial());
        } else {
            assert(base.consecutive_failures == k - 1);
        }
        assert(base.count == 0 && base.restarts == 0 && base.not_seen_since is None);
        if k <= threshold {
            assert(base.consecutive_failures != threshold);
            assert(base.consecutive_failures.saturating_add(1) == k as u16);
        } else {
            assert(base.consecutive_failures == threshold);
            assert(base.restarts.saturating_add(1) == 1);
        }
    }
}

/// Hard-failure escalation: when an unhealthy observation crosses the
/// restart threshold, the restart it dispatches is escalated to the
/// remediation command exactly when the restart count it produces has
/// reached the hard-failures threshold; the remediation re-fires on every
/// later crossing, since the restart count is never reset.
pub proof fn lemma_hard_failure_escalation(
    m: Map<Seq<char>, ContainerStats>,
    id: Seq<char>,
    threshold: u16,
    hard: u16,
)
    requires
        m.dom().contains(id),
        m[id].consecutive_failures == threshold,
    ensures
        ({
            let a = action_of_observe(
                m,
                id,
                Option::Some(HealthState::Unhealthy),
                threshold,
                hard,
            );
            let m1 = map_after_observe(m, id, Option::Some(HealthState::Unhealthy), threshold);
            &&& m1[id].restarts == m[id].restarts.saturating_add(1)
            &&& m1[id].consecutive_failures == 0
            &&& a == if m[id].restarts.saturating_add(1) >= hard as u32 {
                Action::RestartAndRemediate
            } else {
                Action::Restart
            }
        }),
{
}

/// Eviction: a tracked container seen this tick is kept with its absence
/// timer cleared; an unseen one is evicted on the first tick whose
/// poll-clock time is at least `purge` seconds past the start of its
/// absence, and until then is kept with the timer running from the first
/// tick that missed it.
pub proof fn lemma_eviction(
    m: Map<Seq<char>, ContainerStats>,
    id: Seq<char>,
    active: Seq<Seq<char>>,
    now: u64,
    purge: u64,
)
    requires
        m.dom().contains(id),
    ensures
        ({
            let sm = sweep_map(m, active, now, purge);
            let start = absence_start(m[id], now);
            &&& active.contains(id) ==> sm.dom().contains(id) && sm[id] == (ContainerStats {
                not_seen_since: Option::None,
                ..m[id]
            })
            &&& !active.contains(id) && now.saturating_sub(start) >= purge ==> !sm.dom().contains(
                id,
            )
            &&& !active.contains(id) && now.saturating_sub(start) < purge ==> sm.dom().contains(id)
                && sm[id] == (ContainerStats { not_seen_since: Option::Some(start), ..m[id] })
        }),
{
}

/// The kept entries after sweeping the first `i` entries of `es`, in order.
spec fn swept_prefix(
    es: Seq<(Seq<char>, ContainerStats)>,
    i: int,
    ids: Seq<Seq<char>>,
    now: u64,
    purge: u64,
) -> Seq<(Seq<char>, ContainerStats)>
    decreases i,
{
    if i <= 0 {
        Seq::empty()
    } else {
        let prev = swept_prefix(es, i - 1, ids, now, purge);
        let e = es[i - 1];
        if swept_keeps(e.1, ids.contains(e.0), now, purge) {
            prev.push((e.0, swept_stats(e.1, ids.contains(e.0), now)))
        } else {
            prev
        }
    }
}

/// What the sweep's prefix fold keeps: exactly the surviving entries of the
/// prefix, with their records updated, ids still unique.
proof fn lemma_swept_prefix_char(
    es: Seq<(Seq<char>, ContainerStats)>,
    ids: Seq<Seq<char>>,
    now: u64,
    purge: u64,
    i: int,
)
    requires
        unique_ids(es),
        0 <= i <= es.len(),
    ensures
        unique_ids(swept_prefix(es, i, ids, now, purge)),
        forall|x: Seq<char>|
            #[trigger] seq_has_id(swept_prefix(es, i, ids, now, purge), x) ==> exists|k: int|
                0 <= k < i && es[k].0 == x,
        forall|k: int|
            0 <= k < i ==> {
                let e = #[trigger] es[k];
                let sp = swept_prefix(es, i, ids, now, purge);
                if swept_keeps(e.1, ids.contains(e.0), now, purge) {
                    seq_has_id(sp, e.0) && seq_lookup(sp, e.0) == swept_stats(
                        e.1,
                        ids.contains(e.0),
                        now,
                    )
                } else {
                    !seq_has_id(sp, e.0)
                }
            },
    decreases i,
{
    if i > 0 {
        lemma_swept_prefix_char(es, ids, now, purge, i - 1);
        let prev = swept_prefix(es, i - 1, ids, now, purge);
        let sp = swept_prefix(es, i, ids, now, purge);
        let e = es[i - 1];
        assert(!seq_has_id(prev, e.0)) by {
            if seq_has_id(prev, e.0) {
                let k = choose|k: int| 0 <= k < i - 1 && es[k].0 == e.0;
                assert(es[k].0 != es[i - 1].0);
            }
        }
        if swept_keeps(e.1, ids.contains(e.0), now, purge) {
            let st = swept_stats(e.1, ids.contains(e.0), now);
            assert(sp == prev.push((e.0, st)));
            assert forall|p: int, q: int| 0 <= p < q < sp.len() implies sp[p].0 != sp[q].0 by {
                if q < prev.len() {
                    assert(sp[p] == prev[p] && sp[q] == prev[q]);
                } else {
                    assert(sp[q].0 == e.0);
                    assert(sp[p] == prev[p]);
                    assert(seq_has_id(prev, prev[p].0));
                    if prev[p].0 == e.0 {
                        assert(seq_has_id(prev, e.0));
                    }
                }
            }
            lemma_pushed_view(prev, sp, e.0, st);
            assert forall|x: Seq<char>| #[trigger] seq_has_id(sp, x) implies exists|k: int|
                0 <= k < i && es[k].0 == x by {
                if x == e.0 {
                    assert(es[i - 1].0 == x);
                } else {
                    assert(seq_has_id(prev, x));
                }
            }
        } else {
            assert(sp == prev);
        }
    }
}

/// With unique ids, an entry's index is the only one holding its id, so the
/// association-list lookup lands on it.
proof fn lemma_unique_index(es: Seq<(Seq<char>, ContainerStats)>, id: Seq<char>, j: int)
    requires
        unique_ids(es),
        0 <= j < es.len(),
        es[j].0 == id,
    ensures
        seq_has_id(es, id),
        seq_lookup(es, id) == es[j].1,
{
    assert(seq_has_id(es, id));
    let k = choose|k: int| 0 <= k < es.len() && es[k].0 == id;
    if k < j {
        assert(es[k].0 != es[j].0);
    } else if j < k {
        assert(es[j].0 != es[k].0);
    }
}

/// Updating one entry's record updates the viewed map at that id alone.
proof fn lemma_updated_view(
    es0: Seq<(Seq<char>, ContainerStats)>,
    es1: Seq<(Seq<char>, ContainerStats)>,
    i: int,
    id: Seq<char>,
    next: ContainerStats,
)
    requires
        unique_ids(es0),
        unique_ids(es1),
        0 <= i < es0.len(),
        es0[i].0 == id,
        es1 == es0.update(i, (id, next)),
    ensures
        forall|x: Seq<char>| seq_has_id(es1, x) <==> seq_has_id(es0, x),
        seq_lookup(es1, id) == next,
        forall|x: Seq<char>|
            x != id && #[trigger] seq_has_id(es0, x) ==> seq_lookup(es1, x) == seq_lookup(
                es0,
                x,
            ),
{
    assert forall|x: Seq<char>| seq_has_id(es1, x) <==> seq_has_id(es0, x) by {
        if seq_has_id(es1, x) {
            let k = choose|k: int| 0 <= k < es1.len() && es1[k].0 == x;
            assert(es0[k].0 == x || (k == i && x == id));
            assert(seq_has_id(es0, x));
        }
        if seq_has_id(es0, x) {
            let k = choose|k: int| 0 <= k < es0.len() && es0[k].0 == x;
            assert(es1[k].0 == x || (k == i && x == id));
            if k == i && x == id {
                assert(es1[i].0 == id);
            }
            assert(seq_has_id(es1, x));
        }
    }
    lemma_unique_index(es1, id, i);
    assert forall|x: Seq<char>|
        x != id && #[trigger] seq_has_id(es0, x) implies seq_lookup(es1, x) == seq_lookup(
        es0,
        x,
    ) by {
        let k = choose|k: int| 0 <= k < es0.len() && es0[k].0 == x;
        assert(k != i);
        assert(es1[k].0 == x);
        lemma_unique_index(es0, x, k);
        lemma_unique_index(es1, x, k);
    }
}

/// Appending a fresh id extends the viewed map by that id alone.
proof fn lemma_pushed_view(
    es0: Seq<(Seq<char>, ContainerStats)>,
    es1: Seq<(Seq<char>, ContainerStats)>,
    id: Seq<char>,
    next: ContainerStats,
)
    requires
        unique_ids(es0),
        unique_ids(es1),
        !seq_has_id(es0, id),
        es1 == es0.push((id, next)),
    ensures
        forall|x: Seq<char>| seq_has_id(es1, x) <==> (seq_has_id(es0, x) || x == id),
        seq_lookup(es1, id) == next,
        forall|x: Seq<char>|
            x != id && #[trigger] seq_has_id(es0, x) ==> seq_lookup(es1, x) == seq_lookup(
                es0,
                x,
            ),
{
    assert forall|x: Seq<char>| seq_has_id(es1, x) <==> (seq_has_id(es0, x) || x == id) by {
        if seq_has_id(es1, x) {
            let k = choose|k: int| 0 <= k < es1.len() && es1[k].0 == x;
            if k < es0.len() {
                assert(seq_has_id(es0, x));
            } else {
                assert(x == id);
            }
        }
        if seq_has_id(es0, x) {
            let k = choose|k: int| 0 <= k < es0.len() && es0[k].0 == x;
            assert(es1[k].0 == x);
            assert(seq_has_id(es1, x));
        }
        if x == id {
            assert(es1[es0.len() as int].0 == id);
            assert(seq_has_id(es1, x));
        }
    }
    lemma_unique_index(es1, id, es0.len() as int);
    assert forall|x: Seq<char>|
        x != id && #[trigger] seq_has_id(es0, x) implies seq_lookup(es1, x) == seq_lookup(
        es0,
        x,
    ) by {
        let k = choose|k: int| 0 <= k < es0.len() && es0[k].0 == x;
        assert(es1[k].0 == x);
        lemma_unique_index(es0, x, k);
        lemma_unique_index(es1, x, k);
    }
}

/// Whether `s` occurs in `v`, by character-wise string equality.
fn contains_string(v: &Vec<String>, s: &String) -> (b: bool)
    ensures
        b == ids_view(v@).contains(s@),
{
    let mut i: usize = 0;
    while i < v.len()
        invariant
            i <= v@.len(),
            forall|k: int| 0 <= k < i as int ==> v@[k]@ != s@,
        decreases v@.len() - i,
    {
        if v[i] == *s {
            proof {
                assert(ids_view(v@)[i as int] == s@);
            }
            return true;
        }
        i = i + 1;
    }
    proof {
        assert forall|k: int| 0 <= k < ids_view(v@).len() implies ids_view(v@)[k] != s@ by {
            assert(v@[k]@ != s@);
        }
    }
    false
}

/// Concatenating a viewed pair onto an association list views as the pushed
/// pair.
proof fn lemma_pairs_view_push(
    prev: Seq<(String, ContainerStats)>,
    cur: Seq<(String, ContainerStats)>,
    name: String,
    st: ContainerStats,
)
    requires
        cur == prev.push((name, st)),
    ensures
        pairs_view(cur) =~= pairs_view(prev).push((name@, st)),
{
    assert forall|j: int| 0 <= j < cur.len() implies pairs_view(cur)[j] == pairs_view(prev).push(
        (name@, st),
    )[j] by {
        if j < prev.len() {
            assert(cur[j] == prev[j]);
        } else {
            assert(cur[j] == (name, st));
        }
    }
}

impl StatsStore {
    /// The per-tick eviction pass. Every identity in `active` stays and its
    /// absence timer is cleared; an absent identity gets its timer started
    /// at `now`, and is evicted once its recorded absence has lasted at
    /// least `purge` seconds of the poll clock.
    pub fn sweep(&mut self, active: &Vec<String>, now: u64, purge: u64)
        ensures
            final(self)@ == sweep_map(old(self)@, ids_view(active@), now, purge),
    {
        proof {
            use_type_invariant(&*self);
        }
        let ghost es = self.entry_seq();
        let ghost ids = ids_view(active@);
        let mut kept: Vec<(String, ContainerStats)> = Vec::new();
        let n = self.entries.len();
        let mut i: usize = 0;
        while i < n
            invariant
                i <= n,
                n == self.entries@.len(),
                es == self.entry_seq(),
                ids == ids_view(active@),
                unique_ids(es),
                pairs_view(kept@) == swept_prefix(es, i as int, ids, now, purge),
            decreases n - i,
        {
            let ghost prevk = kept@;
            let present = contains_string(active, &self.entries[i].0);
            let s = self.entries[i].1;
            proof {
                assert(es[i as int] == (self.entries@[i as int].0@, s));
                assert(present == ids.contains(es[i as int].0));
            }
            if present {
                let name = self.entries[i].0.clone();
                let ns = ContainerStats { not_seen_since: Option::None, ..s };
                kept.push((name, ns));
                proof {
                    lemma_pairs_view_push(prevk, kept@, name, ns);
                    assert(ns == swept_stats(s, true, now));
                    assert(pairs_view(kept@) =~= swept_prefix(es, i as int + 1, ids, now, purge));
                }
            } else {
                let t0 = match s.not_seen_since {
                    Option::Some(t) => t,
                    Option::None => now,
                };
                proof {
                    assert(t0 == absence_start(s, now));
                }
                if now.saturating_sub(t0) < purge {
                    let name = self.entries[i].0.clone();
                    let ns = ContainerStats { not_seen_since: Option::Some(t0), ..s };
                    kept.push((name, ns));
                    proof {
                        lemma_pairs_view_push(prevk, kept@, name, ns);
                        assert(ns == swept_stats(s, false, now));
                        assert(pairs_view(kept@) =~= swept_prefix(
                            es,
                            i as int + 1,
                            ids,
                            now,
                            purge,
                        ));
                    }
                } else {
                    proof {
                        assert(!swept_keeps(s, false, now, purge));
                        assert(pairs_view(kept@) == swept_prefix(es, i as int + 1, ids, now, purge));
                    }
                }
            }
            i = i + 1;
        }
        proof {
            lemma_swept_prefix_char(es, ids, now, purge, n as int);
        }
        self.entries = kept;
        proof {
            let sp = swept_prefix(es, n as int, ids, now, purge);
            let m0 = old(self)@;
            let target = sweep_map(m0, ids, now, purge);
            assert forall|x: Seq<char>|
                seq_has_id(sp, x) <==> (seq_has_id(es, x) && swept_keeps(
                    seq_lookup(es, x),
                    ids.contains(x),
                    now,
                    purge,
                )) by {
                if seq_has_id(sp, x) {
                    let k = choose|k: int| 0 <= k < n && es[k].0 == x;
                    assert(exists|k: int| 0 <= k < n && es[k].0 == x);
                    lemma_unique_index(es, x, k);
                    assert(seq_has_id(sp, es[k].0));
                }
                if seq_has_id(es, x) {
                    let k = choose|k: int| 0 <= k < es.len() && es[k].0 == x;
                    lemma_unique_index(es, x, k);
                    assert(es[k].0 == x && es[k].1 == seq_lookup(es, x));
                }
            }
            assert forall|x: Seq<char>| #[trigger] seq_has_id(sp, x) implies seq_lookup(sp, x)
                == swept_stats(seq_lookup(es, x), ids.contains(x), now) by {
                let k = choose|k: int| 0 <= k < n && es[k].0 == x;
                assert(exists|k: int| 0 <= k < n && es[k].0 == x);
                lemma_unique_index(es, x, k);
            }
            assert(self@ =~= target);
        }
    }
}

/// The counters after one health observation; mirrors `stats_after`.
fn apply_health(s: ContainerStats, h: HealthState, threshold: u16) -> (r: ContainerStats)
    ensures
        r == stats_after(s, h, threshold),
{
    match h {
        HealthState::Healthy => ContainerStats { count: s.count.saturating_add(1), ..s },
        HealthState::Unhealthy => if s.consecutive_failures == threshold {
            ContainerStats {
                restarts: s.restarts.saturating_add(1),
                consecutive_failures: 0,
                ..s
            }
        } else {
            ContainerStats {
                consecutive_failures: s.consecutive_failures.saturating_add(1),
                ..s
            }
        },
        _ => s,
    }
}

/// What one health observation dispatches; mirrors `action_after`.
fn health_action(s: ContainerStats, h: HealthState, threshold: u16, hard: u16) -> (a: Action)
    ensures
        a == action_after(s, h, threshold, hard),
{
    match h {
        HealthState::Unhealthy => if s.consecutive_failures == threshold {
            if s.restarts.saturating_add(1) >= hard as u32 {
                Action::RestartAndRemediate
            } else {
                Action::Restart
            }
        } else {
            Action::Nothing
        },
        _ => Action::Nothing,
    }
}

} // verus!
