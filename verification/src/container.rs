//! The slice of a container's runtime-reported state that the checker reads:
//! identity, display names, image reference, labels, and the health status
//! drawn from its last check. A snapshot per poll tick, owned by the tick.

use vstd::prelude::*;

verus! {

/// The health status a container reports, when it has a healthcheck at all.
/// `NoHealthcheck` and `Starting` leave the counters untouched.
#[derive(Debug, Clone, Copy, PartialEq, Eq, Structural)]
pub enum HealthState {
    NoHealthcheck,
    Starting,
    Healthy,
    Unhealthy,
}

/// A container as one poll tick sees it. Labels are name/value pairs;
/// a runtime that reports none at all hands over `None`.
#[derive(Debug)]
pub struct ContainerInfo {
    pub id: String,
    pub names: Vec<String>,
    pub image: String,
    pub labels: Option<Vec<(String, String)>>,
}

impl ContainerInfo {
    /// The display names, as character sequences.
    pub open spec fn names_view(self) -> Seq<Seq<char>> {
        self.names@.map_values(|s: String| s@)
    }

    /// The label name/value pairs, as character sequences; empty when the
    /// runtime reported no label mapping.
    pub open spec fn label_pairs(self) -> Seq<(Seq<char>, Seq<char>)> {
        match self.labels {
            Some(v) => v@.map_values(|p: (String, String)| (p.0@, p.1@)),
            None => Seq::empty(),
        }
    }
}

} // verus!
