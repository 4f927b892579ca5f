//! Validated configuration as the watch loop consumes it, and the bitmask
//! that records which container attributes the filter applies to.

use vstd::prelude::*;

verus! {

/// Log levels for the checker's own module and for everything else.
#[derive(Debug)]
pub struct LoggingConfig {
    pub checker: String,
    pub default: String,
}

/// How to reach the container runtime, and how long an unseen container's
/// stats entry survives before it is evicted.
#[derive(Debug)]
pub struct DockerConfig {
    pub connect_uri: String,
    pub tls: bool,
    pub purge_unseen: u64,
}

/// Which bit of the mask a recognized category token contributes.
/// Unrecognized tokens contribute nothing.
pub open spec fn token_bit(t: Seq<char>) -> u8 {
    if t == "name"@ {
        1u8
    } else if t == "image"@ {
        2u8
    } else if t == "label"@ {
        4u8
    } else {
        0u8
    }
}

/// The mask obtained by folding a list of category tokens, left to right.
pub open spec fn mask_of(ts: Seq<Seq<char>>) -> u8
    decreases ts.len(),
{
    if ts.len() == 0 {
        0u8
    } else {
        mask_of(ts.drop_last()) | token_bit(ts.last())
    }
}

/// Whether bit `idx` of `mask` is set.
pub open spec fn spec_bit(mask: u8, idx: u8) -> bool {
    (mask >> idx) & 1 == 1
}

/// A bitmask over the three filter categories: match-name, match-image,
/// match-label. Built once from the configured token list; tokens the
/// fold does not recognize are silently dropped.
#[derive(Debug, Clone, Copy, PartialEq, Eq, Structural)]
pub struct ApplyTo {
    mask: u8,
}

impl ApplyTo {
    /// The raw category mask.
    pub closed spec fn mask_spec(self) -> u8 {
        self.mask
    }

    /// The match-name category is enabled.
    pub open spec fn filters_names(self) -> bool {
        spec_bit(self.mask_spec(), 0)
    }

    /// The match-image category is enabled.
    pub open spec fn filters_images(self) -> bool {
        spec_bit(self.mask_spec(), 1)
    }

    /// The match-label category is enabled.
    pub open spec fn filters_labels(self) -> bool {
        spec_bit(self.mask_spec(), 2)
    }

    /// Tests one bit of the mask.
    #[inline]
    pub fn match_bit(&self, idx: u8) -> (b: bool)
        requires
            idx < 8,
        ensures
            b == spec_bit(self.mask_spec(), idx),
    {
        (self.mask >> idx) & 1 == 1
    }

    /// Folds a list of category tokens into a mask. Recognized tokens are
    /// `"name"`, `"image"` and `"label"`; every other token is ignored.
    /// Never fails: an empty or fully unrecognized list yields the empty
    /// mask, under which the filter includes nothing.
    pub fn from_vec(v: &Vec<String>) -> (r: Result<Self, ()>)
        ensures
            r is Ok,
            r->Ok_0.mask_spec() == mask_of(v@.map_values(|s: String| s@)),
    {
        let name_tok: String = "name".to_owned();
        let image_tok: String = "image".to_owned();
        let label_tok: String = "label".to_owned();
        let ghost ts = v@.map_values(|s: String| s@);
        let mut mask: u8 = 0;
        let mut i: usize = 0;
        while i < v.len()
            invariant
                i <= v.len(),
                ts == v@.map_values(|s: String| s@),
                mask == mask_of(ts.take(i as int)),
                name_tok@ == "name"@,
                image_tok@ == "image"@,
                label_tok@ == "label"@,
            decreases v.len() - i,
        {
            let x: &String = &v[i];
            let bit: u8 = if *x == name_tok {
                1
            } else if *x == image_tok {
                2
            } else if *x == label_tok {
                4
            } else {
                0
            };
            proof {
                assert(ts.take(i + 1).drop_last() =~= ts.take(i as int));
                assert(ts.take(i + 1).last() == ts[i as int]);
                assert(bit == token_bit(ts[i as int]));
            }
            mask = mask | bit;
            i = i + 1;
        }
        proof {
            assert(ts.take(v.len() as int) =~= ts);
        }
        Ok(ApplyTo { mask })
    }

    /// The match-image category is enabled.
    pub fn should_filter_images(&self) -> (b: bool)
        ensures
            b == self.filters_images(),
    {
        self.match_bit(1)
    }

    /// The match-name category is enabled.
    pub fn should_filter_names(&self) -> (b: bool)
        ensures
            b == self.filters_names(),
    {
        self.match_bit(0)
    }

    /// The match-label category is enabled.
    pub fn should_filter_labels(&self) -> (b: bool)
        ensures
            b == self.filters_labels(),
    {
        self.match_bit(2)
    }

    /// The raw mask, for inspection.
    pub fn mask(&self) -> (m: u8)
        ensures
            m == self.mask_spec(),
    {
        self.mask
    }
}

/// Category presence is monotonic in the token list: a bit set by some
/// prefix is still set after further tokens are folded in.
pub proof fn lemma_mask_monotonic(ts: Seq<Seq<char>>, t: Seq<char>, idx: u8)
    requires
        idx < 8,
        spec_bit(mask_of(ts), idx),
    ensures
        spec_bit(mask_of(ts.push(t)), idx),
{
    assert(ts.push(t).drop_last() =~= ts);
    assert(ts.push(t).last() == t);
    let m = mask_of(ts);
    let b = token_bit(t);
    assert(spec_bit(m, idx) ==> spec_bit(m | b, idx)) by (bit_vector);
}

/// Duplicate tokens are idempotent: folding a token already present in the
/// list leaves the mask unchanged.
pub proof fn lemma_mask_duplicate_idempotent(ts: Seq<Seq<char>>, t: Seq<char>)
    requires
        ts.contains(t),
    ensures
        mask_of(ts.push(t)) == mask_of(ts),
    decreases ts.len(),
{
    assert(ts.push(t).drop_last() =~= ts);
    assert(ts.push(t).last() == t);
    lemma_mask_contains_bit(ts, t);
    let m = mask_of(ts);
    let b = token_bit(t);
    assert((m | b) == b | m) by (bit_vector);
}

/// If the list contains a token, the mask already holds that token's bit:
/// folding it in again changes nothing.
proof fn lemma_mask_contains_bit(ts: Seq<Seq<char>>, t: Seq<char>)
    requires
        ts.contains(t),
    ensures
        mask_of(ts) | token_bit(t) == mask_of(ts),
    decreases ts.len(),
{
    let m0 = mask_of(ts.drop_last());
    let bl = token_bit(ts.last());
    let b = token_bit(t);
    if ts.last() == t {
        assert((m0 | bl) | bl == m0 | bl) by (bit_vector);
    } else {
        assert(ts.drop_last().contains(t)) by {
            let i = choose|i: int| 0 <= i < ts.len() && ts[i] == t;
            assert(ts.drop_last()[i] == t);
        }
        lemma_mask_contains_bit(ts.drop_last(), t);
        assert(m0 | b == m0 ==> (m0 | bl) | b == m0 | bl) by (bit_vector);
    }
}

/// Scope, thresholds and the remediation command for the escalation policy.
#[derive(Debug)]
pub struct ContainersConfig {
    pub filter_by: String,
    pub apply_filter_to: ApplyTo,
    pub consecutive_failures: u16,
    pub hard_failures: u16,
    pub run_on_failure: String,
    pub filter_self: String,
}

/// Optional cloud health reporting, consumed by collaborators only.
#[derive(Debug)]
pub struct AwsAsgConfig {
    pub healthcheck: bool,
}

/// Optional cloud integration, consumed by collaborators only.
#[derive(Debug)]
pub struct AwsConfig {
    pub enabled: bool,
    pub asg: AwsAsgConfig,
}

/// The whole validated configuration, built by the loading collaborator and
/// handed in at startup.
#[derive(Debug)]
pub struct Config {
    pub logging: LoggingConfig,
    pub docker: DockerConfig,
    pub containers: ContainersConfig,
    pub aws: AwsConfig,
}

} // verus!
