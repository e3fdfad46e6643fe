use vstd::prelude::*;
use crate::config::ConfigValue;
use vstd::arithmetic::div_mod::lemma_div_multiples_vanish;

verus! {

/// Scores are fixed-point fractions of one: a value of `s` milli-units stands
/// for the real score `s / 1000`, so the score range [0, 1] is [0, 1000].
pub const SCORE_UNIT: u32 = 1000;

/// Whether a non-zero score pushes the verdict toward blocking or allowing.
#[derive(Clone, Copy, Debug, PartialEq, Eq, Structural)]
pub enum Direction {
    Restrict,
    Accept,
}

/// The outcome of one detector invocation: a bounded score, its direction,
/// and observability tags.
#[derive(Debug)]
pub struct Decision {
    /// Score in milli-units, always at most `SCORE_UNIT`.
    pub score_milli: u32,
    pub direction: Direction,
    pub tags: Vec<String>,
}

impl Decision {
    pub open spec fn wf(&self) -> bool {
        self.score_milli <= 1000
    }
}

pub open spec fn spec_clamp_score_milli(x: int) -> nat {
    if x < 0 {
        0
    } else if x > 1000 {
        1000
    } else {
        x as nat
    }
}

/// Clamp a raw fixed-point quantity into the score range [0, 1000] milli.
pub fn clamp_score_milli(x: i128) -> (r: u32)
    ensures
        r == spec_clamp_score_milli(x as int),
        r <= 1000,
{
    if x < 0 {
        0
    } else if x > 1000 {
        1000
    } else {
        x as u32
    }
}

// ---------------------------------------------------------------------------
// Length-excess scaling
// ---------------------------------------------------------------------------

/// Length of a value before it begins to count as excess.
pub const DEFAULT_MAX_LEN: u64 = 120;

/// Excess length at which the length-excess score saturates.
pub const DEFAULT_MAX_EXCESS: u64 = 150;

/// Score at the saturation point, in milli-units.
pub const DEFAULT_MAX_SCORE_MILLI: u32 = 750;

pub open spec fn spec_length_excess(len: nat, max_len: nat) -> nat {
    if len > max_len {
        (len - max_len) as nat
    } else {
        0
    }
}

/// Zero at or below `max_len`, then growing by `max_score / max_excess` per
/// character (in milli-units, rounded down), saturating at `max_score`.
pub open spec fn spec_length_excess_score(len: nat, max_len: nat, max_excess: nat, max_score: nat) -> nat
    recommends
        max_excess > 0,
{
    let raw = (spec_length_excess(len, max_len) * max_score) as int / max_excess as int;
    if raw > max_score {
        max_score
    } else {
        raw as nat
    }
}

pub fn length_excess_score(len: u64, max_len: u64, max_excess: u64, max_score: u32) -> (r: u32)
    requires
        max_excess > 0,
        max_score <= 1000,
    ensures
        r == spec_length_excess_score(len as nat, max_len as nat, max_excess as nat, max_score as nat),
        r <= max_score,
{
    let excess: u128 = if len > max_len {
        (len - max_len) as u128
    } else {
        0
    };
    proof {
        assert(excess * (max_score as u128) <= (u64::MAX as u128) * 1000) by (nonlinear_arith)
            requires
                excess <= u64::MAX,
                max_score <= 1000,
        ;
    }
    let raw: u128 = (excess * (max_score as u128)) / (max_excess as u128);
    if raw > max_score as u128 {
        max_score
    } else {
        raw as u32
    }
}

/// Piecewise description of the default length-excess curve: zero up to the
/// threshold, five milli-units per character of excess strictly between, and
/// capped at 750 milli (0.75) from the saturation length on.
pub proof fn lemma_length_excess_defaults(len: nat)
    ensures
        len <= 120 ==> spec_length_excess_score(len, 120, 150, 750) == 0,
        len >= 270 ==> spec_length_excess_score(len, 120, 150, 750) == 750,
        120 < len < 270 ==> spec_length_excess_score(len, 120, 150, 750) == (len - 120) * 5,
{
    if len > 120 {
        let e = (len - 120) as nat;
        assert(e * 750 == 150 * (e * 5)) by (nonlinear_arith);
        lemma_div_multiples_vanish((e * 5) as int, 150);
        assert(e * 750 / 150 == e * 5);
        if len >= 270 {
            assert(e * 5 >= 750) by (nonlinear_arith)
                requires
                    e >= 150,
            ;
        } else {
            assert(e * 5 < 750) by (nonlinear_arith)
                requires
                    e < 150,
            ;
        }
    }
}

/// On the default curve the score grows strictly with the length anywhere
/// strictly between the threshold and the saturation length.
pub proof fn lemma_length_excess_strictly_increasing(l1: nat, l2: nat)
    requires
        120 <= l1 < l2 <= 270,
    ensures
        spec_length_excess_score(l1, 120, 150, 750) < spec_length_excess_score(l2, 120, 150, 750),
{
    lemma_length_excess_defaults(l1);
    lemma_length_excess_defaults(l2);
    if l1 > 120 && l2 < 270 {
        assert((l1 - 120) * 5 < (l2 - 120) * 5) by (nonlinear_arith)
            requires
                120 < l1 < l2,
        ;
    } else if l1 == 120 && l2 < 270 {
        assert((l2 - 120) * 5 > 0) by (nonlinear_arith)
            requires
                l2 > 120,
        ;
    } else if l1 > 120 && l2 == 270 {
        assert((l1 - 120) * 5 < 750) by (nonlinear_arith)
            requires
                120 < l1 < 270,
        ;
    }
}

// ---------------------------------------------------------------------------
// Match-count scaling
// ---------------------------------------------------------------------------

/// A configured increment per distinct-pattern match, multiplied by the total
/// match count and clamped into the score range.
pub open spec fn spec_match_score(k_milli: int, n: nat) -> nat {
    spec_clamp_score_milli(k_milli * n)
}

pub fn match_score(k_milli: i64, n: u128) -> (r: u32)
    ensures
        r == spec_match_score(k_milli as int, n as nat),
        r <= 1000,
{
    if k_milli <= 0 {
        proof {
            assert(k_milli * n <= 0) by (nonlinear_arith)
                requires
                    k_milli <= 0,
                    n >= 0,
            ;
        }
        0
    } else if n >= 1000 {
        proof {
            assert(k_milli * n >= 1000) by (nonlinear_arith)
                requires
                    k_milli >= 1,
                    n >= 1000,
            ;
        }
        1000
    } else {
        proof {
            assert(k_milli * n <= (i64::MAX as int) * 1000) by (nonlinear_arith)
                requires
                    0 <= k_milli <= i64::MAX,
                    n < 1000,
            ;
        }
        clamp_score_milli((k_milli as i128) * (n as i128))
    }
}

// ---------------------------------------------------------------------------
// Tiered-threshold scaling
// ---------------------------------------------------------------------------

/// A soft limit applies to sizes above 15 MiB.
pub const DEFAULT_SOFT_LIMIT: u64 = 15 * 1048576;

/// A hard limit applies to sizes above 50 MiB.
pub const DEFAULT_HARD_LIMIT: u64 = 50 * 1048576;

/// Weight of the soft tier in milli-units; rarely restricts on its own.
pub const DEFAULT_SOFT_WEIGHT_MILLI: u32 = 150;

/// Weight of the hard tier in milli-units: the maximal score.
pub const DEFAULT_HARD_WEIGHT_MILLI: u32 = 1000;

/// Named threshold bucket for size-based scoring.
#[derive(Clone, Copy, Debug, PartialEq, Eq, Structural)]
pub enum BodyLimit {
    Normal,
    SoftLimit,
    HardLimit,
}

/// Equality at a threshold belongs to the lower tier.
pub open spec fn spec_tier(size: nat, soft: nat, hard: nat) -> BodyLimit {
    if size > hard {
        BodyLimit::HardLimit
    } else if size > soft {
        BodyLimit::SoftLimit
    } else {
        BodyLimit::Normal
    }
}

pub open spec fn spec_tier_weight(tier: BodyLimit, soft_w: nat, hard_w: nat) -> nat {
    match tier {
        BodyLimit::HardLimit => hard_w,
        BodyLimit::SoftLimit => soft_w,
        BodyLimit::Normal => 0,
    }
}

/// A configured limit: the integer value of the entry if it holds one,
/// otherwise the default.
pub open spec fn spec_resolved_limit(v: Option<ConfigValue>, default: nat) -> nat {
    match v {
        Some(cv) => match cv.spec_as_u64() {
            Some(n) => n as nat,
            None => default,
        },
        None => default,
    }
}

/// A configured weight: the configured number clamped into the score range if
/// the entry holds a number, otherwise the default.
pub open spec fn spec_resolved_weight(v: Option<ConfigValue>, default: nat) -> nat {
    match v {
        Some(cv) => match cv.spec_as_milli() {
            Some(m) => spec_clamp_score_milli(m as int),
            None => default,
        },
        None => default,
    }
}

/// Checks which size tier a measured size falls in, against configured or
/// default thresholds.
pub fn body_limit(soft_limit: Option<&ConfigValue>, hard_limit: Option<&ConfigValue>, size: u64) -> (r: BodyLimit)
    ensures
        r == spec_tier(
            size as nat,
            spec_resolved_limit(crate::config::opt_value(soft_limit), DEFAULT_SOFT_LIMIT as nat),
            spec_resolved_limit(crate::config::opt_value(hard_limit), DEFAULT_HARD_LIMIT as nat),
        ),
{
    let soft: u64 = match soft_limit {
        Some(cv) => match cv.as_u64() {
            Some(n) => n,
            None => DEFAULT_SOFT_LIMIT,
        },
        None => DEFAULT_SOFT_LIMIT,
    };
    let hard: u64 = match hard_limit {
        Some(cv) => match cv.as_u64() {
            Some(n) => n,
            None => DEFAULT_HARD_LIMIT,
        },
        None => DEFAULT_HARD_LIMIT,
    };
    if size > hard {
        BodyLimit::HardLimit
    } else if size > soft {
        BodyLimit::SoftLimit
    } else {
        BodyLimit::Normal
    }
}

/// Determines the restrict weight owed for a size tier, against configured or
/// default weights.
pub fn weight_limit(soft_weight: Option<&ConfigValue>, hard_weight: Option<&ConfigValue>, limit: BodyLimit) -> (r: u32)
    ensures
        r == spec_tier_weight(
            limit,
            spec_resolved_weight(crate::config::opt_value(soft_weight), DEFAULT_SOFT_WEIGHT_MILLI as nat),
            spec_resolved_weight(crate::config::opt_value(hard_weight), DEFAULT_HARD_WEIGHT_MILLI as nat),
        ),
        r <= 1000,
{
    match limit {
        BodyLimit::HardLimit => match hard_weight {
            Some(cv) => match cv.as_milli() {
                Some(m) => clamp_score_milli(m as i128),
                None => DEFAULT_HARD_WEIGHT_MILLI,
            },
            None => DEFAULT_HARD_WEIGHT_MILLI,
        },
        BodyLimit::SoftLimit => match soft_weight {
            Some(cv) => match cv.as_milli() {
                Some(m) => clamp_score_milli(m as i128),
                None => DEFAULT_SOFT_WEIGHT_MILLI,
            },
            None => DEFAULT_SOFT_WEIGHT_MILLI,
        },
        BodyLimit::Normal => 0,
    }
}

/// The whole tiered scale in one statement: at or below the soft limit the
/// tier is Normal and the weight zero; above it and at or below the hard
/// limit, SoftLimit with the soft weight; above the hard limit, HardLimit
/// with the hard weight.
pub proof fn lemma_tier_scoring(size: nat, soft: nat, hard: nat, soft_w: nat, hard_w: nat)
    requires
        soft < hard,
    ensures
        size <= soft ==> spec_tier(size, soft, hard) == BodyLimit::Normal
            && spec_tier_weight(spec_tier(size, soft, hard), soft_w, hard_w) == 0,
        soft < size <= hard ==> spec_tier(size, soft, hard) == BodyLimit::SoftLimit
            && spec_tier_weight(spec_tier(size, soft, hard), soft_w, hard_w) == soft_w,
        size > hard ==> spec_tier(size, soft, hard) == BodyLimit::HardLimit
            && spec_tier_weight(spec_tier(size, soft, hard), soft_w, hard_w) == hard_w,
{
}

} // verus!
