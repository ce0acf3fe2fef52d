//! Content severity scoring.
//!
//! A classification is a set of toxicity category flags.  Each category has
//! a fixed signed weight; the raw score of a classification is the sum of
//! the weights of the categories present.  The raw score is normalised by
//! the sum of the two largest positive weights (an upper-bound
//! approximation) and clamped into the unit interval.  Scores are held in
//! thousandths (a value of 1000 stands for 1.0) so that every step is exact
//! integer arithmetic.

use vstd::prelude::*;

verus! {

/// The largest score value: 1000 thousandths stands for 1.0.
pub const SCORE_ONE: u32 = 1000;

/// Normalisation divisor: the sum of the two largest positive weights
/// (severe, 15000, and offensive, 4000), in thousandths.
pub const SCORE_DIVISOR: u32 = 19000;

/// Toxicity category flags attached to a piece of content by the analyser.
/// Categories are not mutually exclusive; any subset may be present.
#[derive(Clone, Copy, Debug, PartialEq, Eq, Structural)]
pub struct Classification {
    pub profane: bool,
    pub offensive: bool,
    pub sexual: bool,
    pub mean: bool,
    pub evasive: bool,
    pub spam: bool,
    pub mild: bool,
    pub moderate: bool,
    pub severe: bool,
}

impl Classification {
    /// The empty classification: no category present.
    pub fn none() -> (r: Classification)
        ensures
            r == (Classification {
                profane: false,
                offensive: false,
                sexual: false,
                mean: false,
                evasive: false,
                spam: false,
                mild: false,
                moderate: false,
                severe: false,
            }),
    {
        Classification {
            profane: false,
            offensive: false,
            sexual: false,
            mean: false,
            evasive: false,
            spam: false,
            mild: false,
            moderate: false,
            severe: false,
        }
    }
}

/// The signed weight sum of the categories present, in thousandths.
/// Profanity and mildness weigh slightly negative so that casual language
/// is not over-penalised; the other categories weigh positive.
pub open spec fn raw_weight(c: Classification) -> int {
    (if c.profane { -100int } else { 0int }) + (if c.offensive { 4000int } else { 0int }) + (if c.sexual {
        1200int
    } else {
        0int
    }) + (if c.mean { 2500int } else { 0int }) + (if c.evasive { 1800int } else { 0int }) + (if c.spam {
        3000int
    } else {
        0int
    }) + (if c.mild { -200int } else { 0int }) + (if c.moderate { 2000int } else { 0int }) + (if c.severe {
        15000int
    } else {
        0int
    })
}

/// The normalised, clamped score of a classification, in thousandths.
pub open spec fn spec_score(c: Classification) -> int {
    let raw = raw_weight(c);
    if raw <= 0 {
        0
    } else if raw * SCORE_ONE / (SCORE_DIVISOR as int) >= SCORE_ONE {
        SCORE_ONE as int
    } else {
        raw * SCORE_ONE / (SCORE_DIVISOR as int)
    }
}

/// The raw weight sum stays within the sum of the negative weights and
/// the sum of the positive weights.
pub proof fn lemma_raw_weight_bounds(c: Classification)
    ensures
        -300 <= raw_weight(c) <= 29500,
{
}

/// Maps a classification to a severity score in `[0, SCORE_ONE]`
/// thousandths.  Pure: the result depends on the flags alone.
#[verifier::rlimit(30)]
pub fn score_content(c: &Classification) -> (r: u32)
    ensures
        r == spec_score(*c),
        r <= SCORE_ONE,
{
    let mut raw: i32 = 0;
    if c.profane {
        raw = raw - 100;
    }
    if c.offensive {
        raw = raw + 4000;
    }
    if c.sexual {
        raw = raw + 1200;
    }
    if c.mean {
        raw = raw + 2500;
    }
    if c.evasive {
        raw = raw + 1800;
    }
    if c.spam {
        raw = raw + 3000;
    }
    if c.mild {
        raw = raw - 200;
    }
    if c.moderate {
        raw = raw + 2000;
    }
    if c.severe {
        raw = raw + 15000;
    }
    proof {
        assert(raw == raw_weight(*c));
    }
    proof {
        lemma_raw_weight_bounds(*c);
    }
    if raw <= 0 {
        0
    } else {
        assert((raw as u64) * 1000 <= 29_500_000) by (nonlinear_arith)
            requires
                0 < raw <= 29500,
        ;
        let q: u64 = (raw as u64) * (SCORE_ONE as u64) / (SCORE_DIVISOR as u64);
        if q >= SCORE_ONE as u64 {
            SCORE_ONE
        } else {
            q as u32
        }
    }
}

} // verus!
