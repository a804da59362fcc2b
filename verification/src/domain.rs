//! The parameter domain: one configuration object holding the admissible
//! range of every parameter field, the coverage radius of the counterexample
//! extractor, the controller's satisfaction threshold, the refiner's jitter
//! magnitudes and sweep budget, and the fixed-point scale that relates
//! parameter units to cloud units.

use vstd::prelude::*;

verus! {

use crate::score::Score;

/// Number of fields in a parameter vector: three sizes, three translations,
/// three rotations, one combinator flag.
pub const PARAM_LEN: usize = 10;

/// Greatest magnitude any field bound may have; keeps probe and jitter
/// arithmetic inside `i16`.
pub const FIELD_LIMIT: i16 = 10_000;

/// Greatest fixed-point scale (cloud units per parameter unit).
pub const SCALE_LIMIT: i64 = 1_000;

/// Greatest admissible squared coverage radius, in cloud units.
pub const RADIUS_SQ_LIMIT: i64 = 0x4_0000_0000_0000;

/// The synthesis configuration.  Every component draws its numeric limits
/// from here rather than from per-call-site constants.
#[derive(Clone, Copy, PartialEq, Eq, Structural, Debug)]
pub struct Domain {
    /// Range of the three size fields (indices 0..3).
    pub size_lo: i16,
    pub size_hi: i16,
    /// Range of the three translation fields (indices 3..6).
    pub tran_lo: i16,
    pub tran_hi: i16,
    /// Range of the three rotation fields (indices 6..9).
    pub rot_lo: i16,
    pub rot_hi: i16,
    /// Range of the combinator flag (index 9): union vs. intersection.
    pub flag_lo: i16,
    pub flag_hi: i16,
    /// Cloud units per parameter unit.
    pub scale: i64,
    /// Squared coverage radius of the counterexample extractor, in cloud
    /// units.
    pub coverage_radius_sq: i64,
    /// Scores at or below this satisfy the controller and end a hole's
    /// attempts early.
    pub threshold: Score,
    /// Jitter magnitude on the fields most salient to a primitive kind.
    pub jitter_large: i16,
    /// Jitter magnitude on the remaining perturbed fields.
    pub jitter_small: i16,
    /// Sweep budget of one coordinate-descent step size.
    pub max_sweeps: usize,
}

impl Domain {
    pub open spec fn wf(self) -> bool {
        &&& -FIELD_LIMIT <= self.size_lo <= self.size_hi <= FIELD_LIMIT
        &&& -FIELD_LIMIT <= self.tran_lo <= self.tran_hi <= FIELD_LIMIT
        &&& -FIELD_LIMIT <= self.rot_lo <= self.rot_hi <= FIELD_LIMIT
        &&& -FIELD_LIMIT <= self.flag_lo <= self.flag_hi <= FIELD_LIMIT
        &&& 1 <= self.scale <= SCALE_LIMIT
        &&& 0 <= self.coverage_radius_sq <= RADIUS_SQ_LIMIT
        &&& self.threshold.wf()
        &&& 0 <= self.jitter_large <= 100
        &&& 0 <= self.jitter_small <= 100
        &&& 1 <= self.max_sweeps
    }

    /// Lower bound of field `i`, by the fixed partition of the vector.
    pub open spec fn field_lo(self, i: int) -> i16 {
        if i < 3 {
            self.size_lo
        } else if i < 6 {
            self.tran_lo
        } else if i < 9 {
            self.rot_lo
        } else {
            self.flag_lo
        }
    }

    /// Upper bound of field `i`.
    pub open spec fn field_hi(self, i: int) -> i16 {
        if i < 3 {
            self.size_hi
        } else if i < 6 {
            self.tran_hi
        } else if i < 9 {
            self.rot_hi
        } else {
            self.flag_hi
        }
    }

    /// Admissible range of field `i`: a pure lookup.
    pub fn field_range(&self, i: usize) -> (r: (i16, i16))
        requires
            i < PARAM_LEN,
        ensures
            r.0 == self.field_lo(i as int),
            r.1 == self.field_hi(i as int),
    {
        if i < 3 {
            (self.size_lo, self.size_hi)
        } else if i < 6 {
            (self.tran_lo, self.tran_hi)
        } else if i < 9 {
            (self.rot_lo, self.rot_hi)
        } else {
            (self.flag_lo, self.flag_hi)
        }
    }

    /// The default configuration: sizes in [1, 20], translations in [0, 5],
    /// rotations in [0, 359], flag in {0, 1}, one cloud unit per parameter
    /// unit, coverage radius 5 (squared: 25), satisfaction threshold 200.
    pub fn new() -> (d: Domain)
        ensures
            d == default_domain(),
            d.wf(),
    {
        Domain {
            size_lo: 1,
            size_hi: 20,
            tran_lo: 0,
            tran_hi: 5,
            rot_lo: 0,
            rot_hi: 359,
            flag_lo: 0,
            flag_hi: 1,
            scale: 1,
            coverage_radius_sq: 25,
            threshold: Score { num: 200, den: 1 },
            jitter_large: 4,
            jitter_small: 3,
            max_sweeps: 32,
        }
    }
}

/// The value [`Domain::new`] returns.
pub open spec fn default_domain() -> Domain {
    Domain {
        size_lo: 1,
        size_hi: 20,
        tran_lo: 0,
        tran_hi: 5,
        rot_lo: 0,
        rot_hi: 359,
        flag_lo: 0,
        flag_hi: 1,
        scale: 1,
        coverage_radius_sq: 25,
        threshold: Score { num: 200, den: 1 },
        jitter_large: 4,
        jitter_small: 3,
        max_sweeps: 32,
    }
}

/// `v` forced into `[lo, hi]`.
pub open spec fn clamp_spec(v: int, lo: int, hi: int) -> int {
    if v < lo {
        lo
    } else if v > hi {
        hi
    } else {
        v
    }
}

/// Clamp an `i16` value into a field range.
pub fn clamp_i16(v: i16, lo: i16, hi: i16) -> (r: i16)
    requires
        lo <= hi,
    ensures
        r == clamp_spec(v as int, lo as int, hi as int),
{
    if v < lo {
        lo
    } else if v > hi {
        hi
    } else {
        v
    }
}

/// Clamp a wide intermediate value into a field range.
pub fn clamp_i64_to_i16(v: i64, lo: i16, hi: i16) -> (r: i16)
    requires
        lo <= hi,
    ensures
        r == clamp_spec(v as int, lo as int, hi as int),
{
    if v < lo as i64 {
        lo
    } else if v > hi as i64 {
        hi
    } else {
        v as i16
    }
}

/// A parameter vector: ten fields, each inside its admissible range.
pub open spec fn param_in_domain(dom: Domain, p: Seq<i16>) -> bool {
    &&& p.len() == PARAM_LEN
    &&& forall|i: int|
        0 <= i < p.len() ==> dom.field_lo(i) <= #[trigger] p[i] <= dom.field_hi(i)
}

} // verus!
