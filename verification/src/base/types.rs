//! Musical time: beat positions within measures.

use vstd::prelude::*;
use crate::base::text::{decimal, push_char, push_decimal};

verus! {

/// Beat position in musical time.
#[derive(Debug, Clone, Copy, PartialEq, Eq, PartialOrd, Ord, Hash, Structural)]
pub struct Beat {
    /// Measure number (1-indexed).
    pub measure: u32,
    /// Beat within the measure (1-indexed).
    pub beat: u32,
}

/// The 0-indexed absolute beat number of a position.
pub open spec fn absolute_beat(b: Beat, beats_per_measure: u32) -> int {
    (b.measure - 1) * beats_per_measure + (b.beat - 1)
}

/// The position of a 0-indexed absolute beat number.
pub open spec fn beat_at(abs_beat: u32, beats_per_measure: u32) -> Beat
    recommends
        beats_per_measure > 0,
{
    Beat {
        measure: (abs_beat / beats_per_measure + 1) as u32,
        beat: (abs_beat % beats_per_measure + 1) as u32,
    }
}

impl Beat {
    /// A beat position.
    pub fn new(measure: u32, beat: u32) -> (b: Beat)
        ensures
            b == (Beat { measure, beat }),
    {
        Beat { measure, beat }
    }

    /// The 0-indexed absolute beat number: `(measure - 1) * bpm + (beat - 1)`.
    pub fn to_absolute(&self, beats_per_measure: u32) -> (n: u32)
        requires
            self.measure >= 1,
            self.beat >= 1,
            absolute_beat(*self, beats_per_measure) <= u32::MAX,
        ensures
            n == absolute_beat(*self, beats_per_measure),
    {
        let m = self.measure - 1;
        assert(m * beats_per_measure <= absolute_beat(*self, beats_per_measure));
        m * beats_per_measure + (self.beat - 1)
    }

    /// The position of a 0-indexed absolute beat number.
    pub fn from_absolute(abs_beat: u32, beats_per_measure: u32) -> (b: Beat)
        requires
            beats_per_measure > 0,
            abs_beat / beats_per_measure < u32::MAX,
        ensures
            b == beat_at(abs_beat, beats_per_measure),
            b.measure == abs_beat / beats_per_measure + 1,
            b.beat == abs_beat % beats_per_measure + 1,
    {
        Beat {
            measure: abs_beat / beats_per_measure + 1,
            beat: abs_beat % beats_per_measure + 1,
        }
    }

    /// The position as `measure.beat`.
    pub fn to_string(&self) -> (r: String)
        ensures
            r@ == decimal(self.measure as nat) + seq!['.'] + decimal(self.beat as nat),
    {
        let mut s = String::new();
        push_decimal(&mut s, self.measure as u64);
        push_char(&mut s, '.');
        push_decimal(&mut s, self.beat as u64);
        assert(s@ =~= decimal(self.measure as nat) + seq!['.'] + decimal(self.beat as nat));
        s
    }
}

proof fn lemma_div_mod_unique(a: int, n: int, q: int, r: int)
    requires
        n > 0,
        0 <= r < n,
        a == q * n + r,
    ensures
        a / n == q,
        a % n == r,
{
    vstd::arithmetic::div_mod::lemma_fundamental_div_mod_converse(a, n, q, r);
}

/// A position within its measure survives the trip to an absolute beat number
/// and back.
pub proof fn law_beat_absolute_roundtrip(b: Beat, beats_per_measure: u32)
    requires
        b.measure >= 1,
        1 <= b.beat <= beats_per_measure,
        absolute_beat(b, beats_per_measure) <= u32::MAX,
    ensures
        absolute_beat(b, beats_per_measure) >= 0,
        beat_at(absolute_beat(b, beats_per_measure) as u32, beats_per_measure) == b,
{
    let n = beats_per_measure as int;
    let q = b.measure - 1;
    let r = b.beat - 1;
    let a = absolute_beat(b, beats_per_measure);
    assert(q * n >= 0) by (nonlinear_arith)
        requires
            q >= 0,
            n >= 0,
    ;
    lemma_div_mod_unique(a, n, q, r);
    assert(a == q * n + r);
    assert((a as u32) as int == a);
}

/// An absolute beat number survives the trip to a position and back.
pub proof fn law_absolute_beat_roundtrip(abs_beat: u32, beats_per_measure: u32)
    requires
        beats_per_measure > 0,
        abs_beat / beats_per_measure < u32::MAX,
    ensures
        absolute_beat(beat_at(abs_beat, beats_per_measure), beats_per_measure) == abs_beat,
{
    let n = beats_per_measure as int;
    let a = abs_beat as int;
    vstd::arithmetic::div_mod::lemma_fundamental_div_mod(a, n);
    assert(a == n * (a / n) + a % n);
    assert(n * (a / n) == (a / n) * n) by (nonlinear_arith);
}

} // verus!
