//! Exact numbers: the numeric literals of a script and the knob values that
//! the animation resolver derives from them.
use vstd::prelude::*;

verus! {

/// A numeric literal held exactly as `numer / denom` (for example `0.1` is
/// `1 / 10`).
#[derive(Clone, Copy, Debug, PartialEq, Eq, Structural)]
pub struct Num {
    pub numer: i64,
    pub denom: u32,
}

impl Num {
    pub open spec fn wf(self) -> bool {
        self.denom > 0
    }

    /// The literal `numer / denom`.
    pub fn new(numer: i64, denom: u32) -> (r: Num)
        requires
            denom > 0,
        ensures
            r.numer == numer,
            r.denom == denom,
            r.wf(),
    {
        Num { numer, denom }
    }

    /// The whole number `n`.
    pub fn whole(n: i64) -> (r: Num)
        ensures
            r.numer == n,
            r.denom == 1,
            r.wf(),
    {
        Num { numer: n, denom: 1 }
    }
}

/// An exact rational `numer / denom`, wide enough to hold every knob value
/// that linear interpolation between two `Num`s can produce.
#[derive(Clone, Copy, Debug, PartialEq, Eq, Structural)]
pub struct Ratio {
    pub numer: i128,
    pub denom: u128,
}

impl Ratio {
    pub open spec fn wf(self) -> bool {
        self.denom > 0
    }

    /// Whether this ratio denotes the rational `n / d` (with `d != 0`).
    pub open spec fn denotes(self, n: int, d: int) -> bool {
        self.numer * d == n * self.denom
    }
}

} // verus!
