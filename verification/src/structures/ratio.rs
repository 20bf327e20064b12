use vstd::prelude::*;

verus! {

/// An exact fraction `num / den`.
///
/// Feature values are quotients of integer counters. They are kept as the
/// pair of integers they are computed from, so that nothing is rounded before
/// the caller decides on a number format. A zero denominator is allowed and
/// stands for the quotient that does not exist.
#[derive(Debug, Clone, Copy, PartialEq, Eq, Structural)]
pub struct Ratio {
    pub num: i64,
    pub den: i64,
}

impl Ratio {
    /// The fraction `num / den`, not reduced.
    pub fn new(num: i64, den: i64) -> (r: Ratio)
        ensures
            r.num == num,
            r.den == den,
    {
        Ratio { num, den }
    }

    /// The whole number `n` as the fraction `n / 1`.
    pub fn from_int(n: i64) -> (r: Ratio)
        ensures
            r.num == n,
            r.den == 1,
    {
        Ratio { num: n, den: 1 }
    }
}

} // verus!
