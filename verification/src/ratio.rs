//! Signed rational numbers in lowest terms, with the sign held on the
//! numerator.

use vstd::prelude::*;

use crate::magnitude::reduced_den;
use crate::magnitude::reduced_num;
use crate::magnitude::reduce_frac;
use crate::magnitude::MAG_LIMIT;

verus! {

/// A signed rational in lowest terms: the denominator is positive and the
/// numerator carries the sign.
#[derive(Debug, Eq, PartialEq, Structural, Copy, Clone)]
pub struct Ratio {
    pub numerator: isize,
    pub denominator: isize,
}

/// Absolute value.
pub open spec fn abs(n: int) -> nat {
    if n < 0 {
        (-n) as nat
    } else {
        n as nat
    }
}

impl Ratio {
    /// Construct the ratio `numerator / denominator`, reduced to lowest
    /// terms with the sign moved to the numerator. The denominator must
    /// not be zero.
    pub fn new(numerator: isize, denominator: isize) -> (r: Ratio)
        requires
            denominator != 0,
            abs(numerator as int) <= MAG_LIMIT,
            abs(denominator as int) <= MAG_LIMIT,
        ensures
            r.denominator as int == reduced_den(
                abs(numerator as int),
                abs(denominator as int),
            ),
            abs(r.numerator as int) == reduced_num(abs(numerator as int), abs(denominator as int)),
            (r.numerator < 0) == (numerator != 0 && (numerator < 0) != (denominator < 0)),
            r.denominator > 0,
    {
        let neg = (numerator < 0) != (denominator < 0);
        let a: u64 = if numerator < 0 {
            (-numerator) as u64
        } else {
            numerator as u64
        };
        let b: u64 = if denominator < 0 {
            (-denominator) as u64
        } else {
            denominator as u64
        };
        let (rn, rd) = reduce_frac(a, b);
        proof {
            crate::magnitude::lemma_reduced_le(a as nat, b as nat);
        }
        let num: isize = if neg && rn > 0 {
            -(rn as isize)
        } else {
            rn as isize
        };
        Ratio { numerator: num, denominator: rd as isize }
    }

    /// Whether this ratio equals the whole number `other`.
    pub fn eq_int(&self, other: isize) -> (r: bool)
        ensures
            r == (self.denominator == 1 && self.numerator == other),
    {
        self.denominator == 1 && self.numerator == other
    }

    /// The same ratio under the opposite sign.
    pub fn negated(&self) -> (r: Ratio)
        requires
            self.numerator > isize::MIN,
        ensures
            r.numerator as int == -(self.numerator as int),
            r.denominator == self.denominator,
    {
        Ratio { numerator: -self.numerator, denominator: self.denominator }
    }
}

} // verus!
