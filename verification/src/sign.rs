//! The two-valued directed sign of the algebra and its combination rule.

use vstd::prelude::*;

verus! {

/// Simple vector directed sign (positive or negative).
#[derive(Debug, Eq, PartialEq, Structural, Copy, Clone)]
pub enum Sign {
    Pos,
    Neg,
}

/// Combination of two signs under the conventional rules of arithmetic:
/// the result is positive exactly when the two agree.
pub open spec fn spec_combine(a: Sign, b: Sign) -> Sign {
    if a == b {
        Sign::Pos
    } else {
        Sign::Neg
    }
}

/// The opposite sign.
pub open spec fn spec_negate(s: Sign) -> Sign {
    match s {
        Sign::Pos => Sign::Neg,
        Sign::Neg => Sign::Pos,
    }
}

impl Sign {
    /// Combine together two signs using conventional rules of arithmetic.
    pub fn combine(&self, other: &Sign) -> (r: Sign)
        ensures
            r == spec_combine(*self, *other),
    {
        if self == other {
            Sign::Pos
        } else {
            Sign::Neg
        }
    }

    /// Combine two signs and return their product; alias of [`Sign::combine`].
    pub fn combine_with(&self, j: &Sign) -> (r: Sign)
        ensures
            r == spec_combine(*self, *j),
    {
        self.combine(j)
    }

    /// The opposite sign.
    pub fn negated(&self) -> (r: Sign)
        ensures
            r == spec_negate(*self),
    {
        match self {
            Sign::Pos => Sign::Neg,
            Sign::Neg => Sign::Pos,
        }
    }

    /// Canonical one-character rendering: `+` or `-`.
    pub fn as_str(&self) -> (r: &'static str)
        ensures
            *self == Sign::Pos ==> r@ == "+"@,
            *self == Sign::Neg ==> r@ == "-"@,
    {
        match self {
            Sign::Pos => "+",
            Sign::Neg => "-",
        }
    }
}

/// Sign combination forms a commutative group of order two: `Pos` is the
/// identity, combination is associative and commutative, and every sign is
/// its own inverse.
pub proof fn lemma_sign_group(a: Sign, b: Sign, c: Sign)
    ensures
        spec_combine(a, Sign::Pos) == a,
        spec_combine(a, b) == spec_combine(b, a),
        spec_combine(spec_combine(a, b), c) == spec_combine(a, spec_combine(b, c)),
        spec_combine(a, a) == Sign::Pos,
{
}

} // verus!
