//! Terms: a rational magnitude, a directed unit and a symbolic coefficient.

use vstd::prelude::*;

use crate::alpha::spec_inverse;
use crate::alpha::Alpha;
use crate::form::spec_form_str;
use crate::form::Form;
use crate::magnitude::reduced_den;
use crate::magnitude::reduced_num;
use crate::magnitude::Magnitude;
use crate::magnitude::MAG_LIMIT;
use crate::product::ar_product;
use crate::product::spec_full_product;
use crate::sign::spec_negate;
use crate::sign::Sign;
use crate::xi::is_empty_parent;
use crate::xi::lemma_merged_pair;
use crate::xi::merged_den_renderings;
use crate::xi::merged_num_renderings;
use crate::xi::sort_forms;
use crate::xi::sort_renderings;
use crate::xi::xi_str;
use crate::xi::xi_wf;
use crate::xi::Xi;

verus! {

/// A term binds a strictly non-negative magnitude and a symbolic
/// coefficient to a directed unit: the unit's sign carries the term's sign.
pub struct Term {
    pub magnitude: Magnitude,
    pub alpha: Alpha,
    pub xi: Xi,
}

/// Two terms may be summed exactly when their summation keys agree: the
/// same form and the same rendered coefficient.
pub open spec fn same_key(a: Term, b: Term) -> bool {
    a.alpha.form == b.alpha.form && xi_str(a.xi) == xi_str(b.xi)
}

/// The observable content of a term: its magnitude and unit exactly, its
/// coefficient up to rendering.
pub open spec fn term_like(a: Term, b: Term) -> bool {
    a.magnitude == b.magnitude && a.alpha == b.alpha && xi_str(a.xi) == xi_str(b.xi)
}

/// The magnitude arithmetic of a sum of two terms stays within bounds.
pub open spec fn add_fits(a: Magnitude, b: Magnitude) -> bool {
    reduced_num(
        (a.numerator * b.denominator + b.numerator * a.denominator) as nat,
        (a.denominator * b.denominator) as nat,
    ) <= MAG_LIMIT && reduced_den(
        (a.numerator * b.denominator + b.numerator * a.denominator) as nat,
        (a.denominator * b.denominator) as nat,
    ) <= MAG_LIMIT
}

/// The magnitude arithmetic of a difference of two terms stays within
/// bounds; the smaller magnitude leaves the larger.
pub open spec fn sub_fits(a: Magnitude, b: Magnitude) -> bool {
    b.numerator * a.denominator <= a.numerator * b.denominator && reduced_num(
        (a.numerator * b.denominator - b.numerator * a.denominator) as nat,
        (a.denominator * b.denominator) as nat,
    ) <= MAG_LIMIT && reduced_den(
        (a.numerator * b.denominator - b.numerator * a.denominator) as nat,
        (a.denominator * b.denominator) as nat,
    ) <= MAG_LIMIT
}

/// The magnitude arithmetic of a product of two terms stays within bounds.
pub open spec fn mul_fits(a: Magnitude, b: Magnitude) -> bool {
    reduced_num((a.numerator * b.numerator) as nat, (a.denominator * b.denominator) as nat)
        <= MAG_LIMIT && reduced_den(
        (a.numerator * b.numerator) as nat,
        (a.denominator * b.denominator) as nat,
    ) <= MAG_LIMIT
}

/// The reduced sum of two magnitudes.
pub open spec fn spec_plus_mag(a: Magnitude, b: Magnitude) -> Magnitude {
    Magnitude {
        numerator: reduced_num(
            (a.numerator * b.denominator + b.numerator * a.denominator) as nat,
            (a.denominator * b.denominator) as nat,
        ) as usize,
        denominator: reduced_den(
            (a.numerator * b.denominator + b.numerator * a.denominator) as nat,
            (a.denominator * b.denominator) as nat,
        ) as usize,
    }
}

/// The reduced difference of two magnitudes.
pub open spec fn spec_minus_mag(a: Magnitude, b: Magnitude) -> Magnitude {
    Magnitude {
        numerator: reduced_num(
            (a.numerator * b.denominator - b.numerator * a.denominator) as nat,
            (a.denominator * b.denominator) as nat,
        ) as usize,
        denominator: reduced_den(
            (a.numerator * b.denominator - b.numerator * a.denominator) as nat,
            (a.denominator * b.denominator) as nat,
        ) as usize,
    }
}

/// The reduced product of two magnitudes.
pub open spec fn spec_times_mag(a: Magnitude, b: Magnitude) -> Magnitude {
    Magnitude {
        numerator: reduced_num(
            (a.numerator * b.numerator) as nat,
            (a.denominator * b.denominator) as nat,
        ) as usize,
        denominator: reduced_den(
            (a.numerator * b.numerator) as nat,
            (a.denominator * b.denominator) as nat,
        ) as usize,
    }
}

/// The term that `try_add` yields for two terms with one summation key:
/// the representative fields come from the dominant operand.
pub open spec fn spec_try_add(a: Term, b: Term) -> Term {
    if a.alpha.sign == b.alpha.sign {
        Term {
            magnitude: spec_plus_mag(a.magnitude, b.magnitude),
            alpha: a.alpha,
            xi: a.xi,
        }
    } else {
        let (x, y) = if a.alpha.sign == Sign::Pos {
            (a, b)
        } else {
            (b, a)
        };
        if y.magnitude.numerator * x.magnitude.denominator < x.magnitude.numerator
            * y.magnitude.denominator {
            Term { magnitude: spec_minus_mag(x.magnitude, y.magnitude), alpha: x.alpha, xi: x.xi }
        } else {
            Term {
                magnitude: spec_minus_mag(y.magnitude, x.magnitude),
                alpha: Alpha { sign: spec_negate(x.alpha.sign), form: x.alpha.form },
                xi: x.xi,
            }
        }
    }
}

/// Whether the magnitude arithmetic of `try_add` stays within bounds.
pub open spec fn try_add_fits(a: Term, b: Term) -> bool {
    if !same_key(a, b) {
        true
    } else if a.alpha.sign == b.alpha.sign {
        add_fits(a.magnitude, b.magnitude)
    } else {
        let (x, y) = if a.alpha.sign == Sign::Pos {
            (a, b)
        } else {
            (b, a)
        };
        if y.magnitude.numerator * x.magnitude.denominator < x.magnitude.numerator
            * y.magnitude.denominator {
            sub_fits(x.magnitude, y.magnitude)
        } else {
            sub_fits(y.magnitude, x.magnitude)
        }
    }
}

impl Term {
    /// A well-formed term: a well-formed magnitude and unit, a canonical
    /// coefficient tree.
    pub open spec fn wf(self) -> bool {
        self.magnitude.wf() && self.alpha.wf() && xi_wf(self.xi)
    }

    /// A structural term: like `wf`, but without asking the unit's form to
    /// sit in the registry; products preserve this part unconditionally.
    pub open spec fn swf(self) -> bool {
        self.magnitude.wf() && xi_wf(self.xi)
    }

    /// Construct a new term of magnitude one. The symbolic coefficient is
    /// a leaf named by `val`, or by the unit's form when `val` is absent.
    pub fn new(val: Option<&str>, alpha: Alpha) -> (r: Term)
        ensures
            r.magnitude == (Magnitude { numerator: 1, denominator: 1 }),
            r.alpha == alpha,
            val matches Some(v) ==> xi_str(r.xi) == seq!['ξ'] + v@,
            val is None ==> xi_str(r.xi) == seq!['ξ'] + spec_form_str(alpha.form),
            xi_wf(r.xi),
            !is_empty_parent(r.xi),
            r.swf(),
            alpha.wf() ==> r.wf(),
    {
        let xi = match val {
            Some(v) => Xi::new(v),
            None => {
                let fs = alpha.form().as_string();
                Xi::new(fs.as_str())
            },
        };
        Term { magnitude: Magnitude::one(), alpha, xi }
    }

    /// Construct a term of magnitude one with a compound coefficient: the
    /// product of one leaf per given name.
    pub fn from_xis_and_alpha(xis: Vec<&str>, alpha: Alpha) -> (r: Term)
        ensures
            r.magnitude == (Magnitude { numerator: 1, denominator: 1 }),
            r.alpha == alpha,
            r.xi.value is None,
            r.xi.partials@.len() == 0,
            crate::xi::rendered(r.xi.child_num@) == sort_renderings(
                Seq::new(xis@.len(), |i: int| seq!['ξ'] + xis@[i]@),
            ),
            r.xi.child_den@.len() == 0,
            xi_wf(r.xi),
    {
        let ghost names = xis@;
        let mut leaves: Vec<Xi> = Vec::new();
        let mut k: usize = 0;
        while k < xis.len()
            invariant
                k <= xis@.len(),
                leaves@.len() == k,
                forall|i: int|
                    0 <= i < k ==> xi_str(#[trigger] leaves@[i]) == seq!['ξ'] + xis@[i]@ && xi_wf(
                        leaves@[i],
                    ) && !is_empty_parent(leaves@[i]),
            decreases xis@.len() - k,
        {
            leaves.push(Xi::new(xis[k]));
            k = k + 1;
        }
        let ghost lseq = leaves@;
        let xi = Xi::merge(leaves);
        proof {
            crate::xi::lemma_merged_plain(lseq);
            assert(crate::xi::rendered(lseq) =~= Seq::new(
                names.len(),
                |i: int| seq!['ξ'] + names[i]@,
            ));
            assert(crate::xi::rendered(xi.child_den@) =~= Seq::<Seq<char>>::empty());
            assert(sort_renderings(Seq::<Seq<char>>::empty()) =~= Seq::<Seq<char>>::empty());
            assert(xi.child_den@.len() == 0) by {
                assert(crate::xi::rendered(xi.child_den@).len() == xi.child_den@.len());
            }
        }
        Term { magnitude: Magnitude::one(), alpha, xi }
    }

    /// Extract a copy of the space-time form of this term.
    pub fn form(&self) -> (r: Form)
        ensures
            r == self.alpha.form,
    {
        self.alpha.form()
    }

    /// Extract the sign of this term.
    pub fn sign(&self) -> (r: Sign)
        ensures
            r == self.alpha.sign,
    {
        self.alpha.sign()
    }

    /// Extract a copy of the directed unit of this term.
    pub fn alpha(&self) -> (r: Alpha)
        ensures
            r == self.alpha,
    {
        self.alpha
    }

    /// Extract the unsigned magnitude of this term.
    pub fn magnitude(&self) -> (r: Magnitude)
        ensures
            r == self.magnitude,
    {
        self.magnitude
    }

    /// Override the directed unit of this term.
    pub fn set_alpha(&mut self, a: Alpha)
        ensures
            final(self).alpha == a,
            final(self).magnitude == old(self).magnitude,
            final(self).xi == old(self).xi,
    {
        self.alpha = a;
    }

    /// Add a single partial derivative to the coefficient, keeping the
    /// applied partials sorted.
    pub fn add_partial(&mut self, wrt: &Alpha)
        ensures
            final(self).alpha == old(self).alpha,
            final(self).magnitude == old(self).magnitude,
            final(self).xi.value == old(self).xi.value,
            final(self).xi.child_num == old(self).xi.child_num,
            final(self).xi.child_den == old(self).xi.child_den,
            final(self).xi.partials@ == sort_forms(old(self).xi.partials@.push(wrt.form)),
            xi_wf(old(self).xi) ==> xi_wf(final(self).xi),
    {
        let f = wrt.form();
        self.xi.add_partial(&f);
    }

    /// Replace the set of partial derivatives on the coefficient.
    pub fn set_partials(&mut self, partials: Vec<Form>)
        ensures
            final(self).alpha == old(self).alpha,
            final(self).magnitude == old(self).magnitude,
            final(self).xi.value == old(self).xi.value,
            final(self).xi.child_num == old(self).xi.child_num,
            final(self).xi.child_den == old(self).xi.child_den,
            final(self).xi.partials@ == sort_forms(partials@),
            xi_wf(old(self).xi) ==> xi_wf(final(self).xi),
    {
        self.xi.set_partials(partials);
    }

    /// The rendered symbolic coefficient of this term.
    pub fn xi_str(&self) -> (r: String)
        ensures
            r@ == xi_str(self.xi),
    {
        self.xi.dotted_string()
    }

    /// The summation key of this term: the elements that must match for
    /// two terms to be summed.
    pub fn summation_key(&self) -> (r: (Form, String))
        ensures
            r.0 == self.alpha.form,
            r.1@ == xi_str(self.xi),
    {
        (self.form(), self.xi_str())
    }

    /// Whether this term and `other` share a summation key.
    pub fn matches_key(&self, other: &Term) -> (r: bool)
        ensures
            r == same_key(*self, *other),
    {
        let fa = self.form();
        let fb = other.form();
        if fa == fb {
            let sa = self.xi_str();
            let sb = other.xi_str();
            sa == sb
        } else {
            false
        }
    }

    /// A copy of this term: the magnitude and unit exactly, the
    /// coefficient rendering for rendering.
    pub fn duplicate(&self) -> (r: Term)
        ensures
            term_like(r, *self),
            r.xi.partials@ == self.xi.partials@,
            r.xi.value is Some <==> self.xi.value is Some,
            self.xi.value matches Some(v) ==> r.xi.value matches Some(rv) && rv@ == v@,
            is_empty_parent(r.xi) == is_empty_parent(self.xi),
            crate::xi::rendered(r.xi.child_num@) == crate::xi::rendered(self.xi.child_num@),
            crate::xi::rendered(r.xi.child_den@) == crate::xi::rendered(self.xi.child_den@),
            xi_wf(self.xi) ==> xi_wf(r.xi),
            self.swf() ==> r.swf(),
            self.wf() ==> r.wf(),
    {
        Term { magnitude: self.magnitude, alpha: self.alpha, xi: self.xi.duplicate() }
    }

    /// The same term under the opposite sign.
    pub fn negated(&self) -> (r: Term)
        ensures
            r.magnitude == self.magnitude,
            r.alpha == (Alpha { sign: spec_negate(self.alpha.sign), form: self.alpha.form }),
            xi_str(r.xi) == xi_str(self.xi),
            xi_wf(self.xi) ==> xi_wf(r.xi),
            self.swf() ==> r.swf(),
            self.wf() ==> r.wf(),
    {
        Term { magnitude: self.magnitude, alpha: self.alpha.negated(), xi: self.xi.duplicate() }
    }

    /// The Hermitian conjugate of this term alone: negated exactly when
    /// its unit squares to the negative point.
    pub fn hermitian(&self) -> (r: Term)
        ensures
            r.magnitude == self.magnitude,
            xi_str(r.xi) == xi_str(self.xi),
            spec_full_product(self.alpha, self.alpha).sign == Sign::Neg ==> r.alpha == (Alpha {
                sign: spec_negate(self.alpha.sign),
                form: self.alpha.form,
            }),
            spec_full_product(self.alpha, self.alpha).sign == Sign::Pos ==> r.alpha == self.alpha,
            self.swf() ==> r.swf(),
    {
        let square = ar_product(&self.alpha, &self.alpha);
        match square.sign() {
            Sign::Neg => self.negated(),
            Sign::Pos => self.duplicate(),
        }
    }

    /// Attempt to add two terms. This succeeds exactly when the summation
    /// keys match: same signs add the magnitudes, opposite signs subtract
    /// the smaller magnitude from the larger and keep the dominant sign.
    pub fn try_add(&self, other: &Term) -> (r: Option<Term>)
        requires
            self.magnitude.wf(),
            other.magnitude.wf(),
            try_add_fits(*self, *other),
        ensures
            r is Some <==> same_key(*self, *other),
            r matches Some(t) ==> term_like(t, spec_try_add(*self, *other))
                && t.magnitude.wf() && (xi_wf(self.xi) && xi_wf(other.xi) ==> xi_wf(t.xi)),
    {
        if !self.matches_key(other) {
            return None;
        }
        if self.sign() == other.sign() {
            let t = self.duplicate();
            Some(
                Term {
                    magnitude: self.magnitude.plus(&other.magnitude),
                    alpha: t.alpha,
                    xi: t.xi,
                },
            )
        } else {
            let (x, y) = if self.sign() == Sign::Pos {
                (self, other)
            } else {
                (other, self)
            };
            if y.magnitude.lt(&x.magnitude) {
                let t = x.duplicate();
                Some(
                    Term {
                        magnitude: x.magnitude.minus(&y.magnitude),
                        alpha: t.alpha,
                        xi: t.xi,
                    },
                )
            } else {
                let t = x.duplicate();
                Some(
                    Term {
                        magnitude: y.magnitude.minus(&x.magnitude),
                        alpha: t.alpha.negated(),
                        xi: t.xi,
                    },
                )
            }
        }
    }

    /// The product of this term and another under the full product of the
    /// algebra: magnitudes multiply, units combine under the full product,
    /// coefficients merge.
    pub fn form_product_with(&self, other: &Term) -> (r: Term)
        requires
            self.magnitude.wf(),
            other.magnitude.wf(),
            mul_fits(self.magnitude, other.magnitude),
        ensures
            r.magnitude == spec_times_mag(self.magnitude, other.magnitude),
            r.magnitude.wf(),
            r.alpha == spec_full_product(self.alpha, other.alpha),
            self.alpha.wf() && other.alpha.wf() ==> r.alpha.wf(),
            r.xi.value is None,
            r.xi.partials@.len() == 0,
            crate::xi::rendered(r.xi.child_num@) == sort_renderings(
                merged_num_renderings(seq![self.xi, other.xi]),
            ),
            crate::xi::rendered(r.xi.child_den@) == sort_renderings(
                merged_den_renderings(seq![self.xi, other.xi]),
            ),
            xi_wf(self.xi) && xi_wf(other.xi) ==> xi_wf(r.xi),
    {
        let xa = self.xi.duplicate();
        let xb = other.xi.duplicate();
        proof {
            lemma_merged_pair(self.xi, other.xi, xa, xb);
        }
        let mut parts: Vec<Xi> = Vec::new();
        parts.push(xa);
        parts.push(xb);
        proof {
            assert(parts@ =~= seq![xa, xb]);
        }
        let xi = Xi::merge(parts);
        Term {
            magnitude: self.magnitude.times(&other.magnitude),
            alpha: ar_product(&self.alpha, &other.alpha),
            xi,
        }
    }

    /// The product inverse of this term: the magnitude reciprocal, the
    /// unit's inverse through the point, the coefficient's numerator and
    /// denominator swapped.
    pub fn inverse(&self) -> (r: Term)
        requires
            self.magnitude.wf(),
            self.magnitude.numerator > 0,
        ensures
            r.magnitude.is_reduced_frac(
                self.magnitude.denominator as nat,
                self.magnitude.numerator as nat,
            ),
            r.magnitude.wf(),
            r.alpha == spec_inverse(self.alpha),
            crate::xi::rendered(r.xi.child_num@) == crate::xi::rendered(self.xi.child_den@),
            crate::xi::rendered(r.xi.child_den@) == crate::xi::rendered(self.xi.child_num@),
            is_empty_parent(r.xi) == is_empty_parent(self.xi),
            r.xi.value is Some <==> self.xi.value is Some,
            self.xi.value matches Some(v) ==> r.xi.value matches Some(rv) && rv@ == v@,
            r.xi.partials@ == self.xi.partials@,
            xi_str(r.xi) == crate::xi::inverse_render(self.xi),
            xi_wf(self.xi) ==> xi_wf(r.xi),
    {
        proof {
            crate::magnitude::lemma_reduced_le(
                self.magnitude.denominator as nat,
                self.magnitude.numerator as nat,
            );
        }
        let one = Magnitude::one();
        Term {
            magnitude: one.divided_by(&self.magnitude),
            alpha: self.alpha.inverse(),
            xi: self.xi.inverse(),
        }
    }

    /// This term scaled by a rational magnitude.
    pub fn times_mag(&self, m: &Magnitude) -> (r: Term)
        requires
            self.magnitude.wf(),
            m.wf(),
            mul_fits(self.magnitude, *m),
        ensures
            r.magnitude == spec_times_mag(self.magnitude, *m),
            r.magnitude.wf(),
            r.alpha == self.alpha,
            xi_str(r.xi) == xi_str(self.xi),
            xi_wf(self.xi) ==> xi_wf(r.xi),
    {
        let t = self.duplicate();
        Term { magnitude: self.magnitude.times(m), alpha: t.alpha, xi: t.xi }
    }

    /// This term divided by a rational magnitude.
    pub fn divided_by_mag(&self, m: &Magnitude) -> (r: Term)
        requires
            self.magnitude.wf(),
            m.wf(),
            m.numerator > 0,
            reduced_num(
                (self.magnitude.numerator * m.denominator) as nat,
                (self.magnitude.denominator * m.numerator) as nat,
            ) <= MAG_LIMIT,
            reduced_den(
                (self.magnitude.numerator * m.denominator) as nat,
                (self.magnitude.denominator * m.numerator) as nat,
            ) <= MAG_LIMIT,
        ensures
            r.magnitude.is_reduced_frac(
                (self.magnitude.numerator * m.denominator) as nat,
                (self.magnitude.denominator * m.numerator) as nat,
            ),
            r.magnitude.wf(),
            r.alpha == self.alpha,
            xi_str(r.xi) == xi_str(self.xi),
            xi_wf(self.xi) ==> xi_wf(r.xi),
    {
        let t = self.duplicate();
        Term { magnitude: self.magnitude.divided_by(m), alpha: t.alpha, xi: t.xi }
    }
}

} // verus!

verus! {

/// A fitting sum of two well-formed magnitudes is well-formed.
pub proof fn lemma_spec_try_add_wf(a: Term, b: Term)
    requires
        a.magnitude.wf(),
        b.magnitude.wf(),
        same_key(a, b),
        try_add_fits(a, b),
    ensures
        spec_try_add(a, b).magnitude.wf(),
{
    crate::magnitude::lemma_mul_pos(
        a.magnitude.denominator as nat,
        b.magnitude.denominator as nat,
    );
    crate::magnitude::lemma_mul_pos(
        b.magnitude.denominator as nat,
        a.magnitude.denominator as nat,
    );
    crate::magnitude::lemma_reduced_le(
        (a.magnitude.numerator * b.magnitude.denominator + b.magnitude.numerator
            * a.magnitude.denominator) as nat,
        (a.magnitude.denominator * b.magnitude.denominator) as nat,
    );
    crate::magnitude::lemma_reduced_le(
        (b.magnitude.numerator * a.magnitude.denominator + a.magnitude.numerator
            * b.magnitude.denominator) as nat,
        (b.magnitude.denominator * a.magnitude.denominator) as nat,
    );
    if a.alpha.sign == b.alpha.sign {
        let n = (a.magnitude.numerator * b.magnitude.denominator + b.magnitude.numerator
            * a.magnitude.denominator) as nat;
        let d = (a.magnitude.denominator * b.magnitude.denominator) as nat;
        if n > 0 {
            crate::magnitude::lemma_reduced_coprime(n, d);
        }
    }
    if a.alpha.sign != b.alpha.sign {
        let (x, y) = if a.alpha.sign == Sign::Pos {
            (a, b)
        } else {
            (b, a)
        };
        if y.magnitude.numerator * x.magnitude.denominator < x.magnitude.numerator
            * y.magnitude.denominator {
            let n = (x.magnitude.numerator * y.magnitude.denominator - y.magnitude.numerator
                * x.magnitude.denominator) as nat;
            let d = (x.magnitude.denominator * y.magnitude.denominator) as nat;
            crate::magnitude::lemma_reduced_le(n, d);
            crate::magnitude::lemma_reduced_coprime(n, d);
        } else {
            let n = (y.magnitude.numerator * x.magnitude.denominator - x.magnitude.numerator
                * y.magnitude.denominator) as nat;
            let d = (y.magnitude.denominator * x.magnitude.denominator) as nat;
            crate::magnitude::lemma_reduced_le(n, d);
            if n > 0 {
                crate::magnitude::lemma_reduced_coprime(n, d);
            }
        }
    }
}

} // verus!

verus! {

impl Term {
    /// Whether summing this term with `other` stays within the magnitude
    /// bounds, decided by carrying out the reduction.
    pub fn try_add_fits_check(&self, other: &Term) -> (r: bool)
        requires
            self.magnitude.wf(),
            other.magnitude.wf(),
        ensures
            r == try_add_fits(*self, *other),
    {
        if !self.matches_key(other) {
            return true;
        }
        if self.sign() == other.sign() {
            proof {
                crate::magnitude::lemma_mul_le(
                    self.magnitude.numerator as nat,
                    other.magnitude.denominator as nat,
                    crate::magnitude::MAG_LIMIT as nat,
                );
                crate::magnitude::lemma_mul_le(
                    other.magnitude.numerator as nat,
                    self.magnitude.denominator as nat,
                    crate::magnitude::MAG_LIMIT as nat,
                );
                crate::magnitude::lemma_mul_le(
                    self.magnitude.denominator as nat,
                    other.magnitude.denominator as nat,
                    crate::magnitude::MAG_LIMIT as nat,
                );
                crate::magnitude::lemma_mul_pos(
                    self.magnitude.denominator as nat,
                    other.magnitude.denominator as nat,
                );
            }
            let n = (self.magnitude.numerator as u64) * (other.magnitude.denominator as u64) + (
            other.magnitude.numerator as u64) * (self.magnitude.denominator as u64);
            let d = (self.magnitude.denominator as u64) * (other.magnitude.denominator as u64);
            let ok = crate::magnitude::reduced_fits(n, d);
            proof {
                assert(n as nat == (self.magnitude.numerator * other.magnitude.denominator
                    + other.magnitude.numerator * self.magnitude.denominator) as nat);
                assert(d as nat == (self.magnitude.denominator
                    * other.magnitude.denominator) as nat);
                assert(ok == add_fits(self.magnitude, other.magnitude));
            }
            ok
        } else {
            let (x, y) = if self.sign() == Sign::Pos {
                (self, other)
            } else {
                (other, self)
            };
            proof {
                crate::magnitude::lemma_mul_le(
                    x.magnitude.numerator as nat,
                    y.magnitude.denominator as nat,
                    crate::magnitude::MAG_LIMIT as nat,
                );
                crate::magnitude::lemma_mul_le(
                    y.magnitude.numerator as nat,
                    x.magnitude.denominator as nat,
                    crate::magnitude::MAG_LIMIT as nat,
                );
                crate::magnitude::lemma_mul_le(
                    x.magnitude.denominator as nat,
                    y.magnitude.denominator as nat,
                    crate::magnitude::MAG_LIMIT as nat,
                );
                crate::magnitude::lemma_mul_pos(
                    x.magnitude.denominator as nat,
                    y.magnitude.denominator as nat,
                );
            }
            let d = (x.magnitude.denominator as u64) * (y.magnitude.denominator as u64);
            proof {
                assert(d as nat == (x.magnitude.denominator * y.magnitude.denominator) as nat);
            }
            if y.magnitude.lt(&x.magnitude) {
                let n = (x.magnitude.numerator as u64) * (y.magnitude.denominator as u64) - (
                y.magnitude.numerator as u64) * (x.magnitude.denominator as u64);
                let ok = crate::magnitude::reduced_fits(n, d);
                proof {
                    assert(n as nat == (x.magnitude.numerator * y.magnitude.denominator
                        - y.magnitude.numerator * x.magnitude.denominator) as nat);
                    assert(ok == sub_fits(x.magnitude, y.magnitude));
                }
                ok
            } else {
                let n = (y.magnitude.numerator as u64) * (x.magnitude.denominator as u64) - (
                x.magnitude.numerator as u64) * (y.magnitude.denominator as u64);
                let ok = crate::magnitude::reduced_fits(n, d);
                proof {
                    assert(n as nat == (y.magnitude.numerator * x.magnitude.denominator
                        - x.magnitude.numerator * y.magnitude.denominator) as nat);
                    assert(ok == sub_fits(y.magnitude, x.magnitude));
                }
                ok
            }
        }
    }

    /// Whether the magnitude product of this term with `other` stays
    /// within bounds.
    pub fn mul_fits_check(&self, other: &Term) -> (r: bool)
        requires
            self.magnitude.wf(),
            other.magnitude.wf(),
        ensures
            r == mul_fits(self.magnitude, other.magnitude),
    {
        self.magnitude.mul_fits_check(&other.magnitude)
    }
}

} // verus!
