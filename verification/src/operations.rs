//! Algebraic operations on composite quantities, derived from the full
//! product: the Cartesian product, the conjugation operators and division.

use vstd::prelude::*;

use crate::alpha::spec_inverse;
use crate::alpha::Alpha;
use crate::form::grade;
use crate::form::Form;
use crate::index::Index;
use crate::magnitude::reduced_den;
use crate::magnitude::reduced_num;
use crate::magnitude::Magnitude;
use crate::multivector::spec_simplify;
use crate::multivector::terms_like;
use crate::multivector::MultiVector;
use crate::product::spec_full_product;
use crate::sign::spec_negate;
use crate::sign::Sign;
use crate::term::mul_fits;
use crate::term::spec_times_mag;
use crate::term::term_like;
use crate::term::Term;
use crate::xi::gather_den;
use crate::xi::gather_num;
use crate::xi::inv_gather_den;
use crate::xi::inv_gather_num;
use crate::xi::merged_den_renderings;
use crate::xi::merged_num_renderings;
use crate::xi::rendered;
use crate::xi::sort_renderings;
use crate::xi::xi_str;
use crate::xi::xi_wf;

verus! {

/// What one pairwise term product observes: the units combine under the
/// full product, the magnitudes multiply, the coefficients merge.
pub open spec fn term_prod_like(t: Term, x: Term, y: Term) -> bool {
    &&& t.alpha == spec_full_product(x.alpha, y.alpha)
    &&& t.magnitude == spec_times_mag(x.magnitude, y.magnitude)
    &&& t.xi.value is None
    &&& t.xi.partials@.len() == 0
    &&& rendered(t.xi.child_num@) == sort_renderings(merged_num_renderings(seq![x.xi, y.xi]))
    &&& rendered(t.xi.child_den@) == sort_renderings(merged_den_renderings(seq![x.xi, y.xi]))
}

/// The term a conjugation leaves when it negates on `flip`.
pub open spec fn negated_when(t: Term, flip: bool) -> Term {
    if flip {
        Term {
            magnitude: t.magnitude,
            alpha: Alpha { sign: spec_negate(t.alpha.sign), form: t.alpha.form },
            xi: t.xi,
        }
    } else {
        t
    }
}

/// Whether the reverse conjugation negates a term: exactly the bivector
/// and trivector grades, by the parity of fully reversing their axes.
pub open spec fn reverse_flips(t: Term) -> bool {
    match t.alpha.form {
        Form::Vector(_) => false,
        Form::Quadrivector(_, _, _, _) => false,
        Form::Point => false,
        _ => true,
    }
}

/// Whether the Hermitian conjugation negates a term: exactly when its unit
/// squares to the negative point.
pub open spec fn hermitian_flips(t: Term) -> bool {
    spec_full_product(t.alpha, t.alpha).sign == Sign::Neg
}

/// Whether the diamond conjugation negates a term: everything with a
/// space-time direction, that is everything but the point.
pub open spec fn diamond_flips(t: Term) -> bool {
    !(t.alpha.form is Point)
}

/// Whether the double-dagger conjugation negates a term: everything but
/// the bivector components.
pub open spec fn double_dagger_flips(t: Term) -> bool {
    !(t.alpha.form is Bivector)
}

/// Whether every pairwise magnitude product of two term runs stays within
/// the exact-arithmetic bounds.
pub open spec fn pairwise_mul_fits(a: Seq<Term>, b: Seq<Term>) -> bool {
    forall|i: int, j: int|
        0 <= i < a.len() && 0 <= j < b.len() ==> mul_fits(
            (#[trigger] a[i]).magnitude,
            (#[trigger] b[j]).magnitude,
        )
}

/// The full product of two composite quantities: the Cartesian product of
/// their terms under the pairwise term product, unsimplified.
pub fn full(left: &MultiVector, right: &MultiVector) -> (r: MultiVector)
    requires
        left.swf(),
        right.swf(),
        forall|i: int, j: int|
            0 <= i < left.terms@.len() && 0 <= j < right.terms@.len() ==> mul_fits(
                (#[trigger] left.terms@[i]).magnitude,
                (#[trigger] right.terms@[j]).magnitude,
            ),
    ensures
        r.terms@.len() == left.terms@.len() * right.terms@.len(),
        forall|i: int, j: int|
            0 <= i < left.terms@.len() && 0 <= j < right.terms@.len() ==> term_prod_like(
                #[trigger] r.terms@[i * right.terms@.len() + j],
                left.terms@[i],
                right.terms@[j],
            ),
        r.swf(),
{
    let n = right.terms.len();
    let mut out: Vec<Term> = Vec::new();
    let mut i: usize = 0;
    while i < left.terms.len()
        invariant
            i <= left.terms@.len(),
            n == right.terms@.len(),
            left.swf(),
            right.swf(),
            forall|a: int, b: int|
                0 <= a < left.terms@.len() && 0 <= b < right.terms@.len() ==> mul_fits(
                    (#[trigger] left.terms@[a]).magnitude,
                    (#[trigger] right.terms@[b]).magnitude,
                ),
            out@.len() == i * right.terms@.len(),
            forall|a: int, b: int|
                0 <= a < i && 0 <= b < right.terms@.len() ==> term_prod_like(
                    #[trigger] out@[a * right.terms@.len() + b],
                    left.terms@[a],
                    right.terms@[b],
                ),
            forall|k: int|
                0 <= k < out@.len() ==> (#[trigger] out@[k]).magnitude.wf() && xi_wf(out@[k].xi),
        decreases left.terms@.len() - i,
    {
        let mut j: usize = 0;
        while j < n
            invariant
                i < left.terms@.len(),
                j <= right.terms@.len(),
                n == right.terms@.len(),
                left.swf(),
                right.swf(),
                forall|a: int, b: int|
                    0 <= a < left.terms@.len() && 0 <= b < right.terms@.len() ==> mul_fits(
                        (#[trigger] left.terms@[a]).magnitude,
                        (#[trigger] right.terms@[b]).magnitude,
                    ),
                out@.len() == i * right.terms@.len() + j,
                forall|a: int, b: int|
                    0 <= a < i && 0 <= b < right.terms@.len() ==> term_prod_like(
                        #[trigger] out@[a * right.terms@.len() + b],
                        left.terms@[a],
                        right.terms@[b],
                    ),
                forall|b: int|
                    0 <= b < j ==> term_prod_like(
                        #[trigger] out@[i * right.terms@.len() + b],
                        left.terms@[i as int],
                        right.terms@[b],
                    ),
                forall|k: int|
                    0 <= k < out@.len() ==> (#[trigger] out@[k]).magnitude.wf() && xi_wf(
                        out@[k].xi,
                    ),
            decreases n - j,
        {
            let t = left.terms[i].form_product_with(&right.terms[j]);
            out.push(t);
            proof {
                assert(forall|a: int, b: int|
                    0 <= a < i && 0 <= b < right.terms@.len() ==> 0 <= #[trigger] (a
                        * right.terms@.len() + b) && a * right.terms@.len() + b < i
                        * right.terms@.len()) by (nonlinear_arith);
            }
            j = j + 1;
        }
        proof {
            assert((i + 1) * right.terms@.len() == i * right.terms@.len()
                + right.terms@.len()) by (nonlinear_arith);
            assert(forall|a: int, b: int|
                0 <= a < i + 1 && 0 <= b < right.terms@.len() ==> term_prod_like(
                    #[trigger] out@[a * right.terms@.len() + b],
                    left.terms@[a],
                    right.terms@[b],
                )) by {
                assert(forall|a: int, b: int|
                    0 <= a < i + 1 && 0 <= b < right.terms@.len() ==> 0 <= #[trigger] (a
                        * right.terms@.len() + b) && (a < i ==> a * right.terms@.len() + b < i
                        * right.terms@.len()) && (a == i ==> a * right.terms@.len() + b == i
                        * right.terms@.len() + b)) by (nonlinear_arith);
            }
        }
        i = i + 1;
    }
    proof {
        assert(out@.len() == left.terms@.len() * right.terms@.len()) by (nonlinear_arith)
            requires
                out@.len() == i * right.terms@.len(),
                i == left.terms@.len(),
        ;
    }
    MultiVector { terms: out }
}

impl MultiVector {
    /// Check to see whether this quantity is entirely composed of scalar
    /// elements: nothing of a grade above the point.
    pub fn is_scalar(&self) -> (r: bool)
        ensures
            r == (forall|i: int|
                0 <= i < self.terms@.len() ==> (#[trigger] self.terms@[i]).alpha.form
                    == Form::Point),
    {
        let mut k: usize = 0;
        while k < self.terms.len()
            invariant
                k <= self.terms@.len(),
                forall|i: int|
                    0 <= i < k ==> (#[trigger] self.terms@[i]).alpha.form == Form::Point,
            decreases self.terms@.len() - k,
        {
            if !self.terms[k].alpha().is_point() {
                return false;
            }
            k = k + 1;
        }
        true
    }

    /// The grade-projection operator: keep only the terms of the grade the
    /// given form has, ignoring its axes.
    pub fn project(&self, grade_of: &Form) -> (r: MultiVector)
        ensures
            terms_like(r.terms@, crate::multivector::spec_with_grade(self.terms@, grade(*grade_of))),
            self.swf() ==> r.swf(),
    {
        let g = grade_of.grade_num();
        let mut out: Vec<Term> = Vec::new();
        let mut k: usize = 0;
        while k < self.terms.len()
            invariant
                k <= self.terms@.len(),
                g as int == grade(*grade_of),
                terms_like(
                    out@,
                    crate::multivector::spec_with_grade(self.terms@.take(k as int), g as int),
                ),
                self.swf() ==> forall|i: int|
                    0 <= i < out@.len() ==> (#[trigger] out@[i]).magnitude.wf() && xi_wf(
                        out@[i].xi,
                    ),
            decreases self.terms@.len() - k,
        {
            proof {
                assert(self.terms@.take(k + 1).drop_last() =~= self.terms@.take(k as int));
            }
            if self.terms[k].form().grade_num() == g {
                out.push(self.terms[k].duplicate());
            }
            k = k + 1;
        }
        proof {
            assert(self.terms@.take(self.terms@.len() as int) =~= self.terms@);
        }
        MultiVector { terms: out }
    }

    /// Reverse the order of the basis elements within every term and
    /// resolve back to the registry: bivector and trivector terms negate,
    /// the rest stand.
    pub fn reversed(&self) -> (r: MultiVector)
        ensures
            r.terms@.len() == self.terms@.len(),
            forall|i: int|
                0 <= i < self.terms@.len() ==> term_like(
                    #[trigger] r.terms@[i],
                    negated_when(self.terms@[i], reverse_flips(self.terms@[i])),
                ),
            self.swf() ==> r.swf(),
    {
        let mut out: Vec<Term> = Vec::new();
        let mut k: usize = 0;
        while k < self.terms.len()
            invariant
                k <= self.terms@.len(),
                out@.len() == k,
                forall|i: int|
                    0 <= i < k ==> term_like(
                        #[trigger] out@[i],
                        negated_when(self.terms@[i], reverse_flips(self.terms@[i])),
                    ),
                self.swf() ==> forall|i: int|
                    0 <= i < out@.len() ==> (#[trigger] out@[i]).magnitude.wf() && xi_wf(
                        out@[i].xi,
                    ),
            decreases self.terms@.len() - k,
        {
            let t = &self.terms[k];
            let flip = match t.form() {
                Form::Vector(_) => false,
                Form::Quadrivector(_, _, _, _) => false,
                Form::Point => false,
                _ => true,
            };
            if flip {
                out.push(t.negated());
            } else {
                out.push(t.duplicate());
            }
            k = k + 1;
        }
        MultiVector { terms: out }
    }

    /// The Hermitian conjugate (dagger): negate every term whose unit
    /// squares to the negative point.
    pub fn hermitian(&self) -> (r: MultiVector)
        ensures
            r.terms@.len() == self.terms@.len(),
            forall|i: int|
                0 <= i < self.terms@.len() ==> term_like(
                    #[trigger] r.terms@[i],
                    negated_when(self.terms@[i], hermitian_flips(self.terms@[i])),
                ),
            self.swf() ==> r.swf(),
    {
        let mut out: Vec<Term> = Vec::new();
        let mut k: usize = 0;
        while k < self.terms.len()
            invariant
                k <= self.terms@.len(),
                out@.len() == k,
                forall|i: int|
                    0 <= i < k ==> term_like(
                        #[trigger] out@[i],
                        negated_when(self.terms@[i], hermitian_flips(self.terms@[i])),
                    ),
                self.swf() ==> forall|i: int|
                    0 <= i < out@.len() ==> (#[trigger] out@[i]).magnitude.wf() && xi_wf(
                        out@[i].xi,
                    ),
            decreases self.terms@.len() - k,
        {
            let t = &self.terms[k];
            let a = t.alpha();
            let square = crate::product::ar_product(&a, &a);
            let flip = match square.sign() {
                Sign::Neg => true,
                Sign::Pos => false,
            };
            if flip {
                out.push(t.negated());
            } else {
                out.push(t.duplicate());
            }
            k = k + 1;
        }
        MultiVector { terms: out }
    }

    /// Alias for the Hermitian conjugate.
    pub fn dagger(&self) -> (r: MultiVector)
        ensures
            r.terms@.len() == self.terms@.len(),
            forall|i: int|
                0 <= i < self.terms@.len() ==> term_like(
                    #[trigger] r.terms@[i],
                    negated_when(self.terms@[i], hermitian_flips(self.terms@[i])),
                ),
            self.swf() ==> r.swf(),
    {
        self.hermitian()
    }

    /// The diamond conjugate: negate everything with a space-time
    /// direction, that is everything but the point terms.
    pub fn diamond(&self) -> (r: MultiVector)
        ensures
            r.terms@.len() == self.terms@.len(),
            forall|i: int|
                0 <= i < self.terms@.len() ==> term_like(
                    #[trigger] r.terms@[i],
                    negated_when(self.terms@[i], diamond_flips(self.terms@[i])),
                ),
            self.swf() ==> r.swf(),
    {
        let mut out: Vec<Term> = Vec::new();
        let mut k: usize = 0;
        while k < self.terms.len()
            invariant
                k <= self.terms@.len(),
                out@.len() == k,
                forall|i: int|
                    0 <= i < k ==> term_like(
                        #[trigger] out@[i],
                        negated_when(self.terms@[i], diamond_flips(self.terms@[i])),
                    ),
                self.swf() ==> forall|i: int|
                    0 <= i < out@.len() ==> (#[trigger] out@[i]).magnitude.wf() && xi_wf(
                        out@[i].xi,
                    ),
            decreases self.terms@.len() - k,
        {
            let t = &self.terms[k];
            if t.alpha().is_point() {
                out.push(t.duplicate());
            } else {
                out.push(t.negated());
            }
            k = k + 1;
        }
        MultiVector { terms: out }
    }

    /// The double-dagger conjugate: negate everything but the bivector
    /// components, the fields.
    pub fn double_dagger(&self) -> (r: MultiVector)
        ensures
            r.terms@.len() == self.terms@.len(),
            forall|i: int|
                0 <= i < self.terms@.len() ==> term_like(
                    #[trigger] r.terms@[i],
                    negated_when(self.terms@[i], double_dagger_flips(self.terms@[i])),
                ),
            self.swf() ==> r.swf(),
    {
        let mut out: Vec<Term> = Vec::new();
        let mut k: usize = 0;
        while k < self.terms.len()
            invariant
                k <= self.terms@.len(),
                out@.len() == k,
                forall|i: int|
                    0 <= i < k ==> term_like(
                        #[trigger] out@[i],
                        negated_when(self.terms@[i], double_dagger_flips(self.terms@[i])),
                    ),
                self.swf() ==> forall|i: int|
                    0 <= i < out@.len() ==> (#[trigger] out@[i]).magnitude.wf() && xi_wf(
                        out@[i].xi,
                    ),
            decreases self.terms@.len() - k,
        {
            let t = &self.terms[k];
            let keep = match t.form() {
                Form::Bivector(_, _) => true,
                _ => false,
            };
            if keep {
                out.push(t.duplicate());
            } else {
                out.push(t.negated());
            }
            k = k + 1;
        }
        MultiVector { terms: out }
    }

    /// The dual: the inverse of every element through the full
    /// quadrivector rather than the point, formed as the product of the
    /// negative quadrivector with every term.
    pub fn dual(&self) -> (r: MultiVector)
        requires
            self.swf(),
        ensures
            r.terms@.len() == self.terms@.len(),
            forall|i: int|
                0 <= i < self.terms@.len() ==> (#[trigger] r.terms@[i]).alpha == spec_full_product(
                    Alpha {
                        sign: Sign::Neg,
                        form: Form::Quadrivector(Index::Zero, Index::One, Index::Two, Index::Three),
                    },
                    self.terms@[i].alpha,
                ),
            forall|i: int|
                0 <= i < self.terms@.len() ==> (#[trigger] r.terms@[i]).magnitude.is_reduced_frac(
                    self.terms@[i].magnitude.numerator as nat,
                    self.terms@[i].magnitude.denominator as nat,
                ),
            forall|i: int|
                0 <= i < self.terms@.len() ==> (#[trigger] r.terms@[i]).xi.value is None
                    && r.terms@[i].xi.partials@.len() == 0 && rendered(r.terms@[i].xi.child_num@)
                    == sort_renderings(
                    seq![seq!['ξ', '0', '1', '2', '3']] + gather_num(self.terms@[i].xi),
                ) && rendered(r.terms@[i].xi.child_den@) == sort_renderings(
                    gather_den(self.terms@[i].xi),
                ),
            r.swf(),
    {
        let q = Term::new(
            None,
            Alpha {
                sign: Sign::Neg,
                form: Form::Quadrivector(Index::Zero, Index::One, Index::Two, Index::Three),
            },
        );
        proof {
            assert(crate::form::spec_form_str(
                Form::Quadrivector(Index::Zero, Index::One, Index::Two, Index::Three),
            ) =~= seq!['0', '1', '2', '3']) by {
                reveal_with_fuel(crate::form::axes_str, 6);
                assert(crate::form::form_axes(
                    Form::Quadrivector(Index::Zero, Index::One, Index::Two, Index::Three),
                ) =~= seq![Index::Zero, Index::One, Index::Two, Index::Three]);
            }
            assert(xi_str(q.xi) =~= seq!['ξ', '0', '1', '2', '3']);
        }
        let mut out: Vec<Term> = Vec::new();
        let mut k: usize = 0;
        while k < self.terms.len()
            invariant
                k <= self.terms@.len(),
                out@.len() == k,
                self.swf(),
                q.magnitude == (Magnitude { numerator: 1, denominator: 1 }),
                xi_wf(q.xi),
                q.alpha == (Alpha {
                    sign: Sign::Neg,
                    form: Form::Quadrivector(Index::Zero, Index::One, Index::Two, Index::Three),
                }),
                xi_str(q.xi) == seq!['ξ', '0', '1', '2', '3'],
                !crate::xi::is_empty_parent(q.xi),
                forall|i: int|
                    0 <= i < k ==> (#[trigger] out@[i]).alpha == spec_full_product(
                        q.alpha,
                        self.terms@[i].alpha,
                    ),
                forall|i: int|
                    0 <= i < k ==> (#[trigger] out@[i]).magnitude.is_reduced_frac(
                        self.terms@[i].magnitude.numerator as nat,
                        self.terms@[i].magnitude.denominator as nat,
                    ),
                forall|i: int|
                    0 <= i < k ==> (#[trigger] out@[i]).xi.value is None
                        && out@[i].xi.partials@.len() == 0 && rendered(out@[i].xi.child_num@)
                        == sort_renderings(
                        seq![seq!['ξ', '0', '1', '2', '3']] + gather_num(self.terms@[i].xi),
                    ) && rendered(out@[i].xi.child_den@) == sort_renderings(
                        gather_den(self.terms@[i].xi),
                    ),
                forall|i: int|
                    0 <= i < out@.len() ==> (#[trigger] out@[i]).magnitude.wf() && xi_wf(
                        out@[i].xi,
                    ),
            decreases self.terms@.len() - k,
        {
            proof {
                let m = self.terms@[k as int].magnitude;
                crate::magnitude::lemma_reduced_le(m.numerator as nat, m.denominator as nat);
                assert(q.magnitude.numerator * m.numerator == m.numerator) by (nonlinear_arith)
                    requires
                        q.magnitude.numerator == 1,
                ;
                assert(q.magnitude.denominator * m.denominator == m.denominator)
                    by (nonlinear_arith)
                    requires
                        q.magnitude.denominator == 1,
                ;
                assert(mul_fits(q.magnitude, m));
            }
            let t = q.form_product_with(&self.terms[k]);
            proof {
                crate::xi::lemma_gather_two(q.xi, self.terms@[k as int].xi);
                assert(gather_num(q.xi) =~= seq![seq!['ξ', '0', '1', '2', '3']]);
                assert(gather_den(q.xi) =~= Seq::<Seq<char>>::empty());
                assert(gather_den(q.xi) + gather_den(self.terms@[k as int].xi) =~= gather_den(
                    self.terms@[k as int].xi,
                ));
            }
            out.push(t);
            k = k + 1;
        }
        MultiVector { terms: out }
    }

    /// The product inverse of every term, through the point.
    pub fn inverse(&self) -> (r: MultiVector)
        requires
            self.swf(),
            forall|i: int|
                0 <= i < self.terms@.len() ==> (#[trigger] self.terms@[i]).magnitude.numerator > 0,
        ensures
            r.terms@.len() == self.terms@.len(),
            forall|i: int|
                0 <= i < self.terms@.len() ==> (#[trigger] r.terms@[i]).alpha == spec_inverse(
                    self.terms@[i].alpha,
                ) && r.terms@[i].magnitude.is_reduced_frac(
                    self.terms@[i].magnitude.denominator as nat,
                    self.terms@[i].magnitude.numerator as nat,
                ),
            forall|i: int|
                0 <= i < self.terms@.len() ==> rendered(
                    (#[trigger] r.terms@[i]).xi.child_num@,
                ) == rendered(self.terms@[i].xi.child_den@) && rendered(r.terms@[i].xi.child_den@)
                    == rendered(self.terms@[i].xi.child_num@) && crate::xi::is_empty_parent(
                    r.terms@[i].xi,
                ) == crate::xi::is_empty_parent(self.terms@[i].xi) && xi_str(r.terms@[i].xi)
                    == crate::xi::inverse_render(self.terms@[i].xi),
            r.swf(),
    {
        let mut out: Vec<Term> = Vec::new();
        let mut k: usize = 0;
        while k < self.terms.len()
            invariant
                k <= self.terms@.len(),
                out@.len() == k,
                self.swf(),
                forall|i: int|
                    0 <= i < self.terms@.len() ==> (#[trigger] self.terms@[i]).magnitude.numerator
                        > 0,
                forall|i: int|
                    0 <= i < k ==> (#[trigger] out@[i]).alpha == spec_inverse(
                        self.terms@[i].alpha,
                    ) && out@[i].magnitude.is_reduced_frac(
                        self.terms@[i].magnitude.denominator as nat,
                        self.terms@[i].magnitude.numerator as nat,
                    ),
                forall|i: int|
                    0 <= i < k ==> rendered((#[trigger] out@[i]).xi.child_num@) == rendered(
                        self.terms@[i].xi.child_den@,
                    ) && rendered(out@[i].xi.child_den@) == rendered(self.terms@[i].xi.child_num@)
                        && crate::xi::is_empty_parent(out@[i].xi) == crate::xi::is_empty_parent(
                        self.terms@[i].xi,
                    ) && xi_str(out@[i].xi) == crate::xi::inverse_render(self.terms@[i].xi),
                forall|i: int|
                    0 <= i < out@.len() ==> (#[trigger] out@[i]).magnitude.wf() && xi_wf(
                        out@[i].xi,
                    ),
            decreases self.terms@.len() - k,
        {
            out.push(self.terms[k].inverse());
            k = k + 1;
        }
        MultiVector { terms: out }
    }
}

/// One stage image of the Hermitian conjugate: every term negated exactly
/// when its unit squares to the negative point.
pub open spec fn hermitian_image(out: Seq<Term>, inp: Seq<Term>) -> bool {
    out.len() == inp.len() && forall|i: int|
        0 <= i < inp.len() ==> term_like(#[trigger] out[i], negated_when(inp[i], hermitian_flips(inp[i])))
}

/// One stage image of the diamond conjugate: every term negated except the
/// point terms.
pub open spec fn diamond_image(out: Seq<Term>, inp: Seq<Term>) -> bool {
    out.len() == inp.len() && forall|i: int|
        0 <= i < inp.len() ==> term_like(#[trigger] out[i], negated_when(inp[i], diamond_flips(inp[i])))
}

/// One stage image of the dual: every term the full product of the
/// negative quadrivector with it.
pub open spec fn dual_image(out: Seq<Term>, inp: Seq<Term>) -> bool {
    &&& out.len() == inp.len()
    &&& forall|i: int|
        0 <= i < inp.len() ==> (#[trigger] out[i]).alpha == spec_full_product(
            Alpha {
                sign: Sign::Neg,
                form: Form::Quadrivector(Index::Zero, Index::One, Index::Two, Index::Three),
            },
            inp[i].alpha,
        ) && out[i].magnitude.is_reduced_frac(
            inp[i].magnitude.numerator as nat,
            inp[i].magnitude.denominator as nat,
        ) && out[i].xi.value is None && out[i].xi.partials@.len() == 0 && rendered(
            out[i].xi.child_num@,
        ) == sort_renderings(seq![seq!['ξ', '0', '1', '2', '3']] + gather_num(inp[i].xi))
            && rendered(out[i].xi.child_den@) == sort_renderings(gather_den(inp[i].xi))
}

/// One stage image of the Cartesian full product: one pairwise term
/// product per term pair, row by row.
pub open spec fn product_image(out: Seq<Term>, a: Seq<Term>, b: Seq<Term>) -> bool {
    out.len() == a.len() * b.len() && forall|i: int, j: int|
        0 <= i < a.len() && 0 <= j < b.len() ==> term_prod_like(
            #[trigger] out[i * b.len() + j],
            a[i],
            b[j],
        )
}

/// One stage image of scaling by a magnitude's reciprocal: every term
/// divided by `d`, all else unchanged.
pub open spec fn reciprocal_scaled(out: Seq<Term>, inp: Seq<Term>, d: Magnitude) -> bool {
    out.len() == inp.len() && forall|i: int|
        0 <= i < inp.len() ==> (#[trigger] out[i]).alpha == inp[i].alpha
            && out[i].magnitude.is_reduced_frac(
            (inp[i].magnitude.numerator * d.denominator) as nat,
            (inp[i].magnitude.denominator * d.numerator) as nat,
        ) && xi_str(out[i].xi) == xi_str(inp[i].xi)
}

/// The Van der Mark chain: the intermediate quantities of the general
/// inverse exist and each stage is the image the preceding contracts give.
/// The divisor stage reduces to one positive point term; a quantity for
/// which it does not has no inverse under this construction.
pub open spec fn vdm_chain(l: Seq<Term>, rt: Seq<Term>, out: Seq<Term>) -> bool {
    exists|
        h: Seq<Term>,
        phi_raw: Seq<Term>,
        phi: Seq<Term>,
        dphi: Seq<Term>,
        div_raw: Seq<Term>,
        div_s: Seq<Term>,
        inv_raw: Seq<Term>,
        inv: Seq<Term>,
        prod_raw: Seq<Term>,
        prod: Seq<Term>,
    |
        #![auto]
        {
            &&& hermitian_image(h, l)
            &&& product_image(phi_raw, l, h)
            &&& terms_like(phi, spec_simplify(phi_raw))
            &&& diamond_image(dphi, phi)
            &&& product_image(div_raw, phi, dphi)
            &&& terms_like(div_s, spec_simplify(div_raw))
            &&& div_s.len() == 1
            &&& div_s[0].alpha.form == Form::Point
            &&& div_s[0].magnitude.numerator > 0
            &&& product_image(inv_raw, h, dphi)
            &&& terms_like(inv, spec_simplify(inv_raw))
            &&& product_image(prod_raw, inv, rt)
            &&& terms_like(prod, spec_simplify(prod_raw))
            &&& reciprocal_scaled(out, prod, div_s[0].magnitude)
        }
}

/// Why a division yields no quotient.
#[derive(Debug, Eq, PartialEq, Structural, Copy, Clone)]
pub enum DivisionError {
    /// Some magnitude cross-multiplication would leave the exact range.
    BoundExceeded,
    /// The Van der Mark divisor did not reduce to a single positive point
    /// term: the left operand has no inverse under this construction.
    DegenerateDivisor,
}

/// Whether one magnitude divided by another stays within the
/// exact-arithmetic bounds.
pub open spec fn div_fits(a: Magnitude, d: Magnitude) -> bool {
    reduced_num((a.numerator * d.denominator) as nat, (a.denominator * d.numerator) as nat)
        <= crate::magnitude::MAG_LIMIT && reduced_den(
        (a.numerator * d.denominator) as nat,
        (a.denominator * d.numerator) as nat,
    ) <= crate::magnitude::MAG_LIMIT
}

/// The magnitude bound on the inverse of a single left term producted onto
/// a single right term: what the direct division path needs to succeed.
pub open spec fn div_single_fits(l0: Term, r0: Term) -> bool {
    &&& l0.magnitude.numerator > 0
    &&& mul_fits(
        Magnitude {
            numerator: reduced_num(
                l0.magnitude.denominator as nat,
                l0.magnitude.numerator as nat,
            ) as usize,
            denominator: reduced_den(
                l0.magnitude.denominator as nat,
                l0.magnitude.numerator as nat,
            ) as usize,
        },
        r0.magnitude,
    )
}

/// The closing conditions of the Van der Mark chain, from the inverse
/// quantity on: its folding fits, its product with the right operand fits,
/// that product's folding fits, and the divisor divides every result term
/// within bounds.
pub open spec fn vdm_feasible_tail(
    rt: Seq<Term>,
    div_s: Seq<Term>,
    inv_raw: Seq<Term>,
    inv: Seq<Term>,
) -> bool {
    &&& crate::multivector::simplify_fits(inv_raw)
    &&& pairwise_mul_fits(inv, rt)
    &&& forall|prod_raw: Seq<Term>, prod: Seq<Term>|
        #![auto]
        product_image(prod_raw, inv, rt) && terms_like(prod, spec_simplify(prod_raw)) ==> {
            &&& crate::multivector::simplify_fits(prod_raw)
            &&& forall|k: int|
                0 <= k < prod.len() ==> div_fits((#[trigger] prod[k]).magnitude, div_s[0].magnitude)
        }
}

/// The conditions of the Van der Mark chain from the divisor stage on: the
/// divisor product folds within bounds to one positive point term, and
/// whatever inverse quantity follows keeps fitting.
pub open spec fn vdm_feasible_from_divisor(
    rt: Seq<Term>,
    h: Seq<Term>,
    dphi: Seq<Term>,
    div_raw: Seq<Term>,
    div_s: Seq<Term>,
) -> bool {
    &&& crate::multivector::simplify_fits(div_raw)
    &&& div_s.len() == 1
    &&& div_s[0].alpha.form == Form::Point
    &&& div_s[0].magnitude.numerator > 0
    &&& pairwise_mul_fits(h, dphi)
    &&& forall|inv_raw: Seq<Term>, inv: Seq<Term>|
        #![auto]
        product_image(inv_raw, h, dphi) && terms_like(inv, spec_simplify(inv_raw))
            ==> vdm_feasible_tail(rt, div_s, inv_raw, inv)
}

/// The conditions of the Van der Mark chain from the norm-like quantity
/// on: its folding fits, its product with its diamond conjugate fits, and
/// the divisor stage keeps fitting.
pub open spec fn vdm_feasible_from_phi(
    rt: Seq<Term>,
    h: Seq<Term>,
    phi_raw: Seq<Term>,
    phi: Seq<Term>,
) -> bool {
    &&& crate::multivector::simplify_fits(phi_raw)
    &&& pairwise_mul_fits(phi, phi)
    &&& forall|dphi: Seq<Term>, div_raw: Seq<Term>, div_s: Seq<Term>|
        #![auto]
        diamond_image(dphi, phi) && product_image(div_raw, phi, dphi) && terms_like(
            div_s,
            spec_simplify(div_raw),
        ) ==> vdm_feasible_from_divisor(rt, h, dphi, div_raw, div_s)
}

/// When the general division is owed a quotient: every magnitude bound
/// along the Van der Mark chain holds and the divisor reduces to one
/// positive point term. The stages are quantified over their image
/// predicates, which pin them as far as the bounds and the divisor can
/// depend on them.
pub open spec fn vdm_feasible(l: Seq<Term>, rt: Seq<Term>) -> bool {
    &&& pairwise_mul_fits(l, l)
    &&& forall|h: Seq<Term>, phi_raw: Seq<Term>, phi: Seq<Term>|
        #![auto]
        hermitian_image(h, l) && product_image(phi_raw, l, h) && terms_like(
            phi,
            spec_simplify(phi_raw),
        ) ==> vdm_feasible_from_phi(rt, h, phi_raw, phi)
}

/// A Van der Mark divisor stage that failed to reduce to one positive
/// point term exists for the left operand.
pub open spec fn vdm_degenerate(l: Seq<Term>) -> bool {
    exists|
        h: Seq<Term>,
        phi_raw: Seq<Term>,
        phi: Seq<Term>,
        dphi: Seq<Term>,
        div_raw: Seq<Term>,
        div_s: Seq<Term>,
    |
        #![auto]
        {
            &&& hermitian_image(h, l)
            &&& product_image(phi_raw, l, h)
            &&& terms_like(phi, spec_simplify(phi_raw))
            &&& diamond_image(dphi, phi)
            &&& product_image(div_raw, phi, dphi)
            &&& terms_like(div_s, spec_simplify(div_raw))
            &&& !(div_s.len() == 1 && div_s[0].alpha.form == Form::Point
                && div_s[0].magnitude.numerator > 0)
        }
}

/// Two runs whose terms agree elementwise on their magnitudes fit
/// pairwise exactly alike.
proof fn lemma_pairwise_like(a: Seq<Term>, b: Seq<Term>, b2: Seq<Term>)
    requires
        b.len() == b2.len(),
        forall|j: int| 0 <= j < b.len() ==> (#[trigger] b[j]).magnitude == b2[j].magnitude,
        pairwise_mul_fits(a, b2),
    ensures
        pairwise_mul_fits(a, b),
{
}

/// Observational equality is reflexive on term runs.
proof fn lemma_terms_like_refl(s: Seq<Term>)
    ensures
        terms_like(s, s),
{
}

/// Divide `left` into `right`. A pair of single terms divides directly:
/// the inverse of the left term producted onto the right one. Anything
/// else goes through the general Van der Mark inverse. A crossed magnitude
/// bound (or a zero left magnitude) gives `BoundExceeded`; a Van der Mark
/// divisor that does not reduce to one positive point term gives
/// `DegenerateDivisor`, the fatal case of the design.
pub fn div(left: &MultiVector, right: &MultiVector) -> (r: Result<
    MultiVector,
    DivisionError,
>)
    requires
        left.swf(),
        right.swf(),
    ensures
        r matches Ok(q) ==> q.swf() && if left.terms@.len() == 1 && right.terms@.len() == 1 {
            &&& q.terms@.len() == 1
            &&& q.terms@[0].alpha == spec_full_product(
                spec_inverse(left.terms@[0].alpha),
                right.terms@[0].alpha,
            )
            &&& q.terms@[0].magnitude == spec_times_mag(
                Magnitude {
                    numerator: reduced_num(
                        left.terms@[0].magnitude.denominator as nat,
                        left.terms@[0].magnitude.numerator as nat,
                    ) as usize,
                    denominator: reduced_den(
                        left.terms@[0].magnitude.denominator as nat,
                        left.terms@[0].magnitude.numerator as nat,
                    ) as usize,
                },
                right.terms@[0].magnitude,
            )
            &&& q.terms@[0].xi.value is None
            &&& q.terms@[0].xi.partials@.len() == 0
            &&& rendered(q.terms@[0].xi.child_num@) == sort_renderings(
                inv_gather_num(left.terms@[0].xi) + gather_num(right.terms@[0].xi),
            )
            &&& rendered(q.terms@[0].xi.child_den@) == sort_renderings(
                inv_gather_den(left.terms@[0].xi) + gather_den(right.terms@[0].xi),
            )
        } else {
            vdm_chain(left.terms@, right.terms@, q.terms@)
        },
        left.terms@.len() == 1 && right.terms@.len() == 1 && div_single_fits(
            left.terms@[0],
            right.terms@[0],
        ) ==> r is Ok,
        !(left.terms@.len() == 1 && right.terms@.len() == 1) && vdm_feasible(
            left.terms@,
            right.terms@,
        ) ==> r is Ok,
        r == Err::<MultiVector, DivisionError>(DivisionError::DegenerateDivisor)
            ==> vdm_degenerate(left.terms@),
{
    if left.len() == 1 && right.len() == 1 {
        if left.term_at(0).magnitude().is_zero() {
            return Err(DivisionError::BoundExceeded);
        }
        let li = left.term_at(0).inverse();
        proof {
            assert(gather_num(li.xi) =~= inv_gather_num(left.terms@[0].xi));
            assert(gather_den(li.xi) =~= inv_gather_den(left.terms@[0].xi));
            assert(li.magnitude == Magnitude {
                numerator: reduced_num(
                    left.terms@[0].magnitude.denominator as nat,
                    left.terms@[0].magnitude.numerator as nat,
                ) as usize,
                denominator: reduced_den(
                    left.terms@[0].magnitude.denominator as nat,
                    left.terms@[0].magnitude.numerator as nat,
                ) as usize,
            });
        }
        if !li.mul_fits_check(right.term_at(0)) {
            return Err(DivisionError::BoundExceeded);
        }
        let t = li.form_product_with(right.term_at(0));
        proof {
            crate::xi::lemma_gather_two(li.xi, right.terms@[0].xi);
        }
        let mut out: Vec<Term> = Vec::new();
        out.push(t);
        Ok(MultiVector { terms: out })
    } else {
        div_general(left, right)
    }
}

/// General division left into right via the Van der Mark inverse: the
/// norm-like quantity of the left operand with its Hermitian conjugate is
/// formed and collapsed against its diamond conjugate to a single point
/// divisor, and the inverse quantity so obtained is producted onto the
/// right operand and scaled by the divisor's reciprocal. A quotient is
/// owed whenever the chain's magnitude bounds hold and the divisor does
/// not degenerate; the two failure kinds come back apart.
pub fn div_general(left: &MultiVector, right: &MultiVector) -> (r: Result<
    MultiVector,
    DivisionError,
>)
    requires
        left.swf(),
        right.swf(),
    ensures
        r matches Ok(q) ==> q.swf() && vdm_chain(left.terms@, right.terms@, q.terms@),
        vdm_feasible(left.terms@, right.terms@) ==> r is Ok,
        r == Err::<MultiVector, DivisionError>(DivisionError::DegenerateDivisor)
            ==> vdm_degenerate(left.terms@),
{
    let ghost l = left.terms@;
    let ghost rt = right.terms@;
    let h = left.hermitian();
    proof {
        assert(hermitian_image(h.terms@, l));
    }
    let phi_raw = match full_checked(left, &h) {
        Some(m) => m,
        None => {
            proof {
                if vdm_feasible(l, rt) {
                    lemma_pairwise_like(l, h.terms@, l);
                }
            }
            return Err(DivisionError::BoundExceeded);
        },
    };
    let ghost phi_raw_seq = phi_raw.terms@;
    proof {
        assert(product_image(phi_raw_seq, l, h.terms@));
    }
    let phi = match phi_raw.try_simplify() {
        Some(m) => m,
        None => {
            proof {
                if vdm_feasible(l, rt) {
                    lemma_terms_like_refl(spec_simplify(phi_raw_seq));
                    assert(vdm_feasible_from_phi(rt, h.terms@, phi_raw_seq, spec_simplify(
                        phi_raw_seq,
                    )));
                }
            }
            return Err(DivisionError::BoundExceeded);
        },
    };
    proof {
        if vdm_feasible(l, rt) {
            assert(vdm_feasible_from_phi(rt, h.terms@, phi_raw_seq, phi.terms@));
        }
    }
    let dphi = phi.diamond();
    proof {
        assert(diamond_image(dphi.terms@, phi.terms@));
    }
    let div_raw = match full_checked(&phi, &dphi) {
        Some(m) => m,
        None => {
            proof {
                if vdm_feasible(l, rt) {
                    lemma_pairwise_like(phi.terms@, dphi.terms@, phi.terms@);
                }
            }
            return Err(DivisionError::BoundExceeded);
        },
    };
    let ghost div_raw_seq = div_raw.terms@;
    proof {
        assert(product_image(div_raw_seq, phi.terms@, dphi.terms@));
    }
    let div_s = match div_raw.try_simplify() {
        Some(m) => m,
        None => {
            proof {
                if vdm_feasible(l, rt) {
                    lemma_terms_like_refl(spec_simplify(div_raw_seq));
                    assert(vdm_feasible_from_divisor(rt, h.terms@, dphi.terms@, div_raw_seq,
                        spec_simplify(div_raw_seq)));
                }
            }
            return Err(DivisionError::BoundExceeded);
        },
    };
    let divisor_ok = if div_s.len() != 1 {
        false
    } else {
        let divisor = div_s.term_at(0);
        let is_point = match divisor.form() {
            Form::Point => true,
            _ => false,
        };
        is_point && !divisor.magnitude().is_zero()
    };
    if !divisor_ok {
        proof {
            if vdm_feasible(l, rt) {
                assert(vdm_feasible_from_divisor(rt, h.terms@, dphi.terms@, div_raw_seq,
                    div_s.terms@));
            }
            assert(vdm_degenerate(l)) by {
                assert(hermitian_image(h.terms@, l) && product_image(phi_raw_seq, l, h.terms@)
                    && terms_like(phi.terms@, spec_simplify(phi_raw_seq)) && diamond_image(
                    dphi.terms@,
                    phi.terms@,
                ) && product_image(div_raw_seq, phi.terms@, dphi.terms@) && terms_like(
                    div_s.terms@,
                    spec_simplify(div_raw_seq),
                ) && !(div_s.terms@.len() == 1 && div_s.terms@[0].alpha.form == Form::Point
                    && div_s.terms@[0].magnitude.numerator > 0));
            }
        }
        return Err(DivisionError::DegenerateDivisor);
    }
    let divisor_mag = div_s.term_at(0).magnitude();
    proof {
        if vdm_feasible(l, rt) {
            assert(vdm_feasible_from_divisor(rt, h.terms@, dphi.terms@, div_raw_seq,
                div_s.terms@));
        }
    }
    let inv_raw = match full_checked(&h, &dphi) {
        Some(m) => m,
        None => {
            return Err(DivisionError::BoundExceeded);
        },
    };
    let ghost inv_raw_seq = inv_raw.terms@;
    proof {
        assert(product_image(inv_raw_seq, h.terms@, dphi.terms@));
    }
    let inv = match inv_raw.try_simplify() {
        Some(m) => m,
        None => {
            proof {
                if vdm_feasible(l, rt) {
                    lemma_terms_like_refl(spec_simplify(inv_raw_seq));
                    assert(vdm_feasible_tail(rt, div_s.terms@, inv_raw_seq, spec_simplify(
                        inv_raw_seq,
                    )));
                }
            }
            return Err(DivisionError::BoundExceeded);
        },
    };
    proof {
        if vdm_feasible(l, rt) {
            assert(vdm_feasible_tail(rt, div_s.terms@, inv_raw_seq, inv.terms@));
        }
    }
    let prod_raw = match full_checked(&inv, right) {
        Some(m) => m,
        None => {
            return Err(DivisionError::BoundExceeded);
        },
    };
    let ghost prod_raw_seq = prod_raw.terms@;
    proof {
        assert(product_image(prod_raw_seq, inv.terms@, rt));
    }
    let prod = match prod_raw.try_simplify() {
        Some(m) => m,
        None => {
            proof {
                if vdm_feasible(l, rt) {
                    lemma_terms_like_refl(spec_simplify(prod_raw_seq));
                }
            }
            return Err(DivisionError::BoundExceeded);
        },
    };
    let out = match scale_down_checked(&prod, &divisor_mag) {
        Some(m) => m,
        None => {
            return Err(DivisionError::BoundExceeded);
        },
    };
    proof {
        assert(vdm_chain(l, rt, out.terms@)) by {
            assert(hermitian_image(h.terms@, l));
            assert(product_image(phi_raw_seq, l, h.terms@));
            assert(diamond_image(dphi.terms@, phi.terms@));
            assert(product_image(div_raw_seq, phi.terms@, dphi.terms@));
            assert(product_image(inv_raw_seq, h.terms@, dphi.terms@));
            assert(product_image(prod_raw_seq, inv.terms@, rt));
            assert(reciprocal_scaled(out.terms@, prod.terms@, div_s.terms@[0].magnitude));
        }
    }
    Ok(out)
}

/// When the product of a quantity with its own dual is owed: every
/// pairwise magnitude bound holds (the dual keeps the magnitudes of a
/// well-formed quantity), and when simplification is asked for, its
/// folding fits too.
pub open spec fn mm_bar_feasible(a: Seq<Term>, cancel_term: bool) -> bool {
    &&& pairwise_mul_fits(a, a)
    &&& cancel_term ==> forall|d: Seq<Term>, raw: Seq<Term>|
        #![auto]
        dual_image(d, a) && product_image(raw, a, d) ==> crate::multivector::simplify_fits(raw)
}

/// The product of a quantity with its own dual, optionally simplified.
/// Nothing comes back when a magnitude bound would be crossed.
pub fn mm_bar(arg: &MultiVector, cancel_term: bool) -> (r: Option<MultiVector>)
    requires
        arg.swf(),
    ensures
        r matches Some(m) ==> m.swf() && exists|d: Seq<Term>, raw: Seq<Term>|
            #![auto]
            {
                &&& dual_image(d, arg.terms@)
                &&& product_image(raw, arg.terms@, d)
                &&& if cancel_term {
                    terms_like(m.terms@, spec_simplify(raw))
                } else {
                    m.terms@ == raw
                }
            },
        mm_bar_feasible(arg.terms@, cancel_term) ==> r is Some,
{
    let d = arg.dual();
    proof {
        assert(dual_image(d.terms@, arg.terms@));
        assert forall|j: int| 0 <= j < d.terms@.len() implies (#[trigger] d.terms@[j]).magnitude
            == arg.terms@[j].magnitude by {
            crate::magnitude::lemma_reduced_identity(arg.terms@[j].magnitude);
        }
    }
    let raw = match full_checked(arg, &d) {
        Some(m) => m,
        None => {
            proof {
                if mm_bar_feasible(arg.terms@, cancel_term) {
                    lemma_pairwise_like(arg.terms@, d.terms@, arg.terms@);
                }
            }
            return None;
        },
    };
    let ghost dseq = d.terms@;
    let ghost rawseq = raw.terms@;
    proof {
        assert(dual_image(dseq, arg.terms@));
        assert(product_image(rawseq, arg.terms@, dseq));
    }
    if cancel_term {
        let s = match raw.try_simplify() {
            Some(m) => m,
            None => {
                proof {
                    if mm_bar_feasible(arg.terms@, cancel_term) {
                        assert(crate::multivector::simplify_fits(rawseq));
                    }
                }
                return None;
            },
        };
        Some(s)
    } else {
        Some(raw)
    }
}

/// The full product of two composite quantities, checking every magnitude
/// bound as it goes: nothing when some pairwise product would leave the
/// exact-arithmetic range.
pub fn full_checked(left: &MultiVector, right: &MultiVector) -> (r: Option<MultiVector>)
    requires
        left.swf(),
        right.swf(),
    ensures
        r matches Some(m) ==> m.terms@.len() == left.terms@.len() * right.terms@.len() && (forall|
            i: int,
            j: int,
        |
            0 <= i < left.terms@.len() && 0 <= j < right.terms@.len() ==> term_prod_like(
                #[trigger] m.terms@[i * right.terms@.len() + j],
                left.terms@[i],
                right.terms@[j],
            )) && m.swf(),
        pairwise_mul_fits(left.terms@, right.terms@) ==> r is Some,
{
    let n = right.terms.len();
    let mut out: Vec<Term> = Vec::new();
    let mut i: usize = 0;
    while i < left.terms.len()
        invariant
            i <= left.terms@.len(),
            n == right.terms@.len(),
            left.swf(),
            right.swf(),
            out@.len() == i * right.terms@.len(),
            forall|a: int, b: int|
                0 <= a < i && 0 <= b < right.terms@.len() ==> term_prod_like(
                    #[trigger] out@[a * right.terms@.len() + b],
                    left.terms@[a],
                    right.terms@[b],
                ),
            forall|k: int|
                0 <= k < out@.len() ==> (#[trigger] out@[k]).magnitude.wf() && xi_wf(out@[k].xi),
        decreases left.terms@.len() - i,
    {
        let mut j: usize = 0;
        while j < n
            invariant
                i < left.terms@.len(),
                j <= right.terms@.len(),
                n == right.terms@.len(),
                left.swf(),
                right.swf(),
                out@.len() == i * right.terms@.len() + j,
                forall|a: int, b: int|
                    0 <= a < i && 0 <= b < right.terms@.len() ==> term_prod_like(
                        #[trigger] out@[a * right.terms@.len() + b],
                        left.terms@[a],
                        right.terms@[b],
                    ),
                forall|b: int|
                    0 <= b < j ==> term_prod_like(
                        #[trigger] out@[i * right.terms@.len() + b],
                        left.terms@[i as int],
                        right.terms@[b],
                    ),
                forall|k: int|
                    0 <= k < out@.len() ==> (#[trigger] out@[k]).magnitude.wf() && xi_wf(
                        out@[k].xi,
                    ),
            decreases n - j,
        {
            if !left.terms[i].mul_fits_check(&right.terms[j]) {
                return None;
            }
            proof {
                assert(mul_fits(left.terms@[i as int].magnitude, right.terms@[j as int].magnitude));
            }
            let t = left.terms[i].form_product_with(&right.terms[j]);
            out.push(t);
            proof {
                assert(forall|a: int, b: int|
                    0 <= a < i && 0 <= b < right.terms@.len() ==> 0 <= #[trigger] (a
                        * right.terms@.len() + b) && a * right.terms@.len() + b < i
                        * right.terms@.len()) by (nonlinear_arith);
            }
            j = j + 1;
        }
        proof {
            assert((i + 1) * right.terms@.len() == i * right.terms@.len()
                + right.terms@.len()) by (nonlinear_arith);
            assert(forall|a: int, b: int|
                0 <= a < i + 1 && 0 <= b < right.terms@.len() ==> term_prod_like(
                    #[trigger] out@[a * right.terms@.len() + b],
                    left.terms@[a],
                    right.terms@[b],
                )) by {
                assert(forall|a: int, b: int|
                    0 <= a < i + 1 && 0 <= b < right.terms@.len() ==> 0 <= #[trigger] (a
                        * right.terms@.len() + b) && (a < i ==> a * right.terms@.len() + b < i
                        * right.terms@.len()) && (a == i ==> a * right.terms@.len() + b == i
                        * right.terms@.len() + b)) by (nonlinear_arith);
            }
        }
        i = i + 1;
    }
    proof {
        assert(out@.len() == left.terms@.len() * right.terms@.len()) by (nonlinear_arith)
            requires
                out@.len() == i * right.terms@.len(),
                i == left.terms@.len(),
        ;
    }
    Some(MultiVector { terms: out })
}

/// Every term divided by one magnitude, checking the bounds: nothing when
/// some quotient would leave the exact-arithmetic range.
fn scale_down_checked(m: &MultiVector, d: &Magnitude) -> (r: Option<MultiVector>)
    requires
        m.swf(),
        d.wf(),
        d.numerator > 0,
    ensures
        r matches Some(q) ==> q.terms@.len() == m.terms@.len() && (forall|i: int|
            0 <= i < m.terms@.len() ==> (#[trigger] q.terms@[i]).alpha == m.terms@[i].alpha
                && q.terms@[i].magnitude.is_reduced_frac(
                (m.terms@[i].magnitude.numerator * d.denominator) as nat,
                (m.terms@[i].magnitude.denominator * d.numerator) as nat,
            ) && xi_str(q.terms@[i].xi) == xi_str(m.terms@[i].xi)) && q.swf(),
        (forall|k: int|
            0 <= k < m.terms@.len() ==> div_fits((#[trigger] m.terms@[k]).magnitude, *d)) ==> r
            is Some,
{
    let mut out: Vec<Term> = Vec::new();
    let mut k: usize = 0;
    while k < m.terms.len()
        invariant
            k <= m.terms@.len(),
            out@.len() == k,
            m.swf(),
            d.wf() && d.numerator > 0,
            forall|i: int|
                0 <= i < k ==> (#[trigger] out@[i]).alpha == m.terms@[i].alpha
                    && out@[i].magnitude.is_reduced_frac(
                    (m.terms@[i].magnitude.numerator * d.denominator) as nat,
                    (m.terms@[i].magnitude.denominator * d.numerator) as nat,
                ) && xi_str(out@[i].xi) == xi_str(m.terms@[i].xi),
            forall|i: int|
                0 <= i < out@.len() ==> (#[trigger] out@[i]).magnitude.wf() && xi_wf(out@[i].xi),
        decreases m.terms@.len() - k,
    {
        if !m.terms[k].magnitude().div_fits_check(d) {
            proof {
                assert(!div_fits(m.terms@[k as int].magnitude, *d));
            }
            return None;
        }
        out.push(m.terms[k].divided_by_mag(d));
        k = k + 1;
    }
    Some(MultiVector { terms: out })
}

} // verus!
