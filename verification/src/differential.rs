//! The partial-derivative operator: a set of directed units applied as
//! left or right multipliers, tagging each resulting term with the form
//! that was differentiated against.

use vstd::prelude::*;

use crate::alpha::spec_inverse;
use crate::alpha::Alpha;
use crate::multivector::MultiVector;
use crate::product::ar_product;
use crate::product::spec_full_product;
use crate::term::Term;
use crate::xi::rendered;
use crate::xi::sort_forms;
use crate::xi::xi_wf;

verus! {

/// What differentiating one term against one stored unit yields: the unit
/// producted onto the term's unit from the given side, the magnitude kept,
/// the unit's form recorded among the sorted partial tags, and the
/// coefficient otherwise unchanged: same name, same children.
pub open spec fn applied_term(r: Term, t: Term, w: Alpha, from_left: bool) -> bool {
    &&& r.alpha == (if from_left {
        spec_full_product(w, t.alpha)
    } else {
        spec_full_product(t.alpha, w)
    })
    &&& r.magnitude == t.magnitude
    &&& r.xi.partials@ == sort_forms(t.xi.partials@.push(w.form))
    &&& (r.xi.value is Some <==> t.xi.value is Some)
    &&& (t.xi.value matches Some(v) ==> r.xi.value matches Some(rv) && rv@ == v@)
    &&& rendered(r.xi.child_num@) == rendered(t.xi.child_num@)
    &&& rendered(r.xi.child_den@) == rendered(t.xi.child_den@)
}

/// A differential operator: the units to differentiate against, stored in
/// their inverted form so that application from either side is one full
/// product.
pub struct ArDifferential {
    pub wrt: Vec<Alpha>,
}

impl ArDifferential {
    /// Construct a differential operator over the given units; each is
    /// stored pre-inverted.
    pub fn new(wrt: &Vec<Alpha>) -> (r: ArDifferential)
        ensures
            r.wrt@.len() == wrt@.len(),
            forall|i: int|
                0 <= i < wrt@.len() ==> #[trigger] r.wrt@[i] == spec_inverse(wrt@[i]),
    {
        let mut inv: Vec<Alpha> = Vec::new();
        let mut k: usize = 0;
        while k < wrt.len()
            invariant
                k <= wrt@.len(),
                inv@.len() == k,
                forall|i: int| 0 <= i < k ==> #[trigger] inv@[i] == spec_inverse(wrt@[i]),
            decreases wrt@.len() - k,
        {
            inv.push(wrt[k].inverse());
            k = k + 1;
        }
        ArDifferential { wrt: inv }
    }

    /// Apply the operator from the left: one term per stored unit and
    /// input term, with the unit's form recorded as an applied partial and
    /// the coefficient otherwise unchanged.
    pub fn apply_left(&self, mvec: &MultiVector) -> (r: MultiVector)
        ensures
            r.terms@.len() == mvec.terms@.len() * self.wrt@.len(),
            forall|i: int, j: int|
                0 <= i < mvec.terms@.len() && 0 <= j < self.wrt@.len() ==> applied_term(
                    #[trigger] r.terms@[i * self.wrt@.len() + j],
                    mvec.terms@[i],
                    self.wrt@[j],
                    true,
                ),
            mvec.swf() ==> r.swf(),
    {
        self.apply(mvec, true)
    }

    /// Apply the operator from the right: one term per stored unit and
    /// input term, with the unit's form recorded as an applied partial and
    /// the coefficient otherwise unchanged.
    pub fn apply_right(&self, mvec: &MultiVector) -> (r: MultiVector)
        ensures
            r.terms@.len() == mvec.terms@.len() * self.wrt@.len(),
            forall|i: int, j: int|
                0 <= i < mvec.terms@.len() && 0 <= j < self.wrt@.len() ==> applied_term(
                    #[trigger] r.terms@[i * self.wrt@.len() + j],
                    mvec.terms@[i],
                    self.wrt@[j],
                    false,
                ),
            mvec.swf() ==> r.swf(),
    {
        self.apply(mvec, false)
    }

    /// Shared application: differentiate each term against each stored
    /// unit, multiplying from the left or the right.
    fn apply(&self, mvec: &MultiVector, from_left: bool) -> (r: MultiVector)
        ensures
            r.terms@.len() == mvec.terms@.len() * self.wrt@.len(),
            forall|i: int, j: int|
                0 <= i < mvec.terms@.len() && 0 <= j < self.wrt@.len() ==> applied_term(
                    #[trigger] r.terms@[i * self.wrt@.len() + j],
                    mvec.terms@[i],
                    self.wrt@[j],
                    from_left,
                ),
            mvec.swf() ==> r.swf(),
    {
        let n = self.wrt.len();
        let mut out: Vec<Term> = Vec::new();
        let mut i: usize = 0;
        while i < mvec.terms.len()
            invariant
                i <= mvec.terms@.len(),
                n == self.wrt@.len(),
                out@.len() == i * self.wrt@.len(),
                forall|a: int, b: int|
                    0 <= a < i && 0 <= b < self.wrt@.len() ==> applied_term(
                        #[trigger] out@[a * self.wrt@.len() + b],
                        mvec.terms@[a],
                        self.wrt@[b],
                        from_left,
                    ),
                mvec.swf() ==> forall|k: int|
                    0 <= k < out@.len() ==> (#[trigger] out@[k]).magnitude.wf() && xi_wf(
                        out@[k].xi,
                    ),
            decreases mvec.terms@.len() - i,
        {
            let mut j: usize = 0;
            while j < n
                invariant
                    i < mvec.terms@.len(),
                    j <= self.wrt@.len(),
                    n == self.wrt@.len(),
                    out@.len() == i * self.wrt@.len() + j,
                    forall|a: int, b: int|
                        0 <= a < i && 0 <= b < self.wrt@.len() ==> applied_term(
                            #[trigger] out@[a * self.wrt@.len() + b],
                            mvec.terms@[a],
                            self.wrt@[b],
                            from_left,
                        ),
                    forall|b: int|
                        0 <= b < j ==> applied_term(
                            #[trigger] out@[i * self.wrt@.len() + b],
                            mvec.terms@[i as int],
                            self.wrt@[b],
                            from_left,
                        ),
                    mvec.swf() ==> forall|k: int|
                        0 <= k < out@.len() ==> (#[trigger] out@[k]).magnitude.wf() && xi_wf(
                            out@[k].xi,
                        ),
                decreases n - j,
            {
                let w = self.wrt[j];
                let t = &mvec.terms[i];
                let a = if from_left {
                    ar_product(&w, &t.alpha())
                } else {
                    ar_product(&t.alpha(), &w)
                };
                let mut nt = t.duplicate();
                nt.add_partial(&w);
                nt.set_alpha(a);
                out.push(nt);
                proof {
                    assert(forall|a2: int, b: int|
                        0 <= a2 < i && 0 <= b < self.wrt@.len() ==> 0 <= #[trigger] (a2
                            * self.wrt@.len() + b) && a2 * self.wrt@.len() + b < i
                            * self.wrt@.len()) by (nonlinear_arith);
                }
                j = j + 1;
            }
            proof {
                assert((i + 1) * self.wrt@.len() == i * self.wrt@.len() + self.wrt@.len())
                    by (nonlinear_arith);
                assert(forall|a2: int, b: int|
                    0 <= a2 < i + 1 && 0 <= b < self.wrt@.len() ==> 0 <= #[trigger] (a2
                        * self.wrt@.len() + b) && (a2 < i ==> a2 * self.wrt@.len() + b < i
                        * self.wrt@.len()) && (a2 == i ==> a2 * self.wrt@.len() + b == i
                        * self.wrt@.len() + b)) by (nonlinear_arith);
            }
            i = i + 1;
        }
        proof {
            assert(out@.len() == mvec.terms@.len() * self.wrt@.len()) by (nonlinear_arith)
                requires
                    out@.len() == i * self.wrt@.len(),
                    i == mvec.terms@.len(),
            ;
        }
        MultiVector { terms: out }
    }
}

} // verus!
