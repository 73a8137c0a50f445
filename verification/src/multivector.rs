//! Composite quantities: ordered collections of terms with simplification.

use vstd::prelude::*;

use crate::form::Form;
use crate::magnitude::Magnitude;
use crate::registry::registry_index;
use crate::sign::spec_negate;
use crate::sign::Sign;
use crate::term::same_key;
use crate::term::spec_try_add;
use crate::term::term_like;
use crate::term::try_add_fits;
use crate::term::Term;
use crate::xi::render_le;
use crate::xi::xi_str;
use crate::xi::xi_wf;

verus! {

/// A multivector is an ordered collection of terms standing for a sum over
/// possibly several grades. Order carries no meaning beyond deterministic
/// display; `simplify` re-establishes the canonical order.
pub struct MultiVector {
    pub terms: Vec<Term>,
}

/// Elementwise observable equality of term sequences.
pub open spec fn terms_like(a: Seq<Term>, b: Seq<Term>) -> bool {
    a.len() == b.len() && forall|i: int| 0 <= i < a.len() ==> term_like(#[trigger] a[i], b[i])
}

/// The terms of `s` that share a summation key with `t0`, in order.
pub open spec fn key_terms(s: Seq<Term>, t0: Term) -> Seq<Term>
    decreases s.len(),
{
    if s.len() == 0 {
        seq![]
    } else if same_key(s[0], t0) {
        seq![s[0]] + key_terms(s.drop_first(), t0)
    } else {
        key_terms(s.drop_first(), t0)
    }
}

/// The terms of `s` whose summation key differs from `t0`'s, in order.
pub open spec fn other_terms(s: Seq<Term>, t0: Term) -> Seq<Term>
    decreases s.len(),
{
    if s.len() == 0 {
        seq![]
    } else if same_key(s[0], t0) {
        other_terms(s.drop_first(), t0)
    } else {
        seq![s[0]] + other_terms(s.drop_first(), t0)
    }
}

/// Splitting a sequence by one key keeps every term.
pub proof fn lemma_split_lens(s: Seq<Term>, t0: Term)
    ensures
        key_terms(s, t0).len() + other_terms(s, t0).len() == s.len(),
        s.len() > 0 && same_key(s[0], t0) ==> key_terms(s, t0).len() >= 1,
    decreases s.len(),
{
    if s.len() > 0 {
        lemma_split_lens(s.drop_first(), t0);
    }
}

/// A group folded with `try_add`, left to right; a single term stands as
/// it is.
pub open spec fn fold_group(g: Seq<Term>) -> Term
    recommends
        g.len() >= 1,
    decreases g.len(),
{
    if g.len() <= 1 {
        g[0]
    } else {
        spec_try_add(fold_group(g.drop_last()), g.last())
    }
}

/// The folding of a group stays within the magnitude bounds.
pub open spec fn fold_fits(g: Seq<Term>) -> bool
    decreases g.len(),
{
    if g.len() <= 1 {
        true
    } else {
        fold_fits(g.drop_last()) && fold_group(g.drop_last()).magnitude.wf() && try_add_fits(
            fold_group(g.drop_last()),
            g.last(),
        )
    }
}

/// One combined term per distinct summation key, keyed and ordered by
/// first occurrence.
pub open spec fn collapsed(s: Seq<Term>) -> Seq<Term>
    decreases s.len(),
    via collapsed_decreases
{
    if s.len() == 0 {
        seq![]
    } else {
        seq![fold_group(key_terms(s, s[0]))] + collapsed(other_terms(s, s[0]))
    }
}

#[via_fn]
proof fn collapsed_decreases(s: Seq<Term>) {
    if s.len() > 0 {
        lemma_split_lens(s, s[0]);
    }
}

/// Whether the whole grouping and folding of `simplify` stays within the
/// magnitude bounds.
pub open spec fn simplify_fits(s: Seq<Term>) -> bool
    decreases s.len(),
    via simplify_fits_decreases
{
    if s.len() == 0 {
        true
    } else {
        fold_fits(key_terms(s, s[0])) && simplify_fits(other_terms(s, s[0]))
    }
}

#[via_fn]
proof fn simplify_fits_decreases(s: Seq<Term>) {
    if s.len() > 0 {
        lemma_split_lens(s, s[0]);
    }
}

/// The terms with non-zero magnitude, in order.
pub open spec fn drop_zero(s: Seq<Term>) -> Seq<Term>
    decreases s.len(),
{
    if s.len() == 0 {
        seq![]
    } else if s.last().magnitude.numerator == 0 {
        drop_zero(s.drop_last())
    } else {
        drop_zero(s.drop_last()) + seq![s.last()]
    }
}

/// The canonical term order: by registry position of the form, then the
/// coefficient in the canonical rendering order, then sign, then magnitude
/// by cross-multiplication.
pub open spec fn term_le(a: Term, b: Term) -> bool {
    let fa = registry_index(a.alpha.form);
    let fb = registry_index(b.alpha.form);
    if fa != fb {
        fa < fb
    } else if xi_str(a.xi) != xi_str(b.xi) {
        render_le(xi_str(a.xi), xi_str(b.xi))
    } else if a.alpha.sign != b.alpha.sign {
        a.alpha.sign == Sign::Pos
    } else {
        a.magnitude.numerator * b.magnitude.denominator <= b.magnitude.numerator
            * a.magnitude.denominator
    }
}

/// Insert a term into a sorted run, after any entries at or before it.
pub open spec fn insert_term(x: Term, t: Seq<Term>) -> Seq<Term>
    decreases t.len(),
{
    if t.len() == 0 {
        seq![x]
    } else if term_le(t[0], x) {
        seq![t[0]] + insert_term(x, t.drop_first())
    } else {
        seq![x] + t
    }
}

/// Sort terms by insertion, left to right.
pub open spec fn sort_terms(s: Seq<Term>) -> Seq<Term>
    decreases s.len(),
{
    if s.len() == 0 {
        seq![]
    } else {
        insert_term(s.last(), sort_terms(s.drop_last()))
    }
}

/// What `simplify` leaves: one term per distinct key carrying the group's
/// combined magnitude, zero terms dropped, the rest in canonical order.
pub open spec fn spec_simplify(s: Seq<Term>) -> Seq<Term> {
    sort_terms(drop_zero(collapsed(s)))
}

impl MultiVector {
    /// A structurally well-formed multivector: every term has a well-formed
    /// magnitude and a canonical coefficient tree.
    pub open spec fn swf(self) -> bool {
        forall|i: int|
            0 <= i < self.terms@.len() ==> (#[trigger] self.terms@[i]).magnitude.wf() && xi_wf(
                self.terms@[i].xi,
            )
    }

    /// Construct a new, empty multivector.
    pub fn new() -> (r: MultiVector)
        ensures
            r.terms@.len() == 0,
            r.swf(),
    {
        MultiVector { terms: Vec::new() }
    }

    /// Construct a multivector holding the given terms, in the given order.
    pub fn from_terms(terms: Vec<Term>) -> (r: MultiVector)
        ensures
            r.terms@ == terms@,
    {
        MultiVector { terms }
    }

    /// How many terms this multivector holds.
    pub fn len(&self) -> (r: usize)
        ensures
            r == self.terms@.len(),
    {
        self.terms.len()
    }

    /// Whether this multivector holds no terms.
    pub fn is_empty(&self) -> (r: bool)
        ensures
            r == (self.terms@.len() == 0),
    {
        self.terms.len() == 0
    }

    /// The term at one position.
    pub fn term_at(&self, k: usize) -> (r: &Term)
        requires
            k < self.terms@.len(),
        ensures
            *r == self.terms@[k as int],
    {
        &self.terms[k]
    }

    /// Push a new term onto this multivector.
    pub fn push(&mut self, term: Term)
        ensures
            final(self).terms@ == old(self).terms@.push(term),
    {
        self.terms.push(term);
    }

    /// Extend this multivector with the terms of another.
    pub fn extend(&mut self, other: MultiVector)
        ensures
            final(self).terms@ == old(self).terms@ + other.terms@,
    {
        let mut o = other.terms;
        self.terms.append(&mut o);
    }

    /// A copy of this multivector, term for term.
    pub fn duplicate(&self) -> (r: MultiVector)
        ensures
            terms_like(r.terms@, self.terms@),
            self.swf() ==> r.swf(),
            forall|i: int|
                0 <= i < self.terms@.len() ==> (xi_wf(#[trigger] self.terms@[i].xi) ==> xi_wf(
                    r.terms@[i].xi,
                )),
    {
        let mut out: Vec<Term> = Vec::new();
        let mut k: usize = 0;
        while k < self.terms.len()
            invariant
                k <= self.terms@.len(),
                out@.len() == k,
                forall|i: int|
                    0 <= i < k ==> term_like(#[trigger] out@[i], self.terms@[i]) && (xi_wf(
                        self.terms@[i].xi,
                    ) ==> xi_wf(out@[i].xi)),
            decreases self.terms@.len() - k,
        {
            out.push(self.terms[k].duplicate());
            k = k + 1;
        }
        MultiVector { terms: out }
    }

    /// Extract a copy of the terms with the given form, in their stored
    /// order; nothing when no term has the form.
    pub fn get(&self, c: &Form) -> (r: Option<Vec<Term>>)
        ensures
            r is Some <==> (exists|i: int|
                0 <= i < self.terms@.len() && (#[trigger] self.terms@[i]).alpha.form == *c),
            r matches Some(v) ==> terms_like(v@, spec_with_form(self.terms@, *c)),
    {
        let mut out: Vec<Term> = Vec::new();
        let mut k: usize = 0;
        while k < self.terms.len()
            invariant
                k <= self.terms@.len(),
                terms_like(out@, spec_with_form(self.terms@.take(k as int), *c)),
                out@.len() > 0 ==> exists|i: int|
                    0 <= i < k && (#[trigger] self.terms@[i]).alpha.form == *c,
                (exists|i: int| 0 <= i < k && (#[trigger] self.terms@[i]).alpha.form == *c)
                    ==> out@.len() > 0,
            decreases self.terms@.len() - k,
        {
            proof {
                assert(self.terms@.take(k + 1).drop_last() =~= self.terms@.take(k as int));
            }
            let keep = match (self.terms[k].form(), *c) {
                (Form::Point, Form::Point) => true,
                _ => self.terms[k].form() == *c,
            };
            if keep {
                out.push(self.terms[k].duplicate());
            }
            k = k + 1;
        }
        proof {
            assert(self.terms@.take(self.terms@.len() as int) =~= self.terms@);
        }
        if out.len() > 0 {
            Some(out)
        } else {
            None
        }
    }
}

/// The terms of `s` whose grade is `g`, in order.
pub open spec fn spec_with_grade(s: Seq<Term>, g: int) -> Seq<Term>
    decreases s.len(),
{
    if s.len() == 0 {
        seq![]
    } else if crate::form::grade(s.last().alpha.form) == g {
        spec_with_grade(s.drop_last(), g) + seq![s.last()]
    } else {
        spec_with_grade(s.drop_last(), g)
    }
}

/// The terms of `s` whose form is `c`, in order.
pub open spec fn spec_with_form(s: Seq<Term>, c: Form) -> Seq<Term>
    decreases s.len(),
{
    if s.len() == 0 {
        seq![]
    } else if s.last().alpha.form == c {
        spec_with_form(s.drop_last(), c) + seq![s.last()]
    } else {
        spec_with_form(s.drop_last(), c)
    }
}

} // verus!

verus! {

/// Observationally equal terms order, key, fold and fit alike.
proof fn lemma_term_like_facts(a: Term, a2: Term, b: Term)
    requires
        term_like(a, a2),
    ensures
        same_key(a, b) == same_key(a2, b),
        same_key(b, a) == same_key(b, a2),
        try_add_fits(a, b) == try_add_fits(a2, b),
        try_add_fits(b, a) == try_add_fits(b, a2),
        term_like(spec_try_add(a, b), spec_try_add(a2, b)),
        term_like(spec_try_add(b, a), spec_try_add(b, a2)),
        term_le(a, b) == term_le(a2, b),
        term_le(b, a) == term_le(b, a2),
{
}

/// Inserting observationally equal terms into observationally equal sorted
/// runs gives observationally equal runs.
proof fn lemma_insert_like(x: Term, x2: Term, t: Seq<Term>, t2: Seq<Term>)
    requires
        term_like(x, x2),
        terms_like(t, t2),
    ensures
        terms_like(insert_term(x, t), insert_term(x2, t2)),
    decreases t.len(),
{
    if t.len() > 0 {
        lemma_term_like_facts(t[0], t2[0], x);
        lemma_term_like_facts(x, x2, t2[0]);
        assert(term_le(t[0], x) == term_le(t2[0], x2));
        assert(forall|i: int|
            0 <= i < t.len() - 1 ==> #[trigger] t.drop_first()[i] == t[i + 1] && t2.drop_first()[i]
                == t2[i + 1]);
        lemma_insert_like(x, x2, t.drop_first(), t2.drop_first());
        if term_le(t[0], x) {
            assert(terms_like(insert_term(x, t), insert_term(x2, t2))) by {
                assert(insert_term(x, t) == seq![t[0]] + insert_term(x, t.drop_first()));
                assert(insert_term(x2, t2) == seq![t2[0]] + insert_term(x2, t2.drop_first()));
            }
        }
    }
}

/// Sorting observationally equal runs gives observationally equal runs.
proof fn lemma_sort_like(s: Seq<Term>, s2: Seq<Term>)
    requires
        terms_like(s, s2),
    ensures
        terms_like(sort_terms(s), sort_terms(s2)),
    decreases s.len(),
{
    if s.len() > 0 {
        assert(forall|i: int|
            0 <= i < s.len() - 1 ==> #[trigger] s.drop_last()[i] == s[i] && s2.drop_last()[i]
                == s2[i]);
        lemma_sort_like(s.drop_last(), s2.drop_last());
        lemma_insert_like(s.last(), s2.last(), sort_terms(s.drop_last()), sort_terms(s2.drop_last()));
    }
}

/// Dropping the zero terms of observationally equal runs gives
/// observationally equal runs.
proof fn lemma_drop_zero_like(s: Seq<Term>, s2: Seq<Term>)
    requires
        terms_like(s, s2),
    ensures
        terms_like(drop_zero(s), drop_zero(s2)),
    decreases s.len(),
{
    if s.len() > 0 {
        assert(forall|i: int|
            0 <= i < s.len() - 1 ==> #[trigger] s.drop_last()[i] == s[i] && s2.drop_last()[i]
                == s2[i]);
        lemma_drop_zero_like(s.drop_last(), s2.drop_last());
    }
}

/// Every prefix of a foldable group is foldable.
proof fn lemma_fold_fits_prefix(g: Seq<Term>, m: int)
    requires
        fold_fits(g),
        0 <= m <= g.len(),
    ensures
        fold_fits(g.take(m)),
    decreases g.len() - m,
{
    if m < g.len() {
        lemma_fold_fits_prefix(g, m + 1);
        assert(g.take(m + 1).drop_last() =~= g.take(m));
    } else {
        assert(g.take(m) =~= g);
    }
}

/// A group whose folding breaks at some prefix does not fit as a whole.
proof fn lemma_fold_fits_prefix_contra(g: Seq<Term>, m: int)
    requires
        0 <= m <= g.len(),
        !fold_fits(g.take(m)),
    ensures
        !fold_fits(g),
{
    if fold_fits(g) {
        lemma_fold_fits_prefix(g, m);
    }
}

/// Whether `a` stands at or before `b` in the canonical term order.
fn term_le_exec(a: &Term, b: &Term) -> (r: bool)
    requires
        a.magnitude.wf(),
        b.magnitude.wf(),
    ensures
        r == term_le(*a, *b),
{
    let fa = crate::registry::registry_index_of(&a.form());
    let fb = crate::registry::registry_index_of(&b.form());
    if fa != fb {
        fa < fb
    } else {
        let sa = a.xi_str();
        let sb = b.xi_str();
        if !(sa == sb) {
            crate::xi::str_render_le(sa.as_str(), sb.as_str())
        } else if a.sign() != b.sign() {
            match a.sign() {
                Sign::Pos => true,
                Sign::Neg => false,
            }
        } else {
            !b.magnitude.lt(&a.magnitude)
        }
    }
}

/// Insert a term into a sorted run position-wise: scanning past entries at
/// or before it lands on the insertion-sort position.
proof fn lemma_insert_term_position(t: Seq<Term>, x: Term, p: int)
    requires
        0 <= p <= t.len(),
        forall|m: int| 0 <= m < p ==> term_le(#[trigger] t[m], x),
        p < t.len() ==> !term_le(t[p], x),
    ensures
        insert_term(x, t) == t.take(p) + seq![x] + t.skip(p),
    decreases p,
{
    if p == 0 {
        if t.len() > 0 {
            assert(insert_term(x, t) == seq![x] + t);
        }
        assert(insert_term(x, t) =~= t.take(0) + seq![x] + t.skip(0));
    } else {
        assert(term_le(t[0], x));
        assert(forall|m: int| 0 <= m < p - 1 ==> term_le(#[trigger] t.drop_first()[m], x)) by {
            assert(forall|m: int|
                0 <= m < p - 1 ==> #[trigger] t.drop_first()[m] == t[m + 1]);
        }
        lemma_insert_term_position(t.drop_first(), x, p - 1);
        assert(insert_term(x, t) =~= t.take(p) + seq![x] + t.skip(p)) by {
            assert(t.drop_first().take(p - 1) =~= t.take(p).drop_first());
            assert(t.drop_first().skip(p - 1) =~= t.skip(p));
        }
    }
}

/// Sort terms into the canonical order by insertion.
fn sort_terms_vec(v: Vec<Term>) -> (r: Vec<Term>)
    requires
        forall|i: int| 0 <= i < v@.len() ==> (#[trigger] v@[i]).magnitude.wf(),
    ensures
        r@ == sort_terms(v@),
{
    let ghost orig = v@;
    let mut rest = v;
    let total = rest.len();
    let mut out: Vec<Term> = Vec::new();
    proof {
        assert(orig.take(0) =~= Seq::<Term>::empty());
    }
    let mut k: usize = 0;
    while rest.len() > 0
        invariant
            total == orig.len(),
            k + rest@.len() == orig.len(),
            forall|m: int| 0 <= m < rest@.len() ==> #[trigger] rest@[m] == orig[k + m],
            out@ == sort_terms(orig.take(k as int)),
            forall|i: int| 0 <= i < orig.len() ==> (#[trigger] orig[i]).magnitude.wf(),
            forall|i: int| 0 <= i < out@.len() ==> (#[trigger] out@[i]).magnitude.wf(),
        decreases rest@.len(),
    {
        let ghost rest_pre = rest@;
        let x = rest.remove(0);
        proof {
            assert(x == orig[k as int]);
            assert(forall|m: int|
                0 <= m < rest@.len() ==> #[trigger] rest@[m] == rest_pre[m + 1]);
        }
        let mut p: usize = 0;
        while p < out.len() && term_le_exec(&out[p], &x)
            invariant
                p <= out@.len(),
                x.magnitude.wf(),
                forall|i: int| 0 <= i < out@.len() ==> (#[trigger] out@[i]).magnitude.wf(),
                forall|m: int| 0 <= m < p ==> term_le(#[trigger] out@[m], x),
            decreases out@.len() - p,
        {
            p = p + 1;
        }
        proof {
            lemma_insert_term_position(out@, x, p as int);
        }
        let ghost out_pre = out@;
        out.insert(p, x);
        proof {
            assert(out@ =~= out_pre.take(p as int) + seq![x] + out_pre.skip(p as int));
            assert(orig.take(k + 1).drop_last() =~= orig.take(k as int));
            assert(orig.take(k + 1).last() == orig[k as int]);
        }
        k = k + 1;
    }
    proof {
        assert(orig.take(orig.len() as int) =~= orig);
    }
    out
}

/// Keep only the terms with non-zero magnitude.
fn drop_zero_vec(v: Vec<Term>) -> (r: Vec<Term>)
    ensures
        r@ == drop_zero(v@),
{
    let ghost orig = v@;
    let mut rest = v;
    let total = rest.len();
    let mut out: Vec<Term> = Vec::new();
    proof {
        assert(orig.take(0) =~= Seq::<Term>::empty());
    }
    let mut k: usize = 0;
    while rest.len() > 0
        invariant
            total == orig.len(),
            k + rest@.len() == orig.len(),
            forall|m: int| 0 <= m < rest@.len() ==> #[trigger] rest@[m] == orig[k + m],
            out@ == drop_zero(orig.take(k as int)),
        decreases rest@.len(),
    {
        let ghost rest_pre = rest@;
        let x = rest.remove(0);
        proof {
            assert(x == orig[k as int]);
            assert(forall|m: int|
                0 <= m < rest@.len() ==> #[trigger] rest@[m] == rest_pre[m + 1]);
            assert(orig.take(k + 1).drop_last() =~= orig.take(k as int));
            assert(orig.take(k + 1).last() == orig[k as int]);
        }
        if !x.magnitude.is_zero() {
            out.push(x);
        }
        k = k + 1;
    }
    proof {
        assert(orig.take(orig.len() as int) =~= orig);
    }
    out
}

} // verus!

verus! {

/// Every term a key gathers carries that key.
proof fn lemma_key_terms_keys(s: Seq<Term>, t0: Term)
    ensures
        forall|i: int|
            0 <= i < key_terms(s, t0).len() ==> same_key(#[trigger] key_terms(s, t0)[i], t0),
    decreases s.len(),
{
    if s.len() > 0 {
        lemma_key_terms_keys(s.drop_first(), t0);
        if same_key(s[0], t0) {
            assert(key_terms(s, t0) == seq![s[0]] + key_terms(s.drop_first(), t0));
        }
    }
}

/// Folding a group of one key yields a term of that key, with a
/// well-formed magnitude when the folding fits.
proof fn lemma_fold_key(g: Seq<Term>, t0: Term)
    requires
        g.len() >= 1,
        forall|i: int| 0 <= i < g.len() ==> same_key(#[trigger] g[i], t0),
        forall|i: int| 0 <= i < g.len() ==> (#[trigger] g[i]).magnitude.wf(),
    ensures
        same_key(fold_group(g), t0),
        fold_fits(g) ==> fold_group(g).magnitude.wf(),
    decreases g.len(),
{
    if g.len() > 1 {
        assert(forall|i: int|
            0 <= i < g.len() - 1 ==> #[trigger] g.drop_last()[i] == g[i]);
        lemma_fold_key(g.drop_last(), t0);
        if fold_fits(g) {
            crate::term::lemma_spec_try_add_wf(fold_group(g.drop_last()), g.last());
        }
    }
}

/// Combine the terms of one summation key into one term per key, keyed by
/// first occurrence.
#[verifier::rlimit(60)]
fn collapse_terms(v: Vec<Term>) -> (r: Vec<Term>)
    requires
        forall|i: int|
            0 <= i < v@.len() ==> (#[trigger] v@[i]).magnitude.wf() && xi_wf(v@[i].xi),
        simplify_fits(v@),
    ensures
        terms_like(r@, collapsed(v@)),
        forall|i: int|
            0 <= i < r@.len() ==> (#[trigger] r@[i]).magnitude.wf() && xi_wf(r@[i].xi),
{
    let ghost orig = v@;
    let mut rest = v;
    let mut out: Vec<Term> = Vec::new();
    let ghost mut done: Seq<Term> = Seq::empty();
    proof {
        assert(done + collapsed(rest@) =~= collapsed(orig));
    }
    while rest.len() > 0
        invariant
            collapsed(orig) == done + collapsed(rest@),
            terms_like(out@, done),
            simplify_fits(rest@),
            forall|i: int|
                0 <= i < rest@.len() ==> (#[trigger] rest@[i]).magnitude.wf() && xi_wf(
                    rest@[i].xi,
                ),
            forall|i: int|
                0 <= i < out@.len() ==> (#[trigger] out@[i]).magnitude.wf() && xi_wf(out@[i].xi),
        decreases rest@.len(),
    {
        let ghost pre = rest@;
        let t0 = rest.remove(0);
        let ghost pre2 = rest@;
        proof {
            assert(t0 == pre[0]);
            assert(pre2 =~= pre.drop_first());
            assert(same_key(pre[0], t0));
            assert(key_terms(pre, t0) == seq![t0] + key_terms(pre2, t0));
            assert(other_terms(pre, t0) == other_terms(pre2, t0));
        }
        // Partition the remainder by the key of the front term.
        let key_form = t0.form();
        let key_str = t0.xi_str();
        let mut grp: Vec<Term> = Vec::new();
        let mut oth: Vec<Term> = Vec::new();
        grp.push(t0);
        let ghost mut j: int = 0;
        proof {
            assert(pre2.take(0) =~= Seq::<Term>::empty());
            assert(grp@ =~= seq![pre[0]] + key_terms(pre2.take(0), t0));
            assert(oth@ =~= other_terms(pre2.take(0), t0));
        }
        while rest.len() > 0
            invariant
                0 <= j <= pre2.len(),
                j + rest@.len() == pre2.len(),
                forall|m: int| 0 <= m < rest@.len() ==> #[trigger] rest@[m] == pre2[j + m],
                key_form == t0.alpha.form,
                key_str@ == xi_str(t0.xi),
                grp@ == seq![pre[0]] + key_terms(pre2.take(j), t0),
                oth@ == other_terms(pre2.take(j), t0),
                forall|i: int|
                    0 <= i < pre2.len() ==> (#[trigger] pre2[i]).magnitude.wf() && xi_wf(
                        pre2[i].xi,
                    ),
                pre[0].magnitude.wf() && xi_wf(pre[0].xi),
            decreases rest@.len(),
        {
            let ghost rest_pre = rest@;
            let x = rest.remove(0);
            proof {
                assert(x == pre2[j]);
                assert(forall|m: int|
                    0 <= m < rest@.len() ==> #[trigger] rest@[m] == rest_pre[m + 1]);
                lemma_key_split_last(pre2.take(j + 1), t0);
                assert(pre2.take(j + 1).drop_last() =~= pre2.take(j));
                assert(pre2.take(j + 1).last() == pre2[j]);
            }
            let fx = x.form();
            let sx = x.xi_str();
            if fx == key_form && sx == key_str {
                proof {
                    assert(same_key(x, t0));
                }
                grp.push(x);
            } else {
                proof {
                    assert(!same_key(x, t0));
                }
                oth.push(x);
            }
            proof {
                j = j + 1;
            }
        }
        proof {
            assert(pre2.take(pre2.len() as int) =~= pre2);
            assert(grp@ == key_terms(pre, t0));
            assert(oth@ == other_terms(pre, t0));
        }

        // Fold the group left to right; the keys all match, so every
        // addition succeeds.
        let ghost gspec = key_terms(pre, t0);
        proof {
            lemma_key_terms_keys(pre, t0);
            lemma_key_terms_wf(pre, t0);
            assert(fold_fits(gspec) && simplify_fits(other_terms(pre, t0)));
        }
        let mut grest = grp;
        let mut acc = grest.remove(0);
        let ghost mut m: int = 1;
        proof {
            assert(acc == gspec[0]);
            assert(gspec.take(1).len() == 1);
            assert(gspec.take(1)[0] == gspec[0]);
            assert(term_like(acc, fold_group(gspec.take(1))));
            assert(forall|i: int| 0 <= i < grest@.len() ==> #[trigger] grest@[i] == gspec[i + 1]);
        }
        while grest.len() > 0
            invariant
                1 <= m <= gspec.len(),
                m + grest@.len() == gspec.len(),
                fold_fits(gspec),
                forall|i: int| 0 <= i < gspec.len() ==> same_key(#[trigger] gspec[i], t0),
                forall|i: int|
                    0 <= i < gspec.len() ==> (#[trigger] gspec[i]).magnitude.wf() && xi_wf(
                        gspec[i].xi,
                    ),
                term_like(acc, fold_group(gspec.take(m))),
                acc.magnitude.wf(),
                xi_wf(acc.xi),
                forall|i: int| 0 <= i < grest@.len() ==> #[trigger] grest@[i] == gspec[m + i],
            decreases grest@.len(),
        {
            let ghost grest_pre = grest@;
            let x = grest.remove(0);
            proof {
                assert(x == gspec[m]);
                assert(forall|i: int|
                    0 <= i < grest@.len() ==> #[trigger] grest@[i] == grest_pre[i + 1]);
                lemma_fold_fits_prefix(gspec, m + 1);
                assert(gspec.take(m + 1).drop_last() =~= gspec.take(m));
                assert(gspec.take(m + 1).last() == gspec[m]);
                assert(try_add_fits(fold_group(gspec.take(m)), gspec[m]));
                lemma_term_like_facts(acc, fold_group(gspec.take(m)), x);
                lemma_key_terms_keys(pre, t0);
                lemma_fold_key(gspec.take(m), t0);
                assert(same_key(fold_group(gspec.take(m)), t0));
                assert(same_key(acc, x)) by {
                    assert(same_key(gspec[m], t0));
                }
            }
            let s = acc.try_add(&x);
            let next_acc = match s {
                Some(t) => t,
                None => unreached(),
            };
            proof {
                lemma_try_add_like2(acc, x, fold_group(gspec.take(m)), gspec[m]);
                assert(term_like(next_acc, fold_group(gspec.take(m + 1))));
                m = m + 1;
            }
            acc = next_acc;
        }
        proof {
            assert(gspec.take(gspec.len() as int) =~= gspec);
            assert(term_like(acc, fold_group(gspec)));
        }
        out.push(acc);
        proof {
            done = done.push(fold_group(gspec));
            assert(collapsed(pre) == seq![fold_group(gspec)] + collapsed(other_terms(pre, t0)));
        }
        rest = oth;
        proof {
            lemma_split_lens(pre, t0);
            assert(done + collapsed(rest@) =~= collapsed(orig));
        }
    }
    proof {
        assert(collapsed(rest@) =~= Seq::<Term>::empty());
        assert(done =~= collapsed(orig));
    }
    out
}

/// Every term a key gathers has a well-formed magnitude and a canonical
/// tree when the source terms do.
proof fn lemma_key_terms_wf(s: Seq<Term>, t0: Term)
    requires
        forall|i: int|
            0 <= i < s.len() ==> (#[trigger] s[i]).magnitude.wf() && xi_wf(s[i].xi),
    ensures
        forall|i: int|
            0 <= i < key_terms(s, t0).len() ==> (#[trigger] key_terms(s, t0)[i]).magnitude.wf()
                && xi_wf(key_terms(s, t0)[i].xi),
        forall|i: int|
            0 <= i < other_terms(s, t0).len() ==> (#[trigger] other_terms(s, t0)[i]).magnitude.wf()
                && xi_wf(other_terms(s, t0)[i].xi),
    decreases s.len(),
{
    if s.len() > 0 {
        assert(forall|i: int|
            0 <= i < s.len() - 1 ==> #[trigger] s.drop_first()[i] == s[i + 1]);
        lemma_key_terms_wf(s.drop_first(), t0);
        if same_key(s[0], t0) {
            assert(key_terms(s, t0) == seq![s[0]] + key_terms(s.drop_first(), t0));
        } else {
            assert(other_terms(s, t0) == seq![s[0]] + other_terms(s.drop_first(), t0));
        }
    }
}

/// Splitting by key treats the last element on its own.
proof fn lemma_key_split_last(s: Seq<Term>, t0: Term)
    requires
        s.len() >= 1,
    ensures
        same_key(s.last(), t0) ==> key_terms(s, t0) == key_terms(s.drop_last(), t0).push(s.last())
            && other_terms(s, t0) == other_terms(s.drop_last(), t0),
        !same_key(s.last(), t0) ==> other_terms(s, t0) == other_terms(s.drop_last(), t0).push(
            s.last(),
        ) && key_terms(s, t0) == key_terms(s.drop_last(), t0),
    decreases s.len(),
{
    if s.len() == 1 {
        assert(s.drop_first() =~= Seq::<Term>::empty());
        assert(s.drop_last() =~= Seq::<Term>::empty());
        if same_key(s.last(), t0) {
            assert(key_terms(s, t0) =~= key_terms(s.drop_last(), t0).push(s.last()));
            assert(other_terms(s, t0) =~= other_terms(s.drop_last(), t0));
        } else {
            assert(other_terms(s, t0) =~= other_terms(s.drop_last(), t0).push(s.last()));
            assert(key_terms(s, t0) =~= key_terms(s.drop_last(), t0));
        }
    } else {
        lemma_key_split_last(s.drop_first(), t0);
        assert(s.drop_first().drop_last() =~= s.drop_last().drop_first());
        assert(s.drop_first().last() == s.last());
        assert(s.drop_last()[0] == s[0]);
        if same_key(s.last(), t0) {
            assert(key_terms(s, t0) =~= key_terms(s.drop_last(), t0).push(s.last()));
            assert(other_terms(s, t0) =~= other_terms(s.drop_last(), t0));
        } else {
            assert(other_terms(s, t0) =~= other_terms(s.drop_last(), t0).push(s.last()));
            assert(key_terms(s, t0) =~= key_terms(s.drop_last(), t0));
        }
    }
}

/// Fitting is indifferent to observational equality on both sides.
proof fn lemma_try_add_fits_sym(a: Term, b: Term, a2: Term, b2: Term)
    requires
        term_like(a, a2),
        term_like(b, b2),
        try_add_fits(a2, b2),
    ensures
        try_add_fits(a, b),
{
    lemma_term_like_facts(a, a2, b);
    lemma_term_like_facts(b, b2, a2);
}

/// The summed term is indifferent to observational equality on both sides.
proof fn lemma_try_add_like2(a: Term, b: Term, a2: Term, b2: Term)
    requires
        term_like(a, a2),
        term_like(b, b2),
    ensures
        term_like(spec_try_add(a, b), spec_try_add(a2, b2)),
{
    lemma_term_like_facts(a, a2, b);
    lemma_term_like_facts(b, b2, a2);
}

impl MultiVector {
    /// Combine together term weights where they share a summation key:
    /// group the terms by key, fold each group with term addition, drop
    /// the terms whose magnitude cancelled to zero, and re-establish the
    /// canonical order.
    pub fn simplify(&mut self)
        requires
            old(self).swf(),
            simplify_fits(old(self).terms@),
        ensures
            terms_like(final(self).terms@, spec_simplify(old(self).terms@)),
            final(self).swf(),
    {
        let mut taken: Vec<Term> = Vec::new();
        core::mem::swap(&mut taken, &mut self.terms);
        let c = collapse_terms(taken);
        proof {
            lemma_drop_zero_like(c@, collapsed(old(self).terms@));
        }
        let ghost cseq = c@;
        let z = drop_zero_vec(c);
        proof {
            lemma_drop_zero_keeps(cseq);
        }
        let ghost zseq = z@;
        let s = sort_terms_vec(z);
        proof {
            lemma_sort_like(zseq, drop_zero(collapsed(old(self).terms@)));
            lemma_sort_keeps(zseq);
        }
        self.terms = s;
    }
}

/// Dropping zero terms keeps well-formed magnitudes and canonical trees.
proof fn lemma_drop_zero_keeps(s: Seq<Term>)
    requires
        forall|i: int|
            0 <= i < s.len() ==> (#[trigger] s[i]).magnitude.wf() && xi_wf(s[i].xi),
    ensures
        forall|i: int|
            0 <= i < drop_zero(s).len() ==> (#[trigger] drop_zero(s)[i]).magnitude.wf() && xi_wf(
                drop_zero(s)[i].xi,
            ),
    decreases s.len(),
{
    if s.len() > 0 {
        assert(forall|i: int| 0 <= i < s.len() - 1 ==> #[trigger] s.drop_last()[i] == s[i]);
        lemma_drop_zero_keeps(s.drop_last());
    }
}

/// Inserting keeps well-formed magnitudes and canonical trees.
proof fn lemma_insert_keeps(x: Term, t: Seq<Term>)
    requires
        x.magnitude.wf() && xi_wf(x.xi),
        forall|i: int|
            0 <= i < t.len() ==> (#[trigger] t[i]).magnitude.wf() && xi_wf(t[i].xi),
    ensures
        forall|i: int|
            0 <= i < insert_term(x, t).len() ==> (#[trigger] insert_term(x, t)[i]).magnitude.wf()
                && xi_wf(insert_term(x, t)[i].xi),
    decreases t.len(),
{
    if t.len() > 0 && term_le(t[0], x) {
        assert(forall|i: int|
            0 <= i < t.len() - 1 ==> #[trigger] t.drop_first()[i] == t[i + 1]);
        lemma_insert_keeps(x, t.drop_first());
        assert(forall|i: int|
            0 <= i < insert_term(x, t).len() ==> (#[trigger] insert_term(x, t)[i]).magnitude.wf()
                && xi_wf(insert_term(x, t)[i].xi)) by {
            assert(insert_term(x, t) == seq![t[0]] + insert_term(x, t.drop_first()));
        }
    }
}

/// Sorting keeps well-formed magnitudes and canonical trees.
proof fn lemma_sort_keeps(s: Seq<Term>)
    requires
        forall|i: int|
            0 <= i < s.len() ==> (#[trigger] s[i]).magnitude.wf() && xi_wf(s[i].xi),
    ensures
        forall|i: int|
            0 <= i < sort_terms(s).len() ==> (#[trigger] sort_terms(s)[i]).magnitude.wf() && xi_wf(
                sort_terms(s)[i].xi,
            ),
    decreases s.len(),
{
    if s.len() > 0 {
        assert(forall|i: int| 0 <= i < s.len() - 1 ==> #[trigger] s.drop_last()[i] == s[i]);
        lemma_sort_keeps(s.drop_last());
        lemma_insert_keeps(s.last(), sort_terms(s.drop_last()));
    }
}

} // verus!

verus! {

/// Term cancellation: a composite quantity holding exactly a term and its
/// exact negation (the same summation key, the same magnitude, opposite
/// unit signs) simplifies to no terms at all: the pair's magnitudes cancel
/// to zero and the zero term is dropped.
pub proof fn lemma_pair_cancellation(t: Term, n: Term)
    requires
        same_key(t, n),
        n.magnitude == t.magnitude,
        n.alpha.sign == spec_negate(t.alpha.sign),
        t.magnitude.wf(),
    ensures
        spec_simplify(seq![t, n]) == Seq::<Term>::empty(),
{
    reveal_with_fuel(key_terms, 3);
    reveal_with_fuel(other_terms, 3);
    reveal_with_fuel(collapsed, 2);
    reveal_with_fuel(fold_group, 2);
    reveal_with_fuel(drop_zero, 2);
    reveal_with_fuel(sort_terms, 2);
    let s = seq![t, n];
    assert(s.drop_first() =~= seq![n]);
    assert(seq![n].drop_first() =~= Seq::<Term>::empty());
    assert(same_key(s[0], t) && same_key(seq![n][0], t));
    assert(key_terms(seq![n], t) =~= seq![n]);
    assert(other_terms(seq![n], t) =~= Seq::<Term>::empty());
    assert(key_terms(s, t) =~= seq![t, n]);
    assert(other_terms(s, t) =~= Seq::<Term>::empty());
    assert(collapsed(s) =~= seq![fold_group(seq![t, n])]);
    assert(seq![t, n].drop_last() =~= seq![t]);
    assert(fold_group(seq![t, n]) == spec_try_add(t, n));
    let summed = spec_try_add(t, n);
    assert(summed.magnitude.numerator == 0) by {
        assert(t.alpha.sign != n.alpha.sign);
        let (x, y) = if t.alpha.sign == Sign::Pos {
            (t, n)
        } else {
            (n, t)
        };
        assert(x.magnitude == y.magnitude);
        assert(!(y.magnitude.numerator * x.magnitude.denominator < x.magnitude.numerator
            * y.magnitude.denominator));
        assert(y.magnitude.numerator * x.magnitude.denominator - x.magnitude.numerator
            * y.magnitude.denominator == 0);
        assert(crate::magnitude::reduced_num(
            0,
            (y.magnitude.denominator * x.magnitude.denominator) as nat,
        ) == 0);
    }
    assert(drop_zero(collapsed(s)) =~= Seq::<Term>::empty()) by {
        assert(collapsed(s).drop_last() =~= Seq::<Term>::empty());
        assert(collapsed(s).last() == summed);
    }
    assert(sort_terms(Seq::<Term>::empty()) =~= Seq::<Term>::empty());
}

} // verus!

verus! {

/// Combine the terms of one summation key into one term per key, checking
/// every magnitude bound as it goes: nothing when some fold would leave
/// the exact-arithmetic range.
#[verifier::rlimit(60)]
fn collapse_checked(v: Vec<Term>) -> (r: Option<Vec<Term>>)
    requires
        forall|i: int|
            0 <= i < v@.len() ==> (#[trigger] v@[i]).magnitude.wf() && xi_wf(v@[i].xi),
    ensures
        r matches Some(c) ==> terms_like(c@, collapsed(v@)) && (forall|i: int|
            0 <= i < c@.len() ==> (#[trigger] c@[i]).magnitude.wf() && xi_wf(c@[i].xi)),
        simplify_fits(v@) ==> r is Some,
{
    let ghost orig = v@;
    let mut rest = v;
    let mut out: Vec<Term> = Vec::new();
    let ghost mut done: Seq<Term> = Seq::empty();
    proof {
        assert(done + collapsed(rest@) =~= collapsed(orig));
    }
    while rest.len() > 0
        invariant
            orig == v@,
            collapsed(orig) == done + collapsed(rest@),
            terms_like(out@, done),
            simplify_fits(orig) ==> simplify_fits(rest@),
            forall|i: int|
                0 <= i < rest@.len() ==> (#[trigger] rest@[i]).magnitude.wf() && xi_wf(
                    rest@[i].xi,
                ),
            forall|i: int|
                0 <= i < out@.len() ==> (#[trigger] out@[i]).magnitude.wf() && xi_wf(out@[i].xi),
        decreases rest@.len(),
    {
        let ghost pre = rest@;
        let t0 = rest.remove(0);
        let ghost pre2 = rest@;
        proof {
            assert(t0 == pre[0]);
            assert(pre2 =~= pre.drop_first());
            assert(same_key(pre[0], t0));
            assert(key_terms(pre, t0) == seq![t0] + key_terms(pre2, t0));
            assert(other_terms(pre, t0) == other_terms(pre2, t0));
        }
        // Partition the remainder by the key of the front term.
        let key_form = t0.form();
        let key_str = t0.xi_str();
        let mut grp: Vec<Term> = Vec::new();
        let mut oth: Vec<Term> = Vec::new();
        grp.push(t0);
        let ghost mut j: int = 0;
        proof {
            assert(pre2.take(0) =~= Seq::<Term>::empty());
            assert(grp@ =~= seq![pre[0]] + key_terms(pre2.take(0), t0));
            assert(oth@ =~= other_terms(pre2.take(0), t0));
        }
        while rest.len() > 0
            invariant
                0 <= j <= pre2.len(),
                j + rest@.len() == pre2.len(),
                forall|m: int| 0 <= m < rest@.len() ==> #[trigger] rest@[m] == pre2[j + m],
                key_form == t0.alpha.form,
                key_str@ == xi_str(t0.xi),
                grp@ == seq![pre[0]] + key_terms(pre2.take(j), t0),
                oth@ == other_terms(pre2.take(j), t0),
                forall|i: int|
                    0 <= i < pre2.len() ==> (#[trigger] pre2[i]).magnitude.wf() && xi_wf(
                        pre2[i].xi,
                    ),
                pre[0].magnitude.wf() && xi_wf(pre[0].xi),
            decreases rest@.len(),
        {
            let ghost rest_pre = rest@;
            let x = rest.remove(0);
            proof {
                assert(x == pre2[j]);
                assert(forall|m: int|
                    0 <= m < rest@.len() ==> #[trigger] rest@[m] == rest_pre[m + 1]);
                lemma_key_split_last(pre2.take(j + 1), t0);
                assert(pre2.take(j + 1).drop_last() =~= pre2.take(j));
                assert(pre2.take(j + 1).last() == pre2[j]);
            }
            let fx = x.form();
            let sx = x.xi_str();
            if fx == key_form && sx == key_str {
                proof {
                    assert(same_key(x, t0));
                }
                grp.push(x);
            } else {
                proof {
                    assert(!same_key(x, t0));
                }
                oth.push(x);
            }
            proof {
                j = j + 1;
            }
        }
        proof {
            assert(pre2.take(pre2.len() as int) =~= pre2);
            assert(grp@ == key_terms(pre, t0));
            assert(oth@ == other_terms(pre, t0));
        }

        // Fold the group left to right, giving up on the first sum whose
        // magnitudes would leave the exact range.
        let ghost gspec = key_terms(pre, t0);
        proof {
            lemma_key_terms_keys(pre, t0);
            lemma_key_terms_wf(pre, t0);
        }
        let mut grest = grp;
        let mut acc = grest.remove(0);
        let ghost mut m: int = 1;
        proof {
            assert(acc == gspec[0]);
            assert(gspec.take(1).len() == 1);
            assert(gspec.take(1)[0] == gspec[0]);
            assert(term_like(acc, fold_group(gspec.take(1))));
            assert(forall|i: int| 0 <= i < grest@.len() ==> #[trigger] grest@[i] == gspec[i + 1]);
        }
        while grest.len() > 0
            invariant
                orig == v@,
                1 <= m <= gspec.len(),
                m + grest@.len() == gspec.len(),
                pre.len() > 0,
                t0 == pre[0],
                gspec == key_terms(pre, t0),
                simplify_fits(orig) ==> simplify_fits(pre),
                forall|i: int| 0 <= i < gspec.len() ==> same_key(#[trigger] gspec[i], t0),
                forall|i: int|
                    0 <= i < gspec.len() ==> (#[trigger] gspec[i]).magnitude.wf() && xi_wf(
                        gspec[i].xi,
                    ),
                term_like(acc, fold_group(gspec.take(m))),
                acc.magnitude.wf(),
                xi_wf(acc.xi),
                forall|i: int| 0 <= i < grest@.len() ==> #[trigger] grest@[i] == gspec[m + i],
            decreases grest@.len(),
        {
            let ghost grest_pre = grest@;
            let x = grest.remove(0);
            proof {
                assert(x == gspec[m]);
                assert(forall|i: int|
                    0 <= i < grest@.len() ==> #[trigger] grest@[i] == grest_pre[i + 1]);
                assert(gspec.take(m + 1).drop_last() =~= gspec.take(m));
                assert(gspec.take(m + 1).last() == gspec[m]);
                lemma_key_terms_keys(pre, t0);
                lemma_fold_key_only(gspec.take(m), t0);
                assert(same_key(fold_group(gspec.take(m)), t0));
                lemma_term_like_facts(acc, fold_group(gspec.take(m)), x);
                assert(same_key(acc, x)) by {
                    assert(same_key(gspec[m], t0));
                }
            }
            if !acc.try_add_fits_check(&x) {
                // The failing sum pins down that the whole grouping does
                // not stay within the bounds.
                proof {
                    if simplify_fits(orig) {
                        lemma_term_like_facts(acc, fold_group(gspec.take(m)), x);
                        assert(!try_add_fits(fold_group(gspec.take(m)), gspec[m]));
                        assert(gspec.take(m + 1).drop_last() =~= gspec.take(m));
                        assert(gspec.take(m + 1).last() == gspec[m]);
                        assert(!fold_fits(gspec.take(m + 1)));
                        lemma_fold_fits_prefix_contra(gspec, m + 1);
                        assert(!fold_fits(gspec));
                        assert(simplify_fits(pre) == (fold_fits(key_terms(pre, pre[0]))
                            && simplify_fits(other_terms(pre, pre[0]))));
                        assert(!simplify_fits(pre));
                        assert(false);
                    }
                    assert(!simplify_fits(orig));
                }
                return None;
            }
            let s = acc.try_add(&x);
            let next_acc = match s {
                Some(t) => t,
                None => unreached(),
            };
            proof {
                lemma_try_add_like2(acc, x, fold_group(gspec.take(m)), gspec[m]);
                assert(term_like(next_acc, fold_group(gspec.take(m + 1))));
                m = m + 1;
            }
            acc = next_acc;
        }
        proof {
            assert(gspec.take(gspec.len() as int) =~= gspec);
            assert(term_like(acc, fold_group(gspec)));
        }
        out.push(acc);
        proof {
            done = done.push(fold_group(gspec));
            assert(collapsed(pre) == seq![fold_group(gspec)] + collapsed(other_terms(pre, t0)));
        }
        rest = oth;
        proof {
            lemma_split_lens(pre, t0);
            assert(done + collapsed(rest@) =~= collapsed(orig));
        }
    }
    proof {
        assert(collapsed(rest@) =~= Seq::<Term>::empty());
        assert(done =~= collapsed(orig));
    }
    Some(out)
}

/// Folding a group of one key yields a term of that key.
proof fn lemma_fold_key_only(g: Seq<Term>, t0: Term)
    requires
        g.len() >= 1,
        forall|i: int| 0 <= i < g.len() ==> same_key(#[trigger] g[i], t0),
    ensures
        same_key(fold_group(g), t0),
    decreases g.len(),
{
    if g.len() > 1 {
        assert(forall|i: int|
            0 <= i < g.len() - 1 ==> #[trigger] g.drop_last()[i] == g[i]);
        lemma_fold_key_only(g.drop_last(), t0);
    }
}

impl MultiVector {
    /// Simplify, checking every magnitude bound as it goes: the simplified
    /// quantity, or nothing when some intermediate sum would leave the
    /// exact-arithmetic range.
    pub fn try_simplify(self) -> (r: Option<MultiVector>)
        requires
            self.swf(),
        ensures
            r matches Some(m) ==> terms_like(m.terms@, spec_simplify(self.terms@)) && m.swf(),
            simplify_fits(self.terms@) ==> r is Some,
    {
        let ghost orig = self.terms@;
        let c = match collapse_checked(self.terms) {
            Some(c) => c,
            None => {
                return None;
            },
        };
        proof {
            lemma_drop_zero_like(c@, collapsed(orig));
        }
        let ghost cseq = c@;
        let z = drop_zero_vec(c);
        proof {
            lemma_drop_zero_keeps(cseq);
        }
        let ghost zseq = z@;
        let s = sort_terms_vec(z);
        proof {
            lemma_sort_like(zseq, drop_zero(collapsed(orig)));
            lemma_sort_keeps(zseq);
        }
        Some(MultiVector { terms: s })
    }
}

} // verus!

verus! {

/// A run of terms in canonical order.
pub open spec fn sorted_le(s: Seq<Term>) -> bool {
    forall|i: int, j: int| 0 <= i < j < s.len() ==> term_le(#[trigger] s[i], #[trigger] s[j])
}

/// No two terms of the run share a summation key.
pub open spec fn keys_distinct(s: Seq<Term>) -> bool {
    forall|i: int, j: int| 0 <= i < j < s.len() ==> !same_key(#[trigger] s[i], #[trigger] s[j])
}

/// Every term of the run has a non-zero magnitude.
pub open spec fn all_nonzero(s: Seq<Term>) -> bool {
    forall|i: int| 0 <= i < s.len() ==> (#[trigger] s[i]).magnitude.numerator > 0
}

/// Every term of the run has a well-formed magnitude.
pub open spec fn all_mags_wf(s: Seq<Term>) -> bool {
    forall|i: int| 0 <= i < s.len() ==> (#[trigger] s[i]).magnitude.wf()
}

/// The canonical term order is total, and transitive over terms with
/// well-formed magnitudes.
pub proof fn lemma_term_le_order(a: Term, b: Term, c: Term)
    ensures
        term_le(a, b) || term_le(b, a),
        a.magnitude.wf() && b.magnitude.wf() && c.magnitude.wf() && term_le(a, b) && term_le(b, c)
            ==> term_le(a, c),
{
    crate::xi::lemma_render_le_order(xi_str(a.xi), xi_str(b.xi), xi_str(c.xi));
    crate::xi::lemma_render_le_order(xi_str(b.xi), xi_str(a.xi), xi_str(c.xi));
    crate::xi::lemma_render_le_order(xi_str(b.xi), xi_str(c.xi), xi_str(a.xi));
    crate::xi::lemma_render_le_order(xi_str(a.xi), xi_str(c.xi), xi_str(b.xi));
    if a.magnitude.wf() && b.magnitude.wf() && c.magnitude.wf() && term_le(a, b) && term_le(b, c) {
        if registry_index(a.alpha.form) == registry_index(c.alpha.form) && xi_str(a.xi) == xi_str(
            c.xi,
        ) && a.alpha.sign == c.alpha.sign && registry_index(a.alpha.form) == registry_index(
            b.alpha.form,
        ) && xi_str(a.xi) == xi_str(b.xi) && a.alpha.sign == b.alpha.sign {
            assert(a.magnitude.numerator * c.magnitude.denominator <= c.magnitude.numerator
                * a.magnitude.denominator) by (nonlinear_arith)
                requires
                    a.magnitude.denominator > 0,
                    b.magnitude.denominator > 0,
                    c.magnitude.denominator > 0,
                    a.magnitude.numerator * b.magnitude.denominator <= b.magnitude.numerator
                        * a.magnitude.denominator,
                    b.magnitude.numerator * c.magnitude.denominator <= c.magnitude.numerator
                        * b.magnitude.denominator,
            ;
        }
    }
}

/// Inserting past a run that all stands at or before the new term appends
/// it.
proof fn lemma_insert_past_all(x: Term, t: Seq<Term>)
    requires
        forall|m: int| 0 <= m < t.len() ==> term_le(#[trigger] t[m], x),
    ensures
        insert_term(x, t) == t.push(x),
    decreases t.len(),
{
    if t.len() == 0 {
        assert(insert_term(x, t) =~= t.push(x));
    } else {
        assert(forall|m: int|
            0 <= m < t.len() - 1 ==> #[trigger] t.drop_first()[m] == t[m + 1]);
        lemma_insert_past_all(x, t.drop_first());
        assert(insert_term(x, t) =~= t.push(x));
    }
}

/// A run in canonical order is a fixed point of sorting.
pub proof fn lemma_sort_fixpoint(t: Seq<Term>)
    requires
        sorted_le(t),
    ensures
        sort_terms(t) == t,
    decreases t.len(),
{
    if t.len() > 0 {
        assert(forall|i: int, j: int|
            0 <= i < j < t.len() - 1 ==> term_le(
                #[trigger] t.drop_last()[i],
                #[trigger] t.drop_last()[j],
            )) by {
            assert(forall|i: int|
                0 <= i < t.len() - 1 ==> #[trigger] t.drop_last()[i] == t[i]);
        }
        lemma_sort_fixpoint(t.drop_last());
        assert(forall|m: int|
            0 <= m < t.drop_last().len() ==> term_le(#[trigger] t.drop_last()[m], t.last()));
        lemma_insert_past_all(t.last(), t.drop_last());
        assert(t.drop_last().push(t.last()) =~= t);
    }
}

/// A run of non-zero terms is a fixed point of dropping the zero terms.
pub proof fn lemma_drop_zero_fixpoint(t: Seq<Term>)
    requires
        all_nonzero(t),
    ensures
        drop_zero(t) == t,
    decreases t.len(),
{
    if t.len() > 0 {
        assert(forall|i: int|
            0 <= i < t.len() - 1 ==> #[trigger] t.drop_last()[i] == t[i]);
        lemma_drop_zero_fixpoint(t.drop_last());
        assert(t.drop_last() + seq![t.last()] =~= t);
    }
}

/// Dropping the zero terms leaves only non-zero terms.
pub proof fn lemma_drop_zero_nonzero(s: Seq<Term>)
    ensures
        all_nonzero(drop_zero(s)),
    decreases s.len(),
{
    if s.len() > 0 {
        lemma_drop_zero_nonzero(s.drop_last());
    }
}

/// A run without the key gathers nothing and loses nothing by it.
proof fn lemma_no_key_split(s: Seq<Term>, t0: Term)
    requires
        forall|i: int| 0 <= i < s.len() ==> !same_key(#[trigger] s[i], t0),
    ensures
        key_terms(s, t0) == Seq::<Term>::empty(),
        other_terms(s, t0) == s,
    decreases s.len(),
{
    if s.len() > 0 {
        assert(forall|i: int|
            0 <= i < s.len() - 1 ==> #[trigger] s.drop_first()[i] == s[i + 1]);
        lemma_no_key_split(s.drop_first(), t0);
        assert(other_terms(s, t0) =~= s) by {
            assert(s =~= seq![s[0]] + s.drop_first());
        }
    }
}

/// A run with pairwise distinct keys is a fixed point of collapsing.
pub proof fn lemma_collapsed_fixpoint(t: Seq<Term>)
    requires
        keys_distinct(t),
    ensures
        collapsed(t) == t,
    decreases t.len(),
{
    if t.len() > 0 {
        assert(forall|i: int|
            0 <= i < t.drop_first().len() ==> !same_key(#[trigger] t.drop_first()[i], t[0])) by {
            assert(forall|i: int|
                0 <= i < t.len() - 1 ==> #[trigger] t.drop_first()[i] == t[i + 1]);
        }
        lemma_no_key_split(t.drop_first(), t[0]);
        assert(key_terms(t, t[0]) =~= seq![t[0]]);
        assert(other_terms(t, t[0]) == t.drop_first());
        assert(fold_group(seq![t[0]]) == t[0]);
        assert(forall|i: int, j: int|
            0 <= i < j < t.drop_first().len() ==> !same_key(
                #[trigger] t.drop_first()[i],
                #[trigger] t.drop_first()[j],
            )) by {
            assert(forall|i: int|
                0 <= i < t.len() - 1 ==> #[trigger] t.drop_first()[i] == t[i + 1]);
        }
        lemma_collapsed_fixpoint(t.drop_first());
        assert(collapsed(t) =~= t) by {
            assert(t =~= seq![t[0]] + t.drop_first());
        }
    }
}

} // verus!

verus! {

/// Inserting into a sorted run keeps it sorted, when the magnitudes are
/// well-formed enough for the order to chain.
proof fn lemma_insert_sorted(x: Term, t: Seq<Term>)
    requires
        sorted_le(t),
        x.magnitude.wf(),
        all_mags_wf(t),
    ensures
        sorted_le(insert_term(x, t)),
        insert_term(x, t).len() == t.len() + 1,
        forall|i: int|
            0 <= i < insert_term(x, t).len() ==> #[trigger] insert_term(x, t)[i] == x || exists|
                j: int,
            | 0 <= j < t.len() && insert_term(x, t)[i] == t[j],
    decreases t.len(),
{
    if t.len() == 0 {
    } else if term_le(t[0], x) {
        assert(forall|i: int|
            0 <= i < t.len() - 1 ==> #[trigger] t.drop_first()[i] == t[i + 1]);
        assert(sorted_le(t.drop_first()));
        lemma_insert_sorted(x, t.drop_first());
        let r = insert_term(x, t);
        assert(r == seq![t[0]] + insert_term(x, t.drop_first()));
        assert(sorted_le(r)) by {
            assert(forall|j: int|
                1 <= j < r.len() ==> #[trigger] r[j] == insert_term(x, t.drop_first())[j - 1]);
            assert(forall|j: int| 1 <= j < r.len() ==> term_le(r[0], #[trigger] r[j])) by {
                assert(forall|j: int|
                    0 <= j < insert_term(x, t.drop_first()).len() ==> term_le(
                        t[0],
                        #[trigger] insert_term(x, t.drop_first())[j],
                    )) by {
                    assert(forall|j: int, m: int|
                        0 <= j < insert_term(x, t.drop_first()).len() && 0 <= m < t.drop_first().len()
                            ==> (#[trigger] insert_term(x, t.drop_first())[j] == x || (
                        insert_term(x, t.drop_first())[j] == #[trigger] t.drop_first()[m] ==> term_le(
                            t[0],
                            insert_term(x, t.drop_first())[j],
                        ))));
                    assert forall|j: int| 0 <= j < insert_term(x, t.drop_first()).len() implies term_le(
                        t[0],
                        #[trigger] insert_term(x, t.drop_first())[j],
                    ) by {
                        let e = insert_term(x, t.drop_first())[j];
                        if e == x {
                            assert(term_le(t[0], x));
                        } else {
                            let m = choose|m: int|
                                0 <= m < t.drop_first().len() && insert_term(x, t.drop_first())[j]
                                    == t.drop_first()[m];
                            assert(t.drop_first()[m] == t[m + 1]);
                            assert(term_le(t[0], t[m + 1]));
                        }
                    }
                }
            }
        }
        assert(forall|i: int|
            0 <= i < r.len() ==> #[trigger] r[i] == x || exists|j: int|
                0 <= j < t.len() && r[i] == t[j]) by {
            assert forall|i: int| 0 <= i < r.len() implies #[trigger] r[i] == x || exists|j: int|
                0 <= j < t.len() && r[i] == t[j] by {
                if i == 0 {
                    assert(r[0] == t[0]);
                } else {
                    let e = insert_term(x, t.drop_first())[i - 1];
                    assert(r[i] == e);
                    if e != x {
                        let m = choose|m: int|
                            0 <= m < t.drop_first().len() && insert_term(x, t.drop_first())[i - 1]
                                == t.drop_first()[m];
                        assert(t.drop_first()[m] == t[m + 1]);
                        assert(r[i] == t[m + 1]);
                    }
                }
            }
        }
    } else {
        lemma_term_le_order(t[0], x, x);
        let r = insert_term(x, t);
        assert(r == seq![x] + t);
        assert(sorted_le(r)) by {
            assert forall|i: int, j: int| 0 <= i < j < r.len() implies term_le(
                #[trigger] r[i],
                #[trigger] r[j],
            ) by {
                if i == 0 {
                    assert(r[j] == t[j - 1]);
                    if j > 1 {
                        lemma_term_le_order(x, t[0], t[j - 1]);
                        assert(term_le(t[0], t[j - 1]));
                    }
                } else {
                    assert(r[i] == t[i - 1] && r[j] == t[j - 1]);
                }
            }
        }
    }
}

/// Sorting yields a run in canonical order whose entries all come from the
/// input.
proof fn lemma_sort_sorted(s: Seq<Term>)
    requires
        all_mags_wf(s),
    ensures
        sorted_le(sort_terms(s)),
        sort_terms(s).len() == s.len(),
        forall|i: int|
            0 <= i < sort_terms(s).len() ==> exists|j: int|
                0 <= j < s.len() && #[trigger] sort_terms(s)[i] == s[j],
    decreases s.len(),
{
    if s.len() > 0 {
        assert(forall|i: int|
            0 <= i < s.len() - 1 ==> #[trigger] s.drop_last()[i] == s[i]);
        lemma_sort_sorted(s.drop_last());
        assert(all_mags_wf(sort_terms(s.drop_last()))) by {
            assert forall|i: int| 0 <= i < sort_terms(s.drop_last()).len() implies (
            #[trigger] sort_terms(s.drop_last())[i]).magnitude.wf() by {
                let j = choose|j: int|
                    0 <= j < s.drop_last().len() && sort_terms(s.drop_last())[i] == s.drop_last()[j];
                assert(s.drop_last()[j] == s[j]);
            }
        }
        lemma_insert_sorted(s.last(), sort_terms(s.drop_last()));
        assert forall|i: int| 0 <= i < sort_terms(s).len() implies exists|j: int|
            0 <= j < s.len() && #[trigger] sort_terms(s)[i] == s[j] by {
            if sort_terms(s)[i] == s.last() {
                assert(sort_terms(s)[i] == s[s.len() - 1]);
            } else {
                let m = choose|m: int|
                    0 <= m < sort_terms(s.drop_last()).len() && sort_terms(s)[i] == sort_terms(
                        s.drop_last(),
                    )[m];
                let j = choose|j: int|
                    0 <= j < s.drop_last().len() && sort_terms(s.drop_last())[m] == s.drop_last()[j];
                assert(sort_terms(s)[i] == s[j]);
            }
        }
    }
}

} // verus!

verus! {

/// Inserting a term whose key nothing in the run carries keeps the keys
/// pairwise distinct.
proof fn lemma_insert_distinct(x: Term, t: Seq<Term>)
    requires
        keys_distinct(t),
        forall|i: int| 0 <= i < t.len() ==> !same_key(#[trigger] t[i], x),
    ensures
        keys_distinct(insert_term(x, t)),
    decreases t.len(),
{
    if t.len() == 0 {
    } else if term_le(t[0], x) {
        assert(forall|i: int|
            0 <= i < t.len() - 1 ==> #[trigger] t.drop_first()[i] == t[i + 1]);
        lemma_insert_distinct(x, t.drop_first());
        let r = insert_term(x, t);
        let ri = insert_term(x, t.drop_first());
        assert(r == seq![t[0]] + ri);
        assert(keys_distinct(r)) by {
            assert forall|i: int, j: int| 0 <= i < j < r.len() implies !same_key(
                #[trigger] r[i],
                #[trigger] r[j],
            ) by {
                if i == 0 {
                    assert(r[j] == ri[j - 1]);
                    assert(ri[j - 1] == x || exists|m: int|
                        0 <= m < t.drop_first().len() && ri[j - 1] == t.drop_first()[m]) by {
                        lemma_insert_elems(x, t.drop_first());
                    }
                    if r[j] != x {
                        let m = choose|m: int|
                            0 <= m < t.drop_first().len() && ri[j - 1] == t.drop_first()[m];
                        assert(t.drop_first()[m] == t[m + 1]);
                        assert(!same_key(t[0], t[m + 1]));
                    }
                } else {
                    assert(r[i] == ri[i - 1] && r[j] == ri[j - 1]);
                }
            }
        }
    }
}

/// The entries of an insertion all come from the inserted term or the run.
proof fn lemma_insert_elems(x: Term, t: Seq<Term>)
    ensures
        insert_term(x, t).len() == t.len() + 1,
        forall|i: int|
            0 <= i < insert_term(x, t).len() ==> #[trigger] insert_term(x, t)[i] == x || exists|
                j: int,
            | 0 <= j < t.len() && insert_term(x, t)[i] == t[j],
    decreases t.len(),
{
    if t.len() > 0 && term_le(t[0], x) {
        assert(forall|i: int|
            0 <= i < t.len() - 1 ==> #[trigger] t.drop_first()[i] == t[i + 1]);
        lemma_insert_elems(x, t.drop_first());
        let r = insert_term(x, t);
        let ri = insert_term(x, t.drop_first());
        assert(r == seq![t[0]] + ri);
        assert forall|i: int| 0 <= i < r.len() implies #[trigger] r[i] == x || exists|j: int|
            0 <= j < t.len() && r[i] == t[j] by {
            if i == 0 {
                assert(r[0] == t[0]);
            } else {
                assert(r[i] == ri[i - 1]);
                if r[i] != x {
                    let m = choose|m: int|
                        0 <= m < t.drop_first().len() && ri[i - 1] == t.drop_first()[m];
                    assert(t.drop_first()[m] == t[m + 1]);
                }
            }
        }
    }
}

/// Sorting keeps pairwise distinct keys distinct.
proof fn lemma_sort_distinct(s: Seq<Term>)
    requires
        keys_distinct(s),
    ensures
        keys_distinct(sort_terms(s)),
    decreases s.len(),
{
    if s.len() > 0 {
        assert(forall|i: int|
            0 <= i < s.len() - 1 ==> #[trigger] s.drop_last()[i] == s[i]);
        lemma_sort_distinct(s.drop_last());
        lemma_sort_elems_only(s.drop_last());
        assert(forall|i: int|
            0 <= i < sort_terms(s.drop_last()).len() ==> !same_key(
                #[trigger] sort_terms(s.drop_last())[i],
                s.last(),
            )) by {
            assert forall|i: int| 0 <= i < sort_terms(s.drop_last()).len() implies !same_key(
                #[trigger] sort_terms(s.drop_last())[i],
                s.last(),
            ) by {
                let j = choose|j: int|
                    0 <= j < s.drop_last().len() && sort_terms(s.drop_last())[i] == s.drop_last()[j];
                assert(s.drop_last()[j] == s[j]);
                assert(!same_key(s[j], s[s.len() - 1]));
            }
        }
        lemma_insert_distinct(s.last(), sort_terms(s.drop_last()));
    }
}

/// The entries of a sort all come from the input.
proof fn lemma_sort_elems_only(s: Seq<Term>)
    ensures
        sort_terms(s).len() == s.len(),
        forall|i: int|
            0 <= i < sort_terms(s).len() ==> exists|j: int|
                0 <= j < s.len() && #[trigger] sort_terms(s)[i] == s[j],
    decreases s.len(),
{
    if s.len() > 0 {
        assert(forall|i: int|
            0 <= i < s.len() - 1 ==> #[trigger] s.drop_last()[i] == s[i]);
        lemma_sort_elems_only(s.drop_last());
        lemma_insert_elems(s.last(), sort_terms(s.drop_last()));
        assert forall|i: int| 0 <= i < sort_terms(s).len() implies exists|j: int|
            0 <= j < s.len() && #[trigger] sort_terms(s)[i] == s[j] by {
            if sort_terms(s)[i] == s.last() {
                assert(sort_terms(s)[i] == s[s.len() - 1]);
            } else {
                let m = choose|m: int|
                    0 <= m < sort_terms(s.drop_last()).len() && sort_terms(s)[i] == sort_terms(
                        s.drop_last(),
                    )[m];
                let j = choose|j: int|
                    0 <= j < s.drop_last().len() && sort_terms(s.drop_last())[m] == s.drop_last()[j];
                assert(sort_terms(s)[i] == s[j]);
            }
        }
    }
}

/// The entries of the zero-dropped run all come from the input.
proof fn lemma_dz_elems(s: Seq<Term>)
    ensures
        forall|i: int|
            0 <= i < drop_zero(s).len() ==> exists|j: int|
                0 <= j < s.len() && #[trigger] drop_zero(s)[i] == s[j],
    decreases s.len(),
{
    if s.len() > 0 {
        assert(forall|i: int|
            0 <= i < s.len() - 1 ==> #[trigger] s.drop_last()[i] == s[i]);
        lemma_dz_elems(s.drop_last());
        assert forall|i: int| 0 <= i < drop_zero(s).len() implies exists|j: int|
            0 <= j < s.len() && #[trigger] drop_zero(s)[i] == s[j] by {
            if s.last().magnitude.numerator != 0 && i == drop_zero(s).len() - 1 {
                assert(drop_zero(s)[i] == s[s.len() - 1]);
            } else {
                assert(drop_zero(s)[i] == drop_zero(s.drop_last())[i]);
                let j = choose|j: int|
                    0 <= j < s.drop_last().len() && drop_zero(s.drop_last())[i] == s.drop_last()[j];
                assert(drop_zero(s)[i] == s[j]);
            }
        }
    }
}

/// Dropping zero terms keeps pairwise distinct keys distinct.
proof fn lemma_dz_distinct(s: Seq<Term>)
    requires
        keys_distinct(s),
    ensures
        keys_distinct(drop_zero(s)),
    decreases s.len(),
{
    if s.len() > 0 {
        assert(forall|i: int|
            0 <= i < s.len() - 1 ==> #[trigger] s.drop_last()[i] == s[i]);
        lemma_dz_distinct(s.drop_last());
        lemma_dz_elems(s.drop_last());
        if s.last().magnitude.numerator != 0 {
            let r = drop_zero(s);
            assert(r == drop_zero(s.drop_last()) + seq![s.last()]);
            assert(keys_distinct(r)) by {
                assert forall|i: int, j: int| 0 <= i < j < r.len() implies !same_key(
                    #[trigger] r[i],
                    #[trigger] r[j],
                ) by {
                    if j == r.len() - 1 {
                        assert(r[i] == drop_zero(s.drop_last())[i]);
                        let m = choose|m: int|
                            0 <= m < s.drop_last().len() && drop_zero(s.drop_last())[i]
                                == s.drop_last()[m];
                        assert(s.drop_last()[m] == s[m]);
                        assert(!same_key(s[m], s[s.len() - 1]));
                    } else {
                        assert(r[i] == drop_zero(s.drop_last())[i] && r[j] == drop_zero(
                            s.drop_last(),
                        )[j]);
                    }
                }
            }
        }
    }
}

} // verus!

verus! {

/// Nothing that a key leaves aside carries that key.
proof fn lemma_other_no_key(s: Seq<Term>, t0: Term)
    ensures
        forall|i: int|
            0 <= i < other_terms(s, t0).len() ==> !same_key(#[trigger] other_terms(s, t0)[i], t0),
    decreases s.len(),
{
    if s.len() > 0 {
        lemma_other_no_key(s.drop_first(), t0);
        if !same_key(s[0], t0) {
            assert(other_terms(s, t0) == seq![s[0]] + other_terms(s.drop_first(), t0));
        }
    }
}

/// What a key leaves aside comes from the run.
proof fn lemma_other_elems(s: Seq<Term>, t0: Term)
    ensures
        forall|i: int|
            0 <= i < other_terms(s, t0).len() ==> exists|j: int|
                0 <= j < s.len() && #[trigger] other_terms(s, t0)[i] == s[j],
    decreases s.len(),
{
    if s.len() > 0 {
        assert(forall|i: int|
            0 <= i < s.len() - 1 ==> #[trigger] s.drop_first()[i] == s[i + 1]);
        lemma_other_elems(s.drop_first(), t0);
        assert forall|i: int| 0 <= i < other_terms(s, t0).len() implies exists|j: int|
            0 <= j < s.len() && #[trigger] other_terms(s, t0)[i] == s[j] by {
            if same_key(s[0], t0) {
                let m = choose|m: int|
                    0 <= m < s.drop_first().len() && other_terms(s.drop_first(), t0)[i]
                        == s.drop_first()[m];
                assert(other_terms(s, t0)[i] == s[m + 1]);
            } else {
                assert(other_terms(s, t0) == seq![s[0]] + other_terms(s.drop_first(), t0));
                if i > 0 {
                    let m = choose|m: int|
                        0 <= m < s.drop_first().len() && other_terms(s.drop_first(), t0)[i - 1]
                            == s.drop_first()[m];
                    assert(other_terms(s, t0)[i] == s[m + 1]);
                } else {
                    assert(other_terms(s, t0)[0] == s[0]);
                }
            }
        }
    }
}

/// Every collapsed term carries the key of some term of the run.
proof fn lemma_collapsed_carries_keys(s: Seq<Term>)
    ensures
        forall|i: int|
            0 <= i < collapsed(s).len() ==> exists|j: int|
                0 <= j < s.len() && same_key(#[trigger] collapsed(s)[i], s[j]),
    decreases s.len(),
{
    if s.len() > 0 {
        let others = other_terms(s, s[0]);
        lemma_split_lens(s, s[0]);
        lemma_collapsed_carries_keys(others);
        lemma_other_elems(s, s[0]);
        lemma_key_terms_keys(s, s[0]);
        lemma_fold_key_only(key_terms(s, s[0]), s[0]);
        assert forall|i: int| 0 <= i < collapsed(s).len() implies exists|j: int|
            0 <= j < s.len() && same_key(#[trigger] collapsed(s)[i], s[j]) by {
            if i == 0 {
                assert(same_key(collapsed(s)[0], s[0]));
            } else {
                assert(collapsed(s)[i] == collapsed(others)[i - 1]);
                let m = choose|m: int|
                    0 <= m < others.len() && same_key(collapsed(others)[i - 1], others[m]);
                let j = choose|j: int| 0 <= j < s.len() && others[m] == s[j];
                assert(same_key(collapsed(s)[i], s[j]));
            }
        }
    }
}

/// Collapsing leaves pairwise distinct keys: one combined term per key.
pub proof fn lemma_collapsed_distinct(s: Seq<Term>)
    ensures
        keys_distinct(collapsed(s)),
    decreases s.len(),
{
    if s.len() > 0 {
        let others = other_terms(s, s[0]);
        lemma_split_lens(s, s[0]);
        lemma_collapsed_distinct(others);
        lemma_collapsed_carries_keys(others);
        lemma_other_no_key(s, s[0]);
        lemma_key_terms_keys(s, s[0]);
        lemma_fold_key_only(key_terms(s, s[0]), s[0]);
        assert(keys_distinct(collapsed(s))) by {
            assert forall|i: int, j: int| 0 <= i < j < collapsed(s).len() implies !same_key(
                #[trigger] collapsed(s)[i],
                #[trigger] collapsed(s)[j],
            ) by {
                if i == 0 {
                    assert(collapsed(s)[j] == collapsed(others)[j - 1]);
                    let m = choose|m: int|
                        0 <= m < others.len() && same_key(collapsed(others)[j - 1], others[m]);
                    assert(!same_key(others[m], s[0]));
                    assert(same_key(collapsed(s)[0], s[0]));
                } else {
                    assert(collapsed(s)[i] == collapsed(others)[i - 1] && collapsed(s)[j]
                        == collapsed(others)[j - 1]);
                }
            }
        }
    }
}

/// Collapsing within the magnitude bounds leaves well-formed magnitudes.
proof fn lemma_collapsed_wf(s: Seq<Term>)
    requires
        forall|i: int|
            0 <= i < s.len() ==> (#[trigger] s[i]).magnitude.wf() && xi_wf(s[i].xi),
        simplify_fits(s),
    ensures
        all_mags_wf(collapsed(s)),
    decreases s.len(),
{
    if s.len() > 0 {
        let others = other_terms(s, s[0]);
        lemma_split_lens(s, s[0]);
        lemma_key_terms_wf(s, s[0]);
        lemma_key_terms_keys(s, s[0]);
        lemma_fold_key(key_terms(s, s[0]), s[0]);
        lemma_collapsed_wf(others);
        assert(all_mags_wf(collapsed(s))) by {
            assert forall|i: int| 0 <= i < collapsed(s).len() implies (
            #[trigger] collapsed(s)[i]).magnitude.wf() by {
                if i > 0 {
                    assert(collapsed(s)[i] == collapsed(others)[i - 1]);
                }
            }
        }
    }
}

/// Simplification is idempotent: a simplified quantity is a fixed point of
/// `spec_simplify`, so simplifying twice is simplifying once. The keys of
/// a simplified quantity are pairwise distinct and its magnitudes non-zero,
/// so the second pass groups singletons, drops nothing, and re-sorts a run
/// already in canonical order.
pub proof fn lemma_simplify_idempotent(s: Seq<Term>)
    requires
        forall|i: int|
            0 <= i < s.len() ==> (#[trigger] s[i]).magnitude.wf() && xi_wf(s[i].xi),
        simplify_fits(s),
    ensures
        spec_simplify(spec_simplify(s)) == spec_simplify(s),
{
    let c = collapsed(s);
    let z = drop_zero(c);
    let t = sort_terms(z);
    lemma_collapsed_distinct(s);
    lemma_collapsed_wf(s);
    lemma_dz_distinct(c);
    lemma_drop_zero_nonzero(c);
    lemma_dz_elems(c);
    assert(all_mags_wf(z)) by {
        assert forall|i: int| 0 <= i < z.len() implies (#[trigger] z[i]).magnitude.wf() by {
            let j = choose|j: int| 0 <= j < c.len() && z[i] == c[j];
        }
    }
    lemma_sort_sorted(z);
    lemma_sort_distinct(z);
    lemma_sort_elems_only(z);
    assert(all_nonzero(t)) by {
        assert forall|i: int| 0 <= i < t.len() implies (#[trigger] t[i]).magnitude.numerator
            > 0 by {
            let j = choose|j: int| 0 <= j < z.len() && t[i] == z[j];
        }
    }
    lemma_collapsed_fixpoint(t);
    lemma_drop_zero_fixpoint(t);
    lemma_sort_fixpoint(t);
}

} // verus!

verus! {

impl MultiVector {
    /// The same quantity under the opposite sign: every term negated.
    pub fn negated(&self) -> (r: MultiVector)
        ensures
            r.terms@.len() == self.terms@.len(),
            forall|i: int|
                0 <= i < self.terms@.len() ==> term_like(
                    #[trigger] r.terms@[i],
                    crate::operations::negated_when(self.terms@[i], true),
                ),
            self.swf() ==> r.swf(),
    {
        let mut out: Vec<Term> = Vec::new();
        let mut k: usize = 0;
        while k < self.terms.len()
            invariant
                k <= self.terms@.len(),
                out@.len() == k,
                forall|i: int|
                    0 <= i < k ==> term_like(
                        #[trigger] out@[i],
                        crate::operations::negated_when(self.terms@[i], true),
                    ),
                self.swf() ==> forall|i: int|
                    0 <= i < out@.len() ==> (#[trigger] out@[i]).magnitude.wf() && xi_wf(
                        out@[i].xi,
                    ),
            decreases self.terms@.len() - k,
        {
            out.push(self.terms[k].negated());
            k = k + 1;
        }
        MultiVector { terms: out }
    }

    /// This quantity scaled by a rational magnitude: every term's weight
    /// multiplied by it.
    pub fn times_mag(&self, m: &Magnitude) -> (r: MultiVector)
        requires
            self.swf(),
            m.wf(),
            forall|i: int|
                0 <= i < self.terms@.len() ==> crate::term::mul_fits(
                    (#[trigger] self.terms@[i]).magnitude,
                    *m,
                ),
        ensures
            r.terms@.len() == self.terms@.len(),
            forall|i: int|
                0 <= i < self.terms@.len() ==> (#[trigger] r.terms@[i]).alpha
                    == self.terms@[i].alpha && r.terms@[i].magnitude
                    == crate::term::spec_times_mag(self.terms@[i].magnitude, *m) && xi_str(
                    r.terms@[i].xi,
                ) == xi_str(self.terms@[i].xi),
            r.swf(),
    {
        let mut out: Vec<Term> = Vec::new();
        let mut k: usize = 0;
        while k < self.terms.len()
            invariant
                k <= self.terms@.len(),
                out@.len() == k,
                self.swf(),
                m.wf(),
                forall|i: int|
                    0 <= i < self.terms@.len() ==> crate::term::mul_fits(
                        (#[trigger] self.terms@[i]).magnitude,
                        *m,
                    ),
                forall|i: int|
                    0 <= i < k ==> (#[trigger] out@[i]).alpha == self.terms@[i].alpha
                        && out@[i].magnitude == crate::term::spec_times_mag(
                        self.terms@[i].magnitude,
                        *m,
                    ) && xi_str(out@[i].xi) == xi_str(self.terms@[i].xi),
                forall|i: int|
                    0 <= i < out@.len() ==> (#[trigger] out@[i]).magnitude.wf() && xi_wf(
                        out@[i].xi,
                    ),
            decreases self.terms@.len() - k,
        {
            out.push(self.terms[k].times_mag(m));
            k = k + 1;
        }
        MultiVector { terms: out }
    }

    /// This quantity divided by a rational magnitude: every term's weight
    /// divided by it.
    pub fn divided_by_mag(&self, m: &Magnitude) -> (r: MultiVector)
        requires
            self.swf(),
            m.wf(),
            m.numerator > 0,
            forall|i: int|
                0 <= i < self.terms@.len() ==> crate::operations::div_fits(
                    (#[trigger] self.terms@[i]).magnitude,
                    *m,
                ),
        ensures
            r.terms@.len() == self.terms@.len(),
            forall|i: int|
                0 <= i < self.terms@.len() ==> (#[trigger] r.terms@[i]).alpha
                    == self.terms@[i].alpha && r.terms@[i].magnitude.is_reduced_frac(
                    (self.terms@[i].magnitude.numerator * m.denominator) as nat,
                    (self.terms@[i].magnitude.denominator * m.numerator) as nat,
                ) && xi_str(r.terms@[i].xi) == xi_str(self.terms@[i].xi),
            r.swf(),
    {
        let mut out: Vec<Term> = Vec::new();
        let mut k: usize = 0;
        while k < self.terms.len()
            invariant
                k <= self.terms@.len(),
                out@.len() == k,
                self.swf(),
                m.wf() && m.numerator > 0,
                forall|i: int|
                    0 <= i < self.terms@.len() ==> crate::operations::div_fits(
                        (#[trigger] self.terms@[i]).magnitude,
                        *m,
                    ),
                forall|i: int|
                    0 <= i < k ==> (#[trigger] out@[i]).alpha == self.terms@[i].alpha
                        && out@[i].magnitude.is_reduced_frac(
                        (self.terms@[i].magnitude.numerator * m.denominator) as nat,
                        (self.terms@[i].magnitude.denominator * m.numerator) as nat,
                    ) && xi_str(out@[i].xi) == xi_str(self.terms@[i].xi),
                forall|i: int|
                    0 <= i < out@.len() ==> (#[trigger] out@[i]).magnitude.wf() && xi_wf(
                        out@[i].xi,
                    ),
            decreases self.terms@.len() - k,
        {
            out.push(self.terms[k].divided_by_mag(m));
            k = k + 1;
        }
        MultiVector { terms: out }
    }
}

} // verus!
