//! The full product of two directed units.
//!
//! The product is computed in three steps, mirrored exactly by the
//! specification functions of this module:
//!
//! 1. the point form is the multiplicative identity, so a point operand
//!    returns the other form at once;
//! 2. every axis the two operands share is cancelled under the +--- metric,
//!    combining the sign with `Neg` once per transposition needed to bring
//!    the two occurrences together (`cancel_all`);
//! 3. the surviving axes are reordered to the canonical target order of the
//!    registry, tracking the parity of the permutation (`perm_parity`): the
//!    front element of the current ordering needs an odd number of
//!    transpositions exactly when its target rank is odd, and the remainder
//!    is relabelled and treated as a sub-problem.

use vstd::prelude::*;

use crate::alpha::Alpha;
use crate::form::form_axes;
use crate::form::form_of_axes;
use crate::form::Form;
use crate::index::metric_sign;
use crate::index::Index;
use crate::sign::spec_combine;
use crate::sign::Sign;

verus! {

/// `Neg` for an odd count of transpositions, `Pos` for an even one.
pub open spec fn parity_sign(n: int) -> Sign {
    if n % 2 == 1 {
        Sign::Neg
    } else {
        Sign::Pos
    }
}

/// Position of the first occurrence of `x` in `s`, or `s.len()` when absent.
pub open spec fn first_pos(s: Seq<Index>, x: Index) -> int
    decreases s.len(),
{
    if s.len() == 0 {
        0
    } else if s[0] == x {
        0
    } else {
        1 + first_pos(s.drop_first(), x)
    }
}

/// Whether `s` holds the axis `x`.
pub open spec fn has_axis(s: Seq<Index>, x: Index) -> bool
    decreases s.len(),
{
    if s.len() == 0 {
        false
    } else {
        s.last() == x || has_axis(s.drop_last(), x)
    }
}

/// `has_axis` agrees with sequence membership.
pub proof fn lemma_has_axis(s: Seq<Index>, x: Index)
    ensures
        has_axis(s, x) == s.contains(x),
    decreases s.len(),
{
    if s.len() > 0 {
        lemma_has_axis(s.drop_last(), x);
        if s.contains(x) {
            let i = choose|i: int| 0 <= i < s.len() && s[i] == x;
            if i < s.len() - 1 {
                assert(s.drop_last()[i] == x);
            }
        }
        if has_axis(s, x) {
            if s.last() == x {
                assert(s[s.len() - 1] == x);
            } else {
                let i = choose|i: int| 0 <= i < s.len() - 1 && s.drop_last()[i] == x;
                assert(s[i] == x);
            }
        }
    }
}

/// The axes of `a` that also occur in `b`, kept in the order of `a`.
pub open spec fn common_axes(a: Seq<Index>, b: Seq<Index>) -> Seq<Index>
    decreases a.len(),
{
    if a.len() == 0 {
        seq![]
    } else if has_axis(b, a.last()) {
        common_axes(a.drop_last(), b) + seq![a.last()]
    } else {
        common_axes(a.drop_last(), b)
    }
}

/// Cancel the two occurrences of one repeated axis: apply the metric, flip
/// the sign once per transposition needed to bring the occurrences together,
/// and remove both. A sequence that does not hold `x` twice is returned
/// unchanged with a positive sign; the product never reaches that case.
pub open spec fn cancel_axis(s: Seq<Index>, x: Index) -> (Sign, Seq<Index>) {
    let p1 = first_pos(s, x);
    if p1 == s.len() {
        (Sign::Pos, s)
    } else {
        let q = first_pos(s.skip(p1 + 1), x);
        if q == s.len() - p1 - 1 {
            (Sign::Pos, s)
        } else {
            let p2 = p1 + 1 + q;
            (spec_combine(metric_sign(x), parity_sign(q)), s.remove(p2).remove(p1))
        }
    }
}

/// Cancel each repeated axis of `reps` in turn, combining the signs.
pub open spec fn cancel_all(s: Seq<Index>, reps: Seq<Index>) -> (Sign, Seq<Index>)
    decreases reps.len(),
{
    if reps.len() == 0 {
        (Sign::Pos, s)
    } else {
        let step = cancel_axis(s, reps[0]);
        let rest = cancel_all(step.1, reps.drop_first());
        (spec_combine(step.0, rest.0), rest.1)
    }
}

/// The set of axes of `s`, encoded as a four-bit number: bit `k` stands
/// for axis `k`.
pub open spec fn axes_mask(s: Seq<Index>) -> int {
    (if has_axis(s, Index::Zero) {
        1int
    } else {
        0int
    }) + (if has_axis(s, Index::One) {
        2int
    } else {
        0int
    }) + (if has_axis(s, Index::Two) {
        4int
    } else {
        0int
    }) + (if has_axis(s, Index::Three) {
        8int
    } else {
        0int
    })
}

/// The canonical target ordering for a set of surviving axes: one fixed
/// order per axis set, following the registry (note the cyclic, not
/// lexicographic, order of the mixed sets 31 and 031). A set outside the
/// table keeps its current order.
pub open spec fn target_ordering(s: Seq<Index>) -> Seq<Index> {
    let m = axes_mask(s);
    if m == 12 {
        seq![Index::Two, Index::Three]
    } else if m == 10 {
        seq![Index::Three, Index::One]
    } else if m == 6 {
        seq![Index::One, Index::Two]
    } else if m == 3 {
        seq![Index::Zero, Index::One]
    } else if m == 5 {
        seq![Index::Zero, Index::Two]
    } else if m == 9 {
        seq![Index::Zero, Index::Three]
    } else if m == 13 {
        seq![Index::Zero, Index::Two, Index::Three]
    } else if m == 11 {
        seq![Index::Zero, Index::Three, Index::One]
    } else if m == 7 {
        seq![Index::Zero, Index::One, Index::Two]
    } else if m == 14 {
        seq![Index::One, Index::Two, Index::Three]
    } else if m == 15 {
        seq![Index::Zero, Index::One, Index::Two, Index::Three]
    } else {
        s
    }
}

/// How many entries of `s` are strictly below `x`.
pub open spec fn count_lt(s: Seq<int>, x: int) -> int
    decreases s.len(),
{
    if s.len() == 0 {
        0
    } else {
        count_lt(s.drop_last(), x) + if s.last() < x {
            1int
        } else {
            0int
        }
    }
}

/// Relabel the entries of a positioning with their rank among themselves.
pub open spec fn relabel(p: Seq<int>) -> Seq<int> {
    Seq::new(p.len(), |k: int| count_lt(p, p[k]))
}

/// Position of each axis of `s` within the target ordering `t`.
pub open spec fn positions(s: Seq<Index>, t: Seq<Index>) -> Seq<int> {
    Seq::new(s.len(), |k: int| first_pos(t, s[k]))
}

/// Sign accumulated by popping the front element of the positioning to its
/// place and recursing on the relabelled remainder: the front element flips
/// the sign exactly when its target rank is odd.
pub open spec fn perm_parity(p: Seq<int>) -> Sign
    decreases p.len(),
{
    if p.len() <= 1 {
        Sign::Pos
    } else {
        spec_combine(parity_sign(p[0]), perm_parity(relabel(p.drop_first())))
    }
}

/// Sign contributed by reordering the surviving axes to the canonical
/// target order; an already canonical ordering contributes nothing, since
/// the positioning is then the identity.
pub open spec fn reorder_sign(rem: Seq<Index>) -> Sign {
    perm_parity(positions(rem, target_ordering(rem)))
}

/// The form of the full product of two forms: the other operand when one is
/// the point, else the canonical form of whatever axes survive cancellation.
pub open spec fn product_form(f1: Form, f2: Form) -> Form {
    if f1 == Form::Point {
        f2
    } else if f2 == Form::Point {
        f1
    } else {
        let rem = cancel_all(
            form_axes(f1) + form_axes(f2),
            common_axes(form_axes(f1), form_axes(f2)),
        ).1;
        if rem.len() == 0 {
            Form::Point
        } else if rem.len() == 1 {
            Form::Vector(rem[0])
        } else {
            form_of_axes(target_ordering(rem))
        }
    }
}

/// The sign the two forms contribute to their full product, beyond the
/// combination of the operand signs: metric and cancellation parity, then
/// reordering parity.
pub open spec fn product_sign(f1: Form, f2: Form) -> Sign {
    if f1 == Form::Point || f2 == Form::Point {
        Sign::Pos
    } else {
        let cancelled = cancel_all(
            form_axes(f1) + form_axes(f2),
            common_axes(form_axes(f1), form_axes(f2)),
        );
        if cancelled.1.len() <= 1 {
            cancelled.0
        } else {
            spec_combine(cancelled.0, reorder_sign(cancelled.1))
        }
    }
}

/// The full product of two directed units: signs combine, forms combine
/// under cancellation and canonical reordering.
pub open spec fn spec_full_product(i: Alpha, j: Alpha) -> Alpha {
    Alpha {
        sign: spec_combine(spec_combine(i.sign, j.sign), product_sign(i.form, j.form)),
        form: product_form(i.form, j.form),
    }
}

/// A position `p` holding `x` with no earlier occurrence is the first one.
proof fn lemma_first_pos_found(s: Seq<Index>, x: Index, p: int)
    requires
        0 <= p < s.len(),
        s[p] == x,
        forall|m: int| 0 <= m < p ==> s[m] != x,
    ensures
        first_pos(s, x) == p,
    decreases s.len(),
{
    if p > 0 {
        lemma_first_pos_found(s.drop_first(), x, p - 1);
    }
}

/// A sequence without `x` has no first position for it.
proof fn lemma_first_pos_absent(s: Seq<Index>, x: Index)
    requires
        forall|m: int| 0 <= m < s.len() ==> s[m] != x,
    ensures
        first_pos(s, x) == s.len(),
    decreases s.len(),
{
    if s.len() > 0 {
        lemma_first_pos_absent(s.drop_first(), x);
    }
}

/// The first position holds `x` whenever one exists.
proof fn lemma_first_pos_in_range(s: Seq<Index>, x: Index)
    ensures
        0 <= first_pos(s, x) <= s.len(),
        first_pos(s, x) < s.len() ==> s[first_pos(s, x)] == x,
    decreases s.len(),
{
    if s.len() > 0 && s[0] != x {
        lemma_first_pos_in_range(s.drop_first(), x);
    }
}

/// Whether `v` holds the axis `x`.
fn contains_index(v: &Vec<Index>, x: Index) -> (r: bool)
    ensures
        r == v@.contains(x),
{
    let mut k: usize = 0;
    while k < v.len()
        invariant
            k <= v@.len(),
            forall|m: int| 0 <= m < k ==> v@[m] != x,
        decreases v@.len() - k,
    {
        if v[k] == x {
            return true;
        }
        k = k + 1;
    }
    false
}

/// Position of the first occurrence of `x` in `v`, or `v.len()` when absent.
fn find_first(v: &Vec<Index>, x: Index) -> (p: usize)
    ensures
        p as int == first_pos(v@, x),
        p <= v@.len(),
        p < v@.len() ==> v@[p as int] == x,
{
    proof {
        lemma_first_pos_in_range(v@, x);
    }
    let mut k: usize = 0;
    while k < v.len()
        invariant
            k <= v@.len(),
            forall|m: int| 0 <= m < k ==> v@[m] != x,
        decreases v@.len() - k,
    {
        if v[k] == x {
            proof {
                lemma_first_pos_found(v@, x, k as int);
            }
            return k;
        }
        k = k + 1;
    }
    proof {
        lemma_first_pos_absent(v@, x);
    }
    k
}

/// Position of the first occurrence of `x` in `v` at or after `start`,
/// or `v.len()` when absent there.
fn find_from(v: &Vec<Index>, x: Index, start: usize) -> (p: usize)
    requires
        start <= v@.len(),
    ensures
        p as int - start == first_pos(v@.skip(start as int), x),
        start <= p <= v@.len(),
        p < v@.len() ==> v@[p as int] == x,
{
    let ghost tail = v@.skip(start as int);
    let mut k: usize = start;
    while k < v.len()
        invariant
            start <= k <= v@.len(),
            tail == v@.skip(start as int),
            forall|m: int| 0 <= m < k - start ==> tail[m] != x,
        decreases v@.len() - k,
    {
        if v[k] == x {
            proof {
                assert(tail[k - start] == v@[k as int]);
                lemma_first_pos_found(tail, x, k - start);
            }
            return k;
        }
        proof {
            assert(tail[k - start] == v@[k as int]);
        }
        k = k + 1;
    }
    proof {
        lemma_first_pos_absent(tail, x);
    }
    k
}

/// The set of axes of `v`, as the four-bit encoding of `axes_mask`.
fn axes_mask_of(v: &Vec<Index>) -> (m: u8)
    ensures
        m as int == axes_mask(v@),
{
    proof {
        lemma_has_axis(v@, Index::Zero);
        lemma_has_axis(v@, Index::One);
        lemma_has_axis(v@, Index::Two);
        lemma_has_axis(v@, Index::Three);
    }
    let mut m: u8 = 0;
    if contains_index(v, Index::Zero) {
        m = m + 1;
    }
    if contains_index(v, Index::One) {
        m = m + 2;
    }
    if contains_index(v, Index::Two) {
        m = m + 4;
    }
    if contains_index(v, Index::Three) {
        m = m + 8;
    }
    m
}

/// Build a two-axis vector.
fn axes2(a: Index, b: Index) -> (r: Vec<Index>)
    ensures
        r@ == seq![a, b],
{
    let mut r: Vec<Index> = Vec::new();
    r.push(a);
    r.push(b);
    proof {
        assert(r@ =~= seq![a, b]);
    }
    r
}

/// Build a three-axis vector.
fn axes3(a: Index, b: Index, c: Index) -> (r: Vec<Index>)
    ensures
        r@ == seq![a, b, c],
{
    let mut r: Vec<Index> = Vec::new();
    r.push(a);
    r.push(b);
    r.push(c);
    proof {
        assert(r@ =~= seq![a, b, c]);
    }
    r
}

/// Build a four-axis vector.
fn axes4(a: Index, b: Index, c: Index, d: Index) -> (r: Vec<Index>)
    ensures
        r@ == seq![a, b, c, d],
{
    let mut r: Vec<Index> = Vec::new();
    r.push(a);
    r.push(b);
    r.push(c);
    r.push(d);
    proof {
        assert(r@ =~= seq![a, b, c, d]);
    }
    r
}

/// The canonical target ordering for the surviving axes of `v`.
pub fn target_ordering_of(v: &Vec<Index>) -> (r: Vec<Index>)
    ensures
        r@ == target_ordering(v@),
{
    let m = axes_mask_of(v);
    if m == 12 {
        axes2(Index::Two, Index::Three)
    } else if m == 10 {
        axes2(Index::Three, Index::One)
    } else if m == 6 {
        axes2(Index::One, Index::Two)
    } else if m == 3 {
        axes2(Index::Zero, Index::One)
    } else if m == 5 {
        axes2(Index::Zero, Index::Two)
    } else if m == 9 {
        axes2(Index::Zero, Index::Three)
    } else if m == 13 {
        axes3(Index::Zero, Index::Two, Index::Three)
    } else if m == 11 {
        axes3(Index::Zero, Index::Three, Index::One)
    } else if m == 7 {
        axes3(Index::Zero, Index::One, Index::Two)
    } else if m == 14 {
        axes3(Index::One, Index::Two, Index::Three)
    } else if m == 15 {
        axes4(Index::Zero, Index::One, Index::Two, Index::Three)
    } else {
        v.clone()
    }
}

/// How many entries of `v` strictly after the front are below `x`.
fn count_below(v: &Vec<usize>, x: usize) -> (c: usize)
    requires
        v@.len() >= 1,
    ensures
        c as int == count_lt(v@.map_values(|u: usize| u as int).drop_first(), x as int),
        c < v@.len(),
{
    let ghost whole = v@.map_values(|u: usize| u as int).drop_first();
    let mut c: usize = 0;
    let mut m: usize = 1;
    while m < v.len()
        invariant
            1 <= m <= v@.len(),
            whole == v@.map_values(|u: usize| u as int).drop_first(),
            c as int == count_lt(whole.take(m - 1), x as int),
            c < m,
        decreases v@.len() - m,
    {
        proof {
            assert(whole.take(m as int).drop_last() =~= whole.take(m - 1));
            assert(whole.take(m as int).last() == v@[m as int] as int);
        }
        if v[m] < x {
            c = c + 1;
        }
        m = m + 1;
    }
    proof {
        assert(whole.take(v@.len() - 1) =~= whole);
    }
    c
}

/// Sign of the permutation taking the axes of `v` to the target `t`,
/// computed by popping the front element and relabelling the remainder.
fn perm_parity_of(v: &Vec<Index>, t: &Vec<Index>) -> (s: Sign)
    ensures
        s == perm_parity(positions(v@, t@)),
{
    let ghost goal = positions(v@, t@);
    let mut cur: Vec<usize> = Vec::new();
    let mut k: usize = 0;
    while k < v.len()
        invariant
            k <= v@.len(),
            goal == positions(v@, t@),
            cur@.len() == k,
            cur@.map_values(|u: usize| u as int) =~= goal.take(k as int),
            forall|m: int| 0 <= m < k ==> cur@[m] <= t@.len(),
        decreases v@.len() - k,
    {
        let p = find_first(t, v[k]);
        proof {
            lemma_first_pos_in_range(t@, v@[k as int]);
        }
        cur.push(p);
        proof {
            assert(cur@.map_values(|u: usize| u as int) =~= goal.take(k + 1));
        }
        k = k + 1;
    }
    proof {
        assert(goal.take(v@.len() as int) =~= goal);
    }

    let mut sg = Sign::Pos;
    while cur.len() > 1
        invariant
            spec_combine(sg, perm_parity(cur@.map_values(|u: usize| u as int))) == perm_parity(
                goal,
            ),
            forall|m: int| 0 <= m < cur@.len() ==> cur@[m] <= usize::MAX,
        decreases cur@.len(),
    {
        let ghost curv = cur@.map_values(|u: usize| u as int);
        let step = if cur[0] % 2 == 1 {
            Sign::Neg
        } else {
            Sign::Pos
        };
        proof {
            assert(step == parity_sign(curv[0]));
        }
        let mut next: Vec<usize> = Vec::new();
        let mut k2: usize = 1;
        while k2 < cur.len()
            invariant
                1 <= k2 <= cur@.len(),
                1 <= cur@.len(),
                curv == cur@.map_values(|u: usize| u as int),
                next@.len() == k2 - 1,
                forall|m: int| 0 <= m < k2 - 1 ==> next@[m] as int == relabel(curv.drop_first())[m],
            decreases cur@.len() - k2,
        {
            let c = count_below(&cur, cur[k2]);
            proof {
                assert(relabel(curv.drop_first())[k2 - 1] == count_lt(
                    curv.drop_first(),
                    curv.drop_first()[k2 - 1],
                ));
                assert(curv.drop_first()[k2 - 1] == curv[k2 as int]);
            }
            next.push(c);
            k2 = k2 + 1;
        }
        proof {
            assert(next@.map_values(|u: usize| u as int) =~= relabel(curv.drop_first()));
            assert(perm_parity(curv) == spec_combine(
                parity_sign(curv[0]),
                perm_parity(relabel(curv.drop_first())),
            ));
            crate::sign::lemma_sign_group(sg, step, perm_parity(relabel(curv.drop_first())));
        }
        sg = sg.combine(&step);
        cur = next;
    }
    sg
}

/// Compute the full product of `i` and `j` under the +--- metric and the
/// form ordering conventions of the registry.
pub fn ar_product(i: &Alpha, j: &Alpha) -> (r: Alpha)
    ensures
        r == spec_full_product(*i, *j),
        i.wf() && j.wf() ==> r.wf(),
{
    proof {
        if i.wf() && j.wf() {
            lemma_product_form_closed(i.form, j.form);
        }
    }
    let sign0 = i.sign().combine(&j.sign());

    // Multiplication by the point is idempotent on the form but does
    // affect the sign.
    if i.is_point() {
        return Alpha { sign: sign0, form: j.form() };
    }
    if j.is_point() {
        return Alpha { sign: sign0, form: i.form() };
    }

    let i_axes = i.form().as_vec();
    let j_axes = j.form().as_vec();

    // The axes repeated between the operands, in the order of the left one.
    let mut reps: Vec<Index> = Vec::new();
    let mut k: usize = 0;
    while k < i_axes.len()
        invariant
            k <= i_axes@.len(),
            reps@ == common_axes(i_axes@.take(k as int), j_axes@),
        decreases i_axes@.len() - k,
    {
        proof {
            assert(i_axes@.take(k + 1).drop_last() =~= i_axes@.take(k as int));
            lemma_has_axis(j_axes@, i_axes@[k as int]);
        }
        if contains_index(&j_axes, i_axes[k]) {
            reps.push(i_axes[k]);
        }
        k = k + 1;
    }
    proof {
        assert(i_axes@.take(i_axes@.len() as int) =~= i_axes@);
    }

    // One working list holding the axes of both operands.
    let mut axes = i_axes;
    let mut j_axes_m = j_axes;
    axes.append(&mut j_axes_m);
    let ghost axes0 = axes@;

    // Cancel each repeated axis in turn, combining the metric sign with the
    // parity of the transpositions that bring its two occurrences together.
    let mut sg = Sign::Pos;
    let mut n: usize = 0;
    proof {
        assert(reps@.skip(0) =~= reps@);
    }
    while n < reps.len()
        invariant
            n <= reps@.len(),
            cancel_all(axes0, reps@).0 == spec_combine(
                sg,
                cancel_all(axes@, reps@.skip(n as int)).0,
            ),
            cancel_all(axes0, reps@).1 == cancel_all(axes@, reps@.skip(n as int)).1,
        decreases reps@.len() - n,
    {
        let ghost pre = axes@;
        let x = reps[n];
        let step: Sign;
        let p1 = find_first(&axes, x);
        if p1 == axes.len() {
            step = Sign::Pos;
        } else {
            let p2 = find_from(&axes, x, p1 + 1);
            let q = p2 - (p1 + 1);
            if p2 == axes.len() {
                step = Sign::Pos;
            } else {
                let metric = if let Index::Zero = x {
                    Sign::Pos
                } else {
                    Sign::Neg
                };
                let pops = if q % 2 == 1 {
                    Sign::Neg
                } else {
                    Sign::Pos
                };
                step = metric.combine(&pops);
                // Remove the higher position first so the lower stays valid.
                axes.remove(p2);
                axes.remove(p1);
                proof {
                    assert(axes@ =~= pre.remove(p2 as int).remove(p1 as int));
                }
            }
        }
        proof {
            assert(cancel_axis(pre, x) == (step, axes@));
            assert(reps@.skip(n as int)[0] == reps@[n as int]);
            assert(reps@.skip(n as int).drop_first() =~= reps@.skip(n + 1));
            assert(cancel_all(pre, reps@.skip(n as int)) == (
                spec_combine(step, cancel_all(axes@, reps@.skip(n + 1)).0),
                cancel_all(axes@, reps@.skip(n + 1)).1,
            ));
            crate::sign::lemma_sign_group(sg, step, cancel_all(axes@, reps@.skip(n + 1)).0);
        }
        sg = sg.combine(&step);
        n = n + 1;
    }
    proof {
        assert(reps@.skip(reps@.len() as int) =~= Seq::<Index>::empty());
        assert(cancel_all(axes@, reps@.skip(reps@.len() as int)) == (Sign::Pos, axes@));
        crate::sign::lemma_sign_group(sg, Sign::Pos, Sign::Pos);
    }
    let sign1 = sign0.combine(&sg);

    // The point and single vectors need no ordering.
    if axes.len() == 0 {
        return Alpha { sign: sign1, form: Form::Point };
    }
    if axes.len() == 1 {
        return Alpha { sign: sign1, form: Form::Vector(axes[0]) };
    }

    // Reorder the surviving axes to the canonical target order.
    let target = target_ordering_of(&axes);
    let sign2 = sign1.combine(&perm_parity_of(&axes, &target));

    let form = match Form::try_from_indices(&target) {
        Ok(f) => f,
        Err(_) => Form::Point,
    };
    proof {
        if target@.len() > 4 {
            assert(form_of_axes(target@) == Form::Point);
        }
    }
    Alpha { sign: sign2, form }
}

} // verus!

verus! {

/// How many times an axis occurs in a run.
pub open spec fn count_axis(s: Seq<Index>, x: Index) -> int
    decreases s.len(),
{
    if s.len() == 0 {
        0
    } else {
        count_axis(s.drop_last(), x) + if s.last() == x {
            1int
        } else {
            0int
        }
    }
}

/// The count of a one-entry run.
proof fn lemma_count_single(e: Index, x: Index)
    ensures
        count_axis(seq![e], x) == (if e == x {
            1int
        } else {
            0int
        }),
{
    assert(seq![e].drop_last() =~= Seq::<Index>::empty());
    assert(seq![e].last() == e);
    assert(count_axis(Seq::<Index>::empty(), x) == 0);
}

/// Occurrence counts add over concatenation.
proof fn lemma_count_concat(a: Seq<Index>, b: Seq<Index>, x: Index)
    ensures
        count_axis(a + b, x) == count_axis(a, x) + count_axis(b, x),
    decreases b.len(),
{
    if b.len() == 0 {
        assert(a + b =~= a);
    } else {
        lemma_count_concat(a, b.drop_last(), x);
        assert((a + b).drop_last() =~= a + b.drop_last());
        assert((a + b).last() == b.last());
    }
}

/// Occurrence counts split at any position.
proof fn lemma_count_split(s: Seq<Index>, m: int, x: Index)
    requires
        0 <= m <= s.len(),
    ensures
        count_axis(s, x) == count_axis(s.take(m), x) + count_axis(s.skip(m), x),
{
    lemma_count_concat(s.take(m), s.skip(m), x);
    assert(s.take(m) + s.skip(m) =~= s);
}

/// A run without the axis counts none of it; a run holding it counts at
/// least one.
proof fn lemma_count_basics(s: Seq<Index>, x: Index)
    ensures
        (forall|i: int| 0 <= i < s.len() ==> s[i] != x) ==> count_axis(s, x) == 0,
        count_axis(s, x) > 0 ==> first_pos(s, x) < s.len(),
        has_axis(s, x) ==> count_axis(s, x) >= 1,
        count_axis(s, x) >= 0,
    decreases s.len(),
{
    if s.len() > 0 {
        assert(forall|i: int|
            0 <= i < s.len() - 1 ==> #[trigger] s.drop_last()[i] == s[i]);
        lemma_count_basics(s.drop_last(), x);
        if count_axis(s, x) > 0 {
            if s[0] != x {
                assert(forall|i: int|
                    0 <= i < s.len() - 1 ==> #[trigger] s.drop_first()[i] == s[i + 1]);
                lemma_count_basics(s.drop_first(), x);
                assert(count_axis(s.drop_first(), x) > 0) by {
                    assert(s =~= seq![s[0]] + s.drop_first());
                    lemma_count_concat(seq![s[0]], s.drop_first(), x);
                    lemma_count_single(s[0], x);
                }
            }
        }
    }
}

/// No occurrence stands before the first one.
proof fn lemma_first_pos_prefix(s: Seq<Index>, x: Index)
    ensures
        forall|m: int| 0 <= m < first_pos(s, x) ==> s[m] != x,
    decreases s.len(),
{
    if s.len() > 0 && s[0] != x {
        lemma_first_pos_prefix(s.drop_first(), x);
        lemma_first_pos_in_range(s.drop_first(), x);
        assert forall|m: int| 0 <= m < first_pos(s, x) implies s[m] != x by {
            if m > 0 {
                assert(0 <= m - 1 < s.drop_first().len());
                assert(s.drop_first()[m - 1] == s[m]);
            }
        }
    }
}

/// Removing one position lowers the count of the axis standing there by
/// one and keeps every other count.
proof fn lemma_count_remove(s: Seq<Index>, i: int, x: Index)
    requires
        0 <= i < s.len(),
    ensures
        count_axis(s.remove(i), x) == count_axis(s, x) - (if s[i] == x {
            1int
        } else {
            0int
        }),
{
    lemma_count_split(s, i, x);
    lemma_count_concat(s.take(i), s.skip(i + 1), x);
    assert(s.remove(i) =~= s.take(i) + s.skip(i + 1));
    assert(s.skip(i) =~= seq![s[i]] + s.skip(i + 1));
    lemma_count_concat(seq![s[i]], s.skip(i + 1), x);
    lemma_count_single(s[i], x);
}

/// Cancelling an axis that occurs exactly twice removes both occurrences
/// and touches nothing else.
proof fn lemma_cancel_axis_counts(s: Seq<Index>, x: Index)
    requires
        count_axis(s, x) >= 2,
    ensures
        cancel_axis(s, x).1.len() == s.len() - 2,
        count_axis(cancel_axis(s, x).1, x) == count_axis(s, x) - 2,
        forall|y: Index| y != x ==> count_axis(cancel_axis(s, x).1, y) == count_axis(s, y),
{
    lemma_count_basics(s, x);
    let p1 = first_pos(s, x);
    lemma_first_pos_in_range(s, x);
    lemma_first_pos_prefix(s, x);
    let tail = s.skip(p1 + 1);
    assert(count_axis(tail, x) >= 1) by {
        lemma_count_split(s, p1 + 1, x);
        assert(count_axis(s.take(p1 + 1), x) == 1) by {
            assert(s.take(p1 + 1) =~= s.take(p1) + seq![s[p1 as int]]);
            lemma_count_concat(s.take(p1), seq![s[p1 as int]], x);
            assert(forall|m: int| 0 <= m < p1 ==> #[trigger] s.take(p1)[m] != x);
            lemma_count_basics(s.take(p1), x);
            lemma_count_single(s[p1 as int], x);
        }
    }
    lemma_count_basics(tail, x);
    let q = first_pos(tail, x);
    lemma_first_pos_in_range(tail, x);
    let p2 = p1 + 1 + q;
    assert(s[p2] == x) by {
        assert(tail[q] == s[p2]);
    }
    assert(cancel_axis(s, x).1 == s.remove(p2).remove(p1));
    lemma_count_remove(s, p2, x);
    assert(s.remove(p2)[p1 as int] == s[p1 as int]) by {
        assert(s.remove(p2) =~= s.take(p2) + s.skip(p2 + 1));
    }
    lemma_count_remove(s.remove(p2), p1, x);
    assert forall|y: Index| y != x implies count_axis(cancel_axis(s, x).1, y) == count_axis(
        s,
        y,
    ) by {
        lemma_count_remove(s, p2, y);
        lemma_count_remove(s.remove(p2), p1, y);
    }
}

} // verus!

verus! {

/// A run with no occurrence of the axis counts none; any occurrence means
/// a positive count.
proof fn lemma_count_has(s: Seq<Index>, x: Index)
    ensures
        count_axis(s, x) > 0 <==> has_axis(s, x),
    decreases s.len(),
{
    if s.len() > 0 {
        lemma_count_has(s.drop_last(), x);
        lemma_count_basics(s.drop_last(), x);
    }
}

/// Two positions holding one axis put its count at two or more.
proof fn lemma_two_positions(s: Seq<Index>, i: int, j: int)
    requires
        0 <= i < j < s.len(),
        s[i] == s[j],
    ensures
        count_axis(s, s[i]) >= 2,
{
    let v = s[i];
    lemma_count_split(s, j, v);
    assert(count_axis(s.take(j), v) >= 1) by {
        lemma_count_has(s.take(j), v);
        lemma_has_axis(s.take(j), v);
        assert(s.take(j)[i] == v);
    }
    assert(count_axis(s.skip(j), v) >= 1) by {
        lemma_count_has(s.skip(j), v);
        lemma_has_axis(s.skip(j), v);
        assert(s.skip(j)[0] == v);
    }
}

/// What the operands share: it counts no more than in the left operand,
/// and holds exactly the axes of both.
proof fn lemma_common_facts(a: Seq<Index>, b: Seq<Index>, x: Index)
    ensures
        count_axis(common_axes(a, b), x) <= count_axis(a, x),
        has_axis(common_axes(a, b), x) <==> has_axis(a, x) && has_axis(b, x),
    decreases a.len(),
{
    lemma_count_basics(a, x);
    lemma_count_basics(common_axes(a, b), x);
    if a.len() > 0 {
        lemma_common_facts(a.drop_last(), b, x);
        if has_axis(b, a.last()) {
            assert(common_axes(a, b) == common_axes(a.drop_last(), b) + seq![a.last()]);
            lemma_count_concat(common_axes(a.drop_last(), b), seq![a.last()], x);
            lemma_count_single(a.last(), x);
            assert(has_axis(common_axes(a, b), x) <==> (has_axis(common_axes(a.drop_last(), b), x)
                || a.last() == x)) by {
                assert(common_axes(a, b).last() == a.last());
                assert(common_axes(a, b).drop_last() =~= common_axes(a.drop_last(), b));
            }
        }
    }
}

/// Every axis of a registry form occurs in it once at most.
proof fn lemma_allowed_counts(f: Form, x: Index)
    requires
        crate::registry::is_allowed(f),
    ensures
        count_axis(form_axes(f), x) <= 1,
{
    reveal_with_fuel(count_axis, 6);
    match f {
        Form::Point => {
            assert(form_axes(f) =~= Seq::<Index>::empty());
        },
        Form::Vector(i) => {
            lemma_count_single(i, x);
            assert(form_axes(f) =~= seq![i]);
        },
        Form::Bivector(i, j) => {
            assert(i != j);
            assert(form_axes(f) =~= seq![i] + seq![j]);
            lemma_count_concat(seq![i], seq![j], x);
            lemma_count_single(i, x);
            lemma_count_single(j, x);
        },
        Form::Trivector(i, j, k) => {
            assert(i != j && j != k && i != k);
            assert(form_axes(f) =~= seq![i] + seq![j] + seq![k]);
            lemma_count_concat(seq![i] + seq![j], seq![k], x);
            lemma_count_concat(seq![i], seq![j], x);
            lemma_count_single(i, x);
            lemma_count_single(j, x);
            lemma_count_single(k, x);
        },
        Form::Quadrivector(i, j, k, l) => {
            assert(i != j && i != k && i != l && j != k && j != l && k != l);
            assert(form_axes(f) =~= seq![i] + seq![j] + seq![k] + seq![l]);
            lemma_count_concat(seq![i] + seq![j] + seq![k], seq![l], x);
            lemma_count_concat(seq![i] + seq![j], seq![k], x);
            lemma_count_concat(seq![i], seq![j], x);
            lemma_count_single(i, x);
            lemma_count_single(j, x);
            lemma_count_single(k, x);
            lemma_count_single(l, x);
        },
    }
}

/// Cancelling every shared axis leaves each axis at most once: the shared
/// axes each lose their two occurrences, and nothing else is touched.
proof fn lemma_cancel_all_counts(s: Seq<Index>, reps: Seq<Index>)
    requires
        forall|i: int, j: int| 0 <= i < j < reps.len() ==> reps[i] != reps[j],
        forall|x: Index| has_axis(reps, x) ==> count_axis(s, x) == 2,
        forall|x: Index| !has_axis(reps, x) ==> count_axis(s, x) <= 1,
    ensures
        forall|x: Index| count_axis(cancel_all(s, reps).1, x) <= 1,
        forall|x: Index|
            count_axis(cancel_all(s, reps).1, x) == count_axis(s, x) - (if has_axis(reps, x) {
                2int
            } else {
                0int
            }),
    decreases reps.len(),
{
    if reps.len() == 0 {
        assert(forall|x: Index| !has_axis(reps, x)) by {
            assert forall|x: Index| !has_axis(reps, x) by {
                lemma_has_axis(reps, x);
            }
        }
    } else {
        let x0 = reps[0];
        assert(has_axis(reps, x0)) by {
            lemma_has_axis(reps, x0);
        }
        lemma_cancel_axis_counts(s, x0);
        let s2 = cancel_axis(s, x0).1;
        assert(cancel_all(s, reps).1 == cancel_all(s2, reps.drop_first()).1);
        assert(forall|i: int, j: int|
            0 <= i < j < reps.drop_first().len() ==> reps.drop_first()[i] != reps.drop_first()[j])
            by {
            assert(forall|i: int|
                0 <= i < reps.len() - 1 ==> #[trigger] reps.drop_first()[i] == reps[i + 1]);
        }
        assert forall|x: Index| has_axis(reps.drop_first(), x) implies count_axis(s2, x) == 2 by {
            lemma_has_axis(reps.drop_first(), x);
            let j = choose|j: int| 0 <= j < reps.drop_first().len() && reps.drop_first()[j] == x;
            assert(reps.drop_first()[j] == reps[j + 1]);
            assert(x != x0);
            assert(has_axis(reps, x)) by {
                lemma_has_axis(reps, x);
                assert(reps[j + 1] == x);
            }
        }
        assert forall|x: Index| !has_axis(reps.drop_first(), x) implies count_axis(s2, x) <= 1 by {
            if x == x0 {
            } else {
                assert(!has_axis(reps, x)) by {
                    lemma_has_axis(reps, x);
                    lemma_has_axis(reps.drop_first(), x);
                    if reps.contains(x) {
                        let j = choose|j: int| 0 <= j < reps.len() && reps[j] == x;
                        assert(j != 0);
                        assert(reps.drop_first()[j - 1] == x);
                    }
                }
            }
        }
        lemma_cancel_all_counts(s2, reps.drop_first());
        assert forall|x: Index|
            count_axis(cancel_all(s, reps).1, x) == count_axis(s, x) - (if has_axis(reps, x) {
                2int
            } else {
                0int
            }) by {
            if x == x0 {
                assert(!has_axis(reps.drop_first(), x0)) by {
                    lemma_has_axis(reps.drop_first(), x0);
                    if reps.drop_first().contains(x0) {
                        let j = choose|j: int|
                            0 <= j < reps.drop_first().len() && reps.drop_first()[j] == x0;
                        assert(reps.drop_first()[j] == reps[j + 1]);
                    }
                }
            } else {
                assert(has_axis(reps, x) == has_axis(reps.drop_first(), x)) by {
                    lemma_has_axis(reps, x);
                    lemma_has_axis(reps.drop_first(), x);
                    if reps.contains(x) {
                        let j = choose|j: int| 0 <= j < reps.len() && reps[j] == x;
                        assert(j != 0);
                        assert(reps.drop_first()[j - 1] == x);
                    }
                    if reps.drop_first().contains(x) {
                        let j = choose|j: int|
                            0 <= j < reps.drop_first().len() && reps.drop_first()[j] == x;
                        assert(reps[j + 1] == x);
                    }
                }
            }
        }
    }
}

/// A run where every axis counts zero is empty.
proof fn lemma_all_zero_empty(s: Seq<Index>)
    requires
        forall|x: Index| count_axis(s, x) == 0,
    ensures
        s.len() == 0,
{
    if s.len() > 0 {
        lemma_count_has(s, s.last());
        lemma_has_axis(s, s.last());
        assert(s[s.len() - 1] == s.last());
    }
}

/// Every registry form squares to the point form: the two copies of each
/// of its axes cancel completely.
pub proof fn lemma_square_form_point(f: Form)
    requires
        crate::registry::is_allowed(f),
    ensures
        product_form(f, f) == Form::Point,
{
    if f == Form::Point {
    } else {
        let a = form_axes(f);
        let s0 = a + a;
        let reps = common_axes(a, a);
        assert(forall|i: int, j: int| 0 <= i < j < reps.len() ==> reps[i] != reps[j]) by {
            assert forall|i: int, j: int| 0 <= i < j < reps.len() implies reps[i] != reps[j] by {
                if reps[i] == reps[j] {
                    lemma_two_positions(reps, i, j);
                    lemma_common_facts(a, a, reps[i]);
                    lemma_allowed_counts(f, reps[i]);
                }
            }
        }
        assert forall|x: Index| has_axis(reps, x) implies count_axis(s0, x) == 2 by {
            lemma_common_facts(a, a, x);
            lemma_allowed_counts(f, x);
            lemma_count_concat(a, a, x);
            lemma_count_has(a, x);
        }
        assert forall|x: Index| !has_axis(reps, x) implies count_axis(s0, x) <= 1 by {
            lemma_common_facts(a, a, x);
            lemma_count_concat(a, a, x);
            lemma_count_has(a, x);
            lemma_count_basics(a, x);
        }
        lemma_cancel_all_counts(s0, reps);
        let rem = cancel_all(s0, reps).1;
        assert forall|x: Index| count_axis(rem, x) == 0 by {
            lemma_common_facts(a, a, x);
            lemma_allowed_counts(f, x);
            lemma_count_concat(a, a, x);
            lemma_count_has(a, x);
            lemma_count_basics(a, x);
        }
        lemma_all_zero_empty(rem);
    }
}

} // verus!

verus! {

/// Closure of the registry under the product's form computation: whatever
/// axes survive cancelling the shared axes of two registry forms are
/// pairwise distinct, so the canonical-ordering table covers them and the
/// resulting form is again a registry member.
pub proof fn lemma_product_form_closed(f1: Form, f2: Form)
    requires
        crate::registry::is_allowed(f1),
        crate::registry::is_allowed(f2),
    ensures
        crate::registry::is_allowed(product_form(f1, f2)),
{
    if f1 == Form::Point || f2 == Form::Point {
    } else {
        let a1 = form_axes(f1);
        let a2 = form_axes(f2);
        let s0 = a1 + a2;
        let reps = common_axes(a1, a2);
        let rem = cancel_all(s0, reps).1;

        // The shared axes are pairwise distinct, occur exactly twice in the
        // working list, and everything else occurs at most once.
        assert(forall|i: int, j: int| 0 <= i < j < reps.len() ==> reps[i] != reps[j]) by {
            assert forall|i: int, j: int| 0 <= i < j < reps.len() implies reps[i] != reps[j] by {
                if reps[i] == reps[j] {
                    lemma_two_positions(reps, i, j);
                    lemma_common_facts(a1, a2, reps[i]);
                    lemma_allowed_counts(f1, reps[i]);
                }
            }
        }
        assert forall|x: Index| has_axis(reps, x) implies count_axis(s0, x) == 2 by {
            lemma_common_facts(a1, a2, x);
            lemma_allowed_counts(f1, x);
            lemma_allowed_counts(f2, x);
            lemma_count_concat(a1, a2, x);
            lemma_count_has(a1, x);
            lemma_count_has(a2, x);
        }
        assert forall|x: Index| !has_axis(reps, x) implies count_axis(s0, x) <= 1 by {
            lemma_common_facts(a1, a2, x);
            lemma_allowed_counts(f1, x);
            lemma_allowed_counts(f2, x);
            lemma_count_concat(a1, a2, x);
            lemma_count_has(a1, x);
            lemma_count_has(a2, x);
            lemma_count_basics(a1, x);
            lemma_count_basics(a2, x);
        }
        lemma_cancel_all_counts(s0, reps);

        if rem.len() == 0 {
        } else if rem.len() == 1 {
            assert(crate::registry::is_allowed(Form::Vector(rem[0])));
        } else {
            assert(rem[0] != rem[1]) by {
                if rem[0] == rem[1] {
                    lemma_two_positions(rem, 0, 1);
                }
            }
            assert(has_axis(rem, rem[0]) && has_axis(rem, rem[1])) by {
                lemma_has_axis(rem, rem[0]);
                lemma_has_axis(rem, rem[1]);
            }
            assert(crate::registry::is_allowed(form_of_axes(target_ordering(rem))));
        }
    }
}

} // verus!
