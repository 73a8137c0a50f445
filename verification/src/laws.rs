//! The algebraic laws of the full product.
//!
//! The sign of a product is the combination of the operand signs with a
//! contribution that depends on the forms alone, so the sign halves of the
//! laws follow symbolically from the group structure of sign combination.

use vstd::prelude::*;

use crate::alpha::Alpha;
use crate::sign::spec_combine;
use crate::form::Form;
use crate::index::Index;
use crate::sign::spec_negate;
use crate::sign::Sign;
use crate::product::spec_full_product;

verus! {

/// Idempotence of the point: multiplying any unit by the positive point
/// returns it unchanged, and by the negative point returns the same form
/// under the opposite sign.
pub proof fn lemma_point_identity(a: Alpha)
    ensures
        spec_full_product(a, Alpha { sign: Sign::Pos, form: Form::Point }) == a,
        spec_full_product(a, Alpha { sign: Sign::Neg, form: Form::Point }) == (Alpha {
            sign: spec_negate(a.sign),
            form: a.form,
        }),
        spec_full_product(Alpha { sign: Sign::Pos, form: Form::Point }, a) == a,
{
}

/// The product's form does not depend on the operands' signs, and flipping
/// one operand's sign flips the product's sign.
pub proof fn lemma_sign_linearity(i: Alpha, j: Alpha)
    ensures
        spec_full_product(Alpha { sign: spec_negate(i.sign), form: i.form }, j) == (Alpha {
            sign: spec_negate(spec_full_product(i, j).sign),
            form: spec_full_product(i, j).form,
        }),
        spec_full_product(i, Alpha { sign: spec_negate(j.sign), form: j.form }) == (Alpha {
            sign: spec_negate(spec_full_product(i, j).sign),
            form: spec_full_product(i, j).form,
        }),
{
}

/// Closure: the product form of any two registry forms is itself a
/// registry form, so the sixteen-member registry is closed under the full
/// product and no product ever leaves it.
pub proof fn lemma_product_closed(f1: Form, f2: Form)
    requires
        crate::registry::is_allowed(f1),
        crate::registry::is_allowed(f2),
    ensures
        crate::registry::is_allowed(crate::product::product_form(f1, f2)),
{
    crate::product::lemma_product_form_closed(f1, f2);
}

/// Closure lifted to whole units: the full product of well-formed units is
/// well-formed.
pub proof fn lemma_full_product_wf(i: Alpha, j: Alpha)
    requires
        i.wf(),
        j.wf(),
    ensures
        spec_full_product(i, j).wf(),
{
    lemma_product_closed(i.form, j.form);
}

/// Self-squaring, the form half: every well-formed unit squares to a point,
/// positive or negative; the unit's own sign cancels with itself, so the
/// square's sign is a function of the form alone.
pub proof fn lemma_unit_square(a: Alpha)
    requires
        a.wf(),
    ensures
        spec_full_product(a, a).form == Form::Point,
        spec_full_product(a, a).sign == crate::product::product_sign(a.form, a.form),
{
    crate::product::lemma_square_form_point(a.form);
    crate::sign::lemma_sign_group(a.sign, a.sign, crate::product::product_sign(a.form, a.form));
}

/// Inverse law: the product of any well-formed unit with its inverse is
/// the positive point, whatever sign its square carries.
pub proof fn lemma_inverse_law(a: Alpha)
    requires
        a.wf(),
    ensures
        spec_full_product(a, crate::alpha::spec_inverse(a)) == (Alpha {
            sign: Sign::Pos,
            form: Form::Point,
        }),
{
    crate::product::lemma_square_form_point(a.form);
    let ps = crate::product::product_sign(a.form, a.form);
    crate::sign::lemma_sign_group(a.sign, a.sign, ps);
    crate::sign::lemma_sign_group(a.sign, spec_combine(a.sign, ps), ps);
    crate::sign::lemma_sign_group(spec_combine(a.sign, a.sign), ps, ps);
}

} // verus!

verus! {

/// Anticommutativity off the diagonal: the products of two distinct single
/// axes in either order share a form and carry opposite signs, whatever
/// the operand signs. The two orderings share one axis set, so they share
/// one canonical target; their positionings are the identity and the swap,
/// whose parities differ.
pub proof fn lemma_units_anticommute(i: Index, j: Index, si: Sign, sj: Sign)
    requires
        i != j,
    ensures
        spec_full_product(
            Alpha { sign: si, form: Form::Vector(i) },
            Alpha { sign: sj, form: Form::Vector(j) },
        ).form == spec_full_product(
            Alpha { sign: sj, form: Form::Vector(j) },
            Alpha { sign: si, form: Form::Vector(i) },
        ).form,
        spec_full_product(
            Alpha { sign: si, form: Form::Vector(i) },
            Alpha { sign: sj, form: Form::Vector(j) },
        ).sign == spec_negate(
            spec_full_product(
                Alpha { sign: sj, form: Form::Vector(j) },
                Alpha { sign: si, form: Form::Vector(i) },
            ).sign,
        ),
{
    reveal_with_fuel(crate::product::has_axis, 4);
    reveal_with_fuel(crate::product::first_pos, 4);
    reveal_with_fuel(crate::product::count_lt, 4);
    reveal_with_fuel(crate::product::perm_parity, 3);
    reveal_with_fuel(crate::product::common_axes, 3);
    reveal_with_fuel(crate::product::cancel_all, 2);
    let fi = Form::Vector(i);
    let fj = Form::Vector(j);
    assert(crate::form::form_axes(fi) + crate::form::form_axes(fj) =~= seq![i, j]);
    assert(crate::form::form_axes(fj) + crate::form::form_axes(fi) =~= seq![j, i]);
    assert(crate::product::common_axes(seq![i], seq![j]) =~= Seq::<Index>::empty());
    assert(crate::product::common_axes(seq![j], seq![i]) =~= Seq::<Index>::empty());
    assert(crate::product::cancel_all(seq![i, j], Seq::<Index>::empty()) == (
        Sign::Pos,
        seq![i, j],
    ));
    assert(crate::product::cancel_all(seq![j, i], Seq::<Index>::empty()) == (
        Sign::Pos,
        seq![j, i],
    ));
    assert(crate::product::axes_mask(seq![i, j]) == crate::product::axes_mask(seq![j, i]));
    let t = crate::product::target_ordering(seq![i, j]);
    assert(crate::product::target_ordering(seq![j, i]) == t);
    assert(t == seq![i, j] || t == seq![j, i]);
    let pij = crate::product::positions(seq![i, j], t);
    let pji = crate::product::positions(seq![j, i], t);
    if t == seq![i, j] {
        assert(pij =~= seq![0int, 1int]);
        assert(pji =~= seq![1int, 0int]);
    } else {
        assert(pij =~= seq![1int, 0int]);
        assert(pji =~= seq![0int, 1int]);
    }
    assert(crate::product::perm_parity(seq![0int, 1int]) == Sign::Pos) by {
        assert(crate::product::relabel(seq![0int, 1int].drop_first()) =~= seq![0int]);
    }
    assert(crate::product::perm_parity(seq![1int, 0int]) == Sign::Neg) by {
        assert(crate::product::relabel(seq![1int, 0int].drop_first()) =~= seq![0int]);
    }
    crate::sign::lemma_sign_group(si, sj, crate::product::product_sign(fi, fj));
    crate::sign::lemma_sign_group(sj, si, crate::product::product_sign(fj, fi));
}

} // verus!

verus! {

/// The positive unit on one axis.
pub open spec fn unit_vec(a: Index) -> Alpha {
    Alpha { sign: Sign::Pos, form: Form::Vector(a) }
}

/// The product of three positive single-axis units, multiplied left to
/// right.
pub open spec fn triple_chain(a: Index, b: Index, c: Index) -> Alpha {
    spec_full_product(spec_full_product(unit_vec(a), unit_vec(b)), unit_vec(c))
}
/// The six chains over one axis set, each pinned to its value.
#[verifier::rlimit(100)]
#[verifier::spinoff_prover]
proof fn lemma_triples_012()
    ensures
        triple_chain(Index::Zero, Index::One, Index::Two) == (Alpha { sign: Sign::Pos, form: Form::Trivector(Index::Zero, Index::One, Index::Two) }),
        triple_chain(Index::Zero, Index::Two, Index::One) == (Alpha { sign: Sign::Neg, form: Form::Trivector(Index::Zero, Index::One, Index::Two) }),
        triple_chain(Index::One, Index::Zero, Index::Two) == (Alpha { sign: Sign::Neg, form: Form::Trivector(Index::Zero, Index::One, Index::Two) }),
        triple_chain(Index::One, Index::Two, Index::Zero) == (Alpha { sign: Sign::Pos, form: Form::Trivector(Index::Zero, Index::One, Index::Two) }),
        triple_chain(Index::Two, Index::Zero, Index::One) == (Alpha { sign: Sign::Pos, form: Form::Trivector(Index::Zero, Index::One, Index::Two) }),
        triple_chain(Index::Two, Index::One, Index::Zero) == (Alpha { sign: Sign::Neg, form: Form::Trivector(Index::Zero, Index::One, Index::Two) }),
{
    reveal_with_fuel(crate::product::has_axis, 5);
    reveal_with_fuel(crate::product::first_pos, 5);
    reveal_with_fuel(crate::product::count_lt, 5);
    reveal_with_fuel(crate::product::perm_parity, 4);
    reveal_with_fuel(crate::product::common_axes, 4);
    reveal_with_fuel(crate::product::cancel_all, 2);
        assert(spec_full_product(unit_vec(Index::Zero), unit_vec(Index::One)) == Alpha { sign: Sign::Pos, form: Form::Bivector(Index::Zero, Index::One) }) by {
            assert(crate::form::form_axes(Form::Vector(Index::Zero)) + crate::form::form_axes(Form::Vector(Index::One)) =~= seq![Index::Zero, Index::One]);
            assert(crate::product::common_axes(seq![Index::Zero], seq![Index::One]) =~= Seq::<Index>::empty());
            assert(crate::product::cancel_all(seq![Index::Zero, Index::One], Seq::<Index>::empty()) == (Sign::Pos, seq![Index::Zero, Index::One]));
            assert(crate::product::axes_mask(seq![Index::Zero, Index::One]) == 3);
            assert(crate::product::target_ordering(seq![Index::Zero, Index::One]) =~= seq![Index::Zero, Index::One]);
            assert(crate::product::positions(seq![Index::Zero, Index::One], seq![Index::Zero, Index::One]) =~= seq![0int, 1int]);
            assert(crate::product::relabel(seq![0int, 1int].drop_first()) =~= seq![0int]);
            assert(crate::product::perm_parity(seq![0int, 1int]) == Sign::Pos);
        }
        assert(spec_full_product(Alpha { sign: Sign::Pos, form: Form::Bivector(Index::Zero, Index::One) }, unit_vec(Index::Two)) == Alpha { sign: Sign::Pos, form: Form::Trivector(Index::Zero, Index::One, Index::Two) }) by {
            assert(crate::form::form_axes(Form::Bivector(Index::Zero, Index::One)) + crate::form::form_axes(Form::Vector(Index::Two)) =~= seq![Index::Zero, Index::One, Index::Two]);
            assert(crate::product::common_axes(seq![Index::Zero, Index::One], seq![Index::Two]) =~= Seq::<Index>::empty());
            assert(crate::product::cancel_all(seq![Index::Zero, Index::One, Index::Two], Seq::<Index>::empty()) == (Sign::Pos, seq![Index::Zero, Index::One, Index::Two]));
            assert(crate::product::axes_mask(seq![Index::Zero, Index::One, Index::Two]) == 7);
            assert(crate::product::target_ordering(seq![Index::Zero, Index::One, Index::Two]) =~= seq![Index::Zero, Index::One, Index::Two]);
            assert(crate::product::positions(seq![Index::Zero, Index::One, Index::Two], seq![Index::Zero, Index::One, Index::Two]) =~= seq![0int, 1int, 2int]);
            assert(crate::product::relabel(seq![0int, 1int, 2int].drop_first()) =~= seq![0int, 1int]);
            assert(crate::product::relabel(seq![0int, 1int].drop_first()) =~= seq![0int]);
            assert(crate::product::perm_parity(seq![0int, 1int, 2int]) == Sign::Pos);
        }
        assert(triple_chain(Index::Zero, Index::One, Index::Two) == Alpha { sign: Sign::Pos, form: Form::Trivector(Index::Zero, Index::One, Index::Two) });
        assert(spec_full_product(unit_vec(Index::Zero), unit_vec(Index::Two)) == Alpha { sign: Sign::Pos, form: Form::Bivector(Index::Zero, Index::Two) }) by {
            assert(crate::form::form_axes(Form::Vector(Index::Zero)) + crate::form::form_axes(Form::Vector(Index::Two)) =~= seq![Index::Zero, Index::Two]);
            assert(crate::product::common_axes(seq![Index::Zero], seq![Index::Two]) =~= Seq::<Index>::empty());
            assert(crate::product::cancel_all(seq![Index::Zero, Index::Two], Seq::<Index>::empty()) == (Sign::Pos, seq![Index::Zero, Index::Two]));
            assert(crate::product::axes_mask(seq![Index::Zero, Index::Two]) == 5);
            assert(crate::product::target_ordering(seq![Index::Zero, Index::Two]) =~= seq![Index::Zero, Index::Two]);
            assert(crate::product::positions(seq![Index::Zero, Index::Two], seq![Index::Zero, Index::Two]) =~= seq![0int, 1int]);
            assert(crate::product::relabel(seq![0int, 1int].drop_first()) =~= seq![0int]);
            assert(crate::product::perm_parity(seq![0int, 1int]) == Sign::Pos);
        }
        assert(spec_full_product(Alpha { sign: Sign::Pos, form: Form::Bivector(Index::Zero, Index::Two) }, unit_vec(Index::One)) == Alpha { sign: Sign::Neg, form: Form::Trivector(Index::Zero, Index::One, Index::Two) }) by {
            assert(crate::form::form_axes(Form::Bivector(Index::Zero, Index::Two)) + crate::form::form_axes(Form::Vector(Index::One)) =~= seq![Index::Zero, Index::Two, Index::One]);
            assert(crate::product::common_axes(seq![Index::Zero, Index::Two], seq![Index::One]) =~= Seq::<Index>::empty());
            assert(crate::product::cancel_all(seq![Index::Zero, Index::Two, Index::One], Seq::<Index>::empty()) == (Sign::Pos, seq![Index::Zero, Index::Two, Index::One]));
            assert(crate::product::axes_mask(seq![Index::Zero, Index::Two, Index::One]) == 7);
            assert(crate::product::target_ordering(seq![Index::Zero, Index::Two, Index::One]) =~= seq![Index::Zero, Index::One, Index::Two]);
            assert(crate::product::positions(seq![Index::Zero, Index::Two, Index::One], seq![Index::Zero, Index::One, Index::Two]) =~= seq![0int, 2int, 1int]);
            assert(crate::product::relabel(seq![0int, 2int, 1int].drop_first()) =~= seq![1int, 0int]);
            assert(crate::product::relabel(seq![1int, 0int].drop_first()) =~= seq![0int]);
            assert(crate::product::perm_parity(seq![0int, 2int, 1int]) == Sign::Neg);
        }
        assert(triple_chain(Index::Zero, Index::Two, Index::One) == Alpha { sign: Sign::Neg, form: Form::Trivector(Index::Zero, Index::One, Index::Two) });
        assert(spec_full_product(unit_vec(Index::One), unit_vec(Index::Zero)) == Alpha { sign: Sign::Neg, form: Form::Bivector(Index::Zero, Index::One) }) by {
            assert(crate::form::form_axes(Form::Vector(Index::One)) + crate::form::form_axes(Form::Vector(Index::Zero)) =~= seq![Index::One, Index::Zero]);
            assert(crate::product::common_axes(seq![Index::One], seq![Index::Zero]) =~= Seq::<Index>::empty());
            assert(crate::product::cancel_all(seq![Index::One, Index::Zero], Seq::<Index>::empty()) == (Sign::Pos, seq![Index::One, Index::Zero]));
            assert(crate::product::axes_mask(seq![Index::One, Index::Zero]) == 3);
            assert(crate::product::target_ordering(seq![Index::One, Index::Zero]) =~= seq![Index::Zero, Index::One]);
            assert(crate::product::positions(seq![Index::One, Index::Zero], seq![Index::Zero, Index::One]) =~= seq![1int, 0int]);
            assert(crate::product::relabel(seq![1int, 0int].drop_first()) =~= seq![0int]);
            assert(crate::product::perm_parity(seq![1int, 0int]) == Sign::Neg);
        }
        assert(spec_full_product(Alpha { sign: Sign::Neg, form: Form::Bivector(Index::Zero, Index::One) }, unit_vec(Index::Two)) == Alpha { sign: Sign::Neg, form: Form::Trivector(Index::Zero, Index::One, Index::Two) }) by {
            assert(crate::form::form_axes(Form::Bivector(Index::Zero, Index::One)) + crate::form::form_axes(Form::Vector(Index::Two)) =~= seq![Index::Zero, Index::One, Index::Two]);
            assert(crate::product::common_axes(seq![Index::Zero, Index::One], seq![Index::Two]) =~= Seq::<Index>::empty());
            assert(crate::product::cancel_all(seq![Index::Zero, Index::One, Index::Two], Seq::<Index>::empty()) == (Sign::Pos, seq![Index::Zero, Index::One, Index::Two]));
            assert(crate::product::axes_mask(seq![Index::Zero, Index::One, Index::Two]) == 7);
            assert(crate::product::target_ordering(seq![Index::Zero, Index::One, Index::Two]) =~= seq![Index::Zero, Index::One, Index::Two]);
            assert(crate::product::positions(seq![Index::Zero, Index::One, Index::Two], seq![Index::Zero, Index::One, Index::Two]) =~= seq![0int, 1int, 2int]);
            assert(crate::product::relabel(seq![0int, 1int, 2int].drop_first()) =~= seq![0int, 1int]);
            assert(crate::product::relabel(seq![0int, 1int].drop_first()) =~= seq![0int]);
            assert(crate::product::perm_parity(seq![0int, 1int, 2int]) == Sign::Pos);
        }
        assert(triple_chain(Index::One, Index::Zero, Index::Two) == Alpha { sign: Sign::Neg, form: Form::Trivector(Index::Zero, Index::One, Index::Two) });
        assert(spec_full_product(unit_vec(Index::One), unit_vec(Index::Two)) == Alpha { sign: Sign::Pos, form: Form::Bivector(Index::One, Index::Two) }) by {
            assert(crate::form::form_axes(Form::Vector(Index::One)) + crate::form::form_axes(Form::Vector(Index::Two)) =~= seq![Index::One, Index::Two]);
            assert(crate::product::common_axes(seq![Index::One], seq![Index::Two]) =~= Seq::<Index>::empty());
            assert(crate::product::cancel_all(seq![Index::One, Index::Two], Seq::<Index>::empty()) == (Sign::Pos, seq![Index::One, Index::Two]));
            assert(crate::product::axes_mask(seq![Index::One, Index::Two]) == 6);
            assert(crate::product::target_ordering(seq![Index::One, Index::Two]) =~= seq![Index::One, Index::Two]);
            assert(crate::product::positions(seq![Index::One, Index::Two], seq![Index::One, Index::Two]) =~= seq![0int, 1int]);
            assert(crate::product::relabel(seq![0int, 1int].drop_first()) =~= seq![0int]);
            assert(crate::product::perm_parity(seq![0int, 1int]) == Sign::Pos);
        }
        assert(spec_full_product(Alpha { sign: Sign::Pos, form: Form::Bivector(Index::One, Index::Two) }, unit_vec(Index::Zero)) == Alpha { sign: Sign::Pos, form: Form::Trivector(Index::Zero, Index::One, Index::Two) }) by {
            assert(crate::form::form_axes(Form::Bivector(Index::One, Index::Two)) + crate::form::form_axes(Form::Vector(Index::Zero)) =~= seq![Index::One, Index::Two, Index::Zero]);
            assert(crate::product::common_axes(seq![Index::One, Index::Two], seq![Index::Zero]) =~= Seq::<Index>::empty());
            assert(crate::product::cancel_all(seq![Index::One, Index::Two, Index::Zero], Seq::<Index>::empty()) == (Sign::Pos, seq![Index::One, Index::Two, Index::Zero]));
            assert(crate::product::axes_mask(seq![Index::One, Index::Two, Index::Zero]) == 7);
            assert(crate::product::target_ordering(seq![Index::One, Index::Two, Index::Zero]) =~= seq![Index::Zero, Index::One, Index::Two]);
            assert(crate::product::positions(seq![Index::One, Index::Two, Index::Zero], seq![Index::Zero, Index::One, Index::Two]) =~= seq![1int, 2int, 0int]);
            assert(crate::product::relabel(seq![1int, 2int, 0int].drop_first()) =~= seq![1int, 0int]);
            assert(crate::product::relabel(seq![1int, 0int].drop_first()) =~= seq![0int]);
            assert(crate::product::perm_parity(seq![1int, 2int, 0int]) == Sign::Pos);
        }
        assert(triple_chain(Index::One, Index::Two, Index::Zero) == Alpha { sign: Sign::Pos, form: Form::Trivector(Index::Zero, Index::One, Index::Two) });
        assert(spec_full_product(unit_vec(Index::Two), unit_vec(Index::Zero)) == Alpha { sign: Sign::Neg, form: Form::Bivector(Index::Zero, Index::Two) }) by {
            assert(crate::form::form_axes(Form::Vector(Index::Two)) + crate::form::form_axes(Form::Vector(Index::Zero)) =~= seq![Index::Two, Index::Zero]);
            assert(crate::product::common_axes(seq![Index::Two], seq![Index::Zero]) =~= Seq::<Index>::empty());
            assert(crate::product::cancel_all(seq![Index::Two, Index::Zero], Seq::<Index>::empty()) == (Sign::Pos, seq![Index::Two, Index::Zero]));
            assert(crate::product::axes_mask(seq![Index::Two, Index::Zero]) == 5);
            assert(crate::product::target_ordering(seq![Index::Two, Index::Zero]) =~= seq![Index::Zero, Index::Two]);
            assert(crate::product::positions(seq![Index::Two, Index::Zero], seq![Index::Zero, Index::Two]) =~= seq![1int, 0int]);
            assert(crate::product::relabel(seq![1int, 0int].drop_first()) =~= seq![0int]);
            assert(crate::product::perm_parity(seq![1int, 0int]) == Sign::Neg);
        }
        assert(spec_full_product(Alpha { sign: Sign::Neg, form: Form::Bivector(Index::Zero, Index::Two) }, unit_vec(Index::One)) == Alpha { sign: Sign::Pos, form: Form::Trivector(Index::Zero, Index::One, Index::Two) }) by {
            assert(crate::form::form_axes(Form::Bivector(Index::Zero, Index::Two)) + crate::form::form_axes(Form::Vector(Index::One)) =~= seq![Index::Zero, Index::Two, Index::One]);
            assert(crate::product::common_axes(seq![Index::Zero, Index::Two], seq![Index::One]) =~= Seq::<Index>::empty());
            assert(crate::product::cancel_all(seq![Index::Zero, Index::Two, Index::One], Seq::<Index>::empty()) == (Sign::Pos, seq![Index::Zero, Index::Two, Index::One]));
            assert(crate::product::axes_mask(seq![Index::Zero, Index::Two, Index::One]) == 7);
            assert(crate::product::target_ordering(seq![Index::Zero, Index::Two, Index::One]) =~= seq![Index::Zero, Index::One, Index::Two]);
            assert(crate::product::positions(seq![Index::Zero, Index::Two, Index::One], seq![Index::Zero, Index::One, Index::Two]) =~= seq![0int, 2int, 1int]);
            assert(crate::product::relabel(seq![0int, 2int, 1int].drop_first()) =~= seq![1int, 0int]);
            assert(crate::product::relabel(seq![1int, 0int].drop_first()) =~= seq![0int]);
            assert(crate::product::perm_parity(seq![0int, 2int, 1int]) == Sign::Neg);
        }
        assert(triple_chain(Index::Two, Index::Zero, Index::One) == Alpha { sign: Sign::Pos, form: Form::Trivector(Index::Zero, Index::One, Index::Two) });
        assert(spec_full_product(unit_vec(Index::Two), unit_vec(Index::One)) == Alpha { sign: Sign::Neg, form: Form::Bivector(Index::One, Index::Two) }) by {
            assert(crate::form::form_axes(Form::Vector(Index::Two)) + crate::form::form_axes(Form::Vector(Index::One)) =~= seq![Index::Two, Index::One]);
            assert(crate::product::common_axes(seq![Index::Two], seq![Index::One]) =~= Seq::<Index>::empty());
            assert(crate::product::cancel_all(seq![Index::Two, Index::One], Seq::<Index>::empty()) == (Sign::Pos, seq![Index::Two, Index::One]));
            assert(crate::product::axes_mask(seq![Index::Two, Index::One]) == 6);
            assert(crate::product::target_ordering(seq![Index::Two, Index::One]) =~= seq![Index::One, Index::Two]);
            assert(crate::product::positions(seq![Index::Two, Index::One], seq![Index::One, Index::Two]) =~= seq![1int, 0int]);
            assert(crate::product::relabel(seq![1int, 0int].drop_first()) =~= seq![0int]);
            assert(crate::product::perm_parity(seq![1int, 0int]) == Sign::Neg);
        }
        assert(spec_full_product(Alpha { sign: Sign::Neg, form: Form::Bivector(Index::One, Index::Two) }, unit_vec(Index::Zero)) == Alpha { sign: Sign::Neg, form: Form::Trivector(Index::Zero, Index::One, Index::Two) }) by {
            assert(crate::form::form_axes(Form::Bivector(Index::One, Index::Two)) + crate::form::form_axes(Form::Vector(Index::Zero)) =~= seq![Index::One, Index::Two, Index::Zero]);
            assert(crate::product::common_axes(seq![Index::One, Index::Two], seq![Index::Zero]) =~= Seq::<Index>::empty());
            assert(crate::product::cancel_all(seq![Index::One, Index::Two, Index::Zero], Seq::<Index>::empty()) == (Sign::Pos, seq![Index::One, Index::Two, Index::Zero]));
            assert(crate::product::axes_mask(seq![Index::One, Index::Two, Index::Zero]) == 7);
            assert(crate::product::target_ordering(seq![Index::One, Index::Two, Index::Zero]) =~= seq![Index::Zero, Index::One, Index::Two]);
            assert(crate::product::positions(seq![Index::One, Index::Two, Index::Zero], seq![Index::Zero, Index::One, Index::Two]) =~= seq![1int, 2int, 0int]);
            assert(crate::product::relabel(seq![1int, 2int, 0int].drop_first()) =~= seq![1int, 0int]);
            assert(crate::product::relabel(seq![1int, 0int].drop_first()) =~= seq![0int]);
            assert(crate::product::perm_parity(seq![1int, 2int, 0int]) == Sign::Pos);
        }
        assert(triple_chain(Index::Two, Index::One, Index::Zero) == Alpha { sign: Sign::Neg, form: Form::Trivector(Index::Zero, Index::One, Index::Two) });
}

/// The six chains over one axis set, each pinned to its value.
#[verifier::rlimit(100)]
#[verifier::spinoff_prover]
proof fn lemma_triples_013()
    ensures
        triple_chain(Index::Zero, Index::One, Index::Three) == (Alpha { sign: Sign::Neg, form: Form::Trivector(Index::Zero, Index::Three, Index::One) }),
        triple_chain(Index::Zero, Index::Three, Index::One) == (Alpha { sign: Sign::Pos, form: Form::Trivector(Index::Zero, Index::Three, Index::One) }),
        triple_chain(Index::One, Index::Zero, Index::Three) == (Alpha { sign: Sign::Pos, form: Form::Trivector(Index::Zero, Index::Three, Index::One) }),
        triple_chain(Index::One, Index::Three, Index::Zero) == (Alpha { sign: Sign::Neg, form: Form::Trivector(Index::Zero, Index::Three, Index::One) }),
        triple_chain(Index::Three, Index::Zero, Index::One) == (Alpha { sign: Sign::Neg, form: Form::Trivector(Index::Zero, Index::Three, Index::One) }),
        triple_chain(Index::Three, Index::One, Index::Zero) == (Alpha { sign: Sign::Pos, form: Form::Trivector(Index::Zero, Index::Three, Index::One) }),
{
    reveal_with_fuel(crate::product::has_axis, 5);
    reveal_with_fuel(crate::product::first_pos, 5);
    reveal_with_fuel(crate::product::count_lt, 5);
    reveal_with_fuel(crate::product::perm_parity, 4);
    reveal_with_fuel(crate::product::common_axes, 4);
    reveal_with_fuel(crate::product::cancel_all, 2);
        assert(spec_full_product(unit_vec(Index::Zero), unit_vec(Index::One)) == Alpha { sign: Sign::Pos, form: Form::Bivector(Index::Zero, Index::One) }) by {
            assert(crate::form::form_axes(Form::Vector(Index::Zero)) + crate::form::form_axes(Form::Vector(Index::One)) =~= seq![Index::Zero, Index::One]);
            assert(crate::product::common_axes(seq![Index::Zero], seq![Index::One]) =~= Seq::<Index>::empty());
            assert(crate::product::cancel_all(seq![Index::Zero, Index::One], Seq::<Index>::empty()) == (Sign::Pos, seq![Index::Zero, Index::One]));
            assert(crate::product::axes_mask(seq![Index::Zero, Index::One]) == 3);
            assert(crate::product::target_ordering(seq![Index::Zero, Index::One]) =~= seq![Index::Zero, Index::One]);
            assert(crate::product::positions(seq![Index::Zero, Index::One], seq![Index::Zero, Index::One]) =~= seq![0int, 1int]);
            assert(crate::product::relabel(seq![0int, 1int].drop_first()) =~= seq![0int]);
            assert(crate::product::perm_parity(seq![0int, 1int]) == Sign::Pos);
        }
        assert(spec_full_product(Alpha { sign: Sign::Pos, form: Form::Bivector(Index::Zero, Index::One) }, unit_vec(Index::Three)) == Alpha { sign: Sign::Neg, form: Form::Trivector(Index::Zero, Index::Three, Index::One) }) by {
            assert(crate::form::form_axes(Form::Bivector(Index::Zero, Index::One)) + crate::form::form_axes(Form::Vector(Index::Three)) =~= seq![Index::Zero, Index::One, Index::Three]);
            assert(crate::product::common_axes(seq![Index::Zero, Index::One], seq![Index::Three]) =~= Seq::<Index>::empty());
            assert(crate::product::cancel_all(seq![Index::Zero, Index::One, Index::Three], Seq::<Index>::empty()) == (Sign::Pos, seq![Index::Zero, Index::One, Index::Three]));
            assert(crate::product::axes_mask(seq![Index::Zero, Index::One, Index::Three]) == 11);
            assert(crate::product::target_ordering(seq![Index::Zero, Index::One, Index::Three]) =~= seq![Index::Zero, Index::Three, Index::One]);
            assert(crate::product::positions(seq![Index::Zero, Index::One, Index::Three], seq![Index::Zero, Index::Three, Index::One]) =~= seq![0int, 2int, 1int]);
            assert(crate::product::relabel(seq![0int, 2int, 1int].drop_first()) =~= seq![1int, 0int]);
            assert(crate::product::relabel(seq![1int, 0int].drop_first()) =~= seq![0int]);
            assert(crate::product::perm_parity(seq![0int, 2int, 1int]) == Sign::Neg);
        }
        assert(triple_chain(Index::Zero, Index::One, Index::Three) == Alpha { sign: Sign::Neg, form: Form::Trivector(Index::Zero, Index::Three, Index::One) });
        assert(spec_full_product(unit_vec(Index::Zero), unit_vec(Index::Three)) == Alpha { sign: Sign::Pos, form: Form::Bivector(Index::Zero, Index::Three) }) by {
            assert(crate::form::form_axes(Form::Vector(Index::Zero)) + crate::form::form_axes(Form::Vector(Index::Three)) =~= seq![Index::Zero, Index::Three]);
            assert(crate::product::common_axes(seq![Index::Zero], seq![Index::Three]) =~= Seq::<Index>::empty());
            assert(crate::product::cancel_all(seq![Index::Zero, Index::Three], Seq::<Index>::empty()) == (Sign::Pos, seq![Index::Zero, Index::Three]));
            assert(crate::product::axes_mask(seq![Index::Zero, Index::Three]) == 9);
            assert(crate::product::target_ordering(seq![Index::Zero, Index::Three]) =~= seq![Index::Zero, Index::Three]);
            assert(crate::product::positions(seq![Index::Zero, Index::Three], seq![Index::Zero, Index::Three]) =~= seq![0int, 1int]);
            assert(crate::product::relabel(seq![0int, 1int].drop_first()) =~= seq![0int]);
            assert(crate::product::perm_parity(seq![0int, 1int]) == Sign::Pos);
        }
        assert(spec_full_product(Alpha { sign: Sign::Pos, form: Form::Bivector(Index::Zero, Index::Three) }, unit_vec(Index::One)) == Alpha { sign: Sign::Pos, form: Form::Trivector(Index::Zero, Index::Three, Index::One) }) by {
            assert(crate::form::form_axes(Form::Bivector(Index::Zero, Index::Three)) + crate::form::form_axes(Form::Vector(Index::One)) =~= seq![Index::Zero, Index::Three, Index::One]);
            assert(crate::product::common_axes(seq![Index::Zero, Index::Three], seq![Index::One]) =~= Seq::<Index>::empty());
            assert(crate::product::cancel_all(seq![Index::Zero, Index::Three, Index::One], Seq::<Index>::empty()) == (Sign::Pos, seq![Index::Zero, Index::Three, Index::One]));
            assert(crate::product::axes_mask(seq![Index::Zero, Index::Three, Index::One]) == 11);
            assert(crate::product::target_ordering(seq![Index::Zero, Index::Three, Index::One]) =~= seq![Index::Zero, Index::Three, Index::One]);
            assert(crate::product::positions(seq![Index::Zero, Index::Three, Index::One], seq![Index::Zero, Index::Three, Index::One]) =~= seq![0int, 1int, 2int]);
            assert(crate::product::relabel(seq![0int, 1int, 2int].drop_first()) =~= seq![0int, 1int]);
            assert(crate::product::relabel(seq![0int, 1int].drop_first()) =~= seq![0int]);
            assert(crate::product::perm_parity(seq![0int, 1int, 2int]) == Sign::Pos);
        }
        assert(triple_chain(Index::Zero, Index::Three, Index::One) == Alpha { sign: Sign::Pos, form: Form::Trivector(Index::Zero, Index::Three, Index::One) });
        assert(spec_full_product(unit_vec(Index::One), unit_vec(Index::Zero)) == Alpha { sign: Sign::Neg, form: Form::Bivector(Index::Zero, Index::One) }) by {
            assert(crate::form::form_axes(Form::Vector(Index::One)) + crate::form::form_axes(Form::Vector(Index::Zero)) =~= seq![Index::One, Index::Zero]);
            assert(crate::product::common_axes(seq![Index::One], seq![Index::Zero]) =~= Seq::<Index>::empty());
            assert(crate::product::cancel_all(seq![Index::One, Index::Zero], Seq::<Index>::empty()) == (Sign::Pos, seq![Index::One, Index::Zero]));
            assert(crate::product::axes_mask(seq![Index::One, Index::Zero]) == 3);
            assert(crate::product::target_ordering(seq![Index::One, Index::Zero]) =~= seq![Index::Zero, Index::One]);
            assert(crate::product::positions(seq![Index::One, Index::Zero], seq![Index::Zero, Index::One]) =~= seq![1int, 0int]);
            assert(crate::product::relabel(seq![1int, 0int].drop_first()) =~= seq![0int]);
            assert(crate::product::perm_parity(seq![1int, 0int]) == Sign::Neg);
        }
        assert(spec_full_product(Alpha { sign: Sign::Neg, form: Form::Bivector(Index::Zero, Index::One) }, unit_vec(Index::Three)) == Alpha { sign: Sign::Pos, form: Form::Trivector(Index::Zero, Index::Three, Index::One) }) by {
            assert(crate::form::form_axes(Form::Bivector(Index::Zero, Index::One)) + crate::form::form_axes(Form::Vector(Index::Three)) =~= seq![Index::Zero, Index::One, Index::Three]);
            assert(crate::product::common_axes(seq![Index::Zero, Index::One], seq![Index::Three]) =~= Seq::<Index>::empty());
            assert(crate::product::cancel_all(seq![Index::Zero, Index::One, Index::Three], Seq::<Index>::empty()) == (Sign::Pos, seq![Index::Zero, Index::One, Index::Three]));
            assert(crate::product::axes_mask(seq![Index::Zero, Index::One, Index::Three]) == 11);
            assert(crate::product::target_ordering(seq![Index::Zero, Index::One, Index::Three]) =~= seq![Index::Zero, Index::Three, Index::One]);
            assert(crate::product::positions(seq![Index::Zero, Index::One, Index::Three], seq![Index::Zero, Index::Three, Index::One]) =~= seq![0int, 2int, 1int]);
            assert(crate::product::relabel(seq![0int, 2int, 1int].drop_first()) =~= seq![1int, 0int]);
            assert(crate::product::relabel(seq![1int, 0int].drop_first()) =~= seq![0int]);
            assert(crate::product::perm_parity(seq![0int, 2int, 1int]) == Sign::Neg);
        }
        assert(triple_chain(Index::One, Index::Zero, Index::Three) == Alpha { sign: Sign::Pos, form: Form::Trivector(Index::Zero, Index::Three, Index::One) });
        assert(spec_full_product(unit_vec(Index::One), unit_vec(Index::Three)) == Alpha { sign: Sign::Neg, form: Form::Bivector(Index::Three, Index::One) }) by {
            assert(crate::form::form_axes(Form::Vector(Index::One)) + crate::form::form_axes(Form::Vector(Index::Three)) =~= seq![Index::One, Index::Three]);
            assert(crate::product::common_axes(seq![Index::One], seq![Index::Three]) =~= Seq::<Index>::empty());
            assert(crate::product::cancel_all(seq![Index::One, Index::Three], Seq::<Index>::empty()) == (Sign::Pos, seq![Index::One, Index::Three]));
            assert(crate::product::axes_mask(seq![Index::One, Index::Three]) == 10);
            assert(crate::product::target_ordering(seq![Index::One, Index::Three]) =~= seq![Index::Three, Index::One]);
            assert(crate::product::positions(seq![Index::One, Index::Three], seq![Index::Three, Index::One]) =~= seq![1int, 0int]);
            assert(crate::product::relabel(seq![1int, 0int].drop_first()) =~= seq![0int]);
            assert(crate::product::perm_parity(seq![1int, 0int]) == Sign::Neg);
        }
        assert(spec_full_product(Alpha { sign: Sign::Neg, form: Form::Bivector(Index::Three, Index::One) }, unit_vec(Index::Zero)) == Alpha { sign: Sign::Neg, form: Form::Trivector(Index::Zero, Index::Three, Index::One) }) by {
            assert(crate::form::form_axes(Form::Bivector(Index::Three, Index::One)) + crate::form::form_axes(Form::Vector(Index::Zero)) =~= seq![Index::Three, Index::One, Index::Zero]);
            assert(crate::product::common_axes(seq![Index::Three, Index::One], seq![Index::Zero]) =~= Seq::<Index>::empty());
            assert(crate::product::cancel_all(seq![Index::Three, Index::One, Index::Zero], Seq::<Index>::empty()) == (Sign::Pos, seq![Index::Three, Index::One, Index::Zero]));
            assert(crate::product::axes_mask(seq![Index::Three, Index::One, Index::Zero]) == 11);
            assert(crate::product::target_ordering(seq![Index::Three, Index::One, Index::Zero]) =~= seq![Index::Zero, Index::Three, Index::One]);
            assert(crate::product::positions(seq![Index::Three, Index::One, Index::Zero], seq![Index::Zero, Index::Three, Index::One]) =~= seq![1int, 2int, 0int]);
            assert(crate::product::relabel(seq![1int, 2int, 0int].drop_first()) =~= seq![1int, 0int]);
            assert(crate::product::relabel(seq![1int, 0int].drop_first()) =~= seq![0int]);
            assert(crate::product::perm_parity(seq![1int, 2int, 0int]) == Sign::Pos);
        }
        assert(triple_chain(Index::One, Index::Three, Index::Zero) == Alpha { sign: Sign::Neg, form: Form::Trivector(Index::Zero, Index::Three, Index::One) });
        assert(spec_full_product(unit_vec(Index::Three), unit_vec(Index::Zero)) == Alpha { sign: Sign::Neg, form: Form::Bivector(Index::Zero, Index::Three) }) by {
            assert(crate::form::form_axes(Form::Vector(Index::Three)) + crate::form::form_axes(Form::Vector(Index::Zero)) =~= seq![Index::Three, Index::Zero]);
            assert(crate::product::common_axes(seq![Index::Three], seq![Index::Zero]) =~= Seq::<Index>::empty());
            assert(crate::product::cancel_all(seq![Index::Three, Index::Zero], Seq::<Index>::empty()) == (Sign::Pos, seq![Index::Three, Index::Zero]));
            assert(crate::product::axes_mask(seq![Index::Three, Index::Zero]) == 9);
            assert(crate::product::target_ordering(seq![Index::Three, Index::Zero]) =~= seq![Index::Zero, Index::Three]);
            assert(crate::product::positions(seq![Index::Three, Index::Zero], seq![Index::Zero, Index::Three]) =~= seq![1int, 0int]);
            assert(crate::product::relabel(seq![1int, 0int].drop_first()) =~= seq![0int]);
            assert(crate::product::perm_parity(seq![1int, 0int]) == Sign::Neg);
        }
        assert(spec_full_product(Alpha { sign: Sign::Neg, form: Form::Bivector(Index::Zero, Index::Three) }, unit_vec(Index::One)) == Alpha { sign: Sign::Neg, form: Form::Trivector(Index::Zero, Index::Three, Index::One) }) by {
            assert(crate::form::form_axes(Form::Bivector(Index::Zero, Index::Three)) + crate::form::form_axes(Form::Vector(Index::One)) =~= seq![Index::Zero, Index::Three, Index::One]);
            assert(crate::product::common_axes(seq![Index::Zero, Index::Three], seq![Index::One]) =~= Seq::<Index>::empty());
            assert(crate::product::cancel_all(seq![Index::Zero, Index::Three, Index::One], Seq::<Index>::empty()) == (Sign::Pos, seq![Index::Zero, Index::Three, Index::One]));
            assert(crate::product::axes_mask(seq![Index::Zero, Index::Three, Index::One]) == 11);
            assert(crate::product::target_ordering(seq![Index::Zero, Index::Three, Index::One]) =~= seq![Index::Zero, Index::Three, Index::One]);
            assert(crate::product::positions(seq![Index::Zero, Index::Three, Index::One], seq![Index::Zero, Index::Three, Index::One]) =~= seq![0int, 1int, 2int]);
            assert(crate::product::relabel(seq![0int, 1int, 2int].drop_first()) =~= seq![0int, 1int]);
            assert(crate::product::relabel(seq![0int, 1int].drop_first()) =~= seq![0int]);
            assert(crate::product::perm_parity(seq![0int, 1int, 2int]) == Sign::Pos);
        }
        assert(triple_chain(Index::Three, Index::Zero, Index::One) == Alpha { sign: Sign::Neg, form: Form::Trivector(Index::Zero, Index::Three, Index::One) });
        assert(spec_full_product(unit_vec(Index::Three), unit_vec(Index::One)) == Alpha { sign: Sign::Pos, form: Form::Bivector(Index::Three, Index::One) }) by {
            assert(crate::form::form_axes(Form::Vector(Index::Three)) + crate::form::form_axes(Form::Vector(Index::One)) =~= seq![Index::Three, Index::One]);
            assert(crate::product::common_axes(seq![Index::Three], seq![Index::One]) =~= Seq::<Index>::empty());
            assert(crate::product::cancel_all(seq![Index::Three, Index::One], Seq::<Index>::empty()) == (Sign::Pos, seq![Index::Three, Index::One]));
            assert(crate::product::axes_mask(seq![Index::Three, Index::One]) == 10);
            assert(crate::product::target_ordering(seq![Index::Three, Index::One]) =~= seq![Index::Three, Index::One]);
            assert(crate::product::positions(seq![Index::Three, Index::One], seq![Index::Three, Index::One]) =~= seq![0int, 1int]);
            assert(crate::product::relabel(seq![0int, 1int].drop_first()) =~= seq![0int]);
            assert(crate::product::perm_parity(seq![0int, 1int]) == Sign::Pos);
        }
        assert(spec_full_product(Alpha { sign: Sign::Pos, form: Form::Bivector(Index::Three, Index::One) }, unit_vec(Index::Zero)) == Alpha { sign: Sign::Pos, form: Form::Trivector(Index::Zero, Index::Three, Index::One) }) by {
            assert(crate::form::form_axes(Form::Bivector(Index::Three, Index::One)) + crate::form::form_axes(Form::Vector(Index::Zero)) =~= seq![Index::Three, Index::One, Index::Zero]);
            assert(crate::product::common_axes(seq![Index::Three, Index::One], seq![Index::Zero]) =~= Seq::<Index>::empty());
            assert(crate::product::cancel_all(seq![Index::Three, Index::One, Index::Zero], Seq::<Index>::empty()) == (Sign::Pos, seq![Index::Three, Index::One, Index::Zero]));
            assert(crate::product::axes_mask(seq![Index::Three, Index::One, Index::Zero]) == 11);
            assert(crate::product::target_ordering(seq![Index::Three, Index::One, Index::Zero]) =~= seq![Index::Zero, Index::Three, Index::One]);
            assert(crate::product::positions(seq![Index::Three, Index::One, Index::Zero], seq![Index::Zero, Index::Three, Index::One]) =~= seq![1int, 2int, 0int]);
            assert(crate::product::relabel(seq![1int, 2int, 0int].drop_first()) =~= seq![1int, 0int]);
            assert(crate::product::relabel(seq![1int, 0int].drop_first()) =~= seq![0int]);
            assert(crate::product::perm_parity(seq![1int, 2int, 0int]) == Sign::Pos);
        }
        assert(triple_chain(Index::Three, Index::One, Index::Zero) == Alpha { sign: Sign::Pos, form: Form::Trivector(Index::Zero, Index::Three, Index::One) });
}

/// The six chains over one axis set, each pinned to its value.
#[verifier::rlimit(100)]
#[verifier::spinoff_prover]
proof fn lemma_triples_023()
    ensures
        triple_chain(Index::Zero, Index::Two, Index::Three) == (Alpha { sign: Sign::Pos, form: Form::Trivector(Index::Zero, Index::Two, Index::Three) }),
        triple_chain(Index::Zero, Index::Three, Index::Two) == (Alpha { sign: Sign::Neg, form: Form::Trivector(Index::Zero, Index::Two, Index::Three) }),
        triple_chain(Index::Two, Index::Zero, Index::Three) == (Alpha { sign: Sign::Neg, form: Form::Trivector(Index::Zero, Index::Two, Index::Three) }),
        triple_chain(Index::Two, Index::Three, Index::Zero) == (Alpha { sign: Sign::Pos, form: Form::Trivector(Index::Zero, Index::Two, Index::Three) }),
        triple_chain(Index::Three, Index::Zero, Index::Two) == (Alpha { sign: Sign::Pos, form: Form::Trivector(Index::Zero, Index::Two, Index::Three) }),
        triple_chain(Index::Three, Index::Two, Index::Zero) == (Alpha { sign: Sign::Neg, form: Form::Trivector(Index::Zero, Index::Two, Index::Three) }),
{
    reveal_with_fuel(crate::product::has_axis, 5);
    reveal_with_fuel(crate::product::first_pos, 5);
    reveal_with_fuel(crate::product::count_lt, 5);
    reveal_with_fuel(crate::product::perm_parity, 4);
    reveal_with_fuel(crate::product::common_axes, 4);
    reveal_with_fuel(crate::product::cancel_all, 2);
        assert(spec_full_product(unit_vec(Index::Zero), unit_vec(Index::Two)) == Alpha { sign: Sign::Pos, form: Form::Bivector(Index::Zero, Index::Two) }) by {
            assert(crate::form::form_axes(Form::Vector(Index::Zero)) + crate::form::form_axes(Form::Vector(Index::Two)) =~= seq![Index::Zero, Index::Two]);
            assert(crate::product::common_axes(seq![Index::Zero], seq![Index::Two]) =~= Seq::<Index>::empty());
            assert(crate::product::cancel_all(seq![Index::Zero, Index::Two], Seq::<Index>::empty()) == (Sign::Pos, seq![Index::Zero, Index::Two]));
            assert(crate::product::axes_mask(seq![Index::Zero, Index::Two]) == 5);
            assert(crate::product::target_ordering(seq![Index::Zero, Index::Two]) =~= seq![Index::Zero, Index::Two]);
            assert(crate::product::positions(seq![Index::Zero, Index::Two], seq![Index::Zero, Index::Two]) =~= seq![0int, 1int]);
            assert(crate::product::relabel(seq![0int, 1int].drop_first()) =~= seq![0int]);
            assert(crate::product::perm_parity(seq![0int, 1int]) == Sign::Pos);
        }
        assert(spec_full_product(Alpha { sign: Sign::Pos, form: Form::Bivector(Index::Zero, Index::Two) }, unit_vec(Index::Three)) == Alpha { sign: Sign::Pos, form: Form::Trivector(Index::Zero, Index::Two, Index::Three) }) by {
            assert(crate::form::form_axes(Form::Bivector(Index::Zero, Index::Two)) + crate::form::form_axes(Form::Vector(Index::Three)) =~= seq![Index::Zero, Index::Two, Index::Three]);
            assert(crate::product::common_axes(seq![Index::Zero, Index::Two], seq![Index::Three]) =~= Seq::<Index>::empty());
            assert(crate::product::cancel_all(seq![Index::Zero, Index::Two, Index::Three], Seq::<Index>::empty()) == (Sign::Pos, seq![Index::Zero, Index::Two, Index::Three]));
            assert(crate::product::axes_mask(seq![Index::Zero, Index::Two, Index::Three]) == 13);
            assert(crate::product::target_ordering(seq![Index::Zero, Index::Two, Index::Three]) =~= seq![Index::Zero, Index::Two, Index::Three]);
            assert(crate::product::positions(seq![Index::Zero, Index::Two, Index::Three], seq![Index::Zero, Index::Two, Index::Three]) =~= seq![0int, 1int, 2int]);
            assert(crate::product::relabel(seq![0int, 1int, 2int].drop_first()) =~= seq![0int, 1int]);
            assert(crate::product::relabel(seq![0int, 1int].drop_first()) =~= seq![0int]);
            assert(crate::product::perm_parity(seq![0int, 1int, 2int]) == Sign::Pos);
        }
        assert(triple_chain(Index::Zero, Index::Two, Index::Three) == Alpha { sign: Sign::Pos, form: Form::Trivector(Index::Zero, Index::Two, Index::Three) });
        assert(spec_full_product(unit_vec(Index::Zero), unit_vec(Index::Three)) == Alpha { sign: Sign::Pos, form: Form::Bivector(Index::Zero, Index::Three) }) by {
            assert(crate::form::form_axes(Form::Vector(Index::Zero)) + crate::form::form_axes(Form::Vector(Index::Three)) =~= seq![Index::Zero, Index::Three]);
            assert(crate::product::common_axes(seq![Index::Zero], seq![Index::Three]) =~= Seq::<Index>::empty());
            assert(crate::product::cancel_all(seq![Index::Zero, Index::Three], Seq::<Index>::empty()) == (Sign::Pos, seq![Index::Zero, Index::Three]));
            assert(crate::product::axes_mask(seq![Index::Zero, Index::Three]) == 9);
            assert(crate::product::target_ordering(seq![Index::Zero, Index::Three]) =~= seq![Index::Zero, Index::Three]);
            assert(crate::product::positions(seq![Index::Zero, Index::Three], seq![Index::Zero, Index::Three]) =~= seq![0int, 1int]);
            assert(crate::product::relabel(seq![0int, 1int].drop_first()) =~= seq![0int]);
            assert(crate::product::perm_parity(seq![0int, 1int]) == Sign::Pos);
        }
        assert(spec_full_product(Alpha { sign: Sign::Pos, form: Form::Bivector(Index::Zero, Index::Three) }, unit_vec(Index::Two)) == Alpha { sign: Sign::Neg, form: Form::Trivector(Index::Zero, Index::Two, Index::Three) }) by {
            assert(crate::form::form_axes(Form::Bivector(Index::Zero, Index::Three)) + crate::form::form_axes(Form::Vector(Index::Two)) =~= seq![Index::Zero, Index::Three, Index::Two]);
            assert(crate::product::common_axes(seq![Index::Zero, Index::Three], seq![Index::Two]) =~= Seq::<Index>::empty());
            assert(crate::product::cancel_all(seq![Index::Zero, Index::Three, Index::Two], Seq::<Index>::empty()) == (Sign::Pos, seq![Index::Zero, Index::Three, Index::Two]));
            assert(crate::product::axes_mask(seq![Index::Zero, Index::Three, Index::Two]) == 13);
            assert(crate::product::target_ordering(seq![Index::Zero, Index::Three, Index::Two]) =~= seq![Index::Zero, Index::Two, Index::Three]);
            assert(crate::product::positions(seq![Index::Zero, Index::Three, Index::Two], seq![Index::Zero, Index::Two, Index::Three]) =~= seq![0int, 2int, 1int]);
            assert(crate::product::relabel(seq![0int, 2int, 1int].drop_first()) =~= seq![1int, 0int]);
            assert(crate::product::relabel(seq![1int, 0int].drop_first()) =~= seq![0int]);
            assert(crate::product::perm_parity(seq![0int, 2int, 1int]) == Sign::Neg);
        }
        assert(triple_chain(Index::Zero, Index::Three, Index::Two) == Alpha { sign: Sign::Neg, form: Form::Trivector(Index::Zero, Index::Two, Index::Three) });
        assert(spec_full_product(unit_vec(Index::Two), unit_vec(Index::Zero)) == Alpha { sign: Sign::Neg, form: Form::Bivector(Index::Zero, Index::Two) }) by {
            assert(crate::form::form_axes(Form::Vector(Index::Two)) + crate::form::form_axes(Form::Vector(Index::Zero)) =~= seq![Index::Two, Index::Zero]);
            assert(crate::product::common_axes(seq![Index::Two], seq![Index::Zero]) =~= Seq::<Index>::empty());
            assert(crate::product::cancel_all(seq![Index::Two, Index::Zero], Seq::<Index>::empty()) == (Sign::Pos, seq![Index::Two, Index::Zero]));
            assert(crate::product::axes_mask(seq![Index::Two, Index::Zero]) == 5);
            assert(crate::product::target_ordering(seq![Index::Two, Index::Zero]) =~= seq![Index::Zero, Index::Two]);
            assert(crate::product::positions(seq![Index::Two, Index::Zero], seq![Index::Zero, Index::Two]) =~= seq![1int, 0int]);
            assert(crate::product::relabel(seq![1int, 0int].drop_first()) =~= seq![0int]);
            assert(crate::product::perm_parity(seq![1int, 0int]) == Sign::Neg);
        }
        assert(spec_full_product(Alpha { sign: Sign::Neg, form: Form::Bivector(Index::Zero, Index::Two) }, unit_vec(Index::Three)) == Alpha { sign: Sign::Neg, form: Form::Trivector(Index::Zero, Index::Two, Index::Three) }) by {
            assert(crate::form::form_axes(Form::Bivector(Index::Zero, Index::Two)) + crate::form::form_axes(Form::Vector(Index::Three)) =~= seq![Index::Zero, Index::Two, Index::Three]);
            assert(crate::product::common_axes(seq![Index::Zero, Index::Two], seq![Index::Three]) =~= Seq::<Index>::empty());
            assert(crate::product::cancel_all(seq![Index::Zero, Index::Two, Index::Three], Seq::<Index>::empty()) == (Sign::Pos, seq![Index::Zero, Index::Two, Index::Three]));
            assert(crate::product::axes_mask(seq![Index::Zero, Index::Two, Index::Three]) == 13);
            assert(crate::product::target_ordering(seq![Index::Zero, Index::Two, Index::Three]) =~= seq![Index::Zero, Index::Two, Index::Three]);
            assert(crate::product::positions(seq![Index::Zero, Index::Two, Index::Three], seq![Index::Zero, Index::Two, Index::Three]) =~= seq![0int, 1int, 2int]);
            assert(crate::product::relabel(seq![0int, 1int, 2int].drop_first()) =~= seq![0int, 1int]);
            assert(crate::product::relabel(seq![0int, 1int].drop_first()) =~= seq![0int]);
            assert(crate::product::perm_parity(seq![0int, 1int, 2int]) == Sign::Pos);
        }
        assert(triple_chain(Index::Two, Index::Zero, Index::Three) == Alpha { sign: Sign::Neg, form: Form::Trivector(Index::Zero, Index::Two, Index::Three) });
        assert(spec_full_product(unit_vec(Index::Two), unit_vec(Index::Three)) == Alpha { sign: Sign::Pos, form: Form::Bivector(Index::Two, Index::Three) }) by {
            assert(crate::form::form_axes(Form::Vector(Index::Two)) + crate::form::form_axes(Form::Vector(Index::Three)) =~= seq![Index::Two, Index::Three]);
            assert(crate::product::common_axes(seq![Index::Two], seq![Index::Three]) =~= Seq::<Index>::empty());
            assert(crate::product::cancel_all(seq![Index::Two, Index::Three], Seq::<Index>::empty()) == (Sign::Pos, seq![Index::Two, Index::Three]));
            assert(crate::product::axes_mask(seq![Index::Two, Index::Three]) == 12);
            assert(crate::product::target_ordering(seq![Index::Two, Index::Three]) =~= seq![Index::Two, Index::Three]);
            assert(crate::product::positions(seq![Index::Two, Index::Three], seq![Index::Two, Index::Three]) =~= seq![0int, 1int]);
            assert(crate::product::relabel(seq![0int, 1int].drop_first()) =~= seq![0int]);
            assert(crate::product::perm_parity(seq![0int, 1int]) == Sign::Pos);
        }
        assert(spec_full_product(Alpha { sign: Sign::Pos, form: Form::Bivector(Index::Two, Index::Three) }, unit_vec(Index::Zero)) == Alpha { sign: Sign::Pos, form: Form::Trivector(Index::Zero, Index::Two, Index::Three) }) by {
            assert(crate::form::form_axes(Form::Bivector(Index::Two, Index::Three)) + crate::form::form_axes(Form::Vector(Index::Zero)) =~= seq![Index::Two, Index::Three, Index::Zero]);
            assert(crate::product::common_axes(seq![Index::Two, Index::Three], seq![Index::Zero]) =~= Seq::<Index>::empty());
            assert(crate::product::cancel_all(seq![Index::Two, Index::Three, Index::Zero], Seq::<Index>::empty()) == (Sign::Pos, seq![Index::Two, Index::Three, Index::Zero]));
            assert(crate::product::axes_mask(seq![Index::Two, Index::Three, Index::Zero]) == 13);
            assert(crate::product::target_ordering(seq![Index::Two, Index::Three, Index::Zero]) =~= seq![Index::Zero, Index::Two, Index::Three]);
            assert(crate::product::positions(seq![Index::Two, Index::Three, Index::Zero], seq![Index::Zero, Index::Two, Index::Three]) =~= seq![1int, 2int, 0int]);
            assert(crate::product::relabel(seq![1int, 2int, 0int].drop_first()) =~= seq![1int, 0int]);
            assert(crate::product::relabel(seq![1int, 0int].drop_first()) =~= seq![0int]);
            assert(crate::product::perm_parity(seq![1int, 2int, 0int]) == Sign::Pos);
        }
        assert(triple_chain(Index::Two, Index::Three, Index::Zero) == Alpha { sign: Sign::Pos, form: Form::Trivector(Index::Zero, Index::Two, Index::Three) });
        assert(spec_full_product(unit_vec(Index::Three), unit_vec(Index::Zero)) == Alpha { sign: Sign::Neg, form: Form::Bivector(Index::Zero, Index::Three) }) by {
            assert(crate::form::form_axes(Form::Vector(Index::Three)) + crate::form::form_axes(Form::Vector(Index::Zero)) =~= seq![Index::Three, Index::Zero]);
            assert(crate::product::common_axes(seq![Index::Three], seq![Index::Zero]) =~= Seq::<Index>::empty());
            assert(crate::product::cancel_all(seq![Index::Three, Index::Zero], Seq::<Index>::empty()) == (Sign::Pos, seq![Index::Three, Index::Zero]));
            assert(crate::product::axes_mask(seq![Index::Three, Index::Zero]) == 9);
            assert(crate::product::target_ordering(seq![Index::Three, Index::Zero]) =~= seq![Index::Zero, Index::Three]);
            assert(crate::product::positions(seq![Index::Three, Index::Zero], seq![Index::Zero, Index::Three]) =~= seq![1int, 0int]);
            assert(crate::product::relabel(seq![1int, 0int].drop_first()) =~= seq![0int]);
            assert(crate::product::perm_parity(seq![1int, 0int]) == Sign::Neg);
        }
        assert(spec_full_product(Alpha { sign: Sign::Neg, form: Form::Bivector(Index::Zero, Index::Three) }, unit_vec(Index::Two)) == Alpha { sign: Sign::Pos, form: Form::Trivector(Index::Zero, Index::Two, Index::Three) }) by {
            assert(crate::form::form_axes(Form::Bivector(Index::Zero, Index::Three)) + crate::form::form_axes(Form::Vector(Index::Two)) =~= seq![Index::Zero, Index::Three, Index::Two]);
            assert(crate::product::common_axes(seq![Index::Zero, Index::Three], seq![Index::Two]) =~= Seq::<Index>::empty());
            assert(crate::product::cancel_all(seq![Index::Zero, Index::Three, Index::Two], Seq::<Index>::empty()) == (Sign::Pos, seq![Index::Zero, Index::Three, Index::Two]));
            assert(crate::product::axes_mask(seq![Index::Zero, Index::Three, Index::Two]) == 13);
            assert(crate::product::target_ordering(seq![Index::Zero, Index::Three, Index::Two]) =~= seq![Index::Zero, Index::Two, Index::Three]);
            assert(crate::product::positions(seq![Index::Zero, Index::Three, Index::Two], seq![Index::Zero, Index::Two, Index::Three]) =~= seq![0int, 2int, 1int]);
            assert(crate::product::relabel(seq![0int, 2int, 1int].drop_first()) =~= seq![1int, 0int]);
            assert(crate::product::relabel(seq![1int, 0int].drop_first()) =~= seq![0int]);
            assert(crate::product::perm_parity(seq![0int, 2int, 1int]) == Sign::Neg);
        }
        assert(triple_chain(Index::Three, Index::Zero, Index::Two) == Alpha { sign: Sign::Pos, form: Form::Trivector(Index::Zero, Index::Two, Index::Three) });
        assert(spec_full_product(unit_vec(Index::Three), unit_vec(Index::Two)) == Alpha { sign: Sign::Neg, form: Form::Bivector(Index::Two, Index::Three) }) by {
            assert(crate::form::form_axes(Form::Vector(Index::Three)) + crate::form::form_axes(Form::Vector(Index::Two)) =~= seq![Index::Three, Index::Two]);
            assert(crate::product::common_axes(seq![Index::Three], seq![Index::Two]) =~= Seq::<Index>::empty());
            assert(crate::product::cancel_all(seq![Index::Three, Index::Two], Seq::<Index>::empty()) == (Sign::Pos, seq![Index::Three, Index::Two]));
            assert(crate::product::axes_mask(seq![Index::Three, Index::Two]) == 12);
            assert(crate::product::target_ordering(seq![Index::Three, Index::Two]) =~= seq![Index::Two, Index::Three]);
            assert(crate::product::positions(seq![Index::Three, Index::Two], seq![Index::Two, Index::Three]) =~= seq![1int, 0int]);
            assert(crate::product::relabel(seq![1int, 0int].drop_first()) =~= seq![0int]);
            assert(crate::product::perm_parity(seq![1int, 0int]) == Sign::Neg);
        }
        assert(spec_full_product(Alpha { sign: Sign::Neg, form: Form::Bivector(Index::Two, Index::Three) }, unit_vec(Index::Zero)) == Alpha { sign: Sign::Neg, form: Form::Trivector(Index::Zero, Index::Two, Index::Three) }) by {
            assert(crate::form::form_axes(Form::Bivector(Index::Two, Index::Three)) + crate::form::form_axes(Form::Vector(Index::Zero)) =~= seq![Index::Two, Index::Three, Index::Zero]);
            assert(crate::product::common_axes(seq![Index::Two, Index::Three], seq![Index::Zero]) =~= Seq::<Index>::empty());
            assert(crate::product::cancel_all(seq![Index::Two, Index::Three, Index::Zero], Seq::<Index>::empty()) == (Sign::Pos, seq![Index::Two, Index::Three, Index::Zero]));
            assert(crate::product::axes_mask(seq![Index::Two, Index::Three, Index::Zero]) == 13);
            assert(crate::product::target_ordering(seq![Index::Two, Index::Three, Index::Zero]) =~= seq![Index::Zero, Index::Two, Index::Three]);
            assert(crate::product::positions(seq![Index::Two, Index::Three, Index::Zero], seq![Index::Zero, Index::Two, Index::Three]) =~= seq![1int, 2int, 0int]);
            assert(crate::product::relabel(seq![1int, 2int, 0int].drop_first()) =~= seq![1int, 0int]);
            assert(crate::product::relabel(seq![1int, 0int].drop_first()) =~= seq![0int]);
            assert(crate::product::perm_parity(seq![1int, 2int, 0int]) == Sign::Pos);
        }
        assert(triple_chain(Index::Three, Index::Two, Index::Zero) == Alpha { sign: Sign::Neg, form: Form::Trivector(Index::Zero, Index::Two, Index::Three) });
}

/// The six chains over one axis set, each pinned to its value.
#[verifier::rlimit(100)]
#[verifier::spinoff_prover]
proof fn lemma_triples_123()
    ensures
        triple_chain(Index::One, Index::Two, Index::Three) == (Alpha { sign: Sign::Pos, form: Form::Trivector(Index::One, Index::Two, Index::Three) }),
        triple_chain(Index::One, Index::Three, Index::Two) == (Alpha { sign: Sign::Neg, form: Form::Trivector(Index::One, Index::Two, Index::Three) }),
        triple_chain(Index::Two, Index::One, Index::Three) == (Alpha { sign: Sign::Neg, form: Form::Trivector(Index::One, Index::Two, Index::Three) }),
        triple_chain(Index::Two, Index::Three, Index::One) == (Alpha { sign: Sign::Pos, form: Form::Trivector(Index::One, Index::Two, Index::Three) }),
        triple_chain(Index::Three, Index::One, Index::Two) == (Alpha { sign: Sign::Pos, form: Form::Trivector(Index::One, Index::Two, Index::Three) }),
        triple_chain(Index::Three, Index::Two, Index::One) == (Alpha { sign: Sign::Neg, form: Form::Trivector(Index::One, Index::Two, Index::Three) }),
{
    reveal_with_fuel(crate::product::has_axis, 5);
    reveal_with_fuel(crate::product::first_pos, 5);
    reveal_with_fuel(crate::product::count_lt, 5);
    reveal_with_fuel(crate::product::perm_parity, 4);
    reveal_with_fuel(crate::product::common_axes, 4);
    reveal_with_fuel(crate::product::cancel_all, 2);
        assert(spec_full_product(unit_vec(Index::One), unit_vec(Index::Two)) == Alpha { sign: Sign::Pos, form: Form::Bivector(Index::One, Index::Two) }) by {
            assert(crate::form::form_axes(Form::Vector(Index::One)) + crate::form::form_axes(Form::Vector(Index::Two)) =~= seq![Index::One, Index::Two]);
            assert(crate::product::common_axes(seq![Index::One], seq![Index::Two]) =~= Seq::<Index>::empty());
            assert(crate::product::cancel_all(seq![Index::One, Index::Two], Seq::<Index>::empty()) == (Sign::Pos, seq![Index::One, Index::Two]));
            assert(crate::product::axes_mask(seq![Index::One, Index::Two]) == 6);
            assert(crate::product::target_ordering(seq![Index::One, Index::Two]) =~= seq![Index::One, Index::Two]);
            assert(crate::product::positions(seq![Index::One, Index::Two], seq![Index::One, Index::Two]) =~= seq![0int, 1int]);
            assert(crate::product::relabel(seq![0int, 1int].drop_first()) =~= seq![0int]);
            assert(crate::product::perm_parity(seq![0int, 1int]) == Sign::Pos);
        }
        assert(spec_full_product(Alpha { sign: Sign::Pos, form: Form::Bivector(Index::One, Index::Two) }, unit_vec(Index::Three)) == Alpha { sign: Sign::Pos, form: Form::Trivector(Index::One, Index::Two, Index::Three) }) by {
            assert(crate::form::form_axes(Form::Bivector(Index::One, Index::Two)) + crate::form::form_axes(Form::Vector(Index::Three)) =~= seq![Index::One, Index::Two, Index::Three]);
            assert(crate::product::common_axes(seq![Index::One, Index::Two], seq![Index::Three]) =~= Seq::<Index>::empty());
            assert(crate::product::cancel_all(seq![Index::One, Index::Two, Index::Three], Seq::<Index>::empty()) == (Sign::Pos, seq![Index::One, Index::Two, Index::Three]));
            assert(crate::product::axes_mask(seq![Index::One, Index::Two, Index::Three]) == 14);
            assert(crate::product::target_ordering(seq![Index::One, Index::Two, Index::Three]) =~= seq![Index::One, Index::Two, Index::Three]);
            assert(crate::product::positions(seq![Index::One, Index::Two, Index::Three], seq![Index::One, Index::Two, Index::Three]) =~= seq![0int, 1int, 2int]);
            assert(crate::product::relabel(seq![0int, 1int, 2int].drop_first()) =~= seq![0int, 1int]);
            assert(crate::product::relabel(seq![0int, 1int].drop_first()) =~= seq![0int]);
            assert(crate::product::perm_parity(seq![0int, 1int, 2int]) == Sign::Pos);
        }
        assert(triple_chain(Index::One, Index::Two, Index::Three) == Alpha { sign: Sign::Pos, form: Form::Trivector(Index::One, Index::Two, Index::Three) });
        assert(spec_full_product(unit_vec(Index::One), unit_vec(Index::Three)) == Alpha { sign: Sign::Neg, form: Form::Bivector(Index::Three, Index::One) }) by {
            assert(crate::form::form_axes(Form::Vector(Index::One)) + crate::form::form_axes(Form::Vector(Index::Three)) =~= seq![Index::One, Index::Three]);
            assert(crate::product::common_axes(seq![Index::One], seq![Index::Three]) =~= Seq::<Index>::empty());
            assert(crate::product::cancel_all(seq![Index::One, Index::Three], Seq::<Index>::empty()) == (Sign::Pos, seq![Index::One, Index::Three]));
            assert(crate::product::axes_mask(seq![Index::One, Index::Three]) == 10);
            assert(crate::product::target_ordering(seq![Index::One, Index::Three]) =~= seq![Index::Three, Index::One]);
            assert(crate::product::positions(seq![Index::One, Index::Three], seq![Index::Three, Index::One]) =~= seq![1int, 0int]);
            assert(crate::product::relabel(seq![1int, 0int].drop_first()) =~= seq![0int]);
            assert(crate::product::perm_parity(seq![1int, 0int]) == Sign::Neg);
        }
        assert(spec_full_product(Alpha { sign: Sign::Neg, form: Form::Bivector(Index::Three, Index::One) }, unit_vec(Index::Two)) == Alpha { sign: Sign::Neg, form: Form::Trivector(Index::One, Index::Two, Index::Three) }) by {
            assert(crate::form::form_axes(Form::Bivector(Index::Three, Index::One)) + crate::form::form_axes(Form::Vector(Index::Two)) =~= seq![Index::Three, Index::One, Index::Two]);
            assert(crate::product::common_axes(seq![Index::Three, Index::One], seq![Index::Two]) =~= Seq::<Index>::empty());
            assert(crate::product::cancel_all(seq![Index::Three, Index::One, Index::Two], Seq::<Index>::empty()) == (Sign::Pos, seq![Index::Three, Index::One, Index::Two]));
            assert(crate::product::axes_mask(seq![Index::Three, Index::One, Index::Two]) == 14);
            assert(crate::product::target_ordering(seq![Index::Three, Index::One, Index::Two]) =~= seq![Index::One, Index::Two, Index::Three]);
            assert(crate::product::positions(seq![Index::Three, Index::One, Index::Two], seq![Index::One, Index::Two, Index::Three]) =~= seq![2int, 0int, 1int]);
            assert(crate::product::relabel(seq![2int, 0int, 1int].drop_first()) =~= seq![0int, 1int]);
            assert(crate::product::relabel(seq![0int, 1int].drop_first()) =~= seq![0int]);
            assert(crate::product::perm_parity(seq![2int, 0int, 1int]) == Sign::Pos);
        }
        assert(triple_chain(Index::One, Index::Three, Index::Two) == Alpha { sign: Sign::Neg, form: Form::Trivector(Index::One, Index::Two, Index::Three) });
        assert(spec_full_product(unit_vec(Index::Two), unit_vec(Index::One)) == Alpha { sign: Sign::Neg, form: Form::Bivector(Index::One, Index::Two) }) by {
            assert(crate::form::form_axes(Form::Vector(Index::Two)) + crate::form::form_axes(Form::Vector(Index::One)) =~= seq![Index::Two, Index::One]);
            assert(crate::product::common_axes(seq![Index::Two], seq![Index::One]) =~= Seq::<Index>::empty());
            assert(crate::product::cancel_all(seq![Index::Two, Index::One], Seq::<Index>::empty()) == (Sign::Pos, seq![Index::Two, Index::One]));
            assert(crate::product::axes_mask(seq![Index::Two, Index::One]) == 6);
            assert(crate::product::target_ordering(seq![Index::Two, Index::One]) =~= seq![Index::One, Index::Two]);
            assert(crate::product::positions(seq![Index::Two, Index::One], seq![Index::One, Index::Two]) =~= seq![1int, 0int]);
            assert(crate::product::relabel(seq![1int, 0int].drop_first()) =~= seq![0int]);
            assert(crate::product::perm_parity(seq![1int, 0int]) == Sign::Neg);
        }
        assert(spec_full_product(Alpha { sign: Sign::Neg, form: Form::Bivector(Index::One, Index::Two) }, unit_vec(Index::Three)) == Alpha { sign: Sign::Neg, form: Form::Trivector(Index::One, Index::Two, Index::Three) }) by {
            assert(crate::form::form_axes(Form::Bivector(Index::One, Index::Two)) + crate::form::form_axes(Form::Vector(Index::Three)) =~= seq![Index::One, Index::Two, Index::Three]);
            assert(crate::product::common_axes(seq![Index::One, Index::Two], seq![Index::Three]) =~= Seq::<Index>::empty());
            assert(crate::product::cancel_all(seq![Index::One, Index::Two, Index::Three], Seq::<Index>::empty()) == (Sign::Pos, seq![Index::One, Index::Two, Index::Three]));
            assert(crate::product::axes_mask(seq![Index::One, Index::Two, Index::Three]) == 14);
            assert(crate::product::target_ordering(seq![Index::One, Index::Two, Index::Three]) =~= seq![Index::One, Index::Two, Index::Three]);
            assert(crate::product::positions(seq![Index::One, Index::Two, Index::Three], seq![Index::One, Index::Two, Index::Three]) =~= seq![0int, 1int, 2int]);
            assert(crate::product::relabel(seq![0int, 1int, 2int].drop_first()) =~= seq![0int, 1int]);
            assert(crate::product::relabel(seq![0int, 1int].drop_first()) =~= seq![0int]);
            assert(crate::product::perm_parity(seq![0int, 1int, 2int]) == Sign::Pos);
        }
        assert(triple_chain(Index::Two, Index::One, Index::Three) == Alpha { sign: Sign::Neg, form: Form::Trivector(Index::One, Index::Two, Index::Three) });
        assert(spec_full_product(unit_vec(Index::Two), unit_vec(Index::Three)) == Alpha { sign: Sign::Pos, form: Form::Bivector(Index::Two, Index::Three) }) by {
            assert(crate::form::form_axes(Form::Vector(Index::Two)) + crate::form::form_axes(Form::Vector(Index::Three)) =~= seq![Index::Two, Index::Three]);
            assert(crate::product::common_axes(seq![Index::Two], seq![Index::Three]) =~= Seq::<Index>::empty());
            assert(crate::product::cancel_all(seq![Index::Two, Index::Three], Seq::<Index>::empty()) == (Sign::Pos, seq![Index::Two, Index::Three]));
            assert(crate::product::axes_mask(seq![Index::Two, Index::Three]) == 12);
            assert(crate::product::target_ordering(seq![Index::Two, Index::Three]) =~= seq![Index::Two, Index::Three]);
            assert(crate::product::positions(seq![Index::Two, Index::Three], seq![Index::Two, Index::Three]) =~= seq![0int, 1int]);
            assert(crate::product::relabel(seq![0int, 1int].drop_first()) =~= seq![0int]);
            assert(crate::product::perm_parity(seq![0int, 1int]) == Sign::Pos);
        }
        assert(spec_full_product(Alpha { sign: Sign::Pos, form: Form::Bivector(Index::Two, Index::Three) }, unit_vec(Index::One)) == Alpha { sign: Sign::Pos, form: Form::Trivector(Index::One, Index::Two, Index::Three) }) by {
            assert(crate::form::form_axes(Form::Bivector(Index::Two, Index::Three)) + crate::form::form_axes(Form::Vector(Index::One)) =~= seq![Index::Two, Index::Three, Index::One]);
            assert(crate::product::common_axes(seq![Index::Two, Index::Three], seq![Index::One]) =~= Seq::<Index>::empty());
            assert(crate::product::cancel_all(seq![Index::Two, Index::Three, Index::One], Seq::<Index>::empty()) == (Sign::Pos, seq![Index::Two, Index::Three, Index::One]));
            assert(crate::product::axes_mask(seq![Index::Two, Index::Three, Index::One]) == 14);
            assert(crate::product::target_ordering(seq![Index::Two, Index::Three, Index::One]) =~= seq![Index::One, Index::Two, Index::Three]);
            assert(crate::product::positions(seq![Index::Two, Index::Three, Index::One], seq![Index::One, Index::Two, Index::Three]) =~= seq![1int, 2int, 0int]);
            assert(crate::product::relabel(seq![1int, 2int, 0int].drop_first()) =~= seq![1int, 0int]);
            assert(crate::product::relabel(seq![1int, 0int].drop_first()) =~= seq![0int]);
            assert(crate::product::perm_parity(seq![1int, 2int, 0int]) == Sign::Pos);
        }
        assert(triple_chain(Index::Two, Index::Three, Index::One) == Alpha { sign: Sign::Pos, form: Form::Trivector(Index::One, Index::Two, Index::Three) });
        assert(spec_full_product(unit_vec(Index::Three), unit_vec(Index::One)) == Alpha { sign: Sign::Pos, form: Form::Bivector(Index::Three, Index::One) }) by {
            assert(crate::form::form_axes(Form::Vector(Index::Three)) + crate::form::form_axes(Form::Vector(Index::One)) =~= seq![Index::Three, Index::One]);
            assert(crate::product::common_axes(seq![Index::Three], seq![Index::One]) =~= Seq::<Index>::empty());
            assert(crate::product::cancel_all(seq![Index::Three, Index::One], Seq::<Index>::empty()) == (Sign::Pos, seq![Index::Three, Index::One]));
            assert(crate::product::axes_mask(seq![Index::Three, Index::One]) == 10);
            assert(crate::product::target_ordering(seq![Index::Three, Index::One]) =~= seq![Index::Three, Index::One]);
            assert(crate::product::positions(seq![Index::Three, Index::One], seq![Index::Three, Index::One]) =~= seq![0int, 1int]);
            assert(crate::product::relabel(seq![0int, 1int].drop_first()) =~= seq![0int]);
            assert(crate::product::perm_parity(seq![0int, 1int]) == Sign::Pos);
        }
        assert(spec_full_product(Alpha { sign: Sign::Pos, form: Form::Bivector(Index::Three, Index::One) }, unit_vec(Index::Two)) == Alpha { sign: Sign::Pos, form: Form::Trivector(Index::One, Index::Two, Index::Three) }) by {
            assert(crate::form::form_axes(Form::Bivector(Index::Three, Index::One)) + crate::form::form_axes(Form::Vector(Index::Two)) =~= seq![Index::Three, Index::One, Index::Two]);
            assert(crate::product::common_axes(seq![Index::Three, Index::One], seq![Index::Two]) =~= Seq::<Index>::empty());
            assert(crate::product::cancel_all(seq![Index::Three, Index::One, Index::Two], Seq::<Index>::empty()) == (Sign::Pos, seq![Index::Three, Index::One, Index::Two]));
            assert(crate::product::axes_mask(seq![Index::Three, Index::One, Index::Two]) == 14);
            assert(crate::product::target_ordering(seq![Index::Three, Index::One, Index::Two]) =~= seq![Index::One, Index::Two, Index::Three]);
            assert(crate::product::positions(seq![Index::Three, Index::One, Index::Two], seq![Index::One, Index::Two, Index::Three]) =~= seq![2int, 0int, 1int]);
            assert(crate::product::relabel(seq![2int, 0int, 1int].drop_first()) =~= seq![0int, 1int]);
            assert(crate::product::relabel(seq![0int, 1int].drop_first()) =~= seq![0int]);
            assert(crate::product::perm_parity(seq![2int, 0int, 1int]) == Sign::Pos);
        }
        assert(triple_chain(Index::Three, Index::One, Index::Two) == Alpha { sign: Sign::Pos, form: Form::Trivector(Index::One, Index::Two, Index::Three) });
        assert(spec_full_product(unit_vec(Index::Three), unit_vec(Index::Two)) == Alpha { sign: Sign::Neg, form: Form::Bivector(Index::Two, Index::Three) }) by {
            assert(crate::form::form_axes(Form::Vector(Index::Three)) + crate::form::form_axes(Form::Vector(Index::Two)) =~= seq![Index::Three, Index::Two]);
            assert(crate::product::common_axes(seq![Index::Three], seq![Index::Two]) =~= Seq::<Index>::empty());
            assert(crate::product::cancel_all(seq![Index::Three, Index::Two], Seq::<Index>::empty()) == (Sign::Pos, seq![Index::Three, Index::Two]));
            assert(crate::product::axes_mask(seq![Index::Three, Index::Two]) == 12);
            assert(crate::product::target_ordering(seq![Index::Three, Index::Two]) =~= seq![Index::Two, Index::Three]);
            assert(crate::product::positions(seq![Index::Three, Index::Two], seq![Index::Two, Index::Three]) =~= seq![1int, 0int]);
            assert(crate::product::relabel(seq![1int, 0int].drop_first()) =~= seq![0int]);
            assert(crate::product::perm_parity(seq![1int, 0int]) == Sign::Neg);
        }
        assert(spec_full_product(Alpha { sign: Sign::Neg, form: Form::Bivector(Index::Two, Index::Three) }, unit_vec(Index::One)) == Alpha { sign: Sign::Neg, form: Form::Trivector(Index::One, Index::Two, Index::Three) }) by {
            assert(crate::form::form_axes(Form::Bivector(Index::Two, Index::Three)) + crate::form::form_axes(Form::Vector(Index::One)) =~= seq![Index::Two, Index::Three, Index::One]);
            assert(crate::product::common_axes(seq![Index::Two, Index::Three], seq![Index::One]) =~= Seq::<Index>::empty());
            assert(crate::product::cancel_all(seq![Index::Two, Index::Three, Index::One], Seq::<Index>::empty()) == (Sign::Pos, seq![Index::Two, Index::Three, Index::One]));
            assert(crate::product::axes_mask(seq![Index::Two, Index::Three, Index::One]) == 14);
            assert(crate::product::target_ordering(seq![Index::Two, Index::Three, Index::One]) =~= seq![Index::One, Index::Two, Index::Three]);
            assert(crate::product::positions(seq![Index::Two, Index::Three, Index::One], seq![Index::One, Index::Two, Index::Three]) =~= seq![1int, 2int, 0int]);
            assert(crate::product::relabel(seq![1int, 2int, 0int].drop_first()) =~= seq![1int, 0int]);
            assert(crate::product::relabel(seq![1int, 0int].drop_first()) =~= seq![0int]);
            assert(crate::product::perm_parity(seq![1int, 2int, 0int]) == Sign::Pos);
        }
        assert(triple_chain(Index::Three, Index::Two, Index::One) == Alpha { sign: Sign::Neg, form: Form::Trivector(Index::One, Index::Two, Index::Three) });
}

/// Associativity up to sign-consistency: for any three distinct axes the
/// six orderings of pairwise products split into two sign-consistent
/// classes of three. Cyclic rotations agree exactly; transpositions agree
/// with each other, share the cyclic class's form, and invert its sign.
pub proof fn lemma_triple_products(i: Index, j: Index, k: Index)
    requires
        i != j,
        j != k,
        i != k,
    ensures
        triple_chain(i, j, k) == triple_chain(j, k, i),
        triple_chain(i, j, k) == triple_chain(k, i, j),
        triple_chain(i, k, j) == triple_chain(j, i, k),
        triple_chain(i, k, j) == triple_chain(k, j, i),
        triple_chain(i, j, k).form == triple_chain(i, k, j).form,
        triple_chain(i, j, k).sign == spec_negate(triple_chain(i, k, j).sign),
{
    if (i == Index::Zero && j == Index::One && k == Index::Two) || (i == Index::Zero && j == Index::Two && k == Index::One) || (i == Index::One && j == Index::Zero && k == Index::Two) || (i == Index::One && j == Index::Two && k == Index::Zero) || (i == Index::Two && j == Index::Zero && k == Index::One) || (i == Index::Two && j == Index::One && k == Index::Zero) {
        lemma_triples_012();
    }
    if (i == Index::Zero && j == Index::One && k == Index::Three) || (i == Index::Zero && j == Index::Three && k == Index::One) || (i == Index::One && j == Index::Zero && k == Index::Three) || (i == Index::One && j == Index::Three && k == Index::Zero) || (i == Index::Three && j == Index::Zero && k == Index::One) || (i == Index::Three && j == Index::One && k == Index::Zero) {
        lemma_triples_013();
    }
    if (i == Index::Zero && j == Index::Two && k == Index::Three) || (i == Index::Zero && j == Index::Three && k == Index::Two) || (i == Index::Two && j == Index::Zero && k == Index::Three) || (i == Index::Two && j == Index::Three && k == Index::Zero) || (i == Index::Three && j == Index::Zero && k == Index::Two) || (i == Index::Three && j == Index::Two && k == Index::Zero) {
        lemma_triples_023();
    }
    if (i == Index::One && j == Index::Two && k == Index::Three) || (i == Index::One && j == Index::Three && k == Index::Two) || (i == Index::Two && j == Index::One && k == Index::Three) || (i == Index::Two && j == Index::Three && k == Index::One) || (i == Index::Three && j == Index::One && k == Index::Two) || (i == Index::Three && j == Index::Two && k == Index::One) {
        lemma_triples_123();
    }
}

} // verus!
