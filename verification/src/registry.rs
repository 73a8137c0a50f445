//! The canonical form registry: the sixteen allowed directed-unit forms of
//! the algebra and their fixed order.
//!
//! The order groups the forms into the four zets of the algebra:
//! B (point and space-space bivectors), T (time and its trivectors),
//! A (hedgehog and space vectors) and E (quadrivector and time-space
//! bivectors).

use vstd::prelude::*;

use crate::form::spec_form_str;
use crate::form::Form;
use crate::index::Index;

verus! {

/// The sixteen allowed forms, in their canonical registry order.
pub open spec fn registry() -> Seq<Form> {
    seq![
        Form::Point,
        Form::Bivector(Index::Two, Index::Three),
        Form::Bivector(Index::Three, Index::One),
        Form::Bivector(Index::One, Index::Two),
        Form::Vector(Index::Zero),
        Form::Trivector(Index::Zero, Index::Two, Index::Three),
        Form::Trivector(Index::Zero, Index::Three, Index::One),
        Form::Trivector(Index::Zero, Index::One, Index::Two),
        Form::Trivector(Index::One, Index::Two, Index::Three),
        Form::Vector(Index::One),
        Form::Vector(Index::Two),
        Form::Vector(Index::Three),
        Form::Quadrivector(Index::Zero, Index::One, Index::Two, Index::Three),
        Form::Bivector(Index::Zero, Index::One),
        Form::Bivector(Index::Zero, Index::Two),
        Form::Bivector(Index::Zero, Index::Three),
    ]
}

/// Position of a form in the registry, or 16 for a form outside it.
pub open spec fn registry_index(f: Form) -> int {
    match f {
        Form::Point => 0,
        Form::Bivector(Index::Two, Index::Three) => 1,
        Form::Bivector(Index::Three, Index::One) => 2,
        Form::Bivector(Index::One, Index::Two) => 3,
        Form::Vector(Index::Zero) => 4,
        Form::Trivector(Index::Zero, Index::Two, Index::Three) => 5,
        Form::Trivector(Index::Zero, Index::Three, Index::One) => 6,
        Form::Trivector(Index::Zero, Index::One, Index::Two) => 7,
        Form::Trivector(Index::One, Index::Two, Index::Three) => 8,
        Form::Vector(Index::One) => 9,
        Form::Vector(Index::Two) => 10,
        Form::Vector(Index::Three) => 11,
        Form::Quadrivector(Index::Zero, Index::One, Index::Two, Index::Three) => 12,
        Form::Bivector(Index::Zero, Index::One) => 13,
        Form::Bivector(Index::Zero, Index::Two) => 14,
        Form::Bivector(Index::Zero, Index::Three) => 15,
        _ => 16,
    }
}

/// Whether a form is one of the sixteen members of the registry.
pub open spec fn is_allowed(f: Form) -> bool {
    registry_index(f) < 16
}

/// Every registry member sits at the position `registry_index` gives it:
/// the registry order and the index function agree.
pub proof fn lemma_registry_positions(k: int)
    requires
        0 <= k < 16,
    ensures
        registry_index(registry()[k]) == k,
        is_allowed(registry()[k]),
{
}

/// A form within the registry is recovered from its index, so `registry_index`
/// is injective on allowed forms.
pub proof fn lemma_registry_roundtrip(f: Form)
    requires
        is_allowed(f),
    ensures
        registry()[registry_index(f)] == f,
        registry().contains(f),
{
    assert(registry()[registry_index(f)] == f);
    assert(registry().contains(f)) by {
        assert(registry()[registry_index(f)] == f);
    }
}

/// The sixteen allowed forms as a vector, in registry order.
pub fn allowed_alpha_forms() -> (r: Vec<Form>)
    ensures
        r@ == registry(),
{
    let mut r: Vec<Form> = Vec::new();
    r.push(Form::Point);
    r.push(Form::Bivector(Index::Two, Index::Three));
    r.push(Form::Bivector(Index::Three, Index::One));
    r.push(Form::Bivector(Index::One, Index::Two));
    r.push(Form::Vector(Index::Zero));
    r.push(Form::Trivector(Index::Zero, Index::Two, Index::Three));
    r.push(Form::Trivector(Index::Zero, Index::Three, Index::One));
    r.push(Form::Trivector(Index::Zero, Index::One, Index::Two));
    r.push(Form::Trivector(Index::One, Index::Two, Index::Three));
    r.push(Form::Vector(Index::One));
    r.push(Form::Vector(Index::Two));
    r.push(Form::Vector(Index::Three));
    r.push(Form::Quadrivector(Index::Zero, Index::One, Index::Two, Index::Three));
    r.push(Form::Bivector(Index::Zero, Index::One));
    r.push(Form::Bivector(Index::Zero, Index::Two));
    r.push(Form::Bivector(Index::Zero, Index::Three));
    proof {
        assert(r@ =~= registry());
    }
    r
}

/// Position of a form in the registry, or 16 for a form outside it.
pub fn registry_index_of(f: &Form) -> (r: usize)
    ensures
        r as int == registry_index(*f),
{
    match *f {
        Form::Point => 0,
        Form::Bivector(Index::Two, Index::Three) => 1,
        Form::Bivector(Index::Three, Index::One) => 2,
        Form::Bivector(Index::One, Index::Two) => 3,
        Form::Vector(Index::Zero) => 4,
        Form::Trivector(Index::Zero, Index::Two, Index::Three) => 5,
        Form::Trivector(Index::Zero, Index::Three, Index::One) => 6,
        Form::Trivector(Index::Zero, Index::One, Index::Two) => 7,
        Form::Trivector(Index::One, Index::Two, Index::Three) => 8,
        Form::Vector(Index::One) => 9,
        Form::Vector(Index::Two) => 10,
        Form::Vector(Index::Three) => 11,
        Form::Quadrivector(Index::Zero, Index::One, Index::Two, Index::Three) => 12,
        Form::Bivector(Index::Zero, Index::One) => 13,
        Form::Bivector(Index::Zero, Index::Two) => 14,
        Form::Bivector(Index::Zero, Index::Three) => 15,
        _ => 16,
    }
}

/// Whether a form is one of the sixteen members of the registry.
pub fn form_is_allowed(f: &Form) -> (r: bool)
    ensures
        r == is_allowed(*f),
{
    registry_index_of(f) < 16
}

/// The canonical renderings of the sixteen allowed forms, in registry order.
pub fn allowed_alpha_strings() -> (r: Vec<String>)
    ensures
        r@.len() == 16,
        forall|k: int| 0 <= k < 16 ==> #[trigger] r@[k]@ == spec_form_str(registry()[k]),
{
    let forms = allowed_alpha_forms();
    let mut r: Vec<String> = Vec::new();
    let mut k: usize = 0;
    while k < forms.len()
        invariant
            forms@ == registry(),
            k <= 16,
            r@.len() == k,
            forall|m: int| 0 <= m < k ==> #[trigger] r@[m]@ == spec_form_str(registry()[m]),
        decreases forms@.len() - k,
    {
        r.push(forms[k].as_string());
        k = k + 1;
    }
    r
}

} // verus!
