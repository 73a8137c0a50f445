//! Directed units: a sign paired with one of the sixteen registry forms.

use vstd::prelude::*;
use vstd::string::StringExecFns;

use crate::form::form_axes;
use crate::form::form_of_axes;
use crate::form::spec_form_str;
use crate::form::Form;
use crate::index::idx_char;
use crate::index::Index;
use crate::product::ar_product;
use crate::product::spec_full_product;
use crate::registry::form_is_allowed;
use crate::registry::is_allowed;
use crate::sign::spec_combine;
use crate::sign::spec_negate;
use crate::sign::Sign;

verus! {

/// An alpha is a pure element of the algebra without magnitude: a sign and
/// a form of grade 0 to 4. A well-formed alpha holds one of the sixteen
/// registry forms; construction through [`Alpha::new`] checks this.
#[derive(Debug, Eq, PartialEq, Structural, Copy, Clone)]
pub struct Alpha {
    pub sign: Sign,
    pub form: Form,
}

impl Alpha {
    /// A well-formed alpha holds a form of the registry.
    pub open spec fn wf(self) -> bool {
        is_allowed(self.form)
    }

    /// Construct a new alpha from scratch. Errors when the form given is
    /// not a member of the registry.
    pub fn new(sign: Sign, form: Form) -> (r: Result<Alpha, String>)
        ensures
            is_allowed(form) ==> r == Ok::<Alpha, String>(Alpha { sign, form }),
            !is_allowed(form) ==> r is Err,
            r matches Ok(a) ==> a.wf(),
    {
        if form_is_allowed(&form) {
            Ok(Alpha { sign, form })
        } else {
            Err(String::from_str("invalid alpha index: form is not in the registry"))
        }
    }

    /// Construct an alpha from a dynamically created vector of axes.
    /// Errors when the axes do not map to one of the registry forms.
    pub fn try_from_indices(sign: Sign, indices: &Vec<Index>) -> (r: Result<Alpha, String>)
        ensures
            indices@.len() <= 4 && is_allowed(form_of_axes(indices@)) ==> r == Ok::<Alpha, String>(
                Alpha { sign, form: form_of_axes(indices@) },
            ),
            !(indices@.len() <= 4 && is_allowed(form_of_axes(indices@))) ==> r is Err,
            r matches Ok(a) ==> a.wf(),
    {
        match Form::try_from_indices(indices) {
            Ok(form) => Alpha::new(sign, form),
            Err(e) => Err(e),
        }
    }

    /// Take a copy of this alpha's form.
    pub fn form(&self) -> (r: Form)
        ensures
            r == self.form,
    {
        self.form
    }

    /// Take a copy of this alpha's sign.
    pub fn sign(&self) -> (r: Sign)
        ensures
            r == self.sign,
    {
        self.sign
    }

    /// Whether this alpha is the (positive or negative) point.
    pub fn is_point(&self) -> (r: bool)
        ensures
            r == (self.form == Form::Point),
    {
        match self.form {
            Form::Point => true,
            _ => false,
        }
    }

    /// The axes of this alpha's form, in stored order.
    pub fn as_vec(&self) -> (r: Vec<Index>)
        ensures
            r@ == form_axes(self.form),
    {
        self.form.as_vec()
    }

    /// The same form under the opposite sign.
    pub fn negated(&self) -> (r: Alpha)
        ensures
            r == (Alpha { sign: spec_negate(self.sign), form: self.form }),
            self.wf() ==> r.wf(),
    {
        Alpha { sign: self.sign.negated(), form: self.form }
    }

    /// The product inverse of this alpha through the point: the same form,
    /// with the sign corrected so that the product of the alpha with its
    /// inverse is the positive point.
    pub fn inverse(&self) -> (r: Alpha)
        ensures
            r == spec_inverse(*self),
            self.wf() ==> r.wf(),
    {
        let square = ar_product(self, self);
        Alpha { sign: self.sign().combine(&square.sign()), form: self.form() }
    }

    /// The Hermitian conjugate of this unit alone: negated exactly when
    /// it squares to the negative point.
    pub fn hermitian(&self) -> (r: Alpha)
        ensures
            spec_full_product(*self, *self).sign == Sign::Neg ==> r == (Alpha {
                sign: spec_negate(self.sign),
                form: self.form,
            }),
            spec_full_product(*self, *self).sign == Sign::Pos ==> r == *self,
    {
        let square = ar_product(self, self);
        match square.sign() {
            Sign::Neg => self.negated(),
            Sign::Pos => *self,
        }
    }

    /// Canonical rendering: the sign, then `a`, then the form.
    pub fn as_string(&self) -> (r: String)
        ensures
            r@ == spec_alpha_str(*self),
    {
        proof {
            reveal_strlit("+");
            reveal_strlit("-");
            reveal_strlit("a");
        }
        let mut out = String::from_str(self.sign.as_str());
        out.append("a");
        let form_str = self.form.as_string();
        out.append(form_str.as_str());
        proof {
            assert(out@ =~= spec_alpha_str(*self));
        }
        out
    }
}

/// The inverse of an alpha: its own form, the sign combined with the sign
/// of the alpha's square.
pub open spec fn spec_inverse(a: Alpha) -> Alpha {
    Alpha { sign: spec_combine(a.sign, spec_full_product(a, a).sign), form: a.form }
}

/// Rendering of a sign as a character sequence.
pub open spec fn sign_char(s: Sign) -> Seq<char> {
    match s {
        Sign::Pos => seq!['+'],
        Sign::Neg => seq!['-'],
    }
}

/// Canonical rendering of an alpha: sign, `a`, form.
pub open spec fn spec_alpha_str(a: Alpha) -> Seq<char> {
    sign_char(a.sign) + seq!['a'] + spec_form_str(a.form)
}

} // verus!
