//! Grade objects: the axis tuple of a directed unit, independent of sign.

use vstd::prelude::*;
use vstd::string::StringExecFns;

use crate::index::idx_char;
use crate::index::Index;

verus! {

/// A geometric form based on grade (number of axes involved). Any tuple of
/// axes can be held in a `Form`, but only the sixteen members of the
/// canonical registry (see [`crate::registry`]) may stand inside an
/// [`crate::alpha::Alpha`].
#[derive(Debug, Eq, PartialEq, Structural, Copy, Clone)]
pub enum Form {
    Point,
    Vector(Index),
    Bivector(Index, Index),
    Trivector(Index, Index, Index),
    Quadrivector(Index, Index, Index, Index),
}

/// The axes of a form, in the order they are stored.
pub open spec fn form_axes(f: Form) -> Seq<Index> {
    match f {
        Form::Point => seq![],
        Form::Vector(i) => seq![i],
        Form::Bivector(i, j) => seq![i, j],
        Form::Trivector(i, j, k) => seq![i, j, k],
        Form::Quadrivector(i, j, k, l) => seq![i, j, k, l],
    }
}

/// The form a sequence of at most four axes denotes, graded by length.
pub open spec fn form_of_axes(s: Seq<Index>) -> Form {
    if s.len() == 0 {
        Form::Point
    } else if s.len() == 1 {
        Form::Vector(s[0])
    } else if s.len() == 2 {
        Form::Bivector(s[0], s[1])
    } else if s.len() == 3 {
        Form::Trivector(s[0], s[1], s[2])
    } else if s.len() == 4 {
        Form::Quadrivector(s[0], s[1], s[2], s[3])
    } else {
        Form::Point
    }
}

/// The grade of a form: how many axes it involves.
pub open spec fn grade(f: Form) -> int {
    form_axes(f).len() as int
}

impl Form {
    /// Attempt to construct a form from an arbitrary vector of axes.
    /// Errors when more than four axes are given.
    pub fn try_from_indices(ixs: &Vec<Index>) -> (r: Result<Form, String>)
        ensures
            ixs@.len() <= 4 ==> r == Ok::<Form, String>(form_of_axes(ixs@)),
            ixs@.len() > 4 ==> r is Err,
    {
        match ixs.len() {
            0 => Ok(Form::Point),
            1 => Ok(Form::Vector(ixs[0])),
            2 => Ok(Form::Bivector(ixs[0], ixs[1])),
            3 => Ok(Form::Trivector(ixs[0], ixs[1], ixs[2])),
            4 => Ok(Form::Quadrivector(ixs[0], ixs[1], ixs[2], ixs[3])),
            _ => Err(String::from_str("invalid form: more than four axes")),
        }
    }

    /// Extract the underlying axes contained in this form.
    pub fn as_vec(&self) -> (r: Vec<Index>)
        ensures
            r@ == form_axes(*self),
    {
        match *self {
            Form::Point => {
                let r: Vec<Index> = Vec::new();
                assert(r@ =~= form_axes(Form::Point));
                r
            },
            Form::Vector(i) => {
                let mut r: Vec<Index> = Vec::new();
                r.push(i);
                assert(r@ =~= form_axes(*self));
                r
            },
            Form::Bivector(i, j) => {
                let mut r: Vec<Index> = Vec::new();
                r.push(i);
                r.push(j);
                assert(r@ =~= form_axes(*self));
                r
            },
            Form::Trivector(i, j, k) => {
                let mut r: Vec<Index> = Vec::new();
                r.push(i);
                r.push(j);
                r.push(k);
                assert(r@ =~= form_axes(*self));
                r
            },
            Form::Quadrivector(i, j, k, l) => {
                let mut r: Vec<Index> = Vec::new();
                r.push(i);
                r.push(j);
                r.push(k);
                r.push(l);
                assert(r@ =~= form_axes(*self));
                r
            },
        }
    }

    /// The grade of this form: how many axes it involves.
    pub fn grade_num(&self) -> (r: usize)
        ensures
            r as int == grade(*self),
    {
        match *self {
            Form::Point => 0,
            Form::Vector(_) => 1,
            Form::Bivector(_, _) => 2,
            Form::Trivector(_, _, _) => 3,
            Form::Quadrivector(_, _, _, _) => 4,
        }
    }

    /// Whether this form and `other` have the same grade.
    pub fn same_grade(&self, other: &Form) -> (r: bool)
        ensures
            r == (grade(*self) == grade(*other)),
    {
        self.grade_num() == other.grade_num()
    }

    /// Canonical rendering of the form: "p" for the point, else the axis
    /// labels run together ("23", "012", ...).
    pub fn as_string(&self) -> (r: String)
        ensures
            r@ == spec_form_str(*self),
    {
        proof {
            reveal_strlit("p");
            reveal_strlit("");
        }
        match *self {
            Form::Point => {
                let r = String::from_str("p");
                proof {
                    assert(r@ =~= spec_form_str(Form::Point));
                }
                r
            },
            _ => {
                let axes = self.as_vec();
                let mut out = String::from_str("");
                let mut k: usize = 0;
                while k < axes.len()
                    invariant
                        k <= axes@.len(),
                        axes@ == form_axes(*self),
                        out@ == axes_str(axes@.take(k as int)),
                    decreases axes@.len() - k,
                {
                    proof {
                        assert(axes@.take(k + 1).drop_last() =~= axes@.take(k as int));
                    }
                    out.append(axes[k].as_str());
                    k = k + 1;
                }
                proof {
                    assert(axes@.take(axes@.len() as int) =~= axes@);
                }
                out
            },
        }
    }
}

/// Canonical rendering of a run of axis labels.
pub open spec fn axes_str(s: Seq<Index>) -> Seq<char>
    decreases s.len(),
{
    if s.len() == 0 {
        seq![]
    } else {
        axes_str(s.drop_last()) + idx_char(s.last())
    }
}

/// Canonical rendering of a form: "p" for the point, else its axis labels.
pub open spec fn spec_form_str(f: Form) -> Seq<char> {
    if f == Form::Point {
        seq!['p']
    } else {
        axes_str(form_axes(f))
    }
}

} // verus!

verus! {

/// The axes a run of digit characters denotes, where every character is
/// one of 0-3.
pub open spec fn parsed_axes(s: Seq<char>) -> Seq<Index> {
    Seq::new(s.len(), |k: int| crate::index::idx_of_char(s[k])->Some_0)
}

/// Parse a form from its canonical text: `p` for the point, else one to
/// four axis digits. Too many axes give the component-order error, any
/// other character the index error.
pub fn form_from_str(ix: &str) -> (r: Result<Form, crate::error::ArError>)
    ensures
        ix@ == seq!['p'] ==> r == Ok::<Form, crate::error::ArError>(Form::Point),
        ix@ != seq!['p'] && 1 <= ix@.len() <= 4 && (forall|k: int|
            0 <= k < ix@.len() ==> crate::index::idx_of_char(#[trigger] ix@[k]) is Some) ==> r
            == Ok::<Form, crate::error::ArError>(form_of_axes(parsed_axes(ix@))),
        ix@ != seq!['p'] && !(1 <= ix@.len() <= 4) ==> (r matches Err(e) && e
            is InvalidComponentOrder),
        ix@ != seq!['p'] && 1 <= ix@.len() <= 4 && !(forall|k: int|
            0 <= k < ix@.len() ==> crate::index::idx_of_char(#[trigger] ix@[k]) is Some) ==> (r
            matches Err(e) && e is InvalidIndex),
{
    let len = ix.unicode_len();
    if len == 1 && ix.get_char(0) == 'p' {
        proof {
            assert(ix@ =~= seq!['p']);
        }
        return Ok(Form::Point);
    }
    proof {
        if ix@ == seq!['p'] {
            assert(ix@.len() == 1 && ix@[0] == 'p');
        }
    }
    if len < 1 || len > 4 {
        return Err(crate::error::ArError::InvalidComponentOrder(ix.to_owned()));
    }
    let mut axes: Vec<Index> = Vec::new();
    let mut k: usize = 0;
    while k < len
        invariant
            ix@ != seq!['p'],
            len == ix@.len(),
            1 <= len <= 4,
            k <= len,
            axes@.len() == k,
            forall|m: int| 0 <= m < k ==> crate::index::idx_of_char(#[trigger] ix@[m]) is Some,
            forall|m: int|
                0 <= m < k ==> #[trigger] axes@[m] == crate::index::idx_of_char(ix@[m])->Some_0,
        decreases len - k,
    {
        match Index::try_from_char(ix.get_char(k)) {
            Ok(i) => {
                axes.push(i);
            },
            Err(_) => {
                return Err(crate::error::ArError::InvalidIndex(ix.to_owned()));
            },
        }
        k = k + 1;
    }
    proof {
        assert(axes@ =~= parsed_axes(ix@));
    }
    match Form::try_from_indices(&axes) {
        Ok(f) => Ok(f),
        Err(_) => Err(crate::error::ArError::InvalidComponentOrder(ix.to_owned())),
    }
}

} // verus!
