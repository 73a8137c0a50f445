//! The four space-time axes of the algebra, written 0 (time) to 3 (space).

use vstd::prelude::*;
use vstd::string::StrSliceExecFns;
use vstd::string::StringExecFns;

use crate::sign::Sign;

verus! {

/// A single space-time axis. One of the four basis elements of the
/// coordinate system: `Zero` is the temporal axis, the rest are spatial.
#[derive(Debug, Eq, PartialEq, Structural, Copy, Clone)]
pub enum Index {
    Zero,
    One,
    Two,
    Three,
}

/// Numeric label of an axis, 0 through 3.
pub open spec fn idx_num(i: Index) -> int {
    match i {
        Index::Zero => 0,
        Index::One => 1,
        Index::Two => 2,
        Index::Three => 3,
    }
}

/// The fixed +--- metric: the temporal axis squares to `Pos`,
/// each spatial axis squares to `Neg`.
pub open spec fn metric_sign(i: Index) -> Sign {
    match i {
        Index::Zero => Sign::Pos,
        _ => Sign::Neg,
    }
}

/// Strict axis order: 0 before 1 before 2 before 3.
pub open spec fn idx_lt(a: Index, b: Index) -> bool {
    idx_num(a) < idx_num(b)
}

/// The axis a single character denotes, if any.
pub open spec fn idx_of_char(c: char) -> Option<Index> {
    if c == '0' {
        Some(Index::Zero)
    } else if c == '1' {
        Some(Index::One)
    } else if c == '2' {
        Some(Index::Two)
    } else if c == '3' {
        Some(Index::Three)
    } else {
        None
    }
}

/// The one-character rendering of an axis, as a character sequence.
pub open spec fn idx_char(i: Index) -> Seq<char> {
    match i {
        Index::Zero => seq!['0'],
        Index::One => seq!['1'],
        Index::Two => seq!['2'],
        Index::Three => seq!['3'],
    }
}

impl Index {
    /// Construction of axis values using 0-3 notation. Errors on any other
    /// number.
    pub fn try_from_u8(x: u8) -> (r: Result<Index, String>)
        ensures
            x == 0 ==> r == Ok::<Index, String>(Index::Zero),
            x == 1 ==> r == Ok::<Index, String>(Index::One),
            x == 2 ==> r == Ok::<Index, String>(Index::Two),
            x == 3 ==> r == Ok::<Index, String>(Index::Three),
            x > 3 ==> r is Err,
    {
        match x {
            0 => Ok(Index::Zero),
            1 => Ok(Index::One),
            2 => Ok(Index::Two),
            3 => Ok(Index::Three),
            _ => Err(String::from_str("not a valid index: must be one of 0-3")),
        }
    }

    /// Parse a single character as an axis. Only '0' to '3' succeed.
    pub fn try_from_char(c: char) -> (r: Result<Index, String>)
        ensures
            idx_of_char(c) is Some ==> r == Ok::<Index, String>(idx_of_char(c)->Some_0),
            idx_of_char(c) is None ==> r is Err,
    {
        match c {
            '0' => Ok(Index::Zero),
            '1' => Ok(Index::One),
            '2' => Ok(Index::Two),
            '3' => Ok(Index::Three),
            _ => Err(String::from_str("not a valid index: must be one of 0-3")),
        }
    }

    /// Parse a one-character string as an axis. Only "0", "1", "2" and "3"
    /// succeed.
    pub fn try_from_str(s: &str) -> (r: Result<Index, String>)
        ensures
            s@.len() == 1 && idx_of_char(s@[0]) is Some ==> r == Ok::<Index, String>(
                idx_of_char(s@[0])->Some_0,
            ),
            !(s@.len() == 1 && idx_of_char(s@[0]) is Some) ==> r is Err,
    {
        if s.unicode_len() == 1 {
            Index::try_from_char(s.get_char(0))
        } else {
            Err(String::from_str("not a valid index: must be one of 0-3"))
        }
    }

    /// Canonical one-character rendering of the axis: "0" through "3".
    pub fn as_str(&self) -> (r: &'static str)
        ensures
            r@ == idx_char(*self),
    {
        proof {
            reveal_strlit("0");
            reveal_strlit("1");
            reveal_strlit("2");
            reveal_strlit("3");
        }
        let r = match self {
            Index::Zero => "0",
            Index::One => "1",
            Index::Two => "2",
            Index::Three => "3",
        };
        proof {
            assert(r@ =~= idx_char(*self));
        }
        r
    }

    /// Whether this axis stands strictly before `other` in the 0-3 order.
    pub fn lt(&self, other: &Index) -> (r: bool)
        ensures
            r == idx_lt(*self, *other),
    {
        self.num() < other.num()
    }

    /// The numeric label of the axis.
    pub fn num(&self) -> (r: u8)
        ensures
            r as int == idx_num(*self),
    {
        match self {
            Index::Zero => 0,
            Index::One => 1,
            Index::Two => 2,
            Index::Three => 3,
        }
    }
}

} // verus!
