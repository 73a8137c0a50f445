//! Small string helpers shared by the construction interfaces.

use vstd::prelude::*;
use vstd::string::StringExecFns;

verus! {

/// An owned copy of an error text.
pub fn err_text(s: &str) -> (r: String)
    ensures
        r@ == s@,
{
    String::from_str(s)
}

} // verus!
