//! Errors surfaced to callers by the construction interfaces.

use vstd::prelude::*;
use vstd::string::StringExecFns;

verus! {

/// The recoverable errors of the library: every variant names a
/// construction input that was rejected, with the offending text.
#[derive(Debug)]
pub enum ArError {
    /// The index passed was not one of 0, 1, 2 or 3.
    InvalidIndex(String),
    /// Components can only be of order 0, 1, 2, 3 or 4.
    InvalidComponentOrder(String),
    /// The component provided is not a member of the registry.
    ComponentNotAllowed(String),
    /// There was an attempt to create an invalid configuration value.
    InvalidConfig(String),
    /// The calculation file could not be parsed.
    InvalidCalcFile(String),
}

impl ArError {
    /// A short description of the error's kind.
    pub fn describe(&self) -> (r: String)
        ensures
            self is InvalidIndex ==> r@ == "the index provided was not one of 0, 1, 2 or 3"@,
            self is InvalidComponentOrder ==> r@
                == "attempt to construct a component of order above 4"@,
            self is ComponentNotAllowed ==> r@ == "attempt to use an invalid component"@,
            self is InvalidConfig ==> r@ == "attempt to create an invalid config value"@,
            self is InvalidCalcFile ==> r@ == "problem parsing the calculation file"@,
    {
        match self {
            ArError::InvalidIndex(_) => String::from_str(
                "the index provided was not one of 0, 1, 2 or 3",
            ),
            ArError::InvalidComponentOrder(_) => String::from_str(
                "attempt to construct a component of order above 4",
            ),
            ArError::ComponentNotAllowed(_) => String::from_str(
                "attempt to use an invalid component",
            ),
            ArError::InvalidConfig(_) => String::from_str(
                "attempt to create an invalid config value",
            ),
            ArError::InvalidCalcFile(_) => String::from_str("problem parsing the calculation file"),
        }
    }
}

} // verus!
