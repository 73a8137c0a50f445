//! A symbolic computation engine for a fixed sixteen-element graded algebra
//! over four basis directions (one temporal, three spatial).
//!
//! Directed units ([`Alpha`]) are signed members of a closed registry of
//! sixteen forms. They combine under a non-commutative full product
//! ([`ar_product`]) that applies the fixed +--- metric, cancels repeated
//! axes with parity tracking, and reorders the surviving axes to the
//! canonical order of the registry. Terms pair a directed unit with an
//! exact rational magnitude and a symbolic coefficient tree, and composite
//! quantities ([`MultiVector`]) collect terms and support simplification,
//! grade projection, the conjugation operators of the algebra, and general
//! division.

use vstd::prelude::*;

pub mod sign;
pub mod index;
pub mod form;
pub mod registry;
pub mod alpha;
pub mod product;
pub mod laws;
pub mod magnitude;
pub mod ratio;
pub mod xi;
pub mod term;
pub mod multivector;
pub mod operations;
pub mod differential;
pub mod config;
pub mod error;
pub mod string_help;

verus! {

} // verus!
