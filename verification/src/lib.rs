//! An in-memory representation of a compiler's intermediate form: a mutable,
//! tree-structured graph of operations nested inside regions and blocks,
//! together with the builder protocol that constructs operations piece by
//! piece before committing them into the graph.
//!
//! All entities live in an arena owned by a [`context::Context`]; handles are
//! indices into that arena, so non-owning references never dangle.  The
//! well-formedness predicate on the arena states that parent and child links
//! agree in both directions and that every upward parent walk terminates:
//! the graph is a forest, and every node has exactly zero or one owner.

pub mod ancestry;
pub mod attr;
pub mod block;
pub mod builder;
pub mod chars;
pub mod check;
pub mod context;
pub mod location;
pub mod module;
pub mod num;
pub mod operation;
pub mod parse;
pub mod pass;
pub mod region;
pub mod strings;
pub mod text;
pub mod types;
pub mod value;

use vstd::prelude::*;

verus! {

/// The error kinds that graph construction and queries can report.
#[derive(Debug, PartialEq, Eq, Structural)]
pub enum Error {
    IndexOutOfRange,
    VariantMismatch,
    TypeInferenceUnavailable,
    VerificationFailed,
    ParseFailed,
}

} // verus!
