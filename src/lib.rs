//! Validation of JSON documents against JSON Schema, drafts 4, 6, 7,
//! 2019-09 and 2020-12.
//!
//! A schema is compiled once into a table of nodes addressed by index, so that
//! `$ref` cycles cost nothing to represent; a compiled validator then answers
//! any number of instances, as a verdict, a first error or the full list.
//!
//! - `json`: the document model.
//! - `drafts`: each draft's keyword table, and the draft a `$schema` names.
//! - `vocabulary`: compiled keywords and nodes; the caller's keyword and
//!   factory traits.
//! - `location`: JSON pointer fragments for schema locations.
//! - `compiler`: from a document to the node table, with every `$ref` bound.
//! - `graph`: the compiled table and its well-formedness.
//! - `validation`: what a compiled schema asks of an instance, the errors it
//!   reports, and the evaluation that follows both.
//! - `blocking`: the validator, its builder and the one-shot functions.
//!
//! Numbers are integers. References are resolved within the document.
use vstd::prelude::*;

pub mod blocking;
pub mod compiler;
pub mod drafts;
pub mod error;
pub mod graph;
pub mod json;
pub mod location;
pub mod pattern;
pub mod validation;
pub mod vocabulary;

pub use crate::compiler::Extensions;
pub use crate::blocking::{
    try_evaluate, try_is_valid, try_iter_errors, try_validate, validator_for, Output, Validator,
    ValidatorBuilder,
};
pub use crate::drafts::{Draft, Draft04};
pub use crate::error::BuildError;
pub use crate::graph::JsonSchemaValidator;
pub use crate::json::Json;
pub use crate::validation::{ErrorKind, PathChunk, ValidationError};
pub use crate::vocabulary::{Keyword, KeywordFactory, NoFactory, NoKeyword, Type};

verus! {

} // verus!
