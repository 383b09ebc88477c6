use vstd::prelude::*;

verus! {

/// Why a schema could not be compiled.
#[derive(Debug, PartialEq, Eq)]
pub enum BuildError {
    /// A position that must hold a schema holds neither an object nor a boolean.
    InvalidSchema { location: String },
    /// A keyword's value has the wrong shape for the draft in use.
    InvalidKeyword { location: String, keyword: String },
    /// A `$ref` names no schema location of the document; external references
    /// are not fetched, so they end here too.
    UnresolvableReference { reference: String },
}

/// Relies on std's `FromIterator<char>` for `String`: the string holds the
/// characters in order.
#[verifier::external_body]
pub(crate) fn string_from_chars(c: &Vec<char>) -> (r: String)
    ensures
        r@ == c@,
{
    c.iter().collect()
}

} // verus!
