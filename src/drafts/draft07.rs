use vstd::prelude::*;

use super::{conditional_keyword, get_conditional_keyword, KeywordKind};
use crate::json::text_eq;

verus! {

/// Draft 7: numeric exclusive bounds; `if`, `then` and `else`; sub-schemas are kept under `definitions`.
#[derive(Debug, Default)]
pub struct Draft07;

pub open spec fn keyword(key: Seq<char>) -> Option<KeywordKind> {
    if key == "exclusiveMinimum"@ {
        Some(KeywordKind::ExclusiveMinimum)
    } else if key == "exclusiveMaximum"@ {
        Some(KeywordKind::ExclusiveMaximum)
    } else if key == "definitions"@ {
        Some(KeywordKind::Definitions)
    } else if key == "dependencies"@ {
        Some(KeywordKind::Dependencies)
    } else {
        conditional_keyword(key)
    }
}

impl Draft07 {
    /// The meaning of `key` in this draft.
    pub fn get_keyword(key: &str) -> (r: Option<KeywordKind>)
        ensures
            r == keyword(key@),
    {
        if text_eq(key, "exclusiveMinimum") {
            Some(KeywordKind::ExclusiveMinimum)
        } else if text_eq(key, "exclusiveMaximum") {
            Some(KeywordKind::ExclusiveMaximum)
        } else if text_eq(key, "definitions") {
            Some(KeywordKind::Definitions)
        } else if text_eq(key, "dependencies") {
            Some(KeywordKind::Dependencies)
        } else {
            get_conditional_keyword(key)
        }
    }
}

} // verus!
