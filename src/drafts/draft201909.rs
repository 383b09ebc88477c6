use vstd::prelude::*;

use super::{conditional_keyword, get_conditional_keyword, KeywordKind};
use crate::json::text_eq;

verus! {

/// Draft 2019-09: numeric exclusive bounds; `if`, `then` and `else`; sub-schemas are kept under `$defs`.
#[derive(Debug, Default)]
pub struct Draft201909;

pub open spec fn keyword(key: Seq<char>) -> Option<KeywordKind> {
    if key == "exclusiveMinimum"@ {
        Some(KeywordKind::ExclusiveMinimum)
    } else if key == "exclusiveMaximum"@ {
        Some(KeywordKind::ExclusiveMaximum)
    } else if key == "$defs"@ {
        Some(KeywordKind::Definitions)
    } else if key == "dependentRequired"@ {
        Some(KeywordKind::DependentRequired)
    } else if key == "dependentSchemas"@ {
        Some(KeywordKind::DependentSchemas)
    } else {
        conditional_keyword(key)
    }
}

impl Draft201909 {
    /// The meaning of `key` in this draft.
    pub fn get_keyword(key: &str) -> (r: Option<KeywordKind>)
        ensures
            r == keyword(key@),
    {
        if text_eq(key, "exclusiveMinimum") {
            Some(KeywordKind::ExclusiveMinimum)
        } else if text_eq(key, "exclusiveMaximum") {
            Some(KeywordKind::ExclusiveMaximum)
        } else if text_eq(key, "$defs") {
            Some(KeywordKind::Definitions)
        } else if text_eq(key, "dependentRequired") {
            Some(KeywordKind::DependentRequired)
        } else if text_eq(key, "dependentSchemas") {
            Some(KeywordKind::DependentSchemas)
        } else {
            get_conditional_keyword(key)
        }
    }
}

} // verus!
