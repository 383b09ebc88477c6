use vstd::prelude::*;

use super::{conditional_keyword, get_conditional_keyword, KeywordKind};
use crate::json::text_eq;

verus! {

/// Draft 2020-12: numeric exclusive bounds; `prefixItems` for tuples, `items`
/// for the elements after them; `if`, `then` and `else`; sub-schemas are kept under `$defs`.
#[derive(Debug, Default)]
pub struct Draft202012;

pub open spec fn keyword(key: Seq<char>) -> Option<KeywordKind> {
    if key == "exclusiveMinimum"@ {
        Some(KeywordKind::ExclusiveMinimum)
    } else if key == "exclusiveMaximum"@ {
        Some(KeywordKind::ExclusiveMaximum)
    } else if key == "$defs"@ {
        Some(KeywordKind::Definitions)
    } else if key == "dependentRequired"@ {
        Some(KeywordKind::DependentRequired)
    } else if key == "dependentSchemas"@ {
        Some(KeywordKind::DependentSchemas)
    } else if key == "prefixItems"@ {
        Some(KeywordKind::PrefixItems)
    } else {
        conditional_keyword(key)
    }
}

impl Draft202012 {
    /// The meaning of `key` in this draft.
    pub fn get_keyword(key: &str) -> (r: Option<KeywordKind>)
        ensures
            r == keyword(key@),
    {
        if text_eq(key, "exclusiveMinimum") {
            Some(KeywordKind::ExclusiveMinimum)
        } else if text_eq(key, "exclusiveMaximum") {
            Some(KeywordKind::ExclusiveMaximum)
        } else if text_eq(key, "$defs") {
            Some(KeywordKind::Definitions)
        } else if text_eq(key, "dependentRequired") {
            Some(KeywordKind::DependentRequired)
        } else if text_eq(key, "dependentSchemas") {
            Some(KeywordKind::DependentSchemas)
        } else if text_eq(key, "prefixItems") {
            Some(KeywordKind::PrefixItems)
        } else {
            get_conditional_keyword(key)
        }
    }
}

} // verus!
