use vstd::prelude::*;

use super::{common_keyword, get_common_keyword, KeywordKind};
use crate::json::text_eq;

verus! {

/// Draft 6: numeric exclusive bounds; `const` and `contains`; sub-schemas are kept under `definitions`.
#[derive(Debug, Default)]
pub struct Draft06;

pub open spec fn keyword(key: Seq<char>) -> Option<KeywordKind> {
    if key == "exclusiveMinimum"@ {
        Some(KeywordKind::ExclusiveMinimum)
    } else if key == "exclusiveMaximum"@ {
        Some(KeywordKind::ExclusiveMaximum)
    } else if key == "definitions"@ {
        Some(KeywordKind::Definitions)
    } else if key == "const"@ {
        Some(KeywordKind::Const)
    } else if key == "contains"@ {
        Some(KeywordKind::Contains)
    } else if key == "dependencies"@ {
        Some(KeywordKind::Dependencies)
    } else {
        common_keyword(key)
    }
}

impl Draft06 {
    /// The meaning of `key` in this draft.
    pub fn get_keyword(key: &str) -> (r: Option<KeywordKind>)
        ensures
            r == keyword(key@),
    {
        if text_eq(key, "exclusiveMinimum") {
            Some(KeywordKind::ExclusiveMinimum)
        } else if text_eq(key, "exclusiveMaximum") {
            Some(KeywordKind::ExclusiveMaximum)
        } else if text_eq(key, "definitions") {
            Some(KeywordKind::Definitions)
        } else if text_eq(key, "const") {
            Some(KeywordKind::Const)
        } else if text_eq(key, "contains") {
            Some(KeywordKind::Contains)
        } else if text_eq(key, "dependencies") {
            Some(KeywordKind::Dependencies)
        } else {
            get_common_keyword(key)
        }
    }
}

} // verus!
