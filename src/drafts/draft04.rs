use vstd::prelude::*;

use super::{common_keyword, get_common_keyword, KeywordKind};
use crate::json::text_eq;

verus! {

/// Draft 4: `exclusiveMinimum` and `exclusiveMaximum` are booleans that
/// modify their sibling bounds; sub-schemas are kept under `definitions`.
#[derive(Debug, Default)]
pub struct Draft04;

pub open spec fn keyword(key: Seq<char>) -> Option<KeywordKind> {
    if key == "exclusiveMinimum"@ {
        Some(KeywordKind::ExclusiveMinimumFlag)
    } else if key == "exclusiveMaximum"@ {
        Some(KeywordKind::ExclusiveMaximumFlag)
    } else if key == "definitions"@ {
        Some(KeywordKind::Definitions)
    } else if key == "dependencies"@ {
        Some(KeywordKind::Dependencies)
    } else {
        common_keyword(key)
    }
}

impl Draft04 {
    /// The meaning of `key` in this draft.
    pub fn get_keyword(key: &str) -> (r: Option<KeywordKind>)
        ensures
            r == keyword(key@),
    {
        if text_eq(key, "exclusiveMinimum") {
            Some(KeywordKind::ExclusiveMinimumFlag)
        } else if text_eq(key, "exclusiveMaximum") {
            Some(KeywordKind::ExclusiveMaximumFlag)
        } else if text_eq(key, "definitions") {
            Some(KeywordKind::Definitions)
        } else if text_eq(key, "dependencies") {
            Some(KeywordKind::Dependencies)
        } else {
            get_common_keyword(key)
        }
    }
}

} // verus!
