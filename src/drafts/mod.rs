use vstd::prelude::*;

use crate::json::{chars_eq, chars_of, lookup, text_eq, Json};

mod draft04;
mod draft06;
mod draft07;
mod draft201909;
mod draft202012;

pub use draft04::Draft04;
pub use draft06::Draft06;
pub use draft07::Draft07;
pub use draft201909::Draft201909;
pub use draft202012::Draft202012;

verus! {

/// A version of the schema language.
#[derive(Debug, Clone, Copy, PartialEq, Eq, Structural)]
pub enum Draft {
    Draft04,
    Draft06,
    Draft07,
    Draft201909,
    Draft202012,
}

/// What a schema keyword means in a given draft.
#[derive(Debug, Clone, Copy, PartialEq, Eq, Structural)]
pub enum KeywordKind {
    Type,
    Minimum,
    Maximum,
    /// A numeric exclusive bound.
    ExclusiveMinimum,
    ExclusiveMaximum,
    /// A boolean that makes the sibling `minimum` exclusive.
    ExclusiveMinimumFlag,
    ExclusiveMaximumFlag,
    MultipleOf,
    Required,
    Properties,
    /// A schema for the members that the sibling `properties` does not name.
    AdditionalProperties,
    Items,
    /// Schemas for the leading elements of an array, one by one; Draft 2020-12.
    PrefixItems,
    AllOf,
    AnyOf,
    OneOf,
    Not,
    Ref,
    MinLength,
    MaxLength,
    MinItems,
    MaxItems,
    MinProperties,
    MaxProperties,
    /// One value that an instance must equal; from Draft 6 on.
    Const,
    /// A schema that some element of an array must meet; from Draft 6 on.
    Contains,
    /// Whether the elements of an array must differ from each other.
    UniqueItems,
    /// A list of values, one of which an instance must equal.
    Enum,
    /// Per property: names that must be present, or a schema the object must
    /// meet, when the property is; Drafts 4 to 7.
    Dependencies,
    /// Per property: names that must be present when it is; from Draft 2019-09 on.
    DependentRequired,
    /// Per property: a schema the object must meet when it is present; from Draft 2019-09 on.
    DependentSchemas,
    /// A regular expression that string values must match.
    Pattern,
    /// A named format that string values must have, where the caller registered one.
    Format,
    /// A container of named sub-schemas that validate nothing themselves.
    Definitions,
    /// The condition of a conditional; `then` and `else` are its branches.
    If,
    Then,
    Else,
}

/// Keywords that every supported draft reads in the same way.
pub open spec fn common_keyword(key: Seq<char>) -> Option<KeywordKind> {
    if key == "type"@ {
        Some(KeywordKind::Type)
    } else if key == "minimum"@ {
        Some(KeywordKind::Minimum)
    } else if key == "maximum"@ {
        Some(KeywordKind::Maximum)
    } else if key == "multipleOf"@ {
        Some(KeywordKind::MultipleOf)
    } else if key == "required"@ {
        Some(KeywordKind::Required)
    } else if key == "properties"@ {
        Some(KeywordKind::Properties)
    } else if key == "additionalProperties"@ {
        Some(KeywordKind::AdditionalProperties)
    } else if key == "items"@ {
        Some(KeywordKind::Items)
    } else if key == "allOf"@ {
        Some(KeywordKind::AllOf)
    } else if key == "anyOf"@ {
        Some(KeywordKind::AnyOf)
    } else if key == "oneOf"@ {
        Some(KeywordKind::OneOf)
    } else if key == "not"@ {
        Some(KeywordKind::Not)
    } else if key == "$ref"@ {
        Some(KeywordKind::Ref)
    } else if key == "enum"@ {
        Some(KeywordKind::Enum)
    } else if key == "uniqueItems"@ {
        Some(KeywordKind::UniqueItems)
    } else if key == "pattern"@ {
        Some(KeywordKind::Pattern)
    } else if key == "format"@ {
        Some(KeywordKind::Format)
    } else if key == "minLength"@ {
        Some(KeywordKind::MinLength)
    } else if key == "maxLength"@ {
        Some(KeywordKind::MaxLength)
    } else if key == "minItems"@ {
        Some(KeywordKind::MinItems)
    } else if key == "maxItems"@ {
        Some(KeywordKind::MaxItems)
    } else if key == "minProperties"@ {
        Some(KeywordKind::MinProperties)
    } else if key == "maxProperties"@ {
        Some(KeywordKind::MaxProperties)
    } else {
        None
    }
}

pub fn get_common_keyword(key: &str) -> (r: Option<KeywordKind>)
    ensures
        r == common_keyword(key@),
{
    if text_eq(key, "type") {
        Some(KeywordKind::Type)
    } else if text_eq(key, "minimum") {
        Some(KeywordKind::Minimum)
    } else if text_eq(key, "maximum") {
        Some(KeywordKind::Maximum)
    } else if text_eq(key, "multipleOf") {
        Some(KeywordKind::MultipleOf)
    } else if text_eq(key, "required") {
        Some(KeywordKind::Required)
    } else if text_eq(key, "properties") {
        Some(KeywordKind::Properties)
    } else if text_eq(key, "additionalProperties") {
        Some(KeywordKind::AdditionalProperties)
    } else if text_eq(key, "items") {
        Some(KeywordKind::Items)
    } else if text_eq(key, "allOf") {
        Some(KeywordKind::AllOf)
    } else if text_eq(key, "anyOf") {
        Some(KeywordKind::AnyOf)
    } else if text_eq(key, "oneOf") {
        Some(KeywordKind::OneOf)
    } else if text_eq(key, "not") {
        Some(KeywordKind::Not)
    } else if text_eq(key, "$ref") {
        Some(KeywordKind::Ref)
    } else if text_eq(key, "enum") {
        Some(KeywordKind::Enum)
    } else if text_eq(key, "uniqueItems") {
        Some(KeywordKind::UniqueItems)
    } else if text_eq(key, "pattern") {
        Some(KeywordKind::Pattern)
    } else if text_eq(key, "format") {
        Some(KeywordKind::Format)
    } else if text_eq(key, "minLength") {
        Some(KeywordKind::MinLength)
    } else if text_eq(key, "maxLength") {
        Some(KeywordKind::MaxLength)
    } else if text_eq(key, "minItems") {
        Some(KeywordKind::MinItems)
    } else if text_eq(key, "maxItems") {
        Some(KeywordKind::MaxItems)
    } else if text_eq(key, "minProperties") {
        Some(KeywordKind::MinProperties)
    } else if text_eq(key, "maxProperties") {
        Some(KeywordKind::MaxProperties)
    } else {
        None
    }
}

/// The conditional keywords, known from Draft 7 on, beside `const` and `contains`.
pub open spec fn conditional_keyword(key: Seq<char>) -> Option<KeywordKind> {
    if key == "if"@ {
        Some(KeywordKind::If)
    } else if key == "then"@ {
        Some(KeywordKind::Then)
    } else if key == "else"@ {
        Some(KeywordKind::Else)
    } else if key == "const"@ {
        Some(KeywordKind::Const)
    } else if key == "contains"@ {
        Some(KeywordKind::Contains)
    } else {
        common_keyword(key)
    }
}

pub fn get_conditional_keyword(key: &str) -> (r: Option<KeywordKind>)
    ensures
        r == conditional_keyword(key@),
{
    if text_eq(key, "if") {
        Some(KeywordKind::If)
    } else if text_eq(key, "then") {
        Some(KeywordKind::Then)
    } else if text_eq(key, "else") {
        Some(KeywordKind::Else)
    } else if text_eq(key, "const") {
        Some(KeywordKind::Const)
    } else if text_eq(key, "contains") {
        Some(KeywordKind::Contains)
    } else {
        get_common_keyword(key)
    }
}

/// The keyword table of each draft.
pub open spec fn keyword_of(draft: Draft, key: Seq<char>) -> Option<KeywordKind> {
    match draft {
        Draft::Draft04 => draft04::keyword(key),
        Draft::Draft06 => draft06::keyword(key),
        Draft::Draft07 => draft07::keyword(key),
        Draft::Draft201909 => draft201909::keyword(key),
        Draft::Draft202012 => draft202012::keyword(key),
    }
}

/// Whether `$ref` makes the other keywords of its schema object inert.
pub open spec fn ref_overrides_siblings(draft: Draft) -> bool {
    draft is Draft04 || draft is Draft06 || draft is Draft07
}

impl Draft {
    /// The most recent draft: used when a schema does not name one.
    pub fn latest() -> (r: Draft)
        ensures
            r == Draft::Draft202012,
    {
        Draft::Draft202012
    }

    /// What `key` means in this draft; `None` for a keyword it does not know.
    pub fn get_keyword(&self, key: &str) -> (r: Option<KeywordKind>)
        ensures
            r == keyword_of(*self, key@),
    {
        match self {
            Draft::Draft04 => Draft04::get_keyword(key),
            Draft::Draft06 => Draft06::get_keyword(key),
            Draft::Draft07 => Draft07::get_keyword(key),
            Draft::Draft201909 => Draft201909::get_keyword(key),
            Draft::Draft202012 => Draft202012::get_keyword(key),
        }
    }

    pub fn ref_overrides_siblings(&self) -> (r: bool)
        ensures
            r == ref_overrides_siblings(*self),
    {
        match self {
            Draft::Draft04 | Draft::Draft06 | Draft::Draft07 => true,
            _ => false,
        }
    }
}

/// Index of the first `#` in `u`.
pub open spec fn first_hash(u: Seq<char>) -> Option<int>
    decreases u.len(),
{
    if u.len() == 0 {
        None
    } else {
        match first_hash(u.drop_last()) {
            Some(i) => Some(i),
            None => if u.last() == '#' { Some(u.len() - 1) } else { None },
        }
    }
}

/// The URL without an empty fragment; `None` when the fragment is not empty.
pub open spec fn without_empty_fragment(u: Seq<char>) -> Option<Seq<char>> {
    match first_hash(u) {
        Some(i) => if i + 1 == u.len() { Some(u.take(i)) } else { None },
        None => Some(u),
    }
}

pub open spec fn starts_with(u: Seq<char>, p: Seq<char>) -> bool {
    p.len() <= u.len() && u.take(p.len() as int) == p
}

/// The URL without a leading `http://` or `https://`.
pub open spec fn without_scheme(u: Seq<char>) -> Seq<char> {
    if starts_with(u, "http://"@) {
        u.skip(7)
    } else if starts_with(u, "https://"@) {
        u.skip(8)
    } else {
        u
    }
}

/// The draft that a meta-schema identifier (scheme and fragment removed) names.
pub open spec fn draft_of_id(id: Seq<char>) -> Option<Draft> {
    if id == "json-schema.org/schema"@ {
        Some(Draft::Draft202012)
    } else if id == "json-schema.org/draft/2020-12/schema"@ {
        Some(Draft::Draft202012)
    } else if id == "json-schema.org/draft/2019-09/schema"@ {
        Some(Draft::Draft201909)
    } else if id == "json-schema.org/draft-07/schema"@ {
        Some(Draft::Draft07)
    } else if id == "json-schema.org/draft-06/schema"@ {
        Some(Draft::Draft06)
    } else if id == "json-schema.org/draft-04/schema"@ {
        Some(Draft::Draft04)
    } else {
        None
    }
}

/// The draft that a `$schema` URL names, if any.
pub open spec fn draft_of_url(u: Seq<char>) -> Option<Draft> {
    match without_empty_fragment(u) {
        Some(base) => draft_of_id(without_scheme(base)),
        None => None,
    }
}

/// The draft a schema is compiled with when none is chosen: the one its
/// `$schema` names, or else the latest.
pub open spec fn draft_of_schema(schema: Json) -> Draft {
    match lookup(schema, "$schema"@) {
        Some(Json::Str(u)) => match draft_of_url(u@) {
            Some(d) => d,
            None => Draft::Draft202012,
        },
        _ => Draft::Draft202012,
    }
}

proof fn lemma_first_hash(u: Seq<char>)
    ensures
        match first_hash(u) {
            Some(i) => 0 <= i < u.len() && u[i] == '#' && forall|k: int| 0 <= k < i ==> u[k] != '#',
            None => forall|k: int| 0 <= k < u.len() ==> u[k] != '#',
        },
    decreases u.len(),
{
    if u.len() > 0 {
        lemma_first_hash(u.drop_last());
        assert(forall|k: int| 0 <= k < u.len() - 1 ==> u.drop_last()[k] == u[k]);
    }
}

fn has_prefix(u: &Vec<char>, p: &str) -> (r: bool)
    ensures
        r == starts_with(u@, p@),
{
    let pc = chars_of(p);
    if pc.len() > u.len() {
        return false;
    }
    let head = take_front(u, pc.len());
    chars_eq(&head, &pc)
}

fn take_front(u: &Vec<char>, n: usize) -> (r: Vec<char>)
    requires
        n <= u.len(),
    ensures
        r@ == u@.take(n as int),
{
    let mut r: Vec<char> = Vec::new();
    let mut i: usize = 0;
    while i < n
        invariant
            n <= u.len(),
            i <= n,
            r@ == u@.take(i as int),
        decreases n - i,
    {
        r.push(u[i]);
        i += 1;
        assert(r@ =~= u@.take(i as int));
    }
    r
}

fn skip_front(u: &Vec<char>, n: usize) -> (r: Vec<char>)
    requires
        n <= u.len(),
    ensures
        r@ == u@.skip(n as int),
{
    let mut r: Vec<char> = Vec::new();
    let mut i: usize = n;
    while i < u.len()
        invariant
            n <= i <= u.len(),
            r@ == u@.subrange(n as int, i as int),
        decreases u.len() - i,
    {
        r.push(u[i]);
        i += 1;
        assert(r@ =~= u@.subrange(n as int, i as int));
    }
    assert(r@ =~= u@.skip(n as int));
    r
}

fn id_is(id: &Vec<char>, known: &str) -> (r: bool)
    ensures
        r == (id@ == known@),
{
    let k = chars_of(known);
    chars_eq(id, &k)
}

/// The draft that a `$schema` URL names. The scheme may be `http://`, `https://`
/// or absent; a trailing empty fragment is allowed. A URL with a non-empty
/// fragment names a sub-schema, not a draft.
pub fn from_url(url: &str) -> (r: Option<Draft>)
    ensures
        r == draft_of_url(url@),
{
    let u = chars_of(url);
    proof { lemma_first_hash(u@); }
    let mut i: usize = 0;
    while i < u.len() && u[i] != '#'
        invariant
            i <= u@.len(),
            forall|k: int| 0 <= k < i ==> u@[k] != '#',
        decreases u.len() - i,
    {
        i += 1;
    }
    proof { lemma_first_hash(u@); }
    if i < u.len() && i + 1 < u.len() {
        return None;
    }
    let base = take_front(&u, i);
    assert(without_empty_fragment(u@) == Some(base@)) by {
        if i == u.len() {
            assert(base@ =~= u@);
        }
    }
    proof {
        reveal_strlit("http://");
        reveal_strlit("https://");
    }
    let id = if has_prefix(&base, "http://") {
        skip_front(&base, 7)
    } else if has_prefix(&base, "https://") {
        skip_front(&base, 8)
    } else {
        base
    };
    if id_is(&id, "json-schema.org/schema") {
        Some(Draft::latest())
    } else if id_is(&id, "json-schema.org/draft/2020-12/schema") {
        Some(Draft::Draft202012)
    } else if id_is(&id, "json-schema.org/draft/2019-09/schema") {
        Some(Draft::Draft201909)
    } else if id_is(&id, "json-schema.org/draft-07/schema") {
        Some(Draft::Draft07)
    } else if id_is(&id, "json-schema.org/draft-06/schema") {
        Some(Draft::Draft06)
    } else if id_is(&id, "json-schema.org/draft-04/schema") {
        Some(Draft::Draft04)
    } else {
        None
    }
}

/// The draft a schema declares through `$schema`, or the latest one.
pub fn draft_from_schema(schema: &Json) -> (r: Draft)
    ensures
        r == draft_of_schema(*schema),
{
    match schema.get("$schema") {
        Some(Json::Str(u)) => match from_url(u.as_str()) {
            Some(d) => d,
            None => Draft::latest(),
        },
        _ => Draft::latest(),
    }
}

/// A `$schema` URL with a non-empty fragment names no draft, so the schema
/// falls back to the latest draft rather than to a guessed one.
pub proof fn fragment_names_no_draft(u: Seq<char>, i: int)
    requires
        0 <= i < u.len(),
        u[i] == '#',
        i + 1 < u.len(),
    ensures
        draft_of_url(u) is None,
{
    lemma_first_hash(u);
}

/// A schema without `$schema` is compiled with the latest draft.
pub proof fn undeclared_draft_is_latest(schema: Json)
    requires
        lookup(schema, "$schema"@) is None,
    ensures
        draft_of_schema(schema) == Draft::Draft202012,
{
}

/// A `$schema` that names no known draft also leads to the latest draft.
pub proof fn unknown_draft_is_latest(schema: Json, u: String)
    requires
        lookup(schema, "$schema"@) == Some(Json::Str(u)),
        draft_of_url(u@) is None,
    ensures
        draft_of_schema(schema) == Draft::Draft202012,
{
}

} // verus!
