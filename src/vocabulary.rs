use vstd::prelude::*;

use crate::json::{text_eq, Json};
use crate::pattern::regex_valid;
use vstd::string::StrSliceExecFns;

verus! {

/// The compiled `type` keyword: which kinds of value it admits.
#[derive(Debug, Clone, Copy, PartialEq, Eq, Structural)]
pub struct Type {
    pub null: bool,
    pub boolean: bool,
    pub integer: bool,
    pub number: bool,
    pub string: bool,
    pub array: bool,
    pub object: bool,
}

/// Whether a `type` keyword admits a value. Every number here is an integer,
/// so `number` and `integer` both admit it.
pub open spec fn type_admits(t: Type, j: Json) -> bool {
    match j {
        Json::Null => t.null,
        Json::Bool(_) => t.boolean,
        Json::Integer(_) => t.integer || t.number,
        Json::Str(_) => t.string,
        Json::Array(_) => t.array,
        Json::Object(_) => t.object,
    }
}

/// The type that admits nothing.
pub open spec fn no_type() -> Type {
    Type {
        null: false,
        boolean: false,
        integer: false,
        number: false,
        string: false,
        array: false,
        object: false,
    }
}

/// `t` with the primitive type called `name` added; `None` for an unknown name.
pub open spec fn with_type_name(t: Type, name: Seq<char>) -> Option<Type> {
    if name == "null"@ {
        Some(Type { null: true, ..t })
    } else if name == "boolean"@ {
        Some(Type { boolean: true, ..t })
    } else if name == "integer"@ {
        Some(Type { integer: true, ..t })
    } else if name == "number"@ {
        Some(Type { number: true, ..t })
    } else if name == "string"@ {
        Some(Type { string: true, ..t })
    } else if name == "array"@ {
        Some(Type { array: true, ..t })
    } else if name == "object"@ {
        Some(Type { object: true, ..t })
    } else {
        None
    }
}

/// The types named by the strings `names[0..n]`, added one by one to `no_type()`.
pub open spec fn type_of_names(names: Seq<Json>, n: int) -> Option<Type>
    decreases n,
{
    if n <= 0 {
        Some(no_type())
    } else {
        match type_of_names(names, n - 1) {
            Some(t) => match names[n - 1] {
                Json::Str(s) => with_type_name(t, s@),
                _ => None,
            },
            None => None,
        }
    }
}

/// The compiled form of a `type` keyword value: one name or an array of names.
pub open spec fn type_of_value(v: Json) -> Option<Type> {
    match v {
        Json::Str(s) => with_type_name(no_type(), s@),
        Json::Array(names) => type_of_names(names@, names@.len() as int),
        _ => None,
    }
}

proof fn lemma_type_of_names_none(names: Seq<Json>, i: int, n: int)
    requires
        0 <= i <= n,
        type_of_names(names, i) is None,
    ensures
        type_of_names(names, n) is None,
    decreases n - i,
{
    if i < n {
        lemma_type_of_names_none(names, i + 1, n);
    }
}

impl Type {
    pub fn admits(&self, j: &Json) -> (r: bool)
        ensures
            r == type_admits(*self, *j),
    {
        match j {
            Json::Null => self.null,
            Json::Bool(_) => self.boolean,
            Json::Integer(_) => self.integer || self.number,
            Json::Str(_) => self.string,
            Json::Array(_) => self.array,
            Json::Object(_) => self.object,
        }
    }

    fn with_name(self, name: &str) -> (r: Option<Type>)
        ensures
            r == with_type_name(self, name@),
    {
        if text_eq(name, "null") {
            Some(Type { null: true, ..self })
        } else if text_eq(name, "boolean") {
            Some(Type { boolean: true, ..self })
        } else if text_eq(name, "integer") {
            Some(Type { integer: true, ..self })
        } else if text_eq(name, "number") {
            Some(Type { number: true, ..self })
        } else if text_eq(name, "string") {
            Some(Type { string: true, ..self })
        } else if text_eq(name, "array") {
            Some(Type { array: true, ..self })
        } else if text_eq(name, "object") {
            Some(Type { object: true, ..self })
        } else {
            None
        }
    }

    /// Compiles a `type` keyword value; `None` when it is malformed.
    pub fn from_value(v: &Json) -> (r: Option<Type>)
        ensures
            r == type_of_value(*v),
    {
        let none = Type {
            null: false,
            boolean: false,
            integer: false,
            number: false,
            string: false,
            array: false,
            object: false,
        };
        match v {
            Json::Str(s) => none.with_name(s.as_str()),
            Json::Array(names) => {
                let mut t = none;
                let mut i: usize = 0;
                while i < names.len()
                    invariant
                        *v == Json::Array(*names),
                        i <= names@.len(),
                        type_of_names(names@, i as int) == Some(t),
                    decreases names.len() - i,
                {
                    match &names[i] {
                        Json::Str(s) => match t.with_name(s.as_str()) {
                            Some(t2) => t = t2,
                            None => {
                                proof { lemma_type_of_names_none(names@, i + 1, names@.len() as int); }
                                return None;
                            },
                        },
                        _ => {
                            proof { lemma_type_of_names_none(names@, i + 1, names@.len() as int); }
                            return None;
                        },
                    }
                    i += 1;
                }
                Some(t)
            },
            _ => None,
        }
    }
}

/// What a size keyword counts: the characters of a string, the elements of an
/// array or the members of an object.
#[derive(Debug, Clone, Copy, PartialEq, Eq, Structural)]
pub enum Measure {
    Length,
    Items,
    Properties,
}

/// The size that `m` gives `j`; `None` for a value of another kind.
pub open spec fn size_of(m: Measure, j: Json) -> Option<int> {
    match (m, j) {
        (Measure::Length, Json::Str(s)) => Some(s@.len() as int),
        (Measure::Items, Json::Array(a)) => Some(a@.len() as int),
        (Measure::Properties, Json::Object(o)) => Some(o@.len() as int),
        _ => None,
    }
}

pub fn measure(m: Measure, j: &Json) -> (r: Option<usize>)
    ensures
        r is None <==> size_of(m, *j) is None,
        r matches Some(k) ==> size_of(m, *j) == Some(k as int),
{
    match (m, j) {
        (Measure::Length, Json::Str(s)) => Some(s.as_str().unicode_len()),
        (Measure::Items, Json::Array(a)) => Some(a.len()),
        (Measure::Properties, Json::Object(o)) => Some(o.len()),
        _ => None,
    }
}

/// What a property's presence asks of its object.
#[derive(Debug)]
pub enum Dependency {
    /// These properties must be present too.
    Names(Vec<String>),
    /// The object must meet this sub-schema.
    Schema(usize),
}

/// One compiled keyword. Sub-schemas are named by their index in the node
/// table; a reference names an entry of the reference table.
#[derive(Debug)]
pub enum KeywordValue {
    Type(Type),
    Minimum(i64),
    Maximum(i64),
    ExclusiveMinimum(i64),
    ExclusiveMaximum(i64),
    /// A regular expression that every string matches somewhere.
    Pattern(String),
    /// A positive divisor of every number.
    MultipleOf(i64),
    /// At least so many characters, elements or members.
    MinSize(Measure, i64),
    /// At most so many characters, elements or members.
    MaxSize(Measure, i64),
    Required(Vec<String>),
    Const(Json),
    Enum(Vec<Json>),
    Properties(Vec<(String, usize)>),
    /// What each named property asks of its object when present. The flag is
    /// set for the older `dependencies` keyword, which names missing
    /// properties under its own name rather than as `dependentRequired`.
    Dependencies(Vec<(String, Dependency)>, bool),
    /// The schema for members whose keys are not listed.
    AdditionalProperties(usize, Vec<String>),
    /// The elements from the given index on meet the sub-schema.
    Items(usize, usize),
    /// Each leading element meets the sub-schema at its own index.
    PrefixItems(Vec<usize>),
    /// Some element meets the sub-schema.
    Contains(usize),
    /// No two elements are equal.
    UniqueItems,
    AllOf(Vec<usize>),
    AnyOf(Vec<usize>),
    OneOf(Vec<usize>),
    Not(usize),
    Ref(usize),
    /// The schema `false`.
    False,
    /// A caller's keyword, by its index in the validator's keyword table.
    Custom(usize, String),
    /// A caller's format, by its index in the same table; it judges strings only.
    Format(usize),
    /// A member that checks nothing: an unknown or inert keyword.
    Annotation,
    /// A `then` or `else` sub-schema, or an `if` after the first; applied only
    /// through the conditional.
    Branch(usize),
    /// Named sub-schemas kept for references.
    Definitions(Vec<(String, usize)>),
    /// `if` with the `then` and `else` beside it, where present.
    Conditional(usize, Option<usize>, Option<usize>),
}

/// One compiled schema object: its location in the document (a JSON pointer
/// fragment such as `#/properties/a`) and its keywords in declaration order.
#[derive(Debug)]
pub struct Node {
    pub location: Vec<char>,
    pub keywords: Vec<KeywordValue>,
}

/// Every index that a keyword holds is in range.
pub open spec fn keyword_wf(k: KeywordValue, n_nodes: nat, n_refs: nat) -> bool {
    match k {
        KeywordValue::Properties(ps) => forall|i: int| 0 <= i < ps@.len() ==> ps@[i].1 < n_nodes,
        KeywordValue::Items(c, _) => c < n_nodes,
        KeywordValue::Branch(c) => c < n_nodes,
        KeywordValue::Pattern(p) => regex_valid(p@),
        KeywordValue::Definitions(ps) => forall|i: int| 0 <= i < ps@.len() ==> ps@[i].1 < n_nodes,
        KeywordValue::Dependencies(ds, _) => forall|i: int|
            0 <= i < ds@.len() ==> (#[trigger] ds@[i].1 matches Dependency::Schema(c) ==> c < n_nodes),
        KeywordValue::PrefixItems(cs) => forall|i: int| 0 <= i < cs@.len() ==> cs@[i] < n_nodes,
        KeywordValue::Contains(c) => c < n_nodes,
        KeywordValue::AdditionalProperties(c, _) => c < n_nodes,
        KeywordValue::AllOf(cs) => forall|i: int| 0 <= i < cs@.len() ==> cs@[i] < n_nodes,
        KeywordValue::AnyOf(cs) => forall|i: int| 0 <= i < cs@.len() ==> cs@[i] < n_nodes,
        KeywordValue::OneOf(cs) => forall|i: int| 0 <= i < cs@.len() ==> cs@[i] < n_nodes,
        KeywordValue::Not(c) => c < n_nodes,
        KeywordValue::Ref(r) => r < n_refs,
        KeywordValue::Conditional(c, t, e) => c < n_nodes && (t matches Some(t) ==> t < n_nodes) && (
        e matches Some(e) ==> e < n_nodes),
        _ => true,
    }
}

pub open spec fn node_wf(n: Node, n_nodes: nat, n_refs: nat) -> bool {
    forall|k: int| 0 <= k < n.keywords@.len() ==> keyword_wf(#[trigger] n.keywords@[k], n_nodes, n_refs)
}

pub open spec fn nodes_wf(nodes: Seq<Node>, n_nodes: nat, n_refs: nat) -> bool {
    forall|i: int| 0 <= i < nodes.len() ==> node_wf(#[trigger] nodes[i], n_nodes, n_refs)
}

/// A keyword supplied by the caller, compiled once for each place where its
/// name occurs in a schema.
pub trait Keyword {
    /// Whether the keyword holds of `instance`.
    spec fn holds(&self, instance: Json) -> bool;

    fn is_valid(&self, instance: &Json) -> (r: bool)
        ensures
            r == self.holds(*instance);
}

/// Builds a caller's keyword from the value that a schema gives it.
pub trait KeywordFactory {
    type Output: Keyword;

    /// Whether the factory takes `value`.
    spec fn accepts(&self, value: Json) -> bool;

    /// Whether `k` is a keyword the factory may build from `value`.
    spec fn builds(&self, value: Json, k: Self::Output) -> bool;

    /// The keyword for `value`; `None` when the value is not acceptable.
    fn init(&self, value: &Json) -> (r: Option<Self::Output>)
        ensures
            r is Some <==> self.accepts(*value),
            r matches Some(k) ==> self.builds(*value, k);
}

/// The keyword type of a validator that has no caller's keywords.
#[derive(Debug, Clone, Copy)]
pub struct NoKeyword;

impl Keyword for NoKeyword {
    open spec fn holds(&self, instance: Json) -> bool {
        true
    }

    fn is_valid(&self, instance: &Json) -> (r: bool) {
        true
    }
}

/// The factory type of a builder that registers no keyword.
#[derive(Debug, Clone, Copy)]
pub struct NoFactory;

impl KeywordFactory for NoFactory {
    type Output = NoKeyword;

    open spec fn accepts(&self, value: Json) -> bool {
        false
    }

    open spec fn builds(&self, value: Json, k: NoKeyword) -> bool {
        false
    }

    fn init(&self, value: &Json) -> (r: Option<NoKeyword>) {
        None
    }
}

} // verus!
