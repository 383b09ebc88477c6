use vstd::prelude::*;
use vstd::string::StrSliceExecFns;

verus! {

/// A JSON document: the data model that schemas and instances are written in.
///
/// Numbers are integers. An object keeps its members in the order in which
/// they were written; a lookup finds the first member with the given key.
#[derive(Debug)]
pub enum Json {
    Null,
    Bool(bool),
    Integer(i64),
    Str(String),
    Array(Vec<Json>),
    Object(Vec<(String, Json)>),
}

/// Index of the first member of `members` whose key is `key`, if any.
pub open spec fn member_index(members: Seq<(String, Json)>, key: Seq<char>) -> Option<int>
    decreases members.len(),
{
    if members.len() == 0 {
        None
    } else {
        match member_index(members.drop_last(), key) {
            Some(i) => Some(i),
            None => if members.last().0@ == key { Some(members.len() - 1) } else { None },
        }
    }
}

/// The value of the first member with key `key`, when `j` is an object that has one.
pub open spec fn lookup(j: Json, key: Seq<char>) -> Option<Json> {
    match j {
        Json::Object(members) => match member_index(members@, key) {
            Some(i) => Some(members@[i].1),
            None => None,
        },
        _ => None,
    }
}

pub proof fn lemma_member_index(members: Seq<(String, Json)>, key: Seq<char>)
    ensures
        match member_index(members, key) {
            Some(i) => 0 <= i < members.len() && members[i].0@ == key && forall|k: int|
                0 <= k < i ==> members[k].0@ != key,
            None => forall|k: int| 0 <= k < members.len() ==> members[k].0@ != key,
        },
    decreases members.len(),
{
    if members.len() > 0 {
        lemma_member_index(members.drop_last(), key);
        assert(forall|k: int| 0 <= k < members.len() - 1 ==> members.drop_last()[k] == members[k]);
    }
}

/// Character-wise equality of two strings.
pub fn text_eq(a: &str, b: &str) -> (r: bool)
    ensures
        r == (a@ == b@),
{
    let n = a.unicode_len();
    if n != b.unicode_len() {
        return false;
    }
    let mut i: usize = 0;
    while i < n
        invariant
            n == a@.len() == b@.len(),
            i <= n,
            forall|k: int| 0 <= k < i ==> a@[k] == b@[k],
        decreases n - i,
    {
        if a.get_char(i) != b.get_char(i) {
            return false;
        }
        i += 1;
    }
    assert(a@ =~= b@);
    true
}

/// The characters of a string, one by one.
pub fn chars_of(s: &str) -> (r: Vec<char>)
    ensures
        r@ == s@,
{
    let n = s.unicode_len();
    let mut r: Vec<char> = Vec::new();
    let mut i: usize = 0;
    while i < n
        invariant
            n == s@.len(),
            i <= n,
            r@ == s@.subrange(0, i as int),
        decreases n - i,
    {
        r.push(s.get_char(i));
        i += 1;
    }
    assert(r@ =~= s@);
    r
}

/// Element-wise equality of two character sequences.
pub fn chars_eq(a: &Vec<char>, b: &Vec<char>) -> (r: bool)
    ensures
        r == (a@ == b@),
{
    if a.len() != b.len() {
        return false;
    }
    let mut i: usize = 0;
    while i < a.len()
        invariant
            a@.len() == b@.len(),
            i <= a@.len(),
            forall|k: int| 0 <= k < i ==> a@[k] == b@[k],
        decreases a.len() - i,
    {
        if a[i] != b[i] {
            return false;
        }
        i += 1;
    }
    assert(a@ =~= b@);
    true
}

impl Json {
    /// The value of the first member named `key`, if this is an object that has one.
    pub fn get(&self, key: &str) -> (r: Option<&Json>)
        ensures
            match lookup(*self, key@) {
                Some(v) => r is Some && *r->0 == v,
                None => r is None,
            },
    {
        match self {
            Json::Object(members) => {
                let mut i: usize = 0;
                while i < members.len()
                    invariant
                        *self == Json::Object(*members),
                        i <= members@.len(),
                        forall|k: int| 0 <= k < i ==> members@[k].0@ != key@,
                    decreases members.len() - i,
                {
                    proof { lemma_member_index(members@, key@); }
                    if text_eq(members[i].0.as_str(), key) {
                        return Some(&members[i].1);
                    }
                    i += 1;
                }
                proof { lemma_member_index(members@, key@); }
                None
            },
            _ => None,
        }
    }

    /// The text of a string value.
    pub fn as_str(&self) -> (r: Option<&str>)
        ensures
            match *self {
                Json::Str(s) => r is Some && r->0@ == s@,
                _ => r is None,
            },
    {
        match self {
            Json::Str(s) => Some(s.as_str()),
            _ => None,
        }
    }
}

/// JSON equality: arrays element by element, objects member by member
/// whatever their order (each member of `a` has an equal value under its key
/// in `b`, and both have as many members).
pub open spec fn json_eq(a: Json, b: Json) -> bool
    decreases a, 1nat, 0int,
{
    match a {
        Json::Null => b is Null,
        Json::Bool(x) => b is Bool && b->Bool_0 == x,
        Json::Integer(x) => b is Integer && b->Integer_0 == x,
        Json::Str(x) => b is Str && b->Str_0@ == x@,
        Json::Array(x) => b is Array && b->Array_0@.len() == x@.len() && elems_eq(a, b, 0),
        Json::Object(x) => b is Object && b->Object_0@.len() == x@.len() && members_eq(a, b, 0),
    }
}

pub open spec fn elems_eq(a: Json, b: Json, i: int) -> bool
    decreases a, 0nat, a->Array_0@.len() - i,
{
    if a is Array && b is Array && 0 <= i < a->Array_0@.len() && i < b->Array_0@.len() {
        json_eq(a->Array_0@[i], b->Array_0@[i]) && elems_eq(a, b, i + 1)
    } else {
        true
    }
}

pub open spec fn members_eq(a: Json, b: Json, i: int) -> bool
    decreases a, 0nat, a->Object_0@.len() - i,
{
    if a is Object && 0 <= i < a->Object_0@.len() {
        (match lookup(b, a->Object_0@[i].0@) {
            Some(w) => json_eq(a->Object_0@[i].1, w),
            None => false,
        }) && members_eq(a, b, i + 1)
    } else {
        true
    }
}

/// Whether two documents are equal as JSON values.
pub fn json_equal(a: &Json, b: &Json) -> (r: bool)
    ensures
        r == json_eq(*a, *b),
    decreases a, 1nat, 0int,
{
    match (a, b) {
        (Json::Null, Json::Null) => true,
        (Json::Bool(x), Json::Bool(y)) => *x == *y,
        (Json::Integer(x), Json::Integer(y)) => *x == *y,
        (Json::Str(x), Json::Str(y)) => *x == *y,
        (Json::Array(x), Json::Array(y)) => {
            if x.len() != y.len() {
                return false;
            }
            let mut i: usize = 0;
            while i < x.len()
                invariant
                    *a == Json::Array(*x),
                    *b == Json::Array(*y),
                    x@.len() == y@.len(),
                    i <= x@.len(),
                    elems_eq(*a, *b, 0) == elems_eq(*a, *b, i as int),
                decreases x.len() - i,
            {
                proof {
                    assert(decreases_to!(*a => a->Array_0));
                    assert(decreases_to!(a->Array_0 => a->Array_0@));
                    assert(decreases_to!(a->Array_0@ => a->Array_0@[i as int]));
                }
                if !json_equal(&x[i], &y[i]) {
                    return false;
                }
                i += 1;
            }
            true
        },
        (Json::Object(x), Json::Object(y)) => {
            if x.len() != y.len() {
                return false;
            }
            let mut i: usize = 0;
            while i < x.len()
                invariant
                    *a == Json::Object(*x),
                    *b == Json::Object(*y),
                    x@.len() == y@.len(),
                    i <= x@.len(),
                    members_eq(*a, *b, 0) == members_eq(*a, *b, i as int),
                decreases x.len() - i,
            {
                proof {
                    assert(decreases_to!(*a => a->Object_0));
                    assert(decreases_to!(a->Object_0 => a->Object_0@));
                    assert(decreases_to!(a->Object_0@ => a->Object_0@[i as int]));
                }
                match b.get(x[i].0.as_str()) {
                    Some(w) => {
                        if !json_equal(&x[i].1, w) {
                            return false;
                        }
                    },
                    None => {
                        return false;
                    },
                }
                i += 1;
            }
            true
        },
        _ => false,
    }
}

proof fn lemma_same_elems(a: Json, b: Json, i: int)
    requires
        a is Array,
        b is Array,
        a->Array_0@.len() == b->Array_0@.len(),
        0 <= i <= a->Array_0@.len(),
        forall|k: int| 0 <= k < a->Array_0@.len() ==> same(#[trigger] a->Array_0@[k], b->Array_0@[k]),
    ensures
        same_elems(a, b, i),
    decreases a->Array_0@.len() - i,
{
    if i < a->Array_0@.len() {
        lemma_same_elems(a, b, i + 1);
    }
}

spec fn member_same(a: Json, b: Json, k: int) -> bool {
    a->Object_0@[k].0@ == b->Object_0@[k].0@ && same(a->Object_0@[k].1, b->Object_0@[k].1)
}

proof fn lemma_same_members(a: Json, b: Json, i: int)
    requires
        a is Object,
        b is Object,
        a->Object_0@.len() == b->Object_0@.len(),
        0 <= i <= a->Object_0@.len(),
        forall|k: int| 0 <= k < a->Object_0@.len() ==> #[trigger] member_same(a, b, k),
    ensures
        same_members(a, b, i),
    decreases a->Object_0@.len() - i,
{
    if i < a->Object_0@.len() {
        lemma_same_members(a, b, i + 1);
        assert(member_same(a, b, i));
    }
}

impl Json {
    /// A copy of this document, part by part.
    pub fn copy(&self) -> (r: Json)
        ensures
            same(r, *self),
        decreases self,
    {
        match self {
            Json::Null => Json::Null,
            Json::Bool(b) => Json::Bool(*b),
            Json::Integer(n) => Json::Integer(*n),
            Json::Str(s) => Json::Str(s.clone()),
            Json::Array(items) => {
                let mut out: Vec<Json> = Vec::new();
                let mut i: usize = 0;
                while i < items.len()
                    invariant
                        *self == Json::Array(*items),
                        i <= items@.len(),
                        out@.len() == i,
                        forall|k: int| 0 <= k < i ==> same(#[trigger] out@[k], items@[k]),
                    decreases items.len() - i,
                {
                    proof {
                        assert(decreases_to!(*self => self->Array_0));
                        assert(decreases_to!(self->Array_0 => self->Array_0@));
                        assert(decreases_to!(self->Array_0@ => self->Array_0@[i as int]));
                    }
                    out.push(items[i].copy());
                    i += 1;
                }
                let r = Json::Array(out);
                proof { lemma_same_elems(r, *self, 0); }
                r
            },
            Json::Object(members) => {
                let mut out: Vec<(String, Json)> = Vec::new();
                let mut i: usize = 0;
                while i < members.len()
                    invariant
                        *self == Json::Object(*members),
                        i <= members@.len(),
                        out@.len() == i,
                        forall|k: int| 0 <= k < i ==> #[trigger] out@[k].0@ == members@[k].0@ && same(out@[k].1, members@[k].1),
                    decreases members.len() - i,
                {
                    proof {
                        assert(decreases_to!(*self => self->Object_0));
                        assert(decreases_to!(self->Object_0 => self->Object_0@));
                        assert(decreases_to!(self->Object_0@ => self->Object_0@[i as int]));
                    }
                    out.push((members[i].0.clone(), members[i].1.copy()));
                    i += 1;
                }
                let r = Json::Object(out);
                proof {
                    assert forall|k: int| 0 <= k < r->Object_0@.len() implies #[trigger] member_same(r, *self, k) by {
                        assert(out@[k].0@ == members@[k].0@);
                    }
                    lemma_same_members(r, *self, 0);
                }
                r
            },
        }
    }
}

/// `a` and `b` are the same document, part for part and in the same order.
pub open spec fn same(a: Json, b: Json) -> bool
    decreases a, 1nat, 0int,
{
    match a {
        Json::Null => b is Null,
        Json::Bool(x) => b == Json::Bool(x),
        Json::Integer(x) => b == Json::Integer(x),
        Json::Str(x) => b is Str && b->Str_0@ == x@,
        Json::Array(x) => b is Array && b->Array_0@.len() == x@.len() && same_elems(a, b, 0),
        Json::Object(x) => b is Object && b->Object_0@.len() == x@.len() && same_members(a, b, 0),
    }
}

pub open spec fn same_elems(a: Json, b: Json, i: int) -> bool
    decreases a, 0nat, a->Array_0@.len() - i,
{
    if a is Array && b is Array && 0 <= i < a->Array_0@.len() && i < b->Array_0@.len() {
        same(a->Array_0@[i], b->Array_0@[i]) && same_elems(a, b, i + 1)
    } else {
        true
    }
}

pub open spec fn same_members(a: Json, b: Json, i: int) -> bool
    decreases a, 0nat, a->Object_0@.len() - i,
{
    if a is Object && b is Object && 0 <= i < a->Object_0@.len() && i < b->Object_0@.len() {
        a->Object_0@[i].0@ == b->Object_0@[i].0@ && same(a->Object_0@[i].1, b->Object_0@[i].1)
            && same_members(a, b, i + 1)
    } else {
        true
    }
}

} // verus!
