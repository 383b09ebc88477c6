use vstd::prelude::*;

use crate::error::string_from_chars;
use crate::pattern::{pattern_finds, regex_matches};
use crate::graph::JsonSchemaValidator;
use crate::location::{below, below_key, escaped};
use crate::json::{chars_of, json_eq, json_equal, lookup, Json};
use crate::vocabulary::{measure, size_of, type_admits, Dependency, Keyword, KeywordValue, Measure};

verus! {

/// The compiled sub-schema that `properties` gives for `key`: the first entry named so.
pub open spec fn property_index(ps: Seq<(String, usize)>, key: Seq<char>) -> Option<usize>
    decreases ps.len(),
{
    if ps.len() == 0 {
        None
    } else {
        match property_index(ps.drop_last(), key) {
            Some(c) => Some(c),
            None => if ps.last().0@ == key { Some(ps.last().1) } else { None },
        }
    }
}

/// How many steps into the node table one evaluation may take without moving
/// to a smaller part of the instance. A longer chain must pass some node twice,
/// i.e. run round a `$ref` cycle that asks nothing new of the value; such a
/// chain is cut there and holds.
pub open spec fn fuel<K: Keyword>(v: JsonSchemaValidator<K>) -> nat {
    v.nodes@.len()
}

/// `inst` equals one of `values`.
pub open spec fn one_of_values(values: Seq<Json>, inst: Json) -> bool {
    exists|i: int| 0 <= i < values.len() && json_eq(inst, #[trigger] values[i])
}

/// Whether node `n` holds of `inst`.
pub open spec fn valid_node<K: Keyword>(v: JsonSchemaValidator<K>, n: int, inst: Json, f: nat) -> bool
    decreases inst, f, 0nat, 0int,
{
    if f == 0 || !(0 <= n < v.nodes@.len()) {
        true
    } else {
        valid_keywords(v, n, 0, inst, (f - 1) as nat)
    }
}

/// Whether the keywords `k..` of node `n` hold of `inst`.
pub open spec fn valid_keywords<K: Keyword>(v: JsonSchemaValidator<K>, n: int, k: int, inst: Json, f: nat) -> bool
    decreases inst, f, 3nat, v.nodes@[n].keywords@.len() - k,
{
    if 0 <= n < v.nodes@.len() && 0 <= k < v.nodes@[n].keywords@.len() {
        valid_keyword(v, v.nodes@[n].keywords@[k], inst, f) && valid_keywords(v, n, k + 1, inst, f)
    } else {
        true
    }
}

/// Whether one keyword holds of `inst`. Numeric bounds hold of every value
/// that is not a number; `required` and `properties` of every value that is not
/// an object; `items` of every value that is not an array.
pub open spec fn valid_keyword<K: Keyword>(v: JsonSchemaValidator<K>, kw: KeywordValue, inst: Json, f: nat) -> bool
    decreases inst, f, 2nat, 0int,
{
    match kw {
        KeywordValue::Type(t) => type_admits(t, inst),
        KeywordValue::Minimum(m) => !(inst is Integer) || inst->Integer_0 >= m,
        KeywordValue::Maximum(m) => !(inst is Integer) || inst->Integer_0 <= m,
        KeywordValue::ExclusiveMinimum(m) => !(inst is Integer) || inst->Integer_0 > m,
        KeywordValue::ExclusiveMaximum(m) => !(inst is Integer) || inst->Integer_0 < m,
        KeywordValue::Pattern(p) => !(inst is Str) || regex_matches(p@, inst->Str_0@),
        KeywordValue::MultipleOf(m) => !(inst is Integer) || m <= 0 || (inst->Integer_0 as int) % (m as int) == 0,
        KeywordValue::Const(c) => json_eq(inst, c),
        KeywordValue::Enum(vs) => one_of_values(vs@, inst),
        KeywordValue::MinSize(m, n) => size_of(m, inst) matches Some(k) ==> k >= n,
        KeywordValue::MaxSize(m, n) => size_of(m, inst) matches Some(k) ==> k <= n,
        KeywordValue::Required(names) => !(inst is Object) || forall|i: int|
            0 <= i < names@.len() ==> lookup(inst, #[trigger] names@[i]@) is Some,
        KeywordValue::Properties(ps) => valid_properties(v, ps@, inst, 0),
        KeywordValue::Items(c, first) => valid_items(v, c as int, inst, first as int),
        KeywordValue::Dependencies(ds, _) => !(inst is Object) || valid_dependencies(v, ds@, inst, 0, f),
        KeywordValue::PrefixItems(cs) => valid_prefix(v, cs@, inst, 0),
        KeywordValue::Contains(c) => !(inst is Array) || some_item_valid(v, c as int, inst, 0),
        KeywordValue::UniqueItems => !(inst is Array) || all_distinct(inst->Array_0@),
        KeywordValue::AdditionalProperties(c, names) => valid_additional(v, c as int, names@, inst, 0),
        KeywordValue::AllOf(cs) => count_valid(v, cs@, 0, inst, f) == cs@.len(),
        KeywordValue::AnyOf(cs) => count_valid(v, cs@, 0, inst, f) > 0,
        KeywordValue::OneOf(cs) => count_valid(v, cs@, 0, inst, f) == 1,
        KeywordValue::Not(c) => !valid_node(v, c as int, inst, f),
        KeywordValue::Ref(r) => r >= v.references@.len() || valid_node(
            v,
            v.references@[r as int].node as int,
            inst,
            f,
        ),
        KeywordValue::False => false,
        KeywordValue::Annotation | KeywordValue::Branch(_) | KeywordValue::Definitions(_) => true,
        KeywordValue::Custom(i, _) => i >= v.keywords@.len() || v.keywords@[i as int].holds(inst),
        KeywordValue::Format(i) => !(inst is Str) || i >= v.keywords@.len() || v.keywords@[i as int].holds(inst),
        KeywordValue::Conditional(c, t, e) => if valid_node(v, c as int, inst, f) {
            t matches Some(t) ==> valid_node(v, t as int, inst, f)
        } else {
            e matches Some(e) ==> valid_node(v, e as int, inst, f)
        },
    }
}

/// How many of the sub-schemas `cs[i..]` hold of `inst`.
pub open spec fn count_valid<K: Keyword>(v: JsonSchemaValidator<K>, cs: Seq<usize>, i: int, inst: Json, f: nat) -> nat
    decreases inst, f, 1nat, cs.len() - i,
{
    if 0 <= i < cs.len() {
        (if valid_node(v, cs[i] as int, inst, f) { 1nat } else { 0nat }) + count_valid(v, cs, i + 1, inst, f)
    } else {
        0
    }
}

/// Whether each member `j..` of object `inst` meets the sub-schema that `ps`
/// gives for its key.
pub open spec fn valid_properties<K: Keyword>(v: JsonSchemaValidator<K>, ps: Seq<(String, usize)>, inst: Json, j: int) -> bool
    decreases inst, 0nat, 1nat, inst->Object_0@.len() - j,
{
    if inst is Object && 0 <= j < inst->Object_0@.len() {
        (match property_index(ps, inst->Object_0@[j].0@) {
            Some(c) => valid_node(v, c as int, inst->Object_0@[j].1, fuel(v)),
            None => true,
        }) && valid_properties(v, ps, inst, j + 1)
    } else {
        true
    }
}

/// Some entry of `names` is `key`.
pub open spec fn listed(names: Seq<String>, key: Seq<char>) -> bool {
    exists|k: int| 0 <= k < names.len() && names[k]@ == key
}

/// Whether each member `j..` of object `inst` whose key is not listed in
/// `names` meets sub-schema `c`.
pub open spec fn valid_additional<K: Keyword>(v: JsonSchemaValidator<K>, c: int, names: Seq<String>, inst: Json, j: int) -> bool
    decreases inst, 0nat, 1nat, inst->Object_0@.len() - j,
{
    if inst is Object && 0 <= j < inst->Object_0@.len() {
        (listed(names, inst->Object_0@[j].0@) || valid_node(v, c, inst->Object_0@[j].1, fuel(v)))
            && valid_additional(v, c, names, inst, j + 1)
    } else {
        true
    }
}

/// Whether each element `j..` of array `inst` that has a sub-schema in `cs`
/// at its index meets it.
pub open spec fn valid_prefix<K: Keyword>(v: JsonSchemaValidator<K>, cs: Seq<usize>, inst: Json, j: int) -> bool
    decreases inst, 0nat, 1nat, inst->Array_0@.len() - j,
{
    if inst is Array && 0 <= j < inst->Array_0@.len() && j < cs.len() {
        valid_node(v, cs[j] as int, inst->Array_0@[j], fuel(v)) && valid_prefix(v, cs, inst, j + 1)
    } else {
        true
    }
}

/// Every name in `names` is a key of object `inst`.
pub open spec fn all_present(names: Seq<String>, inst: Json) -> bool {
    forall|k: int| 0 <= k < names.len() ==> lookup(inst, #[trigger] names[k]@) is Some
}

/// Whether the dependencies `ds[i..]` whose property `inst` has are met.
pub open spec fn valid_dependencies<K: Keyword>(
    v: JsonSchemaValidator<K>,
    ds: Seq<(String, Dependency)>,
    inst: Json,
    i: int,
    f: nat,
) -> bool
    decreases inst, f, 1nat, ds.len() - i,
{
    if 0 <= i < ds.len() {
        (lookup(inst, ds[i].0@) is None || match ds[i].1 {
            Dependency::Names(ns) => all_present(ns@, inst),
            Dependency::Schema(c) => valid_node(v, c as int, inst, f),
        }) && valid_dependencies(v, ds, inst, i + 1, f)
    } else {
        true
    }
}

/// Whether some element `j..` of array `inst` meets sub-schema `c`.
pub open spec fn some_item_valid<K: Keyword>(v: JsonSchemaValidator<K>, c: int, inst: Json, j: int) -> bool
    decreases inst, 0nat, 1nat, inst->Array_0@.len() - j,
{
    if inst is Array && 0 <= j < inst->Array_0@.len() {
        valid_node(v, c, inst->Array_0@[j], fuel(v)) || some_item_valid(v, c, inst, j + 1)
    } else {
        false
    }
}

/// No two elements of `items` are equal.
pub open spec fn all_distinct(items: Seq<Json>) -> bool {
    forall|i: int, k: int| 0 <= i < k < items.len() ==> !json_eq(#[trigger] items[i], #[trigger] items[k])
}

/// Whether each element `j..` of array `inst` meets sub-schema `c`.
pub open spec fn valid_items<K: Keyword>(v: JsonSchemaValidator<K>, c: int, inst: Json, j: int) -> bool
    decreases inst, 0nat, 1nat, inst->Array_0@.len() - j,
{
    if inst is Array && 0 <= j < inst->Array_0@.len() {
        valid_node(v, c, inst->Array_0@[j], fuel(v)) && valid_items(v, c, inst, j + 1)
    } else {
        true
    }
}

impl<K: Keyword> JsonSchemaValidator<K> {
    /// Whether `inst` is valid against the compiled schema.
    pub open spec fn valid(&self, inst: Json) -> bool {
        valid_node(*self, self.root as int, inst, fuel(*self))
    }
}

proof fn lemma_property_index(ps: Seq<(String, usize)>, key: Seq<char>)
    ensures
        match property_index(ps, key) {
            Some(c) => exists|i: int| 0 <= i < ps.len() && ps[i].0@ == key && ps[i].1 == c && forall|k: int|
                0 <= k < i ==> ps[k].0@ != key,
            None => forall|k: int| 0 <= k < ps.len() ==> ps[k].0@ != key,
        },
    decreases ps.len(),
{
    if ps.len() > 0 {
        lemma_property_index(ps.drop_last(), key);
        assert(forall|k: int| 0 <= k < ps.len() - 1 ==> ps.drop_last()[k] == ps[k]);
    }
}

proof fn lemma_property_index_unique(ps: Seq<(String, usize)>, key: Seq<char>, i: int)
    requires
        0 <= i < ps.len(),
        ps[i].0@ == key,
        forall|k: int| 0 <= k < i ==> ps[k].0@ != key,
    ensures
        property_index(ps, key) == Some(ps[i].1),
{
    lemma_property_index(ps, key);
}

fn all_listed_present(names: &Vec<String>, inst: &Json) -> (r: bool)
    ensures
        r == all_present(names@, *inst),
{
    let mut i: usize = 0;
    while i < names.len()
        invariant
            i <= names@.len(),
            forall|k: int| 0 <= k < i ==> lookup(*inst, #[trigger] names@[k]@) is Some,
        decreases names.len() - i,
    {
        if inst.get(names[i].as_str()).is_none() {
            assert(lookup(*inst, names@[i as int]@) is None);
            return false;
        }
        i += 1;
    }
    true
}

proof fn lemma_divides_negation(x: int, m: int)
    requires
        m > 0,
    ensures
        (x % m == 0) <==> ((-x) % m == 0),
{
    if x % m == 0 {
        vstd::arithmetic::div_mod::lemma_fundamental_div_mod(x, m);
        let q = x / m;
        assert(-x == (-q) * m) by (nonlinear_arith)
            requires
                x == m * q,
        ;
        vstd::arithmetic::div_mod::lemma_mod_multiples_basic(-q, m);
    }
    if (-x) % m == 0 {
        vstd::arithmetic::div_mod::lemma_fundamental_div_mod(-x, m);
        let q = (-x) / m;
        assert(x == (-q) * m) by (nonlinear_arith)
            requires
                -x == m * q,
        ;
        vstd::arithmetic::div_mod::lemma_mod_multiples_basic(-q, m);
    }
}

fn distinct(items: &Vec<Json>) -> (r: bool)
    ensures
        r == all_distinct(items@),
{
    let mut k: usize = 0;
    while k < items.len()
        invariant
            k <= items@.len(),
            forall|i: int, m: int| 0 <= i < m < k ==> !json_eq(#[trigger] items@[i], #[trigger] items@[m]),
        decreases items.len() - k,
    {
        let mut i: usize = 0;
        while i < k
            invariant
                k < items@.len(),
                i <= k,
                forall|a: int, m: int| 0 <= a < m < k ==> !json_eq(#[trigger] items@[a], #[trigger] items@[m]),
                forall|a: int| 0 <= a < i ==> !json_eq(#[trigger] items@[a], items@[k as int]),
            decreases k - i,
        {
            if json_equal(&items[i], &items[k]) {
                return false;
            }
            i += 1;
        }
        k += 1;
    }
    true
}

fn is_listed(names: &Vec<String>, key: &String) -> (r: bool)
    ensures
        r == listed(names@, key@),
{
    let mut i: usize = 0;
    while i < names.len()
        invariant
            i <= names@.len(),
            forall|k: int| 0 <= k < i ==> names@[k]@ != key@,
        decreases names.len() - i,
    {
        if names[i] == *key {
            return true;
        }
        i += 1;
    }
    false
}

fn property_lookup(ps: &Vec<(String, usize)>, key: &String) -> (r: Option<usize>)
    ensures
        r == property_index(ps@, key@),
{
    let mut i: usize = 0;
    while i < ps.len()
        invariant
            i <= ps@.len(),
            forall|k: int| 0 <= k < i ==> ps@[k].0@ != key@,
        decreases ps.len() - i,
    {
        if ps[i].0 == *key {
            proof { lemma_property_index_unique(ps@, key@, i as int); }
            return Some(ps[i].1);
        }
        i += 1;
    }
    proof { lemma_property_index(ps@, key@); }
    None
}

proof fn lemma_count_valid_bound<K: Keyword>(v: JsonSchemaValidator<K>, cs: Seq<usize>, i: int, inst: Json, f: nat)
    requires
        0 <= i <= cs.len(),
    ensures
        count_valid(v, cs, i, inst, f) <= cs.len() - i,
    decreases cs.len() - i,
{
    if i < cs.len() {
        lemma_count_valid_bound(v, cs, i + 1, inst, f);
    }
}

impl<K: Keyword> JsonSchemaValidator<K> {
    fn node_is_valid(&self, n: usize, inst: &Json, f: usize) -> (r: bool)
        requires
            self.wf(),
        ensures
            r == valid_node(*self, n as int, *inst, f as nat),
        decreases inst, f, 0nat, 0int,
    {
        if f == 0 || n >= self.nodes.len() {
            return true;
        }
        let kws = &self.nodes[n].keywords;
        let mut k: usize = 0;
        while k < kws.len()
            invariant
                self.wf(),
                n < self.nodes@.len(),
                f > 0,
                *kws == self.nodes@[n as int].keywords,
                k <= kws@.len(),
                valid_node(*self, n as int, *inst, f as nat) == valid_keywords(*self, n as int, k as int, *inst, (f - 1) as nat),
            decreases kws.len() - k,
        {
            proof {
                assert(crate::vocabulary::node_wf(self.nodes@[n as int], self.nodes@.len(), self.references@.len()));
                assert(crate::vocabulary::keyword_wf(kws@[k as int], self.nodes@.len(), self.references@.len()));
            }
            if !self.keyword_is_valid(&kws[k], inst, f - 1) {
                return false;
            }
            k += 1;
        }
        true
    }

    fn keyword_is_valid(&self, kw: &KeywordValue, inst: &Json, f: usize) -> (r: bool)
        requires
            self.wf(),
            crate::vocabulary::keyword_wf(*kw, self.nodes@.len(), self.references@.len()),
        ensures
            r == valid_keyword(*self, *kw, *inst, f as nat),
        decreases inst, f, 2nat, 0int,
    {
        match kw {
            KeywordValue::Type(t) => t.admits(inst),
            KeywordValue::Minimum(m) => match inst {
                Json::Integer(x) => *x >= *m,
                _ => true,
            },
            KeywordValue::Maximum(m) => match inst {
                Json::Integer(x) => *x <= *m,
                _ => true,
            },
            KeywordValue::ExclusiveMinimum(m) => match inst {
                Json::Integer(x) => *x > *m,
                _ => true,
            },
            KeywordValue::ExclusiveMaximum(m) => match inst {
                Json::Integer(x) => *x < *m,
                _ => true,
            },
            KeywordValue::Pattern(p) => match inst {
                Json::Str(x) => pattern_finds(p.as_str(), x.as_str()),
                _ => true,
            },
            KeywordValue::MultipleOf(m) => match inst {
                Json::Integer(x) => {
                    if *m <= 0 {
                        true
                    } else {
                        let a: i128 = if *x < 0 { -(*x as i128) } else { *x as i128 };
                        let r = a % (*m as i128);
                        proof { lemma_divides_negation(*x as int, *m as int); }
                        r == 0
                    }
                },
                _ => true,
            },
            KeywordValue::Const(c) => json_equal(inst, c),
            KeywordValue::Enum(vs) => {
                let mut i: usize = 0;
                while i < vs.len()
                    invariant
                        *kw == KeywordValue::Enum(*vs),
                        i <= vs@.len(),
                        forall|k: int| 0 <= k < i ==> !json_eq(*inst, #[trigger] vs@[k]),
                    decreases vs.len() - i,
                {
                    if json_equal(inst, &vs[i]) {
                        assert(json_eq(*inst, vs@[i as int]));
                        assert(one_of_values(vs@, *inst));
                        return true;
                    }
                    i += 1;
                }
                false
            },
            KeywordValue::MinSize(m, n) => match measure(*m, inst) {
                Some(k) => k as i128 >= *n as i128,
                None => true,
            },
            KeywordValue::MaxSize(m, n) => match measure(*m, inst) {
                Some(k) => k as i128 <= *n as i128,
                None => true,
            },
            KeywordValue::Required(names) => match inst {
                Json::Object(_) => {
                    let mut i: usize = 0;
                    while i < names.len()
                        invariant
                            *kw == KeywordValue::Required(*names),
                            inst is Object,
                            i <= names@.len(),
                            forall|k: int| 0 <= k < i ==> lookup(*inst, #[trigger] names@[k]@) is Some,
                        decreases names.len() - i,
                    {
                        if inst.get(names[i].as_str()).is_none() {
                            assert(lookup(*inst, names@[i as int]@) is None);
                            return false;
                        }
                        i += 1;
                    }
                    true
                },
                _ => true,
            },
            KeywordValue::Properties(ps) => self.properties_are_valid(ps, inst),
            KeywordValue::Items(c, first) => self.items_are_valid(*c, *first, inst),
            KeywordValue::Dependencies(ds, _) => match inst {
                Json::Object(_) => self.dependencies_are_met(ds, inst, f),
                _ => true,
            },
            KeywordValue::PrefixItems(cs) => self.prefix_is_valid(cs, inst),
            KeywordValue::Contains(c) => match inst {
                Json::Array(_) => self.some_item_is_valid(*c, inst),
                _ => true,
            },
            KeywordValue::UniqueItems => match inst {
                Json::Array(items) => distinct(items),
                _ => true,
            },
            KeywordValue::AdditionalProperties(c, names) => self.additional_are_valid(*c, names, inst),
            KeywordValue::AllOf(cs) => self.count_valid(cs, inst, f) == cs.len(),
            KeywordValue::AnyOf(cs) => self.count_valid(cs, inst, f) > 0,
            KeywordValue::OneOf(cs) => self.count_valid(cs, inst, f) == 1,
            KeywordValue::Not(c) => !self.node_is_valid(*c, inst, f),
            KeywordValue::Ref(r) => self.node_is_valid(self.references[*r].node, inst, f),
            KeywordValue::False => false,
            KeywordValue::Annotation | KeywordValue::Branch(_) | KeywordValue::Definitions(_) => true,
            KeywordValue::Custom(i, _) => if *i < self.keywords.len() {
                self.keywords[*i].is_valid(inst)
            } else {
                true
            },
            KeywordValue::Format(i) => match inst {
                Json::Str(_) => if *i < self.keywords.len() {
                    self.keywords[*i].is_valid(inst)
                } else {
                    true
                },
                _ => true,
            },
            KeywordValue::Conditional(c, t, e) => {
                let branch = if self.node_is_valid(*c, inst, f) {
                    t
                } else {
                    e
                };
                match branch {
                    Some(b) => self.node_is_valid(*b, inst, f),
                    None => true,
                }
            },
        }
    }

    fn count_valid(&self, cs: &Vec<usize>, inst: &Json, f: usize) -> (r: usize)
        requires
            self.wf(),
        ensures
            r == count_valid(*self, cs@, 0, *inst, f as nat),
        decreases inst, f, 1nat, 0int,
    {
        let mut count: usize = 0;
        let mut i: usize = 0;
        while i < cs.len()
            invariant
                self.wf(),
                i <= cs@.len(),
                count <= i,
                count_valid(*self, cs@, 0, *inst, f as nat) == count + count_valid(*self, cs@, i as int, *inst, f as nat),
            decreases cs.len() - i,
        {
            if self.node_is_valid(cs[i], inst, f) {
                count += 1;
            }
            i += 1;
        }
        count
    }

    fn properties_are_valid(&self, ps: &Vec<(String, usize)>, inst: &Json) -> (r: bool)
        requires
            self.wf(),
        ensures
            r == valid_properties(*self, ps@, *inst, 0),
        decreases inst, 0nat, 1nat, 0int,
    {
        match inst {
            Json::Object(members) => {
                let mut j: usize = 0;
                while j < members.len()
                    invariant
                        self.wf(),
                        *inst == Json::Object(*members),
                        j <= members@.len(),
                        valid_properties(*self, ps@, *inst, 0) == valid_properties(*self, ps@, *inst, j as int),
                    decreases members.len() - j,
                {
                    proof {
                        assert(decreases_to!(*inst => inst->Object_0));
                        assert(decreases_to!(inst->Object_0 => inst->Object_0@));
                        assert(decreases_to!(inst->Object_0@ => inst->Object_0@[j as int]));
                    }
                    match property_lookup(ps, &members[j].0) {
                        Some(c) => {
                            if !self.node_is_valid(c, &members[j].1, self.nodes.len()) {
                                return false;
                            }
                        },
                        None => {},
                    }
                    j += 1;
                }
                true
            },
            _ => true,
        }
    }

    fn additional_are_valid(&self, c: usize, names: &Vec<String>, inst: &Json) -> (r: bool)
        requires
            self.wf(),
        ensures
            r == valid_additional(*self, c as int, names@, *inst, 0),
        decreases inst, 0nat, 1nat, 0int,
    {
        match inst {
            Json::Object(members) => {
                let mut j: usize = 0;
                while j < members.len()
                    invariant
                        self.wf(),
                        *inst == Json::Object(*members),
                        j <= members@.len(),
                        valid_additional(*self, c as int, names@, *inst, 0) == valid_additional(*self, c as int, names@, *inst, j as int),
                    decreases members.len() - j,
                {
                    proof {
                        assert(decreases_to!(*inst => inst->Object_0));
                        assert(decreases_to!(inst->Object_0 => inst->Object_0@));
                        assert(decreases_to!(inst->Object_0@ => inst->Object_0@[j as int]));
                    }
                    if !is_listed(names, &members[j].0) {
                        if !self.node_is_valid(c, &members[j].1, self.nodes.len()) {
                            return false;
                        }
                    }
                    j += 1;
                }
                true
            },
            _ => true,
        }
    }

    fn some_item_is_valid(&self, c: usize, inst: &Json) -> (r: bool)
        requires
            self.wf(),
        ensures
            r == some_item_valid(*self, c as int, *inst, 0),
        decreases inst, 0nat, 1nat, 0int,
    {
        match inst {
            Json::Array(elems) => {
                let mut j: usize = 0;
                while j < elems.len()
                    invariant
                        self.wf(),
                        *inst == Json::Array(*elems),
                        j <= elems@.len(),
                        some_item_valid(*self, c as int, *inst, 0) == some_item_valid(*self, c as int, *inst, j as int),
                    decreases elems.len() - j,
                {
                    proof {
                        assert(decreases_to!(*inst => inst->Array_0));
                        assert(decreases_to!(inst->Array_0 => inst->Array_0@));
                        assert(decreases_to!(inst->Array_0@ => inst->Array_0@[j as int]));
                    }
                    if self.node_is_valid(c, &elems[j], self.nodes.len()) {
                        return true;
                    }
                    j += 1;
                }
                false
            },
            _ => false,
        }
    }

    fn dependencies_are_met(&self, ds: &Vec<(String, Dependency)>, inst: &Json, f: usize) -> (r: bool)
        requires
            self.wf(),
        ensures
            r == valid_dependencies(*self, ds@, *inst, 0, f as nat),
        decreases inst, f, 1nat, 0int,
    {
        let mut i: usize = 0;
        while i < ds.len()
            invariant
                self.wf(),
                i <= ds@.len(),
                valid_dependencies(*self, ds@, *inst, 0, f as nat) == valid_dependencies(*self, ds@, *inst, i as int, f as nat),
            decreases ds.len() - i,
        {
            if inst.get(ds[i].0.as_str()).is_some() {
                let met = match &ds[i].1 {
                    Dependency::Names(ns) => all_listed_present(ns, inst),
                    Dependency::Schema(c) => self.node_is_valid(*c, inst, f),
                };
                if !met {
                    return false;
                }
            }
            i += 1;
        }
        true
    }

    fn prefix_is_valid(&self, cs: &Vec<usize>, inst: &Json) -> (r: bool)
        requires
            self.wf(),
        ensures
            r == valid_prefix(*self, cs@, *inst, 0),
        decreases inst, 0nat, 1nat, 0int,
    {
        match inst {
            Json::Array(elems) => {
                let mut j: usize = 0;
                while j < elems.len() && j < cs.len()
                    invariant
                        self.wf(),
                        *inst == Json::Array(*elems),
                        j <= elems@.len(),
                        valid_prefix(*self, cs@, *inst, 0) == valid_prefix(*self, cs@, *inst, j as int),
                    decreases elems.len() - j,
                {
                    proof {
                        assert(decreases_to!(*inst => inst->Array_0));
                        assert(decreases_to!(inst->Array_0 => inst->Array_0@));
                        assert(decreases_to!(inst->Array_0@ => inst->Array_0@[j as int]));
                    }
                    if !self.node_is_valid(cs[j], &elems[j], self.nodes.len()) {
                        return false;
                    }
                    j += 1;
                }
                true
            },
            _ => true,
        }
    }

    fn items_are_valid(&self, c: usize, first: usize, inst: &Json) -> (r: bool)
        requires
            self.wf(),
        ensures
            r == valid_items(*self, c as int, *inst, first as int),
        decreases inst, 0nat, 1nat, 0int,
    {
        match inst {
            Json::Array(elems) => {
                let mut j: usize = first;
                while j < elems.len()
                    invariant
                        self.wf(),
                        *inst == Json::Array(*elems),
                        first <= j,
                        valid_items(*self, c as int, *inst, first as int) == valid_items(*self, c as int, *inst, j as int),
                    decreases elems.len() - j,
                {
                    proof {
                        assert(decreases_to!(*inst => inst->Array_0));
                        assert(decreases_to!(inst->Array_0 => inst->Array_0@));
                        assert(decreases_to!(inst->Array_0@ => inst->Array_0@[j as int]));
                    }
                    if !self.node_is_valid(c, &elems[j], self.nodes.len()) {
                        return false;
                    }
                    j += 1;
                }
                true
            },
            _ => true,
        }
    }

    /// Whether `inst` is valid. Stops at the first keyword that fails and
    /// builds no error.
    pub fn is_valid(&self, inst: &Json) -> (r: bool)
        requires
            self.wf(),
        ensures
            r == self.valid(*inst),
    {
        self.node_is_valid(self.root, inst, self.nodes.len())
    }
}

/// Which keyword an error comes from.
#[derive(Debug, Clone, Copy, PartialEq, Eq, Structural)]
pub enum ErrorKind {
    Type,
    Minimum,
    Maximum,
    ExclusiveMinimum,
    ExclusiveMaximum,
    MinLength,
    MaxLength,
    MinItems,
    MaxItems,
    MinProperties,
    MaxProperties,
    Pattern,
    MultipleOf,
    Const,
    Enum,
    Contains,
    UniqueItems,
    /// A property that another one depends on is missing.
    Dependencies,
    DependentRequired,
    /// A required property is missing.
    Required,
    AnyOf,
    OneOf,
    Not,
    /// The schema `false` admits nothing.
    FalseSchema,
    /// A caller's keyword does not hold.
    Custom,
    /// A string does not have the format that a caller's format checks.
    Format,
}

/// The keyword name of an error kind, as a schema writes it.
pub open spec fn keyword_name(k: ErrorKind) -> Seq<char> {
    match k {
        ErrorKind::Type => "type"@,
        ErrorKind::Minimum => "minimum"@,
        ErrorKind::Maximum => "maximum"@,
        ErrorKind::ExclusiveMinimum => "exclusiveMinimum"@,
        ErrorKind::ExclusiveMaximum => "exclusiveMaximum"@,
        ErrorKind::MinLength => "minLength"@,
        ErrorKind::MaxLength => "maxLength"@,
        ErrorKind::MinItems => "minItems"@,
        ErrorKind::MaxItems => "maxItems"@,
        ErrorKind::MinProperties => "minProperties"@,
        ErrorKind::MaxProperties => "maxProperties"@,
        ErrorKind::Pattern => "pattern"@,
        ErrorKind::MultipleOf => "multipleOf"@,
        ErrorKind::Const => "const"@,
        ErrorKind::Enum => "enum"@,
        ErrorKind::Contains => "contains"@,
        ErrorKind::UniqueItems => "uniqueItems"@,
        ErrorKind::Dependencies => "dependencies"@,
        ErrorKind::DependentRequired => "dependentRequired"@,
        ErrorKind::Required => "required"@,
        ErrorKind::AnyOf => "anyOf"@,
        ErrorKind::OneOf => "oneOf"@,
        ErrorKind::Not => "not"@,
        ErrorKind::FalseSchema => "false"@,
        ErrorKind::Custom => "custom"@,
        ErrorKind::Format => "format"@,
    }
}

impl ErrorKind {
    /// The keyword that produced the error.
    pub fn keyword(&self) -> (r: &'static str)
        ensures
            r@ == keyword_name(*self),
    {
        match self {
            ErrorKind::Type => "type",
            ErrorKind::Minimum => "minimum",
            ErrorKind::Maximum => "maximum",
            ErrorKind::ExclusiveMinimum => "exclusiveMinimum",
            ErrorKind::ExclusiveMaximum => "exclusiveMaximum",
            ErrorKind::MinLength => "minLength",
            ErrorKind::MaxLength => "maxLength",
            ErrorKind::MinItems => "minItems",
            ErrorKind::MaxItems => "maxItems",
            ErrorKind::MinProperties => "minProperties",
            ErrorKind::MaxProperties => "maxProperties",
            ErrorKind::Pattern => "pattern",
            ErrorKind::MultipleOf => "multipleOf",
            ErrorKind::Const => "const",
            ErrorKind::Enum => "enum",
            ErrorKind::Contains => "contains",
            ErrorKind::UniqueItems => "uniqueItems",
            ErrorKind::Dependencies => "dependencies",
            ErrorKind::DependentRequired => "dependentRequired",
            ErrorKind::Required => "required",
            ErrorKind::AnyOf => "anyOf",
            ErrorKind::OneOf => "oneOf",
            ErrorKind::Not => "not",
            ErrorKind::FalseSchema => "false",
            ErrorKind::Custom => "custom",
            ErrorKind::Format => "format",
        }
    }
}

/// One step from a value into a part of it.
#[derive(Debug, PartialEq, Eq)]
pub enum PathChunk {
    Key(String),
    Index(usize),
}

/// One failure: where in the instance, and which keyword.
#[derive(Debug, PartialEq, Eq)]
pub struct ValidationError {
    pub instance_path: Vec<PathChunk>,
    /// The keyword's location in the schema, such as `#/properties/a/type`.
    pub schema_location: String,
    /// What went wrong, in words.
    pub message: String,
    pub kind: ErrorKind,
}

pub struct ErrorView {
    pub instance_path: Seq<PathChunk>,
    pub schema_location: Seq<char>,
    pub kind: ErrorKind,
    pub message: Seq<char>,
}

/// The message of an error from the keyword called `name`.
pub open spec fn message_of(name: Seq<char>) -> Seq<char> {
    "the value does not satisfy the `"@ + name + "` keyword"@
}

/// The message of an error from the keyword called `name`.
pub fn message_for(name: &str) -> (r: String)
    ensures
        r@ == message_of(name@),
{
    let mut chars = chars_of("the value does not satisfy the `");
    let middle = chars_of(name);
    let tail = chars_of("` keyword");
    let ghost start = chars@;
    let mut i: usize = 0;
    while i < middle.len()
        invariant
            i <= middle@.len(),
            chars@ == start + middle@.take(i as int),
        decreases middle.len() - i,
    {
        chars.push(middle[i]);
        i += 1;
        assert(chars@ =~= start + middle@.take(i as int));
    }
    let ghost mid = chars@;
    let mut k: usize = 0;
    while k < tail.len()
        invariant
            k <= tail@.len(),
            chars@ == mid + tail@.take(k as int),
        decreases tail.len() - k,
    {
        chars.push(tail[k]);
        k += 1;
        assert(chars@ =~= mid + tail@.take(k as int));
    }
    assert(middle@.take(middle@.len() as int) =~= middle@);
    assert(tail@.take(tail@.len() as int) =~= tail@);
    assert(chars@ =~= message_of(name@));
    string_from_chars(&chars)
}

impl View for ValidationError {
    type V = ErrorView;

    open spec fn view(&self) -> ErrorView {
        ErrorView {
            instance_path: self.instance_path@,
            schema_location: self.schema_location@,
            kind: self.kind,
            message: self.message@,
        }
    }
}

pub open spec fn views(s: Seq<ValidationError>) -> Seq<ErrorView> {
    s.map_values(|e: ValidationError| e@)
}

/// The error kind of a keyword that reports at most one error of its own.
pub open spec fn kind_of(kw: KeywordValue) -> ErrorKind {
    match kw {
        KeywordValue::Type(_) => ErrorKind::Type,
        KeywordValue::Minimum(_) => ErrorKind::Minimum,
        KeywordValue::Maximum(_) => ErrorKind::Maximum,
        KeywordValue::ExclusiveMinimum(_) => ErrorKind::ExclusiveMinimum,
        KeywordValue::ExclusiveMaximum(_) => ErrorKind::ExclusiveMaximum,
        KeywordValue::MinSize(Measure::Length, _) => ErrorKind::MinLength,
        KeywordValue::MaxSize(Measure::Length, _) => ErrorKind::MaxLength,
        KeywordValue::MinSize(Measure::Items, _) => ErrorKind::MinItems,
        KeywordValue::MaxSize(Measure::Items, _) => ErrorKind::MaxItems,
        KeywordValue::MinSize(Measure::Properties, _) => ErrorKind::MinProperties,
        KeywordValue::MaxSize(Measure::Properties, _) => ErrorKind::MaxProperties,
        KeywordValue::Pattern(_) => ErrorKind::Pattern,
        KeywordValue::MultipleOf(_) => ErrorKind::MultipleOf,
        KeywordValue::Const(_) => ErrorKind::Const,
        KeywordValue::Enum(_) => ErrorKind::Enum,
        KeywordValue::Contains(_) => ErrorKind::Contains,
        KeywordValue::UniqueItems => ErrorKind::UniqueItems,
        KeywordValue::Required(_) => ErrorKind::Required,
        KeywordValue::AnyOf(_) => ErrorKind::AnyOf,
        KeywordValue::OneOf(_) => ErrorKind::OneOf,
        KeywordValue::Not(_) => ErrorKind::Not,
        KeywordValue::Custom(..) => ErrorKind::Custom,
        KeywordValue::Format(_) => ErrorKind::Format,
        _ => ErrorKind::FalseSchema,
    }
}

/// The errors of node `n` on `inst`, found at `path`: each keyword's errors in
/// declaration order, and a sub-schema's errors where it is applied.
pub open spec fn errors_node<K: Keyword>(v: JsonSchemaValidator<K>, n: int, inst: Json, path: Seq<PathChunk>, f: nat) -> Seq<ErrorView>
    decreases inst, f, 0nat, 0int,
{
    if f == 0 || !(0 <= n < v.nodes@.len()) {
        Seq::empty()
    } else {
        errors_keywords(v, n, 0, inst, path, (f - 1) as nat)
    }
}

pub open spec fn errors_keywords<K: Keyword>(v: JsonSchemaValidator<K>, n: int, k: int, inst: Json, path: Seq<PathChunk>, f: nat) -> Seq<ErrorView>
    decreases inst, f, 3nat, v.nodes@[n].keywords@.len() - k,
{
    if 0 <= n < v.nodes@.len() && 0 <= k < v.nodes@[n].keywords@.len() {
        errors_keyword(v, v.nodes@[n].keywords@[k], inst, path, f, v.nodes@[n].location@) + errors_keywords(v, n, k + 1, inst, path, f)
    } else {
        Seq::empty()
    }
}

/// The errors of one keyword. `allOf` passes on its sub-schemas' errors;
/// a failing `anyOf` reports one error of its own followed by every branch's
/// errors; `oneOf` and `not` report one error of their own; `$ref` reports
/// what its target reports; `required` reports each missing name; a
/// conditional reports what the branch taken reports; a caller's keyword
/// reports under its own name.
pub open spec fn errors_keyword<K: Keyword>(
    v: JsonSchemaValidator<K>,
    kw: KeywordValue,
    inst: Json,
    path: Seq<PathChunk>,
    f: nat,
    at: Seq<char>,
) -> Seq<ErrorView>
    decreases inst, f, 2nat, 0int,
{
    match kw {
        KeywordValue::Required(names) => missing_errors(names@, inst, path, at, 0),
        KeywordValue::Properties(ps) => errors_properties(v, ps@, inst, path, 0),
        KeywordValue::Items(c, first) => errors_items(v, c as int, inst, path, first as int),
        KeywordValue::Dependencies(ds, legacy) => if inst is Object {
            errors_dependencies(
                v,
                ds@,
                inst,
                path,
                0,
                f,
                at,
                if legacy { ErrorKind::Dependencies } else { ErrorKind::DependentRequired },
            )
        } else {
            Seq::empty()
        },
        KeywordValue::PrefixItems(cs) => errors_prefix(v, cs@, inst, path, 0),
        KeywordValue::AdditionalProperties(c, names) => errors_additional(v, c as int, names@, inst, path, 0),
        KeywordValue::AllOf(cs) => errors_all(v, cs@, 0, inst, path, f),
        KeywordValue::AnyOf(cs) => if valid_keyword(v, kw, inst, f) {
            Seq::empty()
        } else {
            seq![error_at(path, at, ErrorKind::AnyOf)] + errors_all(v, cs@, 0, inst, path, f)
        },
        KeywordValue::Ref(r) => if r >= v.references@.len() {
            Seq::empty()
        } else {
            errors_node(v, v.references@[r as int].node as int, inst, path, f)
        },
        KeywordValue::Conditional(c, t, e) => match if valid_node(v, c as int, inst, f) {
            t
        } else {
            e
        } {
            Some(b) => errors_node(v, b as int, inst, path, f),
            None => Seq::empty(),
        },
        KeywordValue::Custom(_, name) => if valid_keyword(v, kw, inst, f) {
            Seq::empty()
        } else {
            seq![ErrorView {
                instance_path: path,
                schema_location: below(at, escaped(name@)),
                kind: ErrorKind::Custom,
                message: message_of(name@),
            }]
        },
        _ => if valid_keyword(v, kw, inst, f) {
            Seq::empty()
        } else {
            seq![error_at(path, at, kind_of(kw))]
        },
    }
}

/// An error of kind `kind` at `path`, from the keyword of the schema object at `at`.
pub open spec fn error_at(path: Seq<PathChunk>, at: Seq<char>, kind: ErrorKind) -> ErrorView {
    ErrorView {
        instance_path: path,
        schema_location: if kind == ErrorKind::FalseSchema {
            at
        } else {
            below(at, escaped(keyword_name(kind)))
        },
        kind,
        message: message_of(keyword_name(kind)),
    }
}

pub open spec fn missing_errors(names: Seq<String>, inst: Json, path: Seq<PathChunk>, at: Seq<char>, i: int) -> Seq<ErrorView>
    decreases names.len() - i,
{
    if inst is Object && 0 <= i < names.len() {
        (if lookup(inst, names[i]@) is None {
            seq![error_at(path, at, ErrorKind::Required)]
        } else {
            Seq::empty()
        }) + missing_errors(names, inst, path, at, i + 1)
    } else {
        Seq::empty()
    }
}

pub open spec fn errors_all<K: Keyword>(v: JsonSchemaValidator<K>, cs: Seq<usize>, i: int, inst: Json, path: Seq<PathChunk>, f: nat) -> Seq<ErrorView>
    decreases inst, f, 1nat, cs.len() - i,
{
    if 0 <= i < cs.len() {
        errors_node(v, cs[i] as int, inst, path, f) + errors_all(v, cs, i + 1, inst, path, f)
    } else {
        Seq::empty()
    }
}

pub open spec fn errors_properties<K: Keyword>(v: JsonSchemaValidator<K>, ps: Seq<(String, usize)>, inst: Json, path: Seq<PathChunk>, j: int) -> Seq<ErrorView>
    decreases inst, 0nat, 1nat, inst->Object_0@.len() - j,
{
    if inst is Object && 0 <= j < inst->Object_0@.len() {
        (match property_index(ps, inst->Object_0@[j].0@) {
            Some(c) => errors_node(
                v,
                c as int,
                inst->Object_0@[j].1,
                path.push(PathChunk::Key(inst->Object_0@[j].0)),
                fuel(v),
            ),
            None => Seq::empty(),
        }) + errors_properties(v, ps, inst, path, j + 1)
    } else {
        Seq::empty()
    }
}

pub open spec fn errors_additional<K: Keyword>(
    v: JsonSchemaValidator<K>,
    c: int,
    names: Seq<String>,
    inst: Json,
    path: Seq<PathChunk>,
    j: int,
) -> Seq<ErrorView>
    decreases inst, 0nat, 1nat, inst->Object_0@.len() - j,
{
    if inst is Object && 0 <= j < inst->Object_0@.len() {
        (if listed(names, inst->Object_0@[j].0@) {
            Seq::empty()
        } else {
            errors_node(
                v,
                c,
                inst->Object_0@[j].1,
                path.push(PathChunk::Key(inst->Object_0@[j].0)),
                fuel(v),
            )
        }) + errors_additional(v, c, names, inst, path, j + 1)
    } else {
        Seq::empty()
    }
}

pub open spec fn errors_dependencies<K: Keyword>(
    v: JsonSchemaValidator<K>,
    ds: Seq<(String, Dependency)>,
    inst: Json,
    path: Seq<PathChunk>,
    i: int,
    f: nat,
    at: Seq<char>,
    kind: ErrorKind,
) -> Seq<ErrorView>
    decreases inst, f, 1nat, ds.len() - i,
{
    if 0 <= i < ds.len() {
        (if lookup(inst, ds[i].0@) is None {
            Seq::empty()
        } else {
            match ds[i].1 {
                Dependency::Names(ns) => if all_present(ns@, inst) {
                    Seq::empty()
                } else {
                    seq![error_at(path, at, kind)]
                },
                Dependency::Schema(c) => errors_node(v, c as int, inst, path, f),
            }
        }) + errors_dependencies(v, ds, inst, path, i + 1, f, at, kind)
    } else {
        Seq::empty()
    }
}

pub open spec fn errors_prefix<K: Keyword>(v: JsonSchemaValidator<K>, cs: Seq<usize>, inst: Json, path: Seq<PathChunk>, j: int) -> Seq<ErrorView>
    decreases inst, 0nat, 1nat, inst->Array_0@.len() - j,
{
    if inst is Array && 0 <= j < inst->Array_0@.len() && j < cs.len() {
        errors_node(v, cs[j] as int, inst->Array_0@[j], path.push(PathChunk::Index(j as usize)), fuel(v))
            + errors_prefix(v, cs, inst, path, j + 1)
    } else {
        Seq::empty()
    }
}

pub open spec fn errors_items<K: Keyword>(v: JsonSchemaValidator<K>, c: int, inst: Json, path: Seq<PathChunk>, j: int) -> Seq<ErrorView>
    decreases inst, 0nat, 1nat, inst->Array_0@.len() - j,
{
    if inst is Array && 0 <= j < inst->Array_0@.len() {
        errors_node(v, c, inst->Array_0@[j], path.push(PathChunk::Index(j as usize)), fuel(v))
            + errors_items(v, c, inst, path, j + 1)
    } else {
        Seq::empty()
    }
}

impl<K: Keyword> JsonSchemaValidator<K> {
    /// Every error of `inst`, in order.
    pub open spec fn errors(&self, inst: Json) -> Seq<ErrorView> {
        errors_node(*self, self.root as int, inst, Seq::empty(), fuel(*self))
    }
}

proof fn lemma_node_consistent<K: Keyword>(v: JsonSchemaValidator<K>, n: int, inst: Json, path: Seq<PathChunk>, f: nat)
    ensures
        errors_node(v, n, inst, path, f).len() == 0 <==> valid_node(v, n, inst, f),
    decreases inst, f, 0nat, 0int,
{
    if f == 0 || !(0 <= n < v.nodes@.len()) {
    } else {
        lemma_keywords_consistent(v, n, 0, inst, path, (f - 1) as nat);
    }
}

proof fn lemma_keywords_consistent<K: Keyword>(v: JsonSchemaValidator<K>, n: int, k: int, inst: Json, path: Seq<PathChunk>, f: nat)
    ensures
        errors_keywords(v, n, k, inst, path, f).len() == 0 <==> valid_keywords(v, n, k, inst, f),
    decreases inst, f, 3nat, v.nodes@[n].keywords@.len() - k,
{
    if 0 <= n < v.nodes@.len() && 0 <= k < v.nodes@[n].keywords@.len() {
        lemma_keyword_consistent(v, v.nodes@[n].keywords@[k], inst, path, f, v.nodes@[n].location@);
        lemma_keywords_consistent(v, n, k + 1, inst, path, f);
    }
}

proof fn lemma_keyword_consistent<K: Keyword>(
    v: JsonSchemaValidator<K>,
    kw: KeywordValue,
    inst: Json,
    path: Seq<PathChunk>,
    f: nat,
    at: Seq<char>,
)
    ensures
        errors_keyword(v, kw, inst, path, f, at).len() == 0 <==> valid_keyword(v, kw, inst, f),
    decreases inst, f, 2nat, 0int,
{
    match kw {
        KeywordValue::Required(names) => {
            lemma_missing_consistent(names@, inst, path, at, 0);
        },
        KeywordValue::Properties(ps) => {
            lemma_properties_consistent(v, ps@, inst, path, 0);
        },
        KeywordValue::Items(c, first) => {
            lemma_items_consistent(v, c as int, inst, path, first as int);
        },
        KeywordValue::Dependencies(ds, legacy) => {
            let kind = if legacy { ErrorKind::Dependencies } else { ErrorKind::DependentRequired };
            lemma_dependencies_consistent(v, ds@, inst, path, 0, f, at, kind);
        },
        KeywordValue::PrefixItems(cs) => {
            lemma_prefix_consistent(v, cs@, inst, path, 0);
        },
        KeywordValue::AdditionalProperties(c, names) => {
            lemma_additional_consistent(v, c as int, names@, inst, path, 0);
        },
        KeywordValue::AllOf(cs) => {
            lemma_all_consistent(v, cs@, 0, inst, path, f);
        },
        KeywordValue::Ref(r) => {
            if r < v.references@.len() {
                lemma_node_consistent(v, v.references@[r as int].node as int, inst, path, f);
            }
        },
        KeywordValue::Conditional(c, t, e) => {
            if valid_node(v, c as int, inst, f) {
                if let Some(b) = t {
                    lemma_node_consistent(v, b as int, inst, path, f);
                }
            } else {
                if let Some(b) = e {
                    lemma_node_consistent(v, b as int, inst, path, f);
                }
            }
        },
        _ => {},
    }
}

proof fn lemma_missing_consistent(names: Seq<String>, inst: Json, path: Seq<PathChunk>, at: Seq<char>, i: int)
    requires
        0 <= i <= names.len(),
    ensures
        missing_errors(names, inst, path, at, i).len() == 0 <==> (!(inst is Object) || forall|k: int|
            i <= k < names.len() ==> lookup(inst, #[trigger] names[k]@) is Some),
    decreases names.len() - i,
{
    if i < names.len() {
        lemma_missing_consistent(names, inst, path, at, i + 1);
    }
}

proof fn lemma_all_consistent<K: Keyword>(v: JsonSchemaValidator<K>, cs: Seq<usize>, i: int, inst: Json, path: Seq<PathChunk>, f: nat)
    requires
        0 <= i <= cs.len(),
    ensures
        errors_all(v, cs, i, inst, path, f).len() == 0 <==> count_valid(v, cs, i, inst, f) == cs.len() - i,
    decreases inst, f, 1nat, cs.len() - i,
{
    if i < cs.len() {
        lemma_node_consistent(v, cs[i] as int, inst, path, f);
        lemma_all_consistent(v, cs, i + 1, inst, path, f);
        lemma_count_valid_bound(v, cs, i + 1, inst, f);
    }
}

proof fn lemma_properties_consistent<K: Keyword>(v: JsonSchemaValidator<K>, ps: Seq<(String, usize)>, inst: Json, path: Seq<PathChunk>, j: int)
    ensures
        errors_properties(v, ps, inst, path, j).len() == 0 <==> valid_properties(v, ps, inst, j),
    decreases inst, 0nat, 1nat, inst->Object_0@.len() - j,
{
    if inst is Object && 0 <= j < inst->Object_0@.len() {
        match property_index(ps, inst->Object_0@[j].0@) {
            Some(c) => {
                lemma_node_consistent(
                    v,
                    c as int,
                    inst->Object_0@[j].1,
                    path.push(PathChunk::Key(inst->Object_0@[j].0)),
                    fuel(v),
                );
            },
            None => {},
        }
        lemma_properties_consistent(v, ps, inst, path, j + 1);
    }
}

proof fn lemma_additional_consistent<K: Keyword>(
    v: JsonSchemaValidator<K>,
    c: int,
    names: Seq<String>,
    inst: Json,
    path: Seq<PathChunk>,
    j: int,
)
    ensures
        errors_additional(v, c, names, inst, path, j).len() == 0 <==> valid_additional(v, c, names, inst, j),
    decreases inst, 0nat, 1nat, inst->Object_0@.len() - j,
{
    if inst is Object && 0 <= j < inst->Object_0@.len() {
        if !listed(names, inst->Object_0@[j].0@) {
            lemma_node_consistent(
                v,
                c,
                inst->Object_0@[j].1,
                path.push(PathChunk::Key(inst->Object_0@[j].0)),
                fuel(v),
            );
        }
        lemma_additional_consistent(v, c, names, inst, path, j + 1);
    }
}

proof fn lemma_dependencies_consistent<K: Keyword>(
    v: JsonSchemaValidator<K>,
    ds: Seq<(String, Dependency)>,
    inst: Json,
    path: Seq<PathChunk>,
    i: int,
    f: nat,
    at: Seq<char>,
    kind: ErrorKind,
)
    ensures
        errors_dependencies(v, ds, inst, path, i, f, at, kind).len() == 0 <==> valid_dependencies(v, ds, inst, i, f),
    decreases inst, f, 1nat, ds.len() - i,
{
    if 0 <= i < ds.len() {
        if let Dependency::Schema(c) = ds[i].1 {
            lemma_node_consistent(v, c as int, inst, path, f);
        }
        lemma_dependencies_consistent(v, ds, inst, path, i + 1, f, at, kind);
    }
}

proof fn lemma_prefix_consistent<K: Keyword>(v: JsonSchemaValidator<K>, cs: Seq<usize>, inst: Json, path: Seq<PathChunk>, j: int)
    ensures
        errors_prefix(v, cs, inst, path, j).len() == 0 <==> valid_prefix(v, cs, inst, j),
    decreases inst, 0nat, 1nat, inst->Array_0@.len() - j,
{
    if inst is Array && 0 <= j < inst->Array_0@.len() && j < cs.len() {
        lemma_node_consistent(v, cs[j] as int, inst->Array_0@[j], path.push(PathChunk::Index(j as usize)), fuel(v));
        lemma_prefix_consistent(v, cs, inst, path, j + 1);
    }
}

proof fn lemma_items_consistent<K: Keyword>(v: JsonSchemaValidator<K>, c: int, inst: Json, path: Seq<PathChunk>, j: int)
    ensures
        errors_items(v, c, inst, path, j).len() == 0 <==> valid_items(v, c, inst, j),
    decreases inst, 0nat, 1nat, inst->Array_0@.len() - j,
{
    if inst is Array && 0 <= j < inst->Array_0@.len() {
        lemma_node_consistent(v, c, inst->Array_0@[j], path.push(PathChunk::Index(j as usize)), fuel(v));
        lemma_items_consistent(v, c, inst, path, j + 1);
    }
}

/// An instance is valid exactly when it has no error.
pub proof fn valid_iff_no_errors<K: Keyword>(v: JsonSchemaValidator<K>, inst: Json)
    ensures
        v.valid(inst) <==> v.errors(inst).len() == 0,
{
    lemma_node_consistent(v, v.root as int, inst, Seq::empty(), fuel(v));
}

fn clone_chunk(c: &PathChunk) -> (r: PathChunk)
    ensures
        r == *c,
{
    match c {
        PathChunk::Key(k) => PathChunk::Key(k.clone()),
        PathChunk::Index(i) => PathChunk::Index(*i),
    }
}

fn copy_path(path: &Vec<PathChunk>) -> (r: Vec<PathChunk>)
    ensures
        r@ == path@,
{
    let mut r: Vec<PathChunk> = Vec::new();
    let mut i: usize = 0;
    while i < path.len()
        invariant
            i <= path@.len(),
            r@ == path@.take(i as int),
        decreases path.len() - i,
    {
        r.push(clone_chunk(&path[i]));
        i += 1;
        assert(r@ =~= path@.take(i as int));
    }
    assert(path@.take(path@.len() as int) =~= path@);
    r
}

fn report(out: &mut Vec<ValidationError>, path: &Vec<PathChunk>, at: &Vec<char>, kind: ErrorKind)
    ensures
        views(final(out)@) == views(old(out)@) + seq![error_at(path@, at@, kind)],
{
    let location = if kind == ErrorKind::FalseSchema {
        at.clone()
    } else {
        below_key(at, kind.keyword())
    };
    out.push(ValidationError {
        instance_path: copy_path(path),
        schema_location: string_from_chars(&location),
        kind,
        message: message_for(kind.keyword()),
    });
    assert(views(final(out)@) =~= views(old(out)@) + seq![error_at(path@, at@, kind)]);
}

proof fn lemma_views_append(a: Seq<ErrorView>, b: Seq<ErrorView>, c: Seq<ErrorView>)
    ensures
        a + b + c == a + (b + c),
{
    assert(a + b + c =~= a + (b + c));
}

impl<K: Keyword> JsonSchemaValidator<K> {
    fn collect_node(&self, n: usize, inst: &Json, path: &Vec<PathChunk>, f: usize, out: &mut Vec<ValidationError>)
        requires
            self.wf(),
        ensures
            views(final(out)@) == views(old(out)@) + errors_node(*self, n as int, *inst, path@, f as nat),
        decreases inst, f, 0nat, 0int,
    {
        if f == 0 || n >= self.nodes.len() {
            assert(views(final(out)@) =~= views(old(out)@) + errors_node(*self, n as int, *inst, path@, f as nat));
            return;
        }
        let kws = &self.nodes[n].keywords;
        let mut k: usize = 0;
        while k < kws.len()
            invariant
                self.wf(),
                n < self.nodes@.len(),
                f > 0,
                *kws == self.nodes@[n as int].keywords,
                k <= kws@.len(),
                views(out@) + errors_keywords(*self, n as int, k as int, *inst, path@, (f - 1) as nat)
                    == views(old(out)@) + errors_node(*self, n as int, *inst, path@, f as nat),
            decreases kws.len() - k,
        {
            proof {
                assert(crate::vocabulary::node_wf(self.nodes@[n as int], self.nodes@.len(), self.references@.len()));
                assert(crate::vocabulary::keyword_wf(kws@[k as int], self.nodes@.len(), self.references@.len()));
            }
            let ghost before = views(out@);
            self.collect_keyword(&kws[k], inst, path, f - 1, &self.nodes[n].location, out);
            proof {
                lemma_views_append(
                    before,
                    errors_keyword(*self, kws@[k as int], *inst, path@, (f - 1) as nat, self.nodes@[n as int].location@),
                    errors_keywords(*self, n as int, k + 1, *inst, path@, (f - 1) as nat),
                );
            }
            k += 1;
        }
        assert(views(out@) =~= views(out@) + errors_keywords(*self, n as int, k as int, *inst, path@, (f - 1) as nat));
    }

    fn collect_keyword(
        &self,
        kw: &KeywordValue,
        inst: &Json,
        path: &Vec<PathChunk>,
        f: usize,
        at: &Vec<char>,
        out: &mut Vec<ValidationError>,
    )
        requires
            self.wf(),
            crate::vocabulary::keyword_wf(*kw, self.nodes@.len(), self.references@.len()),
        ensures
            views(final(out)@) == views(old(out)@) + errors_keyword(*self, *kw, *inst, path@, f as nat, at@),
        decreases inst, f, 2nat, 0int,
    {
        match kw {
            KeywordValue::Required(names) => {
                match inst {
                    Json::Object(_) => {
                        let mut i: usize = 0;
                        while i < names.len()
                            invariant
                                *kw == KeywordValue::Required(*names),
                                inst is Object,
                                i <= names@.len(),
                                views(out@) + missing_errors(names@, *inst, path@, at@, i as int)
                                    == views(old(out)@) + errors_keyword(*self, *kw, *inst, path@, f as nat, at@),
                            decreases names.len() - i,
                        {
                            let ghost before = views(out@);
                            if inst.get(names[i].as_str()).is_none() {
                                report(out, path, at, ErrorKind::Required);
                            }
                            proof {
                                let e = if lookup(*inst, names@[i as int]@) is None {
                                    seq![error_at(path@, at@, ErrorKind::Required)]
                                } else {
                                    Seq::empty()
                                };
                                assert(views(out@) =~= before + e);
                                lemma_views_append(before, e, missing_errors(names@, *inst, path@, at@, i + 1));
                            }
                            i += 1;
                        }
                        assert(views(out@) =~= views(out@) + missing_errors(names@, *inst, path@, at@, i as int));
                    },
                    _ => {
                        assert(views(out@) =~= views(out@) + errors_keyword(*self, *kw, *inst, path@, f as nat, at@));
                    },
                }
            },
            KeywordValue::Properties(ps) => self.collect_properties(ps, inst, path, out),
            KeywordValue::Items(c, first) => self.collect_items(*c, *first, inst, path, out),
            KeywordValue::Dependencies(ds, legacy) => match inst {
                Json::Object(_) => {
                    let kind = if *legacy {
                        ErrorKind::Dependencies
                    } else {
                        ErrorKind::DependentRequired
                    };
                    self.collect_dependencies(ds, inst, path, f, at, kind, out);
                },
                _ => {
                    assert(views(out@) =~= views(out@) + errors_keyword(*self, *kw, *inst, path@, f as nat, at@));
                },
            },
            KeywordValue::PrefixItems(cs) => self.collect_prefix(cs, inst, path, out),
            KeywordValue::AdditionalProperties(c, names) => self.collect_additional(*c, names, inst, path, out),
            KeywordValue::AllOf(cs) => self.collect_all(cs, inst, path, f, out),
            KeywordValue::Custom(_, name) => {
                if self.keyword_is_valid(kw, inst, f) {
                    assert(views(out@) =~= views(out@) + errors_keyword(*self, *kw, *inst, path@, f as nat, at@));
                } else {
                    let location = below_key(at, name.as_str());
                    out.push(ValidationError {
                        instance_path: copy_path(path),
                        schema_location: string_from_chars(&location),
                        kind: ErrorKind::Custom,
                        message: message_for(name.as_str()),
                    });
                    assert(views(final(out)@) =~= views(old(out)@) + errors_keyword(*self, *kw, *inst, path@, f as nat, at@));
                }
            },
            KeywordValue::AnyOf(cs) => {
                if self.keyword_is_valid(kw, inst, f) {
                    assert(views(out@) =~= views(out@) + errors_keyword(*self, *kw, *inst, path@, f as nat, at@));
                } else {
                    let ghost before = views(out@);
                    report(out, path, at, ErrorKind::AnyOf);
                    self.collect_all(cs, inst, path, f, out);
                    assert(views(out@) =~= before + errors_keyword(*self, *kw, *inst, path@, f as nat, at@));
                }
            },
            KeywordValue::Ref(r) => self.collect_node(self.references[*r].node, inst, path, f, out),
            KeywordValue::Conditional(c, t, e) => {
                let branch = if self.node_is_valid(*c, inst, f) {
                    t
                } else {
                    e
                };
                match branch {
                    Some(b) => self.collect_node(*b, inst, path, f, out),
                    None => {
                        assert(views(out@) =~= views(out@) + errors_keyword(*self, *kw, *inst, path@, f as nat, at@));
                    },
                }
            },
            _ => {
                if !self.keyword_is_valid(kw, inst, f) {
                    let kind = match kw {
                        KeywordValue::Type(_) => ErrorKind::Type,
                        KeywordValue::Minimum(_) => ErrorKind::Minimum,
                        KeywordValue::Maximum(_) => ErrorKind::Maximum,
                        KeywordValue::ExclusiveMinimum(_) => ErrorKind::ExclusiveMinimum,
                        KeywordValue::ExclusiveMaximum(_) => ErrorKind::ExclusiveMaximum,
                        KeywordValue::MinSize(Measure::Length, _) => ErrorKind::MinLength,
                        KeywordValue::MaxSize(Measure::Length, _) => ErrorKind::MaxLength,
                        KeywordValue::MinSize(Measure::Items, _) => ErrorKind::MinItems,
                        KeywordValue::MaxSize(Measure::Items, _) => ErrorKind::MaxItems,
                        KeywordValue::MinSize(Measure::Properties, _) => ErrorKind::MinProperties,
                        KeywordValue::MaxSize(Measure::Properties, _) => ErrorKind::MaxProperties,
                        KeywordValue::Pattern(_) => ErrorKind::Pattern,
        KeywordValue::MultipleOf(_) => ErrorKind::MultipleOf,
        KeywordValue::Const(_) => ErrorKind::Const,
                        KeywordValue::Enum(_) => ErrorKind::Enum,
                        KeywordValue::Contains(_) => ErrorKind::Contains,
                        KeywordValue::UniqueItems => ErrorKind::UniqueItems,
                        KeywordValue::AnyOf(_) => ErrorKind::AnyOf,
                        KeywordValue::OneOf(_) => ErrorKind::OneOf,
                        KeywordValue::Not(_) => ErrorKind::Not,
                        KeywordValue::Custom(..) => ErrorKind::Custom,
                        KeywordValue::Format(_) => ErrorKind::Format,
                        _ => ErrorKind::FalseSchema,
                    };
                    report(out, path, at, kind);
                } else {
                    assert(views(out@) =~= views(out@) + errors_keyword(*self, *kw, *inst, path@, f as nat, at@));
                }
            },
        }
    }

    fn collect_all(&self, cs: &Vec<usize>, inst: &Json, path: &Vec<PathChunk>, f: usize, out: &mut Vec<ValidationError>)
        requires
            self.wf(),
        ensures
            views(final(out)@) == views(old(out)@) + errors_all(*self, cs@, 0, *inst, path@, f as nat),
        decreases inst, f, 1nat, 0int,
    {
        let mut i: usize = 0;
        while i < cs.len()
            invariant
                self.wf(),
                i <= cs@.len(),
                views(out@) + errors_all(*self, cs@, i as int, *inst, path@, f as nat)
                    == views(old(out)@) + errors_all(*self, cs@, 0, *inst, path@, f as nat),
            decreases cs.len() - i,
        {
            let ghost before = views(out@);
            self.collect_node(cs[i], inst, path, f, out);
            proof {
                lemma_views_append(
                    before,
                    errors_node(*self, cs@[i as int] as int, *inst, path@, f as nat),
                    errors_all(*self, cs@, i + 1, *inst, path@, f as nat),
                );
            }
            i += 1;
        }
        assert(views(out@) =~= views(out@) + errors_all(*self, cs@, i as int, *inst, path@, f as nat));
    }

    fn collect_properties(&self, ps: &Vec<(String, usize)>, inst: &Json, path: &Vec<PathChunk>, out: &mut Vec<ValidationError>)
        requires
            self.wf(),
        ensures
            views(final(out)@) == views(old(out)@) + errors_properties(*self, ps@, *inst, path@, 0),
        decreases inst, 0nat, 1nat, 0int,
    {
        match inst {
            Json::Object(members) => {
                let mut j: usize = 0;
                while j < members.len()
                    invariant
                        self.wf(),
                        *inst == Json::Object(*members),
                        j <= members@.len(),
                        views(out@) + errors_properties(*self, ps@, *inst, path@, j as int)
                            == views(old(out)@) + errors_properties(*self, ps@, *inst, path@, 0),
                    decreases members.len() - j,
                {
                    proof {
                        assert(decreases_to!(*inst => inst->Object_0));
                        assert(decreases_to!(inst->Object_0 => inst->Object_0@));
                        assert(decreases_to!(inst->Object_0@ => inst->Object_0@[j as int]));
                    }
                    let ghost before = views(out@);
                    match property_lookup(ps, &members[j].0) {
                        Some(c) => {
                            let mut sub = copy_path(path);
                            sub.push(PathChunk::Key(members[j].0.clone()));
                            self.collect_node(c, &members[j].1, &sub, self.nodes.len(), out);
                        },
                        None => {
                            assert(views(out@) =~= before + Seq::<ErrorView>::empty());
                        },
                    }
                    proof {
                        let e = match property_index(ps@, members@[j as int].0@) {
                            Some(c) => errors_node(
                                *self,
                                c as int,
                                members@[j as int].1,
                                path@.push(PathChunk::Key(members@[j as int].0)),
                                fuel(*self),
                            ),
                            None => Seq::empty(),
                        };
                        lemma_views_append(before, e, errors_properties(*self, ps@, *inst, path@, j + 1));
                    }
                    j += 1;
                }
                assert(views(out@) =~= views(out@) + errors_properties(*self, ps@, *inst, path@, j as int));
            },
            _ => {
                assert(views(out@) =~= views(out@) + errors_properties(*self, ps@, *inst, path@, 0));
            },
        }
    }

    fn collect_additional(
        &self,
        c: usize,
        names: &Vec<String>,
        inst: &Json,
        path: &Vec<PathChunk>,
        out: &mut Vec<ValidationError>,
    )
        requires
            self.wf(),
        ensures
            views(final(out)@) == views(old(out)@) + errors_additional(*self, c as int, names@, *inst, path@, 0),
        decreases inst, 0nat, 1nat, 0int,
    {
        match inst {
            Json::Object(members) => {
                let mut j: usize = 0;
                while j < members.len()
                    invariant
                        self.wf(),
                        *inst == Json::Object(*members),
                        j <= members@.len(),
                        views(out@) + errors_additional(*self, c as int, names@, *inst, path@, j as int)
                            == views(old(out)@) + errors_additional(*self, c as int, names@, *inst, path@, 0),
                    decreases members.len() - j,
                {
                    proof {
                        assert(decreases_to!(*inst => inst->Object_0));
                        assert(decreases_to!(inst->Object_0 => inst->Object_0@));
                        assert(decreases_to!(inst->Object_0@ => inst->Object_0@[j as int]));
                    }
                    let ghost before = views(out@);
                    if !is_listed(names, &members[j].0) {
                        let mut sub = copy_path(path);
                        sub.push(PathChunk::Key(members[j].0.clone()));
                        self.collect_node(c, &members[j].1, &sub, self.nodes.len(), out);
                    } else {
                        assert(views(out@) =~= before + Seq::<ErrorView>::empty());
                    }
                    proof {
                        let e = if listed(names@, members@[j as int].0@) {
                            Seq::empty()
                        } else {
                            errors_node(
                                *self,
                                c as int,
                                members@[j as int].1,
                                path@.push(PathChunk::Key(members@[j as int].0)),
                                fuel(*self),
                            )
                        };
                        lemma_views_append(before, e, errors_additional(*self, c as int, names@, *inst, path@, j + 1));
                    }
                    j += 1;
                }
                assert(views(out@) =~= views(out@) + errors_additional(*self, c as int, names@, *inst, path@, j as int));
            },
            _ => {
                assert(views(out@) =~= views(out@) + errors_additional(*self, c as int, names@, *inst, path@, 0));
            },
        }
    }

    fn collect_dependencies(
        &self,
        ds: &Vec<(String, Dependency)>,
        inst: &Json,
        path: &Vec<PathChunk>,
        f: usize,
        at: &Vec<char>,
        kind: ErrorKind,
        out: &mut Vec<ValidationError>,
    )
        requires
            self.wf(),
        ensures
            views(final(out)@) == views(old(out)@) + errors_dependencies(*self, ds@, *inst, path@, 0, f as nat, at@, kind),
        decreases inst, f, 1nat, 0int,
    {
        let mut i: usize = 0;
        while i < ds.len()
            invariant
                self.wf(),
                i <= ds@.len(),
                views(out@) + errors_dependencies(*self, ds@, *inst, path@, i as int, f as nat, at@, kind)
                    == views(old(out)@) + errors_dependencies(*self, ds@, *inst, path@, 0, f as nat, at@, kind),
            decreases ds.len() - i,
        {
            let ghost before = views(out@);
            if inst.get(ds[i].0.as_str()).is_some() {
                match &ds[i].1 {
                    Dependency::Names(ns) => {
                        if !all_listed_present(ns, inst) {
                            report(out, path, at, kind);
                        } else {
                            assert(views(out@) =~= before + Seq::<ErrorView>::empty());
                        }
                    },
                    Dependency::Schema(c) => self.collect_node(*c, inst, path, f, out),
                }
            } else {
                assert(views(out@) =~= before + Seq::<ErrorView>::empty());
            }
            proof {
                let e = if lookup(*inst, ds@[i as int].0@) is None {
                    Seq::empty()
                } else {
                    match ds@[i as int].1 {
                        Dependency::Names(ns) => if all_present(ns@, *inst) {
                            Seq::empty()
                        } else {
                            seq![error_at(path@, at@, kind)]
                        },
                        Dependency::Schema(c) => errors_node(*self, c as int, *inst, path@, f as nat),
                    }
                };
                lemma_views_append(before, e, errors_dependencies(*self, ds@, *inst, path@, i + 1, f as nat, at@, kind));
            }
            i += 1;
        }
        assert(views(out@) =~= views(out@) + errors_dependencies(*self, ds@, *inst, path@, i as int, f as nat, at@, kind));
    }

    fn collect_prefix(&self, cs: &Vec<usize>, inst: &Json, path: &Vec<PathChunk>, out: &mut Vec<ValidationError>)
        requires
            self.wf(),
        ensures
            views(final(out)@) == views(old(out)@) + errors_prefix(*self, cs@, *inst, path@, 0),
        decreases inst, 0nat, 1nat, 0int,
    {
        match inst {
            Json::Array(elems) => {
                let mut j: usize = 0;
                while j < elems.len() && j < cs.len()
                    invariant
                        self.wf(),
                        *inst == Json::Array(*elems),
                        j <= elems@.len(),
                        views(out@) + errors_prefix(*self, cs@, *inst, path@, j as int)
                            == views(old(out)@) + errors_prefix(*self, cs@, *inst, path@, 0),
                    decreases elems.len() - j,
                {
                    proof {
                        assert(decreases_to!(*inst => inst->Array_0));
                        assert(decreases_to!(inst->Array_0 => inst->Array_0@));
                        assert(decreases_to!(inst->Array_0@ => inst->Array_0@[j as int]));
                    }
                    let ghost before = views(out@);
                    let mut sub = copy_path(path);
                    sub.push(PathChunk::Index(j));
                    self.collect_node(cs[j], &elems[j], &sub, self.nodes.len(), out);
                    proof {
                        lemma_views_append(
                            before,
                            errors_node(*self, cs@[j as int] as int, elems@[j as int], path@.push(PathChunk::Index(j)), fuel(*self)),
                            errors_prefix(*self, cs@, *inst, path@, j + 1),
                        );
                    }
                    j += 1;
                }
                assert(views(out@) =~= views(out@) + errors_prefix(*self, cs@, *inst, path@, j as int));
            },
            _ => {
                assert(views(out@) =~= views(out@) + errors_prefix(*self, cs@, *inst, path@, 0));
            },
        }
    }

    fn collect_items(&self, c: usize, first: usize, inst: &Json, path: &Vec<PathChunk>, out: &mut Vec<ValidationError>)
        requires
            self.wf(),
        ensures
            views(final(out)@) == views(old(out)@) + errors_items(*self, c as int, *inst, path@, first as int),
        decreases inst, 0nat, 1nat, 0int,
    {
        match inst {
            Json::Array(elems) => {
                let mut j: usize = first;
                while j < elems.len()
                    invariant
                        self.wf(),
                        *inst == Json::Array(*elems),
                        first <= j,
                        views(out@) + errors_items(*self, c as int, *inst, path@, j as int)
                            == views(old(out)@) + errors_items(*self, c as int, *inst, path@, first as int),
                    decreases elems.len() - j,
                {
                    proof {
                        assert(decreases_to!(*inst => inst->Array_0));
                        assert(decreases_to!(inst->Array_0 => inst->Array_0@));
                        assert(decreases_to!(inst->Array_0@ => inst->Array_0@[j as int]));
                    }
                    let ghost before = views(out@);
                    let mut sub = copy_path(path);
                    sub.push(PathChunk::Index(j));
                    self.collect_node(c, &elems[j], &sub, self.nodes.len(), out);
                    proof {
                        lemma_views_append(
                            before,
                            errors_node(*self, c as int, elems@[j as int], path@.push(PathChunk::Index(j)), fuel(*self)),
                            errors_items(*self, c as int, *inst, path@, j + 1),
                        );
                    }
                    j += 1;
                }
                assert(views(out@) =~= views(out@) + errors_items(*self, c as int, *inst, path@, j as int));
            },
            _ => {
                assert(views(out@) =~= views(out@) + errors_items(*self, c as int, *inst, path@, first as int));
            },
        }
    }

    /// Every error of `inst`, in order: keywords in the order the schema
    /// declares them, and within a keyword, its sub-schemas in order.
    pub fn iter_errors(&self, inst: &Json) -> (r: Vec<ValidationError>)
        requires
            self.wf(),
        ensures
            views(r@) == self.errors(*inst),
    {
        let mut out: Vec<ValidationError> = Vec::new();
        let path: Vec<PathChunk> = Vec::new();
        self.collect_node(self.root, inst, &path, self.nodes.len(), &mut out);
        assert(views(out@) =~= self.errors(*inst)) by {
            assert(path@ =~= Seq::<PathChunk>::empty());
        }
        out
    }

    /// The first error of `inst`, if any.
    pub fn validate(&self, inst: &Json) -> (r: Result<(), ValidationError>)
        requires
            self.wf(),
        ensures
            r is Ok <==> self.errors(*inst).len() == 0,
            r matches Err(e) ==> e@ == self.errors(*inst)[0],
    {
        let mut errors = self.iter_errors(inst);
        if errors.len() == 0 {
            Ok(())
        } else {
            proof {
                assert(views(errors@)[0] == errors@[0]@);
            }
            Err(errors.remove(0))
        }
    }
}

} // verus!
