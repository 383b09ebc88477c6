use vstd::prelude::*;

use crate::drafts::{keyword_of, ref_overrides_siblings, Draft, KeywordKind};
use crate::error::{string_from_chars, BuildError};
use crate::json::{chars_eq, chars_of, lemma_member_index, lookup, member_index, same, Json};
use crate::graph::{JsonSchemaValidator, Reference};
use crate::pattern::{pattern_compiles, regex_valid};
use crate::location::{below, below_index, below_key, decimal, escaped, root as location_root, root_location};
use crate::vocabulary::{keyword_wf, node_wf, nodes_wf, type_of_value, Dependency, KeywordFactory, KeywordValue, Measure, Node, Type};

verus! {

/// Whether a keyword of kind `kind` in schema object `s` takes part in
/// compilation: in the drafts where `$ref` overrides its siblings, only `$ref`
/// and the definitions next to it do.
pub open spec fn keyword_active(d: Draft, s: Json, kind: KeywordKind) -> bool {
    !(ref_overrides_siblings(d) && lookup(s, "$ref"@) is Some) || kind == KeywordKind::Ref
        || kind == KeywordKind::Definitions
}

/// Whether `s` is a well-formed schema under draft `d`: an object or a boolean,
/// whose known keywords have values of the right shape, down to every sub-schema.
/// Unknown keywords are allowed and ignored.
pub open spec fn schema_ok(d: Draft, names: Seq<Seq<char>>, s: Json) -> bool
    decreases s, 2nat, 0int,
{
    match s {
        Json::Bool(_) => true,
        Json::Object(_) => members_ok(d, names, s, 0),
        _ => false,
    }
}

/// Members `i..` of schema object `s` are well-formed.
pub open spec fn members_ok(d: Draft, names: Seq<Seq<char>>, s: Json, i: int) -> bool
    decreases s, 1nat, s->Object_0@.len() - i,
{
    if s is Object && 0 <= i < s->Object_0@.len() {
        member_ok(d, names, s, i) && members_ok(d, names, s, i + 1)
    } else {
        true
    }
}

/// Member `i` of schema object `s` is well-formed. A caller's keyword, named in
/// `names`, is judged by its factory alone and counts as well-formed here.
pub open spec fn member_ok(d: Draft, names: Seq<Seq<char>>, s: Json, i: int) -> bool
    decreases s, 0nat, 0int,
{
    if s is Object && 0 <= i < s->Object_0@.len() && !names.contains(s->Object_0@[i].0@) {
        match keyword_of(d, s->Object_0@[i].0@) {
            Some(kind) => !keyword_active(d, s, kind) || value_ok(d, names, kind, s->Object_0@[i].1),
            None => true,
        }
    } else {
        true
    }
}

/// Every element is a string.
pub open spec fn all_strings(s: Seq<Json>) -> bool {
    forall|j: int| 0 <= j < s.len() ==> #[trigger] s[j] is Str
}

/// The value `v` of a keyword of kind `kind` is well-formed.
pub open spec fn value_ok(d: Draft, names: Seq<Seq<char>>, kind: KeywordKind, v: Json) -> bool
    decreases v, 3nat, 0int,
{
    match kind {
        KeywordKind::Type => type_of_value(v) is Some,
        KeywordKind::Minimum | KeywordKind::Maximum | KeywordKind::ExclusiveMinimum
        | KeywordKind::ExclusiveMaximum => v is Integer,
        KeywordKind::ExclusiveMinimumFlag | KeywordKind::ExclusiveMaximumFlag => v is Bool,
        KeywordKind::Required => v is Array && all_strings(v->Array_0@),
        KeywordKind::Properties | KeywordKind::Definitions => v is Object && values_ok(d, names, v, 0),
        KeywordKind::Items => if v is Array && d != Draft::Draft202012 {
            elems_ok(d, names, v, 0)
        } else {
            schema_ok(d, names, v)
        },
        KeywordKind::PrefixItems => v is Array && elems_ok(d, names, v, 0),
        KeywordKind::Not | KeywordKind::If | KeywordKind::Then
        | KeywordKind::Else | KeywordKind::AdditionalProperties | KeywordKind::Contains => schema_ok(d, names, v),
        KeywordKind::UniqueItems => v is Bool,
        KeywordKind::AllOf | KeywordKind::AnyOf | KeywordKind::OneOf => v is Array
            && v->Array_0@.len() > 0 && elems_ok(d, names, v, 0),
        KeywordKind::Ref | KeywordKind::Format => v is Str,
        KeywordKind::Pattern => v is Str && regex_valid(v->Str_0@),
        KeywordKind::Const => true,
        KeywordKind::MultipleOf => v is Integer && v->Integer_0 > 0,
        KeywordKind::Dependencies => v is Object && deps_ok(d, names, v, 0),
        KeywordKind::DependentRequired => v is Object && deps_ok(d, names, v, 0) && name_lists(v),
        KeywordKind::DependentSchemas => v is Object && deps_ok(d, names, v, 0) && no_lists(v),
        KeywordKind::Enum => v is Array,
        KeywordKind::MinLength | KeywordKind::MaxLength | KeywordKind::MinItems | KeywordKind::MaxItems
        | KeywordKind::MinProperties | KeywordKind::MaxProperties => v is Integer && v->Integer_0 >= 0,
    }
}

/// Every member value of object `v` is an array.
pub open spec fn name_lists(v: Json) -> bool {
    forall|j: int| 0 <= j < v->Object_0@.len() ==> #[trigger] v->Object_0@[j].1 is Array
}

/// No member value of object `v` is an array.
pub open spec fn no_lists(v: Json) -> bool {
    forall|j: int| 0 <= j < v->Object_0@.len() ==> !(#[trigger] v->Object_0@[j].1 is Array)
}

/// The member values `j..` of object `v` are each a list of names or a
/// well-formed schema.
pub open spec fn deps_ok(d: Draft, names: Seq<Seq<char>>, v: Json, j: int) -> bool
    decreases v, 1nat, v->Object_0@.len() - j,
{
    if v is Object && 0 <= j < v->Object_0@.len() {
        dep_ok(d, names, v->Object_0@[j].1) && deps_ok(d, names, v, j + 1)
    } else {
        true
    }
}

/// `w` is a list of names or a well-formed schema.
pub open spec fn dep_ok(d: Draft, names: Seq<Seq<char>>, w: Json) -> bool
    decreases w, 3nat, 0int,
{
    match w {
        Json::Array(a) => all_strings(a@),
        _ => schema_ok(d, names, w),
    }
}

/// The member values `j..` of object `v` are well-formed schemas.
pub open spec fn values_ok(d: Draft, names: Seq<Seq<char>>, v: Json, j: int) -> bool
    decreases v, 1nat, v->Object_0@.len() - j,
{
    if v is Object && 0 <= j < v->Object_0@.len() {
        schema_ok(d, names, v->Object_0@[j].1) && values_ok(d, names, v, j + 1)
    } else {
        true
    }
}

/// The elements `j..` of array `v` are well-formed schemas.
pub open spec fn elems_ok(d: Draft, names: Seq<Seq<char>>, v: Json, j: int) -> bool
    decreases v, 1nat, v->Array_0@.len() - j,
{
    if v is Array && 0 <= j < v->Array_0@.len() {
        schema_ok(d, names, v->Array_0@[j]) && elems_ok(d, names, v, j + 1)
    } else {
        true
    }
}

proof fn lemma_members_ok(d: Draft, names: Seq<Seq<char>>, s: Json, i: int)
    requires
        s is Object,
        0 <= i <= s->Object_0@.len(),
    ensures
        members_ok(d, names, s, i) <==> forall|k: int| i <= k < s->Object_0@.len() ==> member_ok(d, names, s, k),
    decreases s->Object_0@.len() - i,
{
    if i < s->Object_0@.len() {
        lemma_members_ok(d, names, s, i + 1);
        assert(members_ok(d, names, s, i) == (member_ok(d, names, s, i) && members_ok(d, names, s, i + 1)));
    } else {
        assert(members_ok(d, names, s, i));
    }
}

proof fn lemma_values_ok(d: Draft, names: Seq<Seq<char>>, v: Json, j: int)
    requires
        v is Object,
        0 <= j <= v->Object_0@.len(),
    ensures
        values_ok(d, names, v, j) <==> forall|k: int|
            j <= k < v->Object_0@.len() ==> schema_ok(d, names, #[trigger] v->Object_0@[k].1),
    decreases v->Object_0@.len() - j,
{
    if j < v->Object_0@.len() {
        lemma_values_ok(d, names, v, j + 1);
    }
}

proof fn lemma_deps_ok(d: Draft, names: Seq<Seq<char>>, v: Json, j: int)
    requires
        v is Object,
        0 <= j <= v->Object_0@.len(),
    ensures
        deps_ok(d, names, v, j) <==> forall|k: int|
            j <= k < v->Object_0@.len() ==> dep_ok(d, names, #[trigger] v->Object_0@[k].1),
    decreases v->Object_0@.len() - j,
{
    if j < v->Object_0@.len() {
        lemma_deps_ok(d, names, v, j + 1);
    }
}

proof fn lemma_elems_ok(d: Draft, names: Seq<Seq<char>>, v: Json, j: int)
    requires
        v is Array,
        0 <= j <= v->Array_0@.len(),
    ensures
        elems_ok(d, names, v, j) <==> forall|k: int|
            j <= k < v->Array_0@.len() ==> schema_ok(d, names, #[trigger] v->Array_0@[k]),
    decreases v->Array_0@.len() - j,
{
    if j < v->Array_0@.len() {
        lemma_elems_ok(d, names, v, j + 1);
    }
}

/// The caller's extensions: keywords by name, and formats by the name that a
/// `format` keyword gives. A format is built by the same kind of factory as a
/// keyword, from the `format` value, and is checked on strings only.
pub struct Extensions<F> {
    pub keywords: Vec<(String, F)>,
    pub formats: Vec<(String, F)>,
}

/// Reference `k` of `v` is bound to a node that represents a sub-schema that
/// `schema` places at the reference's target.
pub open spec fn reference_bound<K>(
    d: Draft,
    names: Seq<Seq<char>>,
    fnames: Seq<Seq<char>>,
    schema: Json,
    v: JsonSchemaValidator<K>,
    k: int,
) -> bool {
    exists|t: Json| #[trigger] placed(d, names, schema, root_location(), v.references@[k].target@, t) && represents(
        d,
        names,
        fnames,
        t,
        v.references@[k].target@,
        v.references@[k].node as int,
        validator_image(v),
    )
}

/// Request `r` was handed to its factory, which took the value and built `k`.
pub open spec fn built_from<F: KeywordFactory>(e: Extensions<F>, r: Request, k: F::Output) -> bool {
    let list = if r.format { e.formats@ } else { e.keywords@ };
    &&& r.factory < list.len()
    &&& list[r.factory as int].1.accepts(r.value)
    &&& list[r.factory as int].1.builds(r.value, k)
}

/// No keyword and no format is registered: no factory has a say in a build.
pub open spec fn plain<F>(e: Extensions<F>) -> bool {
    e.keywords@.len() == 0 && e.formats@.len() == 0
}

/// The names under which the caller's keywords are registered.
pub open spec fn factory_names<F>(fs: Seq<(String, F)>) -> Seq<Seq<char>> {
    fs.map_values(|p: (String, F)| p.0@)
}

fn find_factory<F>(factories: &Vec<(String, F)>, key: &String) -> (r: Option<usize>)
    ensures
        r is None <==> !factory_names(factories@).contains(key@),
        r matches Some(i) ==> i < factories@.len() && factory_names(factories@)[i as int] == key@ && forall|j: int|
            0 <= j < i ==> factory_names(factories@)[j] != key@,
{
    let mut i: usize = 0;
    while i < factories.len()
        invariant
            i <= factories@.len(),
            forall|k: int| 0 <= k < i ==> factories@[k].0@ != key@,
        decreases factories.len() - i,
    {
        if factories[i].0 == *key {
            assert(factory_names(factories@)[i as int] == key@);
            return Some(i);
        }
        i += 1;
    }
    assert(!factory_names(factories@).contains(key@)) by {
        assert forall|k: int| 0 <= k < factory_names(factories@).len() implies factory_names(factories@)[k] != key@ by {
            assert(factory_names(factories@)[k] == factories@[k].0@);
        }
    }
    None
}

/// `new` extends `old`: what was there is kept.
pub open spec fn extends<T>(old: Seq<T>, new: Seq<T>) -> bool {
    old.len() <= new.len() && forall|k: int| 0 <= k < old.len() ==> new[k] == old[k]
}

proof fn lemma_keyword_wf_mono(k: KeywordValue, a: nat, b: nat, a2: nat, b2: nat)
    requires
        keyword_wf(k, a, b),
        a <= a2,
        b <= b2,
    ensures
        keyword_wf(k, a2, b2),
{
}

proof fn lemma_nodes_wf_mono(nodes: Seq<Node>, a: nat, b: nat, a2: nat, b2: nat)
    requires
        nodes_wf(nodes, a, b),
        a <= a2,
        b <= b2,
    ensures
        nodes_wf(nodes, a2, b2),
{
    assert forall|i: int| 0 <= i < nodes.len() implies node_wf(#[trigger] nodes[i], a2, b2) by {
        assert forall|k: int| 0 <= k < nodes[i].keywords@.len() implies keyword_wf(
            #[trigger] nodes[i].keywords@[k],
            a2,
            b2,
        ) by {
            lemma_keyword_wf_mono(nodes[i].keywords@[k], a, b, a2, b2);
        }
    }
}

/// A caller's keyword or format met in the schema, built once the walk is done.
#[derive(Debug)]
pub struct Request {
    /// A format (else a keyword).
    pub format: bool,
    /// The index of its factory among those registered for its kind.
    pub factory: usize,
    /// A copy of the value that the schema gives it.
    pub value: Json,
    /// Where it stands, for the error when its factory refuses the value.
    pub location: Vec<char>,
    pub keyword: String,
}

/// What pass one keeps while it walks the document.
pub struct Table {
    pub nodes: Vec<Node>,
    /// The target of each `$ref` met so far, as written.
    pub targets: Vec<Vec<char>>,
    /// The caller's keywords and formats met so far.
    pub requests: Vec<Request>,
}

/// Every index in range: nodes and references, and each request's factory
/// among the `nk` keyword and `nf` format factories.
pub open spec fn table_wf(t: Table, nk: nat, nf: nat) -> bool {
    &&& nodes_wf(t.nodes@, t.nodes@.len(), t.targets@.len())
    &&& forall|k: int| 0 <= k < t.requests@.len() ==> #[trigger] t.requests@[k].factory < if t.requests@[k].format {
        nf
    } else {
        nk
    }
}

pub open spec fn table_grows(old: Table, new: Table) -> bool {
    extends(old.nodes@, new.nodes@) && extends(old.targets@, new.targets@) && extends(old.requests@, new.requests@)
}

proof fn lemma_kws_mono(kws: Seq<KeywordValue>, old: Table, new: Table)
    requires
        forall|k: int| 0 <= k < kws.len() ==> keyword_wf(#[trigger] kws[k], old.nodes@.len(), old.targets@.len()),
        table_grows(old, new),
    ensures
        forall|k: int| 0 <= k < kws.len() ==> keyword_wf(#[trigger] kws[k], new.nodes@.len(), new.targets@.len()),
{
    assert forall|k: int| 0 <= k < kws.len() implies keyword_wf(#[trigger] kws[k], new.nodes@.len(), new.targets@.len()) by {
        lemma_keyword_wf_mono(kws[k], old.nodes@.len(), old.targets@.len(), new.nodes@.len(), new.targets@.len());
    }
}

proof fn lemma_table_grows_trans(a: Table, b: Table, c: Table)
    requires
        table_grows(a, b),
        table_grows(b, c),
    ensures
        table_grows(a, c),
{
}

fn invalid_keyword(loc: &Vec<char>, key: &String) -> (e: BuildError)
    ensures
        e is InvalidKeyword,
{
    BuildError::InvalidKeyword { location: string_from_chars(loc), keyword: key.clone() }
}

/// Compiles the schema `s`, found at `loc`, and every sub-schema below it into
/// the table; returns the index of its node.
pub fn compile_schema<F: KeywordFactory>(
    d: Draft,
    factories: &Extensions<F>,
    s: &Json,
    loc: Vec<char>,
    table: &mut Table,
) -> (r: Result<usize, BuildError>)
    requires
        table_wf(*old(table), factories.keywords@.len(), factories.formats@.len()),
    ensures
        table_wf(*final(table), factories.keywords@.len(), factories.formats@.len()),
        table_grows(*old(table), *final(table)),
        r is Ok ==> schema_ok(d, factory_names(factories.keywords@), *s),
        !schema_ok(d, factory_names(factories.keywords@), *s) ==> r is Err,
        plain(*factories) ==> (r is Ok <==> schema_ok(d, factory_names(factories.keywords@), *s)),
        r is Ok ==> r->Ok_0 < final(table).nodes@.len() && final(table).nodes@[r->Ok_0 as int].location@ == loc@,
        r is Ok ==> table_outline(*final(table)) == join(table_outline(*old(table)), outline(d, factory_names(factories.keywords@), *s, loc@)),
        r matches Ok(n) ==> represents(d, factory_names(factories.keywords@), factory_names(factories.formats@), *s, loc@, n as int, table_image(*final(table))),
        r is Ok ==> origins(|x: Seq<char>, t: Json| placed(d, factory_names(factories.keywords@), *s, loc@, x, t), d, factory_names(factories.keywords@), factory_names(factories.formats@), old(table).nodes@.len() as int, table_image(*final(table))),
        r is Err ==> (r->Err_0 is InvalidSchema || r->Err_0 is InvalidKeyword),
    decreases s, 2nat, 0int,
{
    match s {
        Json::Bool(b) => {
            let mut keywords: Vec<KeywordValue> = Vec::new();
            if !*b {
                keywords.push(KeywordValue::False);
            }
            let node = Node { location: loc, keywords };
            assert(node_wf(node, (table.nodes@.len() + 1) as nat, table.targets@.len()));
            proof {
                lemma_nodes_wf_mono(table.nodes@, table.nodes@.len(), table.targets@.len(), (table.nodes@.len() + 1) as nat, table.targets@.len());
                lemma_locations_push(table.nodes@, node);
            }
            table.nodes.push(node);
            assert(table_outline(*table) =~= join(table_outline(*old(table)), outline(d, factory_names(factories.keywords@), *s, loc@)));
            assert(table.nodes@[table.nodes@.len() - 1] == node);
            proof {
                let n = table.nodes@.len() - 1;
                assert(placed(d, factory_names(factories.keywords@), *s, loc@, loc@, *s));
                assert(table.nodes@[n].location@ == loc@);
                assert(represents(d, factory_names(factories.keywords@), factory_names(factories.formats@), *s, loc@, n, table_image(*table)));
                let cx = |x: Seq<char>, t: Json| placed(d, factory_names(factories.keywords@), *s, loc@, x, t);
                assert(cx(table_image(*table).nodes[n].location@, *s));
                assert(origin_at(|x: Seq<char>, t: Json| placed(d, factory_names(factories.keywords@), *s, loc@, x, t), d, factory_names(factories.keywords@), factory_names(factories.formats@), n, table_image(*table)));
            }
            Ok(table.nodes.len() - 1)
        },
        Json::Object(members) => {
            let overridden = d.ref_overrides_siblings() && s.get("$ref").is_some();
            let mut keywords: Vec<KeywordValue> = Vec::new();
            // Where `if` stands among the keywords, and the branches met so far.
            let mut condition: Option<(usize, usize)> = None;
            let mut then_node: Option<usize> = None;
            let mut else_node: Option<usize> = None;
            let mut i: usize = 0;
            while i < members.len()
                invariant
                    *s == Json::Object(*members),
                    overridden == (ref_overrides_siblings(d) && lookup(*s, "$ref"@) is Some),
                    i <= members@.len(),
                    table_wf(*table, factories.keywords@.len(), factories.formats@.len()),
                    table_grows(*old(table), *table),
                    forall|k: int| 0 <= k < i ==> member_ok(d, factory_names(factories.keywords@), *s, k),
                    forall|k: int| 0 <= k < keywords@.len() ==> keyword_wf(#[trigger] keywords@[k], table.nodes@.len(), table.targets@.len()),
                    join(table_outline(*old(table)), members_outline(d, factory_names(factories.keywords@), *s, loc@, 0))
                        == join(table_outline(*table), members_outline(d, factory_names(factories.keywords@), *s, loc@, i as int)),
                    keywords@.len() == i,
                    condition matches Some(c) ==> c.0 < keywords@.len() && c.1 < table.nodes@.len(),
                    then_node matches Some(t) ==> t < table.nodes@.len(),
                    else_node matches Some(e) ==> e < table.nodes@.len(),
                    forall|k: int| 0 <= k < i ==> (condition is Some && condition->Some_0.0 == k) || #[trigger] member_represented(d, factory_names(factories.keywords@), factory_names(factories.formats@), *s, loc@, keywords@, k, table_image(*table)),
                    condition is None <==> first_of_kind(d, factory_names(factories.keywords@), *s, KeywordKind::If, i as int) is None,
                    condition matches Some(c) ==> first_of_kind(d, factory_names(factories.keywords@), *s, KeywordKind::If, i as int) == Some(c.0 as int)
                        && keywords@[c.0 as int] == KeywordValue::Conditional(c.1, None, None)
                        && represents(d, factory_names(factories.keywords@), factory_names(factories.formats@), members@[c.0 as int].1, below(loc@, escaped(members@[c.0 as int].0@)), c.1 as int, table_image(*table)),
                    origins(|x: Seq<char>, t: Json| placed(d, factory_names(factories.keywords@), *s, loc@, x, t), d, factory_names(factories.keywords@), factory_names(factories.formats@), old(table).nodes@.len() as int, table_image(*table)),
                    match first_of_kind(d, factory_names(factories.keywords@), *s, KeywordKind::Then, i as int) {
                        Some(j) => keywords@[j] is Branch && then_node == Some(keywords@[j]->Branch_0),
                        None => then_node is None,
                    },
                    match first_of_kind(d, factory_names(factories.keywords@), *s, KeywordKind::Else, i as int) {
                        Some(j) => keywords@[j] is Branch && else_node == Some(keywords@[j]->Branch_0),
                        None => else_node is None,
                    },
                decreases members.len() - i,
            {
                let key = &members[i].0;
                let value = &members[i].1;
                let ghost start = *table;
                let ghost kws0 = keywords@;
                let ghost cond0 = condition;
                proof {
                    lemma_first_of_kind_bound(d, factory_names(factories.keywords@), *s, KeywordKind::If, i as int);
                    lemma_first_of_kind_bound(d, factory_names(factories.keywords@), *s, KeywordKind::Then, i as int);
                    lemma_first_of_kind_bound(d, factory_names(factories.keywords@), *s, KeywordKind::Else, i as int);
                }
                let custom = find_factory(&factories.keywords, key);
                if let Some(fi) = custom {
                    table.requests.push(Request {
                        format: false,
                        factory: fi,
                        value: value.copy(),
                        location: loc.clone(),
                        keyword: key.clone(),
                    });
                    keywords.push(KeywordValue::Custom(table.requests.len() - 1, key.clone()));
                } else {
                    match d.get_keyword(key.as_str()) {
                        None => keywords.push(KeywordValue::Annotation),
                        Some(kind) => {
                            if !overridden || kind == KeywordKind::Ref || kind == KeywordKind::Definitions {
                                let ghost before = *table;
                                proof {
                                    assert(decreases_to!(*s => s->Object_0));
                                    assert(decreases_to!(s->Object_0 => s->Object_0@));
                                    assert(decreases_to!(s->Object_0@ => s->Object_0@[i as int]));
                                }
                                let compiled = if kind == KeywordKind::If || kind == KeywordKind::Then
                                    || kind == KeywordKind::Else {
                                    let here = below_key(&loc, key.as_str());
                                    let ghost here_v = here@;
                                    match compile_schema(d, factories, value, here, table) {
                                        Ok(c) => {
                                            proof {
                                                let cc = |x: Seq<char>, t: Json| placed(d, factory_names(factories.keywords@), members@[i as int].1, here_v, x, t);
                                                let cm = |x: Seq<char>, t: Json| placed(d, factory_names(factories.keywords@), *s, loc@, x, t);
                                                assert forall|x: Seq<char>, t: Json| #[trigger] cc(x, t) implies cm(x, t) by {
                                                    assert(member_placed(d, factory_names(factories.keywords@), *s, loc@, i as int, x, t));
                                                    lemma_members_placed(d, factory_names(factories.keywords@), *s, loc@, 0, i as int, x, t);
                                                }
                                                lemma_origins_weaken(cc, cm, d, factory_names(factories.keywords@), factory_names(factories.formats@), start.nodes@.len() as int, table_image(*table));
                                            }
                                            if kind == KeywordKind::If && condition.is_none() {
                                                condition = Some((keywords.len(), c));
                                                Ok(KeywordValue::Conditional(c, None, None))
                                            } else {
                                                if kind == KeywordKind::Then && then_node.is_none() {
                                                    then_node = Some(c);
                                                } else if kind == KeywordKind::Else && else_node.is_none() {
                                                    else_node = Some(c);
                                                }
                                                Ok(KeywordValue::Branch(c))
                                            }
                                        },
                                        Err(e) => Err(e),
                                    }
                                } else {
                                    let made = compile_keyword(d, factories, s, kind, key, value, &loc, table);
                                    proof {
                                        if made is Ok {
                                            let cc = |x: Seq<char>, t: Json| value_placed(d, factory_names(factories.keywords@), kind, members@[i as int].1, below(loc@, escaped(key@)), x, t);
                                                let cm = |x: Seq<char>, t: Json| placed(d, factory_names(factories.keywords@), *s, loc@, x, t);
                                                assert forall|x: Seq<char>, t: Json| #[trigger] cc(x, t) implies cm(x, t) by {
                                                    assert(member_placed(d, factory_names(factories.keywords@), *s, loc@, i as int, x, t));
                                                    lemma_members_placed(d, factory_names(factories.keywords@), *s, loc@, 0, i as int, x, t);
                                                }
                                                lemma_origins_weaken(cc, cm, d, factory_names(factories.keywords@), factory_names(factories.formats@), start.nodes@.len() as int, table_image(*table));
                                        }
                                    }
                                    made
                                };
                                match compiled {
                                    Ok(kw) => {
                                        proof { lemma_kws_mono(keywords@, before, *table); }
                                        keywords.push(kw);
                                    },
                                    Err(e) => {
                                        proof {
                                            if plain(*factories) {
                                                assert(!member_ok(d, factory_names(factories.keywords@), *s, i as int));
                                            }
                                            lemma_table_grows_trans(*old(table), before, *table);
                                            lemma_members_ok(d, factory_names(factories.keywords@), *s, 0);
                                        }
                                        return Err(e);
                                    },
                                }
                                proof { lemma_table_grows_trans(*old(table), before, *table); }
                            } else {
                                keywords.push(KeywordValue::Annotation);
                            }
                        },
                    }
                }
                proof {
                    assert(table_outline(*table) == join(table_outline(start), member_outline(d, factory_names(factories.keywords@), *s, loc@, i as int))) by {
                        if table_outline(*table) == table_outline(start) {
                            lemma_join_assoc(table_outline(start), empty_outline(), empty_outline());
                        }
                    }
                    lemma_join_assoc(
                        table_outline(start),
                        member_outline(d, factory_names(factories.keywords@), *s, loc@, i as int),
                        members_outline(d, factory_names(factories.keywords@), *s, loc@, i + 1),
                    );
                    lemma_table_image_grows(start, *table);
                    assert(origins(|x: Seq<char>, t: Json| placed(d, factory_names(factories.keywords@), *s, loc@, x, t), d, factory_names(factories.keywords@), factory_names(factories.formats@), start.nodes@.len() as int, table_image(*table)));
                    lemma_origins_grow(|x: Seq<char>, t: Json| placed(d, factory_names(factories.keywords@), *s, loc@, x, t), d, factory_names(factories.keywords@), factory_names(factories.formats@), old(table).nodes@.len() as int, table_image(start), table_image(*table));
                    assert(keywords@.len() == i + 1);
                    assert(keywords@.drop_last() == kws0);
                    if let Some(c) = cond0 {
                        lemma_represents_mono(d, factory_names(factories.keywords@), factory_names(factories.formats@), members@[c.0 as int].1, below(loc@, escaped(members@[c.0 as int].0@)), c.1 as int, table_image(start), table_image(*table));
                        lemma_first_of_kind_stays(d, factory_names(factories.keywords@), *s, KeywordKind::If, i as int, members@.len() as int);
                    }
                    assert forall|k: int| 0 <= k < i && !(condition is Some && condition->Some_0.0 == k) implies #[trigger] member_represented(d, factory_names(factories.keywords@), factory_names(factories.formats@), *s, loc@, keywords@, k, table_image(*table)) by {
                        assert(member_represented(d, factory_names(factories.keywords@), factory_names(factories.formats@), *s, loc@, kws0, k, table_image(start)));
                        lemma_member_mono(d, factory_names(factories.keywords@), factory_names(factories.formats@), *s, loc@, kws0, k, table_image(start), table_image(*table));
                        if first_of_kind(d, factory_names(factories.keywords@), *s, KeywordKind::If, members@.len() as int) == Some(k) {
                            lemma_first_of_kind_prefix(d, factory_names(factories.keywords@), *s, KeywordKind::If, k, i as int, members@.len() as int);
                        }
                        lemma_member_kws(d, factory_names(factories.keywords@), factory_names(factories.formats@), *s, loc@, kws0, keywords@, k, table_image(*table));
                    }
                }
                i += 1;
            }
            proof { lemma_members_ok(d, factory_names(factories.keywords@), *s, 0); }
            let ghost kws_loop = keywords@;
            if let Some((at, c)) = condition {
                keywords.set(at, KeywordValue::Conditional(c, then_node, else_node));
            }
            proof {
                let len = members@.len() as int;
                lemma_first_of_kind_bound(d, factory_names(factories.keywords@), *s, KeywordKind::If, len);
                lemma_first_of_kind_bound(d, factory_names(factories.keywords@), *s, KeywordKind::Then, len);
                lemma_first_of_kind_bound(d, factory_names(factories.keywords@), *s, KeywordKind::Else, len);
                assert forall|k: int| 0 <= k < len implies #[trigger] member_represented(d, factory_names(factories.keywords@), factory_names(factories.formats@), *s, loc@, keywords@, k, table_image(*table)) by {
                    if condition is Some && condition->Some_0.0 == k {
                        if let Some(j) = first_of_kind(d, factory_names(factories.keywords@), *s, KeywordKind::Then, len) {
                            assert(keywords@[j] == kws_loop[j]);
                        }
                        if let Some(j) = first_of_kind(d, factory_names(factories.keywords@), *s, KeywordKind::Else, len) {
                            assert(keywords@[j] == kws_loop[j]);
                        }
                    } else {
                        assert(member_represented(d, factory_names(factories.keywords@), factory_names(factories.formats@), *s, loc@, kws_loop, k, table_image(*table)));
                        lemma_member_kws(d, factory_names(factories.keywords@), factory_names(factories.formats@), *s, loc@, kws_loop, keywords@, k, table_image(*table));
                    }
                }
                lemma_members_from_all(d, factory_names(factories.keywords@), factory_names(factories.formats@), *s, loc@, keywords@, 0, table_image(*table));
            }
            let ghost kws_final = keywords@;
            let node = Node { location: loc, keywords };
            assert(node_wf(node, (table.nodes@.len() + 1) as nat, table.targets@.len())) by {
                lemma_kws_mono(node.keywords@, *table, *table);
                assert forall|k: int| 0 <= k < node.keywords@.len() implies keyword_wf(#[trigger] node.keywords@[k], (table.nodes@.len() + 1) as nat, table.targets@.len()) by {
                    lemma_keyword_wf_mono(node.keywords@[k], table.nodes@.len(), table.targets@.len(), (table.nodes@.len() + 1) as nat, table.targets@.len());
                }
            }
            proof {
                lemma_nodes_wf_mono(table.nodes@, table.nodes@.len(), table.targets@.len(), (table.nodes@.len() + 1) as nat, table.targets@.len());
                lemma_locations_push(table.nodes@, node);
                lemma_join_assoc(table_outline(*table), empty_outline(), empty_outline());
            }
            let ghost mid = *table;
            table.nodes.push(node);
            assert(table_outline(*table) =~= join(table_outline(*old(table)), outline(d, factory_names(factories.keywords@), *s, loc@))) by {
                assert(table_outline(mid) == join(table_outline(*old(table)), members_outline(d, factory_names(factories.keywords@), *s, loc@, 0)));
            }
            proof {
                lemma_table_image_grows(mid, *table);
                lemma_members_mono(d, factory_names(factories.keywords@), factory_names(factories.formats@), *s, loc@, kws_final, 0, table_image(mid), table_image(*table));
                assert(table.nodes@[table.nodes@.len() - 1].keywords@ == kws_final);
                let n = table.nodes@.len() - 1;
                assert(placed(d, factory_names(factories.keywords@), *s, loc@, loc@, *s));
                assert(table.nodes@[n].location@ == loc@);
                assert(represents(d, factory_names(factories.keywords@), factory_names(factories.formats@), *s, loc@, n, table_image(*table)));
                let cx = |x: Seq<char>, t: Json| placed(d, factory_names(factories.keywords@), *s, loc@, x, t);
                assert(cx(table_image(*table).nodes[n].location@, *s));
                assert(origin_at(|x: Seq<char>, t: Json| placed(d, factory_names(factories.keywords@), *s, loc@, x, t), d, factory_names(factories.keywords@), factory_names(factories.formats@), n, table_image(*table)));
                assert(origins(|x: Seq<char>, t: Json| placed(d, factory_names(factories.keywords@), *s, loc@, x, t), d, factory_names(factories.keywords@), factory_names(factories.formats@), mid.nodes@.len() as int, table_image(*table)));
                lemma_origins_grow(|x: Seq<char>, t: Json| placed(d, factory_names(factories.keywords@), *s, loc@, x, t), d, factory_names(factories.keywords@), factory_names(factories.formats@), old(table).nodes@.len() as int, table_image(mid), table_image(*table));
            }
            Ok(table.nodes.len() - 1)
        },
        _ => Err(BuildError::InvalidSchema { location: string_from_chars(&loc) }),
    }
}

/// How many leading elements the sibling `prefixItems` covers.
fn prefix_length(s: &Json) -> (r: usize)
    ensures
        r == sibling_prefix(*s),
{
    match s.get("prefixItems") {
        Some(Json::Array(items)) => items.len(),
        _ => 0,
    }
}

/// The keys of the sibling `properties` object, if there is one.
fn listed_keys(s: &Json) -> (r: Vec<String>)
    ensures
        sibling_keys(r@, *s),
{
    let mut keys: Vec<String> = Vec::new();
    match s.get("properties") {
        Some(Json::Object(members)) => {
            let mut i: usize = 0;
            while i < members.len()
                invariant
                    i <= members@.len(),
                    keys@.len() == i,
                    forall|k: int| 0 <= k < i ==> #[trigger] keys@[k]@ == members@[k].0@,
                decreases members.len() - i,
            {
                keys.push(members[i].0.clone());
                i += 1;
            }
        },
        _ => {},
    }
    keys
}

/// Whether the boolean `name` of schema object `s` is `true`.
fn flag_set(s: &Json, name: &str) -> (r: bool)
    ensures
        r == (lookup(*s, name@) == Some(Json::Bool(true))),
{
    match s.get(name) {
        Some(Json::Bool(b)) => *b,
        _ => false,
    }
}

/// Compiles one keyword of schema object `s` at `loc`: `Annotation` for a
/// keyword that holds no check of its own (Draft 4's flags, an unregistered format).
fn compile_keyword<F: KeywordFactory>(
    d: Draft,
    factories: &Extensions<F>,
    s: &Json,
    kind: KeywordKind,
    key: &String,
    v: &Json,
    loc: &Vec<char>,
    table: &mut Table,
) -> (r: Result<KeywordValue, BuildError>)
    requires
        table_wf(*old(table), factories.keywords@.len(), factories.formats@.len()),
        kind != KeywordKind::If && kind != KeywordKind::Then && kind != KeywordKind::Else,
    ensures
        table_wf(*final(table), factories.keywords@.len(), factories.formats@.len()),
        table_grows(*old(table), *final(table)),
        r is Ok ==> value_ok(d, factory_names(factories.keywords@), kind, *v),
        !value_ok(d, factory_names(factories.keywords@), kind, *v) ==> r is Err,
        plain(*factories) ==> (r is Ok <==> value_ok(d, factory_names(factories.keywords@), kind, *v)),
        r matches Ok(kw) ==> keyword_wf(kw, final(table).nodes@.len(), final(table).targets@.len()),
        r is Ok ==> origins(|x: Seq<char>, t: Json| value_placed(d, factory_names(factories.keywords@), kind, *v, below(loc@, escaped(key@)), x, t), d, factory_names(factories.keywords@), factory_names(factories.formats@), old(table).nodes@.len() as int, table_image(*final(table))),
        r matches Ok(kw) ==> value_represented(d, factory_names(factories.keywords@), factory_names(factories.formats@), *s, kind, *v, below(loc@, escaped(key@)), kw, table_image(*final(table))),
        r is Ok ==> table_outline(*final(table)) == join(
            table_outline(*old(table)),
            value_outline(d, factory_names(factories.keywords@), kind, *v, below(loc@, escaped(key@))),
        ),
        r is Err ==> (r->Err_0 is InvalidSchema || r->Err_0 is InvalidKeyword),
    decreases v, 3nat, 0int,
{
    proof { lemma_join_assoc(table_outline(*old(table)), empty_outline(), empty_outline()); }
    match kind {
        KeywordKind::Type => match Type::from_value(v) {
            Some(t) => Ok(KeywordValue::Type(t)),
            None => Err(invalid_keyword(loc, key)),
        },
        KeywordKind::Minimum => match v {
            Json::Integer(n) => if d == Draft::Draft04 && flag_set(s, "exclusiveMinimum") {
                Ok(KeywordValue::ExclusiveMinimum(*n))
            } else {
                Ok(KeywordValue::Minimum(*n))
            },
            _ => Err(invalid_keyword(loc, key)),
        },
        KeywordKind::Maximum => match v {
            Json::Integer(n) => if d == Draft::Draft04 && flag_set(s, "exclusiveMaximum") {
                Ok(KeywordValue::ExclusiveMaximum(*n))
            } else {
                Ok(KeywordValue::Maximum(*n))
            },
            _ => Err(invalid_keyword(loc, key)),
        },
        KeywordKind::ExclusiveMinimum => match v {
            Json::Integer(n) => Ok(KeywordValue::ExclusiveMinimum(*n)),
            _ => Err(invalid_keyword(loc, key)),
        },
        KeywordKind::ExclusiveMaximum => match v {
            Json::Integer(n) => Ok(KeywordValue::ExclusiveMaximum(*n)),
            _ => Err(invalid_keyword(loc, key)),
        },
        KeywordKind::ExclusiveMinimumFlag | KeywordKind::ExclusiveMaximumFlag => match v {
            Json::Bool(_) => Ok(KeywordValue::Annotation),
            _ => Err(invalid_keyword(loc, key)),
        },
        KeywordKind::Required => match v {
            Json::Array(list) => {
                let mut out: Vec<String> = Vec::new();
                let mut j: usize = 0;
                while j < list.len()
                    invariant
                        *v == Json::Array(*list),
                        table_wf(*table, factories.keywords@.len(), factories.formats@.len()),
                        table_grows(*old(table), *table),
                        j <= list@.len(),
                        forall|k: int| 0 <= k < j ==> #[trigger] list@[k] is Str,
                        out@.len() == j,
                        forall|k: int| 0 <= k < j ==> #[trigger] out@[k]@ == list@[k]->Str_0@,
                        kind == KeywordKind::Required,
                    decreases list.len() - j,
                {
                    match &list[j] {
                        Json::Str(n) => out.push(n.clone()),
                        _ => {
                            assert(!(list@[j as int] is Str));
                            assert(!all_strings(list@));
                            return Err(invalid_keyword(loc, key));
                        },
                    }
                    j += 1;
                }
                Ok(KeywordValue::Required(out))
            },
            _ => Err(invalid_keyword(loc, key)),
        },
        KeywordKind::Properties | KeywordKind::Definitions => match v {
            Json::Object(_) => {
                let here = below_key(loc, key.as_str());
            let ghost here_v = here@;
                let props = compile_map(d, factories, v, &here, table)?;
            proof {
                let cc = |x: Seq<char>, t: Json| props_placed(d, factory_names(factories.keywords@), *v, here_v, 0, x, t);
                let cm = |x: Seq<char>, t: Json| value_placed(d, factory_names(factories.keywords@), kind, *v, below(loc@, escaped(key@)), x, t);
                assert forall|x: Seq<char>, t: Json| #[trigger] cc(x, t) implies cm(x, t) by {}
                lemma_origins_weaken(cc, cm, d, factory_names(factories.keywords@), factory_names(factories.formats@), old(table).nodes@.len() as int, table_image(*table));
            }
                if kind == KeywordKind::Properties {
                    Ok(KeywordValue::Properties(props))
                } else {
                    Ok(KeywordValue::Definitions(props))
                }
            },
            _ => Err(invalid_keyword(loc, key)),
        },
        KeywordKind::AdditionalProperties => {
            let here = below_key(loc, key.as_str());
            let ghost here_v = here@;
            let child = compile_schema(d, factories, v, here, table)?;
            proof {
                let cc = |x: Seq<char>, t: Json| placed(d, factory_names(factories.keywords@), *v, here_v, x, t);
                let cm = |x: Seq<char>, t: Json| value_placed(d, factory_names(factories.keywords@), kind, *v, below(loc@, escaped(key@)), x, t);
                assert forall|x: Seq<char>, t: Json| #[trigger] cc(x, t) implies cm(x, t) by {}
                lemma_origins_weaken(cc, cm, d, factory_names(factories.keywords@), factory_names(factories.formats@), old(table).nodes@.len() as int, table_image(*table));
            }
            Ok(KeywordValue::AdditionalProperties(child, listed_keys(s)))
        },
        KeywordKind::PrefixItems => match v {
            Json::Array(_) => {
                let here = below_key(loc, key.as_str());
            let ghost here_v = here@;
                let children = compile_list(d, factories, v, &here, table)?;
            proof {
                let cc = |x: Seq<char>, t: Json| elems_placed(d, factory_names(factories.keywords@), *v, here_v, 0, x, t);
                let cm = |x: Seq<char>, t: Json| value_placed(d, factory_names(factories.keywords@), kind, *v, below(loc@, escaped(key@)), x, t);
                assert forall|x: Seq<char>, t: Json| #[trigger] cc(x, t) implies cm(x, t) by {}
                lemma_origins_weaken(cc, cm, d, factory_names(factories.keywords@), factory_names(factories.formats@), old(table).nodes@.len() as int, table_image(*table));
            }
                Ok(KeywordValue::PrefixItems(children))
            },
            _ => Err(invalid_keyword(loc, key)),
        },
        KeywordKind::Items | KeywordKind::Not | KeywordKind::Contains => {
            if kind == KeywordKind::Items {
                if let Json::Array(_) = v {
                    // Before Draft 2020-12, an array of schemas validates a tuple.
                    if d == Draft::Draft202012 {
                        return Err(invalid_keyword(loc, key));
                    }
                    let here = below_key(loc, key.as_str());
            let ghost here_v = here@;
                    let children = compile_list(d, factories, v, &here, table)?;
            proof {
                let cc = |x: Seq<char>, t: Json| elems_placed(d, factory_names(factories.keywords@), *v, here_v, 0, x, t);
                let cm = |x: Seq<char>, t: Json| value_placed(d, factory_names(factories.keywords@), kind, *v, below(loc@, escaped(key@)), x, t);
                assert forall|x: Seq<char>, t: Json| #[trigger] cc(x, t) implies cm(x, t) by {}
                lemma_origins_weaken(cc, cm, d, factory_names(factories.keywords@), factory_names(factories.formats@), old(table).nodes@.len() as int, table_image(*table));
            }
                    return Ok(KeywordValue::PrefixItems(children));
                }
            }
            let here = below_key(loc, key.as_str());
            let ghost here_v = here@;
            let child = compile_schema(d, factories, v, here, table)?;
            proof {
                let cc = |x: Seq<char>, t: Json| placed(d, factory_names(factories.keywords@), *v, here_v, x, t);
                let cm = |x: Seq<char>, t: Json| value_placed(d, factory_names(factories.keywords@), kind, *v, below(loc@, escaped(key@)), x, t);
                assert forall|x: Seq<char>, t: Json| #[trigger] cc(x, t) implies cm(x, t) by {}
                lemma_origins_weaken(cc, cm, d, factory_names(factories.keywords@), factory_names(factories.formats@), old(table).nodes@.len() as int, table_image(*table));
            }
            if kind == KeywordKind::Items {
                Ok(KeywordValue::Items(child, prefix_length(s)))
            } else if kind == KeywordKind::Not {
                Ok(KeywordValue::Not(child))
            } else {
                Ok(KeywordValue::Contains(child))
            }
        },
        KeywordKind::UniqueItems => match v {
            Json::Bool(b) => if *b {
                Ok(KeywordValue::UniqueItems)
            } else {
                Ok(KeywordValue::Annotation)
            },
            _ => Err(invalid_keyword(loc, key)),
        },
        KeywordKind::AllOf | KeywordKind::AnyOf | KeywordKind::OneOf => match v {
            Json::Array(elems) => {
                if elems.len() == 0 {
                    return Err(invalid_keyword(loc, key));
                }
                let here = below_key(loc, key.as_str());
            let ghost here_v = here@;
                let children = compile_list(d, factories, v, &here, table)?;
            proof {
                let cc = |x: Seq<char>, t: Json| elems_placed(d, factory_names(factories.keywords@), *v, here_v, 0, x, t);
                let cm = |x: Seq<char>, t: Json| value_placed(d, factory_names(factories.keywords@), kind, *v, below(loc@, escaped(key@)), x, t);
                assert forall|x: Seq<char>, t: Json| #[trigger] cc(x, t) implies cm(x, t) by {}
                lemma_origins_weaken(cc, cm, d, factory_names(factories.keywords@), factory_names(factories.formats@), old(table).nodes@.len() as int, table_image(*table));
            }
                if kind == KeywordKind::AllOf {
                    Ok(KeywordValue::AllOf(children))
                } else if kind == KeywordKind::AnyOf {
                    Ok(KeywordValue::AnyOf(children))
                } else {
                    Ok(KeywordValue::OneOf(children))
                }
            },
            _ => Err(invalid_keyword(loc, key)),
        },
        KeywordKind::If | KeywordKind::Then | KeywordKind::Else => {
            proof { assert(false); }
            Ok(KeywordValue::Annotation)
        },
        KeywordKind::MinLength | KeywordKind::MaxLength | KeywordKind::MinItems | KeywordKind::MaxItems
        | KeywordKind::MinProperties | KeywordKind::MaxProperties => match v {
            Json::Integer(n) => if *n >= 0 {
                let kw = match kind {
                    KeywordKind::MinLength => KeywordValue::MinSize(Measure::Length, *n),
                    KeywordKind::MaxLength => KeywordValue::MaxSize(Measure::Length, *n),
                    KeywordKind::MinItems => KeywordValue::MinSize(Measure::Items, *n),
                    KeywordKind::MaxItems => KeywordValue::MaxSize(Measure::Items, *n),
                    KeywordKind::MinProperties => KeywordValue::MinSize(Measure::Properties, *n),
                    _ => KeywordValue::MaxSize(Measure::Properties, *n),
                };
                Ok(kw)
            } else {
                Err(invalid_keyword(loc, key))
            },
            _ => Err(invalid_keyword(loc, key)),
        },
        KeywordKind::Const => Ok(KeywordValue::Const(v.copy())),
        KeywordKind::Pattern => match v {
            Json::Str(p) => if pattern_compiles(p.as_str()) {
                Ok(KeywordValue::Pattern(p.clone()))
            } else {
                Err(invalid_keyword(loc, key))
            },
            _ => Err(invalid_keyword(loc, key)),
        },
        KeywordKind::MultipleOf => match v {
            Json::Integer(n) => if *n > 0 {
                Ok(KeywordValue::MultipleOf(*n))
            } else {
                Err(invalid_keyword(loc, key))
            },
            _ => Err(invalid_keyword(loc, key)),
        },
        KeywordKind::Dependencies | KeywordKind::DependentRequired | KeywordKind::DependentSchemas => match v {
            Json::Object(members) => {
                if kind == KeywordKind::DependentSchemas {
                    let mut j: usize = 0;
                    while j < members.len()
                        invariant
                            *v == Json::Object(*members),
                            kind == KeywordKind::DependentSchemas,
                            table_wf(*table, factories.keywords@.len(), factories.formats@.len()),
                            table_grows(*old(table), *table),
                            j <= members@.len(),
                            forall|k: int| 0 <= k < j ==> !(#[trigger] members@[k].1 is Array),
                        decreases members.len() - j,
                    {
                        match &members[j].1 {
                            Json::Array(_) => {
                                assert(!no_lists(*v));
                                return Err(invalid_keyword(loc, key));
                            },
                            _ => {},
                        }
                        j += 1;
                    }
                }
                if kind == KeywordKind::DependentRequired {
                    let mut j: usize = 0;
                    while j < members.len()
                        invariant
                            *v == Json::Object(*members),
                            kind == KeywordKind::DependentRequired,
                            table_wf(*table, factories.keywords@.len(), factories.formats@.len()),
                            table_grows(*old(table), *table),
                            j <= members@.len(),
                            forall|k: int| 0 <= k < j ==> #[trigger] members@[k].1 is Array,
                        decreases members.len() - j,
                    {
                        match &members[j].1 {
                            Json::Array(_) => {},
                            _ => {
                                assert(!name_lists(*v));
                                return Err(invalid_keyword(loc, key));
                            },
                        }
                        j += 1;
                    }
                }
                let here = below_key(loc, key.as_str());
            let ghost here_v = here@;
                let ds = compile_dependencies(d, factories, v, &here, table)?;
            proof {
                let cc = |x: Seq<char>, t: Json| props_placed(d, factory_names(factories.keywords@), *v, here_v, 0, x, t);
                let cm = |x: Seq<char>, t: Json| value_placed(d, factory_names(factories.keywords@), kind, *v, below(loc@, escaped(key@)), x, t);
                assert forall|x: Seq<char>, t: Json| #[trigger] cc(x, t) implies cm(x, t) by {}
                lemma_origins_weaken(cc, cm, d, factory_names(factories.keywords@), factory_names(factories.formats@), old(table).nodes@.len() as int, table_image(*table));
            }
                Ok(KeywordValue::Dependencies(ds, kind == KeywordKind::Dependencies))
            },
            _ => Err(invalid_keyword(loc, key)),
        },
        KeywordKind::Enum => match v {
            Json::Array(items) => {
                let mut values: Vec<Json> = Vec::new();
                let mut i: usize = 0;
                while i < items.len()
                    invariant
                        *v == Json::Array(*items),
                        kind == KeywordKind::Enum,
                        table_wf(*table, factories.keywords@.len(), factories.formats@.len()),
                        table_grows(*old(table), *table),
                        i <= items@.len(),
                        values@.len() == i,
                        forall|k: int| 0 <= k < i ==> same(#[trigger] values@[k], items@[k]),
                    decreases items.len() - i,
                {
                    values.push(items[i].copy());
                    i += 1;
                }
                Ok(KeywordValue::Enum(values))
            },
            _ => Err(invalid_keyword(loc, key)),
        },
        KeywordKind::Format => match v {
            Json::Str(name) => match find_factory(&factories.formats, name) {
                Some(fi) => {
                    table.requests.push(Request {
                        format: true,
                        factory: fi,
                        value: v.copy(),
                        location: loc.clone(),
                        keyword: key.clone(),
                    });
                    Ok(KeywordValue::Format(table.requests.len() - 1))
                },
                None => Ok(KeywordValue::Annotation),
            },
            _ => Err(invalid_keyword(loc, key)),
        },
        KeywordKind::Ref => match v {
            Json::Str(t) => {
                let target = chars_of(t.as_str());
                proof { lemma_targets_push(table.targets@, target); }
                table.targets.push(target);
                assert(table_outline(*table) =~= join(
                    table_outline(*old(table)),
                    value_outline(d, factory_names(factories.keywords@), kind, *v, below(loc@, escaped(key@))),
                ));
                proof { lemma_nodes_wf_mono(table.nodes@, table.nodes@.len(), (table.targets@.len() - 1) as nat, table.nodes@.len(), table.targets@.len()); }
                Ok(KeywordValue::Ref(table.targets.len() - 1))
            },
            _ => Err(invalid_keyword(loc, key)),
        },
    }
}

/// Compiles each member value of object `v` as a schema at `loc/<key>`.
fn compile_map<F: KeywordFactory>(
    d: Draft,
    factories: &Extensions<F>,
    v: &Json,
    loc: &Vec<char>,
    table: &mut Table,
) -> (r: Result<Vec<(String, usize)>, BuildError>)
    requires
        table_wf(*old(table), factories.keywords@.len(), factories.formats@.len()),
        v is Object,
    ensures
        table_wf(*final(table), factories.keywords@.len(), factories.formats@.len()),
        table_grows(*old(table), *final(table)),
        r is Ok ==> values_ok(d, factory_names(factories.keywords@), *v, 0),
        !values_ok(d, factory_names(factories.keywords@), *v, 0) ==> r is Err,
        plain(*factories) ==> (r is Ok <==> values_ok(d, factory_names(factories.keywords@), *v, 0)),
        r matches Ok(ps) ==> forall|i: int| 0 <= i < ps@.len() ==> ps@[i].1 < final(table).nodes@.len(),
        r is Ok ==> table_outline(*final(table)) == join(table_outline(*old(table)), values_outline(d, factory_names(factories.keywords@), *v, loc@, 0)),
        r matches Ok(ps) ==> ps@.len() == v->Object_0@.len() && props_represented(d, factory_names(factories.keywords@), factory_names(factories.formats@), *v, loc@, ps@, 0, table_image(*final(table))),
        r is Ok ==> origins(|x: Seq<char>, t: Json| props_placed(d, factory_names(factories.keywords@), *v, loc@, 0, x, t), d, factory_names(factories.keywords@), factory_names(factories.formats@), old(table).nodes@.len() as int, table_image(*final(table))),
        r is Err ==> (r->Err_0 is InvalidSchema || r->Err_0 is InvalidKeyword),
    decreases v, 1nat, 0int,
{
    let members = match v {
        Json::Object(m) => m,
        _ => { return Err(BuildError::InvalidSchema { location: string_from_chars(loc) }); },
    };
    proof { lemma_values_ok(d, factory_names(factories.keywords@), *v, 0); }
    let mut out: Vec<(String, usize)> = Vec::new();
    let mut j: usize = 0;
    while j < members.len()
        invariant
            *v == Json::Object(*members),
            j <= members@.len(),
            table_wf(*table, factories.keywords@.len(), factories.formats@.len()),
            table_grows(*old(table), *table),
            forall|k: int| 0 <= k < j ==> schema_ok(d, factory_names(factories.keywords@), #[trigger] members@[k].1),
            forall|i: int| 0 <= i < out@.len() ==> out@[i].1 < table.nodes@.len(),
            values_ok(d, factory_names(factories.keywords@), *v, 0) <==> forall|k: int| 0 <= k < members@.len() ==> schema_ok(d, factory_names(factories.keywords@), #[trigger] members@[k].1),
            join(table_outline(*old(table)), values_outline(d, factory_names(factories.keywords@), *v, loc@, 0))
                == join(table_outline(*table), values_outline(d, factory_names(factories.keywords@), *v, loc@, j as int)),
            out@.len() == j,
            forall|k: int| 0 <= k < j ==> #[trigger] prop_at(d, factory_names(factories.keywords@), factory_names(factories.formats@), *v, loc@, out@, k, table_image(*table)),
            origins(|x: Seq<char>, t: Json| props_placed(d, factory_names(factories.keywords@), *v, loc@, 0, x, t), d, factory_names(factories.keywords@), factory_names(factories.formats@), old(table).nodes@.len() as int, table_image(*table)),
        decreases members.len() - j,
    {
        let here = below_key(loc, members[j].0.as_str());
        let ghost here_v = here@;
        let ghost before = *table;
        proof {
            assert(decreases_to!(*v => v->Object_0));
            assert(decreases_to!(v->Object_0 => v->Object_0@));
            assert(decreases_to!(v->Object_0@ => v->Object_0@[j as int]));
        }
        let child = compile_schema(d, factories, &members[j].1, here, table)?;
        proof {
            let cc = |x: Seq<char>, t: Json| placed(d, factory_names(factories.keywords@), members@[j as int].1, here_v, x, t);
            let cm = |x: Seq<char>, t: Json| props_placed(d, factory_names(factories.keywords@), *v, loc@, 0, x, t);
            assert forall|x: Seq<char>, t: Json| #[trigger] cc(x, t) implies cm(x, t) by {
                lemma_props_placed(d, factory_names(factories.keywords@), *v, loc@, 0, j as int, x, t);
            }
            lemma_origins_weaken(cc, cm, d, factory_names(factories.keywords@), factory_names(factories.formats@), before.nodes@.len() as int, table_image(*table));
            lemma_table_image_grows(before, *table);
            lemma_origins_grow(cm, d, factory_names(factories.keywords@), factory_names(factories.formats@), old(table).nodes@.len() as int, table_image(before), table_image(*table));
        }
        proof {
            lemma_table_grows_trans(*old(table), before, *table);
            lemma_join_assoc(
                table_outline(before),
                outline(d, factory_names(factories.keywords@), members@[j as int].1, below(loc@, escaped(members@[j as int].0@))),
                values_outline(d, factory_names(factories.keywords@), *v, loc@, j + 1),
            );
        }
        proof {
            lemma_table_image_grows(before, *table);
            assert forall|k: int| 0 <= k < j implies #[trigger] prop_at(d, factory_names(factories.keywords@), factory_names(factories.formats@), *v, loc@, out@, k, table_image(*table)) by {
                assert(prop_at(d, factory_names(factories.keywords@), factory_names(factories.formats@), *v, loc@, out@, k, table_image(before)));
                lemma_represents_mono(d, factory_names(factories.keywords@), factory_names(factories.formats@), members@[k].1, below(loc@, escaped(members@[k].0@)), out@[k].1 as int, table_image(before), table_image(*table));
            }
        }
        let ghost prev = out@;
        out.push((members[j].0.clone(), child));
        proof {
            assert forall|k: int| 0 <= k <= j implies #[trigger] prop_at(d, factory_names(factories.keywords@), factory_names(factories.formats@), *v, loc@, out@, k, table_image(*table)) by {
                if k < j {
                    assert(out@[k] == prev[k]);
                    assert(prop_at(d, factory_names(factories.keywords@), factory_names(factories.formats@), *v, loc@, prev, k, table_image(*table)));
                }
            }
        }
        j += 1;
    }
    proof { lemma_props_from_all(d, factory_names(factories.keywords@), factory_names(factories.formats@), *v, loc@, out@, 0, table_image(*table)); }
    proof { lemma_join_assoc(table_outline(*table), empty_outline(), empty_outline()); }
    Ok(out)
}

/// Compiles each member value of object `v`: a list of names as it is, any
/// other value as a schema at `loc/<key>`.
fn compile_dependencies<F: KeywordFactory>(
    d: Draft,
    factories: &Extensions<F>,
    v: &Json,
    loc: &Vec<char>,
    table: &mut Table,
) -> (r: Result<Vec<(String, Dependency)>, BuildError>)
    requires
        table_wf(*old(table), factories.keywords@.len(), factories.formats@.len()),
        v is Object,
    ensures
        table_wf(*final(table), factories.keywords@.len(), factories.formats@.len()),
        table_grows(*old(table), *final(table)),
        r is Ok ==> deps_ok(d, factory_names(factories.keywords@), *v, 0),
        !deps_ok(d, factory_names(factories.keywords@), *v, 0) ==> r is Err,
        plain(*factories) ==> (r is Ok <==> deps_ok(d, factory_names(factories.keywords@), *v, 0)),
        r matches Ok(ds) ==> forall|i: int| 0 <= i < ds@.len() ==> (#[trigger] ds@[i].1 matches Dependency::Schema(c) ==> c < final(table).nodes@.len()),
        r is Ok ==> table_outline(*final(table)) == join(table_outline(*old(table)), deps_outline(d, factory_names(factories.keywords@), *v, loc@, 0)),
        r matches Ok(ds) ==> ds@.len() == v->Object_0@.len() && deps_represented(d, factory_names(factories.keywords@), factory_names(factories.formats@), *v, loc@, ds@, 0, table_image(*final(table))),
        r is Ok ==> origins(|x: Seq<char>, t: Json| props_placed(d, factory_names(factories.keywords@), *v, loc@, 0, x, t), d, factory_names(factories.keywords@), factory_names(factories.formats@), old(table).nodes@.len() as int, table_image(*final(table))),
        r is Err ==> (r->Err_0 is InvalidSchema || r->Err_0 is InvalidKeyword),
    decreases v, 1nat, 0int,
{
    let members = match v {
        Json::Object(m) => m,
        _ => { return Err(BuildError::InvalidSchema { location: string_from_chars(loc) }); },
    };
    proof { lemma_deps_ok(d, factory_names(factories.keywords@), *v, 0); }
    let mut out: Vec<(String, Dependency)> = Vec::new();
    let mut j: usize = 0;
    while j < members.len()
        invariant
            *v == Json::Object(*members),
            j <= members@.len(),
            table_wf(*table, factories.keywords@.len(), factories.formats@.len()),
            table_grows(*old(table), *table),
            forall|k: int| 0 <= k < j ==> dep_ok(d, factory_names(factories.keywords@), #[trigger] members@[k].1),
            forall|i: int| 0 <= i < out@.len() ==> (#[trigger] out@[i].1 matches Dependency::Schema(c) ==> c < table.nodes@.len()),
            deps_ok(d, factory_names(factories.keywords@), *v, 0) <==> forall|k: int| 0 <= k < members@.len() ==> dep_ok(d, factory_names(factories.keywords@), #[trigger] members@[k].1),
            join(table_outline(*old(table)), deps_outline(d, factory_names(factories.keywords@), *v, loc@, 0))
                == join(table_outline(*table), deps_outline(d, factory_names(factories.keywords@), *v, loc@, j as int)),
            out@.len() == j,
            forall|k: int| 0 <= k < j ==> #[trigger] dep_at(d, factory_names(factories.keywords@), factory_names(factories.formats@), *v, loc@, out@, k, table_image(*table)),
            origins(|x: Seq<char>, t: Json| props_placed(d, factory_names(factories.keywords@), *v, loc@, 0, x, t), d, factory_names(factories.keywords@), factory_names(factories.formats@), old(table).nodes@.len() as int, table_image(*table)),
        decreases members.len() - j,
    {
        let here = below_key(loc, members[j].0.as_str());
        let ghost here_v = here@;
        let ghost before = *table;
        proof {
            assert(decreases_to!(*v => v->Object_0));
            assert(decreases_to!(v->Object_0 => v->Object_0@));
            assert(decreases_to!(v->Object_0@ => v->Object_0@[j as int]));
        }
        match &members[j].1 {
            Json::Array(list) => {
                let mut ns: Vec<String> = Vec::new();
                let mut k: usize = 0;
                while k < list.len()
                    invariant
                        *v == Json::Object(*members),
                        j < members@.len(),
                        members@[j as int].1 == Json::Array(*list),
                        table_wf(*table, factories.keywords@.len(), factories.formats@.len()),
                        table_grows(*old(table), *table),
                        deps_ok(d, factory_names(factories.keywords@), *v, 0) <==> forall|m: int| 0 <= m < members@.len() ==> dep_ok(d, factory_names(factories.keywords@), #[trigger] members@[m].1),
                        k <= list@.len(),
                        forall|m: int| 0 <= m < k ==> #[trigger] list@[m] is Str,
                        ns@.len() == k,
                        forall|m: int| 0 <= m < k ==> #[trigger] ns@[m]@ == list@[m]->Str_0@,
                    decreases list.len() - k,
                {
                    match &list[k] {
                        Json::Str(n) => ns.push(n.clone()),
                        _ => {
                            assert(!(list@[k as int] is Str));
                            assert(!all_strings(list@));
                            assert(!dep_ok(d, factory_names(factories.keywords@), members@[j as int].1));
                            return Err(invalid_keyword(loc, &members[j].0));
                        },
                    }
                    k += 1;
                }
                proof {
                    lemma_join_assoc(table_outline(*table), empty_outline(), deps_outline(d, factory_names(factories.keywords@), *v, loc@, j + 1));
                }
                let ghost prev = out@;
                out.push((members[j].0.clone(), Dependency::Names(ns)));
                proof {
                    assert(names_of(out@[j as int].1->Names_0@, list@));
                    assert forall|k: int| 0 <= k <= j implies #[trigger] dep_at(d, factory_names(factories.keywords@), factory_names(factories.formats@), *v, loc@, out@, k, table_image(*table)) by {
                        if k < j {
                            assert(out@[k] == prev[k]);
                            assert(dep_at(d, factory_names(factories.keywords@), factory_names(factories.formats@), *v, loc@, prev, k, table_image(*table)));
                        }
                    }
                }
            },
            _ => {
                let child = compile_schema(d, factories, &members[j].1, here, table)?;
        proof {
            let cc = |x: Seq<char>, t: Json| placed(d, factory_names(factories.keywords@), members@[j as int].1, here_v, x, t);
            let cm = |x: Seq<char>, t: Json| props_placed(d, factory_names(factories.keywords@), *v, loc@, 0, x, t);
            assert forall|x: Seq<char>, t: Json| #[trigger] cc(x, t) implies cm(x, t) by {
                lemma_props_placed(d, factory_names(factories.keywords@), *v, loc@, 0, j as int, x, t);
            }
            lemma_origins_weaken(cc, cm, d, factory_names(factories.keywords@), factory_names(factories.formats@), before.nodes@.len() as int, table_image(*table));
            lemma_table_image_grows(before, *table);
            lemma_origins_grow(cm, d, factory_names(factories.keywords@), factory_names(factories.formats@), old(table).nodes@.len() as int, table_image(before), table_image(*table));
        }
                proof {
                    lemma_table_grows_trans(*old(table), before, *table);
                    lemma_join_assoc(
                        table_outline(before),
                        outline(d, factory_names(factories.keywords@), members@[j as int].1, below(loc@, escaped(members@[j as int].0@))),
                        deps_outline(d, factory_names(factories.keywords@), *v, loc@, j + 1),
                    );
                }
                proof {
                    lemma_table_image_grows(before, *table);
                    assert forall|k: int| 0 <= k < j implies #[trigger] dep_at(d, factory_names(factories.keywords@), factory_names(factories.formats@), *v, loc@, out@, k, table_image(*table)) by {
                        assert(dep_at(d, factory_names(factories.keywords@), factory_names(factories.formats@), *v, loc@, out@, k, table_image(before)));
                        if !(members@[k].1 is Array) {
                            lemma_represents_mono(d, factory_names(factories.keywords@), factory_names(factories.formats@), members@[k].1, below(loc@, escaped(members@[k].0@)), out@[k].1->Schema_0 as int, table_image(before), table_image(*table));
                        }
                    }
                }
                let ghost prev = out@;
                out.push((members[j].0.clone(), Dependency::Schema(child)));
                proof {
                    assert forall|k: int| 0 <= k <= j implies #[trigger] dep_at(d, factory_names(factories.keywords@), factory_names(factories.formats@), *v, loc@, out@, k, table_image(*table)) by {
                        if k < j {
                            assert(out@[k] == prev[k]);
                            assert(dep_at(d, factory_names(factories.keywords@), factory_names(factories.formats@), *v, loc@, prev, k, table_image(*table)));
                        }
                    }
                }
            },
        }
        j += 1;
    }
    proof {
        lemma_join_assoc(table_outline(*table), empty_outline(), empty_outline());
        lemma_deps_from_all(d, factory_names(factories.keywords@), factory_names(factories.formats@), *v, loc@, out@, 0, table_image(*table));
    }
    Ok(out)
}

/// Compiles each element of array `v` as a schema at `loc/<index>`.
fn compile_list<F: KeywordFactory>(
    d: Draft,
    factories: &Extensions<F>,
    v: &Json,
    loc: &Vec<char>,
    table: &mut Table,
) -> (r: Result<Vec<usize>, BuildError>)
    requires
        table_wf(*old(table), factories.keywords@.len(), factories.formats@.len()),
        v is Array,
    ensures
        table_wf(*final(table), factories.keywords@.len(), factories.formats@.len()),
        table_grows(*old(table), *final(table)),
        r is Ok ==> elems_ok(d, factory_names(factories.keywords@), *v, 0),
        !elems_ok(d, factory_names(factories.keywords@), *v, 0) ==> r is Err,
        plain(*factories) ==> (r is Ok <==> elems_ok(d, factory_names(factories.keywords@), *v, 0)),
        r matches Ok(cs) ==> cs@.len() == v->Array_0@.len() && forall|i: int| 0 <= i < cs@.len() ==> cs@[i] < final(table).nodes@.len(),
        r is Ok ==> table_outline(*final(table)) == join(table_outline(*old(table)), elems_outline(d, factory_names(factories.keywords@), *v, loc@, 0)),
        r matches Ok(cs) ==> list_represented(d, factory_names(factories.keywords@), factory_names(factories.formats@), *v, loc@, cs@, 0, table_image(*final(table))),
        r is Ok ==> origins(|x: Seq<char>, t: Json| elems_placed(d, factory_names(factories.keywords@), *v, loc@, 0, x, t), d, factory_names(factories.keywords@), factory_names(factories.formats@), old(table).nodes@.len() as int, table_image(*final(table))),
        r is Err ==> (r->Err_0 is InvalidSchema || r->Err_0 is InvalidKeyword),
    decreases v, 1nat, 0int,
{
    let elems = match v {
        Json::Array(e) => e,
        _ => { return Err(BuildError::InvalidSchema { location: string_from_chars(loc) }); },
    };
    proof { lemma_elems_ok(d, factory_names(factories.keywords@), *v, 0); }
    let mut out: Vec<usize> = Vec::new();
    let mut j: usize = 0;
    while j < elems.len()
        invariant
            *v == Json::Array(*elems),
            j <= elems@.len(),
            out@.len() == j,
            table_wf(*table, factories.keywords@.len(), factories.formats@.len()),
            table_grows(*old(table), *table),
            forall|k: int| 0 <= k < j ==> schema_ok(d, factory_names(factories.keywords@), #[trigger] elems@[k]),
            forall|i: int| 0 <= i < out@.len() ==> out@[i] < table.nodes@.len(),
            elems_ok(d, factory_names(factories.keywords@), *v, 0) <==> forall|k: int| 0 <= k < elems@.len() ==> schema_ok(d, factory_names(factories.keywords@), #[trigger] elems@[k]),
            join(table_outline(*old(table)), elems_outline(d, factory_names(factories.keywords@), *v, loc@, 0))
                == join(table_outline(*table), elems_outline(d, factory_names(factories.keywords@), *v, loc@, j as int)),
            forall|k: int| 0 <= k < j ==> #[trigger] elem_at(d, factory_names(factories.keywords@), factory_names(factories.formats@), *v, loc@, out@, k, table_image(*table)),
            origins(|x: Seq<char>, t: Json| elems_placed(d, factory_names(factories.keywords@), *v, loc@, 0, x, t), d, factory_names(factories.keywords@), factory_names(factories.formats@), old(table).nodes@.len() as int, table_image(*table)),
        decreases elems.len() - j,
    {
        let here = below_index(loc, j);
        let ghost here_v = here@;
        let ghost before = *table;
        proof {
            assert(decreases_to!(*v => v->Array_0));
            assert(decreases_to!(v->Array_0 => v->Array_0@));
            assert(decreases_to!(v->Array_0@ => v->Array_0@[j as int]));
        }
        let child = compile_schema(d, factories, &elems[j], here, table)?;
        proof {
            let cc = |x: Seq<char>, t: Json| placed(d, factory_names(factories.keywords@), elems@[j as int], here_v, x, t);
            let cm = |x: Seq<char>, t: Json| elems_placed(d, factory_names(factories.keywords@), *v, loc@, 0, x, t);
            assert forall|x: Seq<char>, t: Json| #[trigger] cc(x, t) implies cm(x, t) by {
                lemma_elems_placed(d, factory_names(factories.keywords@), *v, loc@, 0, j as int, x, t);
            }
            lemma_origins_weaken(cc, cm, d, factory_names(factories.keywords@), factory_names(factories.formats@), before.nodes@.len() as int, table_image(*table));
            lemma_table_image_grows(before, *table);
            lemma_origins_grow(cm, d, factory_names(factories.keywords@), factory_names(factories.formats@), old(table).nodes@.len() as int, table_image(before), table_image(*table));
        }
        proof {
            lemma_table_grows_trans(*old(table), before, *table);
            lemma_join_assoc(
                table_outline(before),
                outline(d, factory_names(factories.keywords@), elems@[j as int], below(loc@, decimal(j as nat))),
                elems_outline(d, factory_names(factories.keywords@), *v, loc@, j + 1),
            );
        }
        proof {
            lemma_table_image_grows(before, *table);
            assert forall|k: int| 0 <= k < j implies #[trigger] elem_at(d, factory_names(factories.keywords@), factory_names(factories.formats@), *v, loc@, out@, k, table_image(*table)) by {
                assert(elem_at(d, factory_names(factories.keywords@), factory_names(factories.formats@), *v, loc@, out@, k, table_image(before)));
                lemma_represents_mono(d, factory_names(factories.keywords@), factory_names(factories.formats@), elems@[k], below(loc@, decimal(k as nat)), out@[k] as int, table_image(before), table_image(*table));
            }
        }
        let ghost prev = out@;
        out.push(child);
        proof {
            assert forall|k: int| 0 <= k <= j implies #[trigger] elem_at(d, factory_names(factories.keywords@), factory_names(factories.formats@), *v, loc@, out@, k, table_image(*table)) by {
                if k < j {
                    assert(out@[k] == prev[k]);
                    assert(elem_at(d, factory_names(factories.keywords@), factory_names(factories.formats@), *v, loc@, prev, k, table_image(*table)));
                }
            }
        }
        j += 1;
    }
    proof { lemma_list_from_all(d, factory_names(factories.keywords@), factory_names(factories.formats@), *v, loc@, out@, 0, table_image(*table)); }
    proof { lemma_join_assoc(table_outline(*table), empty_outline(), empty_outline()); }
    Ok(out)
}

/// Some node of `nodes` sits at `target`.
pub open spec fn located(nodes: Seq<Node>, target: Seq<char>) -> bool {
    exists|n: int| 0 <= n < nodes.len() && nodes[n].location@ == target
}

/// Pass two: binds each reference target to the first node at that location.
fn resolve(nodes: &Vec<Node>, targets: Vec<Vec<char>>) -> (r: Result<Vec<Reference>, BuildError>)
    ensures
        r is Ok <==> forall|i: int| 0 <= i < targets@.len() ==> located(nodes@, #[trigger] targets@[i]@),
        r matches Ok(refs) ==> refs@.len() == targets@.len() && forall|i: int| 0 <= i < refs@.len() ==> {
            &&& #[trigger] refs@[i].node < nodes@.len()
            &&& nodes@[refs@[i].node as int].location@ == refs@[i].target@
            &&& refs@[i].target@ == targets@[i]@
        },
        r is Err ==> r->Err_0 is UnresolvableReference,
        r matches Err(e) ==> exists|i: int| 0 <= i < targets@.len() && !located(nodes@, #[trigger] targets@[i]@)
            && e->reference@ == targets@[i]@,
{
    let mut out: Vec<Reference> = Vec::new();
    let mut i: usize = 0;
    while i < targets.len()
        invariant
            out@.len() == i,
            i <= targets@.len(),
            forall|k: int| 0 <= k < i ==> located(nodes@, #[trigger] targets@[k]@),
            forall|k: int| 0 <= k < i ==> {
                &&& #[trigger] out@[k].node < nodes@.len()
                &&& nodes@[out@[k].node as int].location@ == out@[k].target@
                &&& out@[k].target@ == targets@[k]@
            },
        decreases targets.len() - i,
    {
        let t = targets[i].clone();
        let mut n: usize = 0;
        while n < nodes.len() && !chars_eq(&nodes[n].location, &t)
            invariant
                n <= nodes@.len(),
                t@ == targets@[i as int]@,
                forall|k: int| 0 <= k < n ==> nodes@[k].location@ != t@,
            decreases nodes.len() - n,
        {
            n += 1;
        }
        if n == nodes.len() {
            assert(!located(nodes@, targets@[i as int]@));
            let e = BuildError::UnresolvableReference { reference: string_from_chars(&t) };
            assert(e->reference@ == targets@[i as int]@);
            return Err(e);
        }
        out.push(Reference { target: t, node: n });
        i += 1;
    }
    Ok(out)
}

proof fn lemma_resolvable(nodes: Seq<Node>, targets: Seq<Vec<char>>)
    ensures
        (forall|i: int| 0 <= i < targets.len() ==> located(nodes, #[trigger] targets[i]@))
            <==> targets_of(targets).subset_of(locations_of(nodes)),
{
    if forall|i: int| 0 <= i < targets.len() ==> located(nodes, #[trigger] targets[i]@) {
        assert forall|x: Seq<char>| targets_of(targets).contains(x) implies locations_of(nodes).contains(x) by {
            let i = choose|i: int| 0 <= i < targets.len() && targets[i]@ == x;
            assert(located(nodes, targets[i]@));
        }
    }
    if targets_of(targets).subset_of(locations_of(nodes)) {
        assert forall|i: int| 0 <= i < targets.len() implies located(nodes, #[trigger] targets[i]@) by {
            assert(targets_of(targets).contains(targets[i]@));
        }
    }
}

/// Compiles `schema` under draft `d`, with the caller's keywords built by
/// `factories`. The root node represents `schema`: each schema object becomes
/// a node whose keywords are, member by member and in declaration order, what
/// the draft's table makes of them, with every sub-schema a node of its own at
/// its pointer location. References are bound to the schema locations of the
/// same document; a reference may lead back to its own schema or to an
/// ancestor, and compiles all the same.
pub fn compile<F: KeywordFactory>(schema: &Json, d: Draft, factories: &Extensions<F>) -> (r: Result<
    JsonSchemaValidator<F::Output>,
    BuildError,
>)
    ensures
        r is Ok ==> schema_ok(d, factory_names(factories.keywords@), *schema) && references_resolve(
            d,
            factory_names(factories.keywords@),
            *schema,
        ),
        !schema_ok(d, factory_names(factories.keywords@), *schema) ==> r is Err && (r->Err_0 is InvalidSchema || r->Err_0 is InvalidKeyword),
        (r is Err && r->Err_0 is UnresolvableReference) ==> schema_ok(d, factory_names(factories.keywords@), *schema)
            && !references_resolve(d, factory_names(factories.keywords@), *schema),
        (r is Err && r->Err_0 is UnresolvableReference) ==> outline(d, factory_names(factories.keywords@), *schema, root_location()).references.contains(
            r->Err_0->reference@,
        ) && !outline(d, factory_names(factories.keywords@), *schema, root_location()).locations.contains(r->Err_0->reference@),
        plain(*factories) ==> (r is Ok <==> schema_ok(d, factory_names(factories.keywords@), *schema)
            && references_resolve(d, factory_names(factories.keywords@), *schema)),
        (plain(*factories) && schema_ok(d, factory_names(factories.keywords@), *schema) && !references_resolve(
            d,
            factory_names(factories.keywords@),
            *schema,
        )) ==> r is Err && r->Err_0 is UnresolvableReference,
        r matches Ok(v) ==> v.wf() && v.nodes@[v.root as int].location@ == root_location(),
        r matches Ok(v) ==> represents(d, factory_names(factories.keywords@), factory_names(factories.formats@), *schema, root_location(), v.root as int, validator_image(v)),
        r matches Ok(v) ==> v.keywords@.len() == v.requests@.len() && forall|k: int|
            0 <= k < v.keywords@.len() ==> built_from(*factories, v.requests@[k], #[trigger] v.keywords@[k]),
        r matches Ok(v) ==> forall|k: int| 0 <= k < v.references@.len() ==> #[trigger] reference_bound(d, factory_names(factories.keywords@), factory_names(factories.formats@), *schema, v, k),
{
    let mut table = Table { nodes: Vec::new(), targets: Vec::new(), requests: Vec::new() };
    assert(table_outline(table) =~= empty_outline());
    let root = compile_schema(d, factories, schema, location_root(), &mut table)?;
    proof {
        lemma_join_assoc(empty_outline(), empty_outline(), empty_outline());
        assert(table_outline(table) =~= outline(d, factory_names(factories.keywords@), *schema, root_location()));
    }
    let ghost full = table;
    let Table { nodes, targets, requests } = table;
    proof { lemma_resolvable(nodes@, targets@); }
    let ghost img = table_image(full);
    let ghost target_views = targets@.map_values(|v: Vec<char>| v@);
    let ghost target_seq = targets@;
    let ghost node_seq = nodes@;
    let references = match resolve(&nodes, targets) {
        Ok(refs) => refs,
        Err(e) => {
            proof {
                let i = choose|i: int| 0 <= i < target_seq.len() && !located(node_seq, #[trigger] target_seq[i]@)
                    && e->reference@ == target_seq[i]@;
                assert(targets_of(target_seq).contains(target_seq[i]@));
                assert(!locations_of(node_seq).contains(target_seq[i]@));
            }
            return Err(e);
        },
    };
    let mut keywords: Vec<F::Output> = Vec::new();
    let mut i: usize = 0;
    while i < requests.len()
        invariant
            i <= requests@.len(),
            keywords@.len() == i,
            forall|k: int| 0 <= k < requests@.len() ==> #[trigger] requests@[k].factory < if requests@[k].format {
                factories.formats@.len()
            } else {
                factories.keywords@.len()
            },
            forall|k: int| 0 <= k < i ==> built_from(*factories, requests@[k], #[trigger] keywords@[k]),
        decreases requests.len() - i,
    {
        let r = &requests[i];
        let made = if r.format {
            factories.formats[r.factory].1.init(&r.value)
        } else {
            factories.keywords[r.factory].1.init(&r.value)
        };
        match made {
            Some(k) => keywords.push(k),
            None => {
                return Err(BuildError::InvalidKeyword {
                    location: string_from_chars(&r.location),
                    keyword: r.keyword.clone(),
                });
            },
        }
        i += 1;
    }
    let v = JsonSchemaValidator::new(nodes, references, root, keywords, requests);
    proof {
        assert forall|i: int| 0 <= i < target_views.len() implies #[trigger] validator_image(v).targets[i] == target_views[i] by {
            assert(v.references@[i].node < v.nodes@.len());
            assert(v.references@[i].target@ == target_seq[i]@);
        }
        assert(validator_image(v).targets =~= target_views);
        assert(validator_image(v) == img);
        assert forall|k: int| 0 <= k < v.references@.len() implies #[trigger] reference_bound(d, factory_names(factories.keywords@), factory_names(factories.formats@), *schema, v, k) by {
            let n = v.references@[k].node as int;
            assert(v.references@[k].node < v.nodes@.len());
            assert(origin_at(|x: Seq<char>, t: Json| placed(d, factory_names(factories.keywords@), *schema, root_location(), x, t), d, factory_names(factories.keywords@), factory_names(factories.formats@), n, img));
            let t = choose|t: Json| #[trigger] placed(d, factory_names(factories.keywords@), *schema, root_location(), img.nodes[n].location@, t) && represents(d, factory_names(factories.keywords@), factory_names(factories.formats@), t, img.nodes[n].location@, n, img);
            assert(img.nodes[n].location@ == v.references@[k].target@);
            assert(placed(d, factory_names(factories.keywords@), *schema, root_location(), v.references@[k].target@, t));
        }
    }
    Ok(v)
}

proof fn lemma_member_index_push(m: Seq<(String, Json)>, x: (String, Json), key: Seq<char>)
    requires
        x.0@ != key,
    ensures
        member_index(m.push(x), key) == member_index(m, key),
{
    assert(m.push(x).drop_last() =~= m);
}

/// Open vocabulary: a member whose key neither the draft nor the caller knows
/// can be added to a schema object without changing whether it is well-formed,
/// so it never makes a build fail.
pub proof fn unknown_keyword_is_inert(d: Draft, names: Seq<Seq<char>>, s: Json, t: Json, key: String, value: Json)
    requires
        s is Object,
        t is Object,
        t->Object_0@ == s->Object_0@.push((key, value)),
        keyword_of(d, key@) is None,
    ensures
        schema_ok(d, names, t) == schema_ok(d, names, s),
{
    let m = s->Object_0@;
    assert(key@ != "$ref"@);
    lemma_member_index_push(m, (key, value), "$ref"@);
    assert(lookup(t, "$ref"@) == lookup(s, "$ref"@)) by {
        lemma_member_index(m, "$ref"@);
    }
    lemma_members_ok(d, names, s, 0);
    lemma_members_ok(d, names, t, 0);
    assert forall|k: int| 0 <= k < m.len() implies member_ok(d, names, t, k) == member_ok(d, names, s, k) by {
        assert(t->Object_0@[k] == m[k]);
    }
    assert(member_ok(d, names, t, m.len() as int));
}

/// What compiling a schema yields besides its checks: the locations that get a
/// node, and the `$ref` targets that must name one of them.
#[verifier::ext_equal]
pub struct Outline {
    pub locations: Set<Seq<char>>,
    pub references: Set<Seq<char>>,
}

pub open spec fn join(a: Outline, b: Outline) -> Outline {
    Outline { locations: a.locations + b.locations, references: a.references + b.references }
}

pub open spec fn empty_outline() -> Outline {
    Outline { locations: Set::empty(), references: Set::empty() }
}

/// The outline of schema `s` compiled at `loc`.
pub open spec fn outline(d: Draft, names: Seq<Seq<char>>, s: Json, loc: Seq<char>) -> Outline
    decreases s, 2nat, 0int,
{
    match s {
        Json::Bool(_) => Outline { locations: set![loc], references: Set::empty() },
        Json::Object(_) => join(
            Outline { locations: set![loc], references: Set::empty() },
            members_outline(d, names, s, loc, 0),
        ),
        _ => empty_outline(),
    }
}

pub open spec fn members_outline(d: Draft, names: Seq<Seq<char>>, s: Json, loc: Seq<char>, i: int) -> Outline
    decreases s, 1nat, s->Object_0@.len() - i,
{
    if s is Object && 0 <= i < s->Object_0@.len() {
        join(member_outline(d, names, s, loc, i), members_outline(d, names, s, loc, i + 1))
    } else {
        empty_outline()
    }
}

pub open spec fn member_outline(d: Draft, names: Seq<Seq<char>>, s: Json, loc: Seq<char>, i: int) -> Outline
    decreases s, 0nat, 0int,
{
    if s is Object && 0 <= i < s->Object_0@.len() && !names.contains(s->Object_0@[i].0@) {
        match keyword_of(d, s->Object_0@[i].0@) {
            Some(kind) => if keyword_active(d, s, kind) {
                value_outline(d, names, kind, s->Object_0@[i].1, below(loc, escaped(s->Object_0@[i].0@)))
            } else {
                empty_outline()
            },
            None => empty_outline(),
        }
    } else {
        empty_outline()
    }
}

/// The outline of a keyword's value `v`; `here` is the keyword's own location.
pub open spec fn value_outline(d: Draft, names: Seq<Seq<char>>, kind: KeywordKind, v: Json, here: Seq<char>) -> Outline
    decreases v, 3nat, 0int,
{
    match kind {
        KeywordKind::Properties | KeywordKind::Definitions => values_outline(d, names, v, here, 0),
        KeywordKind::Dependencies | KeywordKind::DependentRequired | KeywordKind::DependentSchemas => deps_outline(
            d,
            names,
            v,
            here,
            0,
        ),
        KeywordKind::Items | KeywordKind::PrefixItems => if v is Array {
            elems_outline(d, names, v, here, 0)
        } else {
            outline(d, names, v, here)
        },
        KeywordKind::Not | KeywordKind::If | KeywordKind::Then
        | KeywordKind::Else | KeywordKind::AdditionalProperties | KeywordKind::Contains => outline(d, names, v, here),
        KeywordKind::AllOf | KeywordKind::AnyOf | KeywordKind::OneOf => elems_outline(d, names, v, here, 0),
        KeywordKind::Ref => match v {
            Json::Str(t) => Outline { locations: Set::empty(), references: set![t@] },
            _ => empty_outline(),
        },
        _ => empty_outline(),
    }
}

pub open spec fn values_outline(d: Draft, names: Seq<Seq<char>>, v: Json, here: Seq<char>, j: int) -> Outline
    decreases v, 1nat, v->Object_0@.len() - j,
{
    if v is Object && 0 <= j < v->Object_0@.len() {
        join(
            outline(d, names, v->Object_0@[j].1, below(here, escaped(v->Object_0@[j].0@))),
            values_outline(d, names, v, here, j + 1),
        )
    } else {
        empty_outline()
    }
}

pub open spec fn deps_outline(d: Draft, names: Seq<Seq<char>>, v: Json, here: Seq<char>, j: int) -> Outline
    decreases v, 1nat, v->Object_0@.len() - j,
{
    if v is Object && 0 <= j < v->Object_0@.len() {
        join(
            if v->Object_0@[j].1 is Array {
                empty_outline()
            } else {
                outline(d, names, v->Object_0@[j].1, below(here, escaped(v->Object_0@[j].0@)))
            },
            deps_outline(d, names, v, here, j + 1),
        )
    } else {
        empty_outline()
    }
}

pub open spec fn elems_outline(d: Draft, names: Seq<Seq<char>>, v: Json, here: Seq<char>, j: int) -> Outline
    decreases v, 1nat, v->Array_0@.len() - j,
{
    if v is Array && 0 <= j < v->Array_0@.len() {
        join(
            outline(d, names, v->Array_0@[j], below(here, decimal(j as nat))),
            elems_outline(d, names, v, here, j + 1),
        )
    } else {
        empty_outline()
    }
}

/// Whether every `$ref` of `s`, compiled at the root, names a location it has.
pub open spec fn references_resolve(d: Draft, names: Seq<Seq<char>>, s: Json) -> bool {
    outline(d, names, s, root_location()).references.subset_of(
        outline(d, names, s, root_location()).locations,
    )
}

pub open spec fn locations_of(nodes: Seq<Node>) -> Set<Seq<char>> {
    Set::new(|x: Seq<char>| exists|i: int| 0 <= i < nodes.len() && nodes[i].location@ == x)
}

pub open spec fn targets_of(targets: Seq<Vec<char>>) -> Set<Seq<char>> {
    Set::new(|x: Seq<char>| exists|i: int| 0 <= i < targets.len() && targets[i]@ == x)
}

pub open spec fn table_outline(t: Table) -> Outline {
    Outline { locations: locations_of(t.nodes@), references: targets_of(t.targets@) }
}

proof fn lemma_locations_push(nodes: Seq<Node>, n: Node)
    ensures
        locations_of(nodes.push(n)) == locations_of(nodes).insert(n.location@),
{
    assert forall|x: Seq<char>| locations_of(nodes.push(n)).contains(x) implies locations_of(nodes).insert(n.location@).contains(x) by {
        let i = choose|i: int| 0 <= i < nodes.push(n).len() && nodes.push(n)[i].location@ == x;
        if i < nodes.len() {
            assert(nodes[i].location@ == x);
        }
    }
    assert forall|x: Seq<char>| locations_of(nodes).insert(n.location@).contains(x) implies locations_of(nodes.push(n)).contains(x) by {
        if x == n.location@ {
            assert(nodes.push(n)[nodes.len() as int].location@ == x);
        } else {
            let i = choose|i: int| 0 <= i < nodes.len() && nodes[i].location@ == x;
            assert(nodes.push(n)[i].location@ == x);
        }
    }
    assert(locations_of(nodes.push(n)) =~= locations_of(nodes).insert(n.location@));
}

proof fn lemma_targets_push(targets: Seq<Vec<char>>, t: Vec<char>)
    ensures
        targets_of(targets.push(t)) == targets_of(targets).insert(t@),
{
    assert forall|x: Seq<char>| targets_of(targets.push(t)).contains(x) implies targets_of(targets).insert(t@).contains(x) by {
        let i = choose|i: int| 0 <= i < targets.push(t).len() && targets.push(t)[i]@ == x;
        if i < targets.len() {
            assert(targets[i]@ == x);
        }
    }
    assert forall|x: Seq<char>| targets_of(targets).insert(t@).contains(x) implies targets_of(targets.push(t)).contains(x) by {
        if x == t@ {
            assert(targets.push(t)[targets.len() as int]@ == x);
        } else {
            let i = choose|i: int| 0 <= i < targets.len() && targets[i]@ == x;
            assert(targets.push(t)[i]@ == x);
        }
    }
    assert(targets_of(targets.push(t)) =~= targets_of(targets).insert(t@));
}

proof fn lemma_join_assoc(a: Outline, b: Outline, c: Outline)
    ensures
        join(join(a, b), c) == join(a, join(b, c)),
        join(a, empty_outline()) == a,
        join(empty_outline(), a) == a,
{
    assert(join(join(a, b), c) =~= join(a, join(b, c)));
    assert(join(a, empty_outline()) =~= a);
    assert(join(empty_outline(), a) =~= a);
}

/// What a compiled table holds, as far as `represents` reads it.
pub struct Image {
    pub nodes: Seq<Node>,
    /// The target of each reference, as written.
    pub targets: Seq<Seq<char>>,
    /// The caller's keywords and formats, as met in the schema.
    pub requests: Seq<Request>,
}

/// What a compiled validator holds, as far as `represents` reads it.
pub open spec fn validator_image<K>(v: JsonSchemaValidator<K>) -> Image {
    Image {
        nodes: v.nodes@,
        targets: v.references@.map_values(|r: Reference| r.target@),
        requests: v.requests@,
    }
}

pub open spec fn table_image(t: Table) -> Image {
    Image {
        nodes: t.nodes@,
        targets: t.targets@.map_values(|v: Vec<char>| v@),
        requests: t.requests@,
    }
}

/// Request `k` of `g` asks the first factory registered under `name` among
/// `registered` (formats where `format`) for a keyword from `value`.
pub open spec fn request_for(g: Image, k: int, format: bool, registered: Seq<Seq<char>>, name: Seq<char>, value: Json) -> bool {
    &&& 0 <= k < g.requests.len()
    &&& g.requests[k].format == format
    &&& g.requests[k].factory < registered.len()
    &&& registered[g.requests[k].factory as int] == name
    &&& forall|j: int| 0 <= j < g.requests[k].factory ==> registered[j] != name
    &&& same(g.requests[k].value, value)
}

/// `b` holds at least what `a` holds: same nodes and targets first.
pub open spec fn image_grows(a: Image, b: Image) -> bool {
    extends(a.nodes, b.nodes) && extends(a.targets, b.targets) && extends(a.requests, b.requests)
}

/// The node that `kws` gives the branch at member `o`, if it is one.
pub open spec fn branch_at(kws: Seq<KeywordValue>, o: Option<int>) -> Option<usize> {
    match o {
        Some(j) => if 0 <= j < kws.len() && kws[j] is Branch {
            Some(kws[j]->Branch_0)
        } else {
            None
        },
        None => None,
    }
}

/// The first of the members `0..n` of schema object `s` that compiles as a
/// built-in keyword of kind `kind`.
pub open spec fn first_of_kind(d: Draft, names: Seq<Seq<char>>, s: Json, kind: KeywordKind, n: int) -> Option<int>
    decreases n,
{
    if n <= 0 {
        None
    } else {
        match first_of_kind(d, names, s, kind, n - 1) {
            Some(j) => Some(j),
            None => if s is Object && n - 1 < s->Object_0@.len() && !names.contains(s->Object_0@[n - 1].0@)
                && keyword_of(d, s->Object_0@[n - 1].0@) == Some(kind) && keyword_active(d, s, kind) {
                Some(n - 1)
            } else {
                None
            },
        }
    }
}

/// The names of `list`'s strings, one for one.
pub open spec fn names_of(ns: Seq<String>, list: Seq<Json>) -> bool {
    ns.len() == list.len() && forall|k: int| 0 <= k < list.len() ==> list[k] is Str && #[trigger] ns[k]@ == list[k]->Str_0@
}

/// `ks` are the keys of the sibling `properties` object, in order.
pub open spec fn sibling_keys(ks: Seq<String>, s: Json) -> bool {
    match lookup(s, "properties"@) {
        Some(Json::Object(m)) => ks.len() == m@.len() && forall|k: int| 0 <= k < ks.len() ==> #[trigger] ks[k]@ == m@[k].0@,
        _ => ks.len() == 0,
    }
}

/// How many leading elements the sibling `prefixItems` covers.
pub open spec fn sibling_prefix(s: Json) -> usize {
    match lookup(s, "prefixItems"@) {
        Some(Json::Array(a)) => a@.len() as usize,
        _ => 0,
    }
}

/// Node `n` of `g` is the compiled form of schema `s` found at `loc`: a
/// boolean schema holds nothing or `False`; an object holds, member by member
/// and in order, what `member_represented` says of each.
pub open spec fn represents(d: Draft, names: Seq<Seq<char>>, fnames: Seq<Seq<char>>, s: Json, loc: Seq<char>, n: int, g: Image) -> bool
    decreases s, 2nat, 0int,
{
    0 <= n < g.nodes.len() && g.nodes[n].location@ == loc && match s {
        Json::Bool(b) => if b {
            g.nodes[n].keywords@.len() == 0
        } else {
            g.nodes[n].keywords@.len() == 1 && g.nodes[n].keywords@[0] is False
        },
        Json::Object(m) => g.nodes[n].keywords@.len() == m@.len() && members_represented(
            d,
            names,
            fnames,
            s,
            loc,
            g.nodes[n].keywords@,
            0,
            g,
        ),
        _ => false,
    }
}

pub open spec fn members_represented(
    d: Draft,
    names: Seq<Seq<char>>,
    fnames: Seq<Seq<char>>,
    s: Json,
    loc: Seq<char>,
    kws: Seq<KeywordValue>,
    i: int,
    g: Image,
) -> bool
    decreases s, 1nat, s->Object_0@.len() - i,
{
    if s is Object && 0 <= i < s->Object_0@.len() {
        member_represented(d, names, fnames, s, loc, kws, i, g) && members_represented(d, names, fnames, s, loc, kws, i + 1, g)
    } else {
        true
    }
}

/// The keyword `kws[i]` is what member `i` of schema object `s` at `loc`
/// compiles to: the caller's keyword where its name is registered; nothing
/// where the draft does not know the key or `$ref` makes it inert; the first
/// `if` a conditional over the first `then` and `else`; otherwise what
/// `value_represented` says.
pub open spec fn member_represented(
    d: Draft,
    names: Seq<Seq<char>>,
    fnames: Seq<Seq<char>>,
    s: Json,
    loc: Seq<char>,
    kws: Seq<KeywordValue>,
    i: int,
    g: Image,
) -> bool
    decreases s, 0nat, 0int,
{
    if s is Object && 0 <= i < s->Object_0@.len() && i < kws.len() {
        let key = s->Object_0@[i].0@;
        let kw = kws[i];
        if names.contains(key) {
            kw is Custom && kw->Custom_1@ == key && request_for(g, kw->Custom_0 as int, false, names, key, s->Object_0@[i].1)
        } else {
            match keyword_of(d, key) {
                None => kw is Annotation,
                Some(kind) => if !keyword_active(d, s, kind) {
                    kw is Annotation
                } else if kind == KeywordKind::If && first_of_kind(d, names, s, KeywordKind::If, s->Object_0@.len() as int) == Some(i) {
                    &&& kw is Conditional
                    &&& represents(d, names, fnames, s->Object_0@[i].1, below(loc, escaped(key)), kw->Conditional_0 as int, g)
                    &&& kw->Conditional_1 == branch_at(kws, first_of_kind(d, names, s, KeywordKind::Then, s->Object_0@.len() as int))
                    &&& kw->Conditional_2 == branch_at(kws, first_of_kind(d, names, s, KeywordKind::Else, s->Object_0@.len() as int))
                } else if kind == KeywordKind::If || kind == KeywordKind::Then || kind == KeywordKind::Else {
                    kw is Branch && represents(d, names, fnames, s->Object_0@[i].1, below(loc, escaped(key)), kw->Branch_0 as int, g)
                } else {
                    value_represented(d, names, fnames, s, kind, s->Object_0@[i].1, below(loc, escaped(key)), kw, g)
                },
            }
        }
    } else {
        true
    }
}

/// `kw` is what the value `v` of a built-in keyword of kind `kind` in schema
/// object `s` compiles to; `here` is the keyword's location.
pub open spec fn value_represented(
    d: Draft,
    names: Seq<Seq<char>>,
    fnames: Seq<Seq<char>>,
    s: Json,
    kind: KeywordKind,
    v: Json,
    here: Seq<char>,
    kw: KeywordValue,
    g: Image,
) -> bool
    decreases v, 3nat, 0int,
{
    match kind {
        KeywordKind::Type => type_of_value(v) matches Some(t) && kw == KeywordValue::Type(t),
        KeywordKind::Minimum => v is Integer && kw == if d == Draft::Draft04 && lookup(s, "exclusiveMinimum"@) == Some(Json::Bool(true)) {
            KeywordValue::ExclusiveMinimum(v->Integer_0)
        } else {
            KeywordValue::Minimum(v->Integer_0)
        },
        KeywordKind::Maximum => v is Integer && kw == if d == Draft::Draft04 && lookup(s, "exclusiveMaximum"@) == Some(Json::Bool(true)) {
            KeywordValue::ExclusiveMaximum(v->Integer_0)
        } else {
            KeywordValue::Maximum(v->Integer_0)
        },
        KeywordKind::ExclusiveMinimum => v is Integer && kw == KeywordValue::ExclusiveMinimum(v->Integer_0),
        KeywordKind::ExclusiveMaximum => v is Integer && kw == KeywordValue::ExclusiveMaximum(v->Integer_0),
        KeywordKind::ExclusiveMinimumFlag | KeywordKind::ExclusiveMaximumFlag => kw is Annotation,
        KeywordKind::MultipleOf => v is Integer && kw == KeywordValue::MultipleOf(v->Integer_0),
        KeywordKind::MinLength => v is Integer && kw == KeywordValue::MinSize(Measure::Length, v->Integer_0),
        KeywordKind::MaxLength => v is Integer && kw == KeywordValue::MaxSize(Measure::Length, v->Integer_0),
        KeywordKind::MinItems => v is Integer && kw == KeywordValue::MinSize(Measure::Items, v->Integer_0),
        KeywordKind::MaxItems => v is Integer && kw == KeywordValue::MaxSize(Measure::Items, v->Integer_0),
        KeywordKind::MinProperties => v is Integer && kw == KeywordValue::MinSize(Measure::Properties, v->Integer_0),
        KeywordKind::MaxProperties => v is Integer && kw == KeywordValue::MaxSize(Measure::Properties, v->Integer_0),
        KeywordKind::Required => v is Array && kw is Required && names_of(kw->Required_0@, v->Array_0@),
        KeywordKind::Const => kw is Const && same(kw->Const_0, v),
        KeywordKind::Enum => v is Array && kw is Enum && kw->Enum_0@.len() == v->Array_0@.len() && forall|k: int|
            0 <= k < v->Array_0@.len() ==> same(#[trigger] kw->Enum_0@[k], v->Array_0@[k]),
        KeywordKind::UniqueItems => v is Bool && kw == if v->Bool_0 { KeywordValue::UniqueItems } else { KeywordValue::Annotation },
        KeywordKind::Properties => kw is Properties && kw->Properties_0@.len() == v->Object_0@.len()
            && props_represented(d, names, fnames, v, here, kw->Properties_0@, 0, g),
        KeywordKind::Definitions => kw is Definitions && kw->Definitions_0@.len() == v->Object_0@.len()
            && props_represented(d, names, fnames, v, here, kw->Definitions_0@, 0, g),
        KeywordKind::AdditionalProperties => kw is AdditionalProperties && sibling_keys(kw->AdditionalProperties_1@, s)
            && represents(d, names, fnames, v, here, kw->AdditionalProperties_0 as int, g),
        KeywordKind::Items => if v is Array && d != Draft::Draft202012 {
            kw is PrefixItems && kw->PrefixItems_0@.len() == v->Array_0@.len() && list_represented(d, names, fnames, v, here, kw->PrefixItems_0@, 0, g)
        } else {
            kw == KeywordValue::Items(kw->Items_0, sibling_prefix(s)) && represents(d, names, fnames, v, here, kw->Items_0 as int, g)
        },
        KeywordKind::PrefixItems => kw is PrefixItems && kw->PrefixItems_0@.len() == v->Array_0@.len()
            && list_represented(d, names, fnames, v, here, kw->PrefixItems_0@, 0, g),
        KeywordKind::Not => kw is Not && represents(d, names, fnames, v, here, kw->Not_0 as int, g),
        KeywordKind::Contains => kw is Contains && represents(d, names, fnames, v, here, kw->Contains_0 as int, g),
        KeywordKind::AllOf => kw is AllOf && kw->AllOf_0@.len() == v->Array_0@.len()
            && list_represented(d, names, fnames, v, here, kw->AllOf_0@, 0, g),
        KeywordKind::AnyOf => kw is AnyOf && kw->AnyOf_0@.len() == v->Array_0@.len()
            && list_represented(d, names, fnames, v, here, kw->AnyOf_0@, 0, g),
        KeywordKind::OneOf => kw is OneOf && kw->OneOf_0@.len() == v->Array_0@.len()
            && list_represented(d, names, fnames, v, here, kw->OneOf_0@, 0, g),
        KeywordKind::Dependencies | KeywordKind::DependentRequired | KeywordKind::DependentSchemas => kw is Dependencies
            && kw->Dependencies_1 == (kind == KeywordKind::Dependencies) && kw->Dependencies_0@.len() == v->Object_0@.len()
            && deps_represented(d, names, fnames, v, here, kw->Dependencies_0@, 0, g),
        KeywordKind::Pattern => v is Str && kw is Pattern && kw->Pattern_0@ == v->Str_0@,
        KeywordKind::Ref => v is Str && kw is Ref && kw->Ref_0 < g.targets.len() && g.targets[kw->Ref_0 as int] == v->Str_0@,
        KeywordKind::Format => v is Str && if fnames.contains(v->Str_0@) {
            kw is Format && request_for(g, kw->Format_0 as int, true, fnames, v->Str_0@, v)
        } else {
            kw is Annotation
        },
        KeywordKind::If | KeywordKind::Then | KeywordKind::Else => false,
    }
}

/// Each entry `j..` of `ps` names member `j` of object `v` and its node
/// represents that member's value, found at `here/<key>`.
pub open spec fn props_represented(
    d: Draft,
    names: Seq<Seq<char>>,
    fnames: Seq<Seq<char>>,
    v: Json,
    here: Seq<char>,
    ps: Seq<(String, usize)>,
    j: int,
    g: Image,
) -> bool
    decreases v, 1nat, v->Object_0@.len() - j,
{
    if v is Object && 0 <= j < v->Object_0@.len() && j < ps.len() {
        &&& ps[j].0@ == v->Object_0@[j].0@
        &&& represents(d, names, fnames, v->Object_0@[j].1, below(here, escaped(v->Object_0@[j].0@)), ps[j].1 as int, g)
        &&& props_represented(d, names, fnames, v, here, ps, j + 1, g)
    } else {
        true
    }
}

/// Each node `cs[j..]` represents element `j` of array `v`, found at `here/<j>`.
pub open spec fn list_represented(
    d: Draft,
    names: Seq<Seq<char>>,
    fnames: Seq<Seq<char>>,
    v: Json,
    here: Seq<char>,
    cs: Seq<usize>,
    j: int,
    g: Image,
) -> bool
    decreases v, 1nat, v->Array_0@.len() - j,
{
    if v is Array && 0 <= j < v->Array_0@.len() && j < cs.len() {
        represents(d, names, fnames, v->Array_0@[j], below(here, decimal(j as nat)), cs[j] as int, g)
            && list_represented(d, names, fnames, v, here, cs, j + 1, g)
    } else {
        true
    }
}

/// Each entry `j..` of `ds` names member `j` of object `v`: a list of names
/// as it stands, any other value as the node that represents it.
pub open spec fn deps_represented(
    d: Draft,
    names: Seq<Seq<char>>,
    fnames: Seq<Seq<char>>,
    v: Json,
    here: Seq<char>,
    ds: Seq<(String, Dependency)>,
    j: int,
    g: Image,
) -> bool
    decreases v, 1nat, v->Object_0@.len() - j,
{
    if v is Object && 0 <= j < v->Object_0@.len() && j < ds.len() {
        &&& ds[j].0@ == v->Object_0@[j].0@
        &&& if v->Object_0@[j].1 is Array {
            ds[j].1 is Names && names_of(ds[j].1->Names_0@, v->Object_0@[j].1->Array_0@)
        } else {
            ds[j].1 is Schema && represents(
                d,
                names,
                fnames,
                v->Object_0@[j].1,
                below(here, escaped(v->Object_0@[j].0@)),
                ds[j].1->Schema_0 as int,
                g,
            )
        }
        &&& deps_represented(d, names, fnames, v, here, ds, j + 1, g)
    } else {
        true
    }
}

proof fn lemma_represents_mono(d: Draft, names: Seq<Seq<char>>, fnames: Seq<Seq<char>>, s: Json, loc: Seq<char>, n: int, g1: Image, g2: Image)
    requires
        represents(d, names, fnames, s, loc, n, g1),
        image_grows(g1, g2),
    ensures
        represents(d, names, fnames, s, loc, n, g2),
    decreases s, 2nat, 0int,
{
    assert(g2.nodes[n] == g1.nodes[n]);
    if s is Object {
        lemma_members_mono(d, names, fnames, s, loc, g1.nodes[n].keywords@, 0, g1, g2);
    }
}

proof fn lemma_members_mono(d: Draft, names: Seq<Seq<char>>, fnames: Seq<Seq<char>>, s: Json, loc: Seq<char>, kws: Seq<KeywordValue>, i: int, g1: Image, g2: Image)
    requires
        members_represented(d, names, fnames, s, loc, kws, i, g1),
        image_grows(g1, g2),
    ensures
        members_represented(d, names, fnames, s, loc, kws, i, g2),
    decreases s, 1nat, s->Object_0@.len() - i,
{
    if s is Object && 0 <= i < s->Object_0@.len() {
        lemma_member_mono(d, names, fnames, s, loc, kws, i, g1, g2);
        lemma_members_mono(d, names, fnames, s, loc, kws, i + 1, g1, g2);
    }
}

proof fn lemma_member_mono(d: Draft, names: Seq<Seq<char>>, fnames: Seq<Seq<char>>, s: Json, loc: Seq<char>, kws: Seq<KeywordValue>, i: int, g1: Image, g2: Image)
    requires
        member_represented(d, names, fnames, s, loc, kws, i, g1),
        image_grows(g1, g2),
    ensures
        member_represented(d, names, fnames, s, loc, kws, i, g2),
    decreases s, 0nat, 0int,
{
    if s is Object && 0 <= i < s->Object_0@.len() && i < kws.len() {
        let key = s->Object_0@[i].0@;
        let kw = kws[i];
        if !names.contains(key) {
            if let Some(kind) = keyword_of(d, key) {
                if keyword_active(d, s, kind) {
                    let here = below(loc, escaped(key));
                    let val = s->Object_0@[i].1;
                    if kind == KeywordKind::If && first_of_kind(d, names, s, KeywordKind::If, s->Object_0@.len() as int) == Some(i) {
                        lemma_represents_mono(d, names, fnames, val, here, kw->Conditional_0 as int, g1, g2);
                    } else if kind == KeywordKind::If || kind == KeywordKind::Then || kind == KeywordKind::Else {
                        lemma_represents_mono(d, names, fnames, val, here, kw->Branch_0 as int, g1, g2);
                    } else {
                        lemma_value_mono(d, names, fnames, s, kind, val, here, kw, g1, g2);
                    }
                }
            }
        }
    }
}

proof fn lemma_value_mono(d: Draft, names: Seq<Seq<char>>, fnames: Seq<Seq<char>>, s: Json, kind: KeywordKind, v: Json, here: Seq<char>, kw: KeywordValue, g1: Image, g2: Image)
    requires
        value_represented(d, names, fnames, s, kind, v, here, kw, g1),
        image_grows(g1, g2),
    ensures
        value_represented(d, names, fnames, s, kind, v, here, kw, g2),
    decreases v, 3nat, 0int,
{
    match kind {
        KeywordKind::Properties => lemma_props_mono(d, names, fnames, v, here, kw->Properties_0@, 0, g1, g2),
        KeywordKind::Definitions => lemma_props_mono(d, names, fnames, v, here, kw->Definitions_0@, 0, g1, g2),
        KeywordKind::AdditionalProperties => lemma_represents_mono(d, names, fnames, v, here, kw->AdditionalProperties_0 as int, g1, g2),
        KeywordKind::Items => if v is Array && d != Draft::Draft202012 {
            lemma_list_mono(d, names, fnames, v, here, kw->PrefixItems_0@, 0, g1, g2);
        } else {
            lemma_represents_mono(d, names, fnames, v, here, kw->Items_0 as int, g1, g2);
        },
        KeywordKind::PrefixItems => lemma_list_mono(d, names, fnames, v, here, kw->PrefixItems_0@, 0, g1, g2),
        KeywordKind::Not => lemma_represents_mono(d, names, fnames, v, here, kw->Not_0 as int, g1, g2),
        KeywordKind::Contains => lemma_represents_mono(d, names, fnames, v, here, kw->Contains_0 as int, g1, g2),
        KeywordKind::AllOf => lemma_list_mono(d, names, fnames, v, here, kw->AllOf_0@, 0, g1, g2),
        KeywordKind::AnyOf => lemma_list_mono(d, names, fnames, v, here, kw->AnyOf_0@, 0, g1, g2),
        KeywordKind::OneOf => lemma_list_mono(d, names, fnames, v, here, kw->OneOf_0@, 0, g1, g2),
        KeywordKind::Dependencies | KeywordKind::DependentRequired | KeywordKind::DependentSchemas => lemma_deps_mono(
            d, names, fnames,
            v,
            here,
            kw->Dependencies_0@,
            0,
            g1,
            g2,
        ),
        KeywordKind::Ref => {
            assert(g2.targets[kw->Ref_0 as int] == g1.targets[kw->Ref_0 as int]);
        },
        _ => {},
    }
}

proof fn lemma_props_mono(d: Draft, names: Seq<Seq<char>>, fnames: Seq<Seq<char>>, v: Json, here: Seq<char>, ps: Seq<(String, usize)>, j: int, g1: Image, g2: Image)
    requires
        props_represented(d, names, fnames, v, here, ps, j, g1),
        image_grows(g1, g2),
    ensures
        props_represented(d, names, fnames, v, here, ps, j, g2),
    decreases v, 1nat, v->Object_0@.len() - j,
{
    if v is Object && 0 <= j < v->Object_0@.len() && j < ps.len() {
        lemma_represents_mono(d, names, fnames, v->Object_0@[j].1, below(here, escaped(v->Object_0@[j].0@)), ps[j].1 as int, g1, g2);
        lemma_props_mono(d, names, fnames, v, here, ps, j + 1, g1, g2);
    }
}

proof fn lemma_list_mono(d: Draft, names: Seq<Seq<char>>, fnames: Seq<Seq<char>>, v: Json, here: Seq<char>, cs: Seq<usize>, j: int, g1: Image, g2: Image)
    requires
        list_represented(d, names, fnames, v, here, cs, j, g1),
        image_grows(g1, g2),
    ensures
        list_represented(d, names, fnames, v, here, cs, j, g2),
    decreases v, 1nat, v->Array_0@.len() - j,
{
    if v is Array && 0 <= j < v->Array_0@.len() && j < cs.len() {
        lemma_represents_mono(d, names, fnames, v->Array_0@[j], below(here, decimal(j as nat)), cs[j] as int, g1, g2);
        lemma_list_mono(d, names, fnames, v, here, cs, j + 1, g1, g2);
    }
}

proof fn lemma_deps_mono(d: Draft, names: Seq<Seq<char>>, fnames: Seq<Seq<char>>, v: Json, here: Seq<char>, ds: Seq<(String, Dependency)>, j: int, g1: Image, g2: Image)
    requires
        deps_represented(d, names, fnames, v, here, ds, j, g1),
        image_grows(g1, g2),
    ensures
        deps_represented(d, names, fnames, v, here, ds, j, g2),
    decreases v, 1nat, v->Object_0@.len() - j,
{
    if v is Object && 0 <= j < v->Object_0@.len() && j < ds.len() {
        if !(v->Object_0@[j].1 is Array) {
            lemma_represents_mono(d, names, fnames, v->Object_0@[j].1, below(here, escaped(v->Object_0@[j].0@)), ds[j].1->Schema_0 as int, g1, g2);
        }
        lemma_deps_mono(d, names, fnames, v, here, ds, j + 1, g1, g2);
    }
}

proof fn lemma_table_image_grows(a: Table, b: Table)
    requires
        table_grows(a, b),
    ensures
        image_grows(table_image(a), table_image(b)),
{
    assert forall|k: int| 0 <= k < table_image(a).targets.len() implies table_image(b).targets[k] == table_image(a).targets[k] by {
        assert(b.targets@[k] == a.targets@[k]);
    }
}

/// Member `k` of object `v` is represented by entry `ps[k]`.
pub open spec fn prop_at(d: Draft, names: Seq<Seq<char>>, fnames: Seq<Seq<char>>, v: Json, here: Seq<char>, ps: Seq<(String, usize)>, k: int, g: Image) -> bool {
    ps[k].0@ == v->Object_0@[k].0@ && represents(d, names, fnames, v->Object_0@[k].1, below(here, escaped(v->Object_0@[k].0@)), ps[k].1 as int, g)
}

/// Element `k` of array `v` is represented by node `cs[k]`.
pub open spec fn elem_at(d: Draft, names: Seq<Seq<char>>, fnames: Seq<Seq<char>>, v: Json, here: Seq<char>, cs: Seq<usize>, k: int, g: Image) -> bool {
    represents(d, names, fnames, v->Array_0@[k], below(here, decimal(k as nat)), cs[k] as int, g)
}

/// Member `k` of object `v` is represented by entry `ds[k]`.
pub open spec fn dep_at(d: Draft, names: Seq<Seq<char>>, fnames: Seq<Seq<char>>, v: Json, here: Seq<char>, ds: Seq<(String, Dependency)>, k: int, g: Image) -> bool {
    &&& ds[k].0@ == v->Object_0@[k].0@
    &&& if v->Object_0@[k].1 is Array {
        ds[k].1 is Names && names_of(ds[k].1->Names_0@, v->Object_0@[k].1->Array_0@)
    } else {
        ds[k].1 is Schema && represents(d, names, fnames, v->Object_0@[k].1, below(here, escaped(v->Object_0@[k].0@)), ds[k].1->Schema_0 as int, g)
    }
}

proof fn lemma_props_from_all(d: Draft, names: Seq<Seq<char>>, fnames: Seq<Seq<char>>, v: Json, here: Seq<char>, ps: Seq<(String, usize)>, j: int, g: Image)
    requires
        v is Object,
        ps.len() == v->Object_0@.len(),
        0 <= j <= ps.len(),
        forall|k: int| 0 <= k < ps.len() ==> #[trigger] prop_at(d, names, fnames, v, here, ps, k, g),
    ensures
        props_represented(d, names, fnames, v, here, ps, j, g),
    decreases ps.len() - j,
{
    if j < ps.len() {
        assert(prop_at(d, names, fnames, v, here, ps, j, g));
        lemma_props_from_all(d, names, fnames, v, here, ps, j + 1, g);
    }
}

proof fn lemma_list_from_all(d: Draft, names: Seq<Seq<char>>, fnames: Seq<Seq<char>>, v: Json, here: Seq<char>, cs: Seq<usize>, j: int, g: Image)
    requires
        v is Array,
        cs.len() == v->Array_0@.len(),
        0 <= j <= cs.len(),
        forall|k: int| 0 <= k < cs.len() ==> #[trigger] elem_at(d, names, fnames, v, here, cs, k, g),
    ensures
        list_represented(d, names, fnames, v, here, cs, j, g),
    decreases cs.len() - j,
{
    if j < cs.len() {
        assert(elem_at(d, names, fnames, v, here, cs, j, g));
        lemma_list_from_all(d, names, fnames, v, here, cs, j + 1, g);
    }
}

proof fn lemma_deps_from_all(d: Draft, names: Seq<Seq<char>>, fnames: Seq<Seq<char>>, v: Json, here: Seq<char>, ds: Seq<(String, Dependency)>, j: int, g: Image)
    requires
        v is Object,
        ds.len() == v->Object_0@.len(),
        0 <= j <= ds.len(),
        forall|k: int| 0 <= k < ds.len() ==> #[trigger] dep_at(d, names, fnames, v, here, ds, k, g),
    ensures
        deps_represented(d, names, fnames, v, here, ds, j, g),
    decreases ds.len() - j,
{
    if j < ds.len() {
        assert(dep_at(d, names, fnames, v, here, ds, j, g));
        lemma_deps_from_all(d, names, fnames, v, here, ds, j + 1, g);
    }
}

proof fn lemma_first_of_kind_stays(d: Draft, names: Seq<Seq<char>>, s: Json, kind: KeywordKind, n: int, m: int)
    requires
        first_of_kind(d, names, s, kind, n) is Some,
        n <= m,
    ensures
        first_of_kind(d, names, s, kind, m) == first_of_kind(d, names, s, kind, n),
    decreases m - n,
{
    if n < m {
        lemma_first_of_kind_stays(d, names, s, kind, n, m - 1);
    }
}

proof fn lemma_first_of_kind_prefix(d: Draft, names: Seq<Seq<char>>, s: Json, kind: KeywordKind, j: int, n: int, m: int)
    requires
        first_of_kind(d, names, s, kind, m) == Some(j),
        j < n <= m,
    ensures
        first_of_kind(d, names, s, kind, n) == Some(j),
    decreases m - n,
{
    if n < m {
        lemma_first_of_kind_prefix(d, names, s, kind, j, n, m - 1);
    }
}

proof fn lemma_first_of_kind_bound(d: Draft, names: Seq<Seq<char>>, s: Json, kind: KeywordKind, n: int)
    ensures
        first_of_kind(d, names, s, kind, n) matches Some(j) ==> 0 <= j < n && s is Object && j < s->Object_0@.len()
            && keyword_of(d, s->Object_0@[j].0@) == Some(kind) && !names.contains(s->Object_0@[j].0@)
            && keyword_active(d, s, kind),
    decreases n,
{
    if n > 0 {
        lemma_first_of_kind_bound(d, names, s, kind, n - 1);
    }
}

proof fn lemma_member_kws(d: Draft, names: Seq<Seq<char>>, fnames: Seq<Seq<char>>, s: Json, loc: Seq<char>, kws1: Seq<KeywordValue>, kws2: Seq<KeywordValue>, k: int, g: Image)
    requires
        0 <= k < kws1.len(),
        k < kws2.len(),
        kws1[k] == kws2[k],
        member_represented(d, names, fnames, s, loc, kws1, k, g),
        s is Object ==> first_of_kind(d, names, s, KeywordKind::If, s->Object_0@.len() as int) != Some(k),
    ensures
        member_represented(d, names, fnames, s, loc, kws2, k, g),
{
}

proof fn lemma_members_from_all(d: Draft, names: Seq<Seq<char>>, fnames: Seq<Seq<char>>, s: Json, loc: Seq<char>, kws: Seq<KeywordValue>, i: int, g: Image)
    requires
        s is Object,
        0 <= i <= s->Object_0@.len(),
        forall|k: int| 0 <= k < s->Object_0@.len() ==> #[trigger] member_represented(d, names, fnames, s, loc, kws, k, g),
    ensures
        members_represented(d, names, fnames, s, loc, kws, i, g),
    decreases s->Object_0@.len() - i,
{
    if i < s->Object_0@.len() {
        assert(member_represented(d, names, fnames, s, loc, kws, i, g));
        lemma_members_from_all(d, names, fnames, s, loc, kws, i + 1, g);
    }
}

/// `t` is a sub-schema of `s` (compiled at `loc`) that compiles at location `x`.
pub open spec fn placed(d: Draft, names: Seq<Seq<char>>, s: Json, loc: Seq<char>, x: Seq<char>, t: Json) -> bool
    decreases s, 2nat, 0int,
{
    (x == loc && t == s) || (s is Object && members_placed(d, names, s, loc, 0, x, t))
}

pub open spec fn members_placed(d: Draft, names: Seq<Seq<char>>, s: Json, loc: Seq<char>, i: int, x: Seq<char>, t: Json) -> bool
    decreases s, 1nat, s->Object_0@.len() - i,
{
    if s is Object && 0 <= i < s->Object_0@.len() {
        member_placed(d, names, s, loc, i, x, t) || members_placed(d, names, s, loc, i + 1, x, t)
    } else {
        false
    }
}

pub open spec fn member_placed(d: Draft, names: Seq<Seq<char>>, s: Json, loc: Seq<char>, i: int, x: Seq<char>, t: Json) -> bool
    decreases s, 0nat, 0int,
{
    if s is Object && 0 <= i < s->Object_0@.len() && !names.contains(s->Object_0@[i].0@) {
        match keyword_of(d, s->Object_0@[i].0@) {
            Some(kind) => keyword_active(d, s, kind) && value_placed(
                d, names,
                kind,
                s->Object_0@[i].1,
                below(loc, escaped(s->Object_0@[i].0@)),
                x,
                t,
            ),
            None => false,
        }
    } else {
        false
    }
}

pub open spec fn value_placed(d: Draft, names: Seq<Seq<char>>, kind: KeywordKind, v: Json, here: Seq<char>, x: Seq<char>, t: Json) -> bool
    decreases v, 3nat, 0int,
{
    match kind {
        KeywordKind::Properties | KeywordKind::Definitions | KeywordKind::Dependencies
        | KeywordKind::DependentRequired | KeywordKind::DependentSchemas => props_placed(d, names, v, here, 0, x, t),
        KeywordKind::Items | KeywordKind::PrefixItems => if v is Array {
            elems_placed(d, names, v, here, 0, x, t)
        } else {
            placed(d, names, v, here, x, t)
        },
        KeywordKind::AllOf | KeywordKind::AnyOf | KeywordKind::OneOf => elems_placed(d, names, v, here, 0, x, t),
        KeywordKind::Not | KeywordKind::If | KeywordKind::Then | KeywordKind::Else
        | KeywordKind::AdditionalProperties | KeywordKind::Contains => placed(d, names, v, here, x, t),
        _ => false,
    }
}

pub open spec fn props_placed(d: Draft, names: Seq<Seq<char>>, v: Json, here: Seq<char>, j: int, x: Seq<char>, t: Json) -> bool
    decreases v, 1nat, v->Object_0@.len() - j,
{
    if v is Object && 0 <= j < v->Object_0@.len() {
        placed(d, names, v->Object_0@[j].1, below(here, escaped(v->Object_0@[j].0@)), x, t)
            || props_placed(d, names, v, here, j + 1, x, t)
    } else {
        false
    }
}

pub open spec fn elems_placed(d: Draft, names: Seq<Seq<char>>, v: Json, here: Seq<char>, j: int, x: Seq<char>, t: Json) -> bool
    decreases v, 1nat, v->Array_0@.len() - j,
{
    if v is Array && 0 <= j < v->Array_0@.len() {
        placed(d, names, v->Array_0@[j], below(here, decimal(j as nat)), x, t) || elems_placed(d, names, v, here, j + 1, x, t)
    } else {
        false
    }
}

/// Node `n` of `g` represents a sub-schema that `ctx` places at its location.
pub open spec fn origin_at(
    ctx: spec_fn(Seq<char>, Json) -> bool,
    d: Draft,
    names: Seq<Seq<char>>,
    fnames: Seq<Seq<char>>,
    n: int,
    g: Image,
) -> bool {
    exists|t: Json| #[trigger] ctx(g.nodes[n].location@, t) && represents(d, names, fnames, t, g.nodes[n].location@, n, g)
}

/// Every node of `g` from index `from` on represents a sub-schema that `ctx`
/// places at the node's location.
pub open spec fn origins(
    ctx: spec_fn(Seq<char>, Json) -> bool,
    d: Draft,
    names: Seq<Seq<char>>,
    fnames: Seq<Seq<char>>,
    from: int,
    g: Image,
) -> bool {
    forall|n: int| from <= n < g.nodes.len() ==> #[trigger] origin_at(ctx, d, names, fnames, n, g)
}

proof fn lemma_origins_grow(
    ctx: spec_fn(Seq<char>, Json) -> bool,
    d: Draft,
    names: Seq<Seq<char>>,
    fnames: Seq<Seq<char>>,
    from: int,
    g1: Image,
    g2: Image,
)
    requires
        origins(ctx, d, names, fnames, from, g1),
        origins(ctx, d, names, fnames, g1.nodes.len() as int, g2),
        image_grows(g1, g2),
    ensures
        origins(ctx, d, names, fnames, from, g2),
{
    assert forall|n: int| from <= n < g2.nodes.len() implies #[trigger] origin_at(ctx, d, names, fnames, n, g2) by {
        if n < g1.nodes.len() {
            assert(origin_at(ctx, d, names, fnames, n, g1));
            let t = choose|t: Json| #[trigger] ctx(g1.nodes[n].location@, t) && represents(d, names, fnames, t, g1.nodes[n].location@, n, g1);
            assert(g2.nodes[n] == g1.nodes[n]);
            lemma_represents_mono(d, names, fnames, t, g1.nodes[n].location@, n, g1, g2);
        }
    }
}

proof fn lemma_origins_weaken(
    c1: spec_fn(Seq<char>, Json) -> bool,
    c2: spec_fn(Seq<char>, Json) -> bool,
    d: Draft,
    names: Seq<Seq<char>>,
    fnames: Seq<Seq<char>>,
    from: int,
    g: Image,
)
    requires
        origins(c1, d, names, fnames, from, g),
        forall|x: Seq<char>, t: Json| #[trigger] c1(x, t) ==> c2(x, t),
    ensures
        origins(c2, d, names, fnames, from, g),
{
    assert forall|n: int| from <= n < g.nodes.len() implies #[trigger] origin_at(c2, d, names, fnames, n, g) by {
        assert(origin_at(c1, d, names, fnames, n, g));
        let t = choose|t: Json| #[trigger] c1(g.nodes[n].location@, t) && represents(d, names, fnames, t, g.nodes[n].location@, n, g);
        assert(c2(g.nodes[n].location@, t));
    }
}

proof fn lemma_members_placed(d: Draft, names: Seq<Seq<char>>, s: Json, loc: Seq<char>, i: int, k: int, x: Seq<char>, t: Json)
    requires
        0 <= i <= k,
        member_placed(d, names, s, loc, k, x, t),
    ensures
        members_placed(d, names, s, loc, i, x, t),
    decreases k - i,
{
    if i < k {
        lemma_members_placed(d, names, s, loc, i + 1, k, x, t);
    }
}

proof fn lemma_props_placed(d: Draft, names: Seq<Seq<char>>, v: Json, here: Seq<char>, i: int, k: int, x: Seq<char>, t: Json)
    requires
        0 <= i <= k,
        v is Object,
        k < v->Object_0@.len(),
        placed(d, names, v->Object_0@[k].1, below(here, escaped(v->Object_0@[k].0@)), x, t),
    ensures
        props_placed(d, names, v, here, i, x, t),
    decreases k - i,
{
    if i < k {
        lemma_props_placed(d, names, v, here, i + 1, k, x, t);
    }
}

proof fn lemma_elems_placed(d: Draft, names: Seq<Seq<char>>, v: Json, here: Seq<char>, i: int, k: int, x: Seq<char>, t: Json)
    requires
        0 <= i <= k,
        v is Array,
        k < v->Array_0@.len(),
        placed(d, names, v->Array_0@[k], below(here, decimal(k as nat)), x, t),
    ensures
        elems_placed(d, names, v, here, i, x, t),
    decreases k - i,
{
    if i < k {
        lemma_elems_placed(d, names, v, here, i + 1, k, x, t);
    }
}

} // verus!
