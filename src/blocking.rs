use vstd::prelude::*;

use crate::compiler::{
    built_from, compile, factory_names, outline, plain, reference_bound, references_resolve, represents, schema_ok, validator_image, Extensions,
};
use crate::location::root_location;
use crate::drafts::{draft_from_schema, draft_of_schema, Draft};
use crate::error::BuildError;
use crate::graph::JsonSchemaValidator;
use crate::json::Json;
use crate::validation::{valid_iff_no_errors, views, ErrorView, ValidationError};
use crate::vocabulary::{Keyword, KeywordFactory, NoFactory, NoKeyword};

verus! {

/// A compiled schema, ready to validate any number of instances.
#[derive(Debug)]
pub struct Validator<K = NoKeyword> {
    pub draft: Draft,
    pub graph: JsonSchemaValidator<K>,
}

/// The result of one evaluation: whether the instance is valid, and every error.
#[derive(Debug)]
pub struct Output {
    pub valid: bool,
    pub errors: Vec<ValidationError>,
}

impl<K: Keyword> Validator<K> {
    pub open spec fn wf(&self) -> bool {
        self.graph.wf()
    }

    /// Whether `instance` is valid.
    pub open spec fn valid(&self, instance: Json) -> bool {
        self.graph.valid(instance)
    }

    /// The errors of `instance`, in order.
    pub open spec fn errors(&self, instance: Json) -> Seq<ErrorView> {
        self.graph.errors(instance)
    }

    pub fn is_valid(&self, instance: &Json) -> (r: bool)
        requires
            self.wf(),
        ensures
            r == self.valid(*instance),
    {
        self.graph.is_valid(instance)
    }

    pub fn validate(&self, instance: &Json) -> (r: Result<(), ValidationError>)
        requires
            self.wf(),
        ensures
            r is Ok <==> self.errors(*instance).len() == 0,
            r matches Err(e) ==> e@ == self.errors(*instance)[0],
    {
        self.graph.validate(instance)
    }

    pub fn iter_errors(&self, instance: &Json) -> (r: Vec<ValidationError>)
        requires
            self.wf(),
        ensures
            views(r@) == self.errors(*instance),
    {
        self.graph.iter_errors(instance)
    }

    /// Evaluates `instance` once and reports both the verdict and the errors.
    pub fn evaluate(&self, instance: &Json) -> (r: Output)
        requires
            self.wf(),
        ensures
            r.valid == self.valid(*instance),
            views(r.errors@) == self.errors(*instance),
    {
        let errors = self.graph.iter_errors(instance);
        proof { valid_iff_no_errors(self.graph, *instance); }
        Output { valid: errors.len() == 0, errors }
    }
}

/// Options for compiling a schema: the draft, and the caller's keywords and
/// formats by name.
pub struct ValidatorBuilder<F = NoFactory> {
    /// The draft to compile with; `None` reads it from the schema's `$schema`.
    pub draft: Option<Draft>,
    pub extensions: Extensions<F>,
}

impl Default for ValidatorBuilder<NoFactory> {
    fn default() -> (r: Self)
        ensures
            r.draft is None,
            plain(r.extensions),
    {
        ValidatorBuilder { draft: None, extensions: Extensions { keywords: Vec::new(), formats: Vec::new() } }
    }
}

/// The draft that `b` compiles `schema` with.
pub open spec fn effective_draft<F>(b: ValidatorBuilder<F>, schema: Json) -> Draft {
    match b.draft {
        Some(d) => d,
        None => draft_of_schema(schema),
    }
}

/// What holds of the result of compiling `schema` under draft `d`, with the
/// caller's keywords registered under `names` and formats under `fnames`. A
/// validator that comes back holds, at its root, the compiled form of
/// `schema` (`represents`), and each `$ref` is bound to a node that represents
/// the sub-schema at its target (`reference_bound`). When no keyword and no format
/// is registered (`plain`), the build succeeds exactly when the schema is
/// well-formed and each of its references names one of its schema locations;
/// otherwise a factory may also refuse its value.
pub open spec fn build_outcome<K: Keyword>(
    schema: Json,
    d: Draft,
    names: Seq<Seq<char>>,
    fnames: Seq<Seq<char>>,
    plain: bool,
    r: Result<Validator<K>, BuildError>,
) -> bool {
    &&& r matches Ok(v) ==> represents(d, names, fnames, schema, root_location(), v.graph.root as int, validator_image(v.graph))
    &&& r matches Ok(v) ==> forall|k: int| 0 <= k < v.graph.references@.len() ==> #[trigger] reference_bound(
        d,
        names,
        fnames,
        schema,
        v.graph,
        k,
    )
    &&& r is Ok ==> schema_ok(d, names, schema) && references_resolve(d, names, schema) && r->Ok_0.wf()
        && r->Ok_0.draft == d
    &&& !schema_ok(d, names, schema) ==> r is Err && (r->Err_0 is InvalidSchema || r->Err_0 is InvalidKeyword)
    &&& (r is Err && r->Err_0 is UnresolvableReference) ==> schema_ok(d, names, schema)
        && !references_resolve(d, names, schema)
        && outline(d, names, schema, root_location()).references.contains(r->Err_0->reference@)
        && !outline(d, names, schema, root_location()).locations.contains(r->Err_0->reference@)
    &&& (plain && schema_ok(d, names, schema) && !references_resolve(d, names, schema)) ==> r is Err
        && r->Err_0 is UnresolvableReference
    &&& plain ==> (r is Ok <==> schema_ok(d, names, schema) && references_resolve(d, names, schema))
}

impl<F: KeywordFactory> ValidatorBuilder<F> {
    pub fn new() -> (r: Self)
        ensures
            r.draft is None,
            plain(r.extensions),
    {
        ValidatorBuilder { draft: None, extensions: Extensions { keywords: Vec::new(), formats: Vec::new() } }
    }

    /// Compile with draft `draft` whatever the schema declares.
    pub fn draft(self, draft: Draft) -> (r: Self)
        ensures
            r.draft == Some(draft),
            r.extensions == self.extensions,
    {
        ValidatorBuilder { draft: Some(draft), extensions: self.extensions }
    }

    /// Registers `factory` for the keyword `name`; it takes precedence over a
    /// built-in keyword of the same name.
    pub fn keyword(self, name: String, factory: F) -> (r: Self)
        ensures
            r.draft == self.draft,
            r.extensions.keywords@ == self.extensions.keywords@.push((name, factory)),
            r.extensions.formats == self.extensions.formats,
    {
        let ValidatorBuilder { draft, extensions } = self;
        let Extensions { mut keywords, formats } = extensions;
        keywords.push((name, factory));
        ValidatorBuilder { draft, extensions: Extensions { keywords, formats } }
    }

    /// Registers `factory` for the format `name`: where a schema says
    /// `"format": name`, the keyword that `factory` builds judges string values.
    pub fn format(self, name: String, factory: F) -> (r: Self)
        ensures
            r.draft == self.draft,
            r.extensions.keywords == self.extensions.keywords,
            r.extensions.formats@ == self.extensions.formats@.push((name, factory)),
    {
        let ValidatorBuilder { draft, extensions } = self;
        let Extensions { keywords, mut formats } = extensions;
        formats.push((name, factory));
        ValidatorBuilder { draft, extensions: Extensions { keywords, formats } }
    }

    pub fn build(&self, schema: &Json) -> (r: Result<Validator<F::Output>, BuildError>)
        ensures
            build_outcome(
                *schema,
                effective_draft(*self, *schema),
                factory_names(self.extensions.keywords@),
                factory_names(self.extensions.formats@),
                plain(self.extensions),
                r,
            ),
            r matches Ok(v) ==> v.graph.keywords@.len() == v.graph.requests@.len() && forall|k: int|
                0 <= k < v.graph.keywords@.len() ==> built_from(self.extensions, v.graph.requests@[k], #[trigger] v.graph.keywords@[k]),
    {
        let draft = match self.draft {
            Some(d) => d,
            None => draft_from_schema(schema),
        };
        let graph = compile(schema, draft, &self.extensions)?;
        Ok(Validator { draft, graph })
    }
}

/// Compiles `schema` with the draft its `$schema` names, or the latest.
pub fn validator_for(schema: &Json) -> (r: Result<Validator, BuildError>)
    ensures
        build_outcome(*schema, draft_of_schema(*schema), Seq::empty(), Seq::empty(), true, r),
{
    let draft = draft_from_schema(schema);
    let b = ValidatorBuilder::default().draft(draft);
    assert(factory_names(b.extensions.keywords@) =~= Seq::<Seq<char>>::empty());
    assert(factory_names(b.extensions.formats@) =~= Seq::<Seq<char>>::empty());
    b.build(schema)
}
/// Compiles `schema` as `validator_for` does and tells whether `instance` is valid.
pub fn try_is_valid(schema: &Json, instance: &Json) -> (r: Result<bool, BuildError>)
    ensures
        r matches Ok(b) ==> exists|v: Validator<NoKeyword>|
            build_outcome(*schema, draft_of_schema(*schema), Seq::empty(), Seq::empty(), true, Ok(v)) && b == v.valid(*instance),
        r matches Err(e) ==> build_outcome::<NoKeyword>(*schema, draft_of_schema(*schema), Seq::empty(), Seq::empty(), true, Err(e)),
        !schema_ok(draft_of_schema(*schema), Seq::empty(), *schema) ==> r is Err,
{
    let v = validator_for(schema)?;
    Ok(v.is_valid(instance))
}

/// Compiles `schema` as `validator_for` does and returns the first error of `instance`.
pub fn try_validate(schema: &Json, instance: &Json) -> (r: Result<Result<(), ValidationError>, BuildError>)
    ensures
        r matches Ok(res) ==> exists|v: Validator<NoKeyword>| {
            &&& build_outcome(*schema, draft_of_schema(*schema), Seq::empty(), Seq::empty(), true, Ok(v))
            &&& (res is Ok <==> v.errors(*instance).len() == 0)
            &&& (res matches Err(e) ==> e@ == v.errors(*instance)[0])
        },
        r matches Err(e) ==> build_outcome::<NoKeyword>(*schema, draft_of_schema(*schema), Seq::empty(), Seq::empty(), true, Err(e)),
        !schema_ok(draft_of_schema(*schema), Seq::empty(), *schema) ==> r is Err,
{
    let v = validator_for(schema)?;
    Ok(v.validate(instance))
}

/// Compiles `schema` as `validator_for` does and returns every error of `instance`.
pub fn try_iter_errors(schema: &Json, instance: &Json) -> (r: Result<Vec<ValidationError>, BuildError>)
    ensures
        r matches Ok(es) ==> exists|v: Validator<NoKeyword>|
            build_outcome(*schema, draft_of_schema(*schema), Seq::empty(), Seq::empty(), true, Ok(v)) && views(es@) == v.errors(*instance),
        r matches Err(e) ==> build_outcome::<NoKeyword>(*schema, draft_of_schema(*schema), Seq::empty(), Seq::empty(), true, Err(e)),
        !schema_ok(draft_of_schema(*schema), Seq::empty(), *schema) ==> r is Err,
{
    let v = validator_for(schema)?;
    Ok(v.iter_errors(instance))
}

/// Compiles `schema` as `validator_for` does and evaluates `instance` once.
pub fn try_evaluate(instance: &Json, schema: &Json) -> (r: Result<Output, BuildError>)
    ensures
        r matches Ok(o) ==> exists|v: Validator<NoKeyword>| {
            &&& build_outcome(*schema, draft_of_schema(*schema), Seq::empty(), Seq::empty(), true, Ok(v))
            &&& o.valid == v.valid(*instance)
            &&& views(o.errors@) == v.errors(*instance)
        },
        r matches Err(e) ==> build_outcome::<NoKeyword>(*schema, draft_of_schema(*schema), Seq::empty(), Seq::empty(), true, Err(e)),
        !schema_ok(draft_of_schema(*schema), Seq::empty(), *schema) ==> r is Err,
{
    let v = validator_for(schema)?;
    Ok(v.evaluate(instance))
}

/// Evaluation is a function of the validator and the instance alone: runs on
/// equal arguments give the same verdict, the same first error and the same
/// errors in the same order.
pub proof fn evaluation_is_repeatable<K: Keyword>(v: Validator<K>, a: Json, b: Json)
    requires
        a == b,
    ensures
        v.valid(a) == v.valid(b),
        v.errors(a) == v.errors(b),
{
}

/// A reference cycle is no obstacle to compiling: a well-formed schema whose
/// references all name its own locations builds, even where one of them names
/// the root it stands in (a schema that refers to itself, directly or through
/// another definition).
pub proof fn cyclic_references_compile<K: Keyword>(schema: Json, d: Draft, r: Result<Validator<K>, BuildError>)
    requires
        build_outcome(schema, d, Seq::empty(), Seq::empty(), true, r),
        schema_ok(d, Seq::empty(), schema),
        references_resolve(d, Seq::empty(), schema),
        outline(d, Seq::empty(), schema, root_location()).references.contains(root_location()),
    ensures
        r is Ok,
{
}

} // verus!
