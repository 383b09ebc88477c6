use jsonschema::drafts::from_url;
use jsonschema::{
    try_evaluate, try_is_valid, try_iter_errors, try_validate, validator_for, BuildError, Draft,
    ErrorKind, Json, PathChunk, Validator, ValidatorBuilder,
};

fn s(t: &str) -> Json {
    Json::Str(t.to_string())
}

fn obj(members: Vec<(&str, Json)>) -> Json {
    Json::Object(members.into_iter().map(|(k, v)| (k.to_string(), v)).collect())
}

fn integer_schema() -> Json {
    obj(vec![("type", s("integer"))])
}

fn assert_send_sync<T: Send + Sync>() {}

#[test]
fn test_validator_for_blocking() {
    let schema = integer_schema();
    let _validator = validator_for(&schema).expect("Invalid schema");
}

#[test]
fn test_options_blocking() {
    let schema = integer_schema();
    let _validator = ValidatorBuilder::default()
        .build(&schema)
        .expect("Invalid schema");
}

#[test]
fn test_send_sync() {
    assert_send_sync::<Validator>();
    assert_send_sync::<jsonschema::ValidationError>();
}

#[test]
fn test_validator_for() {
    let schema = integer_schema();
    let _validator = validator_for(&schema).expect("Invalid schema");
}

#[test]
fn test_builder() {
    let schema = integer_schema();
    let _validator = ValidatorBuilder::default()
        .build(&schema)
        .expect("Invalid schema");
}

#[test]
fn integer_type_rejects_string() {
    let v = validator_for(&integer_schema()).unwrap();
    let instance = s("a");
    assert!(!v.is_valid(&instance));
    let err = v.validate(&instance).unwrap_err();
    assert_eq!(err.kind.keyword(), "type");
    assert_eq!(v.iter_errors(&instance).len(), 1);
}

#[test]
fn integer_type_accepts_integer() {
    let v = validator_for(&integer_schema()).unwrap();
    let instance = Json::Integer(4);
    assert!(v.is_valid(&instance));
    assert!(v.validate(&instance).is_ok());
    assert!(v.iter_errors(&instance).is_empty());
}

#[test]
fn all_of_reports_only_failing_branch() {
    let schema = obj(vec![(
        "allOf",
        Json::Array(vec![integer_schema(), obj(vec![("minimum", Json::Integer(5))])]),
    )]);
    let v = validator_for(&schema).unwrap();
    let errors = v.iter_errors(&Json::Integer(3));
    assert_eq!(errors.len(), 1);
    assert_eq!(errors[0].kind, ErrorKind::Minimum);
    assert_eq!(errors[0].kind.keyword(), "minimum");
    assert_eq!(errors[0].schema_location, "#/allOf/1/minimum");
    assert!(v.is_valid(&Json::Integer(5)));
}

#[test]
fn self_referential_schema_builds_and_terminates() {
    let schema = obj(vec![
        ("$ref", s("#/$defs/self")),
        ("$defs", obj(vec![("self", obj(vec![("$ref", s("#"))]))])),
    ]);
    let v = validator_for(&schema).unwrap();
    for instance in [Json::Null, Json::Integer(1), s("x"), Json::Array(vec![Json::Bool(true)])] {
        assert!(v.is_valid(&instance));
        assert!(v.iter_errors(&instance).is_empty());
    }
}

#[test]
fn mutual_reference_cycle_builds_and_terminates() {
    let schema = obj(vec![
        ("$ref", s("#/$defs/a")),
        (
            "$defs",
            obj(vec![
                ("a", obj(vec![("$ref", s("#/$defs/b")), ("type", s("integer"))])),
                ("b", obj(vec![("$ref", s("#/$defs/a"))])),
            ]),
        ),
    ]);
    let v = validator_for(&schema).unwrap();
    assert!(v.is_valid(&Json::Integer(1)));
    assert!(!v.is_valid(&s("x")));
}

#[test]
fn recursive_schema_descends_into_instance() {
    // A list of integers nested to any depth.
    let schema = obj(vec![
        ("$ref", s("#/$defs/node")),
        (
            "$defs",
            obj(vec![(
                "node",
                obj(vec![
                    ("type", Json::Array(vec![s("integer"), s("array")])),
                    ("items", obj(vec![("$ref", s("#/$defs/node"))])),
                ]),
            )]),
        ),
    ]);
    let v = validator_for(&schema).unwrap();
    let good = Json::Array(vec![Json::Integer(1), Json::Array(vec![Json::Integer(2)])]);
    let bad = Json::Array(vec![Json::Integer(1), Json::Array(vec![s("x")])]);
    assert!(v.is_valid(&good));
    assert!(!v.is_valid(&bad));
    let errors = v.iter_errors(&bad);
    assert_eq!(errors.len(), 1);
    assert_eq!(errors[0].instance_path, vec![PathChunk::Index(1), PathChunk::Index(0)]);
    assert_eq!(errors[0].schema_location, "#/$defs/node/type");
}

#[test]
fn missing_schema_uses_latest_draft() {
    let v = validator_for(&integer_schema()).unwrap();
    assert_eq!(v.draft, Draft::Draft202012);
    assert!(!v.is_valid(&s("a")));
    assert!(v.is_valid(&Json::Integer(7)));
}

#[test]
fn draft07_url_is_detected() {
    let schema = obj(vec![
        ("$schema", s("https://json-schema.org/draft-07/schema#")),
        ("$ref", s("#/definitions/any")),
        ("definitions", obj(vec![("any", Json::Bool(true))])),
        ("type", s("integer")),
    ]);
    let v = validator_for(&schema).unwrap();
    assert_eq!(v.draft, Draft::Draft07);
    // In draft 7 `$ref` makes its siblings inert.
    assert!(v.is_valid(&s("a")));
}

#[test]
fn latest_draft_applies_ref_siblings() {
    let schema = obj(vec![
        ("$ref", s("#/$defs/any")),
        ("$defs", obj(vec![("any", Json::Bool(true))])),
        ("type", s("integer")),
    ]);
    let v = validator_for(&schema).unwrap();
    assert!(!v.is_valid(&s("a")));
}

#[test]
fn fragment_url_falls_back_to_latest() {
    let schema = obj(vec![
        ("$schema", s("https://json-schema.org/draft-07/schema#/definitions")),
        ("type", s("integer")),
    ]);
    let v = validator_for(&schema).unwrap();
    assert_eq!(v.draft, Draft::Draft202012);
}

#[test]
fn from_url_forms() {
    assert_eq!(from_url("http://json-schema.org/draft-04/schema#"), Some(Draft::Draft04));
    assert_eq!(from_url("https://json-schema.org/draft-06/schema"), Some(Draft::Draft06));
    assert_eq!(from_url("json-schema.org/draft/2019-09/schema"), Some(Draft::Draft201909));
    assert_eq!(from_url("https://json-schema.org/draft/2020-12/schema#"), Some(Draft::Draft202012));
    assert_eq!(from_url("https://json-schema.org/schema"), Some(Draft::Draft202012));
    assert_eq!(from_url("https://json-schema.org/draft-07/schema#foo"), None);
    assert_eq!(from_url("ftp://json-schema.org/draft-07/schema"), None);
    assert_eq!(from_url(""), None);
}

#[test]
fn unknown_keyword_is_ignored() {
    let schema = obj(vec![
        ("type", s("integer")),
        ("frobnicate", obj(vec![("minimum", s("not a number"))])),
    ]);
    let v = validator_for(&schema).unwrap();
    assert!(v.is_valid(&Json::Integer(4)));
    assert!(!v.is_valid(&s("a")));
}

#[test]
fn repeated_evaluation_is_identical() {
    let schema = obj(vec![
        ("type", s("object")),
        ("required", Json::Array(vec![s("a")])),
    ]);
    let v = validator_for(&schema).unwrap();
    let instance = obj(vec![("b", Json::Null)]);
    let first = v.iter_errors(&instance);
    for _ in 0..3 {
        assert_eq!(v.iter_errors(&instance), first);
        assert_eq!(v.validate(&instance), v.validate(&instance));
        assert_eq!(v.is_valid(&instance), v.is_valid(&instance));
    }
}

#[test]
fn errors_follow_declaration_order() {
    let schema = obj(vec![
        ("required", Json::Array(vec![s("a"), s("b")])),
        ("properties", obj(vec![("c", integer_schema()), ("d", obj(vec![("maximum", Json::Integer(1))]))])),
        ("type", s("array")),
    ]);
    let v = validator_for(&schema).unwrap();
    let instance = obj(vec![("d", Json::Integer(9)), ("c", s("x"))]);
    let errors = v.iter_errors(&instance);
    let kinds: Vec<ErrorKind> = errors.iter().map(|e| e.kind).collect();
    assert_eq!(
        kinds,
        vec![ErrorKind::Required, ErrorKind::Required, ErrorKind::Maximum, ErrorKind::Type, ErrorKind::Type]
    );
    assert_eq!(errors[2].instance_path, vec![PathChunk::Key("d".to_string())]);
    assert_eq!(errors[3].instance_path, vec![PathChunk::Key("c".to_string())]);
    assert!(errors[4].instance_path.is_empty());
    assert_eq!(errors[0].schema_location, "#/required");
    assert_eq!(errors[2].schema_location, "#/properties/d/maximum");
    assert_eq!(errors[3].schema_location, "#/properties/c/type");
    assert_eq!(errors[4].schema_location, "#/type");
    assert_eq!(v.validate(&instance).unwrap_err(), errors[0]);
}

#[test]
fn apis_agree() {
    let schema = obj(vec![("anyOf", Json::Array(vec![integer_schema(), obj(vec![("type", s("null"))])]))]);
    let v = validator_for(&schema).unwrap();
    for instance in [Json::Integer(1), Json::Null, s("x"), Json::Bool(false)] {
        let valid = v.is_valid(&instance);
        assert_eq!(valid, v.validate(&instance).is_ok());
        assert_eq!(valid, v.iter_errors(&instance).is_empty());
        let out = v.evaluate(&instance);
        assert_eq!(valid, out.valid);
        assert_eq!(out.errors, v.iter_errors(&instance));
    }
}

#[test]
fn one_of_and_not() {
    let schema = obj(vec![
        ("oneOf", Json::Array(vec![obj(vec![("minimum", Json::Integer(0))]), obj(vec![("maximum", Json::Integer(10))])])),
        ("not", obj(vec![("type", s("null"))])),
    ]);
    let v = validator_for(&schema).unwrap();
    assert!(v.is_valid(&Json::Integer(-5)));
    assert!(v.is_valid(&Json::Integer(20)));
    let errors = v.iter_errors(&Json::Integer(5));
    assert_eq!(errors.len(), 1);
    assert_eq!(errors[0].kind, ErrorKind::OneOf);
    let errors = v.iter_errors(&Json::Null);
    assert_eq!(errors.iter().map(|e| e.kind).collect::<Vec<_>>(), vec![ErrorKind::OneOf, ErrorKind::Not]);
}

#[test]
fn false_schema_rejects_everything() {
    let v = validator_for(&Json::Bool(false)).unwrap();
    let errors = v.iter_errors(&Json::Null);
    assert_eq!(errors.len(), 1);
    assert_eq!(errors[0].kind, ErrorKind::FalseSchema);
    assert!(validator_for(&Json::Bool(true)).unwrap().is_valid(&Json::Null));
}

#[test]
fn exclusive_bounds_by_draft() {
    let d4 = obj(vec![
        ("$schema", s("http://json-schema.org/draft-04/schema#")),
        ("minimum", Json::Integer(5)),
        ("exclusiveMinimum", Json::Bool(true)),
    ]);
    let v = validator_for(&d4).unwrap();
    assert_eq!(v.draft, Draft::Draft04);
    assert!(!v.is_valid(&Json::Integer(5)));
    assert_eq!(v.iter_errors(&Json::Integer(5))[0].kind, ErrorKind::ExclusiveMinimum);
    assert!(v.is_valid(&Json::Integer(6)));

    let d6 = obj(vec![("exclusiveMaximum", Json::Integer(5))]);
    let v = ValidatorBuilder::default().draft(Draft::Draft06).build(&d6).unwrap();
    assert!(!v.is_valid(&Json::Integer(5)));
    assert!(v.is_valid(&Json::Integer(4)));

    let bad = ValidatorBuilder::default().draft(Draft::Draft04).build(&d6);
    assert_eq!(
        bad.unwrap_err(),
        BuildError::InvalidKeyword { location: "#".to_string(), keyword: "exclusiveMaximum".to_string() }
    );
}

#[test]
fn build_errors() {
    assert_eq!(
        validator_for(&Json::Integer(5)).unwrap_err(),
        BuildError::InvalidSchema { location: "#".to_string() }
    );
    let nested = obj(vec![("properties", obj(vec![("a/b", Json::Null)]))]);
    assert_eq!(
        validator_for(&nested).unwrap_err(),
        BuildError::InvalidSchema { location: "#/properties/a~1b".to_string() }
    );
    let bad_min = obj(vec![("allOf", Json::Array(vec![obj(vec![("minimum", s("x"))])]))]);
    assert_eq!(
        validator_for(&bad_min).unwrap_err(),
        BuildError::InvalidKeyword { location: "#/allOf/0".to_string(), keyword: "minimum".to_string() }
    );
    let empty_any = obj(vec![("anyOf", Json::Array(vec![]))]);
    assert!(matches!(validator_for(&empty_any), Err(BuildError::InvalidKeyword { .. })));
    let bad_type = obj(vec![("type", s("float"))]);
    assert!(matches!(validator_for(&bad_type), Err(BuildError::InvalidKeyword { .. })));
    let dangling = obj(vec![("$ref", s("#/$defs/missing"))]);
    assert_eq!(
        validator_for(&dangling).unwrap_err(),
        BuildError::UnresolvableReference { reference: "#/$defs/missing".to_string() }
    );
    let external = obj(vec![("$ref", s("https://example.com/schema.json"))]);
    assert!(matches!(validator_for(&external), Err(BuildError::UnresolvableReference { .. })));
}

#[test]
fn reference_to_indexed_location() {
    let schema = obj(vec![
        ("anyOf", Json::Array(vec![obj(vec![("type", s("string"))]), obj(vec![("$ref", s("#/anyOf/0"))])])),
    ]);
    let v = validator_for(&schema).unwrap();
    assert!(v.is_valid(&s("x")));
    assert!(!v.is_valid(&Json::Integer(1)));
}

#[test]
fn one_shot_functions() {
    let schema = integer_schema();
    assert_eq!(try_is_valid(&schema, &s("a")), Ok(false));
    assert_eq!(try_validate(&schema, &Json::Integer(1)), Ok(Ok(())));
    assert_eq!(try_iter_errors(&schema, &s("a")).unwrap().len(), 1);
    assert!(!try_evaluate(&s("a"), &schema).unwrap().valid);
    assert!(try_is_valid(&Json::Null, &s("a")).is_err());
}

#[test]
fn required_and_properties_ignore_other_types() {
    let schema = obj(vec![
        ("required", Json::Array(vec![s("a")])),
        ("properties", obj(vec![("a", integer_schema())])),
        ("items", integer_schema()),
        ("minimum", Json::Integer(3)),
    ]);
    let v = validator_for(&schema).unwrap();
    assert!(v.is_valid(&s("anything")));
    assert!(v.is_valid(&obj(vec![("a", Json::Integer(1))])));
    assert!(!v.is_valid(&obj(vec![("a", s("x"))])));
    assert!(!v.is_valid(&Json::Array(vec![Json::Integer(1), Json::Null])));
    assert!(!v.is_valid(&Json::Integer(2)));
}

#[test]
fn json_get_finds_first_member() {
    let o = obj(vec![("k", Json::Integer(1)), ("k", Json::Integer(2))]);
    assert!(matches!(o.get("k"), Some(Json::Integer(1))));
    assert!(o.get("z").is_none());
    assert_eq!(Json::Null.as_str(), None);
}

#[test]
fn conditional_chooses_branch() {
    let schema = obj(vec![
        ("if", obj(vec![("minimum", Json::Integer(0))])),
        ("then", obj(vec![("maximum", Json::Integer(10))])),
        ("else", obj(vec![("type", s("string"))])),
    ]);
    let v = ValidatorBuilder::default().draft(Draft::Draft07).build(&schema).unwrap();
    assert!(v.is_valid(&Json::Integer(5)));
    let errors = v.iter_errors(&Json::Integer(20));
    assert_eq!(errors.len(), 1);
    assert_eq!(errors[0].kind, ErrorKind::Maximum);
    let errors = v.iter_errors(&Json::Integer(-1));
    assert_eq!(errors.len(), 1);
    assert_eq!(errors[0].kind, ErrorKind::Type);
    assert!(v.is_valid(&s("x")));

    // Draft 6 has no conditionals: the three keywords are unknown there.
    let v6 = ValidatorBuilder::default().draft(Draft::Draft06).build(&schema).unwrap();
    assert!(v6.is_valid(&Json::Integer(20)));
    assert!(v6.is_valid(&Json::Integer(-1)));
}

#[test]
fn conditional_without_else() {
    let schema = obj(vec![
        ("then", obj(vec![("type", s("integer"))])),
        ("if", obj(vec![("required", Json::Array(vec![s("n")]))])),
    ]);
    let v = validator_for(&schema).unwrap();
    assert!(v.is_valid(&obj(vec![])));
    assert!(!v.is_valid(&obj(vec![("n", Json::Null)])));
    assert!(v.is_valid(&Json::Integer(3)));
}

#[test]
fn size_keywords() {
    let schema = obj(vec![
        ("minLength", Json::Integer(2)),
        ("maxLength", Json::Integer(3)),
        ("minItems", Json::Integer(1)),
        ("maxProperties", Json::Integer(1)),
    ]);
    let v = validator_for(&schema).unwrap();
    assert!(v.is_valid(&s("ab")));
    assert!(v.is_valid(&s("éèà")));
    assert_eq!(v.iter_errors(&s("a"))[0].kind, ErrorKind::MinLength);
    assert_eq!(v.iter_errors(&s("abcd"))[0].kind, ErrorKind::MaxLength);
    assert_eq!(v.iter_errors(&Json::Array(vec![]))[0].kind, ErrorKind::MinItems);
    assert_eq!(v.iter_errors(&Json::Array(vec![]))[0].kind.keyword(), "minItems");
    assert!(v.is_valid(&Json::Array(vec![Json::Null])));
    let two = obj(vec![("a", Json::Null), ("b", Json::Null)]);
    assert_eq!(v.iter_errors(&two)[0].kind, ErrorKind::MaxProperties);
    assert!(v.is_valid(&Json::Integer(0)));
    let negative = obj(vec![("maxItems", Json::Integer(-1))]);
    assert_eq!(
        validator_for(&negative).unwrap_err(),
        BuildError::InvalidKeyword { location: "#".to_string(), keyword: "maxItems".to_string() }
    );
}

#[test]
fn additional_properties() {
    let schema = obj(vec![
        ("properties", obj(vec![("a", integer_schema())])),
        ("additionalProperties", obj(vec![("type", s("string"))])),
    ]);
    let v = validator_for(&schema).unwrap();
    assert!(v.is_valid(&obj(vec![("a", Json::Integer(1)), ("b", s("x"))])));
    let errors = v.iter_errors(&obj(vec![("a", Json::Integer(1)), ("b", Json::Integer(2))]));
    assert_eq!(errors.len(), 1);
    assert_eq!(errors[0].kind, ErrorKind::Type);
    assert_eq!(errors[0].instance_path, vec![PathChunk::Key("b".to_string())]);

    let closed = validator_for(&obj(vec![("additionalProperties", Json::Bool(false))])).unwrap();
    assert!(closed.is_valid(&obj(vec![])));
    let errors = closed.iter_errors(&obj(vec![("z", Json::Null)]));
    assert_eq!(errors[0].kind, ErrorKind::FalseSchema);
    assert_eq!(errors[0].schema_location, "#/additionalProperties");
}

#[test]
fn const_and_enum() {
    let schema = obj(vec![("const", obj(vec![("a", Json::Integer(1)), ("b", Json::Array(vec![Json::Null]))]))]);
    let v = validator_for(&schema).unwrap();
    assert!(v.is_valid(&obj(vec![("b", Json::Array(vec![Json::Null])), ("a", Json::Integer(1))])));
    let errors = v.iter_errors(&obj(vec![("a", Json::Integer(1))]));
    assert_eq!(errors.len(), 1);
    assert_eq!(errors[0].kind, ErrorKind::Const);
    assert!(!v.is_valid(&obj(vec![("a", Json::Integer(1)), ("b", Json::Array(vec![]))])));

    let e = validator_for(&obj(vec![("enum", Json::Array(vec![s("red"), Json::Integer(3), Json::Null]))])).unwrap();
    assert!(e.is_valid(&s("red")));
    assert!(e.is_valid(&Json::Integer(3)));
    assert!(e.is_valid(&Json::Null));
    assert_eq!(e.iter_errors(&s("blue"))[0].kind, ErrorKind::Enum);
    assert!(!e.is_valid(&Json::Bool(false)));

    // Draft 4 has no `const`.
    let d4 = ValidatorBuilder::default().draft(Draft::Draft04).build(&schema).unwrap();
    assert!(d4.is_valid(&Json::Integer(0)));
    assert!(matches!(
        validator_for(&obj(vec![("enum", s("red"))])),
        Err(BuildError::InvalidKeyword { .. })
    ));
}

#[test]
fn contains_and_unique_items() {
    let schema = obj(vec![
        ("contains", obj(vec![("type", s("string"))])),
        ("uniqueItems", Json::Bool(true)),
    ]);
    let v = validator_for(&schema).unwrap();
    assert!(v.is_valid(&Json::Array(vec![Json::Integer(1), s("x")])));
    let errors = v.iter_errors(&Json::Array(vec![Json::Integer(1), Json::Integer(1)]));
    let kinds: Vec<ErrorKind> = errors.iter().map(|e| e.kind).collect();
    assert_eq!(kinds, vec![ErrorKind::Contains, ErrorKind::UniqueItems]);
    assert_eq!(v.iter_errors(&Json::Array(vec![]))[0].kind, ErrorKind::Contains);
    assert!(!v.is_valid(&Json::Array(vec![
        obj(vec![("a", Json::Null), ("b", s("x"))]),
        obj(vec![("b", s("x")), ("a", Json::Null)]),
    ])));
    assert!(v.is_valid(&obj(vec![])));

    let lax = validator_for(&obj(vec![("uniqueItems", Json::Bool(false))])).unwrap();
    assert!(lax.is_valid(&Json::Array(vec![Json::Null, Json::Null])));
}

#[test]
fn tuple_items_by_draft() {
    let latest = obj(vec![
        ("prefixItems", Json::Array(vec![integer_schema(), obj(vec![("type", s("string"))])])),
        ("items", obj(vec![("type", s("null"))])),
    ]);
    let v = validator_for(&latest).unwrap();
    assert!(v.is_valid(&Json::Array(vec![Json::Integer(1), s("a"), Json::Null, Json::Null])));
    assert!(v.is_valid(&Json::Array(vec![Json::Integer(1)])));
    let errors = v.iter_errors(&Json::Array(vec![s("x"), s("a"), Json::Integer(3)]));
    assert_eq!(errors.len(), 2);
    assert_eq!(errors[0].instance_path, vec![PathChunk::Index(0)]);
    assert_eq!(errors[1].instance_path, vec![PathChunk::Index(2)]);

    let tuple = obj(vec![("items", Json::Array(vec![integer_schema(), obj(vec![("type", s("string"))])]))]);
    let v7 = ValidatorBuilder::default().draft(Draft::Draft07).build(&tuple).unwrap();
    assert!(v7.is_valid(&Json::Array(vec![Json::Integer(1), s("a"), Json::Bool(true)])));
    assert!(!v7.is_valid(&Json::Array(vec![s("a")])));
    assert!(matches!(validator_for(&tuple), Err(BuildError::InvalidKeyword { .. })));
}

#[test]
fn remaining_error_kinds() {
    let schema = obj(vec![
        ("anyOf", Json::Array(vec![obj(vec![("type", s("array"))]), obj(vec![("type", s("object"))])])),
        ("exclusiveMaximum", Json::Integer(0)),
    ]);
    let v = validator_for(&schema).unwrap();
    let errors = v.iter_errors(&Json::Integer(0));
    let kinds: Vec<ErrorKind> = errors.iter().map(|e| e.kind).collect();
    // A failing `anyOf` reports itself, then each branch's errors.
    assert_eq!(kinds, vec![ErrorKind::AnyOf, ErrorKind::Type, ErrorKind::Type, ErrorKind::ExclusiveMaximum]);
    assert_eq!(errors[0].schema_location, "#/anyOf");
    assert_eq!(errors[1].schema_location, "#/anyOf/0/type");
    assert_eq!(errors[2].schema_location, "#/anyOf/1/type");
    assert_eq!(errors[3].kind.keyword(), "exclusiveMaximum");

    let items = validator_for(&obj(vec![("maxItems", Json::Integer(1))])).unwrap();
    assert_eq!(items.iter_errors(&Json::Array(vec![Json::Null, Json::Null]))[0].kind, ErrorKind::MaxItems);
    let props = validator_for(&obj(vec![("minProperties", Json::Integer(1))])).unwrap();
    assert_eq!(props.iter_errors(&obj(vec![]))[0].kind, ErrorKind::MinProperties);
    assert_eq!(props.iter_errors(&obj(vec![]))[0].kind.keyword(), "minProperties");
}

#[test]
fn dependencies_by_draft() {
    let old = obj(vec![(
        "dependencies",
        obj(vec![
            ("card", Json::Array(vec![s("billing")])),
            ("vip", obj(vec![("required", Json::Array(vec![s("level")]))])),
        ]),
    )]);
    let v7 = ValidatorBuilder::default().draft(Draft::Draft07).build(&old).unwrap();
    assert!(v7.is_valid(&obj(vec![("card", Json::Integer(1)), ("billing", Json::Null)])));
    let errors = v7.iter_errors(&obj(vec![("card", Json::Integer(1))]));
    assert_eq!(errors.len(), 1);
    assert_eq!(errors[0].kind, ErrorKind::Dependencies);
    assert_eq!(errors[0].schema_location, "#/dependencies");
    let errors = v7.iter_errors(&obj(vec![("vip", Json::Bool(true))]));
    assert_eq!(errors.len(), 1);
    assert_eq!(errors[0].kind, ErrorKind::Required);
    assert_eq!(errors[0].schema_location, "#/dependencies/vip/required");
    assert!(v7.is_valid(&obj(vec![("other", Json::Null)])));

    let new = obj(vec![
        ("dependentRequired", obj(vec![("card", Json::Array(vec![s("billing")]))])),
        ("dependentSchemas", obj(vec![("vip", obj(vec![("maxProperties", Json::Integer(1))]))])),
    ]);
    let v = validator_for(&new).unwrap();
    assert_eq!(v.iter_errors(&obj(vec![("card", Json::Null)]))[0].kind, ErrorKind::DependentRequired);
    assert_eq!(v.iter_errors(&obj(vec![("vip", Json::Null), ("x", Json::Null)]))[0].kind, ErrorKind::MaxProperties);
    assert!(v.is_valid(&obj(vec![("vip", Json::Null)])));
    // The older keyword is unknown in the latest draft.
    assert!(validator_for(&old).unwrap().is_valid(&obj(vec![("card", Json::Integer(1))])));
    let bad = obj(vec![("dependentRequired", obj(vec![("card", obj(vec![]))]))]);
    assert!(matches!(validator_for(&bad), Err(BuildError::InvalidKeyword { .. })));
}

#[test]
fn multiple_of() {
    let v = validator_for(&obj(vec![("multipleOf", Json::Integer(3))])).unwrap();
    assert!(v.is_valid(&Json::Integer(9)));
    assert!(v.is_valid(&Json::Integer(-6)));
    assert!(v.is_valid(&Json::Integer(0)));
    assert_eq!(v.iter_errors(&Json::Integer(-7))[0].kind, ErrorKind::MultipleOf);
    assert!(!v.is_valid(&Json::Integer(10)));
    assert!(v.is_valid(&s("x")));
    assert!(matches!(
        validator_for(&obj(vec![("multipleOf", Json::Integer(0))])),
        Err(BuildError::InvalidKeyword { .. })
    ));
}

#[test]
fn draft6_dependencies_and_false_root() {
    let schema = obj(vec![("dependencies", obj(vec![("a", Json::Array(vec![s("b")]))]))]);
    let v6 = ValidatorBuilder::default().draft(Draft::Draft06).build(&schema).unwrap();
    assert_eq!(v6.iter_errors(&obj(vec![("a", Json::Null)]))[0].kind, ErrorKind::Dependencies);
    let f = validator_for(&Json::Bool(false)).unwrap();
    assert_eq!(f.iter_errors(&Json::Null)[0].schema_location, "#");
}

#[test]
fn pattern_keyword() {
    let v = validator_for(&obj(vec![("pattern", s("^a+b$"))])).unwrap();
    assert!(v.is_valid(&s("aab")));
    let errors = v.iter_errors(&s("abc"));
    assert_eq!(errors.len(), 1);
    assert_eq!(errors[0].kind, ErrorKind::Pattern);
    assert_eq!(errors[0].schema_location, "#/pattern");
    assert!(v.is_valid(&Json::Integer(3)));
    assert_eq!(
        validator_for(&obj(vec![("pattern", s("("))])).unwrap_err(),
        BuildError::InvalidKeyword { location: "#".to_string(), keyword: "pattern".to_string() }
    );
    assert!(matches!(validator_for(&obj(vec![("type", Json::Integer(5))])), Err(BuildError::InvalidKeyword { .. })));
}

#[test]
fn errors_carry_messages() {
    let v = validator_for(&integer_schema()).unwrap();
    let e = v.validate(&s("a")).unwrap_err();
    assert_eq!(e.message, "the value does not satisfy the `type` keyword");
    let e = validator_for(&obj(vec![("required", Json::Array(vec![s("x")]))])).unwrap().validate(&obj(vec![])).unwrap_err();
    assert_eq!(e.message, "the value does not satisfy the `required` keyword");
}
