use jsonschema::{BuildError, ErrorKind, Json, Keyword, KeywordFactory, ValidatorBuilder};

/// Rejects ASCII strings longer than `max`; other values pass.
#[derive(Debug)]
struct AsciiMax {
    max: usize,
}

fn ascii_within(max: usize, instance: &Json) -> bool {
    if let Json::Str(s) = instance {
        if s.is_ascii() {
            return s.len() <= max;
        }
    }
    true
}

impl Keyword for AsciiMax {
    fn holds(&self, instance: Json) -> bool {
        ascii_within(self.max, &instance)
    }

    fn is_valid(&self, instance: &Json) -> bool {
        ascii_within(self.max, instance)
    }
}

struct AsciiMaxFactory;

impl KeywordFactory for AsciiMaxFactory {
    type Output = AsciiMax;

    fn accepts(&self, value: Json) -> bool {
        matches!(value, Json::Integer(n) if n >= 0)
    }

    fn builds(&self, value: Json, k: AsciiMax) -> bool {
        matches!(value, Json::Integer(n) if n >= 0 && k.max == n as usize)
    }

    fn init(&self, value: &Json) -> Option<AsciiMax> {
        match value {
            Json::Integer(n) if *n >= 0 => Some(AsciiMax { max: *n as usize }),
            _ => None,
        }
    }
}

fn schema_with(value: Json) -> Json {
    Json::Object(vec![("ascii-max".to_string(), value)])
}

#[test]
fn custom_keyword_limits_ascii_strings() {
    let v = ValidatorBuilder::new()
        .keyword("ascii-max".to_string(), AsciiMaxFactory)
        .build(&schema_with(Json::Integer(3)))
        .unwrap();
    let long = Json::Str("abcd".to_string());
    assert!(!v.is_valid(&long));
    let errors = v.iter_errors(&long);
    assert_eq!(errors.len(), 1);
    assert_eq!(errors[0].kind, ErrorKind::Custom);
    assert_eq!(errors[0].schema_location, "#/ascii-max");
    assert_eq!(errors[0].message, "the value does not satisfy the `ascii-max` keyword");
    assert!(v.is_valid(&Json::Str("é".to_string())));
    assert!(v.is_valid(&Json::Str("abc".to_string())));
    assert!(v.is_valid(&Json::Integer(12345)));
}

#[test]
fn custom_keyword_factory_can_refuse() {
    let r = ValidatorBuilder::new()
        .keyword("ascii-max".to_string(), AsciiMaxFactory)
        .build(&schema_with(Json::Str("three".to_string())));
    assert_eq!(
        r.unwrap_err(),
        BuildError::InvalidKeyword { location: "#".to_string(), keyword: "ascii-max".to_string() }
    );
}

#[test]
fn custom_keyword_overrides_builtin_name() {
    let schema = Json::Object(vec![("minimum".to_string(), Json::Integer(2))]);
    let v = ValidatorBuilder::new()
        .keyword("minimum".to_string(), AsciiMaxFactory)
        .build(&schema)
        .unwrap();
    // The registered keyword replaces the numeric bound.
    assert!(v.is_valid(&Json::Integer(0)));
    assert!(!v.is_valid(&Json::Str("abc".to_string())));
}

#[test]
fn custom_keyword_in_nested_schema() {
    let schema = Json::Object(vec![(
        "items".to_string(),
        schema_with(Json::Integer(1)),
    )]);
    let v = ValidatorBuilder::new()
        .keyword("ascii-max".to_string(), AsciiMaxFactory)
        .build(&schema)
        .unwrap();
    assert!(v.is_valid(&Json::Array(vec![Json::Str("a".to_string())])));
    assert!(!v.is_valid(&Json::Array(vec![Json::Str("a".to_string()), Json::Str("ab".to_string())])));
}

/// Accepts strings of exactly `size` bytes.
#[derive(Debug)]
struct FixedSize {
    size: usize,
}

impl Keyword for FixedSize {
    fn holds(&self, instance: Json) -> bool {
        self.is_valid(&instance)
    }

    fn is_valid(&self, instance: &Json) -> bool {
        match instance {
            Json::Str(s) => s.len() == self.size,
            _ => true,
        }
    }
}

struct FixedSizeFactory(usize);

impl KeywordFactory for FixedSizeFactory {
    type Output = FixedSize;

    fn accepts(&self, _value: Json) -> bool {
        true
    }

    fn builds(&self, _value: Json, k: FixedSize) -> bool {
        k.size == self.0
    }

    fn init(&self, _value: &Json) -> Option<FixedSize> {
        Some(FixedSize { size: self.0 })
    }
}

#[test]
fn custom_format_checks_strings_only() {
    let schema = Json::Object(vec![("format".to_string(), Json::Str("fixed-size-5".to_string()))]);
    let v = ValidatorBuilder::new()
        .format("fixed-size-5".to_string(), FixedSizeFactory(5))
        .build(&schema)
        .unwrap();
    assert!(v.is_valid(&Json::Str("abcde".to_string())));
    let errors = v.iter_errors(&Json::Str("abc".to_string()));
    assert_eq!(errors.len(), 1);
    assert_eq!(errors[0].kind, ErrorKind::Format);
    assert_eq!(errors[0].kind.keyword(), "format");
    assert!(v.is_valid(&Json::Integer(12)));
}

#[test]
fn unregistered_format_is_an_annotation() {
    let schema = Json::Object(vec![("format".to_string(), Json::Str("email".to_string()))]);
    let v = ValidatorBuilder::new()
        .format("fixed-size-5".to_string(), FixedSizeFactory(5))
        .build(&schema)
        .unwrap();
    assert!(v.is_valid(&Json::Str("not an address".to_string())));
    let bad = Json::Object(vec![("format".to_string(), Json::Integer(1))]);
    assert!(matches!(jsonschema::validator_for(&bad), Err(BuildError::InvalidKeyword { .. })));
}
