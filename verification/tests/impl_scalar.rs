use juniper::scalar_token::{ParseError, ScalarToken};
use juniper::scalars::{
    CustomDateTime, DefaultName, Generated, Named, OtherOrder, Root, RootWithCustomScalarValue,
    ScalarDescription, ScalarSpecifiedByUrl, WithCustomScalarValue,
};
use juniper::value::{InputValue, ScalarValue, Value};

fn int_input(n: i32) -> InputValue {
    InputValue::Scalar(ScalarValue::Int(n))
}

fn string(s: &str) -> InputValue {
    InputValue::Scalar(ScalarValue::String(s.to_string()))
}

fn string_value(s: &str) -> Value {
    Value::Scalar(ScalarValue::String(s.to_string()))
}

#[test]
fn path_in_resolve_return_type() {
    assert_eq!(DefaultName(7).resolve(), Value::Scalar(ScalarValue::Int(7)));
    assert_eq!(DefaultName::from_input_value(&int_input(7)).unwrap().0, 7);
}

#[test]
fn default_name_introspection() {
    let info = Root::type_info("DefaultName").unwrap();
    assert_eq!(info.name, "DefaultName");
    assert_eq!(info.description, None);
}

#[test]
fn other_order_introspection() {
    let info = Root::type_info("OtherOrder").unwrap();
    assert_eq!(info.name, "OtherOrder");
    assert_eq!(info.description, None);
}

#[test]
fn named_introspection() {
    let info = Root::type_info("ANamedScalar").unwrap();
    assert_eq!(info.name, "ANamedScalar");
    assert_eq!(info.description, None);
}

#[test]
fn generic_introspection() {
    let info = Root::type_info("CustomDateTime").unwrap();
    assert_eq!(info.name, "CustomDateTime");
    assert_eq!(info.description, None);
}

#[test]
fn scalar_description_introspection() {
    let info = Root::type_info("ScalarDescription").unwrap();
    assert_eq!(info.name, "ScalarDescription");
    assert_eq!(
        info.description.as_deref(),
        Some("A sample scalar, represented as an integer")
    );
    assert_eq!(info.specified_by_url, None);
}

#[test]
fn scalar_specified_by_url_introspection() {
    let info = Root::type_info("ScalarSpecifiedByUrl").unwrap();
    assert_eq!(info.name, "ScalarSpecifiedByUrl");
    assert_eq!(
        info.specified_by_url.as_deref(),
        Some("https://tools.ietf.org/html/rfc4122")
    );
}

#[test]
fn generated_scalar_introspection() {
    let info = Root::type_info("Generated").unwrap();
    assert_eq!(info.name, "Generated");
    assert_eq!(info.description, None);
}

#[test]
fn resolves_with_custom_scalar_value() {
    assert_eq!(
        RootWithCustomScalarValue::with_custom_scalar_value().resolve(),
        Value::Scalar(ScalarValue::Int(0))
    );
    assert_eq!(
        RootWithCustomScalarValue::with_generic_scalar_value().resolve(),
        string_value("1970-01-01T00:00:00+00:00")
    );
}

#[test]
fn unknown_type_has_no_info() {
    assert!(Root::type_info("Named").is_none());
    assert!(Root::type_info("").is_none());
    assert!(Root::type_info("WithCustomScalarValue").is_none());
}

#[test]
fn root_fields_resolve() {
    assert_eq!(Root::default_name().resolve(), Value::Scalar(ScalarValue::Int(0)));
    assert_eq!(Root::other_order().resolve(), Value::Scalar(ScalarValue::Int(0)));
    assert_eq!(Root::named().resolve(), Value::Scalar(ScalarValue::Int(0)));
    assert_eq!(Root::scalar_description().resolve(), Value::Scalar(ScalarValue::Int(0)));
    assert_eq!(Root::scalar_specified_by_url().resolve(), Value::Scalar(ScalarValue::Int(0)));
    assert_eq!(Root::generated().resolve(), string_value("foo"));
    assert_eq!(Root::custom_date_time().resolve(), string_value("1970-01-01T00:00:00+00:00"));
}

#[test]
fn integer_inputs_are_read_and_others_shown_in_the_error() {
    assert_eq!(OtherOrder::from_input_value(&int_input(-5)).unwrap().0, -5);
    assert_eq!(Named::from_input_value(&int_input(i32::MAX)).unwrap().0, i32::MAX);
    assert_eq!(
        DefaultName::from_input_value(&string("x")).err().unwrap(),
        "Expected `Int`, found: \"x\""
    );
    assert_eq!(
        ScalarDescription::from_input_value(&InputValue::Null).err().unwrap(),
        "Expected `Int`, found: null"
    );
    assert_eq!(
        ScalarSpecifiedByUrl::from_input_value(&InputValue::Enum("RED".to_string())).err().unwrap(),
        "Expected `Int`, found: RED"
    );
    assert_eq!(
        DefaultName::from_input_value(&InputValue::Variable("v".to_string())).err().unwrap(),
        "Expected `Int`, found: $v"
    );
    assert_eq!(
        DefaultName::from_input_value(&InputValue::Scalar(ScalarValue::Boolean(true)))
            .err()
            .unwrap(),
        "Expected `Int`, found: true"
    );
    assert_eq!(
        WithCustomScalarValue::from_input_value(&InputValue::Scalar(ScalarValue::Boolean(false)))
            .err()
            .unwrap(),
        "Expected Int, found: false"
    );
}

#[test]
fn string_scalars_read_strings() {
    assert_eq!(Generated::from_input_value(&string("abc")).unwrap().0, "abc");
    assert_eq!(Generated::from_input_value(&int_input(1)).err().unwrap(), "Expected `String`");
    assert_eq!(Generated("z".to_string()).resolve(), string_value("z"));
    assert_eq!(
        CustomDateTime::from_input_value(&int_input(i32::MIN)).err().unwrap(),
        "Expected `String`, found: -2147483648"
    );
}

#[test]
fn date_times_are_read_in_rfc3339_and_resolved_in_utc() {
    let d = CustomDateTime::from_input_value(&string("1996-12-19T16:39:57-08:00")).unwrap();
    assert_eq!(d.resolve(), string_value("1996-12-20T00:39:57+00:00"));
    let e = CustomDateTime::from_input_value(&string("not a date")).err().unwrap();
    assert!(e.starts_with("Failed to parse CustomDateTime: "));
    assert!(e.len() > "Failed to parse CustomDateTime: ".len());
}

fn int_token(s: &str) -> ScalarToken {
    ScalarToken::Int(s.to_string())
}

fn string_token(s: &str) -> ScalarToken {
    ScalarToken::String(s.to_string())
}

#[test]
fn integer_literals_read_as_i32() {
    assert_eq!(DefaultName::from_str(&int_token("42")), Ok(ScalarValue::Int(42)));
    assert_eq!(DefaultName::from_str(&int_token("-2147483648")), Ok(ScalarValue::Int(i32::MIN)));
    assert_eq!(DefaultName::from_str(&int_token("+7")), Ok(ScalarValue::Int(7)));
    assert_eq!(DefaultName::from_str(&int_token("007")), Ok(ScalarValue::Int(7)));
    for bad in ["2147483648", "-2147483649", "", "-", "+", "1a", "99999999999999999999"] {
        assert_eq!(
            DefaultName::from_str(&int_token(bad)),
            Err(ParseError::UnexpectedToken(int_token(bad)))
        );
    }
    assert_eq!(
        WithCustomScalarValue::from_str(&string_token("1")),
        Err(ParseError::UnexpectedToken(string_token("1")))
    );
}

#[test]
fn string_literals_have_their_escapes_replaced() {
    assert_eq!(
        Generated::from_str(&string_token("a\\nb\\t\\\"\\\\\\/\\f\\b\\r")),
        Ok(ScalarValue::String("a\nb\t\"\\/\u{c}\u{8}\r".to_string()))
    );
    assert_eq!(
        Generated::from_str(&string_token("\\u0041\\u00e9\\u+041")),
        Ok(ScalarValue::String("Aé\u{41}".to_string()))
    );
    assert_eq!(
        CustomDateTime::from_str(&string_token("\\uD800")),
        Err(ParseError::UnknownEscapeSequence("\\uD800".to_string()))
    );
    assert_eq!(
        Generated::from_str(&string_token("\\u12")),
        Err(ParseError::UnknownEscapeSequence("\\u12".to_string()))
    );
    assert_eq!(
        Generated::from_str(&string_token("\\uzzzz")),
        Err(ParseError::UnknownEscapeSequence("\\uzzzz".to_string()))
    );
    assert_eq!(
        Generated::from_str(&string_token("\\x")),
        Err(ParseError::UnknownEscapeSequence("\\x".to_string()))
    );
    assert_eq!(Generated::from_str(&string_token("abc\\")), Err(ParseError::UnterminatedString));
    assert_eq!(
        Generated::from_str(&int_token("1")),
        Err(ParseError::UnexpectedToken(int_token("1")))
    );
}

#[test]
fn integers_written_in_decimal_read_back() {
    for n in [0, 7, -1, 10, 1234567, i32::MAX, i32::MIN] {
        let text = juniper::text::i32_to_string(n);
        assert_eq!(text, n.to_string());
        assert_eq!(DefaultName::from_str(&ScalarToken::Int(text)), Ok(ScalarValue::Int(n)));
    }
}

#[test]
fn strings_without_escapes_read_as_themselves() {
    for s in ["", "plain text", "ünïcödé", "quote \" inside"] {
        assert_eq!(Generated::from_str(&string_token(s)), Ok(ScalarValue::String(s.to_string())));
    }
}

#[test]
fn built_in_scalars_have_info() {
    for name in ["Int", "Float", "String", "Boolean", "ID"] {
        let info = Root::type_info(name).unwrap();
        assert_eq!(info.name, name);
        assert_eq!(info.description, None);
        assert_eq!(info.specified_by_url, None);
    }
    assert!(Root::type_info("int").is_none());
}
