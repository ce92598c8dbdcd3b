use vstd::prelude::*;
use crate::datetime::{
    parse_rfc3339, rfc3339_text, spec_parse_rfc3339, spec_rfc3339_text, utc_timestamp,
    utc_timestamp_nanos, Instant,
};
use crate::scalar_token::{
    parse_i32, parse_i32_text, unescape, unescape_string, ParseError, ParseErrorView, ScalarToken,
    ScalarTokenView,
};
use crate::value::{input_text, InputValue, InputView, ScalarValue, ScalarView, Value, ValueView};

verus! {

/// What introspection tells of a scalar type: its name, its description and
/// the address of its specification.
#[derive(Clone, Debug, PartialEq, Eq)]
pub struct ScalarMeta {
    pub name: String,
    pub description: Option<String>,
    pub specified_by_url: Option<String>,
}

pub struct MetaView {
    pub name: Seq<char>,
    pub description: Option<Seq<char>>,
    pub specified_by_url: Option<Seq<char>>,
}

pub open spec fn opt_view(s: Option<String>) -> Option<Seq<char>> {
    match s {
        Some(t) => Some(t@),
        None => None,
    }
}

impl View for ScalarMeta {
    type V = MetaView;

    open spec fn view(&self) -> MetaView {
        MetaView {
            name: self.name@,
            description: opt_view(self.description),
            specified_by_url: opt_view(self.specified_by_url),
        }
    }
}

fn meta(name: &str, description: Option<&str>, specified_by_url: Option<&str>) -> (m: ScalarMeta)
    ensures
        m@.name == name@,
        m@.description == (match description {
            Some(d) => Some(d@),
            None => None::<Seq<char>>,
        }),
        m@.specified_by_url == (match specified_by_url {
            Some(u) => Some(u@),
            None => None::<Seq<char>>,
        }),
{
    ScalarMeta {
        name: String::from_str(name),
        description: match description {
            Some(d) => Some(String::from_str(d)),
            None => None,
        },
        specified_by_url: match specified_by_url {
            Some(u) => Some(String::from_str(u)),
            None => None,
        },
    }
}

/// The error text for an input that is not of the kind a scalar reads.
pub open spec fn expected_text(prefix: Seq<char>, v: InputView) -> Seq<char> {
    prefix + input_text(v)
}

/// Reads an integer input, or gives `prefix` followed by how the input is
/// written.
pub fn int_from_input(v: &InputValue, prefix: &str) -> (r: Result<i32, String>)
    ensures
        match v@ {
            InputView::Scalar(ScalarView::Int(n)) => r == Ok::<i32, String>(n),
            _ => r matches Err(m) && m@ == expected_text(prefix@, v@),
        },
{
    match v.as_int_value() {
        Some(n) => Ok(n),
        None => {
            let text = v.to_text();
            Err(String::from_str(prefix).concat(text.as_str()))
        },
    }
}

/// What reading an integer literal gives: the `i32` it writes, else the
/// literal back as an unexpected token.
pub open spec fn int_token_result(t: ScalarTokenView) -> Result<ScalarView, ParseErrorView> {
    match t {
        ScalarTokenView::Int(s) => match parse_i32(s) {
            Some(n) => Ok(ScalarView::Int(n)),
            None => Err(ParseErrorView::UnexpectedToken(t)),
        },
        _ => Err(ParseErrorView::UnexpectedToken(t)),
    }
}

/// What reading a string literal gives: its text with the escapes replaced,
/// else the first bad escape, or the literal back as an unexpected token.
pub open spec fn string_token_result(t: ScalarTokenView) -> Result<ScalarView, ParseErrorView> {
    match t {
        ScalarTokenView::String(s) => match unescape(s) {
            Ok(u) => Ok(ScalarView::String(u)),
            Err(e) => Err(e),
        },
        _ => Err(ParseErrorView::UnexpectedToken(t)),
    }
}

pub open spec fn result_view(r: Result<ScalarValue, ParseError>) -> Result<ScalarView, ParseErrorView> {
    match r {
        Ok(s) => Ok(s@),
        Err(e) => Err(e@),
    }
}

fn copy_token(t: &ScalarToken) -> (c: ScalarToken)
    ensures
        c@ == t@,
{
    match t {
        ScalarToken::String(s) => ScalarToken::String(s.clone()),
        ScalarToken::Int(s) => ScalarToken::Int(s.clone()),
    }
}

/// Reads an integer literal, as `<i32 as ParseScalarValue>::from_str` does.
pub fn parse_int_token(t: &ScalarToken) -> (r: Result<ScalarValue, ParseError>)
    ensures
        result_view(r) == int_token_result(t@),
{
    match t {
        ScalarToken::Int(s) => match parse_i32_text(s.as_str()) {
            Some(n) => Ok(ScalarValue::Int(n)),
            None => Err(ParseError::UnexpectedToken(copy_token(t))),
        },
        _ => Err(ParseError::UnexpectedToken(copy_token(t))),
    }
}

/// Reads a string literal, as `<String as ParseScalarValue>::from_str` does.
pub fn parse_string_token(t: &ScalarToken) -> (r: Result<ScalarValue, ParseError>)
    ensures
        result_view(r) == string_token_result(t@),
{
    match t {
        ScalarToken::String(s) => match unescape_string(s.as_str()) {
            Ok(u) => Ok(ScalarValue::String(u)),
            Err(e) => Err(e),
        },
        _ => Err(ParseError::UnexpectedToken(copy_token(t))),
    }
}

/// An integer scalar named after its type.
pub struct DefaultName(pub i32);

impl DefaultName {
    /// The result value: the integer.
    pub fn resolve(&self) -> (v: Value)
        ensures
            v@ == ValueView::Scalar(ScalarView::Int(self.0)),
    {
        Value::scalar(ScalarValue::Int(self.0))
    }

    /// Reads an input: an integer, else an error that shows the input.
    pub fn from_input_value(v: &InputValue) -> (r: Result<DefaultName, String>)
        ensures
            match v@ {
                InputView::Scalar(ScalarView::Int(n)) => r matches Ok(x) && x.0 == n,
                _ => r matches Err(m) && m@ == expected_text("Expected `Int`, found: "@, v@),
            },
    {
        match int_from_input(v, "Expected `Int`, found: ") {
            Ok(n) => Ok(DefaultName(n)),
            Err(m) => Err(m),
        }
    }

    /// Reads a literal of a document: an integer that fits `i32`.
    pub fn from_str(t: &ScalarToken) -> (r: Result<ScalarValue, ParseError>)
        ensures
            result_view(r) == int_token_result(t@),
    {
        parse_int_token(t)
    }

    /// What introspection tells of this scalar.
    pub open spec fn meta_view() -> MetaView {
        MetaView { name: "DefaultName"@, description: None::<Seq<char>>, specified_by_url: None::<Seq<char>> }
    }

    pub fn meta() -> (m: ScalarMeta)
        ensures
            m@ == Self::meta_view(),
    {
        meta("DefaultName", None, None)
    }
}

/// An integer scalar named after its type, declared in the other order.
pub struct OtherOrder(pub i32);

impl OtherOrder {
    /// The result value: the integer.
    pub fn resolve(&self) -> (v: Value)
        ensures
            v@ == ValueView::Scalar(ScalarView::Int(self.0)),
    {
        Value::scalar(ScalarValue::Int(self.0))
    }

    /// Reads an input: an integer, else an error that shows the input.
    pub fn from_input_value(v: &InputValue) -> (r: Result<OtherOrder, String>)
        ensures
            match v@ {
                InputView::Scalar(ScalarView::Int(n)) => r matches Ok(x) && x.0 == n,
                _ => r matches Err(m) && m@ == expected_text("Expected `Int`, found: "@, v@),
            },
    {
        match int_from_input(v, "Expected `Int`, found: ") {
            Ok(n) => Ok(OtherOrder(n)),
            Err(m) => Err(m),
        }
    }

    /// Reads a literal of a document: an integer that fits `i32`.
    pub fn from_str(t: &ScalarToken) -> (r: Result<ScalarValue, ParseError>)
        ensures
            result_view(r) == int_token_result(t@),
    {
        parse_int_token(t)
    }

    /// What introspection tells of this scalar.
    pub open spec fn meta_view() -> MetaView {
        MetaView { name: "OtherOrder"@, description: None::<Seq<char>>, specified_by_url: None::<Seq<char>> }
    }

    pub fn meta() -> (m: ScalarMeta)
        ensures
            m@ == Self::meta_view(),
    {
        meta("OtherOrder", None, None)
    }
}

/// An integer scalar given the name `ANamedScalar`.
pub struct Named(pub i32);

impl Named {
    /// The result value: the integer.
    pub fn resolve(&self) -> (v: Value)
        ensures
            v@ == ValueView::Scalar(ScalarView::Int(self.0)),
    {
        Value::scalar(ScalarValue::Int(self.0))
    }

    /// Reads an input: an integer, else an error that shows the input.
    pub fn from_input_value(v: &InputValue) -> (r: Result<Named, String>)
        ensures
            match v@ {
                InputView::Scalar(ScalarView::Int(n)) => r matches Ok(x) && x.0 == n,
                _ => r matches Err(m) && m@ == expected_text("Expected `Int`, found: "@, v@),
            },
    {
        match int_from_input(v, "Expected `Int`, found: ") {
            Ok(n) => Ok(Named(n)),
            Err(m) => Err(m),
        }
    }

    /// Reads a literal of a document: an integer that fits `i32`.
    pub fn from_str(t: &ScalarToken) -> (r: Result<ScalarValue, ParseError>)
        ensures
            result_view(r) == int_token_result(t@),
    {
        parse_int_token(t)
    }

    /// What introspection tells of this scalar.
    pub open spec fn meta_view() -> MetaView {
        MetaView { name: "ANamedScalar"@, description: None::<Seq<char>>, specified_by_url: None::<Seq<char>> }
    }

    pub fn meta() -> (m: ScalarMeta)
        ensures
            m@ == Self::meta_view(),
    {
        meta("ANamedScalar", None, None)
    }
}

/// An integer scalar with a description.
pub struct ScalarDescription(pub i32);

impl ScalarDescription {
    /// The result value: the integer.
    pub fn resolve(&self) -> (v: Value)
        ensures
            v@ == ValueView::Scalar(ScalarView::Int(self.0)),
    {
        Value::scalar(ScalarValue::Int(self.0))
    }

    /// Reads an input: an integer, else an error that shows the input.
    pub fn from_input_value(v: &InputValue) -> (r: Result<ScalarDescription, String>)
        ensures
            match v@ {
                InputView::Scalar(ScalarView::Int(n)) => r matches Ok(x) && x.0 == n,
                _ => r matches Err(m) && m@ == expected_text("Expected `Int`, found: "@, v@),
            },
    {
        match int_from_input(v, "Expected `Int`, found: ") {
            Ok(n) => Ok(ScalarDescription(n)),
            Err(m) => Err(m),
        }
    }

    /// Reads a literal of a document: an integer that fits `i32`.
    pub fn from_str(t: &ScalarToken) -> (r: Result<ScalarValue, ParseError>)
        ensures
            result_view(r) == int_token_result(t@),
    {
        parse_int_token(t)
    }

    /// What introspection tells of this scalar.
    pub open spec fn meta_view() -> MetaView {
        MetaView { name: "ScalarDescription"@, description: Some("A sample scalar, represented as an integer"@), specified_by_url: None::<Seq<char>> }
    }

    pub fn meta() -> (m: ScalarMeta)
        ensures
            m@ == Self::meta_view(),
    {
        meta("ScalarDescription", Some("A sample scalar, represented as an integer"), None)
    }
}

/// An integer scalar with the address of its specification.
pub struct ScalarSpecifiedByUrl(pub i32);

impl ScalarSpecifiedByUrl {
    /// The result value: the integer.
    pub fn resolve(&self) -> (v: Value)
        ensures
            v@ == ValueView::Scalar(ScalarView::Int(self.0)),
    {
        Value::scalar(ScalarValue::Int(self.0))
    }

    /// Reads an input: an integer, else an error that shows the input.
    pub fn from_input_value(v: &InputValue) -> (r: Result<ScalarSpecifiedByUrl, String>)
        ensures
            match v@ {
                InputView::Scalar(ScalarView::Int(n)) => r matches Ok(x) && x.0 == n,
                _ => r matches Err(m) && m@ == expected_text("Expected `Int`, found: "@, v@),
            },
    {
        match int_from_input(v, "Expected `Int`, found: ") {
            Ok(n) => Ok(ScalarSpecifiedByUrl(n)),
            Err(m) => Err(m),
        }
    }

    /// Reads a literal of a document: an integer that fits `i32`.
    pub fn from_str(t: &ScalarToken) -> (r: Result<ScalarValue, ParseError>)
        ensures
            result_view(r) == int_token_result(t@),
    {
        parse_int_token(t)
    }

    /// What introspection tells of this scalar.
    pub open spec fn meta_view() -> MetaView {
        MetaView { name: "ScalarSpecifiedByUrl"@, description: None::<Seq<char>>, specified_by_url: Some("https://tools.ietf.org/html/rfc4122"@) }
    }

    pub fn meta() -> (m: ScalarMeta)
        ensures
            m@ == Self::meta_view(),
    {
        meta("ScalarSpecifiedByUrl", None, Some("https://tools.ietf.org/html/rfc4122"))
    }
}

/// An integer scalar of a schema with its own scalar values.
pub struct WithCustomScalarValue(pub i32);

impl WithCustomScalarValue {
    /// The result value: the integer.
    pub fn resolve(&self) -> (v: Value)
        ensures
            v@ == ValueView::Scalar(ScalarView::Int(self.0)),
    {
        Value::scalar(ScalarValue::Int(self.0))
    }

    /// Reads an input: an integer, else an error that shows the input.
    pub fn from_input_value(v: &InputValue) -> (r: Result<WithCustomScalarValue, String>)
        ensures
            match v@ {
                InputView::Scalar(ScalarView::Int(n)) => r matches Ok(x) && x.0 == n,
                _ => r matches Err(m) && m@ == expected_text("Expected Int, found: "@, v@),
            },
    {
        match int_from_input(v, "Expected Int, found: ") {
            Ok(n) => Ok(WithCustomScalarValue(n)),
            Err(m) => Err(m),
        }
    }

    /// Reads a literal of a document: an integer that fits `i32`.
    pub fn from_str(t: &ScalarToken) -> (r: Result<ScalarValue, ParseError>)
        ensures
            result_view(r) == int_token_result(t@),
    {
        parse_int_token(t)
    }

    /// What introspection tells of this scalar.
    pub open spec fn meta_view() -> MetaView {
        MetaView { name: "WithCustomScalarValue"@, description: None::<Seq<char>>, specified_by_url: None::<Seq<char>> }
    }

    pub fn meta() -> (m: ScalarMeta)
        ensures
            m@ == Self::meta_view(),
    {
        meta("WithCustomScalarValue", None, None)
    }
}

/// A string scalar.
pub struct Generated(pub String);

impl Generated {
    /// The result value: the string.
    pub fn resolve(&self) -> (v: Value)
        ensures
            v@ == ValueView::Scalar(ScalarView::String(self.0@)),
    {
        Value::scalar(ScalarValue::String(self.0.clone()))
    }

    /// Reads an input: a string, else an error.
    pub fn from_input_value(v: &InputValue) -> (r: Result<Generated, &'static str>)
        ensures
            match v@ {
                InputView::Scalar(ScalarView::String(t)) => r matches Ok(x) && x.0@ == t,
                _ => r matches Err(m) && m@ == "Expected `String`"@,
            },
    {
        match v.as_scalar_value() {
            Some(x) => match x.as_str() {
                Some(t) => Ok(Generated(t.to_owned())),
                None => Err("Expected `String`"),
            },
            None => Err("Expected `String`"),
        }
    }

    /// Reads a literal of a document: a string, with its escapes replaced.
    pub fn from_str(t: &ScalarToken) -> (r: Result<ScalarValue, ParseError>)
        ensures
            result_view(r) == string_token_result(t@),
    {
        parse_string_token(t)
    }

    /// What introspection tells of this scalar.
    pub open spec fn meta_view() -> MetaView {
        MetaView { name: "Generated"@, description: None::<Seq<char>>, specified_by_url: None::<Seq<char>> }
    }

    pub fn meta() -> (m: ScalarMeta)
        ensures
            m@ == Self::meta_view(),
    {
        meta("Generated", None, None)
    }
}

/// A date and time scalar, an instant in UTC written in RFC 3339.
pub struct CustomDateTime {
    secs: i64,
    nanos: u32,
}

impl CustomDateTime {
    #[verifier::type_invariant]
    spec fn has_date_time(self) -> bool {
        spec_rfc3339_text(self.secs, self.nanos) is Some
    }

    /// The instant held.
    pub closed spec fn instant(self) -> Instant {
        (self.secs, self.nanos)
    }

    /// The RFC 3339 text of the instant held.
    pub closed spec fn text(self) -> Seq<char> {
        spec_rfc3339_text(self.secs, self.nanos)->Some_0
    }

    /// The result value: the RFC 3339 text of the instant.
    pub fn resolve(&self) -> (v: Value)
        ensures
            spec_rfc3339_text(self.instant().0, self.instant().1) == Some(self.text()),
            v@ == ValueView::Scalar(ScalarView::String(self.text())),
    {
        proof {
            use_type_invariant(self);
        }
        match rfc3339_text(self.secs, self.nanos) {
            Some(t) => Value::scalar(ScalarValue::String(t)),
            None => Value::Null,
        }
    }

    /// Takes what reading an RFC 3339 text gave: the instant, else an error
    /// that carries the reader's message.
    pub fn from_parsed(parsed: Result<Instant, String>) -> (r: Result<CustomDateTime, String>)
        requires
            parsed matches Ok(p) ==> spec_rfc3339_text(p.0, p.1) is Some,
        ensures
            match parsed {
                Ok(p) => r matches Ok(d) && d.instant() == p,
                Err(e) => r matches Err(m) && m@ == "Failed to parse CustomDateTime: "@ + e@,
            },
    {
        match parsed {
            Ok((secs, nanos)) => Ok(CustomDateTime { secs, nanos }),
            Err(e) => Err(String::from_str("Failed to parse CustomDateTime: ").concat(e.as_str())),
        }
    }

    /// Reads an input: a string in RFC 3339, else an error that shows the
    /// input, or one that carries the reader's message.
    pub fn from_input_value(v: &InputValue) -> (r: Result<CustomDateTime, String>)
        ensures
            match v@ {
                InputView::Scalar(ScalarView::String(t)) => match spec_parse_rfc3339(t) {
                    Ok(p) => r matches Ok(d) && d.instant() == p,
                    Err(e) => r matches Err(m) && m@ == "Failed to parse CustomDateTime: "@ + e,
                },
                _ => r matches Err(m) && m@ == expected_text("Expected `String`, found: "@, v@),
            },
    {
        match v.as_string_value() {
            Some(t) => CustomDateTime::from_parsed(parse_rfc3339(t)),
            None => {
                let text = v.to_text();
                Err(String::from_str("Expected `String`, found: ").concat(text.as_str()))
            },
        }
    }

    /// Reads a literal of a document: a string, with its escapes replaced.
    pub fn from_str(t: &ScalarToken) -> (r: Result<ScalarValue, ParseError>)
        ensures
            result_view(r) == string_token_result(t@),
    {
        parse_string_token(t)
    }

    /// What introspection tells of this scalar.
    pub open spec fn meta_view() -> MetaView {
        MetaView { name: "CustomDateTime"@, description: None::<Seq<char>>, specified_by_url: Some("https://tools.ietf.org/html/rfc3339"@) }
    }

    pub fn meta() -> (m: ScalarMeta)
        ensures
            m@ == Self::meta_view(),
    {
        meta("CustomDateTime", None, Some("https://tools.ietf.org/html/rfc3339"))
    }
}

/// The query root whose fields give the scalars above.
pub struct Root;

impl Root {
    pub fn default_name() -> (s: DefaultName)
        ensures
            s.0 == 0,
    {
        DefaultName(0)
    }

    pub fn other_order() -> (s: OtherOrder)
        ensures
            s.0 == 0,
    {
        OtherOrder(0)
    }

    pub fn named() -> (s: Named)
        ensures
            s.0 == 0,
    {
        Named(0)
    }

    pub fn scalar_description() -> (s: ScalarDescription)
        ensures
            s.0 == 0,
    {
        ScalarDescription(0)
    }

    pub fn scalar_specified_by_url() -> (s: ScalarSpecifiedByUrl)
        ensures
            s.0 == 0,
    {
        ScalarSpecifiedByUrl(0)
    }

    pub fn generated() -> (s: Generated)
        ensures
            s.0@ == "foo"@,
    {
        Generated(String::from_str("foo"))
    }

    /// The instant zero nanoseconds after 1970-01-01T00:00:00Z.
    pub fn custom_date_time() -> (s: CustomDateTime)
        ensures
            s.instant() == (0i64, 0u32),
    {
        let (secs, nanos) = utc_timestamp_nanos(0);
        CustomDateTime { secs, nanos }
    }
}

/// The query root of a schema with its own scalar values.
pub struct RootWithCustomScalarValue;

impl RootWithCustomScalarValue {
    pub fn with_custom_scalar_value() -> (s: WithCustomScalarValue)
        ensures
            s.0 == 0,
    {
        WithCustomScalarValue(0)
    }

    /// The instant 0 seconds and 0 nanoseconds after 1970-01-01T00:00:00Z.
    pub fn with_generic_scalar_value() -> (s: CustomDateTime)
        ensures
            s.instant() == (0i64, 0u32),
    {
        let (secs, nanos) = utc_timestamp(0, 0);
        CustomDateTime { secs, nanos }
    }
}

/// The scalar types that the fields of the root give, in the order of the fields.
pub open spec fn root_scalar_types() -> Seq<MetaView> {
    seq![
        DefaultName::meta_view(),
        OtherOrder::meta_view(),
        Named::meta_view(),
        ScalarDescription::meta_view(),
        ScalarSpecifiedByUrl::meta_view(),
        Generated::meta_view(),
        CustomDateTime::meta_view(),
    ]
}

/// A built-in scalar type: it has a name and nothing else.
pub open spec fn builtin_view(name: Seq<char>) -> MetaView {
    MetaView { name, description: None::<Seq<char>>, specified_by_url: None::<Seq<char>> }
}

/// The scalar types that every schema has.
pub open spec fn builtin_scalar_types() -> Seq<MetaView> {
    seq![
        builtin_view("Int"@),
        builtin_view("Float"@),
        builtin_view("String"@),
        builtin_view("Boolean"@),
        builtin_view("ID"@),
    ]
}

/// The scalar types that introspection of the schema describes: those that
/// the root's fields give, then the built-in ones.
pub open spec fn schema_scalar_types() -> Seq<MetaView> {
    root_scalar_types() + builtin_scalar_types()
}

/// What introspection shows of each scalar type of the schema, as the types
/// are declared: their names, the one description (`ScalarDescription`'s),
/// and the two specification URLs (`ScalarSpecifiedByUrl`'s RFC 4122 and
/// `CustomDateTime`'s RFC 3339); no other type has a description or a URL.
pub open spec fn declared_scalar_info(name: Seq<char>) -> Option<MetaView> {
    if name == "ScalarDescription"@ {
        Some(
            MetaView {
                name,
                description: Some("A sample scalar, represented as an integer"@),
                specified_by_url: None,
            },
        )
    } else if name == "ScalarSpecifiedByUrl"@ {
        Some(
            MetaView {
                name,
                description: None,
                specified_by_url: Some("https://tools.ietf.org/html/rfc4122"@),
            },
        )
    } else if name == "CustomDateTime"@ {
        Some(
            MetaView {
                name,
                description: None,
                specified_by_url: Some("https://tools.ietf.org/html/rfc3339"@),
            },
        )
    } else if name == "DefaultName"@ || name == "OtherOrder"@ || name == "ANamedScalar"@ || name
        == "Generated"@ || name == "Int"@ || name == "Float"@ || name == "String"@ || name
        == "Boolean"@ || name == "ID"@ {
        Some(MetaView { name, description: None, specified_by_url: None })
    } else {
        None
    }
}

/// The first type among `types` that has the name `name`.
pub open spec fn find_type(types: Seq<MetaView>, name: Seq<char>) -> Option<MetaView>
    decreases types.len(),
{
    if types.len() == 0 {
        None
    } else if types[0].name == name {
        Some(types[0])
    } else {
        find_type(types.drop_first(), name)
    }
}

pub open spec fn meta_views(types: Seq<ScalarMeta>) -> Seq<MetaView> {
    types.map_values(|m: ScalarMeta| m@)
}

fn copy_text(s: &Option<String>) -> (c: Option<String>)
    ensures
        opt_view(c) == opt_view(*s),
{
    match s {
        Some(t) => Some(t.clone()),
        None => None,
    }
}

fn copy_meta(m: &ScalarMeta) -> (c: ScalarMeta)
    ensures
        c@ == m@,
{
    ScalarMeta {
        name: m.name.clone(),
        description: copy_text(&m.description),
        specified_by_url: copy_text(&m.specified_by_url),
    }
}

impl Root {
    /// The scalar types that the fields of the root give, in the order of the fields.
    pub fn scalar_types() -> (types: Vec<ScalarMeta>)
        ensures
            meta_views(types@) == root_scalar_types(),
    {
        let types = vec![
            DefaultName::meta(),
            OtherOrder::meta(),
            Named::meta(),
            ScalarDescription::meta(),
            ScalarSpecifiedByUrl::meta(),
            Generated::meta(),
            CustomDateTime::meta(),
        ];
        assert(meta_views(types@) =~= seq![
            DefaultName::meta_view(),
            OtherOrder::meta_view(),
            Named::meta_view(),
            ScalarDescription::meta_view(),
            ScalarSpecifiedByUrl::meta_view(),
            Generated::meta_view(),
            CustomDateTime::meta_view(),
        ]);
        types
    }

    /// The scalar types of the schema: those that the root's fields give,
    /// then the built-in ones.
    fn schema_scalars() -> (types: Vec<ScalarMeta>)
        ensures
            meta_views(types@) == schema_scalar_types(),
    {
        let mut types = Root::scalar_types();
        let ghost own = types@;
        types.push(meta("Int", None, None));
        types.push(meta("Float", None, None));
        types.push(meta("String", None, None));
        types.push(meta("Boolean", None, None));
        types.push(meta("ID", None, None));
        assert(meta_views(types@) =~= schema_scalar_types()) by {
            assert(meta_views(own) == root_scalar_types());
            assert forall|k: int| 0 <= k < own.len() implies #[trigger] types@[k]@ == root_scalar_types()[k] by {
                assert(meta_views(own)[k] == own[k]@);
            }
        }
        types
    }

    /// What introspection tells of the scalar type that has the given name:
    /// one that the root's fields give (`scalar_types`), or a built-in one
    /// (`Int`, `Float`, `String`, `Boolean`, `ID`). For any other name, the
    /// schema's object types included, the result is `None`, and a caller
    /// that needs the type treats that as a failure.
    pub fn type_info(name: &str) -> (info: Option<ScalarMeta>)
        ensures
            match info {
                Some(m) => find_type(schema_scalar_types(), name@) == Some(m@),
                None => find_type(schema_scalar_types(), name@) is None,
            },
            match info {
                Some(m) => declared_scalar_info(name@) == Some(m@),
                None => declared_scalar_info(name@) is None,
            },
    {
        proof {
            lemma_type_info_is_as_declared(name@);
        }
        let types = Root::schema_scalars();
        let wanted = String::from_str(name);
        let ghost all = meta_views(types@);
        let mut i: usize = 0;
        assert(all.skip(0) =~= all);
        while i < types.len()
            invariant
                i <= types@.len(),
                all == meta_views(types@),
                all == schema_scalar_types(),
                find_type(schema_scalar_types(), name@) == declared_scalar_info(name@),
                wanted@ == name@,
                find_type(all.skip(i as int), name@) == find_type(all, name@),
            decreases types@.len() - i,
        {
            assert(all.skip(i as int)[0] == types@[i as int]@);
            assert(all.skip(i as int).drop_first() =~= all.skip(i + 1));
            if types[i].name == wanted {
                return Some(copy_meta(&types[i]));
            }
            i += 1;
        }
        None
    }
}

proof fn lemma_find_type_first(types: Seq<MetaView>, name: Seq<char>)
    ensures
        (forall|j: int| 0 <= j < types.len() ==> (#[trigger] types[j]).name != name) ==> find_type(
            types,
            name,
        ) is None,
        forall|i: int|
            0 <= i < types.len() && (#[trigger] types[i]).name == name && (forall|j: int|
                0 <= j < i ==> (#[trigger] types[j]).name != name) ==> find_type(types, name) == Some(
                types[i],
            ),
    decreases types.len(),
{
    if types.len() > 0 {
        let rest = types.drop_first();
        lemma_find_type_first(rest, name);
        assert forall|i: int|
            0 <= i < types.len() && (#[trigger] types[i]).name == name && (forall|j: int|
                0 <= j < i ==> (#[trigger] types[j]).name != name) implies find_type(types, name)
            == Some(types[i]) by {
            if i > 0 {
                assert(types[0].name != name);
                assert(rest[i - 1] == types[i]);
                assert forall|j: int| 0 <= j < i - 1 implies (#[trigger] rest[j]).name != name by {
                    assert(rest[j] == types[j + 1]);
                }
            }
        }
        if forall|j: int| 0 <= j < types.len() ==> (#[trigger] types[j]).name != name {
            assert forall|j: int| 0 <= j < rest.len() implies (#[trigger] rest[j]).name != name by {
                assert(rest[j] == types[j + 1]);
            }
            assert(types[0].name != name);
        }
    }
}

/// Introspection of the schema's scalar types shows them as they are
/// declared: for every name, the type found is the declared one, with its
/// description and specification URL, and no type is found for a name that
/// is not declared.
pub proof fn lemma_type_info_is_as_declared(name: Seq<char>)
    ensures
        find_type(schema_scalar_types(), name) == declared_scalar_info(name),
{
    reveal_strlit("DefaultName");
    reveal_strlit("OtherOrder");
    reveal_strlit("ANamedScalar");
    reveal_strlit("ScalarDescription");
    reveal_strlit("ScalarSpecifiedByUrl");
    reveal_strlit("Generated");
    reveal_strlit("CustomDateTime");
    reveal_strlit("Int");
    reveal_strlit("Float");
    reveal_strlit("String");
    reveal_strlit("Boolean");
    reveal_strlit("ID");
    let all = schema_scalar_types();
    let names = seq![
        "DefaultName"@,
        "OtherOrder"@,
        "ANamedScalar"@,
        "ScalarDescription"@,
        "ScalarSpecifiedByUrl"@,
        "Generated"@,
        "CustomDateTime"@,
        "Int"@,
        "Float"@,
        "String"@,
        "Boolean"@,
        "ID"@,
    ];
    assert(all.len() == 12);
    assert forall|j: int| 0 <= j < 12 implies (#[trigger] all[j]).name == names[j] by {
        assert(all == root_scalar_types() + builtin_scalar_types());
        if j >= 7 {
            assert(all[j] == builtin_scalar_types()[j - 7]);
        }
    }
    assert forall|j: int, i: int| 0 <= j < 12 && 0 <= i < 12 && j != i implies (#[trigger] names[j]).len()
        != (#[trigger] names[i]).len() by {}
    lemma_find_type_first(all, name);
    if declared_scalar_info(name) is Some {
        let i = choose|i: int| 0 <= i < 12 && names[i] == name;
        assert(0 <= i < 12 && names[i] == name) by {
            if name == names[0] {} else if name == names[1] {} else if name == names[2] {}
            else if name == names[3] {} else if name == names[4] {} else if name == names[5] {}
            else if name == names[6] {} else if name == names[7] {} else if name == names[8] {}
            else if name == names[9] {} else if name == names[10] {} else {
                assert(name == names[11]);
            }
        }
        assert(all[i].name == name);
        assert forall|j: int| 0 <= j < i implies (#[trigger] all[j]).name != name by {
            assert(names[j].len() != names[i].len());
        }
        assert(find_type(all, name) == Some(all[i]));
    } else {
        assert forall|j: int| 0 <= j < 12 implies (#[trigger] all[j]).name != name by {
            assert(all[j].name == names[j]);
        }
    }
}

} // verus!
