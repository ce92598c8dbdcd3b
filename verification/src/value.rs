use vstd::prelude::*;
use crate::text::{decimal, i32_to_string};

verus! {

/// A scalar value of a GraphQL document or result.
#[derive(Clone, Debug, PartialEq, Eq)]
pub enum ScalarValue {
    Int(i32),
    String(String),
    Boolean(bool),
}

/// A `ScalarValue` as mathematical values.
pub enum ScalarView {
    Int(i32),
    String(Seq<char>),
    Boolean(bool),
}

impl View for ScalarValue {
    type V = ScalarView;

    open spec fn view(&self) -> ScalarView {
        match self {
            ScalarValue::Int(n) => ScalarView::Int(*n),
            ScalarValue::String(s) => ScalarView::String(s@),
            ScalarValue::Boolean(b) => ScalarView::Boolean(*b),
        }
    }
}

impl ScalarValue {
    /// The text of a string scalar.
    pub fn as_str(&self) -> (s: Option<&str>)
        ensures
            match self@ {
                ScalarView::String(t) => s matches Some(x) && x@ == t,
                _ => s is None,
            },
    {
        match self {
            ScalarValue::String(s) => Some(s.as_str()),
            _ => None,
        }
    }
}

/// A value given to a field or an argument.
#[derive(Clone, Debug, PartialEq, Eq)]
pub enum InputValue {
    Null,
    Scalar(ScalarValue),
    Enum(String),
    Variable(String),
}

/// An `InputValue` as mathematical values.
pub enum InputView {
    Null,
    Scalar(ScalarView),
    Enum(Seq<char>),
    Variable(Seq<char>),
}

impl View for InputValue {
    type V = InputView;

    open spec fn view(&self) -> InputView {
        match self {
            InputValue::Null => InputView::Null,
            InputValue::Scalar(s) => InputView::Scalar(s@),
            InputValue::Enum(e) => InputView::Enum(e@),
            InputValue::Variable(v) => InputView::Variable(v@),
        }
    }
}

/// How a scalar is written in a document: a string in quotes, a number in
/// decimal, a boolean as `true` or `false`.
pub open spec fn scalar_text(s: ScalarView) -> Seq<char> {
    match s {
        ScalarView::Int(n) => decimal(n as int),
        ScalarView::String(t) => seq!['"'] + t + seq!['"'],
        ScalarView::Boolean(b) => if b {
            "true"@
        } else {
            "false"@
        },
    }
}

/// How an input value is written in a document.
pub open spec fn input_text(v: InputView) -> Seq<char> {
    match v {
        InputView::Null => "null"@,
        InputView::Scalar(s) => scalar_text(s),
        InputView::Enum(e) => e,
        InputView::Variable(x) => seq!['$'] + x,
    }
}

impl InputValue {
    /// The integer held, if this is an integer scalar.
    pub fn as_int_value(&self) -> (n: Option<i32>)
        ensures
            match self@ {
                InputView::Scalar(ScalarView::Int(m)) => n == Some(m),
                _ => n is None,
            },
    {
        match self {
            InputValue::Scalar(ScalarValue::Int(m)) => Some(*m),
            _ => None,
        }
    }

    /// The text held, if this is a string scalar.
    pub fn as_string_value(&self) -> (s: Option<&str>)
        ensures
            match self@ {
                InputView::Scalar(ScalarView::String(t)) => s matches Some(x) && x@ == t,
                _ => s is None,
            },
    {
        match self {
            InputValue::Scalar(ScalarValue::String(t)) => Some(t.as_str()),
            _ => None,
        }
    }

    /// The scalar held, if this is a scalar.
    pub fn as_scalar_value(&self) -> (s: Option<&ScalarValue>)
        ensures
            match self {
                InputValue::Scalar(x) => s == Some(x),
                _ => s is None,
            },
    {
        match self {
            InputValue::Scalar(x) => Some(x),
            _ => None,
        }
    }

    /// How this value is written in a document.
    pub fn to_text(&self) -> (s: String)
        ensures
            s@ == input_text(self@),
    {
        match self {
            InputValue::Null => String::from_str("null"),
            InputValue::Scalar(ScalarValue::Int(n)) => i32_to_string(*n),
            InputValue::Scalar(ScalarValue::String(t)) => {
                let s = String::from_str("\"");
                let s = s.concat(t.as_str());
                let s = s.concat("\"");
                proof {
                    reveal_strlit("\"");
                }
                assert(s@ =~= seq!['"'] + t@ + seq!['"']);
                s
            },
            InputValue::Scalar(ScalarValue::Boolean(b)) => if *b {
                String::from_str("true")
            } else {
                String::from_str("false")
            },
            InputValue::Enum(e) => e.clone(),
            InputValue::Variable(x) => {
                let s = String::from_str("$");
                let s = s.concat(x.as_str());
                proof {
                    reveal_strlit("$");
                }
                assert(s@ =~= seq!['$'] + x@);
                s
            },
        }
    }
}

/// A value a field resolves to.
#[derive(Clone, Debug, PartialEq, Eq)]
pub enum Value {
    Null,
    Scalar(ScalarValue),
}

/// A `Value` as mathematical values.
pub enum ValueView {
    Null,
    Scalar(ScalarView),
}

impl View for Value {
    type V = ValueView;

    open spec fn view(&self) -> ValueView {
        match self {
            Value::Null => ValueView::Null,
            Value::Scalar(s) => ValueView::Scalar(s@),
        }
    }
}

impl Value {
    /// A scalar result.
    pub fn scalar(s: ScalarValue) -> (v: Value)
        ensures
            v@ == ValueView::Scalar(s@),
    {
        Value::Scalar(s)
    }
}

} // verus!
