//! The value domain: the types a column can have and the values of each.
use vstd::prelude::*;
use crate::numeral::{i32_of, is_float_literal, is_float_text};

verus! {

/// The type of the values that a column holds.
#[derive(Debug, PartialEq, Eq, Hash, Clone, Copy, Structural)]
pub enum ColumnType {
    Integer,
    Float,
    String,
}

/// A decimal floating-point literal, kept as the text that was read.
///
/// Every value of this type holds a text that is a floating-point literal:
/// the only way to make one is to read it with [`FloatLiteral::parse`].
#[derive(Debug, PartialEq, Eq, Hash)]
pub struct FloatLiteral {
    text: String,
}

impl View for FloatLiteral {
    type V = Seq<char>;

    closed spec fn view(&self) -> Seq<char> {
        self.text@
    }
}

impl FloatLiteral {
    #[verifier::type_invariant]
    spec fn holds_a_literal(self) -> bool {
        is_float_text(self.text@)
    }

    /// Reads a floating-point literal, and refuses every other text.
    pub fn parse(text: &str) -> (r: Option<FloatLiteral>)
        ensures
            r is Some <==> is_float_text(text@),
            r matches Some(literal) ==> literal@ == text@,
    {
        if is_float_literal(text) {
            Some(FloatLiteral { text: text.to_owned() })
        } else {
            None
        }
    }

    /// The text of the literal.
    pub fn as_str(&self) -> (r: &str)
        ensures
            r@ == self@,
            is_float_text(r@),
    {
        proof {
            use_type_invariant(self);
        }
        self.text.as_str()
    }
}

impl Clone for FloatLiteral {
    fn clone(&self) -> (r: Self)
        ensures
            r@ == self@,
    {
        proof {
            use_type_invariant(self);
        }
        FloatLiteral { text: self.text.clone() }
    }
}

/// A value of one of the column types.
#[derive(Debug, PartialEq, Eq, Hash)]
pub enum ColumnValue {
    IntValue(i32),
    FloatValue(FloatLiteral),
    StringValue(String),
}

/// What a [`ColumnValue`] holds.
pub enum Value {
    Int(i32),
    Float(Seq<char>),
    Text(Seq<char>),
}

impl View for ColumnValue {
    type V = Value;

    open spec fn view(&self) -> Value {
        match self {
            ColumnValue::IntValue(v) => Value::Int(*v),
            ColumnValue::FloatValue(literal) => Value::Float(literal@),
            ColumnValue::StringValue(text) => Value::Text(text@),
        }
    }
}

impl Clone for ColumnValue {
    fn clone(&self) -> (r: Self)
        ensures
            r@ == self@,
    {
        match self {
            ColumnValue::IntValue(v) => ColumnValue::IntValue(*v),
            ColumnValue::FloatValue(literal) => ColumnValue::FloatValue(literal.clone()),
            ColumnValue::StringValue(text) => ColumnValue::StringValue(text.clone()),
        }
    }
}

/// The type that a value belongs to.
pub open spec fn type_of(value: Value) -> ColumnType {
    match value {
        Value::Int(_) => ColumnType::Integer,
        Value::Float(_) => ColumnType::Float,
        Value::Text(_) => ColumnType::String,
    }
}

/// The value of type `column_type` that `text` writes, if it writes one: a
/// signed 32-bit integer in base 10, a decimal floating-point literal, or,
/// for a string column, the text itself.
pub open spec fn value_of(column_type: ColumnType, text: Seq<char>) -> Option<Value> {
    match column_type {
        ColumnType::Integer => match i32_of(text) {
            Some(v) => Some(Value::Int(v)),
            None => None,
        },
        ColumnType::Float => if is_float_text(text) {
            Some(Value::Float(text))
        } else {
            None
        },
        ColumnType::String => Some(Value::Text(text)),
    }
}

/// `value` may stand in a column of type `column_type`: it is of that type,
/// and where it is a floating-point literal, its text is one.
pub open spec fn fits(value: Value, column_type: ColumnType) -> bool {
    &&& type_of(value) == column_type
    &&& value matches Value::Float(text) ==> is_float_text(text)
}

/// A value that a text writes for a type may stand in a column of that type.
pub proof fn lemma_written_value_fits(column_type: ColumnType, text: Seq<char>)
    requires
        value_of(column_type, text) is Some,
    ensures
        fits(value_of(column_type, text)->0, column_type),
{
}

} // verus!
