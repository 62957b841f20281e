//! Columns, and the reading of the values that they hold.
use vstd::prelude::*;
use vstd::std_specs::cmp::PartialEqSpecImpl;
use crate::column_types::{fits, value_of, ColumnType, ColumnValue, FloatLiteral};
use crate::error::{DataError, Failure};
use crate::ident::{random_id, Identified};
use crate::numeral::parse_i32;

verus! {

/// A column of a table: an identifier, a name and the type of its values.
#[derive(Debug, Eq, Hash)]
pub struct Column {
    pub id: u128,
    pub name: String,
    pub column_type: ColumnType,
}

/// What a [`Column`] holds.
pub struct ColumnModel {
    pub id: u128,
    pub name: Seq<char>,
    pub column_type: ColumnType,
}

impl View for Column {
    type V = ColumnModel;

    open spec fn view(&self) -> ColumnModel {
        ColumnModel { id: self.id, name: self.name@, column_type: self.column_type }
    }
}

impl PartialEq for Column {
    /// Two columns are equal if they agree in identifier, name and type.
    fn eq(&self, other: &Column) -> (r: bool) {
        self.id == other.id && self.name == other.name && self.column_type == other.column_type
    }
}

impl PartialEqSpecImpl for Column {
    open spec fn obeys_eq_spec() -> bool {
        true
    }

    open spec fn eq_spec(&self, other: &Column) -> bool {
        self@ == other@
    }
}

impl Clone for Column {
    fn clone(&self) -> (r: Self)
        ensures
            r@ == self@,
    {
        Column { id: self.id, name: self.name.clone(), column_type: self.column_type }
    }
}

impl Identified for Column {
    open spec fn ident(&self) -> u128 {
        self.id
    }

    fn id(&self) -> (id: u128) {
        self.id
    }
}

impl Column {
    /// Makes a column with the identifier given, or with a random one where
    /// none is given.
    pub fn new(id: Option<u128>, name: String, column_type: ColumnType) -> (r: Column)
        ensures
            r@.name == name@,
            r@.column_type == column_type,
            id matches Some(given) ==> r@.id == given,
    {
        let id = match id {
            Some(given) => given,
            None => random_id(),
        };
        Column { id, name, column_type }
    }
}

/// Reads `value` as a value of type `column_type`.
///
/// The result depends on the type and the text alone: it is the value that
/// [`value_of`] names, and a failure exactly where that names none.
pub fn parse_column_value(column_type: &ColumnType, value: &str) -> (r: Result<
    ColumnValue,
    DataError,
>)
    ensures
        match r {
            Ok(v) => value_of(*column_type, value@) == Some(v@) && fits(v@, *column_type),
            Err(e) => value_of(*column_type, value@) is None && e@ == Failure::ValueParseError(
                *column_type,
                value@,
            ),
        },
{
    match column_type {
        ColumnType::Integer => match parse_i32(value) {
            Some(v) => Ok(ColumnValue::IntValue(v)),
            None => Err(DataError::ValueParseError(ColumnType::Integer, value.to_owned())),
        },
        ColumnType::Float => match FloatLiteral::parse(value) {
            Some(literal) => Ok(ColumnValue::FloatValue(literal)),
            None => Err(DataError::ValueParseError(ColumnType::Float, value.to_owned())),
        },
        ColumnType::String => Ok(ColumnValue::StringValue(value.to_owned())),
    }
}

} // verus!
