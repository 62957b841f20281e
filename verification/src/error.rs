//! The failures that the store reports.
use vstd::prelude::*;
use crate::column_types::ColumnType;

verus! {

/// What a failure says, whichever error type carries it.
pub enum Failure {
    /// The table already has a column of this name.
    DuplicateColumn(Seq<char>),
    /// The table has no column of this name.
    ColumnNotFound(Seq<char>),
    /// The database already has a table of this name.
    DuplicateTable(Seq<char>),
    /// This text writes no value of this type.
    ValueParseError(ColumnType, Seq<char>),
    /// The database has no table of this name.
    TableNotFound(Seq<char>),
    /// The storage backend failed, and this is what it said.
    IOFailure(Seq<char>),
}

/// A command that does not fit the schema.
#[derive(Debug, PartialEq, Eq)]
pub enum SchemaError {
    DuplicateColumn(String),
    ColumnNotFound(String),
    DuplicateTable(String),
}

/// A value that cannot be read.
#[derive(Debug, PartialEq, Eq)]
pub enum DataError {
    /// The type that was asked for, and the text that writes no value of it.
    ValueParseError(ColumnType, String),
}

/// A name that stands for nothing.
#[derive(Debug, PartialEq, Eq)]
pub enum LookupError {
    TableNotFound(String),
}

/// A failure of the storage backend, with the backend's own account of it.
#[derive(Debug, PartialEq, Eq)]
pub enum StorageError {
    IOFailure(String),
}

/// Any failure of a command.
#[derive(Debug, PartialEq, Eq)]
pub enum Error {
    Schema(SchemaError),
    Data(DataError),
    Lookup(LookupError),
}

impl View for SchemaError {
    type V = Failure;

    open spec fn view(&self) -> Failure {
        match self {
            SchemaError::DuplicateColumn(name) => Failure::DuplicateColumn(name@),
            SchemaError::ColumnNotFound(name) => Failure::ColumnNotFound(name@),
            SchemaError::DuplicateTable(name) => Failure::DuplicateTable(name@),
        }
    }
}

impl View for DataError {
    type V = Failure;

    open spec fn view(&self) -> Failure {
        match self {
            DataError::ValueParseError(column_type, text) => Failure::ValueParseError(
                *column_type,
                text@,
            ),
        }
    }
}

impl View for LookupError {
    type V = Failure;

    open spec fn view(&self) -> Failure {
        match self {
            LookupError::TableNotFound(name) => Failure::TableNotFound(name@),
        }
    }
}

impl View for StorageError {
    type V = Failure;

    open spec fn view(&self) -> Failure {
        match self {
            StorageError::IOFailure(detail) => Failure::IOFailure(detail@),
        }
    }
}

impl View for Error {
    type V = Failure;

    open spec fn view(&self) -> Failure {
        match self {
            Error::Schema(e) => e@,
            Error::Data(e) => e@,
            Error::Lookup(e) => e@,
        }
    }
}

} // verus!
