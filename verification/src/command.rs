//! The commands that change a table.
use vstd::prelude::*;
use crate::column_types::ColumnType;

verus! {

/// A change asked of a table. It has not been held against the table yet.
#[derive(Debug, PartialEq, Eq)]
pub enum Command {
    /// Add a column of this name and type.
    AddColumn(String, ColumnType),
    /// Remove the column of this name.
    RemoveColumn(String),
    /// Add a row that holds, for each column named, the value that the text
    /// beside the name writes.
    AddRow(Vec<(String, String)>),
}

/// What a [`Command`] holds.
pub enum CommandModel {
    AddColumn(Seq<char>, ColumnType),
    RemoveColumn(Seq<char>),
    AddRow(Seq<(Seq<char>, Seq<char>)>),
}

/// The names and texts of the pairs of an `AddRow`, in their order.
pub open spec fn pairs_of(pairs: Seq<(String, String)>) -> Seq<(Seq<char>, Seq<char>)> {
    Seq::new(pairs.len(), |i: int| (pairs[i].0@, pairs[i].1@))
}

impl View for Command {
    type V = CommandModel;

    open spec fn view(&self) -> CommandModel {
        match self {
            Command::AddColumn(name, column_type) => CommandModel::AddColumn(name@, *column_type),
            Command::RemoveColumn(name) => CommandModel::RemoveColumn(name@),
            Command::AddRow(pairs) => CommandModel::AddRow(pairs_of(pairs@)),
        }
    }
}

} // verus!
