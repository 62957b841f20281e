//! A small tabular data store that lives in memory: named tables of typed
//! columns and of rows, changed by a closed set of commands, and kept between
//! sessions by a storage backend.
//!
//! A command is applied to a table as a whole or not at all, and a table is
//! well formed after every command: its columns differ in name and in
//! identifier, and every value of a row belongs to a column of the table and
//! is of that column's type. All of this is proved; what is taken on trust is
//! said where it stands.
pub mod column;
pub mod column_types;
pub mod command;
pub mod database;
pub mod error;
pub mod ident;
pub mod numeral;
pub mod row;
pub mod storables;
pub mod table;
pub mod table_model;
