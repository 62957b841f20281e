//! Rows: for some of a table's columns, a value each.
use vstd::prelude::*;
use std::collections::HashMap;
use crate::column_types::{ColumnValue, Value};
use crate::ident::{random_id, Identified};

verus! {

broadcast use vstd::std_specs::hash::group_hash_axioms;

/// A row of a table: an identifier, and values keyed by the identifiers of
/// the columns that they belong to. A row need not hold a value for every
/// column.
#[derive(Debug, PartialEq, Eq)]
pub struct Row {
    id: u128,
    column_values: HashMap<u128, ColumnValue>,
}

/// What a [`Row`] holds.
pub struct RowModel {
    pub id: u128,
    pub values: Map<u128, Value>,
}

/// What the values of a map hold, key by key.
pub open spec fn values_of(values: Map<u128, ColumnValue>) -> Map<u128, Value> {
    values.map_values(|v: ColumnValue| v@)
}

impl View for Row {
    type V = RowModel;

    closed spec fn view(&self) -> RowModel {
        RowModel { id: self.id, values: values_of(self.column_values@) }
    }
}

impl Clone for Row {
    fn clone(&self) -> (r: Self)
        ensures
            r@ == self@,
    {
        Row { id: self.id, column_values: self.column_values.clone() }
    }
}

impl Identified for Row {
    closed spec fn ident(&self) -> u128 {
        self.id
    }

    fn id(&self) -> (id: u128) {
        self.id
    }
}

impl Row {
    /// Makes a row with the identifier given, or with a random one where
    /// none is given.
    pub fn new(id: Option<u128>, column_values: HashMap<u128, ColumnValue>) -> (r: Row)
        ensures
            r@.values == values_of(column_values@),
            r@.values.dom().finite(),
            id matches Some(given) ==> r@.id == given,
    {
        let id = match id {
            Some(given) => given,
            None => random_id(),
        };
        proof {
            lemma_values_of_len(column_values@);
        }
        Row { id, column_values }
    }

    /// The identifier that the view shows is the one that the row carries.
    pub proof fn lemma_ident(&self)
        ensures
            self.ident() == self@.id,
            self@.values.dom().finite(),
    {
        lemma_values_of_len(self.column_values@);
    }

    /// The value that the row holds for the column `column_id`, if any.
    pub fn get(&self, column_id: u128) -> (r: Option<&ColumnValue>)
        ensures
            match r {
                Some(v) => self@.values.contains_key(column_id) && self@.values[column_id] == v@,
                None => !self@.values.contains_key(column_id),
            },
    {
        self.column_values.get(&column_id)
    }

    /// The number of values that the row holds.
    pub fn len(&self) -> (n: usize)
        ensures
            n == self@.values.len(),
    {
        proof {
            lemma_values_of_len(self.column_values@);
        }
        self.column_values.len()
    }

    /// Drops the value held for the column `column_id`, if there is one.
    pub fn remove_value(&mut self, column_id: u128)
        ensures
            final(self)@.id == old(self)@.id,
            final(self)@.values == old(self)@.values.remove(column_id),
    {
        let _ = self.column_values.remove(&column_id);
        assert(values_of(self.column_values@) =~= values_of(old(self).column_values@).remove(
            column_id,
        ));
    }
}

/// A map holds as many values as keys, whatever is said of the values.
proof fn lemma_values_of_len(values: Map<u128, ColumnValue>)
    requires
        values.dom().finite(),
    ensures
        values_of(values).len() == values.len(),
        values_of(values).dom().finite(),
{
    assert(values_of(values).dom() =~= values.dom());
}

/// Putting a value into a map puts what it holds into what the map holds.
pub proof fn lemma_values_of_insert(values: Map<u128, ColumnValue>, key: u128, value: ColumnValue)
    ensures
        values_of(values.insert(key, value)) == values_of(values).insert(key, value@),
{
    assert(values_of(values.insert(key, value)) =~= values_of(values).insert(key, value@));
}

} // verus!
