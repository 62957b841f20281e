//! Tables, and the execution of commands on them.
use vstd::prelude::*;
use std::collections::HashMap;
use crate::column::{parse_column_value, Column, ColumnModel};
use crate::column_types::{ColumnType, ColumnValue};
use crate::command::{pairs_of, Command, CommandModel};
use crate::error::{Error, SchemaError};
use crate::ident::{idents, random_id, unused_id};
use crate::row::{lemma_values_of_insert, values_of, Row, RowModel};
use crate::table_model::TableModel;

verus! {

/// What the columns hold, in their order.
pub open spec fn columns_of(columns: Seq<Column>) -> Seq<ColumnModel> {
    Seq::new(columns.len(), |i: int| columns[i]@)
}

/// What the rows hold, in their order.
pub open spec fn rows_of(rows: Seq<Row>) -> Seq<RowModel> {
    Seq::new(rows.len(), |i: int| rows[i]@)
}

/// How a command ends: either the table refuses it, says why, and stays as
/// it was; or the table becomes what [`TableModel::after`] describes, with
/// the identifier that [`TableModel::fresh_id`] names for `candidate`.
pub open spec fn outcome(
    before: TableModel,
    command: CommandModel,
    candidate: u128,
    after: TableModel,
    result: Result<(), Error>,
) -> bool {
    match result {
        Ok(()) => before.rejection(command) is None && after == before.after(
            command,
            before.fresh_id(command, candidate),
        ),
        Err(e) => before.rejection(command) == Some(e@) && after == before,
    }
}

/// A table: named, with typed columns and with rows of values.
///
/// Every table is well formed, in the sense of
/// [`TableModel::well_formed`], at all times.
#[derive(Debug, PartialEq, Eq)]
pub struct Table {
    id: u128,
    name: String,
    columns: Vec<Column>,
    rows: Vec<Row>,
}

impl View for Table {
    type V = TableModel;

    closed spec fn view(&self) -> TableModel {
        TableModel {
            id: self.id,
            name: self.name@,
            columns: columns_of(self.columns@),
            rows: rows_of(self.rows@),
        }
    }
}

impl Clone for Table {
    fn clone(&self) -> (r: Self)
        ensures
            r@ == self@,
    {
        proof {
            use_type_invariant(self);
        }
        let columns = self.columns.clone();
        let rows = self.rows.clone();
        assert(columns_of(columns@) =~= columns_of(self.columns@));
        assert(rows_of(rows@) =~= rows_of(self.rows@));
        Table { id: self.id, name: self.name.clone(), columns, rows }
    }
}

impl Table {
    #[verifier::type_invariant]
    spec fn is_well_formed(self) -> bool {
        self@.well_formed()
    }

    /// Makes an empty table of this name, with a random identifier.
    pub fn new(name: String) -> (r: Table)
        ensures
            r@.name == name@,
            r@.columns.len() == 0,
            r@.rows.len() == 0,
            r@.well_formed(),
    {
        Table { id: random_id(), name, columns: Vec::new(), rows: Vec::new() }
    }

    /// The identifier of the table.
    pub fn id(&self) -> (id: u128)
        ensures
            id == self@.id,
    {
        self.id
    }

    /// The name of the table.
    pub fn name(&self) -> (name: &String)
        ensures
            name@ == self@.name,
    {
        &self.name
    }

    /// The columns, in the order in which they were added.
    pub fn columns(&self) -> (columns: &Vec<Column>)
        ensures
            columns_of(columns@) == self@.columns,
            self@.well_formed(),
    {
        proof {
            use_type_invariant(self);
        }
        &self.columns
    }

    /// The rows, in the order in which they were added.
    pub fn rows(&self) -> (rows: &Vec<Row>)
        ensures
            rows_of(rows@) == self@.rows,
            self@.well_formed(),
    {
        proof {
            use_type_invariant(self);
        }
        &self.rows
    }

    /// The column of this name, if the table has one.
    pub fn column(&self, name: &str) -> (r: Option<&Column>)
        ensures
            match r {
                Some(column) => self@.has_column(name@) && column@ == self@.column_named(name@),
                None => !self@.has_column(name@),
            },
    {
        match self.find_column(&name.to_owned()) {
            Some(at) => Some(&self.columns[at]),
            None => None,
        }
    }

    /// The value that the row at `row` holds for the column of this name:
    /// none where there is no such row or no such column, and none where
    /// the row holds nothing for that column.
    pub fn value(&self, row: usize, name: &str) -> (r: Option<&ColumnValue>)
        ensures
            match r {
                Some(value) => {
                    &&& row < self@.rows.len()
                    &&& self@.has_column(name@)
                    &&& self@.rows[row as int].values.contains_key(self@.column_named(name@).id)
                    &&& self@.rows[row as int].values[self@.column_named(name@).id] == value@
                },
                None => row >= self@.rows.len() || !self@.has_column(name@)
                    || !self@.rows[row as int].values.contains_key(self@.column_named(name@).id),
            },
    {
        if row >= self.rows.len() {
            return None;
        }
        match self.column(name) {
            Some(column) => self.rows[row].get(column.id),
            None => None,
        }
    }

    /// Looks for the column of this name.
    fn find_column(&self, name: &String) -> (r: Option<usize>)
        ensures
            match r {
                Some(i) => self@.has_column(name@) && i == self@.column_index(name@),
                None => !self@.has_column(name@),
            },
    {
        proof {
            use_type_invariant(self);
        }
        let mut i: usize = 0;
        while i < self.columns.len()
            invariant
                i <= self.columns.len(),
                self@.column_names_differ(),
                forall|j: int| 0 <= j < i ==> self@.columns[j].name != name@,
            decreases self.columns.len() - i,
        {
            if self.columns[i].name == *name {
                assert(self@.columns[i as int].name == name@);
                return Some(i);
            }
            i += 1;
        }
        None
    }
}

impl Table {
    /// The identifiers that the columns carry are those that the view shows.
    proof fn lemma_column_idents(&self)
        ensures
            idents(self.columns@) == self@.column_ids(),
    {
        assert(idents(self.columns@) =~= self@.column_ids());
    }

    /// The identifiers that the rows carry are those that the view shows.
    proof fn lemma_row_idents(&self)
        ensures
            idents(self.rows@) == self@.row_ids(),
    {
        assert forall|i: int| 0 <= i < self.rows@.len() implies idents(self.rows@)[i]
            == self@.row_ids()[i] by {
            self.rows@[i].lemma_ident();
        }
        assert(idents(self.rows@) =~= self@.row_ids());
    }

    /// Takes the columns and the rows out of the table, which is left empty.
    fn take_parts(&mut self) -> (parts: (Vec<Column>, Vec<Row>))
        ensures
            columns_of(parts.0@) == old(self)@.columns,
            rows_of(parts.1@) == old(self)@.rows,
            idents(parts.0@) == old(self)@.column_ids(),
            idents(parts.1@) == old(self)@.row_ids(),
            old(self)@.well_formed(),
            final(self)@ == (TableModel { columns: Seq::empty(), rows: Seq::empty(), ..old(self)@ }),
    {
        proof {
            use_type_invariant(&*self);
            self.lemma_column_idents();
            self.lemma_row_idents();
        }
        let mut rows: Vec<Row> = Vec::new();
        std::mem::swap(&mut rows, &mut self.rows);
        let mut columns: Vec<Column> = Vec::new();
        std::mem::swap(&mut columns, &mut self.columns);
        assert(self@.columns =~= Seq::empty());
        assert(self@.rows =~= Seq::empty());
        (columns, rows)
    }

    /// Puts columns and rows into the table, which is empty.
    fn put_parts(&mut self, columns: Vec<Column>, rows: Vec<Row>)
        requires
            old(self)@.columns.len() == 0,
            old(self)@.rows.len() == 0,
            (TableModel {
                columns: columns_of(columns@),
                rows: rows_of(rows@),
                ..old(self)@
            }).well_formed(),
        ensures
            final(self)@ == (TableModel {
                columns: columns_of(columns@),
                rows: rows_of(rows@),
                ..old(self)@
            }),
    {
        assert(self@.rows =~= Seq::empty());
        self.columns = columns;
        assert(self@.rows =~= Seq::empty());
        self.rows = rows;
    }

    /// Adds a column, unless the name is taken.
    fn add_column(&mut self, name: String, column_type: ColumnType, candidate: u128) -> (r: Result<
        (),
        Error,
    >)
        ensures
            outcome(
                old(self)@,
                CommandModel::AddColumn(name@, column_type),
                candidate,
                final(self)@,
                r,
            ),
    {
        let ghost command = CommandModel::AddColumn(name@, column_type);
        match self.find_column(&name) {
            Some(_) => Err(Error::Schema(SchemaError::DuplicateColumn(name))),
            None => {
                let (mut columns, rows) = self.take_parts();
                let id = unused_id(&columns, candidate);
                proof {
                    old(self)@.lemma_after_is_well_formed(command, id);
                    assert(columns_of(columns@.push(Column { id, name, column_type }))
                        =~= old(self)@.columns.push(ColumnModel { id, name: name@, column_type }));
                }
                columns.push(Column { id, name, column_type });
                self.put_parts(columns, rows);
                Ok(())
            },
        }
    }

    /// Removes the column of this name, and with it the values that the
    /// rows hold for it.
    fn remove_column(&mut self, name: String, candidate: u128) -> (r: Result<(), Error>)
        ensures
            outcome(old(self)@, CommandModel::RemoveColumn(name@), candidate, final(self)@, r),
    {
        let ghost command = CommandModel::RemoveColumn(name@);
        match self.find_column(&name) {
            None => Err(Error::Schema(SchemaError::ColumnNotFound(name))),
            Some(at) => {
                let (mut columns, mut rows) = self.take_parts();
                let gone = columns.remove(at).id;
                let count = rows.len();
                let mut r: usize = 0;
                while r < count
                    invariant
                        r <= count,
                        rows@.len() == count,
                        count == old(self)@.rows.len(),
                        forall|j: int|
                            0 <= j < r ==> (#[trigger] rows@[j])@ == (RowModel {
                                id: old(self)@.rows[j].id,
                                values: old(self)@.rows[j].values.remove(gone),
                            }),
                        forall|j: int| r <= j < count ==> (#[trigger] rows@[j])@ == old(self)@.rows[j],
                    decreases count - r,
                {
                    rows[r].remove_value(gone);
                    r += 1;
                }
                proof {
                    old(self)@.lemma_after_is_well_formed(command, candidate);
                    assert(columns_of(columns@) =~= old(self)@.columns.remove(at as int));
                    assert(rows_of(rows@) =~= old(self)@.rows_without(gone));
                }
                self.put_parts(columns, rows);
                Ok(())
            },
        }
    }

    /// Adds a row, unless a pair names no column or writes no value of its
    /// column's type.
    fn add_row(&mut self, pairs: Vec<(String, String)>, candidate: u128) -> (r: Result<(), Error>)
        ensures
            outcome(
                old(self)@,
                CommandModel::AddRow(pairs_of(pairs@)),
                candidate,
                final(self)@,
                r,
            ),
    {
        let ghost texts = pairs_of(pairs@);
        let ghost command = CommandModel::AddRow(texts);
        let count = pairs.len();
        let mut places: Vec<usize> = Vec::new();
        let mut i: usize = 0;
        while i < count
            invariant
                i <= count,
                count == pairs@.len(),
                texts == pairs_of(pairs@),
                places@.len() == i,
                forall|j: int|
                    0 <= j < i ==> self@.has_column(#[trigger] texts[j].0) && places@[j]
                        == self@.column_index(texts[j].0),
            decreases count - i,
        {
            match self.find_column(&pairs[i].0) {
                None => {
                    proof {
                        assert(self@.first_missing_at(texts, i as int));
                        let k = choose|k: int| self@.first_missing_at(texts, k);
                        if k < i {
                            assert(self@.has_column(texts[k].0));
                        }
                    }
                    return Err(Error::Schema(SchemaError::ColumnNotFound(pairs[i].0.clone())));
                },
                Some(at) => {
                    places.push(at);
                },
            }
            i += 1;
        }
        proof {
            use_type_invariant(&*self);
            assert forall|k: int| !self@.first_missing_at(texts, k) by {
                if 0 <= k < count {
                    assert(self@.has_column(texts[k].0));
                }
            }
        }
        let mut values: HashMap<u128, ColumnValue> = HashMap::new();
        let mut i: usize = 0;
        assert(values_of(values@) =~= self@.row_values(texts.take(0)));
        while i < count
            invariant
                i <= count,
                count == pairs@.len(),
                texts == pairs_of(pairs@),
                places@.len() == count,
                forall|j: int|
                    0 <= j < count ==> self@.has_column(#[trigger] texts[j].0) && places@[j]
                        == self@.column_index(texts[j].0),
                forall|k: int| !self@.first_missing_at(texts, k),
                forall|j: int| 0 <= j < i ==> #[trigger] self@.value_at(texts, j) is Some,
                values_of(values@) == self@.row_values(texts.take(i as int)),
                columns_of(self.columns@) == self@.columns,
            decreases count - i,
        {
            assert(self@.has_column(texts[i as int].0));
            let column = &self.columns[places[i]];
            assert(column@ == self@.column_named(texts[i as int].0));
            match parse_column_value(&column.column_type, pairs[i].1.as_str()) {
                Err(e) => {
                    proof {
                        assert(self@.first_unreadable_at(texts, i as int));
                        let k = choose|k: int| self@.first_unreadable_at(texts, k);
                        if k < i {
                            assert(self@.value_at(texts, k) is Some);
                        }
                    }
                    return Err(Error::Data(e));
                },
                Ok(v) => {
                    proof {
                        lemma_values_of_insert(values@, column.id, v);
                        let longer = texts.take(i + 1);
                        assert(longer.drop_last() =~= texts.take(i as int));
                        assert(longer.last() == texts[i as int]);
                    }
                    let _ = values.insert(column.id, v);
                },
            }
            i += 1;
        }
        proof {
            assert(texts.take(count as int) =~= texts);
            self@.lemma_row_accepted(texts);
        }
        let (columns, mut rows) = self.take_parts();
        let id = unused_id(&rows, candidate);
        let row = Row::new(Some(id), values);
        proof {
            old(self)@.lemma_after_is_well_formed(command, id);
            assert(rows_of(rows@.push(row)) =~= old(self)@.rows.push(row@));
        }
        rows.push(row);
        self.put_parts(columns, rows);
        Ok(())
    }

    /// Applies one command to the table, all of it or nothing, where
    /// `candidate` was drawn as the identifier of what the command adds.
    ///
    /// The table either refuses the command, says why and stays as it was,
    /// or becomes what [`TableModel::after`] describes. A column or a row
    /// that is added gets `candidate` as its identifier, unless that is
    /// taken; then the next one that is free.
    pub fn execute_with(&mut self, command: Command, candidate: u128) -> (r: Result<(), Error>)
        ensures
            outcome(old(self)@, command@, candidate, final(self)@, r),
            final(self)@.well_formed(),
    {
        let r = match command {
            Command::AddColumn(name, column_type) => self.add_column(name, column_type, candidate),
            Command::RemoveColumn(name) => self.remove_column(name, candidate),
            Command::AddRow(pairs) => self.add_row(pairs, candidate),
        };
        proof {
            use_type_invariant(&*self);
        }
        r
    }

    /// Applies one command to the table, all of it or nothing.
    ///
    /// As [`Table::execute_with`], with an identifier drawn at random.
    pub fn execute(&mut self, command: Command) -> (r: Result<(), Error>)
        ensures
            exists|candidate: u128| outcome(old(self)@, command@, candidate, final(self)@, r),
            final(self)@.well_formed(),
    {
        self.execute_with(command, random_id())
    }
}

} // verus!
