//! What a table holds, which commands it refuses, and what it becomes by
//! those that it does not refuse.
use vstd::prelude::*;
use crate::column::ColumnModel;
use crate::column_types::{fits, lemma_written_value_fits, value_of, ColumnType, Value};
use crate::command::CommandModel;
use crate::error::Failure;
use crate::ident::{first_unused, lemma_first_unused_is_unused};
use crate::row::RowModel;

verus! {

/// What a table holds: its identifier and name, its columns in the order in
/// which they were added, and its rows in the order in which they were
/// added.
pub struct TableModel {
    pub id: u128,
    pub name: Seq<char>,
    pub columns: Seq<ColumnModel>,
    pub rows: Seq<RowModel>,
}

impl TableModel {
    /// The table has a column of this name.
    pub open spec fn has_column(self, name: Seq<char>) -> bool {
        exists|i: int| 0 <= i < self.columns.len() && #[trigger] self.columns[i].name == name
    }

    /// The place of the column of this name among the columns.
    pub open spec fn column_index(self, name: Seq<char>) -> int
        recommends
            self.has_column(name),
    {
        choose|i: int| 0 <= i < self.columns.len() && #[trigger] self.columns[i].name == name
    }

    /// The column of this name.
    pub open spec fn column_named(self, name: Seq<char>) -> ColumnModel
        recommends
            self.has_column(name),
    {
        self.columns[self.column_index(name)]
    }

    /// The identifiers of the columns, in the columns' order.
    pub open spec fn column_ids(self) -> Seq<u128> {
        Seq::new(self.columns.len(), |i: int| self.columns[i].id)
    }

    /// The identifiers of the rows, in the rows' order.
    pub open spec fn row_ids(self) -> Seq<u128> {
        Seq::new(self.rows.len(), |i: int| self.rows[i].id)
    }

    /// No two columns share a name.
    pub open spec fn column_names_differ(self) -> bool {
        forall|i: int, j: int|
            0 <= i < j < self.columns.len() ==> #[trigger] self.columns[i].name
                != #[trigger] self.columns[j].name
    }

    /// No two columns share an identifier.
    pub open spec fn column_ids_differ(self) -> bool {
        forall|i: int, j: int|
            0 <= i < j < self.columns.len() ==> #[trigger] self.columns[i].id
                != #[trigger] self.columns[j].id
    }

    /// No two rows share an identifier.
    pub open spec fn row_ids_differ(self) -> bool {
        forall|i: int, j: int|
            0 <= i < j < self.rows.len() ==> #[trigger] self.rows[i].id != #[trigger] self.rows[j].id
    }

    /// One of the columns carries the identifier `id`, and `value` may stand
    /// in it.
    pub open spec fn has_place_for(self, id: u128, value: Value) -> bool {
        exists|c: int|
            0 <= c < self.columns.len() && #[trigger] self.columns[c].id == id && fits(
                value,
                self.columns[c].column_type,
            )
    }

    /// Every value of every row belongs to a column of the table and is of
    /// that column's type; and a row holds finitely many values.
    pub open spec fn rows_fit_columns(self) -> bool {
        forall|r: int|
            0 <= r < self.rows.len() ==> {
                &&& (#[trigger] self.rows[r]).values.dom().finite()
                &&& forall|id: u128| #[trigger]
                    self.rows[r].values.contains_key(id) ==> self.has_place_for(
                        id,
                        self.rows[r].values[id],
                    )
            }
    }

    /// What holds of every table, whatever was done to it.
    pub open spec fn well_formed(self) -> bool {
        &&& self.column_names_differ()
        &&& self.column_ids_differ()
        &&& self.row_ids_differ()
        &&& self.rows_fit_columns()
    }

    /// Pair `i` is the first that names no column of the table.
    pub open spec fn first_missing_at(self, pairs: Seq<(Seq<char>, Seq<char>)>, i: int) -> bool {
        &&& 0 <= i < pairs.len()
        &&& !self.has_column(pairs[i].0)
        &&& forall|j: int| 0 <= j < i ==> self.has_column(#[trigger] pairs[j].0)
    }

    /// The value that pair `i` writes for the column that it names, if its
    /// text writes one of that column's type.
    pub open spec fn value_at(self, pairs: Seq<(Seq<char>, Seq<char>)>, i: int) -> Option<Value> {
        value_of(self.column_named(pairs[i].0).column_type, pairs[i].1)
    }

    /// Pair `i` is the first whose text writes no value of the type of the
    /// column that it names.
    pub open spec fn first_unreadable_at(self, pairs: Seq<(Seq<char>, Seq<char>)>, i: int) -> bool {
        &&& 0 <= i < pairs.len()
        &&& self.value_at(pairs, i) is None
        &&& forall|j: int| 0 <= j < i ==> #[trigger] self.value_at(pairs, j) is Some
    }

    /// Why the table refuses the command, if it does.
    ///
    /// A column is not added under a name that is taken, nor removed under a
    /// name that is not. A row is refused for the first pair that names no
    /// column; if every pair names one, for the first whose text writes no
    /// value of its column's type.
    pub open spec fn rejection(self, command: CommandModel) -> Option<Failure> {
        match command {
            CommandModel::AddColumn(name, _) => if self.has_column(name) {
                Some(Failure::DuplicateColumn(name))
            } else {
                None
            },
            CommandModel::RemoveColumn(name) => if self.has_column(name) {
                None
            } else {
                Some(Failure::ColumnNotFound(name))
            },
            CommandModel::AddRow(pairs) => if exists|i: int| self.first_missing_at(pairs, i) {
                let i = choose|i: int| self.first_missing_at(pairs, i);
                Some(Failure::ColumnNotFound(pairs[i].0))
            } else if exists|i: int| self.first_unreadable_at(pairs, i) {
                let i = choose|i: int| self.first_unreadable_at(pairs, i);
                Some(
                    Failure::ValueParseError(
                        self.column_named(pairs[i].0).column_type,
                        pairs[i].1,
                    ),
                )
            } else {
                None
            },
        }
    }

    /// The values of the row that the pairs write: for each pair in turn,
    /// under the identifier of the column that it names, the value that its
    /// text writes. A later pair for the same column replaces an earlier one.
    pub open spec fn row_values(self, pairs: Seq<(Seq<char>, Seq<char>)>) -> Map<u128, Value>
        decreases pairs.len(),
    {
        if pairs.len() == 0 {
            Map::empty()
        } else {
            self.row_values(pairs.drop_last()).insert(
                self.column_named(pairs.last().0).id,
                self.value_at(pairs, pairs.len() - 1)->0,
            )
        }
    }

    /// The rows without the values that they held for the column `id`.
    pub open spec fn rows_without(self, id: u128) -> Seq<RowModel> {
        Seq::new(
            self.rows.len(),
            |r: int| RowModel { id: self.rows[r].id, values: self.rows[r].values.remove(id) },
        )
    }

    /// The identifier that a command's new column or row gets where
    /// `candidate` was drawn for it: `candidate` itself, unless a column or a
    /// row of the table carries it already; then the next one that none
    /// carries.
    pub open spec fn fresh_id(self, command: CommandModel, candidate: u128) -> u128 {
        match command {
            CommandModel::AddColumn(_, _) => first_unused(self.column_ids(), candidate),
            CommandModel::RemoveColumn(_) => candidate,
            CommandModel::AddRow(_) => first_unused(self.row_ids(), candidate),
        }
    }

    /// The table after a command that it does not refuse, where `id` is the
    /// identifier for what the command adds.
    ///
    /// A new column goes behind the others. A column that is removed takes
    /// with it the values that the rows held for it. A new row goes behind
    /// the others.
    pub open spec fn after(self, command: CommandModel, id: u128) -> TableModel {
        match command {
            CommandModel::AddColumn(name, column_type) => TableModel {
                columns: self.columns.push(ColumnModel { id, name, column_type }),
                ..self
            },
            CommandModel::RemoveColumn(name) => TableModel {
                columns: self.columns.remove(self.column_index(name)),
                rows: self.rows_without(self.column_named(name).id),
                ..self
            },
            CommandModel::AddRow(pairs) => TableModel {
                rows: self.rows.push(RowModel { id, values: self.row_values(pairs) }),
                ..self
            },
        }
    }

    /// The identifier `id` is free for what the command adds: no column
    /// carries it where a column is added, no row where a row is added.
    pub open spec fn is_free_for(self, command: CommandModel, id: u128) -> bool {
        match command {
            CommandModel::AddColumn(_, _) => !self.column_ids().contains(id),
            CommandModel::RemoveColumn(_) => true,
            CommandModel::AddRow(_) => !self.row_ids().contains(id),
        }
    }

    /// The identifier that [`TableModel::fresh_id`] names is free.
    pub proof fn lemma_fresh_id_is_free(self, command: CommandModel, candidate: u128)
        requires
            self.columns.len() <= u128::MAX,
            self.rows.len() <= u128::MAX,
        ensures
            self.is_free_for(command, self.fresh_id(command, candidate)),
    {
        lemma_first_unused_is_unused(self.column_ids(), candidate);
        lemma_first_unused_is_unused(self.row_ids(), candidate);
    }

    /// Where some pair names no column, one of them is the first to do so.
    proof fn lemma_first_missing(self, pairs: Seq<(Seq<char>, Seq<char>)>, i: int)
        requires
            0 <= i < pairs.len(),
            !self.has_column(pairs[i].0),
        ensures
            exists|k: int| self.first_missing_at(pairs, k),
        decreases i,
    {
        if forall|j: int| 0 <= j < i ==> self.has_column(#[trigger] pairs[j].0) {
            assert(self.first_missing_at(pairs, i));
        } else {
            let j = choose|j: int| 0 <= j < i && !self.has_column(#[trigger] pairs[j].0);
            self.lemma_first_missing(pairs, j);
        }
    }

    /// Where some pair's text cannot be read, one of them is the first.
    proof fn lemma_first_unreadable(self, pairs: Seq<(Seq<char>, Seq<char>)>, i: int)
        requires
            0 <= i < pairs.len(),
            self.value_at(pairs, i) is None,
        ensures
            exists|k: int| self.first_unreadable_at(pairs, k),
        decreases i,
    {
        if forall|j: int| 0 <= j < i ==> #[trigger] self.value_at(pairs, j) is Some {
            assert(self.first_unreadable_at(pairs, i));
        } else {
            let j = choose|j: int| 0 <= j < i && !(#[trigger] self.value_at(pairs, j) is Some);
            self.lemma_first_unreadable(pairs, j);
        }
    }

    /// A row is accepted exactly if each of its pairs names a column of the
    /// table and writes a value of that column's type.
    pub proof fn lemma_row_accepted(self, pairs: Seq<(Seq<char>, Seq<char>)>)
        ensures
            self.rejection(CommandModel::AddRow(pairs)) is None <==> forall|i: int|
                0 <= i < pairs.len() ==> self.has_column(#[trigger] pairs[i].0) && self.value_at(
                    pairs,
                    i,
                ) is Some,
    {
        if self.rejection(CommandModel::AddRow(pairs)) is None {
            assert forall|i: int| 0 <= i < pairs.len() implies self.has_column(
                #[trigger] pairs[i].0,
            ) && self.value_at(pairs, i) is Some by {
                if !self.has_column(pairs[i].0) {
                    self.lemma_first_missing(pairs, i);
                }
                if self.value_at(pairs, i) is None {
                    self.lemma_first_unreadable(pairs, i);
                }
            }
        }
        if forall|i: int|
            0 <= i < pairs.len() ==> self.has_column(#[trigger] pairs[i].0) && self.value_at(
                pairs,
                i,
            ) is Some {
            assert forall|k: int| !self.first_missing_at(pairs, k) by {
                if 0 <= k < pairs.len() {
                    assert(self.has_column(pairs[k].0));
                }
            }
            assert forall|k: int| !self.first_unreadable_at(pairs, k) by {
                if 0 <= k < pairs.len() {
                    assert(self.has_column(pairs[k].0) && self.value_at(pairs, k) is Some);
                }
            }
        }
    }

    /// The values that accepted pairs write are finitely many, and each may
    /// stand in a column of the table.
    proof fn lemma_row_values_fit(self, pairs: Seq<(Seq<char>, Seq<char>)>)
        requires
            forall|i: int|
                0 <= i < pairs.len() ==> self.has_column(#[trigger] pairs[i].0) && self.value_at(
                    pairs,
                    i,
                ) is Some,
        ensures
            self.row_values(pairs).dom().finite(),
            forall|id: u128| #[trigger]
                self.row_values(pairs).contains_key(id) ==> self.has_place_for(
                    id,
                    self.row_values(pairs)[id],
                ),
        decreases pairs.len(),
    {
        if pairs.len() > 0 {
            let front = pairs.drop_last();
            let last = pairs.len() - 1;
            assert forall|i: int| 0 <= i < front.len() implies self.has_column(
                #[trigger] front[i].0,
            ) && self.value_at(front, i) is Some by {
                assert(front[i] == pairs[i]);
                assert(self.has_column(pairs[i].0) && self.value_at(pairs, i) is Some);
            }
            self.lemma_row_values_fit(front);
            assert(self.has_column(pairs[last].0) && self.value_at(pairs, last) is Some);
            let column = self.column_named(pairs[last].0);
            lemma_written_value_fits(column.column_type, pairs[last].1);
            assert(self.columns[self.column_index(pairs[last].0)].id == column.id);
        }
    }

    /// A name that was just given to a new column cannot be given to
    /// another: the second command is refused as a duplicate, whatever type
    /// it asks for, and the table has exactly one column of that name, of
    /// the type that the first command gave it.
    pub proof fn lemma_second_add_column_is_refused(
        self,
        name: Seq<char>,
        first: ColumnType,
        second: ColumnType,
        id: u128,
    )
        requires
            self.rejection(CommandModel::AddColumn(name, first)) is None,
        ensures
            ({
                let next = self.after(CommandModel::AddColumn(name, first), id);
                &&& next.rejection(CommandModel::AddColumn(name, second)) == Some(
                    Failure::DuplicateColumn(name),
                )
                &&& next.columns.len() == self.columns.len() + 1
                &&& next.columns.last().name == name
                &&& next.columns.last().column_type == first
                &&& forall|i: int|
                    0 <= i < next.columns.len() && (#[trigger] next.columns[i]).name == name ==> i
                        == next.columns.len() - 1
            }),
    {
        let next = self.after(CommandModel::AddColumn(name, first), id);
        assert(next.columns[self.columns.len() as int].name == name);
        assert forall|i: int|
            0 <= i < next.columns.len() && (#[trigger] next.columns[i]).name == name implies i
            == next.columns.len() - 1 by {
            if i < self.columns.len() {
                assert(self.columns[i].name == name);
            }
        }
    }

    /// A row with a pair that names no column of the table is refused, and
    /// the failure names the first such pair's column.
    pub proof fn lemma_row_with_missing_column_is_refused(
        self,
        pairs: Seq<(Seq<char>, Seq<char>)>,
        i: int,
    )
        requires
            0 <= i < pairs.len(),
            !self.has_column(pairs[i].0),
        ensures
            exists|k: int|
                0 <= k <= i && self.first_missing_at(pairs, k) && self.rejection(
                    CommandModel::AddRow(pairs),
                ) == Some(Failure::ColumnNotFound(#[trigger] pairs[k].0)),
    {
        self.lemma_first_missing(pairs, i);
        let k = choose|k: int| self.first_missing_at(pairs, k);
        if k > i {
            assert(self.has_column(pairs[i].0));
        }
    }

    /// No command changes the identifier or the name of a table, nor, where
    /// it adds or removes a column, the rows' number, nor, where it adds a
    /// row, the columns.
    pub proof fn lemma_after_keeps_identity(self, command: CommandModel, id: u128)
        ensures
            self.after(command, id).id == self.id,
            self.after(command, id).name == self.name,
            command is AddRow ==> self.after(command, id).columns == self.columns
                && self.after(command, id).rows.len() == self.rows.len() + 1,
            !(command is AddRow) ==> self.after(command, id).rows.len() == self.rows.len(),
    {
    }

    /// A well-formed table is well formed again with a new column behind the
    /// others, if neither the name nor the identifier is taken.
    proof fn lemma_add_column_is_well_formed(
        self,
        name: Seq<char>,
        column_type: ColumnType,
        id: u128,
    )
        requires
            self.well_formed(),
            !self.has_column(name),
            !self.column_ids().contains(id),
        ensures
            self.after(CommandModel::AddColumn(name, column_type), id).well_formed(),
    {
        let next = self.after(CommandModel::AddColumn(name, column_type), id);
        let count = self.columns.len() as int;
        assert forall|i: int, j: int| 0 <= i < j < next.columns.len() implies (
        #[trigger] next.columns[i]).name != (#[trigger] next.columns[j]).name by {
            if j == count {
                assert(self.columns[i].name != name);
            } else {
                assert(self.columns[i].name != self.columns[j].name);
            }
        }
        assert forall|i: int, j: int| 0 <= i < j < next.columns.len() implies (
        #[trigger] next.columns[i]).id != (#[trigger] next.columns[j]).id by {
            if j == count {
                assert(self.column_ids()[i] == self.columns[i].id);
            } else {
                assert(self.columns[i].id != self.columns[j].id);
            }
        }
        assert forall|r: int, k: u128|
            0 <= r < next.rows.len() && #[trigger] next.rows[r].values.contains_key(
                k,
            ) implies next.has_place_for(k, next.rows[r].values[k]) by {
            assert(self.has_place_for(k, self.rows[r].values[k]));
            let c = choose|c: int|
                0 <= c < count && #[trigger] self.columns[c].id == k && fits(
                    self.rows[r].values[k],
                    self.columns[c].column_type,
                );
            assert(next.columns[c].id == k);
        }
    }

    /// A well-formed table is well formed again without one of its columns
    /// and without the values that the rows held for it.
    proof fn lemma_remove_column_is_well_formed(self, name: Seq<char>)
        requires
            self.well_formed(),
            self.has_column(name),
        ensures
            self.after(CommandModel::RemoveColumn(name), 0).well_formed(),
    {
        let next = self.after(CommandModel::RemoveColumn(name), 0);
        let at = self.column_index(name);
        // The place in the old list of the column that now stands at `i`.
        let old_place = |i: int|
            if i < at {
                i
            } else {
                i + 1
            };
        assert forall|i: int, j: int| 0 <= i < j < next.columns.len() implies (
        #[trigger] next.columns[i]).name != (#[trigger] next.columns[j]).name by {
            assert(self.columns[old_place(i)].name != self.columns[old_place(j)].name);
        }
        assert forall|i: int, j: int| 0 <= i < j < next.columns.len() implies (
        #[trigger] next.columns[i]).id != (#[trigger] next.columns[j]).id by {
            assert(self.columns[old_place(i)].id != self.columns[old_place(j)].id);
        }
        assert forall|i: int, j: int| 0 <= i < j < next.rows.len() implies (
        #[trigger] next.rows[i]).id != (#[trigger] next.rows[j]).id by {
            assert(self.rows[i].id != self.rows[j].id);
        }
        assert forall|r: int| 0 <= r < next.rows.len() implies (
        #[trigger] next.rows[r]).values.dom().finite() by {
            assert(self.rows[r].values.dom().finite());
        }
        assert forall|r: int, k: u128|
            0 <= r < next.rows.len() && #[trigger] next.rows[r].values.contains_key(
                k,
            ) implies next.has_place_for(k, next.rows[r].values[k]) by {
            assert(self.rows[r].values.contains_key(k));
            assert(self.has_place_for(k, self.rows[r].values[k]));
            let c = choose|c: int|
                0 <= c < self.columns.len() && #[trigger] self.columns[c].id == k && fits(
                    self.rows[r].values[k],
                    self.columns[c].column_type,
                );
            let c1 = if c < at {
                c
            } else {
                c - 1
            };
            assert(next.columns[c1].id == k);
        }
    }

    /// A well-formed table is well formed again with a new row behind the
    /// others, if the row's values are those that accepted pairs write and
    /// its identifier is not taken.
    proof fn lemma_add_row_is_well_formed(self, pairs: Seq<(Seq<char>, Seq<char>)>, id: u128)
        requires
            self.well_formed(),
            self.rejection(CommandModel::AddRow(pairs)) is None,
            !self.row_ids().contains(id),
        ensures
            self.after(CommandModel::AddRow(pairs), id).well_formed(),
    {
        let next = self.after(CommandModel::AddRow(pairs), id);
        let count = self.rows.len() as int;
        self.lemma_row_accepted(pairs);
        self.lemma_row_values_fit(pairs);
        assert forall|i: int, j: int| 0 <= i < j < next.rows.len() implies (
        #[trigger] next.rows[i]).id != (#[trigger] next.rows[j]).id by {
            if j == count {
                assert(self.row_ids()[i] == self.rows[i].id);
            } else {
                assert(self.rows[i].id != self.rows[j].id);
            }
        }
        assert forall|r: int| 0 <= r < next.rows.len() implies (
        #[trigger] next.rows[r]).values.dom().finite() by {
            if r < count {
                assert(self.rows[r].values.dom().finite());
            }
        }
        assert forall|r: int, k: u128|
            0 <= r < next.rows.len() && #[trigger] next.rows[r].values.contains_key(
                k,
            ) implies next.has_place_for(k, next.rows[r].values[k]) by {
            if r < count {
                assert(self.has_place_for(k, self.rows[r].values[k]));
            }
        }
    }

    /// A table that is well formed is so again after every command that it
    /// does not refuse, if what the command adds gets a free identifier.
    pub proof fn lemma_after_is_well_formed(self, command: CommandModel, id: u128)
        requires
            self.well_formed(),
            self.rejection(command) is None,
            self.is_free_for(command, id),
        ensures
            self.after(command, id).well_formed(),
    {
        match command {
            CommandModel::AddColumn(name, column_type) => {
                self.lemma_add_column_is_well_formed(name, column_type, id);
            },
            CommandModel::RemoveColumn(name) => {
                self.lemma_remove_column_is_well_formed(name);
            },
            CommandModel::AddRow(pairs) => {
                self.lemma_add_row_is_well_formed(pairs, id);
            },
        }
    }
}

} // verus!
