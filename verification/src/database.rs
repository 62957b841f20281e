//! The database: a storage backend and the tables held in memory, which are
//! found by name.
use vstd::prelude::*;
use crate::command::{Command, CommandModel};
use crate::error::{Error, Failure, LookupError, SchemaError, StorageError};
use crate::ident::random_id;
use crate::storables::{after_save, tables_of, Storage};
use crate::table::{outcome, Table};
use crate::table_model::TableModel;

verus! {

/// One of the tables has this name.
pub open spec fn has_table(tables: Seq<TableModel>, name: Seq<char>) -> bool {
    exists|i: int| 0 <= i < tables.len() && #[trigger] tables[i].name == name
}

/// The table at `i` is the first of this name.
pub open spec fn first_named_at(tables: Seq<TableModel>, name: Seq<char>, i: int) -> bool {
    &&& 0 <= i < tables.len()
    &&& tables[i].name == name
    &&& forall|j: int| 0 <= j < i ==> (#[trigger] tables[j]).name != name
}

/// No two tables share a name.
pub open spec fn names_differ(tables: Seq<TableModel>) -> bool {
    forall|i: int, j: int|
        0 <= i < j < tables.len() ==> (#[trigger] tables[i]).name != (#[trigger] tables[j]).name
}

/// The empty table of this identifier and name.
pub open spec fn empty_table(id: u128, name: Seq<char>) -> TableModel {
    TableModel { id, name, columns: Seq::empty(), rows: Seq::empty() }
}

/// How a command sent to the table named `name` ends: where no table has
/// that name, it fails and nothing changes; else the first table of that
/// name takes the command, as [`outcome`] describes, and the others stay as
/// they were.
pub open spec fn update_outcome(
    before: Seq<TableModel>,
    name: Seq<char>,
    command: CommandModel,
    candidate: u128,
    after: Seq<TableModel>,
    result: Result<(), Error>,
) -> bool {
    if has_table(before, name) {
        exists|i: int|
            {
                &&& first_named_at(before, name, i)
                &&& after.len() == before.len()
                &&& #[trigger] outcome(before[i], command, candidate, after[i], result)
                &&& after == before.update(i, after[i])
            }
    } else {
        &&& after == before
        &&& result matches Err(e)
        &&& e@ == Failure::TableNotFound(name)
    }
}

/// A command changes neither the number of the tables, nor the name or the
/// identifier of any, whether it is refused or not: so names that differed
/// before it differ after it.
pub proof fn lemma_update_keeps_names(
    before: Seq<TableModel>,
    name: Seq<char>,
    command: CommandModel,
    candidate: u128,
    after: Seq<TableModel>,
    result: Result<(), Error>,
)
    requires
        update_outcome(before, name, command, candidate, after, result),
    ensures
        after.len() == before.len(),
        forall|j: int|
            0 <= j < before.len() ==> (#[trigger] after[j]).name == before[j].name && after[j].id
                == before[j].id,
        names_differ(before) ==> names_differ(after),
{
    if has_table(before, name) {
        let i = choose|i: int|
            {
                &&& first_named_at(before, name, i)
                &&& after.len() == before.len()
                &&& #[trigger] outcome(before[i], command, candidate, after[i], result)
                &&& after == before.update(i, after[i])
            };
        before[i].lemma_after_keeps_identity(command, before[i].fresh_id(command, candidate));
        assert forall|j: int| 0 <= j < before.len() implies (#[trigger] after[j]).name
            == before[j].name && after[j].id == before[j].id by {
            if j != i {
                assert(after[j] == before.update(i, after[i])[j]);
            }
        }
    }
    if names_differ(before) {
        assert forall|i: int, j: int| 0 <= i < j < after.len() implies (#[trigger] after[i]).name != (
        #[trigger] after[j]).name by {
            assert(before[i].name != before[j].name);
        }
    }
}

/// A database: a storage backend, and a list of tables held in memory.
///
/// What is in memory and what the backend holds differ until the one is
/// flushed to the other or loaded from it.
#[derive(Debug)]
pub struct Database<T: Storage> {
    storage: T,
    tables: Vec<Table>,
}

impl<T: Storage> View for Database<T> {
    type V = Seq<TableModel>;

    /// The tables held in memory, in their order.
    closed spec fn view(&self) -> Seq<TableModel> {
        tables_of(self.tables@)
    }
}

impl<T: Storage> Database<T> {
    /// The storage backend.
    pub closed spec fn backend(&self) -> T {
        self.storage
    }

    /// Makes a database over this backend, with no table in memory.
    pub fn new(storage: T) -> (r: Database<T>)
        ensures
            r.backend() == storage,
            r@ == Seq::<TableModel>::empty(),
    {
        let r = Database { storage, tables: Vec::new() };
        assert(r@ =~= Seq::<TableModel>::empty());
        r
    }

    /// The storage backend.
    pub fn storage(&self) -> (r: &T)
        ensures
            *r == self.backend(),
    {
        &self.storage
    }

    /// Gives the storage backend back, and the tables in memory up.
    pub fn into_storage(self) -> (r: T)
        ensures
            r == self.backend(),
    {
        self.storage
    }

    /// The tables held in memory, in their order.
    pub fn tables(&self) -> (r: &Vec<Table>)
        ensures
            tables_of(r@) == self@,
    {
        &self.tables
    }

    /// Looks for the first table of this name.
    fn find_table(&self, name: &String) -> (r: Option<usize>)
        ensures
            match r {
                Some(i) => first_named_at(self@, name@, i as int),
                None => !has_table(self@, name@),
            },
    {
        let mut i: usize = 0;
        while i < self.tables.len()
            invariant
                i <= self.tables.len(),
                forall|j: int| 0 <= j < i ==> (#[trigger] self@[j]).name != name@,
            decreases self.tables.len() - i,
        {
            if *self.tables[i].name() == *name {
                return Some(i);
            }
            i += 1;
        }
        None
    }

    /// Adds an empty table of this name behind the others, unless a table
    /// of this name is there already.
    pub fn make_table(&mut self, table_name: String) -> (r: Result<(), SchemaError>)
        ensures
            final(self).backend() == old(self).backend(),
            match r {
                Ok(()) => !has_table(old(self)@, table_name@) && exists|id: u128|
                    final(self)@ == old(self)@.push(#[trigger] empty_table(id, table_name@)),
                Err(e) => has_table(old(self)@, table_name@) && e@ == Failure::DuplicateTable(
                    table_name@,
                ) && final(self)@ == old(self)@,
            },
            names_differ(old(self)@) ==> names_differ(final(self)@),
    {
        match self.find_table(&table_name) {
            Some(_) => Err(SchemaError::DuplicateTable(table_name)),
            None => {
                let table = Table::new(table_name);
                proof {
                    assert(table@.columns =~= Seq::empty());
                    assert(table@.rows =~= Seq::empty());
                    assert(table@ == empty_table(table@.id, table_name@));
                    assert(tables_of(self.tables@.push(table)) =~= self@.push(table@));
                }
                self.tables.push(table);
                Ok(())
            },
        }
    }

    /// Saves the tables in memory to the backend, as its snapshot. The
    /// tables in memory stay as they are, whether that succeeds or fails.
    pub fn flush(&mut self) -> (r: Result<(), StorageError>)
        ensures
            final(self)@ == old(self)@,
            final(self).backend().snapshot() == after_save(
                old(self).backend().snapshot(),
                old(self)@,
                r is Ok,
            ),
            final(self).backend().never_fails() == old(self).backend().never_fails(),
            old(self).backend().never_fails() ==> r is Ok,
    {
        self.storage.save(self.tables.as_slice())
    }

    /// Replaces the tables in memory by the backend's snapshot. Where the
    /// backend fails, they stay as they are.
    pub fn load_data(&mut self) -> (r: Result<(), StorageError>)
        ensures
            final(self).backend() == old(self).backend(),
            match r {
                Ok(()) => final(self)@ == old(self).backend().snapshot(),
                Err(_) => final(self)@ == old(self)@,
            },
            old(self).backend().never_fails() ==> r is Ok,
    {
        match self.storage.load() {
            Ok(tables) => {
                self.tables = tables;
                Ok(())
            },
            Err(e) => Err(e),
        }
    }

    /// Sends a command to the first table of this name, where `candidate`
    /// was drawn as the identifier of what the command adds.
    pub fn update_table_with(&mut self, table_name: &str, command: Command, candidate: u128) -> (r:
        Result<(), Error>)
        ensures
            final(self).backend() == old(self).backend(),
            update_outcome(old(self)@, table_name@, command@, candidate, final(self)@, r),
    {
        let name = table_name.to_owned();
        match self.find_table(&name) {
            None => Err(Error::Lookup(LookupError::TableNotFound(name))),
            Some(i) => {
                let r = self.tables[i].execute_with(command, candidate);
                proof {
                    assert(self@ =~= old(self)@.update(i as int, self@[i as int]));
                    assert(outcome(old(self)@[i as int], command@, candidate, self@[i as int], r));
                }
                r
            },
        }
    }

    /// Sends a command to the first table of this name.
    ///
    /// As [`Database::update_table_with`], with an identifier drawn at
    /// random.
    pub fn update_table(&mut self, table_name: &str, command: Command) -> (r: Result<(), Error>)
        ensures
            final(self).backend() == old(self).backend(),
            exists|candidate: u128|
                update_outcome(old(self)@, table_name@, command@, candidate, final(self)@, r),
    {
        self.update_table_with(table_name, command, random_id())
    }
}

} // verus!
