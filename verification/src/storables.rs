//! Where tables are kept between sessions: what a storage backend owes, and
//! a backend that keeps them in memory.
use vstd::prelude::*;
use crate::error::StorageError;
use crate::table::Table;
use crate::table_model::TableModel;

verus! {

/// What the tables hold, in their order.
pub open spec fn tables_of(tables: Seq<Table>) -> Seq<TableModel> {
    Seq::new(tables.len(), |i: int| tables[i]@)
}

/// The snapshot that a backend holds after it was asked to save `tables`
/// over `before`: `tables`, whole, where it succeeded, and `before`,
/// untouched, where it failed.
pub open spec fn after_save(
    before: Seq<TableModel>,
    tables: Seq<TableModel>,
    succeeded: bool,
) -> Seq<TableModel> {
    if succeeded {
        tables
    } else {
        before
    }
}

/// A storage backend: it holds one snapshot, a list of tables, which a save
/// replaces as a whole.
pub trait Storage {
    /// The snapshot that the backend holds: the list last saved, and the
    /// empty list where nothing was saved yet.
    ///
    /// A backend that is verified says here what it holds. One that is not
    /// leaves this as it is, and nothing is known of its snapshot.
    open spec fn snapshot(&self) -> Seq<TableModel> {
        arbitrary()
    }

    /// The backend is one that cannot fail.
    ///
    /// A backend that is verified never to fail says so here.
    open spec fn never_fails(&self) -> bool {
        false
    }

    /// Replaces the snapshot by `tables`. Where that fails, the snapshot
    /// stays as it was.
    fn save(&mut self, tables: &[Table]) -> (r: Result<(), StorageError>)
        ensures
            final(self).snapshot() == after_save(
                old(self).snapshot(),
                tables_of(tables@),
                r is Ok,
            ),
            final(self).never_fails() == old(self).never_fails(),
            old(self).never_fails() ==> r is Ok,
    ;

    /// Hands out a copy of the snapshot.
    fn load(&self) -> (r: Result<Vec<Table>, StorageError>)
        ensures
            r matches Ok(tables) ==> tables_of(tables@) == self.snapshot(),
            self.never_fails() ==> r is Ok,
    ;

    /// The number of tables in the snapshot.
    fn get_number_of_tables(&self) -> (n: usize)
        ensures
            n == self.snapshot().len(),
    ;
}

/// Round trip: a load that follows a successful save of `tables` hands out
/// a list equal to `tables`, table for table and in the same order, whatever
/// the backend held before.
///
/// `saved` is the backend as the save left it, `loaded` what the load then
/// handed out.
pub proof fn lemma_save_then_load<S: Storage>(
    before: S,
    saved: S,
    tables: Seq<TableModel>,
    loaded: Seq<TableModel>,
)
    requires
        saved.snapshot() == after_save(before.snapshot(), tables, true),
        loaded == saved.snapshot(),
    ensures
        loaded == tables,
{
}

/// Saving the same list twice and then loading gives what saving it once
/// and then loading gives.
///
/// `once` is the backend after the first successful save, `twice` after the
/// second; `loaded_once` and `loaded_twice` are what a load hands out from
/// the one and from the other.
pub proof fn lemma_save_twice<S: Storage>(
    before: S,
    once: S,
    twice: S,
    tables: Seq<TableModel>,
    loaded_once: Seq<TableModel>,
    loaded_twice: Seq<TableModel>,
)
    requires
        once.snapshot() == after_save(before.snapshot(), tables, true),
        twice.snapshot() == after_save(once.snapshot(), tables, true),
        loaded_once == once.snapshot(),
        loaded_twice == twice.snapshot(),
    ensures
        loaded_twice == loaded_once,
        loaded_twice == tables,
{
}

/// Copies a list of tables.
pub fn copy_tables(tables: &[Table]) -> (r: Vec<Table>)
    ensures
        tables_of(r@) == tables_of(tables@),
{
    let mut r: Vec<Table> = Vec::new();
    let mut i: usize = 0;
    while i < tables.len()
        invariant
            i <= tables.len(),
            r@.len() == i,
            forall|j: int| 0 <= j < i ==> (#[trigger] r@[j])@ == tables@[j]@,
        decreases tables.len() - i,
    {
        r.push(tables[i].clone());
        i += 1;
    }
    assert(tables_of(r@) =~= tables_of(tables@));
    r
}

/// A backend that keeps the snapshot in memory. It never fails.
#[derive(Debug)]
pub struct RAMStorage {
    tables: Vec<Table>,
}

impl RAMStorage {
    /// Makes a backend that holds the empty snapshot.
    pub fn new() -> (r: RAMStorage)
        ensures
            r.snapshot() == Seq::<TableModel>::empty(),
            r.never_fails(),
    {
        let r = RAMStorage { tables: Vec::new() };
        assert(r.snapshot() =~= Seq::<TableModel>::empty());
        r
    }
}

impl Default for RAMStorage {
    fn default() -> (r: RAMStorage)
        ensures
            r.snapshot() == Seq::<TableModel>::empty(),
            r.never_fails(),
    {
        RAMStorage::new()
    }
}

impl Storage for RAMStorage {
    closed spec fn snapshot(&self) -> Seq<TableModel> {
        tables_of(self.tables@)
    }

    open spec fn never_fails(&self) -> bool {
        true
    }

    fn save(&mut self, tables: &[Table]) -> (r: Result<(), StorageError>) {
        self.tables = copy_tables(tables);
        Ok(())
    }

    fn load(&self) -> (r: Result<Vec<Table>, StorageError>) {
        Ok(copy_tables(self.tables.as_slice()))
    }

    fn get_number_of_tables(&self) -> (n: usize) {
        self.tables.len()
    }
}

} // verus!
