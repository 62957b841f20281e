use rust_database::column_types::ColumnType;
use rust_database::command::Command;
use rust_database::storables::{copy_tables, RAMStorage, Storage};
use rust_database::table::Table;

fn sample() -> Vec<Table> {
    let mut users = Table::new("users".to_string());
    users.execute(Command::AddColumn("name".to_string(), ColumnType::String)).unwrap();
    users.execute(Command::AddColumn("age".to_string(), ColumnType::Integer)).unwrap();
    users
        .execute(Command::AddRow(vec![
            ("name".to_string(), "Ann".to_string()),
            ("age".to_string(), "30".to_string()),
        ]))
        .unwrap();
    users.execute(Command::AddRow(vec![("age".to_string(), "41".to_string())])).unwrap();
    let mut prices = Table::new("prices".to_string());
    prices.execute(Command::AddColumn("price".to_string(), ColumnType::Float)).unwrap();
    prices.execute(Command::AddRow(vec![("price".to_string(), "9.99".to_string())])).unwrap();
    vec![users, Table::new("empty".to_string()), prices]
}

#[test]
fn save_ram() {
    // Given: a RAMStorage
    let mut ram_storage = RAMStorage::new();
    let table = Table::new("test".to_string());
    let tables = vec![table];

    // When: we save a table
    let _ = ram_storage.save(&tables);

    // Then: the table is saved
    assert_eq!(ram_storage.get_number_of_tables(), 1);
}

#[test]
fn load_ram() {
    // Given: a RAMStorage with a table
    let mut ram_storage = RAMStorage::new();
    let table = Table::new("test".to_string());
    let tables = vec![table];
    let _ = ram_storage.save(&tables);

    // When: we call load
    let loaded_tables = ram_storage.load();

    // Then: the table is returned
    assert_eq!(loaded_tables.unwrap().len(), 1);
}

#[test]
fn test_get_number_of_tables() {
    // Given: a RAMStorage instance with some tables
    let mut storage: RAMStorage = RAMStorage::new();
    let tables = vec![Table::new("table1".to_string()), Table::new("table2".to_string())];
    storage.save(&tables).unwrap();

    // When: we call get_number_of_tables
    let num_tables = storage.get_number_of_tables();

    // Then: it should return the correct count
    assert_eq!(num_tables, 2);
}

#[test]
fn nothing_saved_is_an_empty_list() {
    let storage = RAMStorage::new();
    assert_eq!(storage.load().unwrap(), Vec::<Table>::new());
    assert_eq!(storage.get_number_of_tables(), 0);
    let storage = RAMStorage::default();
    assert_eq!(storage.load().unwrap(), Vec::<Table>::new());
    assert_eq!(storage.get_number_of_tables(), 0);
}

#[test]
fn what_is_saved_is_what_is_loaded() {
    let tables = sample();
    let mut storage = RAMStorage::new();
    assert_eq!(storage.save(&tables), Ok(()));
    let loaded = storage.load().unwrap();
    assert_eq!(loaded, tables);
    let names: Vec<&str> = loaded.iter().map(|table| table.name().as_str()).collect();
    assert_eq!(names, vec!["users", "empty", "prices"]);
    assert_eq!(storage.get_number_of_tables(), 3);
}

#[test]
fn saving_twice_is_saving_once() {
    let tables = sample();
    let mut once = RAMStorage::new();
    once.save(&tables).unwrap();
    let mut twice = RAMStorage::new();
    twice.save(&tables).unwrap();
    twice.save(&tables).unwrap();
    assert_eq!(twice.load().unwrap(), once.load().unwrap());
    assert_eq!(twice.load().unwrap(), tables);
    assert_eq!(twice.get_number_of_tables(), 3);
}

#[test]
fn a_save_replaces_the_whole_snapshot() {
    let mut storage = RAMStorage::new();
    storage.save(&sample()).unwrap();
    let other = vec![Table::new("other".to_string())];
    storage.save(&other).unwrap();
    assert_eq!(storage.load().unwrap(), other);
    assert_eq!(storage.get_number_of_tables(), 1);
    storage.save(&[]).unwrap();
    assert_eq!(storage.load().unwrap(), Vec::<Table>::new());
    assert_eq!(storage.get_number_of_tables(), 0);
}

#[test]
fn the_snapshot_is_a_copy() {
    let mut tables = sample();
    let mut storage = RAMStorage::new();
    storage.save(&tables).unwrap();
    let saved = copy_tables(&tables);
    tables[0].execute(Command::AddColumn("shoe".to_string(), ColumnType::Integer)).unwrap();
    assert_eq!(storage.load().unwrap(), saved);
    assert_ne!(storage.load().unwrap(), tables);
    let mut loaded = storage.load().unwrap();
    loaded.pop();
    assert_eq!(storage.load().unwrap(), saved);
}

#[test]
fn a_copy_of_tables_is_equal() {
    let tables = sample();
    assert_eq!(copy_tables(&tables), tables);
    assert_eq!(copy_tables(&[]), Vec::<Table>::new());
}
