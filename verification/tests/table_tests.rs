use rust_database::column_types::{ColumnType, ColumnValue};
use rust_database::command::Command;
use rust_database::error::{DataError, Error, SchemaError};
use rust_database::ident::Identified;
use rust_database::table::Table;

fn pairs(items: &[(&str, &str)]) -> Vec<(String, String)> {
    items.iter().map(|(name, text)| (name.to_string(), text.to_string())).collect()
}

fn add_column_to(table: &mut Table, name: &str, column_type: ColumnType) -> Result<(), Error> {
    table.execute(Command::AddColumn(name.to_string(), column_type))
}

fn users() -> Table {
    let mut table = Table::new("users".to_string());
    add_column_to(&mut table, "name", ColumnType::String).unwrap();
    add_column_to(&mut table, "age", ColumnType::Integer).unwrap();
    add_column_to(&mut table, "height", ColumnType::Float).unwrap();
    table
}

fn column_id(table: &Table, name: &str) -> u128 {
    table.columns().iter().find(|column| column.name == name).unwrap().id
}

#[test]
fn add_column() {
    // Given: a database table
    let mut table = Table::new("test".to_string());

    // When: we add a column to the table
    let add_column_command = Command::AddColumn("test".to_string(), ColumnType::Integer);
    let _ = table.execute(add_column_command);

    // Then: the table has one column
    assert_eq!(table.columns().len(), 1);
}

#[test]
fn add_row() {
    // Given: a table and a column and a row
    let mut table = Table::new("test".to_string());
    let _ = table.execute(Command::AddColumn("test".to_string(), ColumnType::Integer));

    // When: we row to the table
    let command = Command::AddRow(vec![("test".to_string(), "5".to_string())]);
    let _ = table.execute(command);

    // Then: the table has one row
    assert_eq!(table.rows().len(), 1);
    let id = table.columns()[0].id;
    assert_eq!(table.rows()[0].get(id), Some(&ColumnValue::IntValue(5)));
}

#[test]
fn a_new_table_is_empty() {
    let table = Table::new("users".to_string());
    assert_eq!(table.name(), "users");
    assert_eq!(table.columns().len(), 0);
    assert_eq!(table.rows().len(), 0);
    assert_ne!(table.id(), Table::new("users".to_string()).id());
    assert_eq!((table.id() >> 76) & 0xf, 4);
}

#[test]
fn columns_stand_in_the_order_in_which_they_were_added() {
    let table = users();
    let names: Vec<&str> = table.columns().iter().map(|column| column.name.as_str()).collect();
    assert_eq!(names, vec!["name", "age", "height"]);
    let types: Vec<ColumnType> = table.columns().iter().map(|column| column.column_type).collect();
    assert_eq!(types, vec![ColumnType::String, ColumnType::Integer, ColumnType::Float]);
}

#[test]
fn a_second_column_of_the_same_name_is_refused() {
    let mut table = Table::new("users".to_string());
    assert_eq!(add_column_to(&mut table, "x", ColumnType::Integer), Ok(()));
    let before = table.clone();
    assert_eq!(
        add_column_to(&mut table, "x", ColumnType::Float),
        Err(Error::Schema(SchemaError::DuplicateColumn("x".to_string())))
    );
    assert_eq!(table, before);
    assert_eq!(table.columns().len(), 1);
    assert_eq!(table.columns()[0].name, "x");
    assert_eq!(table.columns()[0].column_type, ColumnType::Integer);
}

#[test]
fn a_row_for_a_missing_column_is_refused() {
    let mut table = users();
    table.execute(Command::AddRow(pairs(&[("age", "30")]))).unwrap();
    let before = table.clone();
    assert_eq!(
        table.execute(Command::AddRow(pairs(&[("missing", "1")]))),
        Err(Error::Schema(SchemaError::ColumnNotFound("missing".to_string())))
    );
    assert_eq!(table.rows().len(), 1);
    assert_eq!(table, before);
}

#[test]
fn a_column_and_then_a_row() {
    let mut table = Table::new("users".to_string());
    assert_eq!(add_column_to(&mut table, "age", ColumnType::Integer), Ok(()));
    assert_eq!(table.columns().len(), 1);
    assert_eq!(table.execute(Command::AddRow(pairs(&[("age", "30")]))), Ok(()));
    assert_eq!(table.rows().len(), 1);
    assert_eq!(table.value(0, "age"), Some(&ColumnValue::IntValue(30)));
    let age = column_id(&table, "age");
    assert_eq!(table.rows()[0].get(age), Some(&ColumnValue::IntValue(30)));
    assert_eq!(table.rows()[0].len(), 1);
}

#[test]
fn a_row_before_any_column_is_refused() {
    let mut table = Table::new("users".to_string());
    assert_eq!(
        table.execute(Command::AddRow(pairs(&[("age", "30")]))),
        Err(Error::Schema(SchemaError::ColumnNotFound("age".to_string())))
    );
    assert_eq!(table.rows().len(), 0);
}

#[test]
fn the_first_missing_column_is_the_one_reported() {
    let mut table = users();
    assert_eq!(
        table.execute(Command::AddRow(pairs(&[
            ("age", "30"),
            ("shoe", "44"),
            ("name", "Ann"),
            ("hat", "7")
        ]))),
        Err(Error::Schema(SchemaError::ColumnNotFound("shoe".to_string())))
    );
    assert_eq!(table.rows().len(), 0);
}

#[test]
fn a_missing_column_is_reported_before_a_bad_value() {
    let mut table = users();
    assert_eq!(
        table.execute(Command::AddRow(pairs(&[("age", "thirty"), ("shoe", "44")]))),
        Err(Error::Schema(SchemaError::ColumnNotFound("shoe".to_string())))
    );
    assert_eq!(table.rows().len(), 0);
}

#[test]
fn a_row_with_a_bad_value_is_refused_whole() {
    let mut table = users();
    let before = table.clone();
    assert_eq!(
        table.execute(Command::AddRow(pairs(&[("name", "Ann"), ("age", "thirty"), ("height", "x")]))),
        Err(Error::Data(DataError::ValueParseError(ColumnType::Integer, "thirty".to_string())))
    );
    assert_eq!(table.rows().len(), 0);
    assert_eq!(table, before);
    assert_eq!(
        table.execute(Command::AddRow(pairs(&[("height", "tall"), ("age", "thirty")]))),
        Err(Error::Data(DataError::ValueParseError(ColumnType::Float, "tall".to_string())))
    );
    assert_eq!(
        table.execute(Command::AddRow(pairs(&[("age", "2147483648")]))),
        Err(Error::Data(DataError::ValueParseError(ColumnType::Integer, "2147483648".to_string())))
    );
    assert_eq!(table, before);
}

#[test]
fn a_row_holds_a_value_of_each_type() {
    let mut table = users();
    table
        .execute(Command::AddRow(pairs(&[("name", "Ann"), ("age", "-30"), ("height", "1.75")])))
        .unwrap();
    let row = &table.rows()[0];
    assert_eq!(row.len(), 3);
    assert_eq!(
        row.get(column_id(&table, "name")),
        Some(&ColumnValue::StringValue("Ann".to_string()))
    );
    assert_eq!(row.get(column_id(&table, "age")), Some(&ColumnValue::IntValue(-30)));
    match row.get(column_id(&table, "height")) {
        Some(ColumnValue::FloatValue(literal)) => {
            assert_eq!(literal.as_str().parse::<f32>(), Ok(1.75))
        }
        other => panic!("no float: {:?}", other),
    }
}

#[test]
fn a_row_may_leave_columns_out() {
    let mut table = users();
    table.execute(Command::AddRow(pairs(&[("age", "30")]))).unwrap();
    table.execute(Command::AddRow(pairs(&[]))).unwrap();
    assert_eq!(table.rows().len(), 2);
    assert_eq!(table.rows()[0].len(), 1);
    assert_eq!(table.rows()[0].get(column_id(&table, "name")), None);
    assert_eq!(table.rows()[1].len(), 0);
}

#[test]
fn a_later_pair_for_the_same_column_wins() {
    let mut table = users();
    table.execute(Command::AddRow(pairs(&[("age", "30"), ("age", "31")]))).unwrap();
    assert_eq!(table.rows()[0].len(), 1);
    assert_eq!(table.rows()[0].get(column_id(&table, "age")), Some(&ColumnValue::IntValue(31)));
}

#[test]
fn rows_stand_in_the_order_in_which_they_were_added() {
    let mut table = users();
    for age in ["1", "2", "3"].iter() {
        table.execute(Command::AddRow(pairs(&[("age", age)]))).unwrap();
    }
    let age = column_id(&table, "age");
    let ages: Vec<Option<&ColumnValue>> = table.rows().iter().map(|row| row.get(age)).collect();
    assert_eq!(
        ages,
        vec![
            Some(&ColumnValue::IntValue(1)),
            Some(&ColumnValue::IntValue(2)),
            Some(&ColumnValue::IntValue(3))
        ]
    );
}

#[test]
fn removing_a_column_removes_its_values() {
    let mut table = users();
    table
        .execute(Command::AddRow(pairs(&[("name", "Ann"), ("age", "30"), ("height", "1.75")])))
        .unwrap();
    table.execute(Command::AddRow(pairs(&[("name", "Bob")]))).unwrap();
    table.execute(Command::AddRow(pairs(&[("age", "41")]))).unwrap();
    let age = column_id(&table, "age");
    let name = column_id(&table, "name");
    let row_ids: Vec<u128> = table.rows().iter().map(|row| row.id()).collect();

    assert_eq!(table.execute(Command::RemoveColumn("age".to_string())), Ok(()));

    let names: Vec<&str> = table.columns().iter().map(|column| column.name.as_str()).collect();
    assert_eq!(names, vec!["name", "height"]);
    assert_eq!(table.rows().len(), 3);
    assert_eq!(table.rows().iter().map(|row| row.id()).collect::<Vec<u128>>(), row_ids);
    for row in table.rows().iter() {
        assert_eq!(row.get(age), None);
    }
    assert_eq!(table.rows()[0].len(), 2);
    assert_eq!(table.rows()[0].get(name), Some(&ColumnValue::StringValue("Ann".to_string())));
    assert_eq!(table.rows()[1].len(), 1);
    assert_eq!(table.rows()[2].len(), 0);
}

#[test]
fn removing_a_missing_column_is_refused() {
    let mut table = users();
    table.execute(Command::AddRow(pairs(&[("age", "30")]))).unwrap();
    let before = table.clone();
    assert_eq!(
        table.execute(Command::RemoveColumn("shoe".to_string())),
        Err(Error::Schema(SchemaError::ColumnNotFound("shoe".to_string())))
    );
    assert_eq!(table, before);
}

#[test]
fn a_removed_column_can_be_added_again() {
    let mut table = users();
    table.execute(Command::AddRow(pairs(&[("age", "30")]))).unwrap();
    table.execute(Command::RemoveColumn("age".to_string())).unwrap();
    assert_eq!(
        table.execute(Command::AddRow(pairs(&[("age", "30")]))),
        Err(Error::Schema(SchemaError::ColumnNotFound("age".to_string())))
    );
    assert_eq!(add_column_to(&mut table, "age", ColumnType::String), Ok(()));
    assert_eq!(table.rows()[0].len(), 0);
    table.execute(Command::AddRow(pairs(&[("age", "thirty")]))).unwrap();
    assert_eq!(
        table.rows()[1].get(column_id(&table, "age")),
        Some(&ColumnValue::StringValue("thirty".to_string()))
    );
}

#[test]
fn column_names_are_told_apart_exactly() {
    let mut table = Table::new("t".to_string());
    assert_eq!(add_column_to(&mut table, "a", ColumnType::Integer), Ok(()));
    assert_eq!(add_column_to(&mut table, "A", ColumnType::Integer), Ok(()));
    assert_eq!(add_column_to(&mut table, "a ", ColumnType::Integer), Ok(()));
    assert_eq!(add_column_to(&mut table, "", ColumnType::Integer), Ok(()));
    assert_eq!(
        add_column_to(&mut table, "", ColumnType::Integer),
        Err(Error::Schema(SchemaError::DuplicateColumn("".to_string())))
    );
    assert_eq!(table.columns().len(), 4);
}

#[test]
fn identifiers_differ_within_a_table() {
    let mut table = Table::new("t".to_string());
    for i in 0..20 {
        add_column_to(&mut table, &format!("c{}", i), ColumnType::Integer).unwrap();
        table.execute(Command::AddRow(pairs(&[("c0", "1")]))).unwrap();
    }
    for (i, a) in table.columns().iter().enumerate() {
        for b in table.columns()[..i].iter() {
            assert_ne!(a.id, b.id);
        }
    }
    for (i, a) in table.rows().iter().enumerate() {
        for b in table.rows()[..i].iter() {
            assert_ne!(a.id(), b.id());
        }
    }
}

#[test]
fn the_identifier_drawn_is_the_one_given_out() {
    let mut table = Table::new("t".to_string());
    table.execute_with(Command::AddColumn("a".to_string(), ColumnType::Integer), 7).unwrap();
    table.execute_with(Command::AddRow(pairs(&[("a", "1")])), 7).unwrap();
    assert_eq!(table.columns()[0].id, 7);
    assert_eq!(table.rows()[0].id(), 7);
    assert_eq!(table.rows()[0].get(7), Some(&ColumnValue::IntValue(1)));
}

#[test]
fn an_identifier_that_is_taken_is_passed_over() {
    let mut table = Table::new("t".to_string());
    for name in ["a", "b", "c", "d"].iter() {
        table.execute_with(Command::AddColumn(name.to_string(), ColumnType::Integer), 7).unwrap();
    }
    let ids: Vec<u128> = table.columns().iter().map(|column| column.id).collect();
    assert_eq!(ids, vec![7, 8, 9, 10]);
    table.execute_with(Command::AddColumn("e".to_string(), ColumnType::Integer), 9).unwrap();
    assert_eq!(table.columns()[4].id, 11);
    for _ in 0..3 {
        table.execute_with(Command::AddRow(pairs(&[("a", "1")])), u128::MAX).unwrap();
    }
    let ids: Vec<u128> = table.rows().iter().map(|row| row.id()).collect();
    assert_eq!(ids, vec![u128::MAX, 0, 1]);
}

#[test]
fn a_refused_command_draws_nothing() {
    let mut table = Table::new("t".to_string());
    table.execute_with(Command::AddColumn("a".to_string(), ColumnType::Integer), 7).unwrap();
    let before = table.clone();
    assert_eq!(
        table.execute_with(Command::AddColumn("a".to_string(), ColumnType::Float), 8),
        Err(Error::Schema(SchemaError::DuplicateColumn("a".to_string())))
    );
    assert_eq!(
        table.execute_with(Command::RemoveColumn("b".to_string()), 8),
        Err(Error::Schema(SchemaError::ColumnNotFound("b".to_string())))
    );
    assert_eq!(
        table.execute_with(Command::AddRow(pairs(&[("a", "x")])), 8),
        Err(Error::Data(DataError::ValueParseError(ColumnType::Integer, "x".to_string())))
    );
    assert_eq!(table, before);
}

#[test]
fn a_cloned_table_is_equal() {
    let mut table = users();
    table
        .execute(Command::AddRow(pairs(&[("name", "Ann"), ("age", "30"), ("height", "1.75")])))
        .unwrap();
    let copy = table.clone();
    assert_eq!(copy, table);
    assert_eq!(copy.id(), table.id());
    table.execute(Command::AddRow(pairs(&[]))).unwrap();
    assert_ne!(copy, table);
}

#[test]
fn a_column_is_found_by_its_name() {
    let table = users();
    let age = table.column("age").unwrap();
    assert_eq!(age.name, "age");
    assert_eq!(age.column_type, ColumnType::Integer);
    assert_eq!(age, &table.columns()[1]);
    assert_eq!(table.column("Age"), None);
    assert_eq!(table.column(""), None);
    assert_eq!(Table::new("t".to_string()).column("age"), None);
}

#[test]
fn a_value_is_found_by_row_and_column() {
    let mut table = users();
    table.execute(Command::AddRow(pairs(&[("name", "Ann"), ("age", "30")]))).unwrap();
    table.execute(Command::AddRow(pairs(&[("age", "41")]))).unwrap();
    assert_eq!(table.value(0, "name"), Some(&ColumnValue::StringValue("Ann".to_string())));
    assert_eq!(table.value(0, "age"), Some(&ColumnValue::IntValue(30)));
    assert_eq!(table.value(1, "age"), Some(&ColumnValue::IntValue(41)));
    assert_eq!(table.value(1, "name"), None);
    assert_eq!(table.value(0, "height"), None);
    assert_eq!(table.value(0, "shoe"), None);
    assert_eq!(table.value(2, "age"), None);
    table.execute(Command::RemoveColumn("age".to_string())).unwrap();
    assert_eq!(table.value(0, "age"), None);
    assert_eq!(table.value(0, "name"), Some(&ColumnValue::StringValue("Ann".to_string())));
}

#[test]
fn a_float_column_takes_every_float_literal() {
    let mut table = Table::new("t".to_string());
    add_column_to(&mut table, "x", ColumnType::Float).unwrap();
    let good = ["5", "5.5", "-.5", "5.", "+1e5", "1E-5", "inf", "-Infinity", "NaN", "1e400"];
    for (i, text) in good.iter().enumerate() {
        assert_eq!(table.execute(Command::AddRow(pairs(&[("x", text)]))), Ok(()));
        match table.value(i, "x") {
            Some(ColumnValue::FloatValue(literal)) => {
                assert_eq!(literal.as_str(), *text);
                let read = literal.as_str().parse::<f32>().unwrap();
                let expected = text.parse::<f32>().unwrap();
                assert_eq!(read.to_bits(), expected.to_bits());
            }
            other => panic!("no float: {:?}", other),
        }
    }
    let bad = ["", ".", "1e", "e5", "0x10", "1,5", " 1", "1 ", "infinit", "--1", "٣"];
    for text in bad.iter() {
        assert_eq!(
            table.execute(Command::AddRow(pairs(&[("x", text)]))),
            Err(Error::Data(DataError::ValueParseError(ColumnType::Float, text.to_string())))
        );
    }
    assert_eq!(table.rows().len(), good.len());
}

#[test]
fn an_integer_column_takes_signed_integers() {
    let mut table = Table::new("t".to_string());
    add_column_to(&mut table, "n", ColumnType::Integer).unwrap();
    let good = [("0", 0), ("+7", 7), ("-7", -7), ("007", 7), ("-0", 0), ("2147483647", i32::MAX)];
    for (i, (text, value)) in good.iter().enumerate() {
        assert_eq!(table.execute(Command::AddRow(pairs(&[("n", text)]))), Ok(()));
        assert_eq!(table.value(i, "n"), Some(&ColumnValue::IntValue(*value)));
    }
    for text in ["", "+", "7.0", "1e3", "seven", " 7", "2147483648"].iter() {
        assert_eq!(
            table.execute(Command::AddRow(pairs(&[("n", text)]))),
            Err(Error::Data(DataError::ValueParseError(ColumnType::Integer, text.to_string())))
        );
    }
    assert_eq!(table.rows().len(), good.len());
}
