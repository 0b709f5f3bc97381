//! Column changes that undo each other.

use szrsql_sql::online_ddl::{ColumnDefinition, TableSchema};

fn schema() -> TableSchema {
    TableSchema::from_columns(vec![
        ColumnDefinition::new("id", "BIGINT"),
        ColumnDefinition::new("name", "TEXT"),
    ])
}

#[test]
fn adding_then_dropping_a_column_restores_the_schema() {
    let mut s = schema();
    s.add_column(ColumnDefinition::new("age", "INT"));
    assert_eq!(s.column_count(), 3);
    assert!(s.drop_column("age"));
    assert_eq!(s, schema());
}

#[test]
fn renaming_there_and_back_restores_the_schema() {
    let mut s = schema();
    assert!(s.rename_column("name", "full_name"));
    assert_eq!(s.find_column("full_name"), Some(1));
    assert!(s.rename_column("full_name", "name"));
    assert_eq!(s, schema());
}

#[test]
fn changing_a_type_keeps_the_names() {
    let mut s = schema();
    assert!(s.modify_column("id", "INT"));
    assert_eq!(s.columns[0].name, "id");
    assert_eq!(s.columns[0].data_type, "INT");
    assert_eq!(s.columns[1].name, "name");
    assert!(!s.modify_column("missing", "INT"));
}
