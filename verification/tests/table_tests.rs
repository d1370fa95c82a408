use rusql::create::CreateQuery;
use rusql::create::ParsedColumn;
use rusql::table::Column;
use rusql::table::DataType;
use rusql::table::Row;
use rusql::table::Table;

fn users_two_cols() -> CreateQuery {
    CreateQuery {
        table_name: "users".to_string(),
        columns: vec![
            ParsedColumn {
                name: "id".to_string(),
                datatype: "Integer".to_string(),
                is_pk: true,
                not_null: true,
                is_unique: true,
            },
            ParsedColumn {
                name: "name".to_string(),
                datatype: "Text".to_string(),
                is_pk: false,
                not_null: false,
                is_unique: false,
            },
        ],
    }
}

#[test]
fn test_datatype_creation() {
    assert_eq!(DataType::new("integer".to_string()), DataType::Integer);
    assert_eq!(DataType::new("INTEGER".to_string()), DataType::Integer);
    assert_eq!(DataType::new("text".to_string()), DataType::Text);
    assert_eq!(DataType::new("real".to_string()), DataType::Real);
    assert_eq!(DataType::new("bool".to_string()), DataType::Bool);
    assert_eq!(DataType::new("none".to_string()), DataType::Untyped);
    assert_eq!(DataType::new("invalid_type".to_string()), DataType::Invalid);
}

#[test]
fn test_table_creation() {
    let create_query = users_two_cols();

    let table = Table::new(create_query);
    assert_eq!(table.tb_name, "users");
    assert_eq!(table.columns.len(), 2);
    assert_eq!(table.last_rowid, 0);
    assert_eq!(table.primary_key, "id");
}

#[test]
fn test_table_contains_column() {
    let create_query = CreateQuery {
        table_name: "users".to_string(),
        columns: vec![
            ParsedColumn {
                name: "id".to_string(),
                datatype: "Integer".to_string(),
                is_pk: true,
                not_null: true,
                is_unique: true,
            },
            ParsedColumn {
                name: "email".to_string(),
                datatype: "Text".to_string(),
                is_pk: false,
                not_null: false,
                is_unique: true,
            },
        ],
    };

    let table = Table::new(create_query);
    assert!(table.contains_column("id".to_string()));
    assert!(table.contains_column("email".to_string()));
    assert!(!table.contains_column("nonexistent".to_string()));
}

#[test]
fn test_column_creation() {
    let column = Column::new("id".to_string(), "Integer".to_string(), true, true, true);

    assert_eq!(column.column_name, "id");
    assert_eq!(column.datatype, DataType::Integer);
    assert_eq!(column.is_pk, true);
    assert_eq!(column.not_null, true);
    assert_eq!(column.is_unique, true);
    assert_eq!(column.is_indexed, true);
}

#[test]
fn test_insert_row() {
    let create_query = CreateQuery {
        table_name: "users".to_string(),
        columns: vec![
            ParsedColumn {
                name: "id".to_string(),
                datatype: "Integer".to_string(),
                is_pk: true,
                not_null: true,
                is_unique: true,
            },
            ParsedColumn {
                name: "name".to_string(),
                datatype: "Text".to_string(),
                is_pk: false,
                not_null: false,
                is_unique: false,
            },
            ParsedColumn {
                name: "age".to_string(),
                datatype: "Integer".to_string(),
                is_pk: false,
                not_null: false,
                is_unique: false,
            },
        ],
    };

    let mut table = Table::new(create_query);
    let cols = vec!["name".to_string(), "age".to_string()];
    let values = vec!["John".to_string(), "25".to_string()];

    assert!(table.insert_row(&cols, &values).is_ok());
    assert_eq!(table.last_rowid, 1);
}

#[test]
fn test_insert_row_with_primary_key() {
    let create_query = users_two_cols();

    let mut table = Table::new(create_query);
    let cols = vec!["id".to_string(), "name".to_string()];
    let values = vec!["100".to_string(), "Alice".to_string()];

    assert!(table.insert_row(&cols, &values).is_ok());
    assert_eq!(table.last_rowid, 100);
}

#[test]
fn test_unique_constraint_validation() {
    let create_query = CreateQuery {
        table_name: "users".to_string(),
        columns: vec![
            ParsedColumn {
                name: "id".to_string(),
                datatype: "Integer".to_string(),
                is_pk: true,
                not_null: true,
                is_unique: true,
            },
            ParsedColumn {
                name: "email".to_string(),
                datatype: "Text".to_string(),
                is_pk: false,
                not_null: false,
                is_unique: true,
            },
        ],
    };

    let mut table = Table::new(create_query);

    let cols = vec!["email".to_string()];
    let values = vec!["test@example.com".to_string()];
    assert!(table.insert_row(&cols, &values).is_ok());

    let result = table.validate__unique_constraint(&cols, &values);
    assert!(result.is_err());
}

#[test]
fn test_get_column() {
    let create_query = CreateQuery {
        table_name: "users".to_string(),
        columns: vec![ParsedColumn {
            name: "id".to_string(),
            datatype: "Integer".to_string(),
            is_pk: true,
            not_null: true,
            is_unique: true,
        }],
    };

    let table = Table::new(create_query);
    let result = table.get_column("id".to_string());
    assert!(result.is_ok());

    let result = table.get_column("nonexistent".to_string());
    assert!(result.is_err());
}

#[test]
fn auto_assigned_rowid_writes_primary_key_entry() {
    let mut table = Table::new(users_two_cols());
    let cols = vec!["name".to_string()];
    let values = vec!["Alice".to_string()];
    assert!(table.insert_row(&cols, &values).is_ok());

    assert_eq!(table.last_rowid, 1);
    match &table.columns[0].row {
        Row::Integer(m) => assert_eq!(m.get(1), Some(&1)),
        _ => panic!("integer primary key column expected"),
    }
    match &table.columns[1].row {
        Row::Text(m) => assert_eq!(m.get(1), Some(&"Alice".to_string())),
        _ => panic!("text column expected"),
    }
}

#[test]
fn omitted_column_has_no_entry() {
    let mut table = Table::new(users_two_cols());
    let cols = vec![];
    let values = vec![];
    assert!(table.insert_row(&cols, &values).is_ok());

    assert_eq!(table.last_rowid, 1);
    match &table.columns[1].row {
        Row::Text(m) => {
            assert!(m.get(1).is_none());
            assert_eq!(m.len(), 0);
        },
        _ => panic!("text column expected"),
    }
}

#[test]
fn null_marker_leaves_column_empty() {
    let mut table = Table::new(users_two_cols());
    let cols = vec!["name".to_string()];
    let values = vec!["Null".to_string()];
    assert!(table.insert_row(&cols, &values).is_ok());

    match &table.columns[1].row {
        Row::Text(m) => assert!(m.get(1).is_none()),
        _ => panic!("text column expected"),
    }
}

#[test]
fn unparsable_value_rejects_row_and_keeps_table() {
    let mut table = Table::new(users_two_cols());
    let cols = vec!["id".to_string(), "name".to_string()];
    let values = vec!["notanumber".to_string(), "Bob".to_string()];
    assert!(table.insert_row(&cols, &values).is_err());
    assert_eq!(table.last_rowid, 0);
    match &table.columns[1].row {
        Row::Text(m) => assert_eq!(m.len(), 0),
        _ => panic!("text column expected"),
    }
}

#[test]
fn unknown_supplied_column_rejects_row() {
    let mut table = Table::new(users_two_cols());
    let cols = vec!["nonexistent".to_string()];
    let values = vec!["1".to_string()];
    assert!(table.insert_row(&cols, &values).is_err());
    assert_eq!(table.last_rowid, 0);
}

#[test]
fn explicit_rowid_shifts_auto_increment() {
    let mut table = Table::new(users_two_cols());
    let cols = vec!["id".to_string(), "name".to_string()];
    let values = vec!["100".to_string(), "Bob".to_string()];
    assert!(table.insert_row(&cols, &values).is_ok());

    let cols2 = vec!["name".to_string()];
    let values2 = vec!["Carl".to_string()];
    assert!(table.insert_row(&cols2, &values2).is_ok());
    assert_eq!(table.last_rowid, 101);
    match &table.columns[0].row {
        Row::Integer(m) => {
            assert_eq!(m.get(100), Some(&100));
            assert_eq!(m.get(101), Some(&101));
        },
        _ => panic!("integer primary key column expected"),
    }
}

#[test]
fn entry_count_follows_inserts() {
    let mut table = Table::new(users_two_cols());
    assert_eq!(table.column_entry_count("name".to_string()).unwrap(), 0);
    let cols = vec!["name".to_string()];
    table.insert_row(&cols, &vec!["Alice".to_string()]).unwrap();
    table.insert_row(&cols, &vec!["Bob".to_string()]).unwrap();
    assert_eq!(table.column_entry_count("name".to_string()).unwrap(), 2);
    assert_eq!(table.column_entry_count("id".to_string()).unwrap(), 2);
    assert!(table.column_entry_count("missing".to_string()).is_err());
}
