use rusql::create::CreateQuery;
use rusql::create::ParsedColumn;
use rusql::database::Database;
use rusql::table::Table;

fn single_id_table(name: &str) -> Table {
    let create_query = CreateQuery {
        table_name: name.to_string(),
        columns: vec![ParsedColumn {
            name: "id".to_string(),
            datatype: "Integer".to_string(),
            is_pk: true,
            not_null: true,
            is_unique: true,
        }],
    };
    Table::new(create_query)
}

#[test]
fn test_database_creation() {
    let db = Database::new("test_db".to_string());
    assert_eq!(db.db_name, "test_db");
    assert_eq!(db.tables.len(), 0);
}

#[test]
fn test_database_contains_table() {
    let mut db = Database::new("test_db".to_string());
    db.tables.push(single_id_table("users"));

    assert!(db.contains_table("users".to_string()));
    assert!(!db.contains_table("posts".to_string()));
}

#[test]
fn test_get_table() {
    let mut db = Database::new("test_db".to_string());
    db.tables.push(single_id_table("users"));

    let result = db.get_table("users".to_string());
    assert!(result.is_ok());

    let result = db.get_table("nonexistent".to_string());
    assert!(result.is_err());
}

#[test]
fn test_get_table_mut() {
    let mut db = Database::new("test_db".to_string());
    db.tables.push(single_id_table("users"));

    let result = db.get_table_mut("users".to_string());
    assert!(result.is_ok());

    let result = db.get_table_mut("nonexistent".to_string());
    assert!(result.is_err());
}

#[test]
fn test_drop_table() {
    let mut db = Database::new("test_db".to_string());
    db.tables.push(single_id_table("users"));

    assert!(db.contains_table("users".to_string()));

    let result = db.drop_table("users".to_string());
    assert!(result.is_ok());
    assert!(!db.contains_table("users".to_string()));

    let result = db.drop_table("nonexistent".to_string());
    assert!(result.is_err());
}

#[test]
fn test_multiple_tables() {
    let mut db = Database::new("test_db".to_string());

    db.tables.push(single_id_table("users"));
    db.tables.push(single_id_table("posts"));

    assert_eq!(db.tables.len(), 2);
    assert!(db.contains_table("users".to_string()));
    assert!(db.contains_table("posts".to_string()));
}

#[test]
fn repeated_failed_lookup_has_no_side_effects() {
    let mut db = Database::new("test_db".to_string());
    db.tables.push(single_id_table("users"));

    assert!(db.get_table("missing".to_string()).is_err());
    assert!(db.get_table("missing".to_string()).is_err());
    assert!(db.get_table_mut("missing".to_string()).is_err());
    assert_eq!(db.tables.len(), 1);
    assert!(db.contains_table("users".to_string()));
}

#[test]
fn table_count_and_names_follow_registry() {
    let mut db = Database::new("test_db".to_string());
    assert_eq!(db.table_count(), 0);
    db.tables.push(single_id_table("users"));
    db.tables.push(single_id_table("posts"));
    assert_eq!(db.table_count(), 2);
    let names = db.list_table_names();
    assert_eq!(names, vec!["users".to_string(), "posts".to_string()]);
}
