use rusql::database::Database;
use rusql::dispatch::process_command;
use rusql::table::Row;

#[test]
fn test_end_to_end_table_creation() {
    let mut db = Database::new("test_db".to_string());
    let query = "CREATE TABLE users (id INTEGER PRIMARY KEY, name TEXT);";

    let result = process_command(query, &mut db);
    assert!(result.is_ok());
    assert!(db.contains_table("users".to_string()));
}

#[test]
fn test_end_to_end_insert() {
    let mut db = Database::new("test_db".to_string());

    let create_query = "CREATE TABLE users (id INTEGER PRIMARY KEY, name TEXT, age INTEGER);";
    let result = process_command(create_query, &mut db);
    assert!(result.is_ok());

    let insert_query = "INSERT INTO users (name, age) VALUES ('Alice', 30);";
    let result = process_command(insert_query, &mut db);
    assert!(result.is_ok());

    let table = db.get_table("users".to_string()).unwrap();
    assert_eq!(table.last_rowid, 1);
}

#[test]
fn test_end_to_end_multiple_inserts() {
    let mut db = Database::new("test_db".to_string());

    let create_query = "CREATE TABLE products (id INTEGER PRIMARY KEY, name TEXT, price REAL);";
    let result = process_command(create_query, &mut db);
    assert!(result.is_ok());

    let insert1 = "INSERT INTO products (name, price) VALUES ('Laptop', 999.99);";
    let insert2 = "INSERT INTO products (name, price) VALUES ('Mouse', 29.99);";
    let insert3 = "INSERT INTO products (name, price) VALUES ('Keyboard', 79.99);";

    assert!(process_command(insert1, &mut db).is_ok());
    assert!(process_command(insert2, &mut db).is_ok());
    assert!(process_command(insert3, &mut db).is_ok());

    let table = db.get_table("products".to_string()).unwrap();
    assert_eq!(table.last_rowid, 3);
}

#[test]
fn test_end_to_end_drop_table() {
    let mut db = Database::new("test_db".to_string());

    let create_query = "CREATE TABLE temp (id INTEGER);";
    assert!(process_command(create_query, &mut db).is_ok());
    assert!(db.contains_table("temp".to_string()));

    let drop_query = "DROP TABLE temp;";
    assert!(process_command(drop_query, &mut db).is_ok());
    assert!(!db.contains_table("temp".to_string()));
}

#[test]
fn test_list_tables() {
    let mut db = Database::new("test_db".to_string());

    process_command("CREATE TABLE users (id INTEGER);", &mut db).unwrap();
    process_command("CREATE TABLE posts (id INTEGER);", &mut db).unwrap();
    process_command("CREATE TABLE comments (id INTEGER);", &mut db).unwrap();

    let result = process_command("LIST TABLES;", &mut db);
    assert!(result.is_ok());
}

#[test]
fn test_duplicate_table_error() {
    let mut db = Database::new("test_db".to_string());

    let create_query = "CREATE TABLE users (id INTEGER);";
    assert!(process_command(create_query, &mut db).is_ok());

    let result = process_command(create_query, &mut db);
    assert!(result.is_err());
}

#[test]
fn test_insert_into_nonexistent_table() {
    let mut db = Database::new("test_db".to_string());

    let insert_query = "INSERT INTO nonexistent (id) VALUES (1);";
    let result = process_command(insert_query, &mut db);
    assert!(result.is_err());
}

#[test]
fn test_unique_constraint_violation() {
    let mut db = Database::new("test_db".to_string());

    let create_query = "CREATE TABLE users (id INTEGER PRIMARY KEY, email TEXT UNIQUE);";
    assert!(process_command(create_query, &mut db).is_ok());

    let insert1 = "INSERT INTO users (email) VALUES ('test@example.com');";
    assert!(process_command(insert1, &mut db).is_ok());

    let insert2 = "INSERT INTO users (email) VALUES ('test@example.com');";
    let result = process_command(insert2, &mut db);
    assert!(result.is_err());
}

#[test]
fn test_column_value_count_mismatch() {
    let mut db = Database::new("test_db".to_string());

    let create_query = "CREATE TABLE users (id INTEGER, name TEXT, age INTEGER);";
    assert!(process_command(create_query, &mut db).is_ok());

    let insert_query = "INSERT INTO users (name) VALUES ('Alice', 30);";
    let result = process_command(insert_query, &mut db);
    assert!(result.is_err());
    assert_eq!(
        result.unwrap_err().display_string(),
        "Internal error: Column count and value count mismatch. Columns: 1, Values: 2"
    );
}

#[test]
fn test_insert_into_nonexistent_column() {
    let mut db = Database::new("test_db".to_string());

    let create_query = "CREATE TABLE users (id INTEGER, name TEXT);";
    assert!(process_command(create_query, &mut db).is_ok());

    let insert_query = "INSERT INTO users (id, nonexistent) VALUES (1, 'value');";
    let result = process_command(insert_query, &mut db);
    assert!(result.is_err());
}

#[test]
fn test_complex_table_with_all_constraints() {
    let mut db = Database::new("test_db".to_string());

    let create_query = "CREATE TABLE employees (
        id INTEGER PRIMARY KEY,
        email TEXT UNIQUE NOT NULL,
        name TEXT NOT NULL,
        salary REAL,
        is_active BOOLEAN
    );";

    let result = process_command(create_query, &mut db);
    assert!(result.is_ok());

    let table = db.get_table("employees".to_string()).unwrap();
    assert_eq!(table.columns.len(), 5);
    assert_eq!(table.primary_key, "id");
}

#[test]
fn first_insert_writes_both_columns() {
    let mut db = Database::new("test_db".to_string());
    process_command("CREATE TABLE users (id INTEGER PRIMARY KEY, name TEXT);", &mut db).unwrap();
    process_command("INSERT INTO users (name) VALUES ('Alice');", &mut db).unwrap();

    let table = db.get_table("users".to_string()).unwrap();
    assert_eq!(table.last_rowid, 1);
    match &table.columns[0].row {
        Row::Integer(m) => assert_eq!(m.get(1), Some(&1)),
        _ => panic!("integer primary key column expected"),
    }
    match &table.columns[1].row {
        Row::Text(m) => assert_eq!(m.get(1), Some(&"Alice".to_string())),
        _ => panic!("text column expected"),
    }
}

#[test]
fn explicit_primary_key_shifts_next_rowid() {
    let mut db = Database::new("test_db".to_string());
    process_command("CREATE TABLE users (id INTEGER PRIMARY KEY, name TEXT);", &mut db).unwrap();
    process_command("INSERT INTO users (id, name) VALUES (100, 'Bob');", &mut db).unwrap();
    process_command("INSERT INTO users (name) VALUES ('Carl');", &mut db).unwrap();

    let table = db.get_table("users".to_string()).unwrap();
    assert_eq!(table.last_rowid, 101);
}

#[test]
fn duplicate_unique_email_keeps_single_row() {
    let mut db = Database::new("test_db".to_string());
    process_command("CREATE TABLE t (id INTEGER, email TEXT UNIQUE);", &mut db).unwrap();
    process_command("INSERT INTO t (email) VALUES ('a@x.com');", &mut db).unwrap();
    let second = process_command("INSERT INTO t (email) VALUES ('a@x.com');", &mut db);
    assert!(second.is_err());
    assert_eq!(
        second.unwrap_err().display_string(),
        "Internal error: Unique key constraint violation: General error: \
         Error: Unique constraint violation for column email. Value a@x.com already exists."
    );

    let table = db.get_table("t".to_string()).unwrap();
    match &table.columns[1].row {
        Row::Text(m) => assert_eq!(m.len(), 1),
        _ => panic!("text column expected"),
    }
}

#[test]
fn two_primary_keys_register_no_table() {
    let mut db = Database::new("test_db".to_string());
    let result = process_command(
        "CREATE TABLE t (id INTEGER PRIMARY KEY, id2 INTEGER PRIMARY KEY);",
        &mut db,
    );
    assert!(result.is_err());
    assert!(!db.contains_table("t".to_string()));
    assert_eq!(db.table_count(), 0);
}

#[test]
fn duplicate_column_names_register_no_table() {
    let mut db = Database::new("test_db".to_string());
    let result = process_command("CREATE TABLE t (id INTEGER, id TEXT);", &mut db);
    assert!(result.is_err());
    assert_eq!(
        result.unwrap_err().display_string(),
        "Internal error: Duplicate column name: id"
    );
    assert!(!db.contains_table("t".to_string()));
    assert_eq!(db.table_count(), 0);
}

#[test]
fn drop_missing_table_leaves_database_unchanged() {
    let mut db = Database::new("test_db".to_string());
    process_command("CREATE TABLE kept (id INTEGER);", &mut db).unwrap();

    let result = process_command("DROP TABLE missing;", &mut db);
    assert!(result.is_err());
    assert_eq!(
        result.unwrap_err().display_string(),
        "General error: Table not found."
    );
    assert_eq!(db.table_count(), 1);
    assert!(db.contains_table("kept".to_string()));
}

#[test]
fn two_statements_in_one_command_name_the_count() {
    let mut db = Database::new("test_db".to_string());
    let result = process_command(
        "CREATE TABLE a (id INTEGER); CREATE TABLE b (id INTEGER);",
        &mut db,
    );
    assert!(result.is_err());
    let message = result.unwrap_err().display_string();
    assert!(message.contains("found 2"));
    assert_eq!(db.table_count(), 0);
}

#[test]
fn select_reports_not_implemented() {
    let mut db = Database::new("test_db".to_string());
    process_command("CREATE TABLE t (id INTEGER);", &mut db).unwrap();
    let result = process_command("SELECT * FROM t;", &mut db);
    assert_eq!(result.unwrap(), "Not Implemented yet.");
}

#[test]
fn boolean_and_real_values_are_stored() {
    let mut db = Database::new("test_db".to_string());
    process_command(
        "CREATE TABLE m (id INTEGER PRIMARY KEY, ok BOOLEAN, score REAL);",
        &mut db,
    )
    .unwrap();
    process_command("INSERT INTO m (ok, score) VALUES (true, 99.5);", &mut db).unwrap();

    let table = db.get_table("m".to_string()).unwrap();
    match &table.columns[1].row {
        Row::Bool(m) => assert_eq!(m.get(1), Some(&true)),
        _ => panic!("boolean column expected"),
    }
    match &table.columns[2].row {
        Row::Real(m) => assert_eq!(m.get(1), Some(&"99.5".to_string())),
        _ => panic!("real column expected"),
    }
}

#[test]
fn unparsable_sql_is_a_parser_error() {
    let mut db = Database::new("test_db".to_string());
    let result = process_command("THIS IS NOT SQL;", &mut db);
    assert!(result.is_err());
    let message = result.unwrap_err().display_string();
    assert!(message.starts_with("Parser error: "));
}

#[test]
fn unsupported_statement_is_not_implemented() {
    let mut db = Database::new("test_db".to_string());
    let result = process_command("ANALYZE t;", &mut db);
    assert!(result.is_err());
    let message = result.unwrap_err().display_string();
    assert!(message.starts_with("Not Implemented error: "));
}

#[test]
fn bad_value_for_integer_column_is_rejected() {
    let mut db = Database::new("test_db".to_string());
    process_command("CREATE TABLE t (id INTEGER PRIMARY KEY, n INTEGER);", &mut db).unwrap();
    let result = process_command("INSERT INTO t (n) VALUES ('abc');", &mut db);
    assert!(result.is_err());

    let table = db.get_table("t".to_string()).unwrap();
    assert_eq!(table.last_rowid, 0);
}

#[test]
fn list_tables_is_case_insensitive() {
    let mut db = Database::new("test_db".to_string());
    let result = process_command("  list TABLES;  ", &mut db);
    assert_eq!(result.unwrap(), "LIST TABLES Statement executed.");
}
