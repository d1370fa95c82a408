use vstd::prelude::*;

use crate::create::CreateQuery;
use crate::database::Database;
use crate::database::find_table;
use crate::database::lemma_find_table_bounds;
use crate::error::RUSQLError;
use crate::error::Result;
use crate::insert::InsertQuery;
use crate::numtext;
use crate::sqlast;
use crate::sqlast::StatementKind;
use crate::table::Table;
use crate::table::unique_error_message;
use crate::table::unique_pair_ok;
use crate::text;

verus! {

/// A raw command classified by its first space-separated word, carrying
/// the command text.
#[derive(Debug)]
pub enum SQLCommand {
    Insert(String),
    Delete(String),
    Update(String),
    CreateTable(String),
    DropTable(String),
    Select(String),
    ListTables,
    Unknown(String),
}

impl SQLCommand {
    /// Classifies a command by its first word (case-sensitive, as typed).
    pub fn new(command: String) -> (r: SQLCommand)
        ensures
            ({
                let t = text::space_token_spec(command@);
                &&& t == "insert"@ ==> (r matches SQLCommand::Insert(c) && c@ == command@)
                &&& t == "update"@ ==> (r matches SQLCommand::Update(c) && c@ == command@)
                &&& t == "delete"@ ==> (r matches SQLCommand::Delete(c) && c@ == command@)
                &&& t == "create"@ ==> (r matches SQLCommand::CreateTable(c) && c@ == command@)
                &&& t == "drop"@ ==> (r matches SQLCommand::DropTable(c) && c@ == command@)
                &&& t == "list"@ ==> r is ListTables
                &&& t == "select"@ ==> (r matches SQLCommand::Select(c) && c@ == command@)
            }),
    {
        proof {
            reveal_strlit("insert");
            reveal_strlit("update");
            reveal_strlit("delete");
            reveal_strlit("create");
            reveal_strlit("drop");
            reveal_strlit("list");
            reveal_strlit("select");
            assert("insert"@[0] == 'i' && "update"@[0] == 'u' && "delete"@[0] == 'd'
                && "create"@[0] == 'c' && "select"@[0] == 's' && "drop"@[0] == 'd'
                && "list"@[0] == 'l');
            assert("delete"@[1] == 'e' && "drop"@[1] == 'r');
            assert("insert"@ != "update"@ && "insert"@ != "delete"@ && "insert"@ != "create"@
                && "insert"@ != "select"@ && "insert"@ != "drop"@ && "insert"@ != "list"@);
            assert("update"@ != "delete"@ && "update"@ != "create"@ && "update"@ != "select"@
                && "update"@ != "drop"@ && "update"@ != "list"@);
            assert("delete"@ != "create"@ && "delete"@ != "select"@ && "delete"@ != "drop"@
                && "delete"@ != "list"@);
            assert("create"@ != "select"@ && "create"@ != "drop"@ && "create"@ != "list"@);
            assert("select"@ != "drop"@ && "select"@ != "list"@);
            assert("drop"@ != "list"@);
        }
        let tok0 = text::space_token(command.as_str());
        let tok: String = tok0.to_owned();
        proof {
            assert(tok@ == text::space_token_spec(command@));
        }
        let kind: u8 = if text::str_eq(tok.as_str(), "insert") {
            0
        } else if text::str_eq(tok.as_str(), "update") {
            1
        } else if text::str_eq(tok.as_str(), "delete") {
            2
        } else if text::str_eq(tok.as_str(), "create") {
            3
        } else if text::str_eq(tok.as_str(), "drop") {
            4
        } else if text::str_eq(tok.as_str(), "list") {
            5
        } else if text::str_eq(tok.as_str(), "select") {
            6
        } else {
            7
        };
        if kind == 0 {
            SQLCommand::Insert(command)
        } else if kind == 1 {
            SQLCommand::Update(command)
        } else if kind == 2 {
            SQLCommand::Delete(command)
        } else if kind == 3 {
            SQLCommand::CreateTable(command)
        } else if kind == 4 {
            SQLCommand::DropTable(command)
        } else if kind == 5 {
            SQLCommand::ListTables
        } else if kind == 6 {
            SQLCommand::Select(command)
        } else {
            SQLCommand::Unknown(command)
        }
    }
}

/// Registers a new table built from the normalized statement; a table of
/// that name already present is an `Internal` error and the database is
/// unchanged.
pub fn create_table(db: &mut Database, create_query: CreateQuery) -> (r: Result<String>)
    requires
        old(db).wf(),
        create_query.wf(),
    ensures
        final(db).wf(),
        old(db).has_table(create_query.table_name@) ==> (r matches Err(e) && (e matches
            RUSQLError::Internal(m) && m@ == "Table "@ + create_query.table_name@
            + " already exists."@) && *final(db) == *old(db)),
        !old(db).has_table(create_query.table_name@) ==> (r matches Ok(m) && ({
            &&& m@ == "CREATE TABLE Statement executed."@
            &&& final(db).tables@.len() == old(db).tables@.len() + 1
            &&& forall|i: int|
                0 <= i < old(db).tables@.len() ==> final(db).tables@[i] == old(db).tables@[i]
            &&& final(db).tables@.last().from_create(create_query)
            &&& final(db).tables@.last().wf()
        })),
{
    let table_name = create_query.table_name.clone();
    if db.contains_table(table_name.clone()) {
        let mut m: String = "Table ".to_owned();
        m.append(table_name.as_str());
        m.append(" already exists.");
        return Err(RUSQLError::Internal(m));
    }
    let table = Table::new(create_query);
    proof {
        lemma_find_table_bounds(db.tables@, table_name@);
    }
    db.tables.push(table);
    proof {
        assert forall|i: int, j: int|
            0 <= i < j < db.tables@.len() implies (#[trigger] db.tables@[i]).tb_name@ != (
        #[trigger] db.tables@[j]).tb_name@ by {
            if j == db.tables@.len() - 1 {
                assert(db.tables@[i] == old(db).tables@[i]);
                assert(db.tables@[j].tb_name@ == table_name@);
            } else {
                assert(db.tables@[i] == old(db).tables@[i]);
                assert(db.tables@[j] == old(db).tables@[j]);
            }
        }
    }
    Ok("CREATE TABLE Statement executed.".to_owned())
}

/// Every supplied column name exists in the table.
pub open spec fn columns_exist(t: Table, cols: Seq<String>) -> bool {
    forall|j: int| 0 <= j < cols.len() ==> t.has_col((#[trigger] cols[j])@)
}

/// Every pair of the row passes the uniqueness pre-check against the
/// table's secondary indexes.
pub open spec fn row_passes_precheck(t: Table, cols: Seq<String>, row: Seq<String>) -> bool {
    forall|j: int|
        0 <= j < cols.len() ==> unique_pair_ok(t.col_at((#[trigger] cols[j])@), row[j]@)
}

/// Inserts the rows of a normalized `INSERT` statement into its target
/// table: the table and every target column must exist; each row must
/// match the column count, pass the uniqueness pre-check, and insert
/// cleanly, in order. The first failure stops the run; rows already
/// inserted stay.
pub fn insert_into_table(db: &mut Database, insert_query: InsertQuery) -> (r: Result<String>)
    requires
        old(db).wf(),
    ensures
        final(db).wf(),
        final(db).tables@.len() == old(db).tables@.len(),
        !old(db).has_table(insert_query.table_name@) ==> (r matches Err(e) && (e matches
            RUSQLError::Internal(m) && m@ == "Table doesn't exist."@) && *final(db) == *old(db)),
        old(db).has_table(insert_query.table_name@) && (exists|j: int|
            0 <= j < insert_query.columns@.len() && !old(db).table_at(
                insert_query.table_name@,
            ).has_col((#[trigger] insert_query.columns@[j])@)) ==> (r matches Err(e) && (e
            matches RUSQLError::Internal(m) && m@ == "Cannot Insert, column doesn't exist."@)
            && *final(db) == *old(db)),
        r matches Ok(m) ==> m@ == "INSERT Statement executed."@,
        forall|i: int|
            0 <= i < old(db).tables@.len() ==> (#[trigger] final(db).tables@[i]).tb_name@ == old(
                db,
            ).tables@[i].tb_name@,
        (exists|i: int|
            0 <= i < insert_query.rows@.len() && (#[trigger] insert_query.rows@[i])@.len()
                != insert_query.columns@.len()) ==> r is Err,
        ({
            let t = old(db).table_at(insert_query.table_name@);
            let cs = insert_query.columns@;
            let rows = insert_query.rows@;
            &&& (old(db).has_table(insert_query.table_name@) && columns_exist(t, cs) && rows.len()
                >= 1 && rows[0]@.len() != cs.len()) ==> (r matches Err(e) && (e matches
                RUSQLError::Internal(m) && m@ == "Column count and value count mismatch. Columns: "@
                + numtext::dec_digits(cs.len()) + ", Values: "@ + numtext::dec_digits(
                rows[0]@.len(),
            )) && *final(db) == *old(db))
            &&& (old(db).has_table(insert_query.table_name@) && columns_exist(t, cs) && rows.len()
                >= 1 && rows[0]@.len() == cs.len() && !row_passes_precheck(t, cs, rows[0]@)) ==> (r
                matches Err(e) && (e matches RUSQLError::Internal(m) && exists|j: int, m0: Seq<char>|
                0 <= j < cs.len() && !(t.has_col(cs[j]@) && unique_pair_ok(
                    t.col_at(cs[j]@),
                    rows[0]@[j]@,
                )) && #[trigger] unique_error_message(t, cs[j], rows[0]@[j], m0) && m@
                == "Unique key constraint violation: "@ + ("General error: "@ + m0)) && *final(db)
                == *old(db))
            &&& (old(db).has_table(insert_query.table_name@) && columns_exist(t, cs) && rows.len()
                == 1 && rows[0]@.len() == cs.len() && row_passes_precheck(t, cs, rows[0]@)
                && t.can_insert(cs, rows[0]@)) ==> r is Ok
        }),
        r is Ok && insert_query.rows@.len() == 0 ==> *final(db) == *old(db),
        r is Ok && insert_query.rows@.len() == 1 ==> ({
            let ti = find_table(old(db).tables@, insert_query.table_name@);
            &&& 0 <= ti < old(db).tables@.len()
            &&& crate::laws::insert_effect(
                old(db).tables@[ti],
                final(db).tables@[ti],
                insert_query.columns@,
                insert_query.rows@[0]@,
            )
            &&& forall|k: int|
                0 <= k < old(db).tables@.len() && k != ti ==> final(db).tables@[k] == old(
                    db,
                ).tables@[k]
        }),
{
    let ti = match db.find_table_idx(insert_query.table_name.as_str()) {
        Some(i) => i,
        None => {
            return Err(RUSQLError::Internal("Table doesn't exist.".to_owned()));
        },
    };
    let cols = &insert_query.columns;
    let nc = cols.len();
    let mut j: usize = 0;
    while j < nc
        invariant
            nc == cols@.len(),
            cols@ == insert_query.columns@,
            j <= nc,
            *db == *old(db),
            db.wf(),
            ti < db.tables@.len(),
            find_table(db.tables@, insert_query.table_name@) == ti as int,
            forall|k: int|
                0 <= k < j ==> db.tables@[ti as int].has_col((#[trigger] cols@[k])@),
        decreases nc - j,
    {
        if !db.tables[ti].contains_column(cols[j].clone()) {
            return Err(RUSQLError::Internal("Cannot Insert, column doesn't exist.".to_owned()));
        }
        j += 1;
    }
    let nr = insert_query.rows.len();
    let mut ri: usize = 0;
    while ri < nr
        invariant
            nr == insert_query.rows@.len(),
            nc == cols@.len(),
            cols@ == insert_query.columns@,
            ri <= nr,
            db.wf(),
            db.tables@.len() == old(db).tables@.len(),
            ti < db.tables@.len(),
            find_table(old(db).tables@, insert_query.table_name@) == ti as int,
            forall|k: int|
                0 <= k < nc ==> old(db).tables@[ti as int].has_col((#[trigger] cols@[k])@),
            ri == 0 ==> *db == *old(db),
            forall|k: int|
                0 <= k < ri ==> (#[trigger] insert_query.rows@[k])@.len() == cols@.len(),
            ri >= 1 ==> row_passes_precheck(
                old(db).tables@[ti as int],
                cols@,
                insert_query.rows@[0]@,
            ),
            forall|k: int|
                0 <= k < db.tables@.len() ==> (#[trigger] db.tables@[k]).tb_name@ == old(
                    db,
                ).tables@[k].tb_name@,
            nr == 1 && ri == 1 ==> crate::laws::insert_effect(
                old(db).tables@[ti as int],
                db.tables@[ti as int],
                cols@,
                insert_query.rows@[0]@,
            ) && (forall|k: int|
                0 <= k < old(db).tables@.len() && k != ti as int ==> db.tables@[k] == old(
                    db,
                ).tables@[k]),
        decreases nr - ri,
    {
        let row = &insert_query.rows[ri];
        proof {
            assert(old(db).table_at(insert_query.table_name@) == old(db).tables@[ti as int]);
        }
        if nc != row.len() {
            let mut m: String = "Column count and value count mismatch. Columns: ".to_owned();
            m.append(numtext::fmt_usize(nc).as_str());
            m.append(", Values: ");
            m.append(numtext::fmt_usize(row.len()).as_str());
            return Err(RUSQLError::Internal(m));
        }
        match db.tables[ti].validate__unique_constraint(cols, row) {
            Ok(()) => {
                proof {
                    if ri == 0 {
                        assert(row_passes_precheck(
                            old(db).tables@[ti as int],
                            cols@,
                            insert_query.rows@[0]@,
                        ));
                    }
                }
            },
            Err(err) => {
                proof {
                    if ri == 0 {
                        assert(db.tables@[ti as int] == old(db).tables@[ti as int]);
                    }
                }
                let mut m: String = "Unique key constraint violation: ".to_owned();
                m.append(err.display_string().as_str());
                return Err(RUSQLError::Internal(m));
            },
        }
        let ghost pre_tables = db.tables@;
        let outcome = db.tables[ti].insert_row(cols, row);
        proof {
            assert forall|x: int, y: int|
                0 <= x < y < db.tables@.len() implies (#[trigger] db.tables@[x]).tb_name@ != (
            #[trigger] db.tables@[y]).tb_name@ by {
                if x != ti as int {
                    assert(db.tables@[x] == pre_tables[x]);
                }
                if y != ti as int {
                    assert(db.tables@[y] == pre_tables[y]);
                }
                assert(db.tables@[ti as int].tb_name == pre_tables[ti as int].tb_name);
            }
        }
        match outcome {
            Ok(()) => {},
            Err(e) => {
                return Err(e);
            },
        }
        proof {
            if nr == 1 {
                assert(db.tables@ == pre_tables.update(ti as int, db.tables@[ti as int]));
                assert(crate::laws::insert_effect(
                    pre_tables[ti as int],
                    db.tables@[ti as int],
                    cols@,
                    insert_query.rows@[ri as int]@,
                ));
            }
        }
        ri += 1;
    }
    Ok("INSERT Statement executed.".to_owned())
}

/// Removes the first table a `DROP TABLE` statement names; a missing
/// table is a `General` error, any other drop shape an `Internal` one.
pub fn drop_table(query: &sqlparser::ast::Statement, db: &mut Database) -> (r: Result<String>)
    requires
        old(db).wf(),
    ensures
        final(db).wf(),
        r matches Ok(m) ==> m@ == "DROP TABLE Statement executed."@,
        r is Err ==> *final(db) == *old(db),
        r is Ok ==> exists|i: int|
            0 <= i < old(db).tables@.len() && final(db).tables@ == old(db).tables@.remove(i),
{
    match sqlast::drop_parts(query) {
        Some((is_table, names)) => {
            if is_table {
                if names.len() > 0 {
                    let ghost nm = names@[0]@;
                    proof {
                        lemma_find_table_bounds(db.tables@, nm);
                    }
                    match db.drop_table(names[0].clone()) {
                        Ok(()) => Ok("DROP TABLE Statement executed.".to_owned()),
                        Err(e) => Err(e),
                    }
                } else {
                    Err(RUSQLError::Internal("Table name not found.".to_owned()))
                }
            } else {
                Err(RUSQLError::Internal("Only DROP TABLE is supported.".to_owned()))
            }
        },
        None => Err(RUSQLError::Internal("Invalid Drop Statement".to_owned())),
    }
}

/// Acknowledges a `LIST TABLES;` command; a renderer reads the names
/// through `Database::list_table_names`.
pub fn list_tables(db: &Database) -> (r: Result<String>)
    ensures
        r matches Ok(m) && m@ == "LIST TABLES Statement executed."@,
{
    let _ = db.table_count();
    Ok("LIST TABLES Statement executed.".to_owned())
}

/// Routes one parsed statement to its handler: create, insert and drop
/// mutate the database; select and delete report as not implemented yet;
/// anything else is rejected as unsupported.
pub fn execute_statement(query: &sqlparser::ast::Statement, db: &mut Database) -> (r: Result<
    String,
>)
    requires
        old(db).wf(),
    ensures
        final(db).wf(),
        r is Err ==> final(db).tables@.len() == old(db).tables@.len() && (forall|i: int|
            0 <= i < old(db).tables@.len() ==> (#[trigger] final(db).tables@[i]).tb_name@ == old(
                db,
            ).tables@[i].tb_name@),
{
    match sqlast::statement_kind(query) {
        StatementKind::CreateTable => match CreateQuery::new(query) {
            Ok(cq) => create_table(db, cq),
            Err(e) => Err(e),
        },
        StatementKind::Insert => match InsertQuery::new(query) {
            Ok(iq) => insert_into_table(db, iq),
            Err(e) => Err(e),
        },
        StatementKind::Drop => match sqlast::drop_parts(query) {
            Some((true, _)) => drop_table(query, db),
            Some((false, _)) => Err(
                RUSQLError::NotImplemented("Only DROP TABLE is supported".to_owned()),
            ),
            None => Err(RUSQLError::Internal("Invalid Drop Statement".to_owned())),
        },
        StatementKind::Query => Ok("Not Implemented yet.".to_owned()),
        StatementKind::Delete => Ok("Not Implemented yet.".to_owned()),
        StatementKind::Other => Err(
            RUSQLError::NotImplemented("SQL command not supported yet.".to_owned()),
        ),
    }
}

/// Executes a parsed command: exactly one statement must have resulted
/// from parsing; any other count is a parser-class error that names the
/// count and leaves the database unchanged.
pub fn execute_statements(statements: &Vec<sqlparser::ast::Statement>, db: &mut Database) -> (r:
    Result<String>)
    requires
        old(db).wf(),
    ensures
        final(db).wf(),
        statements@.len() != 1 ==> (r matches Err(e) && (e matches RUSQLError::SqlError(m) && m@
            == "Expected one statement, found "@ + numtext::dec_digits(statements@.len()))
            && *final(db) == *old(db)),
        r is Err ==> final(db).tables@.len() == old(db).tables@.len() && (forall|i: int|
            0 <= i < old(db).tables@.len() ==> (#[trigger] final(db).tables@[i]).tb_name@ == old(
                db,
            ).tables@[i].tb_name@),
{
    if statements.len() != 1 {
        let mut m: String = "Expected one statement, found ".to_owned();
        m.append(numtext::fmt_usize(statements.len()).as_str());
        return Err(RUSQLError::SqlError(m));
    }
    execute_statement(&statements[0], db)
}

/// The entry point of the engine: a literal `LIST TABLES;` command (in any
/// ASCII case, surrounded by any blanks) short-circuits to table
/// enumeration; any other text goes through the SQL parser and the
/// dispatcher. A parser failure is returned as a parser-class error.
pub fn process_command(query: &str, db: &mut Database) -> (r: Result<String>)
    requires
        old(db).wf(),
    ensures
        final(db).wf(),
        text::ci_equal(text::trim_spec(query@), "list tables;"@) ==> (r matches Ok(m) && m@
            == "LIST TABLES Statement executed."@ && *final(db) == *old(db)),
        r is Err ==> final(db).tables@.len() == old(db).tables@.len() && (forall|i: int|
            0 <= i < old(db).tables@.len() ==> (#[trigger] final(db).tables@[i]).tb_name@ == old(
                db,
            ).tables@[i].tb_name@),
{
    let trimmed = text::trim(query);
    if text::str_eq_ci(trimmed, "list tables;") {
        return list_tables(db);
    }
    match sqlast::parse_sql_text(query) {
        Ok(statements) => execute_statements(&statements, db),
        Err(msg) => Err(RUSQLError::SqlError(msg)),
    }
}

} // verus!
