use vstd::prelude::*;

use crate::create::RawOption;

verus! {

#[verifier::external_type_specification]
#[verifier::external_body]
pub struct ExStatement(sqlparser::ast::Statement);

#[verifier::external_type_specification]
#[verifier::external_body]
pub struct ExColumnDef(sqlparser::ast::ColumnDef);

#[verifier::external_type_specification]
#[verifier::external_body]
pub struct ExColumnOptionDef(sqlparser::ast::ColumnOptionDef);

#[verifier::external_type_specification]
#[verifier::external_body]
pub struct ExExpr(sqlparser::ast::Expr);

/// The statement shapes the dispatcher distinguishes.
#[derive(Debug, PartialEq, Eq, Structural, Clone, Copy)]
pub enum StatementKind {
    CreateTable,
    Insert,
    Drop,
    Query,
    Delete,
    Other,
}

/// A value expression reduced to plain data: the literal kinds the engine
/// accepts, a bare identifier, or anything else.
#[derive(Debug)]
pub enum ExtractedLit {
    Number(String),
    Bool(bool),
    Str(String),
    Null,
    Ident(String),
    Other,
}

/// Relies on sqlparser's `Parser::parse_sql` with the SQLite dialect: the
/// text is parsed into a list of statements, or a parser error whose debug
/// rendering is returned as the message.
#[verifier::external_body]
pub(crate) fn parse_sql_text(query: &str) -> (r: Result<Vec<sqlparser::ast::Statement>, String>) {
    let dialect = sqlparser::dialect::SQLiteDialect {};
    match sqlparser::parser::Parser::parse_sql(&dialect, query) {
        Ok(v) => Ok(v),
        Err(e) => Err(format!("{:?}", e)),
    }
}

/// Relies on sqlparser's `Statement` enum: tells the statement kinds the
/// dispatcher handles apart, one arm each.
#[verifier::external_body]
pub(crate) fn statement_kind(stmt: &sqlparser::ast::Statement) -> StatementKind {
    match stmt {
        sqlparser::ast::Statement::CreateTable(..) => StatementKind::CreateTable,
        sqlparser::ast::Statement::Insert(..) => StatementKind::Insert,
        sqlparser::ast::Statement::Drop { .. } => StatementKind::Drop,
        sqlparser::ast::Statement::Query(..) => StatementKind::Query,
        sqlparser::ast::Statement::Delete(..) => StatementKind::Delete,
        _ => StatementKind::Other,
    }
}

/// Relies on sqlparser's `CreateTable` node: moves the table name (via its
/// `Display` form) and the column definitions out of a `CREATE TABLE`
/// statement.
#[verifier::external_body]
pub(crate) fn create_parts(stmt: &sqlparser::ast::Statement) -> (r: Option<
    (String, Vec<sqlparser::ast::ColumnDef>),
>) {
    match stmt {
        sqlparser::ast::Statement::CreateTable(ct) => Some(
            (ct.name.to_string(), ct.columns.clone()),
        ),
        _ => None,
    }
}

/// Relies on sqlparser's `ColumnDef` node: moves the column name and data
/// type (via their `Display` forms) and the option list out.
#[verifier::external_body]
pub(crate) fn column_parts(col: &sqlparser::ast::ColumnDef) -> (r: (
    String,
    String,
    Vec<sqlparser::ast::ColumnOptionDef>,
)) {
    (col.name.to_string(), col.data_type.to_string(), col.options.clone())
}

/// Relies on sqlparser's `ColumnOption` enum: tells the option kinds the
/// engine folds apart, one arm each.
#[verifier::external_body]
pub(crate) fn option_kind(opt: &sqlparser::ast::ColumnOptionDef) -> (r: RawOption) {
    match &opt.option {
        sqlparser::ast::ColumnOption::PrimaryKey(_) => RawOption::PrimaryKey,
        sqlparser::ast::ColumnOption::Unique(_) => RawOption::Unique,
        sqlparser::ast::ColumnOption::NotNull => RawOption::NotNull,
        _ => RawOption::Other,
    }
}

/// Relies on sqlparser's `Insert` node: moves the target table name, the
/// target column names (via their `Display` forms) and the literal value
/// rows out of an `INSERT ... VALUES (...)` statement. Any other source
/// shape yields nothing.
#[verifier::external_body]
pub(crate) fn insert_parts(stmt: &sqlparser::ast::Statement) -> (r: Option<
    (String, Vec<String>, Vec<Vec<sqlparser::ast::Expr>>),
>) {
    let ins = match stmt {
        sqlparser::ast::Statement::Insert(i) => i,
        _ => return None,
    };
    let name = match &ins.table {
        sqlparser::ast::TableObject::TableName(n) => n.to_string(),
        _ => return None,
    };
    let rows = match ins.source.as_deref().map(|q| q.body.as_ref()) {
        Some(sqlparser::ast::SetExpr::Values(v)) => v.rows.iter().map(|r| r.content.clone()),
        _ => return None,
    };
    Some((name, ins.columns.iter().map(|c| c.to_string()).collect(), rows.collect()))
}

/// Relies on sqlparser's `Expr` and `Value` nodes: reduces a value
/// expression to plain data, one arm per accepted literal kind, moving the
/// payload out.
#[verifier::external_body]
pub(crate) fn expr_literal(e: &sqlparser::ast::Expr) -> (r: ExtractedLit) {
    match e {
        sqlparser::ast::Expr::Value(v) => match &v.value {
            sqlparser::ast::Value::Number(n, _) => ExtractedLit::Number(n.clone()),
            sqlparser::ast::Value::Boolean(b) => ExtractedLit::Bool(*b),
            sqlparser::ast::Value::SingleQuotedString(s) => ExtractedLit::Str(s.clone()),
            sqlparser::ast::Value::Null => ExtractedLit::Null,
            _ => ExtractedLit::Other,
        },
        sqlparser::ast::Expr::Identifier(i) => ExtractedLit::Ident(i.to_string()),
        _ => ExtractedLit::Other,
    }
}

/// Relies on sqlparser's `Statement::Drop` node: moves the object kind
/// (whether it is a table drop) and the object names (via their `Display`
/// forms) out.
#[verifier::external_body]
pub(crate) fn drop_parts(stmt: &sqlparser::ast::Statement) -> (r: Option<(bool, Vec<String>)>) {
    match stmt {
        sqlparser::ast::Statement::Drop { object_type, names, .. } => Some(
            (
                matches!(object_type, sqlparser::ast::ObjectType::Table),
                names.iter().map(|n| n.to_string()).collect(),
            ),
        ),
        _ => None,
    }
}

} // verus!
