use vstd::prelude::*;

use crate::sqlast;
use crate::sqlast::ExtractedLit;
use crate::error::RUSQLError;
use crate::error::Result;

verus! {

/// The literal string a reduced value expression stands for: numbers and
/// identifiers keep their text, booleans render as `true`/`false`, SQL
/// NULL becomes the `Null` marker, and anything else the empty string.
pub open spec fn spec_reduce(l: ExtractedLit) -> Seq<char> {
    match l {
        ExtractedLit::Number(s) => s@,
        ExtractedLit::Bool(b) => if b {
            "true"@
        } else {
            "false"@
        },
        ExtractedLit::Str(s) => s@,
        ExtractedLit::Null => "Null"@,
        ExtractedLit::Ident(s) => s@,
        ExtractedLit::Other => Seq::<char>::empty(),
    }
}

/// Reduces one extracted value expression to its literal string.
pub fn reduce_literal(l: ExtractedLit) -> (r: String)
    ensures
        r@ == spec_reduce(l),
{
    match l {
        ExtractedLit::Number(s) => s,
        ExtractedLit::Bool(b) => if b {
            "true".to_owned()
        } else {
            "false".to_owned()
        },
        ExtractedLit::Str(s) => s,
        ExtractedLit::Null => "Null".to_owned(),
        ExtractedLit::Ident(s) => s,
        ExtractedLit::Other => String::new(),
    }
}

/// A normalized `INSERT` statement: the target table name, the target
/// column names, and one or more rows of literal value strings.
#[derive(Debug)]
pub struct InsertQuery {
    pub table_name: String,
    pub columns: Vec<String>,
    pub rows: Vec<Vec<String>>,
}

/// Reduces the extracted value rows to their literal strings: one output
/// row per input row and one literal per expression, so every row keeps
/// its arity even where an expression reduces to the empty string.
pub fn reduce_rows(expr_rows: &Vec<Vec<sqlparser::ast::Expr>>) -> (r: Vec<Vec<String>>)
    ensures
        r@.len() == expr_rows@.len(),
        forall|i: int| 0 <= i < r@.len() ==> (#[trigger] r@[i])@.len() == expr_rows@[i]@.len(),
{
    let mut rows: Vec<Vec<String>> = Vec::new();
    let nr = expr_rows.len();
    let mut i: usize = 0;
    while i < nr
        invariant
            nr == expr_rows@.len(),
            i <= nr,
            rows@.len() == i,
            forall|k: int| 0 <= k < i ==> (#[trigger] rows@[k])@.len() == expr_rows@[k]@.len(),
        decreases nr - i,
    {
        let row = &expr_rows[i];
        let mut out: Vec<String> = Vec::new();
        let nc = row.len();
        let mut j: usize = 0;
        while j < nc
            invariant
                nc == row@.len(),
                j <= nc,
                out@.len() == j,
            decreases nc - j,
        {
            out.push(reduce_literal(sqlast::expr_literal(&row[j])));
            j += 1;
        }
        rows.push(out);
        i += 1;
    }
    rows
}

impl InsertQuery {
    /// Normalizes an `INSERT ... VALUES (...)` statement: the target
    /// table and column names are taken over and every value expression is
    /// reduced to its literal string through `reduce_rows`, which keeps
    /// the row count and each row's arity. Any other statement shape is an
    /// `Internal` error.
    pub fn new(statement: &sqlparser::ast::Statement) -> (r: Result<InsertQuery>)
        ensures
            r matches Err(e) ==> (e matches RUSQLError::Internal(m) && m@
                == "Error Parsing Insert Query."@),
    {
        match sqlast::insert_parts(statement) {
            Some((table_name, columns, expr_rows)) => {
                let rows = reduce_rows(&expr_rows);
                Ok(InsertQuery { table_name, columns, rows })
            },
            None => Err(RUSQLError::Internal("Error Parsing Insert Query.".to_owned())),
        }
    }
}

} // verus!
