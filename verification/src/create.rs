use vstd::prelude::*;

use crate::error::RUSQLError;
use crate::error::Result;
use crate::text;

verus! {

/// One column option annotation, as the engine distinguishes them.
#[derive(Debug, PartialEq, Eq, Structural, Clone, Copy)]
pub enum RawOption {
    PrimaryKey,
    Unique,
    NotNull,
    Other,
}

/// One column declaration as it leaves the SQL parser: the name, the
/// declared type's source token, and the option annotations in source
/// order.
#[derive(Debug)]
pub struct RawColumnDef {
    pub name: String,
    pub type_token: String,
    pub options: Vec<RawOption>,
}

/// The family token a source type token maps to: small, big and plain
/// integers to `Integer`, booleans to `Bool`, text and varchar to `Text`,
/// real, float, double and decimal to `Real`, anything else to `Invalid`.
pub open spec fn spec_type_family(s: Seq<char>) -> Seq<char> {
    if text::ci_equal(s, "smallint"@) || text::ci_equal(s, "int"@) || text::ci_equal(s, "bigint"@)
        || text::ci_equal(s, "integer"@) {
        "Integer"@
    } else if text::ci_equal(s, "boolean"@) || text::ci_equal(s, "bool"@) {
        "Bool"@
    } else if text::ci_equal(s, "text"@) || text::ci_prefix(s, "varchar"@) {
        "Text"@
    } else if text::ci_equal(s, "real"@) || text::ci_prefix(s, "float"@) || text::ci_prefix(
        s,
        "double"@,
    ) || text::ci_prefix(s, "decimal"@) {
        "Real"@
    } else {
        "Invalid"@
    }
}

/// Maps a source type token to its family token.
pub fn type_family(tok: &str) -> (r: String)
    ensures
        r@ == spec_type_family(tok@),
{
    if text::str_eq_ci(tok, "smallint") || text::str_eq_ci(tok, "int") || text::str_eq_ci(
        tok,
        "bigint",
    ) || text::str_eq_ci(tok, "integer") {
        "Integer".to_owned()
    } else if text::str_eq_ci(tok, "boolean") || text::str_eq_ci(tok, "bool") {
        "Bool".to_owned()
    } else if text::str_eq_ci(tok, "text") || text::str_prefix_ci(tok, "varchar") {
        "Text".to_owned()
    } else if text::str_eq_ci(tok, "real") || text::str_prefix_ci(tok, "float")
        || text::str_prefix_ci(tok, "double") || text::str_prefix_ci(tok, "decimal") {
        "Real".to_owned()
    } else {
        "Invalid".to_owned()
    }
}

/// Whether a family token admits primary-key and uniqueness annotations:
/// real and boolean columns cannot be indexed, so theirs are ignored.
pub open spec fn family_indexable(fam: Seq<char>) -> bool {
    fam != "Real"@ && fam != "Bool"@
}

/// Folds the option annotations of one column into its three flags
/// `(is_pk, not_null, is_unique)`, in source order. A primary-key
/// annotation enforces not-null and uniqueness; a not-null annotation acts
/// independently; on a non-indexable family the primary-key and uniqueness
/// annotations are ignored.
pub open spec fn spec_fold(fam_ok: bool, opts: Seq<RawOption>) -> (bool, bool, bool)
    decreases opts.len(),
{
    if opts.len() == 0 {
        (false, false, false)
    } else {
        let p = spec_fold(fam_ok, opts.drop_last());
        match opts.last() {
            RawOption::PrimaryKey => if fam_ok {
                (true, true, true)
            } else {
                p
            },
            RawOption::Unique => if fam_ok {
                (p.0, p.1, true)
            } else {
                p
            },
            RawOption::NotNull => (p.0, true, p.2),
            RawOption::Other => p,
        }
    }
}

/// Whether one raw declaration folds to a primary-key column.
pub open spec fn folded_pk(c: RawColumnDef) -> bool {
    spec_fold(family_indexable(spec_type_family(c.type_token@)), c.options@).0
}

/// A declaration folds to a primary key exactly when an admissible
/// primary-key annotation occurs among its options.
proof fn lemma_fold_pk(fam_ok: bool, opts: Seq<RawOption>)
    ensures
        spec_fold(fam_ok, opts).0 <==> fam_ok && exists|k: int|
            0 <= k < opts.len() && opts[k] == RawOption::PrimaryKey,
    decreases opts.len(),
{
    if opts.len() > 0 {
        lemma_fold_pk(fam_ok, opts.drop_last());
        if spec_fold(fam_ok, opts).0 {
            if opts.last() == RawOption::PrimaryKey && fam_ok {
                assert(opts[opts.len() - 1] == RawOption::PrimaryKey);
            } else {
                let k = choose|k: int|
                    0 <= k < opts.drop_last().len() && opts.drop_last()[k]
                        == RawOption::PrimaryKey;
                assert(opts[k] == RawOption::PrimaryKey);
            }
        } else {
            if fam_ok {
                assert(forall|k: int|
                    0 <= k < opts.len() - 1 ==> opts.drop_last()[k] == #[trigger] opts[k]);
            }
        }
    }
}

/// One column declaration of a `CREATE TABLE` statement, normalized: the
/// declared type is carried as its family token (`Integer`, `Text`, `Real`,
/// `Bool`, or `Invalid`) and the option annotations are folded into flags.
#[derive(Debug)]
pub struct ParsedColumn {
    pub name: String,
    pub datatype: String,
    pub is_pk: bool,
    pub not_null: bool,
    pub is_unique: bool,
}

impl ParsedColumn {
    /// Field-wise equality up to the character content of the strings.
    pub open spec fn same(&self, other: &ParsedColumn) -> bool {
        &&& self.name@ == other.name@
        &&& self.datatype@ == other.datatype@
        &&& self.is_pk == other.is_pk
        &&& self.not_null == other.not_null
        &&& self.is_unique == other.is_unique
    }

    /// The normalization of one raw declaration.
    pub open spec fn from_raw(&self, c: RawColumnDef) -> bool {
        let fam = spec_type_family(c.type_token@);
        let flags = spec_fold(family_indexable(fam), c.options@);
        &&& self.name@ == c.name@
        &&& self.datatype@ == fam
        &&& self.is_pk == flags.0
        &&& self.not_null == flags.1
        &&& self.is_unique == flags.2
    }
}

impl PartialEq for ParsedColumn {
    fn eq(&self, other: &ParsedColumn) -> (r: bool) {
        self.name == other.name && self.datatype == other.datatype && self.is_pk == other.is_pk
            && self.not_null == other.not_null && self.is_unique == other.is_unique
    }
}

impl vstd::std_specs::cmp::PartialEqSpecImpl for ParsedColumn {
    open spec fn obeys_eq_spec() -> bool {
        true
    }

    open spec fn eq_spec(&self, other: &ParsedColumn) -> bool {
        self.same(other)
    }
}

/// A normalized, type-checked `CREATE TABLE` statement: the table name and
/// its column declarations, in declaration order.
#[derive(Debug)]
pub struct CreateQuery {
    pub table_name: String,
    pub columns: Vec<ParsedColumn>,
}

impl CreateQuery {
    /// Column names are pairwise distinct and at most one column is flagged
    /// as the primary key.
    pub open spec fn wf(&self) -> bool {
        &&& forall|i: int, j: int|
            0 <= i < j < self.columns@.len() ==> (#[trigger] self.columns@[i]).name@
                != (#[trigger] self.columns@[j]).name@
        &&& forall|i: int, j: int|
            0 <= i < self.columns@.len() && 0 <= j < self.columns@.len()
                && (#[trigger] self.columns@[i]).is_pk && (#[trigger] self.columns@[j]).is_pk
                ==> i == j
    }

    /// Normalizes raw column declarations into a `CreateQuery`: each type
    /// token is mapped to its family, each option list is folded into
    /// flags. A repeated column name and a second primary-key column are
    /// rejected, in declaration order, before any table is built.
    pub fn from_parts(table_name: String, cols: Vec<RawColumnDef>) -> (r: Result<CreateQuery>)
        ensures
            r is Ok <==> (forall|i: int, j: int|
                0 <= i < j < cols@.len() ==> (#[trigger] cols@[i]).name@
                    != (#[trigger] cols@[j]).name@) && (forall|i: int, j: int|
                0 <= i < j < cols@.len() ==> !(folded_pk(#[trigger] cols@[i]) && folded_pk(
                    #[trigger] cols@[j],
                ))),
            r matches Ok(cq) ==> ({
                &&& cq.wf()
                &&& cq.table_name@ == table_name@
                &&& cq.columns@.len() == cols@.len()
                &&& forall|i: int|
                    0 <= i < cols@.len() ==> (#[trigger] cq.columns@[i]).from_raw(cols@[i])
            }),
            r matches Err(e) ==> (e matches RUSQLError::Internal(m) && ((exists|i: int, j: int|
                0 <= i < j < cols@.len() && (#[trigger] cols@[i]).name@ == (
                #[trigger] cols@[j]).name@ && m@ == "Duplicate column name: "@ + cols@[j].name@)
                || ((exists|i: int, j: int|
                0 <= i < j < cols@.len() && folded_pk(#[trigger] cols@[i]) && folded_pk(
                    #[trigger] cols@[j],
                )) && m@ == "Table "@ + table_name@
                + " already has more than one primary key"@))),
    {
        let n = cols.len();
        let mut parsed: Vec<ParsedColumn> = Vec::new();
        let mut seen_pk: bool = false;
        let mut i: usize = 0;
        while i < n
            invariant
                n == cols@.len(),
                i <= n,
                parsed@.len() == i,
                forall|k: int| 0 <= k < i ==> (#[trigger] parsed@[k]).from_raw(cols@[k]),
                forall|k: int, l: int|
                    0 <= k < l < i ==> (#[trigger] cols@[k]).name@ != (#[trigger] cols@[l]).name@,
                seen_pk <==> exists|k: int| 0 <= k < i && folded_pk(#[trigger] cols@[k]),
                forall|k: int, l: int|
                    0 <= k < l < i ==> !(folded_pk(#[trigger] cols@[k]) && folded_pk(
                        #[trigger] cols@[l],
                    )),
                forall|k: int|
                    0 <= k < i ==> ((#[trigger] parsed@[k]).is_pk == folded_pk(cols@[k])),
            decreases n - i,
        {
            let c = &cols[i];
            // A repeated column name is rejected.
            let mut k: usize = 0;
            while k < i
                invariant
                    i < n,
                    n == cols@.len(),
                    k <= i,
                    c.name@ == cols@[i as int].name@,
                    forall|l: int| 0 <= l < k ==> (#[trigger] cols@[l]).name@ != cols@[i as int].name@,
                decreases i - k,
            {
                if text::str_eq(cols[k].name.as_str(), c.name.as_str()) {
                    proof {
                        assert(0 <= k < i < cols@.len() && cols@[k as int].name@ == cols@[i as int].name@);
                    }
                    let mut m: String = "Duplicate column name: ".to_owned();
                    m.append(c.name.as_str());
                    return Err(RUSQLError::Internal(m));
                }
                k += 1;
            }
            let fam = type_family(c.type_token.as_str());
            let fam_ok: bool = !(text::str_eq(fam.as_str(), "Real") || text::str_eq(
                fam.as_str(),
                "Bool",
            ));
            proof {
                assert(fam_ok == family_indexable(spec_type_family(c.type_token@)));
            }
            let mut is_pk: bool = false;
            let mut not_null: bool = false;
            let mut is_unique: bool = false;
            let m = c.options.len();
            let mut oi: usize = 0;
            while oi < m
                invariant
                    m == c.options@.len(),
                    oi <= m,
                    fam_ok == family_indexable(spec_type_family(c.type_token@)),
                    (is_pk, not_null, is_unique) == spec_fold(
                        fam_ok,
                        c.options@.subrange(0, oi as int),
                    ),
                    seen_pk ==> !is_pk,
                    seen_pk <==> exists|k: int| 0 <= k < i && folded_pk(#[trigger] cols@[k]),
                    i < n,
                    n == cols@.len(),
                    c == cols@[i as int],
                decreases m - oi,
            {
                let ghost pre = c.options@.subrange(0, oi as int);
                let ghost ext = c.options@.subrange(0, oi + 1);
                proof {
                    assert(ext.drop_last() =~= pre);
                    assert(ext.last() == c.options@[oi as int]);
                }
                match c.options[oi] {
                    RawOption::PrimaryKey => {
                        if fam_ok {
                            if seen_pk {
                                proof {
                                    lemma_fold_pk(fam_ok, c.options@);
                                    assert(c.options@[oi as int] == RawOption::PrimaryKey);
                                    assert(folded_pk(cols@[i as int]));
                                    let kprev = choose|k: int|
                                        0 <= k < i && folded_pk(#[trigger] cols@[k]);
                                    assert(0 <= kprev < i < cols@.len() && folded_pk(cols@[kprev])
                                        && folded_pk(cols@[i as int]));
                                }
                                let mut msg: String = "Table ".to_owned();
                                msg.append(table_name.as_str());
                                msg.append(" already has more than one primary key");
                                return Err(RUSQLError::Internal(msg));
                            }
                            is_pk = true;
                            not_null = true;
                            is_unique = true;
                        }
                    },
                    RawOption::Unique => {
                        if fam_ok {
                            is_unique = true;
                        }
                    },
                    RawOption::NotNull => {
                        not_null = true;
                    },
                    RawOption::Other => {},
                }
                oi += 1;
            }
            proof {
                assert(c.options@.subrange(0, m as int) =~= c.options@);
                assert((is_pk, not_null, is_unique) == spec_fold(fam_ok, c.options@));
                assert(is_pk == folded_pk(cols@[i as int]));
            }
            let new_seen: bool = seen_pk || is_pk;
            parsed.push(
                ParsedColumn {
                    name: c.name.clone(),
                    datatype: fam,
                    is_pk,
                    not_null,
                    is_unique,
                },
            );
            seen_pk = new_seen;
            i += 1;
        }
        let cq = CreateQuery { table_name, columns: parsed };
        Ok(cq)
    }
}


impl CreateQuery {
    /// Builds a normalized `CreateQuery` from a parsed statement: accepts
    /// only the `CREATE TABLE` shape, extracts the raw declarations and
    /// normalizes them with `from_parts`. Any other shape is an `Internal`
    /// error.
    pub fn new(statement: &sqlparser::ast::Statement) -> (r: Result<CreateQuery>)
        ensures
            r matches Ok(cq) ==> cq.wf(),
            r matches Err(e) ==> e is Internal,
    {
        match crate::sqlast::create_parts(statement) {
            Some((table_name, cols)) => {
                let mut raw: Vec<RawColumnDef> = Vec::new();
                let n = cols.len();
                let mut i: usize = 0;
                while i < n
                    invariant
                        n == cols@.len(),
                        i <= n,
                    decreases n - i,
                {
                    let (name, type_token, opts) = crate::sqlast::column_parts(&cols[i]);
                    let mut options: Vec<RawOption> = Vec::new();
                    let m = opts.len();
                    let mut k: usize = 0;
                    while k < m
                        invariant
                            m == opts@.len(),
                            k <= m,
                        decreases m - k,
                    {
                        options.push(crate::sqlast::option_kind(&opts[k]));
                        k += 1;
                    }
                    raw.push(RawColumnDef { name, type_token, options });
                    i += 1;
                }
                CreateQuery::from_parts(table_name, raw)
            },
            None => Err(RUSQLError::Internal("Error Parsing Query".to_owned())),
        }
    }
}

} // verus!
