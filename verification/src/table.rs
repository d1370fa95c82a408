use vstd::prelude::*;

use crate::create::CreateQuery;
use crate::numtext;
use crate::rowmap::RowMap;
use crate::rowmap::TextIndex;
use crate::text;

verus! {

/// The declared type of a column.
#[derive(Debug, PartialEq, Eq, Structural, Clone, Copy)]
pub enum DataType {
    Integer,
    Text,
    Real,
    Bool,
    Untyped,
    Invalid,
}

/// The type a type token names, compared without regard to ASCII case;
/// an unrecognized token maps to `Invalid`.
pub open spec fn spec_datatype_of(s: Seq<char>) -> DataType {
    if text::ci_equal(s, "integer"@) {
        DataType::Integer
    } else if text::ci_equal(s, "text"@) {
        DataType::Text
    } else if text::ci_equal(s, "real"@) {
        DataType::Real
    } else if text::ci_equal(s, "bool"@) {
        DataType::Bool
    } else if text::ci_equal(s, "none"@) {
        DataType::Untyped
    } else {
        DataType::Invalid
    }
}

/// True for the types whose columns can carry a secondary index.
pub open spec fn indexable(dt: DataType) -> bool {
    dt == DataType::Integer || dt == DataType::Text
}

impl DataType {
    /// Maps a type token to the declared type, ignoring ASCII case.
    pub fn new(cmd: String) -> (r: DataType)
        ensures
            r == spec_datatype_of(cmd@),
    {
        if text::str_eq_ci(cmd.as_str(), "integer") {
            DataType::Integer
        } else if text::str_eq_ci(cmd.as_str(), "text") {
            DataType::Text
        } else if text::str_eq_ci(cmd.as_str(), "real") {
            DataType::Real
        } else if text::str_eq_ci(cmd.as_str(), "bool") {
            DataType::Bool
        } else if text::str_eq_ci(cmd.as_str(), "none") {
            DataType::Untyped
        } else {
            DataType::Invalid
        }
    }
}

/// The row store of one column: a map from row id to the column's native
/// value, tagged by the declared type. A `Real` value is kept as its
/// validated literal text. Untyped columns store nothing.
#[derive(Debug)]
pub enum Row {
    Integer(RowMap<i32>),
    Text(RowMap<String>),
    Real(RowMap<String>),
    Bool(RowMap<bool>),
    Untyped,
}

/// The secondary index of one column: a map from the column's value to the
/// row id that holds it. Only integer and text columns are indexable.
#[derive(Debug)]
pub enum Index {
    Integer(RowMap<i64>),
    Text(TextIndex),
    Absent,
}

/// One column of a table: its declaration plus the backing row store and
/// the optional secondary index, owned together so that a column can never
/// lack its store.
#[derive(Debug)]
pub struct Column {
    pub column_name: String,
    pub datatype: DataType,
    pub is_pk: bool,
    pub not_null: bool,
    pub is_unique: bool,
    pub is_indexed: bool,
    pub row: Row,
    pub index: Index,
}

impl Column {
    /// The backing structures are well formed, the store and index variants
    /// match the declared type, and the index agrees with the store.
    pub open spec fn wf(&self) -> bool {
        &&& match self.row {
            Row::Integer(m) => m.wf() && self.datatype == DataType::Integer,
            Row::Text(m) => m.wf() && self.datatype == DataType::Text,
            Row::Real(m) => m.wf() && self.datatype == DataType::Real,
            Row::Bool(m) => m.wf() && self.datatype == DataType::Bool,
            Row::Untyped => self.datatype == DataType::Untyped || self.datatype == DataType::Invalid,
        }
        &&& self.is_indexed == ((self.is_pk || self.is_unique) && indexable(self.datatype))
        &&& match self.index {
            Index::Integer(ix) => ix.wf() && self.is_indexed && self.datatype == DataType::Integer,
            Index::Text(ix) => ix.wf() && self.is_indexed && self.datatype == DataType::Text,
            Index::Absent => !self.is_indexed,
        }
        &&& self.index_consistent()
    }

    /// Every index entry points at a row that holds its value, and every
    /// stored value of an indexed column appears in the index.
    pub open spec fn index_consistent(&self) -> bool {
        match (self.row, self.index) {
            (Row::Integer(m), Index::Integer(ix)) => {
                &&& forall|v: i64| #[trigger]
                    ix@.contains_key(v) ==> m@.contains_key(ix@[v]) && m@[ix@[v]] as i64 == v
                &&& forall|r: i64| #[trigger] m@.contains_key(r) ==> ix@.contains_key(m@[r] as i64)
            },
            (Row::Text(m), Index::Text(ix)) => {
                &&& forall|v: Seq<char>| #[trigger]
                    ix@.contains_key(v) ==> m@.contains_key(ix@[v]) && m@[ix@[v]]@ == v
                &&& forall|r: i64| #[trigger] m@.contains_key(r) ==> ix@.contains_key(m@[r]@)
            },
            _ => true,
        }
    }

    /// No two rows of the column hold the same value.
    pub open spec fn store_injective(&self) -> bool {
        match self.row {
            Row::Integer(m) => forall|r1: i64, r2: i64|
                #[trigger] m@.contains_key(r1) && #[trigger] m@.contains_key(r2) && m@[r1] == m@[r2]
                    ==> r1 == r2,
            Row::Text(m) => forall|r1: i64, r2: i64|
                #[trigger] m@.contains_key(r1) && #[trigger] m@.contains_key(r2) && m@[r1]@
                    == m@[r2]@ ==> r1 == r2,
            _ => true,
        }
    }

    /// The store is empty.
    pub open spec fn store_empty(&self) -> bool {
        match self.row {
            Row::Integer(m) => m@ == Map::<i64, i32>::empty(),
            Row::Text(m) => m@ == Map::<i64, String>::empty(),
            Row::Real(m) => m@ == Map::<i64, String>::empty(),
            Row::Bool(m) => m@ == Map::<i64, bool>::empty(),
            Row::Untyped => true,
        }
    }

    /// The index is empty.
    pub open spec fn index_empty(&self) -> bool {
        match self.index {
            Index::Integer(ix) => ix@ == Map::<i64, i64>::empty(),
            Index::Text(ix) => ix@ == Map::<Seq<char>, i64>::empty(),
            Index::Absent => true,
        }
    }

    /// The column has an entry at row id `r`.
    pub open spec fn has_row(&self, r: i64) -> bool {
        match self.row {
            Row::Integer(m) => m@.contains_key(r),
            Row::Text(m) => m@.contains_key(r),
            Row::Real(m) => m@.contains_key(r),
            Row::Bool(m) => m@.contains_key(r),
            Row::Untyped => false,
        }
    }

    /// What a freshly built column looks like: the given declaration with
    /// empty backing structures, indexed exactly when a primary-key or
    /// unique flag meets an indexable type.
    pub open spec fn fresh(
        &self,
        name: Seq<char>,
        dt: DataType,
        is_pk: bool,
        not_null: bool,
        is_unique: bool,
    ) -> bool {
        &&& self.column_name@ == name
        &&& self.datatype == dt
        &&& self.is_pk == is_pk
        &&& self.not_null == not_null
        &&& self.is_unique == is_unique
        &&& self.is_indexed == ((is_pk || is_unique) && indexable(dt))
        &&& self.store_empty()
        &&& self.index_empty()
        &&& self.wf()
    }

    /// Builds a column from its declaration. The store variant follows the
    /// declared type; an index is attached when the column is flagged
    /// primary-key or unique and its type is indexable.
    pub fn new(name: String, datatype: String, is_pk: bool, not_null: bool, is_unique: bool) -> (r:
        Column)
        ensures
            r.fresh(name@, spec_datatype_of(datatype@), is_pk, not_null, is_unique),
    {
        let dt = DataType::new(datatype);
        let indexed: bool = (is_pk || is_unique) && (dt == DataType::Integer || dt
            == DataType::Text);
        let index: Index = if indexed {
            if dt == DataType::Integer {
                Index::Integer(RowMap::new())
            } else {
                Index::Text(TextIndex::new())
            }
        } else {
            Index::Absent
        };
        let row: Row = match dt {
            DataType::Integer => Row::Integer(RowMap::new()),
            DataType::Text => Row::Text(RowMap::new()),
            DataType::Real => Row::Real(RowMap::new()),
            DataType::Bool => Row::Bool(RowMap::new()),
            DataType::Untyped => Row::Untyped,
            DataType::Invalid => Row::Untyped,
        };
        Column {
            column_name: name,
            datatype: dt,
            is_pk,
            not_null,
            is_unique,
            is_indexed: indexed,
            row,
            index,
        }
    }
}

/// The position of the first column of `cols` named `name`, or -1.
pub open spec fn find_col(cols: Seq<Column>, name: Seq<char>) -> int
    decreases cols.len(),
{
    if cols.len() == 0 {
        -1
    } else if cols[0].column_name@ == name {
        0
    } else {
        let r = find_col(cols.subrange(1, cols.len() as int), name);
        if r < 0 {
            -1
        } else {
            r + 1
        }
    }
}

/// The position of the first string of `s` whose characters are `name`,
/// or -1.
pub open spec fn find_str(s: Seq<String>, name: Seq<char>) -> int
    decreases s.len(),
{
    if s.len() == 0 {
        -1
    } else if s[0]@ == name {
        0
    } else {
        let r = find_str(s.subrange(1, s.len() as int), name);
        if r < 0 {
            -1
        } else {
            r + 1
        }
    }
}

pub proof fn lemma_find_col_at(cols: Seq<Column>, name: Seq<char>, k: int)
    requires
        0 <= k <= cols.len(),
        forall|j: int| 0 <= j < k ==> (#[trigger] cols[j]).column_name@ != name,
        k == cols.len() || cols[k].column_name@ == name,
    ensures
        find_col(cols, name) == if k == cols.len() {
            -1int
        } else {
            k
        },
    decreases k,
{
    if k == 0 {
        if cols.len() > 0 && cols[0].column_name@ != name {
            let t = cols.subrange(1, cols.len() as int);
            lemma_find_col_bounds(t, name);
        }
    } else {
        let t = cols.subrange(1, cols.len() as int);
        assert(forall|j: int| 0 <= j < k - 1 ==> (#[trigger] t[j]).column_name@ != name);
        lemma_find_col_at(t, name, k - 1);
    }
}

pub proof fn lemma_find_col_bounds(cols: Seq<Column>, name: Seq<char>)
    ensures
        find_col(cols, name) == -1 ==> forall|j: int|
            0 <= j < cols.len() ==> (#[trigger] cols[j]).column_name@ != name,
        find_col(cols, name) != -1 ==> 0 <= find_col(cols, name) < cols.len() && cols[find_col(
            cols,
            name,
        )].column_name@ == name,
    decreases cols.len(),
{
    if cols.len() > 0 {
        let t = cols.subrange(1, cols.len() as int);
        lemma_find_col_bounds(t, name);
        if cols[0].column_name@ != name && find_col(cols, name) == -1 {
            assert(find_col(t, name) == -1);
            assert forall|j: int| 0 <= j < cols.len() implies (#[trigger] cols[j]).column_name@
                != name by {
                if j > 0 {
                    assert(t[j - 1] == cols[j]);
                    assert(t[j - 1].column_name@ != name);
                }
            }
        }
    }
}

pub proof fn lemma_find_str_at(s: Seq<String>, name: Seq<char>, k: int)
    requires
        0 <= k <= s.len(),
        forall|j: int| 0 <= j < k ==> (#[trigger] s[j])@ != name,
        k == s.len() || s[k]@ == name,
    ensures
        find_str(s, name) == if k == s.len() {
            -1int
        } else {
            k
        },
    decreases k,
{
    if k == 0 {
        if s.len() > 0 && s[0]@ != name {
            let t = s.subrange(1, s.len() as int);
            lemma_find_str_bounds(t, name);
        }
    } else {
        let t = s.subrange(1, s.len() as int);
        assert(forall|j: int| 0 <= j < k - 1 ==> (#[trigger] t[j])@ != name);
        lemma_find_str_at(t, name, k - 1);
    }
}

pub proof fn lemma_find_str_bounds(s: Seq<String>, name: Seq<char>)
    ensures
        find_str(s, name) == -1 ==> forall|j: int|
            0 <= j < s.len() ==> (#[trigger] s[j])@ != name,
        find_str(s, name) != -1 ==> 0 <= find_str(s, name) < s.len() && s[find_str(s, name)]@
            == name,
    decreases s.len(),
{
    if s.len() > 0 {
        let t = s.subrange(1, s.len() as int);
        lemma_find_str_bounds(t, name);
        if s[0]@ != name && find_str(s, name) == -1 {
            assert(find_str(t, name) == -1);
            assert forall|j: int| 0 <= j < s.len() implies (#[trigger] s[j])@ != name by {
                if j > 0 {
                    assert(t[j - 1] == s[j]);
                    assert(t[j - 1]@ != name);
                }
            }
        }
    }
}

/// A table: its name, the ordered column list (each column owning its row
/// store and index), a reserved registry of named indexes, the row-identity
/// counter, and the cached name of the primary-key column (`-1` when the
/// table has none).
#[derive(Debug)]
pub struct Table {
    pub tb_name: String,
    pub columns: Vec<Column>,
    pub indexes: Vec<(String, String)>,
    pub last_rowid: i64,
    pub primary_key: String,
}

impl Table {
    /// Whether some column is named `name`.
    pub open spec fn has_col(&self, name: Seq<char>) -> bool {
        find_col(self.columns@, name) >= 0
    }

    /// The first column named `name`.
    pub open spec fn col_at(&self, name: Seq<char>) -> Column {
        self.columns@[find_col(self.columns@, name)]
    }

    /// Whether the table has a designated primary-key column.
    pub open spec fn has_pk(&self) -> bool {
        self.primary_key@ != "-1"@
    }

    /// Whether the table has an integer primary-key column; only those
    /// columns take part in row-identity assignment.
    pub open spec fn has_int_pk(&self) -> bool {
        self.has_pk() && self.has_col(self.primary_key@) && self.col_at(
            self.primary_key@,
        ).datatype == DataType::Integer
    }

    /// The store of the integer primary-key column maps every row id to
    /// itself.
    pub open spec fn pk_identity(&self) -> bool {
        match self.col_at(self.primary_key@).row {
            Row::Integer(m) => forall|r: i64| #[trigger] m@.contains_key(r) ==> m@[r] as i64 == r,
            _ => false,
        }
    }

    /// Every row id present in any column is present in the integer
    /// primary-key column.
    pub open spec fn pk_covers(&self) -> bool {
        forall|i: int, r: i64|
            0 <= i < self.columns@.len() && #[trigger] self.columns@[i].has_row(r)
                ==> self.col_at(self.primary_key@).has_row(r)
    }

    /// Without an integer primary key, every row id lies between 1 and the
    /// row-identity counter.
    pub open spec fn rowids_bounded(&self) -> bool {
        forall|i: int, r: i64|
            0 <= i < self.columns@.len() && #[trigger] self.columns@[i].has_row(r) ==> 0 < r
                <= self.last_rowid
    }

    /// The table invariant: well-formed columns with distinct names, a
    /// coherent primary-key designation, and the row-identity discipline of
    /// the storage layer.
    pub open spec fn wf(&self) -> bool {
        &&& forall|i: int| 0 <= i < self.columns@.len() ==> (#[trigger] self.columns@[i]).wf()
        &&& forall|i: int, j: int|
            0 <= i < j < self.columns@.len() ==> (#[trigger] self.columns@[i]).column_name@
                != (#[trigger] self.columns@[j]).column_name@
        &&& forall|i: int|
            0 <= i < self.columns@.len() && (#[trigger] self.columns@[i]).is_pk
                ==> self.columns@[i].column_name@ == self.primary_key@
        &&& self.has_pk() ==> self.has_col(self.primary_key@) && self.col_at(
            self.primary_key@,
        ).is_pk
        &&& self.has_int_pk() ==> self.pk_identity() && self.pk_covers() && i32::MIN
            <= self.last_rowid <= i32::MAX
        &&& !self.has_int_pk() ==> self.rowids_bounded() && self.last_rowid >= 0
    }

    /// What `Table::new` builds from a normalized `CREATE TABLE`
    /// statement: one fresh column per declaration, the counter at zero,
    /// and the primary-key designation recorded (the sentinel when no
    /// declaration carries the flag).
    pub open spec fn from_create(&self, cq: CreateQuery) -> bool {
        &&& self.tb_name@ == cq.table_name@
        &&& self.last_rowid == 0
        &&& self.indexes@.len() == 0
        &&& self.columns@.len() == cq.columns@.len()
        &&& forall|i: int|
            0 <= i < cq.columns@.len() ==> (#[trigger] self.columns@[i]).fresh(
                cq.columns@[i].name@,
                spec_datatype_of(cq.columns@[i].datatype@),
                cq.columns@[i].is_pk,
                cq.columns@[i].not_null,
                cq.columns@[i].is_unique,
            )
        &&& (exists|i: int|
            0 <= i < cq.columns@.len() && (#[trigger] cq.columns@[i]).is_pk && self.primary_key@
                == cq.columns@[i].name@) || ((forall|i: int|
            0 <= i < cq.columns@.len() ==> !(#[trigger] cq.columns@[i]).is_pk)
            && self.primary_key@ == "-1"@)
    }

    /// Builds a table from a normalized `CREATE TABLE` statement: one
    /// column record per declaration, each with an empty store (and an
    /// empty index where the declaration calls for one), the row-identity
    /// counter at zero, and the primary-key designation recorded.
    pub fn new(create_query: CreateQuery) -> (r: Table)
        requires
            create_query.wf(),
        ensures
            r.wf(),
            r.from_create(create_query),
    {
        let table_name = create_query.table_name;
        let mut primary_key: String = "-1".to_owned();
        let columns = create_query.columns;
        let mut table_cols: Vec<Column> = Vec::new();
        let n = columns.len();
        let mut i: usize = 0;
        while i < n
            invariant
                n == columns@.len(),
                i <= n,
                forall|x: int, y: int|
                    0 <= x < y < columns@.len() ==> (#[trigger] columns@[x]).name@
                        != (#[trigger] columns@[y]).name@,
                forall|x: int, y: int|
                    0 <= x < columns@.len() && 0 <= y < columns@.len() && (
                    #[trigger] columns@[x]).is_pk && (#[trigger] columns@[y]).is_pk ==> x == y,
                table_cols@.len() == i,
                forall|j: int|
                    0 <= j < i ==> (#[trigger] table_cols@[j]).fresh(
                        columns@[j].name@,
                        spec_datatype_of(columns@[j].datatype@),
                        columns@[j].is_pk,
                        columns@[j].not_null,
                        columns@[j].is_unique,
                    ),
                (exists|j: int|
                    0 <= j < i && (#[trigger] columns@[j]).is_pk && primary_key@
                        == columns@[j].name@) || ((forall|j: int|
                    0 <= j < i ==> !(#[trigger] columns@[j]).is_pk) && primary_key@ == "-1"@),
            decreases n - i,
        {
            let col = &columns[i];
            if col.is_pk {
                primary_key = col.name.clone();
            }
            table_cols.push(
                Column::new(col.name.clone(), col.datatype.clone(), col.is_pk, col.not_null,
                    col.is_unique),
            );
            i += 1;
        }
        let r = Table {
            tb_name: table_name,
            columns: table_cols,
            indexes: Vec::new(),
            last_rowid: 0,
            primary_key,
        };
        proof {
            lemma_table_new_wf(&r, columns@);
        }
        r
    }

    /// Whether the table declares a column of this name.
    pub fn contains_column(&self, column: String) -> (r: bool)
        ensures
            r == self.has_col(column@),
    {
        let n = self.columns.len();
        let mut i: usize = 0;
        while i < n
            invariant
                n == self.columns@.len(),
                i <= n,
                forall|j: int| 0 <= j < i ==> (#[trigger] self.columns@[j]).column_name@ != column@,
            decreases n - i,
        {
            if text::str_eq(self.columns[i].column_name.as_str(), column.as_str()) {
                proof {
                    lemma_find_col_at(self.columns@, column@, i as int);
                }
                return true;
            }
            i += 1;
        }
        proof {
            lemma_find_col_at(self.columns@, column@, n as int);
        }
        false
    }

    /// The number of rows a column holds an entry for.
    pub open spec fn spec_entry_count(c: Column) -> nat {
        match c.row {
            Row::Integer(m) => m@.dom().len(),
            Row::Text(m) => m@.dom().len(),
            Row::Real(m) => m@.dom().len(),
            Row::Bool(m) => m@.dom().len(),
            Row::Untyped => 0,
        }
    }

    /// Counts the entries of one column's store, for renderers; a missing
    /// name is a `General` error.
    pub fn column_entry_count(&self, column_name: String) -> (r: crate::error::Result<usize>)
        requires
            self.wf(),
        ensures
            self.has_col(column_name@) ==> (r matches Ok(n) && n == Table::spec_entry_count(
                self.col_at(column_name@),
            )),
            !self.has_col(column_name@) ==> (r matches Err(e) && (e matches
                crate::error::RUSQLError::General(m) && m@ == "Column not found."@)),
    {
        let ghost cn = column_name@;
        match self.get_column(column_name) {
            Ok(c) => {
                proof {
                    lemma_find_col_bounds(self.columns@, cn);
                    assert(*c == self.columns@[find_col(self.columns@, cn)]);
                    assert(c.wf());
                }
                match &c.row {
                    Row::Integer(m) => Ok(m.len()),
                    Row::Text(m) => Ok(m.len()),
                    Row::Real(m) => Ok(m.len()),
                    Row::Bool(m) => Ok(m.len()),
                    Row::Untyped => Ok(0),
                }
            },
            Err(e) => Err(e),
        }
    }

    /// Looks a column up by name for mutation; a missing name is a
    /// `General` error and the table is left unchanged.
    pub fn get_column_mut(&mut self, column_name: String) -> (r: crate::error::Result<&mut Column>)
        ensures
            old(self).has_col(column_name@) ==> (r matches Ok(c) && {
                let ci = find_col(old(self).columns@, column_name@);
                &&& *c == old(self).columns@[ci]
                &&& final(self).tb_name == old(self).tb_name
                &&& final(self).last_rowid == old(self).last_rowid
                &&& final(self).primary_key == old(self).primary_key
                &&& final(self).indexes == old(self).indexes
                &&& final(self).columns@ == old(self).columns@.update(ci, *final(c))
            }),
            !old(self).has_col(column_name@) ==> (r matches Err(e) && (e matches
                crate::error::RUSQLError::General(m) && m@ == "Column not found."@) && *final(self)
                == *old(self)),
    {
        let n = self.columns.len();
        let mut i: usize = 0;
        while i < n
            invariant
                n == self.columns@.len(),
                i <= n,
                *self == *old(self),
                forall|j: int|
                    0 <= j < i ==> (#[trigger] self.columns@[j]).column_name@ != column_name@,
            decreases n - i,
        {
            if text::str_eq(self.columns[i].column_name.as_str(), column_name.as_str()) {
                proof {
                    lemma_find_col_at(self.columns@, column_name@, i as int);
                }
                return Ok(&mut self.columns[i]);
            }
            i += 1;
        }
        proof {
            lemma_find_col_at(self.columns@, column_name@, n as int);
        }
        Err(crate::error::RUSQLError::General("Column not found.".to_owned()))
    }

    /// Looks a column up by name; a missing name is a `General` error.
    pub fn get_column(&self, column_name: String) -> (r: crate::error::Result<&Column>)
        ensures
            self.has_col(column_name@) ==> (r matches Ok(c) && *c == self.col_at(column_name@)),
            !self.has_col(column_name@) ==> (r matches Err(e) && (e matches
                crate::error::RUSQLError::General(m) && m@ == "Column not found."@)),
    {
        let n = self.columns.len();
        let mut i: usize = 0;
        while i < n
            invariant
                n == self.columns@.len(),
                i <= n,
                forall|j: int|
                    0 <= j < i ==> (#[trigger] self.columns@[j]).column_name@ != column_name@,
            decreases n - i,
        {
            if text::str_eq(self.columns[i].column_name.as_str(), column_name.as_str()) {
                proof {
                    lemma_find_col_at(self.columns@, column_name@, i as int);
                }
                return Ok(&self.columns[i]);
            }
            i += 1;
        }
        proof {
            lemma_find_col_at(self.columns@, column_name@, n as int);
        }
        Err(crate::error::RUSQLError::General("Column not found.".to_owned()))
    }
}

proof fn lemma_table_new_wf(r: &Table, decls: Seq<crate::create::ParsedColumn>)
    requires
        r.columns@.len() == decls.len(),
        r.last_rowid == 0,
        forall|i: int|
            0 <= i < decls.len() ==> (#[trigger] r.columns@[i]).fresh(
                decls[i].name@,
                spec_datatype_of(decls[i].datatype@),
                decls[i].is_pk,
                decls[i].not_null,
                decls[i].is_unique,
            ),
        forall|x: int, y: int|
            0 <= x < y < decls.len() ==> (#[trigger] decls[x]).name@ != (#[trigger] decls[y]).name@,
        forall|x: int, y: int|
            0 <= x < decls.len() && 0 <= y < decls.len() && (#[trigger] decls[x]).is_pk && (
            #[trigger] decls[y]).is_pk ==> x == y,
        (exists|j: int|
            0 <= j < decls.len() && (#[trigger] decls[j]).is_pk && r.primary_key@
                == decls[j].name@) || ((forall|j: int|
            0 <= j < decls.len() ==> !(#[trigger] decls[j]).is_pk) && r.primary_key@ == "-1"@),
    ensures
        r.wf(),
{
    assert(forall|i: int| 0 <= i < r.columns@.len() ==> (#[trigger] r.columns@[i]).wf());
    assert(forall|i: int, j: int|
        0 <= i < j < r.columns@.len() ==> (#[trigger] r.columns@[i]).column_name@
            != (#[trigger] r.columns@[j]).column_name@);
    if exists|j: int|
        0 <= j < decls.len() && (#[trigger] decls[j]).is_pk && r.primary_key@ == decls[j].name@ {
        let j = choose|j: int|
            0 <= j < decls.len() && (#[trigger] decls[j]).is_pk && r.primary_key@
                == decls[j].name@;
        assert(forall|i: int|
            0 <= i < r.columns@.len() && (#[trigger] r.columns@[i]).is_pk
                ==> r.columns@[i].column_name@ == r.primary_key@) by {
            assert(forall|i: int|
                0 <= i < decls.len() && (#[trigger] decls[i]).is_pk ==> i == j);
        }
        if r.has_pk() {
            lemma_find_col_at(r.columns@, r.primary_key@, j);
            assert(r.col_at(r.primary_key@).is_pk);
        }
    } else {
        assert(forall|i: int| 0 <= i < r.columns@.len() ==> !(#[trigger] r.columns@[i]).is_pk);
        reveal_strlit("-1");
        assert(!r.has_pk());
    }
    if r.has_int_pk() {
        let pc = r.col_at(r.primary_key@);
        assert(pc.store_empty());
        match pc.row {
            Row::Integer(m) => {
                assert(forall|x: i64| !(#[trigger] m@.contains_key(x)));
            },
            _ => {},
        }
        assert(forall|i: int, x: i64|
            0 <= i < r.columns@.len() ==> !#[trigger] r.columns@[i].has_row(x));
    } else {
        assert(forall|i: int, x: i64|
            0 <= i < r.columns@.len() ==> !#[trigger] r.columns@[i].has_row(x));
    }
}

/// True of the literal that stands for SQL NULL.
pub open spec fn is_null_marker(v: Seq<char>) -> bool {
    v == "Null"@
}

/// Whether the literal `v` parses as a value of the declared type `dt`.
/// Untyped and invalid columns accept no value.
pub open spec fn value_parses(dt: DataType, v: Seq<char>) -> bool {
    match dt {
        DataType::Integer => numtext::int_literal_ok(v) && i32::MIN <= numtext::int_literal_val(v)
            <= i32::MAX,
        DataType::Text => true,
        DataType::Real => numtext::is_real_literal(v),
        DataType::Bool => v == "true"@ || v == "false"@,
        DataType::Untyped => false,
        DataType::Invalid => false,
    }
}

/// The two columns carry the same declaration.
pub open spec fn same_decl(a: Column, b: Column) -> bool {
    &&& b.column_name@ == a.column_name@
    &&& b.datatype == a.datatype
    &&& b.is_pk == a.is_pk
    &&& b.not_null == a.not_null
    &&& b.is_unique == a.is_unique
    &&& b.is_indexed == a.is_indexed
}

/// Column `b` is column `a` after the literal `v` was written at row id
/// `rowid`: the store gains the parsed value and the index, when present,
/// gains the value pointing at the row.
pub open spec fn col_wrote(a: Column, b: Column, rowid: i64, v: Seq<char>) -> bool {
    &&& match (a.row, b.row) {
        (Row::Integer(m0), Row::Integer(m1)) => m1@ == m0@.insert(
            rowid,
            numtext::int_literal_val(v) as i32,
        ),
        (Row::Text(m0), Row::Text(m1)) => exists|s: String|
            s@ == v && m1@ == m0@.insert(rowid, s),
        (Row::Real(m0), Row::Real(m1)) => exists|s: String|
            s@ == v && m1@ == m0@.insert(rowid, s),
        (Row::Bool(m0), Row::Bool(m1)) => m1@ == m0@.insert(rowid, v == "true"@),
        _ => false,
    }
    &&& match (a.index, b.index) {
        (Index::Integer(x0), Index::Integer(x1)) => x1@ == x0@.insert(
            numtext::int_literal_val(v) as i64,
            rowid,
        ),
        (Index::Text(x0), Index::Text(x1)) => x1@ == x0@.insert(v, rowid),
        (Index::Absent, Index::Absent) => true,
        _ => false,
    }
}

/// Column `b` is the integer primary-key column `a` after row id `rowid`
/// was assigned: the store maps the row id to itself and the index points
/// it back.
pub open spec fn col_wrote_pk(a: Column, b: Column, rowid: i64) -> bool {
    &&& match (a.row, b.row) {
        (Row::Integer(m0), Row::Integer(m1)) => m1@ == m0@.insert(rowid, rowid as i32),
        _ => false,
    }
    &&& match (a.index, b.index) {
        (Index::Integer(x0), Index::Integer(x1)) => x1@ == x0@.insert(rowid, rowid),
        _ => false,
    }
}

/// The column's store and index are untouched.
pub open spec fn col_untouched(a: Column, b: Column) -> bool {
    b.row == a.row && b.index == a.index
}

impl Table {
    /// Whether the table has an integer primary key and the caller supplied
    /// a value for it.
    pub open spec fn pk_supplied(&self, cols: Seq<String>) -> bool {
        self.has_int_pk() && find_str(cols, self.primary_key@) >= 0
    }

    /// The row id this insert binds: the supplied primary-key value when
    /// the table has an integer primary key and the caller named it,
    /// otherwise one past the row-identity counter.
    pub open spec fn spec_rowid(&self, cols: Seq<String>, values: Seq<String>) -> int {
        if self.pk_supplied(cols) {
            numtext::int_literal_val(values[find_str(cols, self.primary_key@)]@)
        } else {
            self.last_rowid + 1
        }
    }

    /// When an insert of this row succeeds: every supplied column exists,
    /// every supplied value parses against its column's type (or is the
    /// NULL marker), the row id can be computed without overflow, and it is
    /// not yet in use.
    pub open spec fn can_insert(&self, cols: Seq<String>, values: Seq<String>) -> bool {
        &&& forall|j: int| 0 <= j < cols.len() ==> self.has_col((#[trigger] cols[j])@)
        &&& forall|j: int|
            0 <= j < cols.len() ==> is_null_marker((#[trigger] values[j])@) || value_parses(
                self.col_at(cols[j]@).datatype,
                values[j]@,
            )
        &&& if self.pk_supplied(cols) {
            let pv = values[find_str(cols, self.primary_key@)]@;
            numtext::int_literal_ok(pv) && i32::MIN <= numtext::int_literal_val(pv) <= i32::MAX
        } else {
            self.last_rowid < i64::MAX && (self.has_int_pk() ==> self.last_rowid + 1 <= i32::MAX)
        }
        &&& self.has_int_pk() ==> !self.col_at(self.primary_key@).has_row(
            self.spec_rowid(cols, values) as i64,
        )
    }

    /// Looks the position of a column up by name.
    fn find_col_idx(&self, name: &str) -> (r: Option<usize>)
        ensures
            match r {
                Some(i) => i < self.columns@.len() && find_col(self.columns@, name@) == i as int,
                None => find_col(self.columns@, name@) == -1,
            },
    {
        let n = self.columns.len();
        let mut i: usize = 0;
        while i < n
            invariant
                n == self.columns@.len(),
                i <= n,
                forall|j: int| 0 <= j < i ==> (#[trigger] self.columns@[j]).column_name@ != name@,
            decreases n - i,
        {
            if text::str_eq(self.columns[i].column_name.as_str(), name) {
                proof {
                    lemma_find_col_at(self.columns@, name@, i as int);
                }
                return Some(i);
            }
            i += 1;
        }
        proof {
            lemma_find_col_at(self.columns@, name@, n as int);
        }
        None
    }
}

/// Looks the position of a name up in a list of supplied column names.
fn find_str_idx(list: &Vec<String>, name: &str) -> (r: Option<usize>)
    ensures
        match r {
            Some(i) => i < list@.len() && find_str(list@, name@) == i as int,
            None => find_str(list@, name@) == -1,
        },
{
    let n = list.len();
    let mut i: usize = 0;
    while i < n
        invariant
            n == list@.len(),
            i <= n,
            forall|j: int| 0 <= j < i ==> (#[trigger] list@[j])@ != name@,
        decreases n - i,
    {
        if text::str_eq(list[i].as_str(), name) {
            proof {
                lemma_find_str_at(list@, name@, i as int);
            }
            return Some(i);
        }
        i += 1;
    }
    proof {
        lemma_find_str_at(list@, name@, n as int);
    }
    None
}

/// Checks a literal against a declared type.
fn check_value(dt: DataType, v: &str) -> (r: bool)
    ensures
        r == value_parses(dt, v@),
{
    match dt {
        DataType::Integer => numtext::parse_i32(v).is_some(),
        DataType::Text => true,
        DataType::Real => numtext::check_real_literal(v),
        DataType::Bool => numtext::parse_bool(v).is_some(),
        DataType::Untyped => false,
        DataType::Invalid => false,
    }
}

/// Whether the literal is the NULL marker.
fn is_null_lit(v: &str) -> (r: bool)
    ensures
        r == is_null_marker(v@),
{
    text::str_eq(v, "Null")
}

/// Whether inserting the literal `v` into column `c` would respect a
/// uniqueness flag: a unique column must carry an index, and the parsed
/// value must not already be in it. An integer literal that does not parse
/// cannot collide.
pub open spec fn unique_pair_ok(c: Column, v: Seq<char>) -> bool {
    if !c.is_unique {
        true
    } else {
        match c.index {
            Index::Integer(ix) => !(numtext::int_literal_ok(v) && i64::MIN
                <= numtext::int_literal_val(v) <= i64::MAX) || !ix@.contains_key(
                numtext::int_literal_val(v) as i64,
            ),
            Index::Text(ix) => !ix@.contains_key(v),
            Index::Absent => false,
        }
    }
}

/// The message a failing uniqueness pre-check carries for the pair
/// `(c, v)`: an unknown column, a unique column without an index, or a
/// collision naming the column and the value.
pub open spec fn unique_error_message(t: Table, c: String, v: String, msg: Seq<char>) -> bool {
    if !t.has_col(c@) {
        msg == "Column not found."@
    } else if t.col_at(c@).index is Absent {
        msg == "Error: Cannot find index for column "@ + c@ + "."@
    } else {
        msg == "Error: Unique constraint violation for column "@ + c@ + ". Value "@ + v@
            + " already exists."@
    }
}

impl Table {
    /// Checks the supplied column-value pairs against the uniqueness
    /// constraints, reading the secondary indexes. This is a pre-check: it
    /// must be run before `insert_row` for the same row, as insertion does
    /// not re-check uniqueness.
    pub fn validate__unique_constraint(
        &self,
        cols: &Vec<String>,
        values: &Vec<String>,
    ) -> (r: crate::error::Result<()>)
        requires
            cols@.len() == values@.len(),
        ensures
            r is Ok <==> forall|j: int|
                0 <= j < cols@.len() ==> self.has_col((#[trigger] cols@[j])@) && unique_pair_ok(
                    self.col_at(cols@[j]@),
                    values@[j]@,
                ),
            r matches Err(e) ==> (e matches crate::error::RUSQLError::General(m) && exists|j: int|
                0 <= j < cols@.len() && !(self.has_col((#[trigger] cols@[j])@) && unique_pair_ok(
                    self.col_at(cols@[j]@),
                    values@[j]@,
                )) && unique_error_message(*self, cols@[j], values@[j], m@)),
    {
        let n = cols.len();
        let mut idx: usize = 0;
        while idx < n
            invariant
                n == cols@.len(),
                n == values@.len(),
                idx <= n,
                forall|j: int|
                    0 <= j < idx ==> self.has_col((#[trigger] cols@[j])@) && unique_pair_ok(
                        self.col_at(cols@[j]@),
                        values@[j]@,
                    ),
            decreases n - idx,
        {
            let name = &cols[idx];
            let ci = match self.find_col_idx(name.as_str()) {
                Some(i) => i,
                None => {
                    return Err(
                        crate::error::RUSQLError::General("Column not found.".to_owned()),
                    );
                },
            };
            let c = &self.columns[ci];
            proof {
                assert(self.col_at(cols@[idx as int]@) == self.columns@[ci as int]);
            }
            if c.is_unique {
                match &c.index {
                    Index::Integer(ix) => {
                        match numtext::parse_i64(values[idx].as_str()) {
                            Some(v) => {
                                if ix.contains_key(v) {
                                    let mut m: String =
                                        "Error: Unique constraint violation for column ".to_owned();
                                    m.append(name.as_str());
                                    m.append(". Value ");
                                    m.append(values[idx].as_str());
                                    m.append(" already exists.");
                                    return Err(crate::error::RUSQLError::General(m));
                                }
                            },
                            None => {},
                        }
                    },
                    Index::Text(ix) => {
                        if ix.contains_key(values[idx].as_str()) {
                            let mut m: String =
                                "Error: Unique constraint violation for column ".to_owned();
                            m.append(name.as_str());
                            m.append(". Value ");
                            m.append(values[idx].as_str());
                            m.append(" already exists.");
                            return Err(crate::error::RUSQLError::General(m));
                        }
                    },
                    Index::Absent => {
                        let mut m: String = "Error: Cannot find index for column ".to_owned();
                        m.append(name.as_str());
                        m.append(".");
                        return Err(crate::error::RUSQLError::General(m));
                    },
                }
            }
            idx += 1;
        }
        Ok(())
    }

    /// Writes the literal `val` into the column named `key` at row id
    /// `next_rowid`, updating the column's secondary index alongside its
    /// store. The caller has already checked that the column exists, that
    /// the value parses, and that the row id is fresh for this column
    /// (or repeats the identity write of an integer primary key).
    pub fn insert_value_into_column(&mut self, key: &String, val: String, next_rowid: i64)
        requires
            find_col(old(self).columns@, key@) >= 0,
            old(self).columns@[find_col(old(self).columns@, key@)].wf(),
            !is_null_marker(val@),
            value_parses(
                old(self).columns@[find_col(old(self).columns@, key@)].datatype,
                val@,
            ),
            !old(self).columns@[find_col(old(self).columns@, key@)].has_row(next_rowid) || match old(
                self,
            ).columns@[find_col(old(self).columns@, key@)].row {
                Row::Integer(m) => m@[next_rowid] as int == numtext::int_literal_val(val@),
                _ => false,
            },
        ensures
            ({
                let ci = find_col(old(self).columns@, key@);
                let a = old(self).columns@[ci];
                let b = final(self).columns@[ci];
                &&& final(self).columns@.len() == old(self).columns@.len()
                &&& forall|j: int|
                    0 <= j < old(self).columns@.len() && j != ci ==> final(self).columns@[j]
                        == old(self).columns@[j]
                &&& same_decl(a, b)
                &&& col_wrote(a, b, next_rowid, val@)
                &&& b.wf()
                &&& final(self).tb_name == old(self).tb_name
                &&& final(self).last_rowid == old(self).last_rowid
                &&& final(self).primary_key == old(self).primary_key
                &&& final(self).indexes == old(self).indexes
            }),
    {
        let ci = self.find_col_idx(key.as_str()).unwrap();
        let ghost a = self.columns@[ci as int];
        let c = &mut self.columns[ci];
        match c.datatype {
            DataType::Integer => {
                let v = numtext::parse_i32(val.as_str()).unwrap();
                match &mut c.row {
                    Row::Integer(m) => m.insert(next_rowid, v),
                    _ => {
                        proof {
                            assert(false);
                        }
                    },
                }
                match &mut c.index {
                    Index::Integer(ix) => ix.insert(v as i64, next_rowid),
                    Index::Absent => {},
                    _ => {
                        proof {
                            assert(false);
                        }
                    },
                }
            },
            DataType::Text => {
                match &mut c.row {
                    Row::Text(m) => m.insert(next_rowid, val.clone()),
                    _ => {
                        proof {
                            assert(false);
                        }
                    },
                }
                match &mut c.index {
                    Index::Text(ix) => ix.insert(val, next_rowid),
                    Index::Absent => {},
                    _ => {
                        proof {
                            assert(false);
                        }
                    },
                }
            },
            DataType::Real => {
                match &mut c.row {
                    Row::Real(m) => m.insert(next_rowid, val),
                    _ => {
                        proof {
                            assert(false);
                        }
                    },
                }
            },
            DataType::Bool => {
                let b = numtext::parse_bool(val.as_str()).unwrap();
                match &mut c.row {
                    Row::Bool(m) => m.insert(next_rowid, b),
                    _ => {
                        proof {
                            assert(false);
                        }
                    },
                }
            },
            DataType::Untyped => {
                proof {
                    assert(false);
                }
            },
            DataType::Invalid => {
                proof {
                    assert(false);
                }
            },
        }
        proof {
            lemma_written_col_wf(a, self.columns@[ci as int], next_rowid, val@);
            assert(self.columns@[ci as int].wf());
        }
    }
}

/// A write that respects the freshness (or identity-rewrite) discipline
/// keeps a column's index consistent with its store.
proof fn lemma_written_col_wf(a: Column, b: Column, rowid: i64, v: Seq<char>)
    requires
        a.wf(),
        same_decl(a, b),
        col_wrote(a, b, rowid, v),
        value_parses(a.datatype, v),
        !a.has_row(rowid) || match a.row {
            Row::Integer(m) => m@[rowid] as int == numtext::int_literal_val(v),
            _ => false,
        },
    ensures
        b.index_consistent(),
{
    match (a.row, b.row) {
        (Row::Integer(m0), Row::Integer(m1)) => {
            match (a.index, b.index) {
                (Index::Integer(x0), Index::Integer(x1)) => {
                    let pv = numtext::int_literal_val(v) as i32;
                    assert forall|w: i64| #[trigger]
                        x1@.contains_key(w) implies m1@.contains_key(x1@[w]) && m1@[x1@[w]] as i64
                        == w by {
                        if w == pv as i64 {
                            assert(x1@[w] == rowid);
                            assert(m1@[rowid] == pv);
                        } else {
                            assert(x0@.contains_key(w));
                            let rw = x0@[w];
                            assert(m0@.contains_key(rw) && m0@[rw] as i64 == w);
                            if rw == rowid {
                                assert(m0@.contains_key(rowid));
                                assert(m0@[rowid] as int == numtext::int_literal_val(v));
                                assert(m0@[rowid] as i64 == pv as i64);
                                assert(false);
                            }
                            assert(m1@[rw] == m0@[rw]);
                        }
                    }
                    assert forall|rr: i64| #[trigger]
                        m1@.contains_key(rr) implies x1@.contains_key(m1@[rr] as i64) by {
                        if rr == rowid {
                            assert(m1@[rr] == pv);
                        } else {
                            assert(m0@.contains_key(rr));
                            assert(m1@[rr] == m0@[rr]);
                        }
                    }
                },
                _ => {},
            }
        },
        (Row::Text(m0), Row::Text(m1)) => {
            match (a.index, b.index) {
                (Index::Text(x0), Index::Text(x1)) => {
                    let s = choose|s: String| s@ == v && m1@ == m0@.insert(rowid, s);
                    assert forall|w: Seq<char>| #[trigger]
                        x1@.contains_key(w) implies m1@.contains_key(x1@[w]) && m1@[x1@[w]]@
                        == w by {
                        if w == v {
                            assert(x1@[w] == rowid);
                            assert(m1@[rowid] == s);
                        } else {
                            assert(x0@.contains_key(w));
                            let rw = x0@[w];
                            assert(m0@.contains_key(rw) && m0@[rw]@ == w);
                            assert(rw != rowid);
                            assert(m1@[rw] == m0@[rw]);
                        }
                    }
                    assert forall|rr: i64| #[trigger]
                        m1@.contains_key(rr) implies x1@.contains_key(m1@[rr]@) by {
                        if rr == rowid {
                            assert(m1@[rr] == s);
                        } else {
                            assert(m0@.contains_key(rr));
                            assert(m1@[rr] == m0@[rr]);
                        }
                    }
                },
                _ => {},
            }
        },
        _ => {},
    }
}

/// Column sequences whose names agree position by position resolve every
/// name to the same position.
pub proof fn lemma_find_col_same_names(c1: Seq<Column>, c2: Seq<Column>, name: Seq<char>)
    requires
        c1.len() == c2.len(),
        forall|j: int|
            0 <= j < c1.len() ==> (#[trigger] c1[j]).column_name@ == (#[trigger] c2[j]).column_name@,
    ensures
        find_col(c1, name) == find_col(c2, name),
    decreases c1.len(),
{
    if c1.len() > 0 {
        let t1 = c1.subrange(1, c1.len() as int);
        let t2 = c2.subrange(1, c2.len() as int);
        assert(forall|j: int|
            0 <= j < t1.len() ==> (#[trigger] t1[j]).column_name@
                == (#[trigger] t2[j]).column_name@);
        lemma_find_col_same_names(t1, t2, name);
    }
}

/// What one row insert does to column `i`: the integer primary-key column
/// takes the identity write at the new row id, a column supplied with a
/// non-NULL literal takes that literal, and every other column is left
/// without an entry at the new row id.
pub open spec fn inserted_col_post(
    pre: Table,
    post: Table,
    cols: Seq<String>,
    values: Seq<String>,
    i: int,
) -> bool {
    let rowid = pre.spec_rowid(cols, values) as i64;
    let a = pre.columns@[i];
    let b = post.columns@[i];
    let j = find_str(cols, a.column_name@);
    &&& same_decl(a, b)
    &&& if pre.has_int_pk() && a.column_name@ == pre.primary_key@ {
        col_wrote_pk(a, b, rowid)
    } else if 0 <= j < values.len() && !is_null_marker(values[j]@) {
        col_wrote(a, b, rowid, values[j]@)
    } else {
        col_untouched(a, b)
    }
}

impl Table {
    /// Reads the caller-supplied primary-key value, if any, as the row id:
    /// the first value supplied under the primary-key column's name, parsed
    /// as an integer. Without one, the candidate row id passes through.
    pub fn assign_primary_key_from_values(
        &self,
        cols: &Vec<String>,
        values: &Vec<String>,
        next_rowid: i64,
    ) -> (r: crate::error::Result<i64>)
        requires
            cols@.len() == values@.len(),
        ensures
            ({
                let j = find_str(cols@, self.primary_key@);
                if 0 <= j < values@.len() {
                    let pv = values@[j]@;
                    if numtext::int_literal_ok(pv) && i32::MIN <= numtext::int_literal_val(pv)
                        <= i32::MAX {
                        r matches Ok(v) && v as int == numtext::int_literal_val(pv)
                    } else {
                        r matches Err(e) && e is General
                    }
                } else {
                    r matches Ok(v) && v == next_rowid
                }
            }),
    {
        match find_str_idx(cols, self.primary_key.as_str()) {
            Some(j) => match numtext::parse_i32(values[j].as_str()) {
                Some(v) => Ok(v as i64),
                None => Err(
                    crate::error::RUSQLError::General(
                        "Error: Invalid primary key value.".to_owned(),
                    ),
                ),
            },
            None => Ok(next_rowid),
        }
    }

    /// Assigns the fresh row id to the integer primary-key column itself:
    /// the row id becomes both key and value of the store, and the index
    /// points it back at the row.
    pub fn auto_assign_primary_key(&mut self, next_rowid: i64) -> (r: i64)
        requires
            old(self).wf(),
            old(self).has_int_pk(),
            i32::MIN <= next_rowid <= i32::MAX,
            !old(self).col_at(old(self).primary_key@).has_row(next_rowid),
        ensures
            r == next_rowid,
            final(self).wf(),
            final(self).tb_name == old(self).tb_name,
            final(self).last_rowid == old(self).last_rowid,
            final(self).primary_key == old(self).primary_key,
            final(self).indexes == old(self).indexes,
            final(self).columns@.len() == old(self).columns@.len(),
            ({
                let pi = find_col(old(self).columns@, old(self).primary_key@);
                &&& forall|j: int|
                    0 <= j < old(self).columns@.len() && j != pi ==> final(self).columns@[j]
                        == old(self).columns@[j]
                &&& same_decl(old(self).columns@[pi], final(self).columns@[pi])
                &&& col_wrote_pk(old(self).columns@[pi], final(self).columns@[pi], next_rowid)
            }),
    {
        let pi = self.find_col_idx(self.primary_key.as_str()).unwrap();
        let ghost a = self.columns@[pi as int];
        let v: i32 = next_rowid as i32;
        let c = &mut self.columns[pi];
        match &mut c.row {
            Row::Integer(m) => m.insert(next_rowid, v),
            _ => {
                proof {
                    assert(false);
                }
            },
        }
        match &mut c.index {
            Index::Integer(ix) => ix.insert(next_rowid, next_rowid),
            _ => {
                proof {
                    assert(false);
                }
            },
        }
        proof {
            let b = self.columns@[pi as int];
            match (a.row, b.row) {
                (Row::Integer(m0), Row::Integer(m1)) => {
                    match (a.index, b.index) {
                        (Index::Integer(x0), Index::Integer(x1)) => {
                            assert forall|w: i64| #[trigger]
                                x1@.contains_key(w) implies m1@.contains_key(x1@[w])
                                && m1@[x1@[w]] as i64 == w by {
                                if w == next_rowid {
                                } else {
                                    assert(x0@.contains_key(w));
                                    let rw = x0@[w];
                                    assert(m0@.contains_key(rw) && m0@[rw] as i64 == w);
                                    assert(rw != next_rowid);
                                }
                            }
                            assert forall|rr: i64| #[trigger]
                                m1@.contains_key(rr) implies x1@.contains_key(m1@[rr] as i64) by {
                                if rr != next_rowid {
                                    assert(m0@.contains_key(rr));
                                }
                            }
                        },
                        _ => {},
                    }
                },
                _ => {},
            }
            assert(b.wf());
            lemma_find_col_same_names(old(self).columns@, self.columns@, old(self).primary_key@);
            assert(self.col_at(self.primary_key@) == b);
            assert forall|i: int, x: i64|
                0 <= i < self.columns@.len() && #[trigger] self.columns@[i].has_row(x)
                implies self.col_at(self.primary_key@).has_row(x) by {
                if i != pi as int {
                    assert(old(self).columns@[i].has_row(x));
                }
            }
            assert(self.wf());
        }
        next_rowid
    }

    /// Decides the row identity when the table has an integer primary key:
    /// a supplied primary-key value overrides the candidate and becomes the
    /// row id; otherwise the candidate is auto-assigned and written into
    /// the primary-key column.
    pub fn handle_primary_key(
        &mut self,
        cols: &Vec<String>,
        values: &Vec<String>,
        next_rowid: i64,
    ) -> (r: i64)
        requires
            old(self).wf(),
            old(self).has_int_pk(),
            cols@.len() == values@.len(),
            ({
                let j = find_str(cols@, old(self).primary_key@);
                if j >= 0 {
                    let pv = values@[j]@;
                    &&& numtext::int_literal_ok(pv)
                    &&& i32::MIN <= numtext::int_literal_val(pv) <= i32::MAX
                    &&& next_rowid as int == numtext::int_literal_val(pv)
                } else {
                    &&& i32::MIN <= next_rowid <= i32::MAX
                    &&& !old(self).col_at(old(self).primary_key@).has_row(next_rowid)
                }
            }),
        ensures
            r == next_rowid,
            final(self).wf(),
            final(self).tb_name == old(self).tb_name,
            final(self).last_rowid == old(self).last_rowid,
            final(self).primary_key == old(self).primary_key,
            final(self).indexes == old(self).indexes,
            final(self).columns@.len() == old(self).columns@.len(),
            ({
                let j = find_str(cols@, old(self).primary_key@);
                let pi = find_col(old(self).columns@, old(self).primary_key@);
                if j >= 0 {
                    *final(self) == *old(self)
                } else {
                    &&& forall|k: int|
                        0 <= k < old(self).columns@.len() && k != pi ==> final(self).columns@[k]
                            == old(self).columns@[k]
                    &&& same_decl(old(self).columns@[pi], final(self).columns@[pi])
                    &&& col_wrote_pk(old(self).columns@[pi], final(self).columns@[pi], next_rowid)
                }
            }),
    {
        match find_str_idx(cols, self.primary_key.as_str()) {
            Some(_) => {
                match self.assign_primary_key_from_values(cols, values, next_rowid) {
                    Ok(v) => v,
                    Err(_) => {
                        proof {
                            assert(false);
                        }
                        next_rowid
                    },
                }
            },
            None => self.auto_assign_primary_key(next_rowid),
        }
    }
}

/// What the supplied-values pass does to column `i`: a column supplied
/// with a non-NULL literal takes that literal at the new row id, every
/// other column is untouched.
pub open spec fn missing_col_post(
    pre: Table,
    post: Table,
    cols: Seq<String>,
    values: Seq<String>,
    rowid: i64,
    i: int,
) -> bool {
    let a = pre.columns@[i];
    let b = post.columns@[i];
    let j = find_str(cols, a.column_name@);
    &&& same_decl(a, b)
    &&& if 0 <= j < values.len() && !is_null_marker(values[j]@) {
        col_wrote(a, b, rowid, values[j]@)
    } else {
        col_untouched(a, b)
    }
}

impl Table {
    /// Walks the schema in declaration order and writes each column's
    /// supplied value at the new row id; a column whose value is missing or
    /// is the NULL marker is left without an entry at that row id.
    pub fn handle_missing_columns(
        &mut self,
        cols: &Vec<String>,
        values: &Vec<String>,
        next_rowid: i64,
    )
        requires
            old(self).wf(),
            cols@.len() == values@.len(),
            forall|j: int| 0 <= j < cols@.len() ==> old(self).has_col((#[trigger] cols@[j])@),
            forall|j: int|
                0 <= j < cols@.len() ==> is_null_marker((#[trigger] values@[j])@) || value_parses(
                    old(self).col_at(cols@[j]@).datatype,
                    values@[j]@,
                ),
            forall|i: int|
                0 <= i < old(self).columns@.len() && !(old(self).has_int_pk() && (#[trigger] old(
                    self,
                ).columns@[i]).column_name@ == old(self).primary_key@) ==> !old(
                    self,
                ).columns@[i].has_row(next_rowid),
            old(self).has_int_pk() && find_str(cols@, old(self).primary_key@) >= 0 ==> ({
                let pv = values@[find_str(cols@, old(self).primary_key@)]@;
                &&& numtext::int_literal_ok(pv)
                &&& i32::MIN <= numtext::int_literal_val(pv) <= i32::MAX
                &&& numtext::int_literal_val(pv) == next_rowid as int
            }),
            old(self).has_int_pk() && find_str(cols@, old(self).primary_key@) < 0 ==> old(
                self,
            ).col_at(old(self).primary_key@).has_row(next_rowid),
            !old(self).has_int_pk() ==> next_rowid == old(self).last_rowid && next_rowid >= 1,
        ensures
            final(self).wf(),
            final(self).tb_name == old(self).tb_name,
            final(self).last_rowid == old(self).last_rowid,
            final(self).primary_key == old(self).primary_key,
            final(self).indexes == old(self).indexes,
            final(self).columns@.len() == old(self).columns@.len(),
            forall|i: int|
                0 <= i < old(self).columns@.len() ==> #[trigger] missing_col_post(
                    *old(self),
                    *final(self),
                    cols@,
                    values@,
                    next_rowid,
                    i,
                ),
    {
        let n = self.columns.len();
        let mut i: usize = 0;
        while i < n
            invariant
                n == self.columns@.len(),
                n == old(self).columns@.len(),
                i <= n,
                cols@.len() == values@.len(),
                old(self).wf(),
                forall|j: int| 0 <= j < cols@.len() ==> old(self).has_col((#[trigger] cols@[j])@),
                forall|j: int|
                    0 <= j < cols@.len() ==> is_null_marker((#[trigger] values@[j])@)
                        || value_parses(old(self).col_at(cols@[j]@).datatype, values@[j]@),
                forall|k: int|
                    0 <= k < old(self).columns@.len() && !(old(self).has_int_pk() && (
                    #[trigger] old(self).columns@[k]).column_name@ == old(self).primary_key@)
                        ==> !old(self).columns@[k].has_row(next_rowid),
                old(self).has_int_pk() && find_str(cols@, old(self).primary_key@) >= 0 ==> ({
                    let pv = values@[find_str(cols@, old(self).primary_key@)]@;
                    &&& numtext::int_literal_ok(pv)
                    &&& i32::MIN <= numtext::int_literal_val(pv) <= i32::MAX
                    &&& numtext::int_literal_val(pv) == next_rowid as int
                }),
                self.tb_name == old(self).tb_name,
                self.last_rowid == old(self).last_rowid,
                self.primary_key == old(self).primary_key,
                self.indexes == old(self).indexes,
                forall|k: int| i <= k < n ==> self.columns@[k] == old(self).columns@[k],
                forall|k: int|
                    0 <= k < i ==> #[trigger] missing_col_post(
                        *old(self),
                        *self,
                        cols@,
                        values@,
                        next_rowid,
                        k,
                    ),
                forall|k: int| 0 <= k < i ==> (#[trigger] self.columns@[k]).wf(),
            decreases n - i,
        {
            let key = self.columns[i].column_name.clone();
            proof {
                assert(self.columns@[i as int] == old(self).columns@[i as int]);
                assert(key@ == old(self).columns@[i as int].column_name@);
                assert(forall|j: int|
                    0 <= j < i ==> (#[trigger] old(self).columns@[j]).column_name@ != key@);
                lemma_find_col_at(old(self).columns@, key@, i as int);
                assert forall|j: int|
                    0 <= j < n implies (#[trigger] self.columns@[j]).column_name@ == old(
                    self,
                ).columns@[j].column_name@ by {
                    if j < i {
                        assert(missing_col_post(
                            *old(self),
                            *self,
                            cols@,
                            values@,
                            next_rowid,
                            j,
                        ));
                    }
                }
                lemma_find_col_same_names(old(self).columns@, self.columns@, key@);
            }
            match find_str_idx(cols, key.as_str()) {
                Some(j) => {
                    let v = &values[j];
                    if !is_null_lit(v.as_str()) {
                        let ghost pre_loop_self = *self;
                        proof {
                            lemma_find_str_bounds(cols@, key@);
                            assert(cols@[j as int]@ == key@);
                            assert(old(self).col_at(cols@[j as int]@) == old(
                                self,
                            ).columns@[i as int]);
                            assert(self.columns@[i as int] == old(self).columns@[i as int]);
                            assert(self.columns@[i as int].wf());
                            if old(self).has_int_pk() && key@ == old(self).primary_key@ {
                                assert(find_str(cols@, old(self).primary_key@) == j as int);
                                if old(self).columns@[i as int].has_row(next_rowid) {
                                    assert(old(self).col_at(old(self).primary_key@) == old(
                                        self,
                                    ).columns@[i as int]) by {
                                        lemma_find_col_at(
                                            old(self).columns@,
                                            old(self).primary_key@,
                                            i as int,
                                        );
                                    }
                                    assert(old(self).pk_identity());
                                }
                            } else {
                                assert(!old(self).columns@[i as int].has_row(next_rowid));
                            }
                        }
                        self.insert_value_into_column(&key, v.clone(), next_rowid);
                        proof {
                            assert(find_col(pre_loop_self.columns@, key@) == i as int);
                            assert(missing_col_post(
                                *old(self),
                                *self,
                                cols@,
                                values@,
                                next_rowid,
                                i as int,
                            )) by {
                                assert(find_str(cols@, key@) == j as int);
                            }
                            assert forall|k: int|
                                0 <= k < i implies #[trigger] missing_col_post(
                                *old(self),
                                *self,
                                cols@,
                                values@,
                                next_rowid,
                                k,
                            ) by {
                                assert(missing_col_post(
                                    *old(self),
                                    pre_loop_self,
                                    cols@,
                                    values@,
                                    next_rowid,
                                    k,
                                ));
                                assert(self.columns@[k] == pre_loop_self.columns@[k]);
                            }
                            assert forall|k: int|
                                0 <= k < i implies (#[trigger] self.columns@[k]).wf() by {
                                assert(self.columns@[k] == pre_loop_self.columns@[k]);
                            }
                        }
                    } else {
                        proof {
                            assert(missing_col_post(
                                *old(self),
                                *self,
                                cols@,
                                values@,
                                next_rowid,
                                i as int,
                            )) by {
                                assert(find_str(cols@, key@) == j as int);
                            }
                        }
                    }
                },
                None => {
                    proof {
                        assert(missing_col_post(
                            *old(self),
                            *self,
                            cols@,
                            values@,
                            next_rowid,
                            i as int,
                        )) by {
                            assert(find_str(cols@, key@) == -1);
                        }
                    }
                },
            }
            i += 1;
        }
        proof {
            lemma_missing_columns_wf(*old(self), *self, cols@, values@, next_rowid);
        }
    }
}

/// The supplied-values pass preserves the table invariant.
proof fn lemma_missing_columns_wf(
    pre: Table,
    post: Table,
    cols: Seq<String>,
    values: Seq<String>,
    rowid: i64,
)
    requires
        pre.wf(),
        cols.len() == values.len(),
        post.columns@.len() == pre.columns@.len(),
        post.tb_name == pre.tb_name,
        post.last_rowid == pre.last_rowid,
        post.primary_key == pre.primary_key,
        forall|i: int|
            0 <= i < pre.columns@.len() ==> #[trigger] missing_col_post(
                pre,
                post,
                cols,
                values,
                rowid,
                i,
            ),
        forall|i: int| 0 <= i < post.columns@.len() ==> (#[trigger] post.columns@[i]).wf(),
        pre.has_int_pk() && find_str(cols, pre.primary_key@) >= 0 ==> ({
            let pv = values[find_str(cols, pre.primary_key@)]@;
            &&& numtext::int_literal_ok(pv)
            &&& i32::MIN <= numtext::int_literal_val(pv) <= i32::MAX
            &&& numtext::int_literal_val(pv) == rowid as int
        }),
        pre.has_int_pk() && find_str(cols, pre.primary_key@) < 0 ==> pre.col_at(
            pre.primary_key@,
        ).has_row(rowid),
        !pre.has_int_pk() ==> rowid == pre.last_rowid && rowid >= 1,
    ensures
        post.wf(),
{
    let n = pre.columns@.len();
    assert forall|i: int, j: int|
        0 <= i < j < n implies (#[trigger] post.columns@[i]).column_name@
        != (#[trigger] post.columns@[j]).column_name@ by {
        assert(missing_col_post(pre, post, cols, values, rowid, i));
        assert(missing_col_post(pre, post, cols, values, rowid, j));
    }
    assert forall|i: int|
        0 <= i < n && (#[trigger] post.columns@[i]).is_pk implies post.columns@[i].column_name@
        == post.primary_key@ by {
        assert(missing_col_post(pre, post, cols, values, rowid, i));
    }
    assert forall|j: int|
        0 <= j < n implies (#[trigger] post.columns@[j]).column_name@
        == pre.columns@[j].column_name@ by {
        assert(missing_col_post(pre, post, cols, values, rowid, j));
    }
    lemma_find_col_same_names(pre.columns@, post.columns@, pre.primary_key@);
    if pre.has_pk() {
        let pi = find_col(pre.columns@, pre.primary_key@);
        lemma_find_col_bounds(pre.columns@, pre.primary_key@);
        assert(missing_col_post(pre, post, cols, values, rowid, pi));
        assert(post.col_at(post.primary_key@).is_pk);
    }
    assert(post.has_int_pk() == pre.has_int_pk()) by {
        if pre.has_pk() {
            let pi = find_col(pre.columns@, pre.primary_key@);
            assert(missing_col_post(pre, post, cols, values, rowid, pi));
        }
    }
    if pre.has_int_pk() {
        let pi = find_col(pre.columns@, pre.primary_key@);
        lemma_find_col_bounds(pre.columns@, pre.primary_key@);
        let a = pre.columns@[pi];
        let b = post.columns@[pi];
        assert(missing_col_post(pre, post, cols, values, rowid, pi));
        let pj = find_str(cols, pre.primary_key@);
        assert(post.pk_identity()) by {
            match (a.row, b.row) {
                (Row::Integer(m0), Row::Integer(m1)) => {
                    if 0 <= pj < values.len() && !is_null_marker(values[pj]@) {
                        assert(m1@ == m0@.insert(
                            rowid,
                            numtext::int_literal_val(values[pj]@) as i32,
                        ));
                        assert forall|r: i64| #[trigger]
                            m1@.contains_key(r) implies m1@[r] as i64 == r by {
                            if r != rowid {
                                assert(m0@.contains_key(r));
                            }
                        }
                    } else {
                        assert(b.row == a.row);
                    }
                },
                _ => {
                    assert(false);
                },
            }
        }
        reveal_strlit("Null");
        lemma_find_str_bounds(cols, pre.primary_key@);
        if pj >= 0 {
            assert(!is_null_marker(values[pj]@)) by {
                if values[pj]@ == "Null"@ {
                    assert(values[pj]@[0] == 'N');
                    assert(!numtext::int_literal_ok(values[pj]@));
                }
            }
        }
        assert(post.pk_covers()) by {
            assert forall|i: int, r: i64|
                0 <= i < n && #[trigger] post.columns@[i].has_row(r) implies post.col_at(
                post.primary_key@,
            ).has_row(r) by {
                assert(missing_col_post(pre, post, cols, values, rowid, i));
                let ja = find_str(cols, pre.columns@[i].column_name@);
                if 0 <= ja < values.len() && !is_null_marker(values[ja]@) {
                    if r != rowid {
                        assert(pre.columns@[i].has_row(r));
                        assert(pre.col_at(pre.primary_key@).has_row(r));
                    } else {
                        if pj >= 0 {
                            assert(b.has_row(rowid));
                        } else {
                            assert(a.has_row(rowid));
                            assert(b.has_row(rowid));
                        }
                    }
                } else {
                    assert(pre.columns@[i].has_row(r));
                    assert(pre.col_at(pre.primary_key@).has_row(r));
                }
                assert(pre.col_at(pre.primary_key@).has_row(r) ==> b.has_row(r));
            }
        }
    } else {
        assert(post.rowids_bounded()) by {
            assert forall|i: int, r: i64|
                0 <= i < n && #[trigger] post.columns@[i].has_row(r) implies 0 < r
                <= post.last_rowid by {
                assert(missing_col_post(pre, post, cols, values, rowid, i));
                let ja = find_str(cols, pre.columns@[i].column_name@);
                if 0 <= ja < values.len() && !is_null_marker(values[ja]@) {
                    if r != rowid {
                        assert(pre.columns@[i].has_row(r));
                    }
                } else {
                    assert(pre.columns@[i].has_row(r));
                }
            }
        }
    }
}

impl Table {
    /// Inserts one row. Row identity comes from the supplied integer
    /// primary-key value when there is one, else from the counter plus
    /// one; each supplied column takes its parsed value at that row id,
    /// each omitted (or NULL) column is left without an entry there; the
    /// counter moves to the new row id. On any invalid input the table is
    /// left unchanged. Uniqueness is not re-checked here: run
    /// `validate__unique_constraint` first.
    pub fn insert_row(&mut self, cols: &Vec<String>, values: &Vec<String>) -> (r:
        crate::error::Result<()>)
        requires
            old(self).wf(),
            cols@.len() == values@.len(),
        ensures
            final(self).wf(),
            r is Ok <==> old(self).can_insert(cols@, values@),
            r matches Err(e) ==> *final(self) == *old(self) && e is General,
            r is Ok ==> ({
                let rowid = old(self).spec_rowid(cols@, values@) as i64;
                &&& final(self).tb_name == old(self).tb_name
                &&& final(self).primary_key == old(self).primary_key
                &&& final(self).indexes == old(self).indexes
                &&& final(self).last_rowid == rowid
                &&& final(self).columns@.len() == old(self).columns@.len()
                &&& forall|i: int|
                    0 <= i < old(self).columns@.len() ==> #[trigger] inserted_col_post(
                        *old(self),
                        *final(self),
                        cols@,
                        values@,
                        i,
                    )
            }),
    {
        let n = cols.len();
        let mut j: usize = 0;
        while j < n
            invariant
                n == cols@.len(),
                n == values@.len(),
                j <= n,
                *self == *old(self),
                self.wf(),
                forall|k: int| 0 <= k < j ==> self.has_col((#[trigger] cols@[k])@),
                forall|k: int|
                    0 <= k < j ==> is_null_marker((#[trigger] values@[k])@) || value_parses(
                        self.col_at(cols@[k]@).datatype,
                        values@[k]@,
                    ),
            decreases n - j,
        {
            match self.find_col_idx(cols[j].as_str()) {
                None => {
                    return Err(
                        crate::error::RUSQLError::General("Column not found.".to_owned()),
                    );
                },
                Some(ci) => {
                    let v = &values[j];
                    if !is_null_lit(v.as_str()) && !check_value(
                        self.columns[ci].datatype,
                        v.as_str(),
                    ) {
                        proof {
                            assert(self.col_at(cols@[j as int]@) == self.columns@[ci as int]);
                        }
                        let mut m: String = "Error: Invalid value for column ".to_owned();
                        m.append(cols[j].as_str());
                        m.append(".");
                        return Err(crate::error::RUSQLError::General(m));
                    }
                    proof {
                        assert(self.col_at(cols@[j as int]@) == self.columns@[ci as int]);
                    }
                },
            }
            j += 1;
        }
        // Decide the row id and check that it is available.
        let mut is_int_pk: bool = false;
        let mut pk_ci: usize = 0;
        if !text::str_eq(self.primary_key.as_str(), "-1") {
            match self.find_col_idx(self.primary_key.as_str()) {
                Some(ci) => {
                    if self.columns[ci].datatype == DataType::Integer {
                        is_int_pk = true;
                        pk_ci = ci;
                    }
                },
                None => {},
            }
        }
        proof {
            assert(is_int_pk == self.has_int_pk());
            if is_int_pk {
                assert(self.col_at(self.primary_key@) == self.columns@[pk_ci as int]);
            }
        }
        let rowid: i64;
        if is_int_pk {
            match find_str_idx(cols, self.primary_key.as_str()) {
                Some(pj) => {
                    match numtext::parse_i32(values[pj].as_str()) {
                        Some(v) => {
                            rowid = v as i64;
                        },
                        None => {
                            return Err(
                                crate::error::RUSQLError::General(
                                    "Error: Invalid primary key value.".to_owned(),
                                ),
                            );
                        },
                    }
                },
                None => {
                    if self.last_rowid == i64::MAX {
                        return Err(
                            crate::error::RUSQLError::General(
                                "Error: Row id overflow.".to_owned(),
                            ),
                        );
                    }
                    if self.last_rowid + 1 > 2147483647i64 {
                        return Err(
                            crate::error::RUSQLError::General(
                                "Error: Row id overflow.".to_owned(),
                            ),
                        );
                    }
                    rowid = self.last_rowid + 1;
                },
            }
            let fresh: bool = match &self.columns[pk_ci].row {
                Row::Integer(m) => !m.contains_key(rowid),
                _ => false,
            };
            if !fresh {
                proof {
                    assert(self.col_at(self.primary_key@).has_row(
                        self.spec_rowid(cols@, values@) as i64,
                    ));
                }
                return Err(
                    crate::error::RUSQLError::General("Error: Row id already in use.".to_owned()),
                );
            }
        } else {
            if self.last_rowid == i64::MAX {
                return Err(
                    crate::error::RUSQLError::General("Error: Row id overflow.".to_owned()),
                );
            }
            rowid = self.last_rowid + 1;
        }
        proof {
            assert(old(self).can_insert(cols@, values@));
            assert(rowid as int == self.spec_rowid(cols@, values@));
        }
        // All checks passed: write the row.
        let mut next_rowid: i64 = rowid;
        if is_int_pk {
            proof {
                let jj = find_str(cols@, self.primary_key@);
                assert(self.pk_supplied(cols@) == (jj >= 0));
                if jj >= 0 {
                    assert(cols@[jj]@ == self.primary_key@) by {
                        lemma_find_str_bounds(cols@, self.primary_key@);
                    }
                    assert(numtext::int_literal_ok(values@[jj]@));
                    assert(i32::MIN <= numtext::int_literal_val(values@[jj]@) <= i32::MAX);
                    assert(rowid as int == numtext::int_literal_val(values@[jj]@));
                } else {
                    assert(rowid as int == self.last_rowid + 1);
                    assert(i32::MIN <= rowid <= i32::MAX);
                    assert(!self.col_at(self.primary_key@).has_row(rowid));
                }
            }
            next_rowid = self.handle_primary_key(cols, values, rowid);
        }
        let ghost mid = *self;
        self.last_rowid = next_rowid;
        proof {
            assert(self.wf()) by {
                assert(forall|i: int|
                    0 <= i < self.columns@.len() ==> self.columns@[i] == mid.columns@[i]);
                if !self.has_int_pk() {
                    assert forall|i: int, x: i64|
                        0 <= i < self.columns@.len() && #[trigger] self.columns@[i].has_row(x)
                        implies 0 < x <= self.last_rowid by {
                        assert(mid.columns@[i].has_row(x));
                    }
                }
            }
        }
        let ghost mid2 = *self;
        proof {
            assert(forall|k: int|
                0 <= k < self.columns@.len() ==> (#[trigger] self.columns@[k]).column_name@
                    == old(self).columns@[k].column_name@);
            assert forall|k: int| 0 <= k < cols@.len() implies self.has_col(
                (#[trigger] cols@[k])@,
            ) by {
                lemma_find_col_same_names(old(self).columns@, self.columns@, cols@[k]@);
            }
            assert forall|k: int|
                0 <= k < cols@.len() implies is_null_marker((#[trigger] values@[k])@)
                || value_parses(self.col_at(cols@[k]@).datatype, values@[k]@) by {
                lemma_find_col_same_names(old(self).columns@, self.columns@, cols@[k]@);
                let ci = find_col(old(self).columns@, cols@[k]@);
                lemma_find_col_bounds(old(self).columns@, cols@[k]@);
                assert(self.columns@[ci].datatype == old(self).columns@[ci].datatype);
            }
            // Freshness of the row id for every column that is not the
            // integer primary key, from the storage invariants.
            assert forall|k: int|
                0 <= k < self.columns@.len() && !(self.has_int_pk() && (
                #[trigger] self.columns@[k]).column_name@ == self.primary_key@) implies !self
                .columns@[k].has_row(next_rowid) by {
                lemma_find_col_same_names(old(self).columns@, self.columns@, self.primary_key@);
                if old(self).has_int_pk() {
                    let pi = find_col(old(self).columns@, old(self).primary_key@);
                    lemma_find_col_bounds(old(self).columns@, old(self).primary_key@);
                    assert(k != pi);
                    assert(self.columns@[k] == old(self).columns@[k]);
                    if old(self).columns@[k].has_row(next_rowid) {
                        assert(old(self).col_at(old(self).primary_key@).has_row(next_rowid));
                        assert(false);
                    }
                } else {
                    assert(self.columns@[k] == old(self).columns@[k]);
                    if old(self).columns@[k].has_row(next_rowid) {
                        assert(0 < next_rowid <= old(self).last_rowid);
                        assert(false);
                    }
                }
            }
            if self.has_int_pk() {
                lemma_find_col_same_names(old(self).columns@, self.columns@, self.primary_key@);
                let pi = find_col(old(self).columns@, old(self).primary_key@);
                lemma_find_col_bounds(old(self).columns@, old(self).primary_key@);
                let jj = find_str(cols@, self.primary_key@);
                if jj >= 0 {
                    lemma_find_str_bounds(cols@, self.primary_key@);
                } else {
                    assert(col_wrote_pk(old(self).columns@[pi], self.columns@[pi], next_rowid));
                    assert(self.col_at(self.primary_key@).has_row(next_rowid));
                }
            }
        }
        self.handle_missing_columns(cols, values, next_rowid);
        proof {
            lemma_insert_row_post(*old(self), mid2, *self, cols@, values@, next_rowid);
        }
        Ok(())
    }
}

/// Composes the primary-key pass and the supplied-values pass into the
/// overall effect of one row insert.
proof fn lemma_insert_row_post(
    pre: Table,
    mid: Table,
    post: Table,
    cols: Seq<String>,
    values: Seq<String>,
    rowid: i64,
)
    requires
        pre.wf(),
        cols.len() == values.len(),
        pre.can_insert(cols, values),
        rowid as int == pre.spec_rowid(cols, values),
        mid.columns@.len() == pre.columns@.len(),
        mid.tb_name == pre.tb_name,
        mid.primary_key == pre.primary_key,
        mid.indexes == pre.indexes,
        mid.last_rowid == rowid,
        pre.has_int_pk() && find_str(cols, pre.primary_key@) < 0 ==> ({
            let pi = find_col(pre.columns@, pre.primary_key@);
            &&& forall|k: int|
                0 <= k < pre.columns@.len() && k != pi ==> mid.columns@[k] == pre.columns@[k]
            &&& same_decl(pre.columns@[pi], mid.columns@[pi])
            &&& col_wrote_pk(pre.columns@[pi], mid.columns@[pi], rowid)
        }),
        !(pre.has_int_pk() && find_str(cols, pre.primary_key@) < 0) ==> mid.columns@
            == pre.columns@,
        post.columns@.len() == mid.columns@.len(),
        post.tb_name == mid.tb_name,
        post.primary_key == mid.primary_key,
        post.indexes == mid.indexes,
        post.last_rowid == mid.last_rowid,
        forall|i: int|
            0 <= i < mid.columns@.len() ==> #[trigger] missing_col_post(
                mid,
                post,
                cols,
                values,
                rowid,
                i,
            ),
    ensures
        forall|i: int|
            0 <= i < pre.columns@.len() ==> #[trigger] inserted_col_post(
                pre,
                post,
                cols,
                values,
                i,
            ),
{
    let n = pre.columns@.len();
    let pi = find_col(pre.columns@, pre.primary_key@);
    let pj = find_str(cols, pre.primary_key@);
    lemma_find_col_bounds(pre.columns@, pre.primary_key@);
    lemma_find_str_bounds(cols, pre.primary_key@);
    reveal_strlit("Null");
    assert forall|i: int| 0 <= i < n implies #[trigger] inserted_col_post(
        pre,
        post,
        cols,
        values,
        i,
    ) by {
        let a = pre.columns@[i];
        let m = mid.columns@[i];
        let b = post.columns@[i];
        assert(missing_col_post(mid, post, cols, values, rowid, i));
        if pre.has_int_pk() && a.column_name@ == pre.primary_key@ {
            assert(i == pi);
            if pj >= 0 {
                assert(m == a);
                assert(mid.columns@[i].column_name@ == a.column_name@);
                let pv = values[pj]@;
                assert(numtext::int_literal_ok(pv));
                assert(!is_null_marker(pv)) by {
                    if pv == "Null"@ {
                        assert(pv[0] == 'N');
                        assert(!numtext::int_literal_ok(pv));
                    }
                }
                assert(col_wrote(m, b, rowid, pv));
                assert(numtext::int_literal_val(pv) == rowid as int);
                assert(col_wrote_pk(a, b, rowid)) by {
                    match (m.row, b.row) {
                        (Row::Integer(m0), Row::Integer(m1)) => {
                            assert(m1@ == m0@.insert(rowid, numtext::int_literal_val(pv) as i32));
                            assert(numtext::int_literal_val(pv) as i32 == rowid as i32);
                        },
                        _ => {},
                    }
                    match (m.index, b.index) {
                        (Index::Integer(x0), Index::Integer(x1)) => {
                            assert(x1@ == x0@.insert(numtext::int_literal_val(pv) as i64, rowid));
                            assert(numtext::int_literal_val(pv) as i64 == rowid);
                        },
                        _ => {},
                    }
                }
            } else {
                assert(col_wrote_pk(a, m, rowid));
                assert(find_str(cols, m.column_name@) == pj);
                assert(col_untouched(m, b));
                assert(col_wrote_pk(a, b, rowid));
            }
        } else {
            assert(m == a) by {
                if pre.has_int_pk() && pj < 0 {
                    assert(i != pi);
                }
            }
            let ja = find_str(cols, a.column_name@);
            if 0 <= ja < values.len() && !is_null_marker(values[ja]@) {
                assert(col_wrote(a, b, rowid, values[ja]@));
            } else {
                assert(col_untouched(a, b));
            }
        }
    }
}

} // verus!
