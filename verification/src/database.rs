use vstd::prelude::*;

use crate::error::RUSQLError;
use crate::error::Result;
use crate::table::Table;
use crate::text;

verus! {

/// The position of the first table of `ts` named `name`, or -1.
pub open spec fn find_table(ts: Seq<Table>, name: Seq<char>) -> int
    decreases ts.len(),
{
    if ts.len() == 0 {
        -1
    } else if ts[0].tb_name@ == name {
        0
    } else {
        let r = find_table(ts.subrange(1, ts.len() as int), name);
        if r < 0 {
            -1
        } else {
            r + 1
        }
    }
}

pub proof fn lemma_find_table_at(ts: Seq<Table>, name: Seq<char>, k: int)
    requires
        0 <= k <= ts.len(),
        forall|j: int| 0 <= j < k ==> (#[trigger] ts[j]).tb_name@ != name,
        k == ts.len() || ts[k].tb_name@ == name,
    ensures
        find_table(ts, name) == if k == ts.len() {
            -1int
        } else {
            k
        },
    decreases k,
{
    if k == 0 {
        if ts.len() > 0 && ts[0].tb_name@ != name {
            let t = ts.subrange(1, ts.len() as int);
            lemma_find_table_bounds(t, name);
        }
    } else {
        let t = ts.subrange(1, ts.len() as int);
        assert(forall|j: int| 0 <= j < k - 1 ==> (#[trigger] t[j]).tb_name@ != name);
        lemma_find_table_at(t, name, k - 1);
    }
}

pub proof fn lemma_find_table_bounds(ts: Seq<Table>, name: Seq<char>)
    ensures
        find_table(ts, name) == -1 ==> forall|j: int|
            0 <= j < ts.len() ==> (#[trigger] ts[j]).tb_name@ != name,
        find_table(ts, name) != -1 ==> 0 <= find_table(ts, name) < ts.len() && ts[find_table(
            ts,
            name,
        )].tb_name@ == name,
    decreases ts.len(),
{
    if ts.len() > 0 {
        let t = ts.subrange(1, ts.len() as int);
        lemma_find_table_bounds(t, name);
        if ts[0].tb_name@ != name && find_table(ts, name) == -1 {
            assert(find_table(t, name) == -1);
            assert forall|j: int| 0 <= j < ts.len() implies (#[trigger] ts[j]).tb_name@ != name by {
                if j > 0 {
                    assert(t[j - 1] == ts[j]);
                    assert(t[j - 1].tb_name@ != name);
                }
            }
        }
    }
}

/// The registry of tables, keyed by case-sensitive table name.
#[derive(Debug)]
pub struct Database {
    pub db_name: String,
    pub tables: Vec<Table>,
}

impl Database {
    /// Whether some registered table is named `name`.
    pub open spec fn has_table(&self, name: Seq<char>) -> bool {
        find_table(self.tables@, name) >= 0
    }

    /// The registered table of this name.
    pub open spec fn table_at(&self, name: Seq<char>) -> Table {
        self.tables@[find_table(self.tables@, name)]
    }

    /// Table names are pairwise distinct and every table satisfies its own
    /// invariant.
    pub open spec fn wf(&self) -> bool {
        &&& forall|i: int, j: int|
            0 <= i < j < self.tables@.len() ==> (#[trigger] self.tables@[i]).tb_name@
                != (#[trigger] self.tables@[j]).tb_name@
        &&& forall|i: int| 0 <= i < self.tables@.len() ==> (#[trigger] self.tables@[i]).wf()
    }

    /// An empty database.
    pub fn new(db_name: String) -> (r: Database)
        ensures
            r.wf(),
            r.db_name@ == db_name@,
            r.tables@.len() == 0,
    {
        Database { db_name, tables: Vec::new() }
    }

    /// Whether a table of this name is registered.
    pub fn contains_table(&self, table_name: String) -> (r: bool)
        ensures
            r == self.has_table(table_name@),
    {
        let n = self.tables.len();
        let mut i: usize = 0;
        while i < n
            invariant
                n == self.tables@.len(),
                i <= n,
                forall|j: int| 0 <= j < i ==> (#[trigger] self.tables@[j]).tb_name@ != table_name@,
            decreases n - i,
        {
            if text::str_eq(self.tables[i].tb_name.as_str(), table_name.as_str()) {
                proof {
                    lemma_find_table_at(self.tables@, table_name@, i as int);
                }
                return true;
            }
            i += 1;
        }
        proof {
            lemma_find_table_at(self.tables@, table_name@, n as int);
        }
        false
    }

    /// Looks the position of a table up by name.
    pub(crate) fn find_table_idx(&self, name: &str) -> (r: Option<usize>)
        ensures
            match r {
                Some(i) => i < self.tables@.len() && find_table(self.tables@, name@) == i as int,
                None => find_table(self.tables@, name@) == -1,
            },
    {
        let n = self.tables.len();
        let mut i: usize = 0;
        while i < n
            invariant
                n == self.tables@.len(),
                i <= n,
                forall|j: int| 0 <= j < i ==> (#[trigger] self.tables@[j]).tb_name@ != name@,
            decreases n - i,
        {
            if text::str_eq(self.tables[i].tb_name.as_str(), name) {
                proof {
                    lemma_find_table_at(self.tables@, name@, i as int);
                }
                return Some(i);
            }
            i += 1;
        }
        proof {
            lemma_find_table_at(self.tables@, name@, n as int);
        }
        None
    }

    /// Looks a table up by name; a missing name is a `General` error and
    /// the call has no effect whatsoever.
    pub fn get_table(&self, table_name: String) -> (r: Result<&Table>)
        ensures
            self.has_table(table_name@) ==> (r matches Ok(t) && *t == self.table_at(table_name@)),
            !self.has_table(table_name@) ==> (r matches Err(e) && (e matches
                RUSQLError::General(m) && m@ == "Table not found."@)),
    {
        match self.find_table_idx(table_name.as_str()) {
            Some(i) => Ok(&self.tables[i]),
            None => Err(RUSQLError::General("Table not found.".to_owned())),
        }
    }

    /// Looks a table up by name for mutation; a missing name is a
    /// `General` error and leaves the database unchanged.
    pub fn get_table_mut(&mut self, table_name: String) -> (r: Result<&mut Table>)
        ensures
            old(self).has_table(table_name@) ==> (r matches Ok(t) && {
                let ti = find_table(old(self).tables@, table_name@);
                &&& *t == old(self).tables@[ti]
                &&& final(self).db_name == old(self).db_name
                &&& final(self).tables@ == old(self).tables@.update(ti, *final(t))
            }),
            !old(self).has_table(table_name@) ==> (r matches Err(e) && (e matches
                RUSQLError::General(m) && m@ == "Table not found."@) && *final(self) == *old(
                self,
            )),
    {
        match self.find_table_idx(table_name.as_str()) {
            Some(i) => Ok(&mut self.tables[i]),
            None => Err(RUSQLError::General("Table not found.".to_owned())),
        }
    }

    /// Removes the table of this name; a missing name is a `General` error
    /// and leaves the database unchanged.
    pub fn drop_table(&mut self, table_name: String) -> (r: Result<()>)
        ensures
            old(self).has_table(table_name@) ==> r is Ok && final(self).tables@ == old(
                self,
            ).tables@.remove(find_table(old(self).tables@, table_name@)),
            !old(self).has_table(table_name@) ==> (r matches Err(e) && (e matches
                RUSQLError::General(m) && m@ == "Table not found."@) && *final(self) == *old(
                self,
            )),
            final(self).db_name == old(self).db_name,
            old(self).wf() ==> final(self).wf(),
    {
        match self.find_table_idx(table_name.as_str()) {
            Some(i) => {
                self.tables.remove(i);
                proof {
                    if old(self).wf() {
                        assert forall|x: int, y: int|
                            0 <= x < y < self.tables@.len() implies (
                        #[trigger] self.tables@[x]).tb_name@ != (
                        #[trigger] self.tables@[y]).tb_name@ by {
                            let s0 = old(self).tables@;
                            if y < i as int {
                                assert(self.tables@[x] == s0[x] && self.tables@[y] == s0[y]);
                            } else if x < i as int {
                                assert(self.tables@[x] == s0[x] && self.tables@[y] == s0[y + 1]);
                            } else {
                                assert(self.tables@[x] == s0[x + 1] && self.tables@[y] == s0[y
                                    + 1]);
                            }
                        }
                    }
                }
                Ok(())
            },
            None => Err(RUSQLError::General("Table not found.".to_owned())),
        }
    }

    /// The number of registered tables.
    pub fn table_count(&self) -> (r: usize)
        ensures
            r == self.tables@.len(),
    {
        self.tables.len()
    }

    /// The registered table names, in registration order.
    pub fn list_table_names(&self) -> (r: Vec<String>)
        ensures
            r@.len() == self.tables@.len(),
            forall|i: int|
                0 <= i < r@.len() ==> (#[trigger] r@[i])@ == self.tables@[i].tb_name@,
    {
        let n = self.tables.len();
        let mut out: Vec<String> = Vec::new();
        let mut i: usize = 0;
        while i < n
            invariant
                n == self.tables@.len(),
                i <= n,
                out@.len() == i,
                forall|j: int| 0 <= j < i ==> (#[trigger] out@[j])@ == self.tables@[j].tb_name@,
            decreases n - i,
        {
            out.push(self.tables[i].tb_name.clone());
            i += 1;
        }
        out
    }
}

} // verus!
