use vstd::prelude::*;

use crate::numtext;
use crate::table::Column;
use crate::table::DataType;
use crate::table::Index;
use crate::table::Row;
use crate::table::Table;
use crate::table::col_untouched;
use crate::table::col_wrote;
use crate::table::col_wrote_pk;
use crate::table::find_col;
use crate::table::find_str;
use crate::table::inserted_col_post;
use crate::table::lemma_find_col_bounds;
use crate::table::lemma_find_str_bounds;
use crate::table::same_decl;
use crate::table::unique_pair_ok;

verus! {

/// The facts `Table::insert_row` guarantees after a successful insert,
/// gathered for the laws below: the new counter value and the per-column
/// effect.
pub open spec fn insert_effect(
    pre: Table,
    post: Table,
    cols: Seq<String>,
    values: Seq<String>,
) -> bool {
    &&& pre.wf()
    &&& cols.len() == values.len()
    &&& pre.can_insert(cols, values)
    &&& post.primary_key == pre.primary_key
    &&& post.columns@.len() == pre.columns@.len()
    &&& post.last_rowid as int == pre.spec_rowid(cols, values)
    &&& forall|i: int|
        0 <= i < pre.columns@.len() ==> #[trigger] inserted_col_post(pre, post, cols, values, i)
}

/// A fresh row id for every column that is not the integer primary key,
/// derived from the storage invariants.
proof fn lemma_rowid_fresh(pre: Table, cols: Seq<String>, values: Seq<String>, i: int)
    requires
        pre.wf(),
        pre.can_insert(cols, values),
        0 <= i < pre.columns@.len(),
        !(pre.has_int_pk() && pre.columns@[i].column_name@ == pre.primary_key@),
    ensures
        !pre.columns@[i].has_row(pre.spec_rowid(cols, values) as i64),
{
    let rowid = pre.spec_rowid(cols, values) as i64;
    if pre.has_int_pk() {
        let pi = find_col(pre.columns@, pre.primary_key@);
        lemma_find_col_bounds(pre.columns@, pre.primary_key@);
        if pre.columns@[i].has_row(rowid) {
            assert(pre.col_at(pre.primary_key@).has_row(rowid));
            assert(false);
        }
    } else {
        assert(!pre.pk_supplied(cols));
        assert(rowid as int == pre.last_rowid + 1);
        if pre.columns@[i].has_row(rowid) {
            assert(0 < rowid <= pre.last_rowid);
            assert(false);
        }
    }
}

/// Uniqueness invariant: a successful insert that passed the uniqueness
/// pre-check keeps every column flagged unique free of duplicate values,
/// so after any sequence of such inserts no two row ids of a unique column
/// hold equal values.
pub proof fn lemma_uniqueness_preserved(
    pre: Table,
    post: Table,
    cols: Seq<String>,
    values: Seq<String>,
)
    requires
        insert_effect(pre, post, cols, values),
        forall|j: int|
            0 <= j < cols.len() ==> pre.has_col((#[trigger] cols[j])@) && unique_pair_ok(
                pre.col_at(cols[j]@),
                values[j]@,
            ),
        forall|i: int|
            0 <= i < pre.columns@.len() && (#[trigger] pre.columns@[i]).is_unique
                ==> pre.columns@[i].store_injective(),
    ensures
        forall|i: int|
            0 <= i < post.columns@.len() && (#[trigger] post.columns@[i]).is_unique
                ==> post.columns@[i].store_injective(),
{
    let rowid = pre.spec_rowid(cols, values) as i64;
    assert forall|i: int|
        0 <= i < post.columns@.len() && (#[trigger] post.columns@[i]).is_unique
        implies post.columns@[i].store_injective() by {
        let a = pre.columns@[i];
        let b = post.columns@[i];
        assert(inserted_col_post(pre, post, cols, values, i));
        assert(a.is_unique);
        if pre.has_int_pk() && a.column_name@ == pre.primary_key@ {
            let pi = find_col(pre.columns@, pre.primary_key@);
            lemma_find_col_bounds(pre.columns@, pre.primary_key@);
            assert(i == pi);
            assert(col_wrote_pk(a, b, rowid));
            assert(i32::MIN <= rowid as int <= i32::MAX) by {
                if pre.pk_supplied(cols) {
                } else {
                    assert(rowid as int == pre.last_rowid + 1);
                }
            }
            match (a.row, b.row) {
                (Row::Integer(m0), Row::Integer(m1)) => {
                    assert forall|r1: i64, r2: i64|
                        #[trigger] m1@.contains_key(r1) && #[trigger] m1@.contains_key(r2)
                            && m1@[r1] == m1@[r2] implies r1 == r2 by {
                        assert(m1@[r1] as i64 == r1) by {
                            if r1 != rowid {
                                assert(m0@.contains_key(r1));
                            }
                        }
                        assert(m1@[r2] as i64 == r2) by {
                            if r2 != rowid {
                                assert(m0@.contains_key(r2));
                            }
                        }
                    }
                },
                _ => {},
            }
        } else {
            let j = find_str(cols, a.column_name@);
            if 0 <= j < values.len() && !crate::table::is_null_marker(values[j]@) {
                let v = values[j]@;
                lemma_find_str_bounds(cols, a.column_name@);
                assert(cols[j]@ == a.column_name@);
                assert(pre.col_at(cols[j]@) == a) by {
                    lemma_find_col_bounds(pre.columns@, a.column_name@);
                    assert(pre.columns@[find_col(pre.columns@, a.column_name@)] == a);
                }
                assert(unique_pair_ok(a, v));
                assert(crate::table::value_parses(a.datatype, v));
                lemma_rowid_fresh(pre, cols, values, i);
                assert(col_wrote(a, b, rowid, v));
                match (a.row, b.row) {
                    (Row::Integer(m0), Row::Integer(m1)) => {
                        let pv = numtext::int_literal_val(v) as i32;
                        match a.index {
                            Index::Integer(ix) => {
                                assert(!ix@.contains_key(numtext::int_literal_val(v) as i64));
                                assert forall|r1: i64, r2: i64|
                                    #[trigger] m1@.contains_key(r1) && #[trigger] m1@.contains_key(
                                    r2) && m1@[r1] == m1@[r2] implies r1 == r2 by {
                                    if r1 != rowid && r2 != rowid {
                                        assert(m0@.contains_key(r1) && m0@.contains_key(r2));
                                    } else if r1 == rowid && r2 != rowid {
                                        assert(m0@.contains_key(r2));
                                        assert(m0@[r2] == pv);
                                        assert(ix@.contains_key(m0@[r2] as i64));
                                        assert(m0@[r2] as i64 == numtext::int_literal_val(v) as i64);
                                        assert(false);
                                    } else if r2 == rowid && r1 != rowid {
                                        assert(m0@.contains_key(r1));
                                        assert(m0@[r1] == pv);
                                        assert(ix@.contains_key(m0@[r1] as i64));
                                        assert(m0@[r1] as i64 == numtext::int_literal_val(v) as i64);
                                        assert(false);
                                    }
                                }
                            },
                            _ => {
                                assert(false);
                            },
                        }
                    },
                    (Row::Text(m0), Row::Text(m1)) => {
                        match a.index {
                            Index::Text(ix) => {
                                assert(!ix@.contains_key(v));
                                let s = choose|s: String| s@ == v && m1@ == m0@.insert(rowid, s);
                                assert forall|r1: i64, r2: i64|
                                    #[trigger] m1@.contains_key(r1) && #[trigger] m1@.contains_key(
                                    r2) && m1@[r1]@ == m1@[r2]@ implies r1 == r2 by {
                                    if r1 != rowid && r2 != rowid {
                                        assert(m0@.contains_key(r1) && m0@.contains_key(r2));
                                    } else if r1 == rowid && r2 != rowid {
                                        assert(m0@.contains_key(r2));
                                        assert(m0@[r2]@ == v);
                                        assert(ix@.contains_key(m0@[r2]@));
                                        assert(false);
                                    } else if r2 == rowid && r1 != rowid {
                                        assert(m0@.contains_key(r1));
                                        assert(m0@[r1]@ == v);
                                        assert(ix@.contains_key(m0@[r1]@));
                                        assert(false);
                                    }
                                }
                            },
                            _ => {
                                assert(false);
                            },
                        }
                    },
                    _ => {},
                }
            } else {
                assert(col_untouched(a, b));
            }
        }
    }
}

/// Row-id monotonicity: an insert with no supplied primary-key value
/// advances the row-identity counter by exactly one, so after N such
/// inserts into a fresh table the counter reads N.
pub proof fn lemma_rowid_auto_increment(
    pre: Table,
    post: Table,
    cols: Seq<String>,
    values: Seq<String>,
)
    requires
        insert_effect(pre, post, cols, values),
        !pre.pk_supplied(cols),
    ensures
        post.last_rowid == pre.last_rowid + 1,
{
}

/// Row-id override: an insert that supplies the integer primary-key value
/// `V` moves the counter to `V`, so by the previous law the next
/// auto-assigned row id is `V + 1`.
pub proof fn lemma_rowid_override(pre: Table, post: Table, cols: Seq<String>, values: Seq<String>)
    requires
        insert_effect(pre, post, cols, values),
        pre.pk_supplied(cols),
    ensures
        post.last_rowid as int == numtext::int_literal_val(
            values[find_str(cols, pre.primary_key@)]@,
        ),
{
}

/// The column's backing store exists and matches its declared type.
pub open spec fn has_backing_store(c: Column) -> bool {
    match c.row {
        Row::Integer(_) => c.datatype == DataType::Integer,
        Row::Text(_) => c.datatype == DataType::Text,
        Row::Real(_) => c.datatype == DataType::Real,
        Row::Bool(_) => c.datatype == DataType::Bool,
        Row::Untyped => c.datatype == DataType::Untyped || c.datatype == DataType::Invalid,
    }
}

/// Column completeness: a well-formed table carries exactly one backing
/// store per declared column, of the declared type, for its whole
/// lifetime — the store is a field of the column itself, so no operation
/// can detach it.
pub proof fn lemma_column_completeness(t: Table)
    requires
        t.wf(),
    ensures
        forall|i: int|
            0 <= i < t.columns@.len() ==> has_backing_store(#[trigger] t.columns@[i]),
{
    assert forall|i: int|
        0 <= i < t.columns@.len() implies has_backing_store(#[trigger] t.columns@[i]) by {
        assert(t.columns@[i].wf());
    }
}

/// NULL handling: a successful insert that omits a column (or supplies the
/// NULL marker for it) leaves that column's store with no entry at the new
/// row id, provided the column is not the integer primary key itself.
pub proof fn lemma_null_leaves_no_entry(
    pre: Table,
    post: Table,
    cols: Seq<String>,
    values: Seq<String>,
    i: int,
)
    requires
        insert_effect(pre, post, cols, values),
        0 <= i < pre.columns@.len(),
        ({
            let j = find_str(cols, pre.columns@[i].column_name@);
            j < 0 || crate::table::is_null_marker(values[j]@)
        }),
        !(pre.has_int_pk() && pre.columns@[i].column_name@ == pre.primary_key@),
    ensures
        !post.columns@[i].has_row(pre.spec_rowid(cols, values) as i64),
{
    assert(inserted_col_post(pre, post, cols, values, i));
    lemma_rowid_fresh(pre, cols, values, i);
    assert(col_untouched(pre.columns@[i], post.columns@[i]));
}


/// Row-id override then auto-assignment: after an insert that supplies
/// primary-key value `V`, the next auto-assigned insert binds row id
/// `V + 1`.
pub proof fn lemma_override_then_auto(
    t0: Table,
    t1: Table,
    t2: Table,
    cols1: Seq<String>,
    values1: Seq<String>,
    cols2: Seq<String>,
    values2: Seq<String>,
)
    requires
        insert_effect(t0, t1, cols1, values1),
        t0.pk_supplied(cols1),
        insert_effect(t1, t2, cols2, values2),
        !t1.pk_supplied(cols2),
    ensures
        t2.last_rowid as int == numtext::int_literal_val(
            values1[find_str(cols1, t0.primary_key@)]@,
        ) + 1,
{
    lemma_rowid_override(t0, t1, cols1, values1);
    lemma_rowid_auto_increment(t1, t2, cols2, values2);
}


/// One successful insert with no supplied primary-key value, linking two
/// table states.
pub open spec fn auto_step(pre: Table, post: Table) -> bool {
    exists|cols: Seq<String>, values: Seq<String>|
        #[trigger] insert_effect(pre, post, cols, values) && !pre.pk_supplied(cols)
}

/// Row-id monotonicity, accumulated: across any chain of auto-assigned
/// inserts the counter grows by exactly the number of inserts, so after N
/// of them into a fresh table it reads N.
pub proof fn lemma_rowid_counts_auto_inserts(states: Seq<Table>)
    requires
        states.len() >= 1,
        forall|i: int|
            0 <= i < states.len() - 1 ==> #[trigger] auto_step(states[i], states[i + 1]),
    ensures
        states.last().last_rowid as int == states[0].last_rowid + states.len() - 1,
    decreases states.len(),
{
    if states.len() > 1 {
        let d = states.drop_last();
        assert forall|i: int|
            0 <= i < d.len() - 1 implies #[trigger] auto_step(d[i], d[i + 1]) by {
            assert(d[i] == states[i]);
            assert(d[i + 1] == states[i + 1]);
            assert(auto_step(states[i], states[i + 1]));
        }
        lemma_rowid_counts_auto_inserts(d);
        let k = states.len() - 2;
        assert(auto_step(states[k], states[k + 1]));
        let (cols, values) = choose|cols: Seq<String>, values: Seq<String>|
            #[trigger] insert_effect(states[k], states[k + 1], cols, values) && !states[
                k].pk_supplied(cols);
        lemma_rowid_auto_increment(states[k], states[k + 1], cols, values);
        assert(d.last() == states[k]);
        assert(states.last() == states[k + 1]);
    }
}

} // verus!
