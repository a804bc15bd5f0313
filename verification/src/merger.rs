//! The per-table merger: collapses a DML stream into one delete and one
//! insert per primary key, relaying rows whose key cannot be derived.

use vstd::prelude::*;
use crate::events::RowData;
use crate::text::str_eq;
use crate::value::ColValue;
use crate::RowType;

verus! {

/// The column that carries a Mongo document.
pub open spec fn doc_col() -> Seq<char> {
    "doc"@
}

/// The first value bound to a column name.
pub open spec fn col_get(cols: Seq<(String, ColValue)>, name: Seq<char>) -> Option<ColValue>
    decreases cols.len(),
{
    if cols.len() == 0 {
        None
    } else if cols[0].0@ == name {
        Some(cols[0].1)
    } else {
        col_get(cols.drop_first(), name)
    }
}

/// The document key a column list exposes: the id of the document under the
/// doc column, when both are there.
pub open spec fn doc_key(cols: Seq<(String, ColValue)>) -> Option<Seq<char>> {
    match col_get(cols, doc_col()) {
        Some(ColValue::MongoDoc { id: Some(k), .. }) => Some(k@),
        _ => None,
    }
}

/// The merge key of a row: an insert is keyed by its new document, a delete
/// by its old one; an update is keyed by its old document and only when the
/// new image carries a full document (a bare diff cannot be decomposed).
pub open spec fn row_key(row: RowData) -> Option<Seq<char>> {
    match row.row_type {
        RowType::Insert => match row.after {
            Some(cols) => doc_key(cols@),
            None => None,
        },
        RowType::Delete => match row.before {
            Some(cols) => doc_key(cols@),
            None => None,
        },
        RowType::Update => match (row.before, row.after) {
            (Some(b), Some(a)) => if col_get(a@, doc_col()) is Some {
                doc_key(b@)
            } else {
                None
            },
            _ => None,
        },
    }
}

/// The insert half of a decomposed update.
pub open spec fn update_insert_row(row: RowData) -> RowData {
    RowData {
        row_type: RowType::Insert,
        before: None,
        after: row.after,
        data_size: 0,
        ..row
    }
}

/// The delete half of a decomposed update.
pub open spec fn update_delete_row(row: RowData) -> RowData {
    RowData {
        row_type: RowType::Delete,
        before: row.before,
        after: None,
        data_size: 0,
        ..row
    }
}

/// One merge step over the insert and delete maps.
pub open spec fn merge_step(
    ins: Map<Seq<char>, RowData>,
    del: Map<Seq<char>, RowData>,
    row: RowData,
    k: Seq<char>,
) -> (Map<Seq<char>, RowData>, Map<Seq<char>, RowData>) {
    match row.row_type {
        RowType::Insert => (ins.insert(k, row), del),
        RowType::Delete => (ins.remove(k), del.insert(k, row)),
        RowType::Update => (
            ins.insert(k, update_insert_row(row)),
            del.insert(k, update_delete_row(row)),
        ),
    }
}

/// The insert and delete maps after replaying a keyed row sequence in
/// arrival order.
pub open spec fn merge_maps(rows: Seq<RowData>) -> (
    Map<Seq<char>, RowData>,
    Map<Seq<char>, RowData>,
)
    decreases rows.len(),
{
    if rows.len() == 0 {
        (Map::empty(), Map::empty())
    } else {
        let (ins, del) = merge_maps(rows.drop_last());
        merge_step(ins, del, rows.last(), row_key(rows.last())->Some_0)
    }
}

/// How many leading rows have a derivable key: the merge stops at the first
/// row without one.
pub open spec fn keyed_prefix_len(rows: Seq<RowData>) -> int
    decreases rows.len(),
{
    if rows.len() == 0 {
        0
    } else if row_key(rows[0]) is None {
        0
    } else {
        1 + keyed_prefix_len(rows.drop_first())
    }
}

/// The reference table state: each present key maps to the column image its
/// last insert or update wrote.
pub open spec fn apply_one(
    s: Map<Seq<char>, Option<Vec<(String, ColValue)>>>,
    row: RowData,
    k: Seq<char>,
) -> Map<Seq<char>, Option<Vec<(String, ColValue)>>> {
    match row.row_type {
        RowType::Insert => s.insert(k, row.after),
        RowType::Delete => s.remove(k),
        RowType::Update => s.insert(k, row.after),
    }
}

/// Sequential application of a keyed row sequence to a table state.
pub open spec fn seq_apply(
    s0: Map<Seq<char>, Option<Vec<(String, ColValue)>>>,
    rows: Seq<RowData>,
) -> Map<Seq<char>, Option<Vec<(String, ColValue)>>>
    decreases rows.len(),
{
    if rows.len() == 0 {
        s0
    } else {
        apply_one(seq_apply(s0, rows.drop_last()), rows.last(), row_key(rows.last())->Some_0)
    }
}

/// Merge soundness: for every key, applying the merged deletes before the
/// merged inserts to any initial table state leaves exactly the state that
/// sequential application of the whole keyed stream leaves.
pub proof fn lemma_merge_matches_sequential(
    s0: Map<Seq<char>, Option<Vec<(String, ColValue)>>>,
    rows: Seq<RowData>,
    k: Seq<char>,
)
    requires
        forall|i: int| 0 <= i < rows.len() ==> row_key(#[trigger] rows[i]) is Some,
    ensures
        ({
            let (mi, md) = merge_maps(rows);
            let sf = seq_apply(s0, rows);
            &&& mi.contains_key(k) ==> sf.contains_key(k) && sf[k] == mi[k].after
            &&& !mi.contains_key(k) && md.contains_key(k) ==> !sf.contains_key(k)
            &&& !mi.contains_key(k) && !md.contains_key(k) ==> (sf.contains_key(k)
                <==> s0.contains_key(k)) && (s0.contains_key(k) ==> sf[k] == s0[k])
        }),
    decreases rows.len(),
{
    if rows.len() > 0 {
        let prefix = rows.drop_last();
        assert(forall|i: int| 0 <= i < prefix.len() ==> prefix[i] == rows[i]);
        lemma_merge_matches_sequential(s0, prefix, k);
        let r = rows.last();
        let kr = row_key(r)->Some_0;
        if r.row_type is Update {
            assert(update_insert_row(r).after == r.after);
        }
    }
}

/// Looks a column up by name.
pub fn col_lookup<'a>(cols: &'a Vec<(String, ColValue)>, name: &str) -> (r: Option<&'a ColValue>)
    ensures
        match col_get(cols@, name@) {
            Some(v) => r matches Some(x) && *x == v,
            None => r is None,
        },
{
    proof {
        assert(cols@.subrange(0, cols@.len() as int) =~= cols@);
    }
    let mut i: usize = 0;
    while i < cols.len()
        invariant
            0 <= i <= cols@.len(),
            col_get(cols@.subrange(i as int, cols@.len() as int), name@) == col_get(cols@, name@),
        decreases cols@.len() - i,
    {
        proof {
            let rest = cols@.subrange(i as int, cols@.len() as int);
            assert(rest[0] == cols@[i as int]);
            assert(rest.drop_first() =~= cols@.subrange(i + 1 as int, cols@.len() as int));
        }
        if str_eq(cols[i].0.as_str(), name) {
            return Some(&cols[i].1);
        }
        i = i + 1;
    }
    proof {
        assert(col_get(cols@.subrange(i as int, cols@.len() as int), name@) is None);
    }
    None
}

/// The merger for document streams.
pub struct MongoMerger {}

impl MongoMerger {
    /// The merge key of a row, as `row_key` gives it.
    pub fn get_hash_key(row_data: &RowData) -> (r: Option<String>)
        requires
            row_data.wf(),
        ensures
            match row_key(*row_data) {
                Some(k) => r matches Some(s) && s@ == k,
                None => r is None,
            },
    {
        match row_data.row_type {
            RowType::Insert => {
                let after = match &row_data.after {
                    Some(a) => a,
                    None => {
                        return None;
                    },
                };
                match col_lookup(after, "doc") {
                    Some(ColValue::MongoDoc { id: Some(k), .. }) => Some(k.clone()),
                    _ => None,
                }
            },
            RowType::Delete => {
                let before = match &row_data.before {
                    Some(b) => b,
                    None => {
                        return None;
                    },
                };
                match col_lookup(before, "doc") {
                    Some(ColValue::MongoDoc { id: Some(k), .. }) => Some(k.clone()),
                    _ => None,
                }
            },
            RowType::Update => {
                let after = match &row_data.after {
                    Some(a) => a,
                    None => {
                        return None;
                    },
                };
                let before = match &row_data.before {
                    Some(b) => b,
                    None => {
                        return None;
                    },
                };
                if col_lookup(after, "doc").is_none() {
                    return None;
                }
                match col_lookup(before, "doc") {
                    Some(ColValue::MongoDoc { id: Some(k), .. }) => Some(k.clone()),
                    _ => None,
                }
            },
        }
    }
}

/// Distinct keys in an association list.
pub open spec fn keys_unique(l: Seq<(String, RowData)>) -> bool {
    forall|i: int, j: int|
        0 <= i < j < l.len() ==> (#[trigger] l[i]).0@ != (#[trigger] l[j]).0@
}

/// The map an association list holds.
pub open spec fn list_map(l: Seq<(String, RowData)>) -> Map<Seq<char>, RowData>
    decreases l.len(),
{
    if l.len() == 0 {
        Map::empty()
    } else {
        list_map(l.drop_last()).insert(l.last().0@, l.last().1)
    }
}

proof fn lemma_list_map_contains(l: Seq<(String, RowData)>, k: Seq<char>)
    ensures
        list_map(l).contains_key(k) <==> exists|i: int| 0 <= i < l.len() && (#[trigger] l[i]).0@
            == k,
    decreases l.len(),
{
    if l.len() > 0 {
        lemma_list_map_contains(l.drop_last(), k);
        if l.last().0@ == k {
            assert(l[l.len() - 1].0@ == k);
        } else {
            if list_map(l).contains_key(k) {
                let i = choose|i: int| 0 <= i < l.len() - 1 && (#[trigger] l.drop_last()[i]).0@
                    == k;
                assert(l[i].0@ == k);
            }
            if exists|i: int| 0 <= i < l.len() && (#[trigger] l[i]).0@ == k {
                let i = choose|i: int| 0 <= i < l.len() && (#[trigger] l[i]).0@ == k;
                assert(i < l.len() - 1);
                assert(l.drop_last()[i].0@ == k);
            }
        }
    }
}

proof fn lemma_list_map_get(l: Seq<(String, RowData)>, i: int)
    requires
        keys_unique(l),
        0 <= i < l.len(),
    ensures
        list_map(l).contains_key(l[i].0@),
        list_map(l)[l[i].0@] == l[i].1,
    decreases l.len(),
{
    if i == l.len() - 1 {
    } else {
        assert(l.drop_last()[i] == l[i]);
        assert(forall|a: int, b: int|
            0 <= a < b < l.len() - 1 ==> (#[trigger] l.drop_last()[a]).0@ != (
            #[trigger] l.drop_last()[b]).0@);
        lemma_list_map_get(l.drop_last(), i);
        assert(l.last().0@ != l[i].0@);
    }
}

proof fn lemma_list_map_len(l: Seq<(String, RowData)>)
    requires
        keys_unique(l),
    ensures
        list_map(l).dom().finite(),
        list_map(l).dom().len() == l.len(),
    decreases l.len(),
{
    if l.len() > 0 {
        assert(forall|a: int, b: int|
            0 <= a < b < l.len() - 1 ==> (#[trigger] l.drop_last()[a]).0@ != (
            #[trigger] l.drop_last()[b]).0@);
        lemma_list_map_len(l.drop_last());
        lemma_list_map_contains(l.drop_last(), l.last().0@);
        assert forall|i: int| 0 <= i < l.len() - 1 implies (#[trigger] l.drop_last()[i]).0@
            != l.last().0@ by {
            assert(l.drop_last()[i] == l[i]);
            assert(l[i].0@ != l[l.len() - 1].0@);
        }
        assert(!list_map(l.drop_last()).contains_key(l.last().0@));
        assert(list_map(l).dom() =~= list_map(l.drop_last()).dom().insert(l.last().0@));
    }
}

proof fn lemma_list_map_remove_at(l: Seq<(String, RowData)>, i: int)
    requires
        keys_unique(l),
        0 <= i < l.len(),
    ensures
        list_map(l.remove(i)) =~= list_map(l).remove(l[i].0@),
        keys_unique(l.remove(i)),
        !list_map(l.remove(i)).contains_key(l[i].0@),
    decreases l.len(),
{
    let k = l[i].0@;
    assert forall|a: int, b: int| 0 <= a < b < l.remove(i).len() implies (
    #[trigger] l.remove(i)[a]).0@ != (#[trigger] l.remove(i)[b]).0@ by {
        let a2: int = if a < i {
            a
        } else {
            a + 1
        };
        let b2: int = if b < i {
            b
        } else {
            b + 1
        };
        assert(l.remove(i)[a] == l[a2] && l.remove(i)[b] == l[b2]);
    }
    lemma_list_map_contains(l.remove(i), k);
    assert forall|j: int| 0 <= j < l.remove(i).len() implies (#[trigger] l.remove(i)[j]).0@ != k
        by {
        if j < i {
            assert(l.remove(i)[j] == l[j]);
        } else {
            assert(l.remove(i)[j] == l[j + 1]);
        }
    }
    if i == l.len() - 1 {
        assert(l.remove(i) =~= l.drop_last());
        assert(forall|a: int, b: int|
            0 <= a < b < l.len() - 1 ==> (#[trigger] l.drop_last()[a]).0@ != (
            #[trigger] l.drop_last()[b]).0@);
        lemma_list_map_contains(l.drop_last(), k);
        assert forall|j: int| 0 <= j < l.len() - 1 implies (#[trigger] l.drop_last()[j]).0@ != k
            by {
            assert(l.drop_last()[j] == l[j]);
            assert(l[j].0@ != l[l.len() - 1].0@);
        }
        assert(!list_map(l.drop_last()).contains_key(k));
        assert(list_map(l).remove(k) =~= list_map(l.drop_last()));
    } else {
        assert(l.remove(i).drop_last() =~= l.drop_last().remove(i));
        assert(l.remove(i).last() == l.last());
        assert(l.drop_last()[i] == l[i]);
        assert(forall|a: int, b: int|
            0 <= a < b < l.len() - 1 ==> (#[trigger] l.drop_last()[a]).0@ != (
            #[trigger] l.drop_last()[b]).0@);
        lemma_list_map_remove_at(l.drop_last(), i);
        assert(l.last().0@ != k);
        assert(list_map(l.remove(i)) == list_map(l.drop_last().remove(i)).insert(
            l.last().0@,
            l.last().1,
        ));
        assert(list_map(l.drop_last()).remove(k).insert(l.last().0@, l.last().1) =~= list_map(
            l.drop_last(),
        ).insert(l.last().0@, l.last().1).remove(k));
    }
}

fn assoc_remove(l: &mut Vec<(String, RowData)>, key: &str)
    requires
        keys_unique(old(l)@),
    ensures
        keys_unique(final(l)@),
        list_map(final(l)@) =~= list_map(old(l)@).remove(key@),
        !list_map(final(l)@).contains_key(key@),
{
    let mut i: usize = 0;
    while i < l.len()
        invariant
            0 <= i <= l@.len(),
            keys_unique(l@),
            l@ == old(l)@,
            forall|j: int| 0 <= j < i ==> (#[trigger] l@[j]).0@ != key@,
        decreases l@.len() - i,
    {
        if str_eq(l[i].0.as_str(), key) {
            proof {
                lemma_list_map_remove_at(l@, i as int);
            }
            l.remove(i);
            return ;
        }
        i = i + 1;
    }
    proof {
        lemma_list_map_contains(l@, key@);
        assert(!list_map(l@).contains_key(key@));
        assert(list_map(l@).remove(key@) =~= list_map(l@));
    }
}

fn assoc_put(l: &mut Vec<(String, RowData)>, key: String, v: RowData)
    requires
        keys_unique(old(l)@),
    ensures
        keys_unique(final(l)@),
        list_map(final(l)@) =~= list_map(old(l)@).insert(key@, v),
{
    assoc_remove(l, key.as_str());
    let ghost mid = l@;
    proof {
        lemma_list_map_contains(mid, key@);
    }
    l.push((key, v));
    proof {
        assert(l@.drop_last() =~= mid);
        assert(forall|j: int| 0 <= j < mid.len() ==> (#[trigger] mid[j]).0@ != key@);
        assert(list_map(l@) == list_map(mid).insert(key@, v));
        assert(list_map(mid).insert(key@, v) =~= list_map(old(l)@).insert(key@, v));
    }
}

fn assoc_values(l: Vec<(String, RowData)>) -> (r: Vec<RowData>)
    ensures
        r@ == l@.map_values(|p: (String, RowData)| p.1),
{
    let ghost orig = l@;
    let mut l = l;
    let mut out: Vec<RowData> = Vec::new();
    while l.len() > 0
        invariant
            orig.map_values(|p: (String, RowData)| p.1) =~= out@ + l@.map_values(
                |p: (String, RowData)| p.1,
            ),
        decreases l@.len(),
    {
        let ghost prev = l@;
        let p = l.remove(0);
        out.push(p.1);
        proof {
            assert(l@ =~= prev.drop_first());
            assert(prev.map_values(|q: (String, RowData)| q.1).drop_first() =~= l@.map_values(
                |q: (String, RowData)| q.1,
            ));
            assert(prev.map_values(|q: (String, RowData)| q.1)[0] == p.1);
            assert(orig.map_values(|q: (String, RowData)| q.1) =~= out@ + l@.map_values(
                |q: (String, RowData)| q.1,
            ));
        }
    }
    proof {
        assert(orig.map_values(|p: (String, RowData)| p.1) =~= out@);
    }
    out
}

/// A plain row batch stands for a keyed map when it holds exactly the map's
/// rows, one for each key.
pub open spec fn rows_represent(out: Seq<RowData>, m: Map<Seq<char>, RowData>) -> bool {
    &&& m.dom().finite()
    &&& out.len() == m.dom().len()
    &&& forall|i: int|
        0 <= i < out.len() ==> exists|k: Seq<char>|
            m.contains_key(k) && m[k] == #[trigger] out[i]
    &&& forall|k: Seq<char>|
        #[trigger] m.contains_key(k) ==> exists|i: int| 0 <= i < out.len() && out[i] == m[k]
}

impl MongoMerger {
    /// Partitions a table's DML stream, in arrival order, into the merged
    /// insert rows and delete rows, one of each per key, and the unmerged
    /// tail from the first row whose key cannot be derived.
    pub fn merge_row_data(data: Vec<RowData>) -> (r: (Vec<RowData>, Vec<RowData>, Vec<RowData>))
        requires
            forall|i: int| 0 <= i < data@.len() ==> (#[trigger] data@[i]).wf(),
        ensures
            ({
                let cut = keyed_prefix_len(data@);
                let (mi, md) = merge_maps(data@.subrange(0, cut));
                &&& r.2@ == data@.subrange(cut, data@.len() as int)
                &&& rows_represent(r.0@, mi)
                &&& rows_represent(r.1@, md)
            }),
    {
        let ghost orig = data@;
        let mut data = data;
        let mut ins: Vec<(String, RowData)> = Vec::new();
        let mut del: Vec<(String, RowData)> = Vec::new();
        let ghost mut p: int = 0;
        proof {
            assert(orig.subrange(0, 0) =~= Seq::<RowData>::empty());
        }
        while data.len() > 0
            invariant
                0 <= p <= orig.len(),
                data@ =~= orig.subrange(p, orig.len() as int),
                forall|i: int| 0 <= i < orig.len() ==> (#[trigger] orig[i]).wf(),
                keyed_prefix_len(orig) == p + keyed_prefix_len(data@),
                keys_unique(ins@),
                keys_unique(del@),
                (list_map(ins@), list_map(del@)) == merge_maps(orig.subrange(0, p)),
            ensures
                0 <= p <= orig.len(),
                data@ =~= orig.subrange(p, orig.len() as int),
                keyed_prefix_len(orig) == p + keyed_prefix_len(data@),
                keys_unique(ins@),
                keys_unique(del@),
                (list_map(ins@), list_map(del@)) == merge_maps(orig.subrange(0, p)),
                data@.len() == 0 || row_key(data@[0]) is None,
            decreases data@.len(),
        {
            proof {
                assert(data@[0] == orig[p]);
                assert(orig[p].wf());
            }
            let key = match Self::get_hash_key(&data[0]) {
                Some(k) => k,
                None => {
                    break ;
                },
            };
            proof {
                assert(keyed_prefix_len(data@) == 1 + keyed_prefix_len(data@.drop_first()));
            }
            let ghost prev = data@;
            let row = data.remove(0);
            proof {
                assert(data@ =~= prev.drop_first());
                assert(data@ =~= orig.subrange(p + 1, orig.len() as int));
                assert(orig.subrange(0, p + 1).drop_last() =~= orig.subrange(0, p));
                assert(orig.subrange(0, p + 1).last() == row);
            }
            match row.row_type {
                RowType::Insert => {
                    assoc_put(&mut ins, key, row);
                },
                RowType::Delete => {
                    assoc_remove(&mut ins, key.as_str());
                    assoc_put(&mut del, key, row);
                },
                RowType::Update => {
                    let delete_row = RowData {
                        schema: row.schema.clone(),
                        tb: row.tb.clone(),
                        row_type: RowType::Delete,
                        before: row.before,
                        after: None,
                        data_size: 0,
                    };
                    let insert_row = RowData {
                        schema: row.schema,
                        tb: row.tb,
                        row_type: RowType::Insert,
                        before: None,
                        after: row.after,
                        data_size: 0,
                    };
                    proof {
                        assert(delete_row == update_delete_row(orig[p as int]));
                        assert(insert_row == update_insert_row(orig[p as int]));
                    }
                    let key2 = key.clone();
                    assoc_put(&mut del, key2, delete_row);
                    assoc_put(&mut ins, key, insert_row);
                },
            }
            proof {
                p = p + 1;
                assert((list_map(ins@), list_map(del@)) == merge_maps(orig.subrange(0, p)));
            }
        }
        proof {
            let cut = keyed_prefix_len(orig);
            assert(keyed_prefix_len(data@) == 0);
            assert(p == cut);
            lemma_list_map_len(ins@);
            lemma_list_map_len(del@);
        }
        let ghost ins_l = ins@;
        let ghost del_l = del@;
        let insert_rows = assoc_values(ins);
        let delete_rows = assoc_values(del);
        proof {
            lemma_rows_represent(ins_l);
            lemma_rows_represent(del_l);
        }
        (insert_rows, delete_rows, data)
    }
}

proof fn lemma_values_have_keys(l: Seq<(String, RowData)>)
    requires
        keys_unique(l),
    ensures
        forall|i: int|
            0 <= i < l.len() ==> list_map(l).contains_key((#[trigger] l[i]).0@) && list_map(l)[
                l[i].0@
            ] == l[i].1,
{
    assert forall|i: int| 0 <= i < l.len() implies list_map(l).contains_key(
        (#[trigger] l[i]).0@,
    ) && list_map(l)[l[i].0@] == l[i].1 by {
        lemma_list_map_get(l, i);
    }
}

proof fn lemma_rows_represent(l: Seq<(String, RowData)>)
    requires
        keys_unique(l),
    ensures
        rows_represent(l.map_values(|p: (String, RowData)| p.1), list_map(l)),
{
    let out = l.map_values(|p: (String, RowData)| p.1);
    let m = list_map(l);
    lemma_list_map_len(l);
    lemma_values_have_keys(l);
    assert forall|i: int| 0 <= i < out.len() implies exists|k: Seq<char>|
        m.contains_key(k) && m[k] == #[trigger] out[i] by {
        assert(out[i] == l[i].1);
        assert(m.contains_key(l[i].0@) && m[l[i].0@] == out[i]);
    }
    assert forall|k: Seq<char>| #[trigger] m.contains_key(k) implies exists|i: int|
        0 <= i < out.len() && out[i] == m[k] by {
        lemma_list_map_contains(l, k);
        let i = choose|i: int| 0 <= i < l.len() && (#[trigger] l[i]).0@ == k;
        assert(out[i] == l[i].1);
        assert(m[k] == l[i].1);
        assert(0 <= i < out.len() && out[i] == m[k]);
    }
}

/// One table's merged batch.
#[derive(Debug)]
pub struct TbMergedData {
    /// The fully qualified table, `schema.tb`.
    pub tb: String,
    pub insert_rows: Vec<RowData>,
    pub delete_rows: Vec<RowData>,
    pub unmerged_rows: Vec<RowData>,
}

/// The grouping key of a row: `schema.tb`.
pub open spec fn tb_key(row: RowData) -> Seq<char> {
    row.schema@ + seq!['.'] + row.tb@
}

/// The subsequence of rows that belong to one table, in arrival order.
pub open spec fn group_of(rows: Seq<RowData>, key: Seq<char>) -> Seq<RowData>
    decreases rows.len(),
{
    if rows.len() == 0 {
        Seq::empty()
    } else {
        let rest = group_of(rows.drop_first(), key);
        if tb_key(rows[0]) == key {
            seq![rows[0]] + rest
        } else {
            rest
        }
    }
}

proof fn lemma_group_of_wf(rows: Seq<RowData>, key: Seq<char>)
    requires
        forall|i: int| 0 <= i < rows.len() ==> (#[trigger] rows[i]).wf(),
    ensures
        forall|i: int| 0 <= i < group_of(rows, key).len() ==> (#[trigger] group_of(
            rows,
            key,
        )[i]).wf(),
    decreases rows.len(),
{
    if rows.len() > 0 {
        assert(forall|i: int|
            0 <= i < rows.len() - 1 ==> (#[trigger] rows.drop_first()[i]).wf());
        lemma_group_of_wf(rows.drop_first(), key);
        let g = group_of(rows, key);
        if tb_key(rows[0]) == key {
            assert forall|i: int| 0 <= i < g.len() implies (#[trigger] g[i]).wf() by {
                if i == 0 {
                    assert(g[0] == rows[0]);
                } else {
                    assert(g[i] == group_of(rows.drop_first(), key)[i - 1]);
                }
            }
        } else {
            assert forall|i: int| 0 <= i < g.len() implies (#[trigger] g[i]).wf() by {
                assert(g[i] == group_of(rows.drop_first(), key)[i]);
            }
        }
    }
}

proof fn lemma_group_nonempty(rows: Seq<RowData>, i: int)
    requires
        0 <= i < rows.len(),
    ensures
        group_of(rows, tb_key(rows[i])).len() > 0,
    decreases i,
{
    if tb_key(rows[0]) == tb_key(rows[i]) {
    } else {
        lemma_group_nonempty(rows.drop_first(), i - 1);
        assert(rows.drop_first()[i - 1] == rows[i]);
    }
}

/// Whether some merged batch in the output is for the given table key.
pub open spec fn has_merged_group(r: Seq<TbMergedData>, key: Seq<char>) -> bool {
    exists|j: int| 0 <= j < r.len() && (#[trigger] r[j]).tb@ == key
}

/// What the merger owes each table's batch: the unmerged tail starts at the
/// first underivable key, and the insert and delete rows stand for the
/// replayed maps.
pub open spec fn merged_group(g: Seq<RowData>, t: TbMergedData) -> bool {
    let cut = keyed_prefix_len(g);
    let (mi, md) = merge_maps(g.subrange(0, cut));
    &&& t.unmerged_rows@ == g.subrange(cut, g.len() as int)
    &&& rows_represent(t.insert_rows@, mi)
    &&& rows_represent(t.delete_rows@, md)
}

impl MongoMerger {
    /// Groups a drained batch by table and merges each table's stream.
    pub fn merge(data: Vec<RowData>) -> (r: Vec<TbMergedData>)
        requires
            forall|i: int| 0 <= i < data@.len() ==> (#[trigger] data@[i]).wf(),
        ensures
            forall|j1: int, j2: int|
                0 <= j1 < j2 < r@.len() ==> (#[trigger] r@[j1]).tb@ != (#[trigger] r@[j2]).tb@,
            forall|i: int|
                0 <= i < data@.len() ==> has_merged_group(r@, tb_key(#[trigger] data@[i])),
            forall|j: int|
                0 <= j < r@.len() ==> merged_group(
                    group_of(data@, (#[trigger] r@[j]).tb@),
                    r@[j],
                ),
    {
        let ghost orig = data@;
        let mut input = data;
        let mut groups: Vec<(String, Vec<RowData>)> = Vec::new();
        let ghost mut p: int = 0;
        while input.len() > 0
            invariant
                0 <= p <= orig.len(),
                input@ =~= orig.subrange(p, orig.len() as int),
                forall|i: int| 0 <= i < orig.len() ==> (#[trigger] orig[i]).wf(),
                forall|j1: int, j2: int|
                    0 <= j1 < j2 < groups@.len() ==> (#[trigger] groups@[j1]).0@ != (
                    #[trigger] groups@[j2]).0@,
                forall|j: int|
                    0 <= j < groups@.len() ==> group_of(orig, (#[trigger] groups@[j]).0@)
                        =~= groups@[j].1@ + group_of(input@, groups@[j].0@),
                forall|k: Seq<char>|
                    (forall|j: int| 0 <= j < groups@.len() ==> (#[trigger] groups@[j]).0@ != k)
                        ==> group_of(orig, k) == #[trigger] group_of(input@, k),
            decreases input@.len(),
        {
            let ghost prev = input@;
            let ghost gb = groups@;
            let row = input.remove(0);
            proof {
                assert(input@ =~= prev.drop_first());
                assert(prev[0] == orig[p]);
                assert(forall|k: Seq<char>|
                    #[trigger] group_of(prev, k) == (if tb_key(row) == k {
                        seq![row] + group_of(input@, k)
                    } else {
                        group_of(input@, k)
                    }));
            }
            let mut full_tb = row.schema.clone();
            full_tb.append(".");
            full_tb.append(row.tb.as_str());
            proof {
                reveal_strlit(".");
                assert(full_tb@ =~= tb_key(row));
            }
            let mut found: Option<usize> = None;
            let mut j: usize = 0;
            while j < groups.len()
                invariant
                    0 <= j <= groups@.len(),
                    groups@ == gb,
                    found is None ==> forall|a: int|
                        0 <= a < j ==> (#[trigger] groups@[a]).0@ != full_tb@,
                    found matches Some(x) ==> x < groups@.len() && groups@[x as int].0@
                        == full_tb@,
                ensures
                    groups@ == gb,
                    match found {
                        Some(x) => x < groups@.len() && groups@[x as int].0@ == full_tb@,
                        None => forall|a: int|
                            0 <= a < groups@.len() ==> (#[trigger] groups@[a]).0@ != full_tb@,
                    },
                decreases groups@.len() - j,
            {
                if str_eq(groups[j].0.as_str(), full_tb.as_str()) {
                    found = Some(j);
                    break ;
                }
                j = j + 1;
            }
            let ghost ftb = full_tb@;
            match found {
                Some(x) => {
                    let mut g = groups.remove(x);
                    g.1.push(row);
                    groups.push(g);
                    proof {
                        let ga = groups@;
                        let last = ga.len() - 1;
                        assert(ga.len() == gb.len());
                        assert(ga[last].0 == gb[x as int].0);
                        assert(ga[last].1@ =~= gb[x as int].1@.push(row));
                        assert(forall|a: int|
                            0 <= a < last ==> ga[a] == gb[(if a < x { a } else { a + 1 }) as int]);
                        assert forall|j1: int, j2: int| 0 <= j1 < j2 < ga.len() implies (
                        #[trigger] ga[j1]).0@ != (#[trigger] ga[j2]).0@ by {
                            let m1: int = if j1 < x {
                                j1
                            } else {
                                j1 + 1
                            };
                            if j2 == last {
                                assert(ga[j1] == gb[m1]);
                                assert(gb[m1].0@ != gb[x as int].0@);
                            } else {
                                let m2: int = if j2 < x {
                                    j2
                                } else {
                                    j2 + 1
                                };
                                assert(ga[j1] == gb[m1] && ga[j2] == gb[m2]);
                            }
                        }
                        assert forall|jj: int| 0 <= jj < ga.len() implies group_of(
                            orig,
                            (#[trigger] ga[jj]).0@,
                        ) =~= ga[jj].1@ + group_of(input@, ga[jj].0@) by {
                            if jj == last {
                                assert(gb[x as int].0@ == ftb);
                                assert(group_of(orig, ftb) =~= gb[x as int].1@ + group_of(
                                    prev,
                                    ftb,
                                ));
                                assert(group_of(prev, ftb) == seq![row] + group_of(input@, ftb));
                                assert(ga[jj].1@ + group_of(input@, ftb) =~= gb[x as int].1@ + (
                                seq![row] + group_of(input@, ftb)));
                            } else {
                                let m: int = if jj < x {
                                    jj
                                } else {
                                    jj + 1
                                };
                                assert(ga[jj] == gb[m]);
                                assert(gb[m].0@ != ftb);
                                assert(group_of(prev, gb[m].0@) == group_of(input@, gb[m].0@));
                                assert(group_of(orig, gb[m].0@) =~= gb[m].1@ + group_of(
                                    prev,
                                    gb[m].0@,
                                ));
                            }
                        }
                        assert forall|k: Seq<char>|
                            (forall|jj: int|
                                0 <= jj < ga.len() ==> (#[trigger] ga[jj]).0@ != k) implies
                            group_of(orig, k) == #[trigger] group_of(input@, k) by {
                            assert(ga[last].0@ == ftb);
                            assert(k != ftb);
                            assert forall|a: int| 0 <= a < gb.len() implies (
                            #[trigger] gb[a]).0@ != k by {
                                if a == x {
                                    assert(gb[a].0@ == ftb);
                                } else {
                                    let n: int = if a < x {
                                        a
                                    } else {
                                        a - 1
                                    };
                                    assert(ga[n] == gb[a]);
                                }
                            }
                            assert(group_of(orig, k) == group_of(prev, k));
                            assert(group_of(prev, k) == group_of(input@, k));
                        }
                    }
                },
                None => {
                    let mut g: Vec<RowData> = Vec::new();
                    g.push(row);
                    groups.push((full_tb, g));
                    proof {
                        let ga = groups@;
                        let last = ga.len() - 1;
                        assert(g@ =~= seq![row]);
                        assert(forall|a: int| 0 <= a < last ==> ga[a] == gb[a]);
                        assert(ga[last].0@ == ftb);
                        assert(forall|a: int| 0 <= a < gb.len() ==> (#[trigger] gb[a]).0@ != ftb);
                        assert(group_of(orig, ftb) == group_of(prev, ftb));
                        assert forall|jj: int| 0 <= jj < ga.len() implies group_of(
                            orig,
                            (#[trigger] ga[jj]).0@,
                        ) =~= ga[jj].1@ + group_of(input@, ga[jj].0@) by {
                            if jj == last {
                                assert(group_of(prev, ftb) == seq![row] + group_of(input@, ftb));
                                assert(ga[jj].1@ =~= seq![row]);
                            } else {
                                assert(ga[jj] == gb[jj]);
                                assert(gb[jj].0@ != ftb);
                                assert(group_of(prev, gb[jj].0@) == group_of(input@, gb[jj].0@));
                                assert(group_of(orig, gb[jj].0@) =~= gb[jj].1@ + group_of(
                                    prev,
                                    gb[jj].0@,
                                ));
                            }
                        }
                        assert forall|k: Seq<char>|
                            (forall|jj: int|
                                0 <= jj < ga.len() ==> (#[trigger] ga[jj]).0@ != k) implies
                            group_of(orig, k) == #[trigger] group_of(input@, k) by {
                            assert(ga[last].0@ == ftb);
                            assert(k != ftb);
                            assert(forall|a: int|
                                0 <= a < gb.len() ==> ga[a] == (#[trigger] gb[a]));
                            assert(forall|a: int|
                                0 <= a < gb.len() ==> (#[trigger] gb[a]).0@ != k);
                            assert(group_of(orig, k) == group_of(prev, k));
                            assert(group_of(prev, k) == group_of(input@, k));
                        }
                    }
                },
            }
            proof {
                p = p + 1;
                assert(input@ =~= orig.subrange(p, orig.len() as int));
            }
        }
        let mut out: Vec<TbMergedData> = Vec::new();
        let ghost gl = groups@;
        proof {
            assert(forall|j: int|
                0 <= j < gl.len() ==> group_of(orig, (#[trigger] gl[j]).0@) =~= gl[j].1@);
            assert(p == orig.len());
            assert forall|k: Seq<char>|
                (forall|j: int| 0 <= j < gl.len() ==> (#[trigger] gl[j]).0@ != k) implies (
            #[trigger] group_of(orig, k)) == Seq::<RowData>::empty() by {
                assert forall|j: int| 0 <= j < groups@.len() implies (
                #[trigger] groups@[j]).0@ != k by {
                    assert(groups@[j] == gl[j]);
                }
                assert(group_of(orig, k) == group_of(input@, k));
                assert(group_of(input@, k) =~= Seq::<RowData>::empty());
            }
        }
        let ghost mut consumed: Seq<(String, Vec<RowData>)> = Seq::empty();
        while groups.len() > 0
            invariant
                gl =~= consumed + groups@,
                consumed.len() == out@.len(),
                forall|a: int|
                    0 <= a < out@.len() ==> (#[trigger] out@[a]).tb@ == consumed[a].0@,
                forall|j1: int, j2: int|
                    0 <= j1 < j2 < gl.len() ==> (#[trigger] gl[j1]).0@ != (#[trigger] gl[j2]).0@,
                forall|j: int|
                    0 <= j < gl.len() ==> group_of(orig, (#[trigger] gl[j]).0@) =~= gl[j].1@,
                forall|i: int| 0 <= i < orig.len() ==> (#[trigger] orig[i]).wf(),
                forall|k: Seq<char>|
                    (forall|j: int| 0 <= j < gl.len() ==> (#[trigger] gl[j]).0@ != k) ==> (
                    #[trigger] group_of(orig, k)) == Seq::<RowData>::empty(),
                forall|a: int|
                    0 <= a < out@.len() ==> merged_group(
                        group_of(orig, (#[trigger] out@[a]).tb@),
                        out@[a],
                    ),
            decreases groups@.len(),
        {
            let ghost gprev = groups@;
            let (key, g) = groups.remove(0);
            proof {
                assert(groups@ =~= gprev.drop_first());
                assert(gprev[0] == gl[consumed.len() as int]);
                assert(group_of(orig, key@) =~= g@);
                lemma_group_of_wf(orig, key@);
                assert(forall|i: int| 0 <= i < g@.len() ==> (#[trigger] g@[i]).wf());
            }
            let (insert_rows, delete_rows, unmerged_rows) = Self::merge_row_data(g);
            out.push(TbMergedData { tb: key, insert_rows, delete_rows, unmerged_rows });
            proof {
                consumed = consumed.push(gprev[0]);
                assert(gl =~= consumed + groups@);
            }
        }
        proof {
            assert(consumed =~= gl);
            assert forall|i: int| 0 <= i < data@.len() implies has_merged_group(
                out@,
                tb_key(#[trigger] data@[i]),
            ) by {
                assert(data@[i] == orig[i]);
                lemma_group_nonempty(orig, i);
                if forall|j: int| 0 <= j < gl.len() ==> (#[trigger] gl[j]).0@ != tb_key(orig[i]) {
                    assert(group_of(orig, tb_key(orig[i])) == Seq::<RowData>::empty());
                    assert(false);
                }
                assert(exists|j: int|
                    0 <= j < gl.len() && (#[trigger] gl[j]).0@ == tb_key(orig[i]));
                let j = choose|j: int| 0 <= j < gl.len() && (#[trigger] gl[j]).0@ == tb_key(
                    orig[i],
                );
                assert(out@[j].tb@ == consumed[j].0@);
                assert(0 <= j < out@.len() && out@[j].tb@ == tb_key(data@[i]));
            }
            assert forall|j1: int, j2: int| 0 <= j1 < j2 < out@.len() implies (
            #[trigger] out@[j1]).tb@ != (#[trigger] out@[j2]).tb@ by {
                assert(out@[j1].tb@ == gl[j1].0@ && out@[j2].tb@ == gl[j2].0@);
            }
        }
        out
    }
}

} // verus!
