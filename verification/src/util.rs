//! Listing helpers shared by the task builder: a store's own schemas are
//! never replicated and are skipped when schemas are listed.

use vstd::multiset::Multiset;
use vstd::prelude::*;
use crate::config::DbType;
use crate::text::str_eq;

verus! {

/// Whether a schema is one of the store's own, never replicated.
pub open spec fn spec_is_system_db(db_type: DbType, schema: Seq<char>) -> bool {
    match db_type {
        DbType::Mysql => schema == "information_schema"@ || schema == "mysql"@ || schema
            == "performance_schema"@ || schema == "sys"@,
        DbType::Pg => schema == "pg_catalog"@ || schema == "information_schema"@,
        _ => false,
    }
}

/// Builders for the per-source listing steps.
pub struct ExtractorUtil {}

impl ExtractorUtil {
    /// Whether a schema is one of the store's own.
    pub fn is_system_db(db_type: &DbType, schema: &str) -> (r: bool)
        ensures
            r == spec_is_system_db(*db_type, schema@),
    {
        match db_type {
            DbType::Mysql => str_eq(schema, "information_schema") || str_eq(schema, "mysql")
                || str_eq(schema, "performance_schema") || str_eq(schema, "sys"),
            DbType::Pg => str_eq(schema, "pg_catalog") || str_eq(schema, "information_schema"),
            _ => false,
        }
    }

    /// The listed schemas a run works with, in listing order.
    pub open spec fn spec_user_dbs(db_type: DbType, dbs: Seq<String>) -> Seq<String>
        decreases dbs.len(),
    {
        if dbs.len() == 0 {
            Seq::empty()
        } else {
            let rest = Self::spec_user_dbs(db_type, dbs.drop_first());
            if spec_is_system_db(db_type, dbs[0]@) {
                rest
            } else {
                seq![dbs[0]] + rest
            }
        }
    }

    /// Drops the store's own schemas from a listing.
    pub fn keep_user_dbs(db_type: &DbType, dbs: Vec<String>) -> (r: Vec<String>)
        ensures
            r@ == Self::spec_user_dbs(*db_type, dbs@),
    {
        let ghost orig = dbs@;
        let mut dbs = dbs;
        let mut out: Vec<String> = Vec::new();
        while dbs.len() > 0
            invariant
                Self::spec_user_dbs(*db_type, orig) =~= out@ + Self::spec_user_dbs(
                    *db_type,
                    dbs@,
                ),
            decreases dbs@.len(),
        {
            let ghost prev = dbs@;
            let db = dbs.remove(0);
            proof {
                assert(dbs@ =~= prev.drop_first());
                assert(prev[0] == db);
            }
            if !Self::is_system_db(db_type, db.as_str()) {
                out.push(db);
                proof {
                    assert(Self::spec_user_dbs(*db_type, prev) =~= seq![db]
                        + Self::spec_user_dbs(*db_type, dbs@));
                    assert(Self::spec_user_dbs(*db_type, orig) =~= out@ + Self::spec_user_dbs(
                        *db_type,
                        dbs@,
                    ));
                }
            }
        }
        proof {
            assert(Self::spec_user_dbs(*db_type, dbs@) =~= Seq::<String>::empty());
            assert(out@ =~= Self::spec_user_dbs(*db_type, orig));
        }
        out
    }
}

/// Lexicographic order on character sequences, as str's documented `Ord`:
/// element-wise by code point, a prefix before its extensions.
pub open spec fn lex_leq(a: Seq<char>, b: Seq<char>) -> bool
    decreases a.len(),
{
    if a.len() == 0 {
        true
    } else if b.len() == 0 {
        false
    } else if a[0] != b[0] {
        a[0] < b[0]
    } else {
        lex_leq(a.drop_first(), b.drop_first())
    }
}

proof fn lemma_lex_total(a: Seq<char>, b: Seq<char>)
    ensures
        lex_leq(a, b) || lex_leq(b, a),
    decreases a.len(),
{
    if a.len() > 0 && b.len() > 0 && a[0] == b[0] {
        lemma_lex_total(a.drop_first(), b.drop_first());
    }
}

proof fn lemma_lex_trans(a: Seq<char>, b: Seq<char>, c: Seq<char>)
    requires
        lex_leq(a, b),
        lex_leq(b, c),
    ensures
        lex_leq(a, c),
    decreases a.len(),
{
    if a.len() > 0 && b.len() > 0 && c.len() > 0 && a[0] == b[0] && b[0] == c[0] {
        lemma_lex_trans(a.drop_first(), b.drop_first(), c.drop_first());
    }
}

/// Compares two names in lexicographic order.
fn lex_le(a: &str, b: &str) -> (r: bool)
    ensures
        r == lex_leq(a@, b@),
{
    let alen = a.unicode_len();
    let blen = b.unicode_len();
    proof {
        assert(a@.subrange(0, a@.len() as int) =~= a@);
        assert(b@.subrange(0, b@.len() as int) =~= b@);
    }
    let mut i: usize = 0;
    while i < alen && i < blen
        invariant
            0 <= i <= alen,
            i <= blen,
            alen == a@.len(),
            blen == b@.len(),
            forall|j: int| 0 <= j < i ==> a@[j] == b@[j],
            lex_leq(a@, b@) == lex_leq(
                a@.subrange(i as int, a@.len() as int),
                b@.subrange(i as int, b@.len() as int),
            ),
        decreases alen - i,
    {
        let ca = a.get_char(i);
        let cb = b.get_char(i);
        proof {
            let at = a@.subrange(i as int, a@.len() as int);
            let bt = b@.subrange(i as int, b@.len() as int);
            assert(at[0] == a@[i as int] && bt[0] == b@[i as int]);
            assert(at.drop_first() =~= a@.subrange(i + 1 as int, a@.len() as int));
            assert(bt.drop_first() =~= b@.subrange(i + 1 as int, b@.len() as int));
        }
        if ca != cb {
            return ca < cb;
        }
        i = i + 1;
    }
    proof {
        let at = a@.subrange(i as int, a@.len() as int);
        let bt = b@.subrange(i as int, b@.len() as int);
        if i == alen {
            assert(at.len() == 0);
        } else {
            assert(bt.len() == 0 && at.len() > 0);
        }
    }
    alen <= blen
}

/// Sorts names in ascending lexicographic order, keeping the same names:
/// the listing order of `SHOW`-style commands is unspecified, so listings
/// are sorted for stable output.
pub fn sort_names(v: Vec<String>) -> (r: Vec<String>)
    ensures
        r@.to_multiset() == v@.to_multiset(),
        forall|i: int, j: int|
            0 <= i < j < r@.len() ==> lex_leq((#[trigger] r@[i])@, (#[trigger] r@[j])@),
{
    broadcast use vstd::seq_lib::group_to_multiset_ensures;

    let ghost orig = v@;
    let mut rest = v;
    let mut out: Vec<String> = Vec::new();
    while rest.len() > 0
        invariant
            out@.to_multiset().add(rest@.to_multiset()) =~= orig.to_multiset(),
            forall|i: int, j: int|
                0 <= i < j < out@.len() ==> lex_leq((#[trigger] out@[i])@, (#[trigger] out@[j])@),
            forall|i: int, j: int|
                0 <= i < out@.len() && 0 <= j < rest@.len() ==> lex_leq(
                    (#[trigger] out@[i])@,
                    (#[trigger] rest@[j])@,
                ),
        decreases rest@.len(),
    {
        let mut m: usize = 0;
        let mut k: usize = 1;
        proof {
            lemma_lex_total(rest@[0]@, rest@[0]@);
        }
        while k < rest.len()
            invariant
                0 <= m < k <= rest@.len(),
                rest@.len() > 0,
                forall|j: int| 0 <= j < k ==> lex_leq((#[trigger] rest@[m as int])@, (#[trigger] rest@[j])@),
            decreases rest@.len() - k,
        {
            if lex_le(rest[k].as_str(), rest[m].as_str()) {
                proof {
                    assert forall|j: int| 0 <= j < k + 1 implies lex_leq(
                        (#[trigger] rest@[k as int])@,
                        (#[trigger] rest@[j])@,
                    ) by {
                        if j < k {
                            lemma_lex_trans(rest@[k as int]@, rest@[m as int]@, rest@[j]@);
                        } else {
                            lemma_lex_total(rest@[k as int]@, rest@[k as int]@);
                        }
                    }
                }
                m = k;
            } else {
                proof {
                    lemma_lex_total(rest@[k as int]@, rest@[m as int]@);
                }
            }
            k = k + 1;
        }
        let ghost rest0 = rest@;
        let ghost out0 = out@;
        let x = rest.remove(m);
        proof {
            broadcast use vstd::seq_lib::group_to_multiset_ensures;

            assert(rest0[m as int] == x);
            assert(rest0.contains(x)) by {
                assert(rest0[m as int] == x);
            }
            assert(rest@ == rest0.remove(m as int));
            assert(rest0.remove(m as int).to_multiset() =~= rest0.to_multiset().remove(x));
        }
        out.push(x);
        proof {
            broadcast use vstd::seq_lib::group_to_multiset_ensures;

            assert(out@ == out0.push(x));
            assert(out0.push(x).to_multiset() =~= out0.to_multiset().insert(x));
            assert(out@.to_multiset().add(rest@.to_multiset()) =~= orig.to_multiset());
            assert(forall|i: int| 0 <= i < out0.len() ==> out@[i] == #[trigger] out0[i]);
            assert(out@[out@.len() - 1] == x);
            assert forall|i: int, j: int|
                0 <= i < out@.len() && 0 <= j < rest@.len() implies lex_leq(
                (#[trigger] out@[i])@,
                (#[trigger] rest@[j])@,
            ) by {
                let j0: int = if j < m {
                    j
                } else {
                    j + 1
                };
                assert(rest@[j] == rest0[j0]);
                if i < out0.len() {
                    assert(lex_leq(out0[i]@, rest0[j0]@));
                } else {
                    assert(lex_leq(x@, rest0[j0]@));
                }
            }
            assert forall|i: int, j: int| 0 <= i < j < out@.len() implies lex_leq(
                (#[trigger] out@[i])@,
                (#[trigger] out@[j])@,
            ) by {
                if j == out@.len() - 1 && i < out0.len() {
                    assert(lex_leq(out0[i]@, rest0[m as int]@));
                }
            }
        }
    }
    proof {
        broadcast use vstd::seq_lib::group_to_multiset_ensures;

        assert(rest@.to_multiset() =~= Multiset::<String>::empty());
        assert(out@.to_multiset() =~= orig.to_multiset());
    }
    out
}

} // verus!
