//! Schema/table filtering: allow and deny lists plus per-table predicates.
//! Deny dominates allow; an empty allow side admits everything.

use vstd::prelude::*;
use crate::events::RowData;
use crate::text::str_eq;

verus! {

/// Whether a list entry matches a schema name: an exact entry or `*`.
pub open spec fn db_entry_matches(entry: Seq<char>, schema: Seq<char>) -> bool {
    entry == schema || entry == seq!['*']
}

/// Whether any entry of a schema list matches.
pub open spec fn db_list_matches(list: Seq<String>, schema: Seq<char>) -> bool {
    exists|i: int| 0 <= i < list.len() && db_entry_matches(#[trigger] list[i]@, schema)
}

/// Whether a table entry matches: both parts exact or `*`.
pub open spec fn tb_entry_matches(
    entry_db: Seq<char>,
    entry_tb: Seq<char>,
    schema: Seq<char>,
    tb: Seq<char>,
) -> bool {
    db_entry_matches(entry_db, schema) && (entry_tb == tb || entry_tb == seq!['*'])
}

/// Whether any entry of a table list matches.
pub open spec fn tb_list_matches(
    list: Seq<(String, String)>,
    schema: Seq<char>,
    tb: Seq<char>,
) -> bool {
    exists|i: int|
        0 <= i < list.len() && tb_entry_matches(
            (#[trigger] list[i]).0@,
            list[i].1@,
            schema,
            tb,
        )
}

/// The configured filter.
pub struct RdbFilter {
    pub do_dbs: Vec<String>,
    pub ignore_dbs: Vec<String>,
    pub do_tbs: Vec<(String, String)>,
    pub ignore_tbs: Vec<(String, String)>,
    /// Per-table predicates: schema, table, condition text.
    pub where_conditions: Vec<(String, String, String)>,
}

impl RdbFilter {
    /// Whether the table is filtered out: denied, or not allowed when an
    /// allow side is configured. Deterministic on `(schema, tb)`.
    pub open spec fn spec_filter_tb(&self, schema: Seq<char>, tb: Seq<char>) -> bool {
        let denied = tb_list_matches(self.ignore_tbs@, schema, tb) || db_list_matches(
            self.ignore_dbs@,
            schema,
        );
        let allow_configured = self.do_tbs@.len() > 0 || self.do_dbs@.len() > 0;
        let allowed = tb_list_matches(self.do_tbs@, schema, tb) || db_list_matches(
            self.do_dbs@,
            schema,
        );
        denied || (allow_configured && !allowed)
    }

    fn db_list_hit(list: &Vec<String>, schema: &str) -> (r: bool)
        ensures
            r == db_list_matches(list@, schema@),
    {
        let mut i: usize = 0;
        while i < list.len()
            invariant
                0 <= i <= list@.len(),
                forall|j: int| 0 <= j < i ==> !db_entry_matches((#[trigger] list@[j])@, schema@),
            decreases list@.len() - i,
        {
            let hit = str_eq(list[i].as_str(), schema) || str_eq(list[i].as_str(), "*");
            proof {
                reveal_strlit("*");
                assert("*"@ =~= seq!['*']);
            }
            if hit {
                return true;
            }
            i = i + 1;
        }
        false
    }

    fn tb_list_hit(list: &Vec<(String, String)>, schema: &str, tb: &str) -> (r: bool)
        ensures
            r == tb_list_matches(list@, schema@, tb@),
    {
        let mut i: usize = 0;
        while i < list.len()
            invariant
                0 <= i <= list@.len(),
                forall|j: int|
                    0 <= j < i ==> !tb_entry_matches(
                        (#[trigger] list@[j]).0@,
                        list@[j].1@,
                        schema@,
                        tb@,
                    ),
            decreases list@.len() - i,
        {
            let db_hit = str_eq(list[i].0.as_str(), schema) || str_eq(list[i].0.as_str(), "*");
            let tb_hit = str_eq(list[i].1.as_str(), tb) || str_eq(list[i].1.as_str(), "*");
            proof {
                reveal_strlit("*");
                assert("*"@ =~= seq!['*']);
            }
            if db_hit && tb_hit {
                return true;
            }
            i = i + 1;
        }
        false
    }

    /// Whether the table is filtered out.
    pub fn filter_tb(&self, schema: &str, tb: &str) -> (r: bool)
        ensures
            r == self.spec_filter_tb(schema@, tb@),
    {
        if Self::tb_list_hit(&self.ignore_tbs, schema, tb) {
            return true;
        }
        if Self::db_list_hit(&self.ignore_dbs, schema) {
            return true;
        }
        if self.do_tbs.len() == 0 && self.do_dbs.len() == 0 {
            return false;
        }
        if Self::tb_list_hit(&self.do_tbs, schema, tb) {
            return false;
        }
        if Self::db_list_hit(&self.do_dbs, schema) {
            return false;
        }
        true
    }

    /// The first configured predicate for the table, if any.
    pub open spec fn spec_where_condition(
        list: Seq<(String, String, String)>,
        schema: Seq<char>,
        tb: Seq<char>,
    ) -> Option<Seq<char>>
        decreases list.len(),
    {
        if list.len() == 0 {
            None
        } else if list[0].0@ == schema && list[0].1@ == tb {
            Some(list[0].2@)
        } else {
            Self::spec_where_condition(list.drop_first(), schema, tb)
        }
    }

    /// The configured `WHERE` predicate for the table, if any.
    pub fn get_where_condition(&self, schema: &str, tb: &str) -> (r: Option<&String>)
        ensures
            match Self::spec_where_condition(self.where_conditions@, schema@, tb@) {
                Some(c) => r matches Some(v) && v@ == c,
                None => r is None,
            },
    {
        proof {
            assert(self.where_conditions@.subrange(0, self.where_conditions@.len() as int)
                =~= self.where_conditions@);
        }
        let mut i: usize = 0;
        while i < self.where_conditions.len()
            invariant
                0 <= i <= self.where_conditions@.len(),
                Self::spec_where_condition(
                    self.where_conditions@.subrange(i as int, self.where_conditions@.len() as int),
                    schema@,
                    tb@,
                ) == Self::spec_where_condition(self.where_conditions@, schema@, tb@),
            decreases self.where_conditions@.len() - i,
        {
            let hit = str_eq(self.where_conditions[i].0.as_str(), schema) && str_eq(
                self.where_conditions[i].1.as_str(),
                tb,
            );
            proof {
                let rest = self.where_conditions@.subrange(
                    i as int,
                    self.where_conditions@.len() as int,
                );
                assert(rest[0] == self.where_conditions@[i as int]);
                assert(rest.drop_first() =~= self.where_conditions@.subrange(
                    i + 1 as int,
                    self.where_conditions@.len() as int,
                ));
            }
            if hit {
                return Some(&self.where_conditions[i].2);
            }
            i = i + 1;
        }
        proof {
            assert(self.where_conditions@.subrange(i as int, self.where_conditions@.len() as int)
                .len() == 0);
        }
        None
    }

    /// The rows that pass the filter, in order.
    pub open spec fn spec_retained(&self, rows: Seq<RowData>) -> Seq<RowData>
        decreases rows.len(),
    {
        if rows.len() == 0 {
            Seq::empty()
        } else {
            let rest = self.spec_retained(rows.drop_first());
            if self.spec_filter_tb(rows[0].schema@, rows[0].tb@) {
                rest
            } else {
                seq![rows[0]] + rest
            }
        }
    }

    /// Drops every filtered row from a batch, keeping order.
    pub fn filter_rows(&self, rows: Vec<RowData>) -> (r: Vec<RowData>)
        ensures
            r@ == self.spec_retained(rows@),
    {
        let ghost orig = rows@;
        let mut rows = rows;
        let mut out: Vec<RowData> = Vec::new();
        while rows.len() > 0
            invariant
                self.spec_retained(orig) =~= out@ + self.spec_retained(rows@),
            decreases rows@.len(),
        {
            let ghost prev = rows@;
            let row = rows.remove(0);
            proof {
                assert(rows@ =~= prev.drop_first());
                assert(prev[0] == row);
            }
            let keep = !self.filter_tb(row.schema.as_str(), row.tb.as_str());
            if keep {
                out.push(row);
                proof {
                    assert(self.spec_retained(prev) =~= seq![row] + self.spec_retained(rows@));
                    assert(self.spec_retained(orig) =~= out@ + self.spec_retained(rows@));
                }
            }
        }
        proof {
            assert(self.spec_retained(rows@) =~= Seq::<RowData>::empty());
            assert(out@ =~= self.spec_retained(orig));
        }
        out
    }
}

/// Filtering a batch twice keeps exactly what filtering it once keeps:
/// the filter is deterministic on `(schema, tb)`, so a second pass finds
/// nothing more to drop.
pub proof fn lemma_filter_idempotent(f: RdbFilter, rows: Seq<RowData>)
    ensures
        f.spec_retained(f.spec_retained(rows)) == f.spec_retained(rows),
    decreases rows.len(),
{
    if rows.len() == 0 {
    } else {
        lemma_filter_idempotent(f, rows.drop_first());
        let rest = f.spec_retained(rows.drop_first());
        if f.spec_filter_tb(rows[0].schema@, rows[0].tb@) {
        } else {
            let whole = seq![rows[0]] + rest;
            assert(whole[0] == rows[0]);
            assert(whole.drop_first() =~= rest);
            assert(f.spec_retained(whole) =~= seq![rows[0]] + f.spec_retained(rest));
        }
    }
}

} // verus!
