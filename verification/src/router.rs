//! Routing: schema and table renames applied to every row immediately
//! before it is queued. Column names change only where a rename is
//! configured for the routed table.

use vstd::prelude::*;
use crate::events::{DdlData, RowData, StructData};
use crate::text::str_eq;

verus! {

/// The first target bound to a schema in a schema map.
pub open spec fn schema_map_get(m: Seq<(String, String)>, schema: Seq<char>) -> Option<Seq<char>>
    decreases m.len(),
{
    if m.len() == 0 {
        None
    } else if m[0].0@ == schema {
        Some(m[0].1@)
    } else {
        schema_map_get(m.drop_first(), schema)
    }
}

/// The first target bound to a table in a table map.
pub open spec fn tb_map_get(
    m: Seq<((String, String), (String, String))>,
    schema: Seq<char>,
    tb: Seq<char>,
) -> Option<(Seq<char>, Seq<char>)>
    decreases m.len(),
{
    if m.len() == 0 {
        None
    } else if m[0].0.0@ == schema && m[0].0.1@ == tb {
        Some((m[0].1.0@, m[0].1.1@))
    } else {
        tb_map_get(m.drop_first(), schema, tb)
    }
}

/// The configured router.
pub struct RdbRouter {
    pub schema_map: Vec<(String, String)>,
    pub tb_map: Vec<((String, String), (String, String))>,
}

impl RdbRouter {
    /// Where a table routes to: a table rename wins, else a schema rename
    /// keeps the table name, else the pair is unchanged.
    pub open spec fn spec_route(&self, schema: Seq<char>, tb: Seq<char>) -> (Seq<char>, Seq<char>) {
        match tb_map_get(self.tb_map@, schema, tb) {
            Some(t) => t,
            None => match schema_map_get(self.schema_map@, schema) {
                Some(s2) => (s2, tb),
                None => (schema, tb),
            },
        }
    }

    fn tb_map_lookup(&self, schema: &str, tb: &str) -> (r: Option<(&String, &String)>)
        ensures
            match tb_map_get(self.tb_map@, schema@, tb@) {
                Some(t) => r matches Some(v) && v.0@ == t.0 && v.1@ == t.1,
                None => r is None,
            },
    {
        proof {
            assert(self.tb_map@.subrange(0, self.tb_map@.len() as int) =~= self.tb_map@);
        }
        let mut i: usize = 0;
        while i < self.tb_map.len()
            invariant
                0 <= i <= self.tb_map@.len(),
                tb_map_get(
                    self.tb_map@.subrange(i as int, self.tb_map@.len() as int),
                    schema@,
                    tb@,
                ) == tb_map_get(self.tb_map@, schema@, tb@),
            decreases self.tb_map@.len() - i,
        {
            proof {
                let rest = self.tb_map@.subrange(i as int, self.tb_map@.len() as int);
                assert(rest[0] == self.tb_map@[i as int]);
                assert(rest.drop_first() =~= self.tb_map@.subrange(
                    i + 1 as int,
                    self.tb_map@.len() as int,
                ));
            }
            if str_eq(self.tb_map[i].0.0.as_str(), schema) && str_eq(
                self.tb_map[i].0.1.as_str(),
                tb,
            ) {
                return Some((&self.tb_map[i].1.0, &self.tb_map[i].1.1));
            }
            i = i + 1;
        }
        proof {
            assert(self.tb_map@.subrange(i as int, self.tb_map@.len() as int).len() == 0);
        }
        None
    }

    fn schema_map_lookup(&self, schema: &str) -> (r: Option<&String>)
        ensures
            match schema_map_get(self.schema_map@, schema@) {
                Some(t) => r matches Some(v) && v@ == t,
                None => r is None,
            },
    {
        proof {
            assert(self.schema_map@.subrange(0, self.schema_map@.len() as int)
                =~= self.schema_map@);
        }
        let mut i: usize = 0;
        while i < self.schema_map.len()
            invariant
                0 <= i <= self.schema_map@.len(),
                schema_map_get(
                    self.schema_map@.subrange(i as int, self.schema_map@.len() as int),
                    schema@,
                ) == schema_map_get(self.schema_map@, schema@),
            decreases self.schema_map@.len() - i,
        {
            proof {
                let rest = self.schema_map@.subrange(i as int, self.schema_map@.len() as int);
                assert(rest[0] == self.schema_map@[i as int]);
                assert(rest.drop_first() =~= self.schema_map@.subrange(
                    i + 1 as int,
                    self.schema_map@.len() as int,
                ));
            }
            if str_eq(self.schema_map[i].0.as_str(), schema) {
                return Some(&self.schema_map[i].1);
            }
            i = i + 1;
        }
        proof {
            assert(self.schema_map@.subrange(i as int, self.schema_map@.len() as int).len() == 0);
        }
        None
    }

    /// Routes a table pair.
    pub fn route(&self, schema: &str, tb: &str) -> (r: (String, String))
        ensures
            r.0@ == self.spec_route(schema@, tb@).0,
            r.1@ == self.spec_route(schema@, tb@).1,
    {
        match self.tb_map_lookup(schema, tb) {
            Some((s2, t2)) => (s2.clone(), t2.clone()),
            None => match self.schema_map_lookup(schema) {
                Some(s2) => (s2.clone(), tb.to_owned()),
                None => (schema.to_owned(), tb.to_owned()),
            },
        }
    }

    /// Routes one row: the schema and table are rewritten, everything else
    /// is kept.
    pub fn route_row(&self, row_data: RowData) -> (r: RowData)
        ensures
            r.schema@ == self.spec_route(row_data.schema@, row_data.tb@).0,
            r.tb@ == self.spec_route(row_data.schema@, row_data.tb@).1,
            r.row_type == row_data.row_type,
            r.before == row_data.before,
            r.after == row_data.after,
            r.data_size == row_data.data_size,
    {
        let (schema, tb) = self.route(row_data.schema.as_str(), row_data.tb.as_str());
        RowData {
            schema,
            tb,
            row_type: row_data.row_type,
            before: row_data.before,
            after: row_data.after,
            data_size: row_data.data_size,
        }
    }

    /// Routes a DDL statement's schema pair the same way.
    pub fn route_ddl(&self, ddl_data: DdlData) -> (r: DdlData)
        ensures
            ({
                let (s0, t0) = (
                    if ddl_data.schema@.len() > 0 {
                        ddl_data.schema@
                    } else {
                        ddl_data.default_schema@
                    },
                    ddl_data.tb@,
                );
                r.schema@ == self.spec_route(s0, t0).0 && r.tb@ == self.spec_route(s0, t0).1
            }),
            r.query == ddl_data.query,
            r.ddl_type == ddl_data.ddl_type,
            r.default_schema == ddl_data.default_schema,
    {
        let (s, t) = ddl_data.get_schema_tb();
        let (schema, tb) = self.route(s.as_str(), t.as_str());
        DdlData {
            default_schema: ddl_data.default_schema,
            schema,
            tb,
            query: ddl_data.query,
            ddl_type: ddl_data.ddl_type,
        }
    }

    /// Routes a structure statement: its schema follows the schema map, the
    /// statement text is kept.
    pub fn route_struct(&self, struct_data: StructData) -> (r: StructData)
        ensures
            r.schema@ == (match schema_map_get(self.schema_map@, struct_data.schema@) {
                Some(s2) => s2,
                None => struct_data.schema@,
            }),
            r.statement == struct_data.statement,
    {
        match self.schema_map_lookup(struct_data.schema.as_str()) {
            Some(s2) => StructData { schema: s2.clone(), statement: struct_data.statement },
            None => struct_data,
        }
    }

    /// Whether a routed pair is outside the router's own key sets, so that
    /// routing it again changes nothing.
    pub open spec fn spec_unrouted(&self, schema: Seq<char>, tb: Seq<char>) -> bool {
        tb_map_get(self.tb_map@, schema, tb) is None && schema_map_get(self.schema_map@, schema)
            is None
    }

    /// A router whose rename targets never appear among its keys.
    pub open spec fn spec_targets_disjoint(&self) -> bool {
        &&& forall|s: Seq<char>, t: Seq<char>|
            (#[trigger] tb_map_get(self.tb_map@, s, t)) matches Some(o) ==> self.spec_unrouted(
                o.0,
                o.1,
            )
        &&& forall|s: Seq<char>|
            (#[trigger] schema_map_get(self.schema_map@, s)) matches Some(o) ==> forall|
                t: Seq<char>,
            | self.spec_unrouted(o, t)
    }
}

/// Router idempotence on already-routed pairs: where rename targets are not
/// themselves rename sources, routing a routed pair changes nothing. A map
/// whose target is another entry's source routes twice and is outside this
/// law.
pub proof fn lemma_route_idempotent(r: RdbRouter, schema: Seq<char>, tb: Seq<char>)
    requires
        r.spec_targets_disjoint(),
    ensures
        r.spec_route(r.spec_route(schema, tb).0, r.spec_route(schema, tb).1) == r.spec_route(
            schema,
            tb,
        ),
{
    let o = r.spec_route(schema, tb);
    match tb_map_get(r.tb_map@, schema, tb) {
        Some(t) => {
            assert(r.spec_unrouted(t.0, t.1));
        },
        None => {
            match schema_map_get(r.schema_map@, schema) {
                Some(s2) => {
                    assert(r.spec_unrouted(s2, tb));
                },
                None => {},
            }
        },
    }
}

} // verus!
