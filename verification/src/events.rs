//! The typed event model: rows, DDL/DCL/structure statements, positions,
//! and the tagged event that moves through the pipeline.

use vstd::prelude::*;
use crate::value::ColValue;
use crate::RowType;

verus! {

/// One row change. `before` and `after` are association lists from column
/// name to value; an insert carries `after` only, a delete `before` only,
/// an update both. `data_size` is the byte cost used for queue accounting.
#[derive(Clone, PartialEq, Eq, Debug)]
pub struct RowData {
    pub schema: String,
    pub tb: String,
    pub row_type: RowType,
    pub before: Option<Vec<(String, ColValue)>>,
    pub after: Option<Vec<(String, ColValue)>>,
    pub data_size: usize,
}

impl RowData {
    /// The shape each row kind must have.
    pub open spec fn wf(&self) -> bool {
        match self.row_type {
            RowType::Insert => self.after is Some,
            RowType::Delete => self.before is Some,
            RowType::Update => self.before is Some && self.after is Some,
        }
    }

    /// Builds a row with no accounted size, as merge-produced rows have.
    pub fn new(
        schema: String,
        tb: String,
        row_type: RowType,
        before: Option<Vec<(String, ColValue)>>,
        after: Option<Vec<(String, ColValue)>>,
    ) -> (r: RowData)
        ensures
            r.schema == schema && r.tb == tb && r.row_type == row_type,
            r.before == before && r.after == after,
            r.data_size == 0,
    {
        RowData { schema, tb, row_type, before, after, data_size: 0 }
    }
}

/// The statement kinds the DDL collaborator reports.
#[derive(Clone, Copy, PartialEq, Eq, Structural, Debug)]
pub enum DdlType {
    CreateDatabase,
    DropDatabase,
    AlterDatabase,
    CreateTable,
    DropTable,
    AlterTable,
    TruncateTable,
    RenameTable,
    Unknown,
}

/// A parsed DDL statement. `schema` is what the statement itself names,
/// `default_schema` the session's current schema from the log event.
#[derive(Clone, PartialEq, Eq, Debug)]
pub struct DdlData {
    pub default_schema: String,
    pub schema: String,
    pub tb: String,
    pub query: String,
    pub ddl_type: DdlType,
}

impl DdlData {
    /// The statement text to apply on the sink.
    pub fn to_sql(&self) -> (r: &str)
        ensures
            r@ == self.query@,
    {
        self.query.as_str()
    }

    /// The schema the statement acts in (its own if it names one, else the
    /// session default) and the table it names.
    pub fn get_schema_tb(&self) -> (r: (String, String))
        ensures
            self.schema@.len() > 0 ==> r.0@ == self.schema@,
            self.schema@.len() == 0 ==> r.0@ == self.default_schema@,
            r.1@ == self.tb@,
    {
        if self.schema.as_str().is_empty() {
            (self.default_schema.clone(), self.tb.clone())
        } else {
            (self.schema.clone(), self.tb.clone())
        }
    }
}

/// A DCL statement, executed verbatim.
#[derive(Clone, PartialEq, Eq, Debug)]
pub struct DclData {
    pub query: String,
}

impl DclData {
    /// The statement text to apply on the sink.
    pub fn to_sql(&self) -> (r: &str)
        ensures
            r@ == self.query@,
    {
        self.query.as_str()
    }
}

/// A schema-structure statement produced by a structure migration.
#[derive(Clone, PartialEq, Eq, Debug)]
pub struct StructData {
    pub schema: String,
    pub statement: String,
}

/// An opaque progress token, one variant per source kind. Monotone
/// non-decreasing within a run.
#[derive(Clone, PartialEq, Eq, Debug)]
pub enum Position {
    Absent,
    MysqlCdc { binlog_filename: String, next_event_position: u32, gtid_set: String },
    PgCdc { slot_name: String, lsn: String },
    MongoCdc { resume_token: String },
    Redis { repl_offset: u64 },
    RdbSnapshot { schema: String, tb: String, order_col: String, value: String },
}

/// The payload of one pipeline event.
#[derive(Clone, PartialEq, Eq, Debug)]
pub enum DtData {
    Dml { row_data: RowData },
    Ddl { ddl_data: DdlData },
    Dcl { dcl_data: DclData },
    Struct { struct_data: StructData },
    Heartbeat,
    Begin,
    Commit,
}

impl DtData {
    pub open spec fn spec_is_begin(&self) -> bool {
        self is Begin
    }

    pub open spec fn spec_is_commit(&self) -> bool {
        self is Commit
    }

    pub fn is_begin(&self) -> (r: bool)
        ensures
            r == self.spec_is_begin(),
    {
        matches!(self, DtData::Begin)
    }

    pub fn is_commit(&self) -> (r: bool)
        ensures
            r == self.spec_is_commit(),
    {
        matches!(self, DtData::Commit)
    }

    /// The byte cost counted against the queue: a row's accounted size;
    /// statements count their text; control events are free.
    pub open spec fn spec_data_size(&self) -> nat {
        match self {
            DtData::Dml { row_data } => row_data.data_size as nat,
            DtData::Ddl { ddl_data } => ddl_data.query@.len(),
            DtData::Dcl { dcl_data } => dcl_data.query@.len(),
            _ => 0,
        }
    }

    pub fn get_data_size(&self) -> (r: usize)
        ensures
            r == self.spec_data_size(),
    {
        match self {
            DtData::Dml { row_data } => row_data.data_size,
            DtData::Ddl { ddl_data } => ddl_data.query.as_str().unicode_len(),
            DtData::Dcl { dcl_data } => dcl_data.query.as_str().unicode_len(),
            _ => 0,
        }
    }
}

/// One queued event: payload, source position, and the node the data
/// originated from (empty when no data marker is configured).
#[derive(Clone, PartialEq, Eq, Debug)]
pub struct DtItem {
    pub dt_data: DtData,
    pub position: Position,
    pub data_origin_node: String,
}

} // verus!
