//! The MySQL sinker's decisions: how a batch is applied, the data-marker
//! upsert that shares its transaction, and the per-sinker state machine.
//! The connection work around them is the runtime's edge.

use vstd::prelude::*;
use crate::events::RowData;
use crate::marker::DataMarker;
use crate::RowType;

verus! {

/// How one DML batch is applied.
#[derive(Clone, Copy, PartialEq, Eq, Structural, Debug)]
pub enum SinkPlan {
    /// Row by row inside one transaction.
    Serial,
    /// One multi-row insert.
    BatchInsert,
    /// One multi-row delete.
    BatchDelete,
}

/// The per-sinker lifecycle.
#[derive(Clone, Copy, PartialEq, Eq, Structural, Debug)]
pub enum SinkerState {
    Idle,
    Writing,
    Committed,
    FallbackSerial,
    Failed,
}

/// What a sinker observes while applying a batch.
#[derive(Clone, Copy, PartialEq, Eq, Structural, Debug)]
pub enum SinkEvent {
    BatchStart,
    BatchOk,
    BatchFailed,
    SerialOk,
    SerialFailed,
}

/// The sinker state machine: a batch failure falls back to serial
/// application; a serial failure is terminal; `Failed` never leaves.
pub open spec fn spec_sinker_step(s: SinkerState, e: SinkEvent) -> SinkerState {
    match (s, e) {
        (SinkerState::Idle, SinkEvent::BatchStart) => SinkerState::Writing,
        (SinkerState::Committed, SinkEvent::BatchStart) => SinkerState::Writing,
        (SinkerState::Writing, SinkEvent::BatchOk) => SinkerState::Committed,
        (SinkerState::Writing, SinkEvent::BatchFailed) => SinkerState::FallbackSerial,
        (SinkerState::FallbackSerial, SinkEvent::SerialOk) => SinkerState::Committed,
        (SinkerState::FallbackSerial, SinkEvent::SerialFailed) => SinkerState::Failed,
        (SinkerState::Failed, _) => SinkerState::Failed,
        (s0, _) => s0,
    }
}

/// Steps the sinker state machine.
pub fn sinker_step(s: SinkerState, e: SinkEvent) -> (r: SinkerState)
    ensures
        r == spec_sinker_step(s, e),
        s is Failed ==> r is Failed,
        s is Writing && e is BatchFailed ==> r is FallbackSerial,
{
    match (s, e) {
        (SinkerState::Idle, SinkEvent::BatchStart) => SinkerState::Writing,
        (SinkerState::Committed, SinkEvent::BatchStart) => SinkerState::Writing,
        (SinkerState::Writing, SinkEvent::BatchOk) => SinkerState::Committed,
        (SinkerState::Writing, SinkEvent::BatchFailed) => SinkerState::FallbackSerial,
        (SinkerState::FallbackSerial, SinkEvent::SerialOk) => SinkerState::Committed,
        (SinkerState::FallbackSerial, SinkEvent::SerialFailed) => SinkerState::Failed,
        (SinkerState::Failed, _) => SinkerState::Failed,
        (s0, _) => s0,
    }
}

/// A failed sinker stays failed under every further event.
pub proof fn lemma_failed_is_terminal(e: SinkEvent)
    ensures
        spec_sinker_step(SinkerState::Failed, e) == SinkerState::Failed,
{
}

/// The sinker's batching choices.
pub struct MysqlSinker {
    pub batch_size: usize,
    pub replace: bool,
    pub data_marker: Option<DataMarker>,
}

impl MysqlSinker {
    /// How a non-empty batch is applied: an unbatched call goes serial,
    /// else the leading row's kind decides, with updates always serial.
    pub fn sink_plan(data: &Vec<RowData>, batch: bool) -> (r: SinkPlan)
        requires
            data@.len() > 0,
        ensures
            !batch ==> r is Serial,
            batch && data@[0].row_type is Insert ==> r is BatchInsert,
            batch && data@[0].row_type is Delete ==> r is BatchDelete,
            batch && data@[0].row_type is Update ==> r is Serial,
    {
        if !batch {
            SinkPlan::Serial
        } else {
            match data[0].row_type {
                RowType::Insert => SinkPlan::BatchInsert,
                RowType::Delete => SinkPlan::BatchDelete,
                RowType::Update => SinkPlan::Serial,
            }
        }
    }

    /// The marker upsert that shares the batch's transaction, when a data
    /// marker is configured: one row keyed by the node triple whose counter
    /// grows by one on every writer pass.
    pub fn get_data_marker_sql(&self) -> (r: Option<String>)
        ensures
            self.data_marker is None ==> r is None,
            self.data_marker matches Some(m) ==> (r matches Some(sql) && sql@ == "INSERT INTO `"@
                + m.marker_schema@ + "`.`"@ + m.marker_tb@
                + "`(data_origin_node, src_node, dst_node, n) VALUES('"@ + m.data_origin_node@
                + "', '"@ + m.src_node@ + "', '"@ + m.dst_node@
                + "', 1) ON DUPLICATE KEY UPDATE n=n+1"@),
    {
        match &self.data_marker {
            Some(m) => {
                let mut sql = "INSERT INTO `".to_owned();
                sql.append(m.marker_schema.as_str());
                sql.append("`.`");
                sql.append(m.marker_tb.as_str());
                sql.append("`(data_origin_node, src_node, dst_node, n) VALUES('");
                sql.append(m.data_origin_node.as_str());
                sql.append("', '");
                sql.append(m.src_node.as_str());
                sql.append("', '");
                sql.append(m.dst_node.as_str());
                sql.append("', 1) ON DUPLICATE KEY UPDATE n=n+1");
                Some(sql)
            },
            None => None,
        }
    }

    /// The consecutive index ranges one batched apply walks: chunks of at
    /// most `batch_size`, covering the batch in order.
    pub fn batch_ranges(&self, len: usize) -> (r: Vec<(usize, usize)>)
        requires
            self.batch_size > 0,
        ensures
            r@.len() > 0 ==> r@[0].0 == 0,
            forall|i: int| 0 <= i < r@.len() ==> (#[trigger] r@[i]).0 < r@[i].1 <= len,
            forall|i: int| 0 <= i < r@.len() ==> (#[trigger] r@[i]).1 - r@[i].0 <= self.batch_size,
            forall|i: int|
                0 < i < r@.len() ==> (#[trigger] r@[i]).0 == r@[i - 1].1,
            r@.len() > 0 ==> r@[r@.len() - 1].1 == len,
            len == 0 ==> r@.len() == 0,
            len > 0 ==> r@.len() > 0,
    {
        let mut out: Vec<(usize, usize)> = Vec::new();
        let mut start: usize = 0;
        while start < len
            invariant
                0 <= start <= len,
                self.batch_size > 0,
                out@.len() > 0 ==> out@[0].0 == 0,
                start == 0 ==> out@.len() == 0,
                forall|i: int| 0 <= i < out@.len() ==> (#[trigger] out@[i]).0 < out@[i].1 <= len,
                forall|i: int|
                    0 <= i < out@.len() ==> (#[trigger] out@[i]).1 - out@[i].0
                        <= self.batch_size,
                forall|i: int| 0 < i < out@.len() ==> (#[trigger] out@[i]).0 == out@[i - 1].1,
                out@.len() > 0 ==> out@[out@.len() - 1].1 == start,
                start > 0 ==> out@.len() > 0,
            decreases len - start,
        {
            let end = if len - start > self.batch_size {
                start + self.batch_size
            } else {
                len
            };
            out.push((start, end));
            start = end;
        }
        out
    }
}

} // verus!
