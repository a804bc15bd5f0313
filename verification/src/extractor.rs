//! The extractor base: every source kind pushes its events through here,
//! where the time window, the data marker and the router are applied and
//! the bounded queue enforces back-pressure.

use vstd::prelude::*;
use crate::events::{DclData, DdlData, DtData, DtItem, Position, RowData, StructData};
use crate::filter::RdbFilter;
use crate::marker::{marker_step, DataMarker};
use crate::queue::{item_size, total_size, DtQueue};
use crate::router::{schema_map_get, RdbRouter};
use crate::tokens::{parse_tokens, split_tokens};

verus! {

/// The time window: events before `start_timestamp` are dropped, one at or
/// past `end_timestamp` ends the run.
pub struct TimeFilter {
    pub started: bool,
    pub ended: bool,
    pub start_timestamp: u32,
    pub end_timestamp: u32,
}

impl TimeFilter {
    /// A window that is always open.
    pub fn always_open() -> (r: TimeFilter)
        ensures
            r.started && !r.ended,
    {
        TimeFilter { started: true, ended: false, start_timestamp: 0, end_timestamp: u32::MAX }
    }
}

/// The extractor's throughput counters.
pub struct ExtractorCounters {
    pub record_count: u64,
    pub data_size: u64,
}

/// What became of one pushed event.
#[derive(Debug)]
pub enum PushOutcome {
    /// Queued.
    Pushed,
    /// Dropped by the time window or the data marker.
    Filtered,
    /// A DDL barrier: the queue must drain before this event can go.
    AwaitDrain,
    /// No room in the queue; the caller retries with the item handed back.
    Full(DtItem),
}

/// The shared extractor base.
pub struct BaseExtractor {
    pub buffer: DtQueue,
    pub router: RdbRouter,
    pub shut_down: bool,
    pub counters: ExtractorCounters,
    pub data_marker: Option<DataMarker>,
    pub time_filter: TimeFilter,
}

impl BaseExtractor {
    /// Whether the table pair names the configured marker table.
    pub fn is_data_marker_info(&self, schema: &str, tb: &str) -> (r: bool)
        ensures
            r == (self.data_marker matches Some(m) && crate::marker::spec_is_rdb_marker_info(
                m,
                schema@,
                tb@,
            )),
    {
        match &self.data_marker {
            Some(data_marker) => data_marker.is_rdb_marker_info(schema, tb),
            None => false,
        }
    }

    /// Steps the data-marker state machine on one event and says whether
    /// the event is dropped. Without a configured marker nothing is.
    pub fn refresh_and_check_data_marker(&mut self, dt_data: &DtData) -> (r: bool)
        ensures
            match old(self).data_marker {
                Some(m) => final(self).data_marker == Some(marker_step(m, *dt_data).0) && r
                    == marker_step(m, *dt_data).1,
                None => final(self).data_marker is None && r == false,
            },
            final(self).buffer == old(self).buffer,
            final(self).router == old(self).router,
            final(self).shut_down == old(self).shut_down,
            final(self).counters == old(self).counters,
            final(self).time_filter == old(self).time_filter,
    {
        match &mut self.data_marker {
            Some(data_marker) => {
                if dt_data.is_begin() || dt_data.is_commit() {
                    data_marker.reset();
                } else if data_marker.reseted {
                    if data_marker.is_marker_info(dt_data) {
                        data_marker.filter = true;
                        data_marker.reseted = false;
                        return true;
                    } else {
                        data_marker.filter = false;
                        data_marker.reseted = false;
                    }
                }
                data_marker.filter
            },
            None => false,
        }
    }

    /// What push_dt_data leaves behind and returns, as one relation: the
    /// time window drops first, then the marker; what survives is counted
    /// and queued if the queue admits it.
    pub open spec fn push_post(
        pre: BaseExtractor,
        post: BaseExtractor,
        dt_data: DtData,
        position: Position,
        r: PushOutcome,
    ) -> bool {
        if !pre.time_filter.started {
            r is Filtered && post == pre
        } else {
            let (m2, dropped) = match pre.data_marker {
                Some(m) => (Some(marker_step(m, dt_data).0), marker_step(m, dt_data).1),
                None => (None::<DataMarker>, false),
            };
            let node = match pre.data_marker {
                Some(m) => m.data_origin_node@,
                None => Seq::<char>::empty(),
            };
            &&& post.data_marker == m2
            &&& post.router == pre.router
            &&& post.shut_down == pre.shut_down
            &&& post.time_filter == pre.time_filter
            &&& if dropped {
                r is Filtered && post.buffer == pre.buffer && post.counters == pre.counters
            } else {
                &&& post.counters.record_count as int == if pre.counters.record_count
                    == u64::MAX {
                    u64::MAX as int
                } else {
                    pre.counters.record_count + 1
                }
                &&& post.counters.data_size as int == if pre.counters.data_size as int
                    + dt_data.spec_data_size() > u64::MAX {
                    u64::MAX as int
                } else {
                    pre.counters.data_size + dt_data.spec_data_size()
                }
                &&& post.buffer.max_count == pre.buffer.max_count
                &&& post.buffer.max_bytes == pre.buffer.max_bytes
                &&& if pre.buffer.items@.len() < pre.buffer.max_count && total_size(
                    pre.buffer.items@,
                ) + dt_data.spec_data_size() <= pre.buffer.max_bytes {
                    &&& r is Pushed
                    &&& post.buffer.items@.len() == pre.buffer.items@.len() + 1
                    &&& post.buffer.items@.subrange(0, pre.buffer.items@.len() as int)
                        == pre.buffer.items@
                    &&& post.buffer.items@.last().dt_data == dt_data
                    &&& post.buffer.items@.last().position == position
                    &&& post.buffer.items@.last().data_origin_node@ == node
                } else {
                    &&& r matches PushOutcome::Full(it) && it.dt_data == dt_data && it.position
                        == position && it.data_origin_node@ == node
                    &&& post.buffer.items@ == pre.buffer.items@
                }
            }
        }
    }

    /// Pushes one event: drops it while the time window has not opened,
    /// steps the data marker (a recognized loopback is dropped), counts it,
    /// stamps it with the data-origin node, and queues it.
    pub fn push_dt_data(&mut self, dt_data: DtData, position: Position) -> (r: PushOutcome)
        requires
            old(self).buffer.wf(),
        ensures
            final(self).buffer.wf(),
            Self::push_post(*old(self), *final(self), dt_data, position, r),
    {
        if !self.time_filter.started {
            return PushOutcome::Filtered;
        }
        if self.refresh_and_check_data_marker(&dt_data) {
            return PushOutcome::Filtered;
        }
        let size = dt_data.get_data_size();
        if self.counters.record_count < u64::MAX {
            self.counters.record_count = self.counters.record_count + 1;
        }
        if self.counters.data_size <= u64::MAX - size as u64 {
            self.counters.data_size = self.counters.data_size + size as u64;
        } else {
            self.counters.data_size = u64::MAX;
        }
        let data_origin_node = match &self.data_marker {
            Some(data_marker) => data_marker.data_origin_node.clone(),
            None => String::new(),
        };
        let item = DtItem { dt_data, position, data_origin_node };
        let ghost git = item;
        let res = match self.buffer.try_push(item) {
            Ok(()) => PushOutcome::Pushed,
            Err(back) => PushOutcome::Full(back),
        };
        proof {
            if res is Pushed {
                assert(self.buffer.items@ == old(self).buffer.items@.push(git));
                assert(self.buffer.items@.subrange(0, old(self).buffer.items@.len() as int)
                    =~= old(self).buffer.items@);
                assert(self.buffer.items@.last() == git);
            }
        }
        res
    }

    /// Routes a row and pushes it as DML.
    pub fn push_row(&mut self, row_data: RowData, position: Position) -> (r: PushOutcome)
        requires
            old(self).buffer.wf(),
        ensures
            final(self).buffer.wf(),
            ({
                let routed = RowData {
                    schema: row_data.schema,
                    tb: row_data.tb,
                    ..row_data
                };
                exists|rr: RowData|
                    #![trigger Self::push_post(*old(self), *final(self), DtData::Dml { row_data: rr }, position, r)]
                    {
                        &&& rr.schema@ == old(self).router.spec_route(
                            row_data.schema@,
                            row_data.tb@,
                        ).0
                        &&& rr.tb@ == old(self).router.spec_route(row_data.schema@, row_data.tb@).1
                        &&& rr.row_type == row_data.row_type
                        &&& rr.before == row_data.before
                        &&& rr.after == row_data.after
                        &&& rr.data_size == row_data.data_size
                        &&& Self::push_post(
                            *old(self),
                            *final(self),
                            DtData::Dml { row_data: rr },
                            position,
                            r,
                        )
                    }
            }),
    {
        let row_data = self.router.route_row(row_data);
        self.push_dt_data(DtData::Dml { row_data }, position)
    }

    /// Pushes a DDL statement behind the barrier: while anything is queued
    /// the caller must drain and retry, so that the statement is applied
    /// only after every earlier event reached the sink.
    pub fn push_ddl(&mut self, ddl_data: DdlData, position: Position) -> (r: PushOutcome)
        requires
            old(self).buffer.wf(),
        ensures
            final(self).buffer.wf(),
            old(self).buffer.items@.len() > 0 ==> r is AwaitDrain && *final(self) == *old(self),
            old(self).buffer.items@.len() == 0 ==> exists|dd: DdlData|
                #![trigger Self::push_post(*old(self), *final(self), DtData::Ddl { ddl_data: dd }, position, r)]
                {
                    let (s0, t0) = (
                        if ddl_data.schema@.len() > 0 {
                            ddl_data.schema@
                        } else {
                            ddl_data.default_schema@
                        },
                        ddl_data.tb@,
                    );
                    &&& dd.schema@ == old(self).router.spec_route(s0, t0).0
                    &&& dd.tb@ == old(self).router.spec_route(s0, t0).1
                    &&& dd.query == ddl_data.query
                    &&& dd.ddl_type == ddl_data.ddl_type
                    &&& Self::push_post(
                        *old(self),
                        *final(self),
                        DtData::Ddl { ddl_data: dd },
                        position,
                        r,
                    )
                },
    {
        if !self.buffer.is_empty() {
            return PushOutcome::AwaitDrain;
        }
        let ddl_data = self.router.route_ddl(ddl_data);
        self.push_dt_data(DtData::Ddl { ddl_data }, position)
    }

    /// Pushes a DCL statement.
    pub fn push_dcl(&mut self, dcl_data: DclData, position: Position) -> (r: PushOutcome)
        requires
            old(self).buffer.wf(),
        ensures
            final(self).buffer.wf(),
            Self::push_post(
                *old(self),
                *final(self),
                DtData::Dcl { dcl_data },
                position,
                r,
            ),
    {
        self.push_dt_data(DtData::Dcl { dcl_data }, position)
    }

    /// Routes a structure statement's schema and pushes it; it carries no
    /// source position.
    pub fn push_struct(&mut self, struct_data: StructData) -> (r: PushOutcome)
        requires
            old(self).buffer.wf(),
        ensures
            final(self).buffer.wf(),
            exists|sd: StructData|
                #![trigger Self::push_post(*old(self), *final(self), DtData::Struct { struct_data: sd }, Position::Absent, r)]
                {
                    &&& sd.schema@ == (match schema_map_get(
                        old(self).router.schema_map@,
                        struct_data.schema@,
                    ) {
                        Some(s2) => s2,
                        None => struct_data.schema@,
                    })
                    &&& sd.statement == struct_data.statement
                    &&& Self::push_post(
                        *old(self),
                        *final(self),
                        DtData::Struct { struct_data: sd },
                        Position::Absent,
                        r,
                    )
                },
    {
        let struct_data = self.router.route_struct(struct_data);
        self.push_dt_data(DtData::Struct { struct_data }, Position::Absent)
    }

    /// The `WHERE` clause for a snapshot query: the filter's configured
    /// predicate, an extra condition, or both joined with `AND`.
    pub fn get_where_sql(filter: &RdbFilter, schema: &str, tb: &str, condition: &str) -> (r:
        String)
        ensures
            ({
                let conf = RdbFilter::spec_where_condition(
                    filter.where_conditions@,
                    schema@,
                    tb@,
                );
                match conf {
                    Some(c) => {
                        if condition@.len() == 0 {
                            r@ == "WHERE "@ + c
                        } else {
                            r@ == "WHERE "@ + c + " AND "@ + condition@
                        }
                    },
                    None => {
                        if condition@.len() == 0 {
                            r@ == Seq::<char>::empty()
                        } else {
                            r@ == "WHERE "@ + condition@
                        }
                    },
                }
            }),
    {
        let mut res = String::new();
        let mut have_conf = false;
        match filter.get_where_condition(schema, tb) {
            Some(where_condition) => {
                res.append("WHERE ");
                res.append(where_condition.as_str());
                have_conf = true;
            },
            None => {},
        }
        if condition.unicode_len() == 0 {
            return res;
        }
        if !have_conf {
            let mut out = String::new();
            out.append("WHERE ");
            out.append(condition);
            proof {
                assert(out@ =~= "WHERE "@ + condition@);
            }
            out
        } else {
            res.append(" AND ");
            res.append(condition);
            proof {
                let conf = RdbFilter::spec_where_condition(
                    filter.where_conditions@,
                    schema@,
                    tb@,
                );
                assert(res@ =~= "WHERE "@ + conf->Some_0 + " AND "@ + condition@);
            }
            res
        }
    }

    /// Validates the heartbeat settings: a zero interval or an empty or
    /// malformed table name disables the heartbeat (an empty list), else
    /// the `schema.tb` tokens are returned.
    pub fn precheck_heartbeat(
        &self,
        heartbeat_interval_secs: u64,
        heartbeat_tb: &str,
        escape_char: char,
    ) -> (r: Vec<String>)
        ensures
            heartbeat_interval_secs == 0 || heartbeat_tb@.len() == 0 ==> r@.len() == 0,
            heartbeat_interval_secs != 0 && heartbeat_tb@.len() > 0 ==> ({
                let tokens = split_tokens(heartbeat_tb@, '.', escape_char);
                if tokens.len() < 2 {
                    r@.len() == 0
                } else {
                    r@.map_values(|s: String| s@) == tokens
                }
            }),
    {
        if heartbeat_interval_secs == 0 || heartbeat_tb.unicode_len() == 0 {
            return Vec::new();
        }
        let schema_tb = parse_tokens(heartbeat_tb, '.', escape_char);
        if schema_tb.len() < 2 {
            return Vec::new();
        }
        schema_tb
    }

    /// Opens or closes the time window as timestamps pass its bounds.
    pub fn update_time_filter(time_filter: &mut TimeFilter, timestamp: u32)
        ensures
            final(time_filter).started == (old(time_filter).started || timestamp >= old(
                time_filter,
            ).start_timestamp),
            final(time_filter).ended == (old(time_filter).ended || timestamp >= old(
                time_filter,
            ).end_timestamp),
            final(time_filter).start_timestamp == old(time_filter).start_timestamp,
            final(time_filter).end_timestamp == old(time_filter).end_timestamp,
    {
        if !time_filter.started && timestamp >= time_filter.start_timestamp {
            time_filter.started = true;
        }
        if !time_filter.ended && timestamp >= time_filter.end_timestamp {
            time_filter.ended = true;
        }
    }

    /// Ends the task once the queue drained: sets the shut-down flag and
    /// reports completion; with events still queued it reports false and
    /// the caller drains and retries.
    pub fn wait_task_finish(&mut self) -> (r: bool)
        ensures
            r == (old(self).buffer.items@.len() == 0),
            r ==> *final(self) == (BaseExtractor { shut_down: true, ..*old(self) }),
            !r ==> *final(self) == *old(self),
    {
        if self.buffer.is_empty() {
            self.shut_down = true;
            true
        } else {
            false
        }
    }
}

} // verus!
