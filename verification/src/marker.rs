//! The data-marker protocol that recognizes and drops loopback writes in
//! multi-directional topologies.

use vstd::prelude::*;
use crate::events::DtData;
use crate::text::str_eq;

verus! {

/// The marker configuration and its per-transaction state. `reseted` is
/// true between a transaction boundary and the first data event after it;
/// `filter` is true while the current transaction is a recognized loopback.
#[derive(Clone, PartialEq, Eq, Debug)]
pub struct DataMarker {
    pub marker_schema: String,
    pub marker_tb: String,
    pub data_origin_node: String,
    pub src_node: String,
    pub dst_node: String,
    pub filter: bool,
    pub reseted: bool,
}

/// Whether a table pair names the marker table.
pub open spec fn spec_is_rdb_marker_info(
    m: DataMarker,
    schema: Seq<char>,
    tb: Seq<char>,
) -> bool {
    schema == m.marker_schema@ && tb == m.marker_tb@
}

/// Whether an event is a write to the marker table.
pub open spec fn spec_is_marker_info(m: DataMarker, d: DtData) -> bool {
    match d {
        DtData::Dml { row_data } => spec_is_rdb_marker_info(m, row_data.schema@, row_data.tb@),
        _ => false,
    }
}

/// One step of the marker state machine: the state after seeing an event,
/// and whether that event is dropped. A transaction boundary arms the
/// marker test; the first data event after it either recognizes a marker
/// write (the whole transaction is then filtered, the marker row included)
/// or clears the filter for the rest of the transaction.
pub open spec fn marker_step(m: DataMarker, d: DtData) -> (DataMarker, bool) {
    if d.spec_is_begin() || d.spec_is_commit() {
        let m2 = DataMarker { reseted: true, ..m };
        (m2, m2.filter)
    } else if m.reseted {
        if spec_is_marker_info(m, d) {
            (DataMarker { filter: true, reseted: false, ..m }, true)
        } else {
            (DataMarker { filter: false, reseted: false, ..m }, false)
        }
    } else {
        (m, m.filter)
    }
}

/// The marker state before event `i` of a run that starts in state `m`.
pub open spec fn marker_run(m: DataMarker, evs: Seq<DtData>, i: int) -> DataMarker
    decreases i,
{
    if i <= 0 {
        m
    } else {
        marker_step(marker_run(m, evs, i - 1), evs[i - 1]).0
    }
}

impl DataMarker {
    /// A fresh marker: armed for the first transaction, filtering nothing.
    pub fn new(
        marker_schema: String,
        marker_tb: String,
        data_origin_node: String,
        src_node: String,
        dst_node: String,
    ) -> (r: DataMarker)
        ensures
            r.marker_schema == marker_schema && r.marker_tb == marker_tb,
            r.data_origin_node == data_origin_node,
            r.src_node == src_node && r.dst_node == dst_node,
            !r.filter && r.reseted,
    {
        DataMarker {
            marker_schema,
            marker_tb,
            data_origin_node,
            src_node,
            dst_node,
            filter: false,
            reseted: true,
        }
    }

    /// Whether the table pair names the marker table.
    pub fn is_rdb_marker_info(&self, schema: &str, tb: &str) -> (r: bool)
        ensures
            r == spec_is_rdb_marker_info(*self, schema@, tb@),
    {
        str_eq(schema, self.marker_schema.as_str()) && str_eq(tb, self.marker_tb.as_str())
    }

    /// Whether the event is a write to the marker table.
    pub fn is_marker_info(&self, dt_data: &DtData) -> (r: bool)
        ensures
            r == spec_is_marker_info(*self, *dt_data),
    {
        match dt_data {
            DtData::Dml { row_data } => self.is_rdb_marker_info(
                row_data.schema.as_str(),
                row_data.tb.as_str(),
            ),
            _ => false,
        }
    }

    /// Arms the marker test for the next transaction.
    pub fn reset(&mut self)
        ensures
            *final(self) == (DataMarker { reseted: true, ..*old(self) }),
    {
        self.reseted = true;
    }
}

proof fn lemma_marker_stays_filtering(m: DataMarker, evs: Seq<DtData>, i: int)
    requires
        m.filter,
        !m.reseted,
        0 <= i <= evs.len(),
        forall|j: int|
            0 <= j < evs.len() ==> !(#[trigger] evs[j]).spec_is_begin() && !evs[j].spec_is_commit(),
    ensures
        marker_run(m, evs, i).filter,
        !marker_run(m, evs, i).reseted,
        marker_run(m, evs, i) == m,
    decreases i,
{
    if i > 0 {
        lemma_marker_stays_filtering(m, evs, i - 1);
    }
}

/// Data-marker soundness: from an armed state, if the first data event of a
/// transaction is a write to the marker table, then that event and every
/// further event before the next transaction boundary is dropped — no data
/// of the transaction passes.
pub proof fn lemma_marker_filters_transaction(m: DataMarker, evs: Seq<DtData>)
    requires
        m.reseted,
        evs.len() > 0,
        spec_is_marker_info(m, evs[0]),
        forall|j: int|
            0 <= j < evs.len() ==> !(#[trigger] evs[j]).spec_is_begin() && !evs[j].spec_is_commit(),
    ensures
        forall|i: int|
            0 <= i < evs.len() ==> (#[trigger] marker_step(marker_run(m, evs, i), evs[i]).1)
                == true,
{
    let m1 = marker_step(m, evs[0]).0;
    assert(m1.filter && !m1.reseted);
    assert(marker_run(m, evs, 0) == m);
    assert forall|i: int| 0 <= i < evs.len() implies (#[trigger] marker_step(
        marker_run(m, evs, i),
        evs[i],
    ).1) == true by {
        if i > 0 {
            let rest = evs.subrange(1, evs.len() as int);
            lemma_marker_run_shift(m, evs, i);
            lemma_marker_stays_filtering(m1, rest, i - 1);
            assert(marker_run(m, evs, i) == m1);
        }
    }
}

proof fn lemma_marker_run_shift(m: DataMarker, evs: Seq<DtData>, i: int)
    requires
        1 <= i <= evs.len(),
    ensures
        marker_run(m, evs, i) == marker_run(
            marker_step(m, evs[0]).0,
            evs.subrange(1, evs.len() as int),
            i - 1,
        ),
    decreases i,
{
    let m1 = marker_step(m, evs[0]).0;
    let rest = evs.subrange(1, evs.len() as int);
    if i == 1 {
        assert(marker_run(m, evs, 1) == marker_step(marker_run(m, evs, 0), evs[0]).0);
        assert(marker_run(m, evs, 0) == m);
        assert(marker_run(m1, rest, 0) == m1);
    } else {
        lemma_marker_run_shift(m, evs, i - 1);
        assert(rest[i - 2] == evs[i - 1]);
        assert(marker_run(m, evs, i) == marker_step(marker_run(m, evs, i - 1), evs[i - 1]).0);
        assert(marker_run(m1, rest, i - 1) == marker_step(marker_run(m1, rest, i - 2), rest[i
            - 2]).0);
    }
}

} // verus!
