use ape_dts::events::{DclData, DdlData, DdlType, DtData, Position, RowData};
use ape_dts::extractor::{BaseExtractor, ExtractorCounters, PushOutcome, TimeFilter};
use ape_dts::filter::RdbFilter;
use ape_dts::marker::DataMarker;
use ape_dts::parallel::SerialParallelizer;
use ape_dts::queue::DtQueue;
use ape_dts::router::RdbRouter;
use ape_dts::value::ColValue;
use ape_dts::RowType;

fn insert_row(schema: &str, tb: &str, id: i64, v: &str, size: usize) -> RowData {
    let mut row = RowData::new(
        schema.to_string(),
        tb.to_string(),
        RowType::Insert,
        None,
        Some(vec![
            ("id".to_string(), ColValue::LongLong(id)),
            ("v".to_string(), ColValue::String(v.to_string())),
        ]),
    );
    row.data_size = size;
    row
}

fn plain_extractor(queue_items: usize, queue_bytes: usize) -> BaseExtractor {
    BaseExtractor {
        buffer: DtQueue::new(queue_items, queue_bytes),
        router: RdbRouter { schema_map: vec![], tb_map: vec![] },
        shut_down: false,
        counters: ExtractorCounters { record_count: 0, data_size: 0 },
        data_marker: None,
        time_filter: TimeFilter::always_open(),
    }
}

#[test]
fn snapshot_rows_pass_through_queue_in_order() {
    // a snapshot copy: three rows pushed, drained in batches of two,
    // every row arrives exactly once
    let mut ex = plain_extractor(16, 1 << 20);
    for (id, v) in [(1, "a"), (2, "b"), (3, "c")] {
        let row = insert_row("db1", "t", id, v, 8);
        let outcome = ex.push_row(row, Position::Absent);
        assert!(matches!(outcome, PushOutcome::Pushed));
    }
    let parallelizer = SerialParallelizer { buffer_size: 2, buffer_bytes: 1 << 20 };
    let batch1 = parallelizer.drain(&mut ex.buffer);
    let batch2 = parallelizer.drain(&mut ex.buffer);
    assert_eq!(batch1.len(), 2);
    assert_eq!(batch2.len(), 1);
    assert!(ex.buffer.is_empty());
    let mut seen = vec![];
    for item in batch1.into_iter().chain(batch2.into_iter()) {
        match item.dt_data {
            DtData::Dml { row_data } => seen.push(row_data),
            _ => panic!("expected dml"),
        }
    }
    assert_eq!(seen[0], insert_row("db1", "t", 1, "a", 8));
    assert_eq!(seen[1], insert_row("db1", "t", 2, "b", 8));
    assert_eq!(seen[2], insert_row("db1", "t", 3, "c", 8));
}

#[test]
fn queue_respects_both_capacities() {
    let mut q = DtQueue::new(2, 100);
    let item = |size| ape_dts::events::DtItem {
        dt_data: DtData::Dml { row_data: insert_row("s", "t", 1, "x", size) },
        position: Position::Absent,
        data_origin_node: String::new(),
    };
    assert!(q.try_push(item(60)).is_ok());
    // byte capacity refuses the second
    assert!(q.try_push(item(60)).is_err());
    assert!(q.try_push(item(40)).is_ok());
    // item capacity refuses the third
    assert!(q.try_push(item(1)).is_err());
    assert_eq!(q.len(), 2);
    // draining with a byte budget takes the first item even when oversized
    let batch = q.pop_batch(10, 10);
    assert_eq!(batch.len(), 1);
    let batch = q.pop_batch(10, 1 << 20);
    assert_eq!(batch.len(), 1);
    assert!(q.is_empty());
}

#[test]
fn data_marker_loop_drop() {
    // a loopback transaction: Begin, the marker row update, a user row,
    // Commit; nothing after the Begin is enqueued
    let mut ex = plain_extractor(16, 1 << 20);
    ex.data_marker = Some(DataMarker::new(
        "ape_trans_mysql".to_string(),
        "topo1".to_string(),
        "node1".to_string(),
        "node1".to_string(),
        "node2".to_string(),
    ));
    assert!(matches!(ex.push_dt_data(DtData::Begin, Position::Absent), PushOutcome::Pushed));
    let mut marker_row = RowData::new(
        "ape_trans_mysql".to_string(),
        "topo1".to_string(),
        RowType::Update,
        Some(vec![("n".to_string(), ColValue::LongLong(1))]),
        Some(vec![("n".to_string(), ColValue::LongLong(2))]),
    );
    marker_row.data_size = 4;
    assert!(matches!(ex.push_row(marker_row, Position::Absent), PushOutcome::Filtered));
    let user_row = insert_row("user_db", "user_tb", 3, "x", 4);
    assert!(matches!(ex.push_row(user_row, Position::Absent), PushOutcome::Filtered));
    assert!(matches!(ex.push_dt_data(DtData::Commit, Position::Absent), PushOutcome::Filtered));
    assert_eq!(ex.buffer.len(), 1);
}

#[test]
fn data_marker_ordinary_transaction_passes() {
    let mut ex = plain_extractor(16, 1 << 20);
    ex.data_marker = Some(DataMarker::new(
        "mk".to_string(),
        "topo".to_string(),
        "node1".to_string(),
        "node1".to_string(),
        "node2".to_string(),
    ));
    assert!(matches!(ex.push_dt_data(DtData::Begin, Position::Absent), PushOutcome::Pushed));
    let user_row = insert_row("user_db", "user_tb", 3, "x", 4);
    assert!(matches!(ex.push_row(user_row, Position::Absent), PushOutcome::Pushed));
    assert!(matches!(ex.push_dt_data(DtData::Commit, Position::Absent), PushOutcome::Pushed));
    assert_eq!(ex.buffer.len(), 3);
}

#[test]
fn ddl_waits_for_queue_drain() {
    // the barrier: pending DML holds the DDL back until the queue is empty
    let mut ex = plain_extractor(256, 1 << 20);
    for i in 0..100 {
        let row = insert_row("db1", "t", i, "x", 1);
        assert!(matches!(ex.push_row(row, Position::Absent), PushOutcome::Pushed));
    }
    let ddl = DdlData {
        default_schema: "db1".to_string(),
        schema: String::new(),
        tb: "t2".to_string(),
        query: "CREATE TABLE t2(id int)".to_string(),
        ddl_type: DdlType::CreateTable,
    };
    assert!(matches!(
        ex.push_ddl(ddl.clone(), Position::Absent),
        PushOutcome::AwaitDrain
    ));
    assert_eq!(ex.buffer.len(), 100);
    let drained = ex.buffer.pop_batch(1000, usize::MAX);
    assert_eq!(drained.len(), 100);
    assert!(matches!(ex.push_ddl(ddl, Position::Absent), PushOutcome::Pushed));
    assert_eq!(ex.buffer.len(), 1);
}

#[test]
fn time_filter_drops_until_started() {
    let mut ex = plain_extractor(16, 1 << 20);
    ex.time_filter = TimeFilter {
        started: false,
        ended: false,
        start_timestamp: 100,
        end_timestamp: u32::MAX,
    };
    let row = insert_row("db1", "t", 1, "a", 1);
    assert!(matches!(ex.push_row(row, Position::Absent), PushOutcome::Filtered));
    BaseExtractor::update_time_filter(&mut ex.time_filter, 99);
    assert!(!ex.time_filter.started);
    BaseExtractor::update_time_filter(&mut ex.time_filter, 100);
    assert!(ex.time_filter.started && !ex.time_filter.ended);
    let row = insert_row("db1", "t", 1, "a", 1);
    assert!(matches!(ex.push_row(row, Position::Absent), PushOutcome::Pushed));
}

#[test]
fn full_queue_hands_the_item_back() {
    let mut ex = plain_extractor(1, 1 << 20);
    let row = insert_row("db1", "t", 1, "a", 1);
    assert!(matches!(ex.push_row(row, Position::Absent), PushOutcome::Pushed));
    let row = insert_row("db1", "t", 2, "b", 1);
    match ex.push_row(row, Position::Absent) {
        PushOutcome::Full(item) => match item.dt_data {
            DtData::Dml { row_data } => assert_eq!(row_data.tb, "t".to_string()),
            _ => panic!("expected dml"),
        },
        _ => panic!("expected a full queue"),
    }
}

#[test]
fn wait_task_finish_sets_shut_down_once_drained() {
    let mut ex = plain_extractor(4, 1 << 20);
    let row = insert_row("db1", "t", 1, "a", 1);
    assert!(matches!(ex.push_row(row, Position::Absent), PushOutcome::Pushed));
    assert!(!ex.wait_task_finish());
    assert!(!ex.shut_down);
    ex.buffer.pop_batch(10, usize::MAX);
    assert!(ex.wait_task_finish());
    assert!(ex.shut_down);
}

#[test]
fn router_renames_and_is_idempotent_on_routed_rows() {
    let router = RdbRouter {
        schema_map: vec![("src_db".to_string(), "dst_db".to_string())],
        tb_map: vec![(
            ("src_db".to_string(), "t1".to_string()),
            ("dst_db".to_string(), "t1_new".to_string()),
        )],
    };
    let (s, t) = router.route("src_db", "t1");
    assert_eq!((s.as_str(), t.as_str()), ("dst_db", "t1_new"));
    let (s, t) = router.route("src_db", "other");
    assert_eq!((s.as_str(), t.as_str()), ("dst_db", "other"));
    let (s, t) = router.route("elsewhere", "t1");
    assert_eq!((s.as_str(), t.as_str()), ("elsewhere", "t1"));
    // already-routed pairs stay put
    let (s2, t2) = router.route(s.as_str(), t.as_str());
    assert_eq!((s2, t2), (s, t));
}

#[test]
fn filter_deny_dominates_allow_and_is_idempotent() {
    let filter = RdbFilter {
        do_dbs: vec!["db1".to_string()],
        ignore_dbs: vec![],
        do_tbs: vec![],
        ignore_tbs: vec![("db1".to_string(), "secret".to_string())],
        where_conditions: vec![],
    };
    assert!(!filter.filter_tb("db1", "t"));
    assert!(filter.filter_tb("db1", "secret"));
    assert!(filter.filter_tb("db2", "t"));
    let rows = vec![
        insert_row("db1", "t", 1, "a", 1),
        insert_row("db1", "secret", 2, "b", 1),
        insert_row("db2", "t", 3, "c", 1),
    ];
    let kept = filter.filter_rows(rows);
    assert_eq!(kept.len(), 1);
    assert_eq!(kept[0].tb, "t".to_string());
    // filtering what was already filtered drops nothing more
    let again = filter.filter_rows(kept.clone());
    assert_eq!(again, kept);
}

#[test]
fn where_sql_combines_predicates() {
    let filter = RdbFilter {
        do_dbs: vec![],
        ignore_dbs: vec![],
        do_tbs: vec![],
        ignore_tbs: vec![],
        where_conditions: vec![(
            "db1".to_string(),
            "t".to_string(),
            "id > 10".to_string(),
        )],
    };
    assert_eq!(
        BaseExtractor::get_where_sql(&filter, "db1", "t", ""),
        "WHERE id > 10".to_string()
    );
    assert_eq!(
        BaseExtractor::get_where_sql(&filter, "db1", "t", "id < 99"),
        "WHERE id > 10 AND id < 99".to_string()
    );
    assert_eq!(
        BaseExtractor::get_where_sql(&filter, "db1", "other", "id < 99"),
        "WHERE id < 99".to_string()
    );
    assert_eq!(BaseExtractor::get_where_sql(&filter, "db1", "other", ""), String::new());
}

#[test]
fn precheck_heartbeat_parses_schema_tb() {
    let ex = plain_extractor(4, 1024);
    let tokens = ex.precheck_heartbeat(5, "my_db.my_tb", '`');
    assert_eq!(tokens, vec!["my_db".to_string(), "my_tb".to_string()]);
    let tokens = ex.precheck_heartbeat(5, "`a.b`.`c.d`", '`');
    assert_eq!(tokens, vec!["`a.b`".to_string(), "`c.d`".to_string()]);
    assert!(ex.precheck_heartbeat(0, "my_db.my_tb", '`').is_empty());
    assert!(ex.precheck_heartbeat(5, "", '`').is_empty());
    assert!(ex.precheck_heartbeat(5, "no_dot_here", '`').is_empty());
}

#[test]
fn dcl_and_heartbeat_pass_through() {
    let mut ex = plain_extractor(8, 1 << 20);
    let dcl = DclData { query: "GRANT SELECT ON db1.* TO u1".to_string() };
    assert!(matches!(ex.push_dcl(dcl, Position::Absent), PushOutcome::Pushed));
    assert!(matches!(
        ex.push_dt_data(DtData::Heartbeat, Position::Absent),
        PushOutcome::Pushed
    ));
    assert_eq!(ex.buffer.len(), 2);
    assert_eq!(ex.counters.record_count, 2);
}

#[test]
fn struct_statements_are_routed() {
    let mut ex = plain_extractor(8, 1 << 20);
    ex.router = RdbRouter {
        schema_map: vec![("src_db".to_string(), "dst_db".to_string())],
        tb_map: vec![],
    };
    let outcome = ex.push_struct(ape_dts::events::StructData {
        schema: "src_db".to_string(),
        statement: "CREATE TABLE t(id int)".to_string(),
    });
    assert!(matches!(outcome, PushOutcome::Pushed));
    let items = ex.buffer.pop_batch(10, usize::MAX);
    match &items[0].dt_data {
        DtData::Struct { struct_data } => {
            assert_eq!(struct_data.schema, "dst_db".to_string());
            assert_eq!(struct_data.statement, "CREATE TABLE t(id int)".to_string());
        },
        _ => panic!("expected a structure statement"),
    }
}
