use ape_dts::config::{DbType, ExtractType, ParallelType, SinkType};
use ape_dts::events::RowData;
use ape_dts::marker::DataMarker;
use ape_dts::sinker::{MysqlSinker, SinkEvent, SinkPlan, SinkerState, sinker_step};
use ape_dts::util::ExtractorUtil;
use ape_dts::value::ColValue;
use ape_dts::RowType;

#[test]
fn config_words_round_trip() {
    assert_eq!(ExtractType::from_str("snapshot"), Some(ExtractType::Snapshot));
    assert_eq!(ExtractType::from_str("cdc"), Some(ExtractType::Cdc));
    assert_eq!(ExtractType::from_str("check_log"), Some(ExtractType::CheckLog));
    assert_eq!(ExtractType::from_str("struct"), Some(ExtractType::Struct));
    assert_eq!(ExtractType::from_str("nope"), None);
    assert_eq!(ExtractType::Cdc.as_str(), "cdc");
    assert_eq!(SinkType::from_str("write"), Some(SinkType::Write));
    assert_eq!(SinkType::from_str("check"), Some(SinkType::Check));
    assert_eq!(SinkType::Struct.as_str(), "struct");
    assert_eq!(SinkType::from_str("nope"), None);
    assert_eq!(ParallelType::from_str("rdb_merge"), Some(ParallelType::RdbMerge));
    assert_eq!(ParallelType::from_str("rdb_check"), Some(ParallelType::RdbCheck));
    assert_eq!(ParallelType::RdbPartition.as_str(), "rdb_partition");
    assert_eq!(ParallelType::from_str("nope"), None);
}

#[test]
fn system_schemas_are_skipped_and_sorted() {
    let dbs = vec![
        "zoo".to_string(),
        "mysql".to_string(),
        "app".to_string(),
        "performance_schema".to_string(),
        "information_schema".to_string(),
        "sys".to_string(),
    ];
    let kept = ExtractorUtil::keep_user_dbs(&DbType::Mysql, dbs);
    let kept = ape_dts::util::sort_names(kept);
    assert_eq!(kept, vec!["app".to_string(), "zoo".to_string()]);
    let dbs = vec!["pg_catalog".to_string(), "public".to_string()];
    let kept = ExtractorUtil::keep_user_dbs(&DbType::Pg, dbs);
    assert_eq!(kept, vec!["public".to_string()]);
}

#[test]
fn sort_names_orders_lexicographically() {
    let names = vec![
        "beta".to_string(),
        "alpha".to_string(),
        "alp".to_string(),
        "Zeta".to_string(),
        "alpha".to_string(),
    ];
    let sorted = ape_dts::util::sort_names(names);
    // uppercase letters order before lowercase ones by code point
    assert_eq!(
        sorted,
        vec![
            "Zeta".to_string(),
            "alp".to_string(),
            "alpha".to_string(),
            "alpha".to_string(),
            "beta".to_string(),
        ]
    );
}

#[test]
fn escape_char_per_dialect() {
    assert_eq!(DbType::Mysql.escape_char(), '`');
    assert_eq!(DbType::Pg.escape_char(), '"');
    assert_eq!(DbType::StarRocks.escape_char(), '`');
}

#[test]
fn sink_plan_follows_leading_row() {
    let insert = RowData::new(
        "s".to_string(),
        "t".to_string(),
        RowType::Insert,
        None,
        Some(vec![("id".to_string(), ColValue::LongLong(1))]),
    );
    let delete = RowData::new(
        "s".to_string(),
        "t".to_string(),
        RowType::Delete,
        Some(vec![("id".to_string(), ColValue::LongLong(1))]),
        None,
    );
    assert_eq!(MysqlSinker::sink_plan(&vec![insert.clone()], true), SinkPlan::BatchInsert);
    assert_eq!(MysqlSinker::sink_plan(&vec![delete.clone()], true), SinkPlan::BatchDelete);
    assert_eq!(MysqlSinker::sink_plan(&vec![insert], false), SinkPlan::Serial);
}

#[test]
fn data_marker_sql_text() {
    let sinker = MysqlSinker {
        batch_size: 10,
        replace: true,
        data_marker: Some(DataMarker::new(
            "ape_trans_mysql".to_string(),
            "topo1".to_string(),
            "node1".to_string(),
            "node1".to_string(),
            "node2".to_string(),
        )),
    };
    let sql = sinker.get_data_marker_sql().unwrap();
    assert_eq!(
        sql,
        "INSERT INTO `ape_trans_mysql`.`topo1`(data_origin_node, src_node, dst_node, n) \
         VALUES('node1', 'node1', 'node2', 1) ON DUPLICATE KEY UPDATE n=n+1"
            .to_string()
    );
    let bare = MysqlSinker { batch_size: 10, replace: true, data_marker: None };
    assert!(bare.get_data_marker_sql().is_none());
}

#[test]
fn batch_ranges_cover_in_chunks() {
    let sinker = MysqlSinker { batch_size: 4, replace: false, data_marker: None };
    assert_eq!(sinker.batch_ranges(10), vec![(0, 4), (4, 8), (8, 10)]);
    assert_eq!(sinker.batch_ranges(4), vec![(0, 4)]);
    assert_eq!(sinker.batch_ranges(0), vec![]);
}

#[test]
fn sinker_state_machine_falls_back_then_fails() {
    let s = sinker_step(SinkerState::Idle, SinkEvent::BatchStart);
    assert_eq!(s, SinkerState::Writing);
    let s = sinker_step(s, SinkEvent::BatchFailed);
    assert_eq!(s, SinkerState::FallbackSerial);
    let committed = sinker_step(s, SinkEvent::SerialOk);
    assert_eq!(committed, SinkerState::Committed);
    let failed = sinker_step(SinkerState::FallbackSerial, SinkEvent::SerialFailed);
    assert_eq!(failed, SinkerState::Failed);
    // failure is terminal
    assert_eq!(sinker_step(failed, SinkEvent::BatchStart), SinkerState::Failed);
    assert_eq!(sinker_step(failed, SinkEvent::BatchOk), SinkerState::Failed);
}

#[test]
fn row_kind_words() {
    assert_eq!(RowType::Insert.as_str(), "insert");
    assert_eq!(RowType::Update.as_str(), "update");
    assert_eq!(RowType::Delete.as_str(), "delete");
}
