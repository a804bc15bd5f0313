use ape_dts::precheck::{CheckItem, MySqlPrechecker};

fn source_checker() -> MySqlPrechecker {
    MySqlPrechecker { is_source: true, do_struct_init: false }
}

#[test]
fn version_check_accepts_supported_majors() {
    let checker = source_checker();
    let r = checker.check_database_version("8.0.32");
    assert_eq!(r.item, CheckItem::CheckDatabaseVersionSupported);
    assert!(r.error.is_none());
    let r = checker.check_database_version("5.7.44-log");
    assert!(r.error.is_none());
}

#[test]
fn version_check_rejects_empty_and_unsupported() {
    let checker = source_checker();
    let r = checker.check_database_version("");
    assert_eq!(r.error, Some("found no version info.".to_string()));
    let r = checker.check_database_version("9-beta");
    assert_eq!(r.error, Some("mysql version:[9-beta] is invalid.".to_string()));
}

#[test]
fn cdc_check_passes_on_good_settings() {
    let checker = source_checker();
    let configs = vec![
        ("log_bin".to_string(), "ON".to_string()),
        ("binlog_format".to_string(), "ROW".to_string()),
        ("binlog_row_image".to_string(), "FULL".to_string()),
    ];
    let r = checker.check_cdc_supported(&configs).unwrap();
    assert!(r.error.is_none());
}

#[test]
fn cdc_check_reports_each_bad_setting() {
    let checker = source_checker();
    let configs = vec![
        ("log_bin".to_string(), "OFF".to_string()),
        ("binlog_format".to_string(), "STATEMENT".to_string()),
    ];
    let r = checker.check_cdc_supported(&configs).unwrap();
    assert_eq!(
        r.error,
        Some(
            "log_bin setting:[off] is not 'on'.;binlog_format setting:[statement] is not 'row'."
                .to_string()
        )
    );
}

#[test]
fn cdc_check_rejects_unknown_keys_and_skips_sinks() {
    let checker = source_checker();
    let configs = vec![("mystery".to_string(), "x".to_string())];
    assert!(checker.check_cdc_supported(&configs).is_err());
    let sink = MySqlPrechecker { is_source: false, do_struct_init: false };
    let r = sink.check_cdc_supported(&configs).unwrap();
    assert!(r.error.is_none());
}

#[test]
fn struct_existed_check_lists_missing_names() {
    let checker = source_checker();
    let r = checker.check_struct_existed_or_not(
        &vec!["db1.t1".to_string(), "db1.t2".to_string()],
        &vec!["db1".to_string(), "db9".to_string()],
        &vec!["db1.t1".to_string()],
        &vec!["db1".to_string()],
    );
    assert_eq!(
        r.error,
        Some("tables not existed: [db1.t2].databases not existed: [db9]".to_string())
    );
    let r = checker.check_struct_existed_or_not(
        &vec!["db1.t1".to_string()],
        &vec!["db1".to_string()],
        &vec!["db1.t1".to_string()],
        &vec!["db1".to_string()],
    );
    assert!(r.error.is_none());
}

#[test]
fn struct_existed_check_skips_initialized_sinks() {
    let sink = MySqlPrechecker { is_source: false, do_struct_init: true };
    let r = sink.check_struct_existed_or_not(
        &vec!["db1.t1".to_string()],
        &vec![],
        &vec![],
        &vec![],
    );
    assert!(r.error.is_none());
}

#[test]
fn table_structs_check_warns_and_errors() {
    let checker = source_checker();
    // (table, constraint kind, referenced table, reference filtered out)
    let constraints = vec![
        ("db1.t1".to_string(), "PRIMARY KEY".to_string(), String::new(), false),
        ("db1.t2".to_string(), "FOREIGN KEY".to_string(), "db1.gone".to_string(), true),
    ];
    let tables = vec!["db1.t1".to_string(), "db1.t2".to_string(), "db1.t3".to_string()];
    let r = checker.check_table_structs(&constraints, &tables);
    assert_eq!(
        r.error,
        Some(
            "the following foreign key dependent tables are not defined in the replication object:[db1.gone]"
                .to_string()
        )
    );
    assert_eq!(
        r.warning,
        Some(
            "primary key or unique key are needed, but these tables don't have any:[db1.t2;db1.t3]"
                .to_string()
        )
    );
}
