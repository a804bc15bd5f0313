use ape_dts::filter::RdbFilter;
use ape_dts::pg_struct::{IndexKind, PgStructFetcher};

#[test]
fn get_sequence_name_by_default_value_test() {
    let default_values = [
        r#"('"aaaaaaadefdfd.dsds::er3\ddd"'::regclass)"#,
        r#"nextval('aaaaaaaaaa'::regclass)"#,
        r#"nextval('public.aaaaaaaaaa'::regclass)"#,
        r#"nextval('"aaaaaaadefdfd.dsds::er3\ddd"'::regclass)"#,
        r#"nextval('public."aaaaaaadefdfd.dsds::er3\ddd"'::regclass)"#,
        r#"nextval('"ddddd.ddddddds**"."aaaaaaadefdfd.dsds::er3\ddd"'::regclass)"#,
        r#"nextval('"aaaaaaadefdfd.dsds::er3\ddd"')"#,
        r#"nextval('public."aaaaaaadefdfd.dsds::er3\ddd"')"#,
        r#"nextval('"ddddd.ddddddds**"."aaaaaaadefdfd.dsds::er3\ddd"')"#,
    ];

    let expect_sequences = vec![
        ("", ""),
        ("", "aaaaaaaaaa"),
        ("public", "aaaaaaaaaa"),
        ("", r#"aaaaaaadefdfd.dsds::er3\ddd"#),
        ("public", r#"aaaaaaadefdfd.dsds::er3\ddd"#),
        ("ddddd.ddddddds**", r#"aaaaaaadefdfd.dsds::er3\ddd"#),
        ("", r#"aaaaaaadefdfd.dsds::er3\ddd"#),
        ("public", r#"aaaaaaadefdfd.dsds::er3\ddd"#),
        ("ddddd.ddddddds**", r#"aaaaaaadefdfd.dsds::er3\ddd"#),
    ];

    for i in 0..default_values.len() {
        let (schema, sequence) =
            PgStructFetcher::get_sequence_name_by_default_value(default_values[i]);
        assert_eq!((schema.as_str(), sequence.as_str()), expect_sequences[i]);
    }
}

#[test]
fn index_kind_recognizes_unique() {
    let fetcher = PgStructFetcher { schema: "public".to_string(), filter: None };
    assert_eq!(
        fetcher.get_index_kind("CREATE UNIQUE INDEX idx ON t(id)"),
        IndexKind::Unique
    );
    assert_eq!(fetcher.get_index_kind("CREATE INDEX idx ON t(id)"), IndexKind::Unknown);
}

#[test]
fn col_generation_rule() {
    let r = PgStructFetcher::get_col_generation_rule(
        Some("YES".to_string()),
        Some("ALWAYS".to_string()),
    );
    assert_eq!(r, Some("ALWAYS".to_string()));
    let r = PgStructFetcher::get_col_generation_rule(
        Some("no".to_string()),
        Some("ALWAYS".to_string()),
    );
    assert_eq!(r, None);
    let r = PgStructFetcher::get_col_generation_rule(Some("yes".to_string()), None);
    assert_eq!(r, None);
}

#[test]
fn struct_fetcher_honors_filter() {
    let fetcher = PgStructFetcher {
        schema: "public".to_string(),
        filter: Some(RdbFilter {
            do_dbs: vec![],
            ignore_dbs: vec![],
            do_tbs: vec![],
            ignore_tbs: vec![("public".to_string(), "skipme".to_string())],
            where_conditions: vec![],
        }),
    };
    assert!(fetcher.filter_tb("skipme"));
    assert!(!fetcher.filter_tb("keepme"));
}

#[test]
fn independent_sequences_from_defaults() {
    let fetcher = PgStructFetcher { schema: "public".to_string(), filter: None };
    let defaults = vec![
        "nextval('seq_a'::regclass)".to_string(),
        "nextval('public.seq_b'::regclass)".to_string(),
        "nextval('other_schema.seq_c'::regclass)".to_string(),
        "'Standard'::text".to_string(),
        "nextval('seq_owned'::regclass)".to_string(),
        "nextval('seq_a'::regclass)".to_string(),
    ];
    let owned = vec!["seq_owned".to_string()];
    let names = fetcher.independent_sequence_defaults(&defaults, &owned);
    assert_eq!(
        names,
        vec![
            "nextval('seq_a'::regclass)".to_string(),
            "nextval('public.seq_b'::regclass)".to_string(),
        ]
    );
}
