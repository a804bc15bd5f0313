use ape_dts::codec::{query_fetch_kind, BinlogColumnValue, FetchKind, MysqlColValueConvertor};
use ape_dts::config::DbType;
use ape_dts::value::{ColValue, MysqlColType};

#[test]
fn parse_time_with_fraction() {
    // 13:14:15.456 encoded as length 12 with a microsecond fraction
    let buf = vec![12, 0, 0, 0, 0, 0, 13, 14, 15, 64, 245, 6, 0];
    let r = MysqlColValueConvertor::parse_time(buf).unwrap();
    assert_eq!(r, ColValue::Time("13:14:15.456".to_string()));
}

#[test]
fn parse_time_negative_with_day_overflow() {
    // -838:59:59 encoded as length 8, negative, 34 days plus 22 hours
    let buf = vec![8, 1, 34, 0, 0, 0, 22, 59, 59];
    let r = MysqlColValueConvertor::parse_time(buf).unwrap();
    assert_eq!(r, ColValue::Time("-838:59:59".to_string()));
}

#[test]
fn parse_time_empty_value() {
    let buf = vec![0];
    let r = MysqlColValueConvertor::parse_time(buf).unwrap();
    assert_eq!(r, ColValue::Time("00:00:00".to_string()));
}

#[test]
fn parse_time_truncated_buffer_is_error() {
    let buf = vec![8, 1, 34, 0];
    assert!(MysqlColValueConvertor::parse_time(buf).is_err());
}

#[test]
fn parse_date_renders_canonical_format() {
    // 2023-11-14: length 4, year 2023 little endian, month, day
    let buf = vec![4, 0xe7, 0x07, 11, 14];
    let r = MysqlColValueConvertor::parse_date(buf).unwrap();
    assert_eq!(r, ColValue::Date("2023-11-14".to_string()));
}

#[test]
fn parse_datetime_with_and_without_fraction() {
    let buf = vec![7, 0xe7, 0x07, 11, 14, 22, 13, 20];
    let r = MysqlColValueConvertor::parse_datetime(buf).unwrap();
    assert_eq!(r, ColValue::DateTime("2023-11-14 22:13:20".to_string()));

    // with a 3-byte fraction of 456000 microseconds
    let buf = vec![10, 0xe7, 0x07, 11, 14, 22, 13, 20, 0x40, 0xf5, 0x06];
    let r = MysqlColValueConvertor::parse_datetime(buf).unwrap();
    assert_eq!(r, ColValue::DateTime("2023-11-14 22:13:20.456".to_string()));
}

#[test]
fn timestamp_gains_timezone_offset() {
    // 28800 seconds shift the rendered text eight hours ahead of the
    // stored instant
    let col_type = MysqlColType::Timestamp { timezone_offset: 28800 };
    let r = MysqlColValueConvertor::from_binlog(
        &col_type,
        BinlogColumnValue::Timestamp(1_699_971_200_000_000),
    )
    .unwrap();
    assert_eq!(r, ColValue::Timestamp("2023-11-14 22:13:20".to_string()));
}

#[test]
fn timestamp_without_offset_stays_utc() {
    let col_type = MysqlColType::Timestamp { timezone_offset: 0 };
    let r = MysqlColValueConvertor::from_binlog(
        &col_type,
        BinlogColumnValue::Timestamp(1_700_000_000_000_000),
    )
    .unwrap();
    assert_eq!(r, ColValue::Timestamp("2023-11-14 22:13:20".to_string()));
}

#[test]
fn from_binlog_integer_signedness() {
    let r = MysqlColValueConvertor::from_binlog(&MysqlColType::UnsignedTiny, BinlogColumnValue::Tiny(-1))
        .unwrap();
    assert_eq!(r, ColValue::UnsignedTiny(255));
    let r = MysqlColValueConvertor::from_binlog(&MysqlColType::Tiny, BinlogColumnValue::Tiny(-1))
        .unwrap();
    assert_eq!(r, ColValue::Tiny(-1));
    // a negative 24-bit image masks to its unsigned 24-bit value
    let r = MysqlColValueConvertor::from_binlog(
        &MysqlColType::UnsignedMedium,
        BinlogColumnValue::Long(-1),
    )
    .unwrap();
    assert_eq!(r, ColValue::UnsignedLong(0xff_ffff));
}

#[test]
fn from_binlog_binary_padding() {
    let col_type = MysqlColType::Binary { length: 5 };
    let r = MysqlColValueConvertor::from_binlog(
        &col_type,
        BinlogColumnValue::String(vec![1, 2, 3]),
    )
    .unwrap();
    assert_eq!(r, ColValue::Blob(vec![1, 2, 3, 0, 0]));
    let col_type = MysqlColType::VarBinary { length: 5 };
    let r = MysqlColValueConvertor::from_binlog(
        &col_type,
        BinlogColumnValue::String(vec![1, 2, 3]),
    )
    .unwrap();
    assert_eq!(r, ColValue::Blob(vec![1, 2, 3]));
}

#[test]
fn from_binlog_set_members_in_bit_order() {
    let items = vec![
        (1u64, "a".to_string()),
        (2u64, "b".to_string()),
        (4u64, "c".to_string()),
    ];
    let col_type = MysqlColType::MemberSet { items };
    let r = MysqlColValueConvertor::from_binlog(&col_type, BinlogColumnValue::SetBits(5)).unwrap();
    assert_eq!(r, ColValue::Set2("a,c".to_string()));
    let col_type = MysqlColType::MemberSet { items: vec![(1u64, "a".to_string())] };
    let r = MysqlColValueConvertor::from_binlog(&col_type, BinlogColumnValue::SetBits(0)).unwrap();
    assert_eq!(r, ColValue::Set2(String::new()));
}

#[test]
fn from_binlog_enum_lookup() {
    let items = vec![(1u32, "red".to_string()), (2u32, "green".to_string())];
    let col_type = MysqlColType::Enum { items: items.clone() };
    let r = MysqlColValueConvertor::from_binlog(&col_type, BinlogColumnValue::Enum(2)).unwrap();
    assert_eq!(r, ColValue::Enum2("green".to_string()));
    let col_type = MysqlColType::Enum { items };
    let r = MysqlColValueConvertor::from_binlog(&col_type, BinlogColumnValue::Enum(9)).unwrap();
    assert_eq!(r, ColValue::Null);
}

#[test]
fn from_binlog_json_text_carries_over() {
    // the image arrives already decoded to text at the runtime edge
    let text = "{\"a\": 1}";
    let r = MysqlColValueConvertor::from_binlog(
        &MysqlColType::Json,
        BinlogColumnValue::Json(text.to_string()),
    )
    .unwrap();
    assert_eq!(r, ColValue::Json2(text.to_string()));
}

#[test]
fn fixed_width_round_trip() {
    let cases = vec![
        (MysqlColType::Tiny, BinlogColumnValue::Tiny(-100)),
        (MysqlColType::UnsignedTiny, BinlogColumnValue::Tiny(-1)),
        (MysqlColType::Short, BinlogColumnValue::Short(-12345)),
        (MysqlColType::UnsignedShort, BinlogColumnValue::Short(-1)),
        (MysqlColType::Long, BinlogColumnValue::Long(-123456)),
        (MysqlColType::UnsignedLong, BinlogColumnValue::Long(-1)),
        (MysqlColType::UnsignedMedium, BinlogColumnValue::Long(-1)),
        (MysqlColType::UnsignedMedium, BinlogColumnValue::Long(0x7f_ffff)),
        (MysqlColType::LongLong, BinlogColumnValue::LongLong(i64::MIN)),
        (MysqlColType::UnsignedLongLong, BinlogColumnValue::LongLong(-1)),
        (MysqlColType::Year, BinlogColumnValue::Year(2023)),
        (MysqlColType::Bit, BinlogColumnValue::Bit(0xdead_beef)),
    ];
    for (col_type, image) in cases {
        let decoded = MysqlColValueConvertor::from_binlog(&col_type, image.clone()).unwrap();
        let back = MysqlColValueConvertor::to_binlog(&col_type, &decoded).unwrap();
        assert_eq!(back, image);
    }
}

#[test]
fn from_str_integers_and_ranges() {
    let r = MysqlColValueConvertor::from_str(&MysqlColType::Tiny, "-128").unwrap();
    assert_eq!(r, ColValue::Tiny(-128));
    let r = MysqlColValueConvertor::from_str(&MysqlColType::Tiny, "128").unwrap();
    assert_eq!(r, ColValue::Null);
    let r = MysqlColValueConvertor::from_str(&MysqlColType::UnsignedTiny, "255").unwrap();
    assert_eq!(r, ColValue::UnsignedTiny(255));
    let r = MysqlColValueConvertor::from_str(&MysqlColType::UnsignedTiny, "-1").unwrap();
    assert_eq!(r, ColValue::Null);
    let r = MysqlColValueConvertor::from_str(&MysqlColType::Long, "+2147483647").unwrap();
    assert_eq!(r, ColValue::Long(2147483647));
    let r = MysqlColValueConvertor::from_str(&MysqlColType::LongLong, "-9223372036854775808")
        .unwrap();
    assert_eq!(r, ColValue::LongLong(i64::MIN));
    let r = MysqlColValueConvertor::from_str(&MysqlColType::UnsignedLongLong, "18446744073709551615")
        .unwrap();
    assert_eq!(r, ColValue::UnsignedLongLong(u64::MAX));
    let r = MysqlColValueConvertor::from_str(&MysqlColType::UnsignedLongLong, "18446744073709551616")
        .unwrap();
    assert_eq!(r, ColValue::Null);
    let r = MysqlColValueConvertor::from_str(&MysqlColType::Long, "12x").unwrap();
    assert_eq!(r, ColValue::Null);
    let r = MysqlColValueConvertor::from_str(&MysqlColType::Long, "").unwrap();
    assert_eq!(r, ColValue::Null);
}

#[test]
fn from_str_text_forms_and_errors() {
    let r = MysqlColValueConvertor::from_str(
        &MysqlColType::Decimal { precision: 10, scale: 2 },
        "12.34",
    )
    .unwrap();
    assert_eq!(r, ColValue::Decimal("12.34".to_string()));
    let r = MysqlColValueConvertor::from_str(&MysqlColType::Json, "{\"k\":1}").unwrap();
    assert_eq!(r, ColValue::Json2("{\"k\":1}".to_string()));
    let r = MysqlColValueConvertor::from_str(
        &MysqlColType::String { length: 10, charset: "utf8".to_string() },
        "hello",
    )
    .unwrap();
    assert_eq!(r, ColValue::String("hello".to_string()));
    assert!(MysqlColValueConvertor::from_str(&MysqlColType::Blob, "x").is_err());
    assert!(MysqlColValueConvertor::from_str(&MysqlColType::Binary { length: 4 }, "x").is_err());
}

#[test]
fn query_fetch_kind_per_dialect() {
    assert_eq!(query_fetch_kind(&MysqlColType::Time, &DbType::Mysql), FetchKind::TimeBuffer);
    assert_eq!(query_fetch_kind(&MysqlColType::Time, &DbType::Foxlake), FetchKind::TemporalText);
    assert_eq!(query_fetch_kind(&MysqlColType::Date, &DbType::StarRocks), FetchKind::TemporalText);
    assert_eq!(query_fetch_kind(&MysqlColType::DateTime, &DbType::Mysql), FetchKind::Typed);
    assert_eq!(
        query_fetch_kind(&MysqlColType::Timestamp { timezone_offset: 0 }, &DbType::Foxlake),
        FetchKind::TemporalText
    );
    assert_eq!(query_fetch_kind(&MysqlColType::Long, &DbType::Foxlake), FetchKind::Typed);
}

#[test]
fn from_str_float_columns_validate_text() {
    let r = MysqlColValueConvertor::from_str(&MysqlColType::Float, "1.25").unwrap();
    assert_eq!(r, ColValue::Float("1.25".to_string()));
    let r = MysqlColValueConvertor::from_str(&MysqlColType::Double, "-2.5e3").unwrap();
    assert_eq!(r, ColValue::Double("-2.5e3".to_string()));
    for good in [".5", "3.", "+inf", "-Infinity", "NaN", "1e9", "2E-7"] {
        let r = MysqlColValueConvertor::from_str(&MysqlColType::Float, good).unwrap();
        assert!(good.parse::<f32>().is_ok());
        assert_eq!(r, ColValue::Float(good.to_string()));
    }
    for bad in ["abc", "", ".", "1e", "1e+", "--1", "1.2.3", "0x10", " 1"] {
        let r = MysqlColValueConvertor::from_str(&MysqlColType::Double, bad).unwrap();
        assert!(bad.parse::<f64>().is_err());
        assert_eq!(r, ColValue::Null);
    }
}
