use ape_dts::rdb::RdbLoader;

fn rdb_string(s: &str) -> Vec<u8> {
    let mut out = vec![s.len() as u8];
    out.extend_from_slice(s.as_bytes());
    out
}

#[test]
fn rdb_stream_with_lua_script() {
    // magic and version, one lua auxiliary field, then the end flag
    let mut stream = b"REDIS0009".to_vec();
    stream.push(0xfa);
    stream.extend_from_slice(&rdb_string("lua"));
    stream.extend_from_slice(&rdb_string("print(1)"));
    stream.push(0xff);
    let mut loader = RdbLoader::new(stream);
    let version = loader.load_meta().unwrap();
    assert_eq!(version, "0009".to_string());
    let entry = loader.load_entry().unwrap().expect("a script entry");
    assert!(entry.is_base);
    assert_eq!(entry.db_id, 0);
    assert_eq!(
        entry.cmd.args,
        vec![b"script".to_vec(), b"load".to_vec(), b"print(1)".to_vec()]
    );
    assert!(loader.load_entry().unwrap().is_none());
    assert!(loader.is_end);
}

#[test]
fn rdb_bad_magic_is_rejected() {
    let mut loader = RdbLoader::new(b"RESIS0009".to_vec());
    assert!(loader.load_meta().is_err());
}

#[test]
fn rdb_select_and_expiry_flags() {
    let mut stream = b"REDIS0009".to_vec();
    stream.push(0xfe);
    stream.push(0x05); // db 5
    stream.push(0xfd);
    stream.extend_from_slice(&1u32.to_le_bytes()); // one second past the epoch
    stream.push(0xf9);
    stream.push(3); // lfu frequency
    stream.push(0xff);
    let mut loader = RdbLoader::new(stream);
    loader.load_meta().unwrap();
    assert!(loader.load_entry().unwrap().is_none());
    assert_eq!(loader.now_db_id, 5);
    assert!(loader.load_entry().unwrap().is_none());
    // an expiry far in the past clamps to the minimum relative expiry
    assert_eq!(loader.expire_ms, 1);
    assert!(loader.load_entry().unwrap().is_none());
    assert_eq!(loader.freq, 3);
}

#[test]
fn rdb_repl_stream_db_aux() {
    let mut stream = b"REDIS0009".to_vec();
    stream.push(0xfa);
    stream.extend_from_slice(&rdb_string("repl-stream-db"));
    stream.extend_from_slice(&rdb_string("7"));
    stream.push(0xff);
    let mut loader = RdbLoader::new(stream);
    loader.load_meta().unwrap();
    assert!(loader.load_entry().unwrap().is_none());
    assert_eq!(loader.repl_stream_db_id, 7);
}

#[test]
fn rdb_unknown_aux_is_skipped() {
    let mut stream = b"REDIS0009".to_vec();
    stream.push(0xfa);
    stream.extend_from_slice(&rdb_string("redis-ver"));
    stream.extend_from_slice(&rdb_string("7.0.0"));
    stream.push(0xff);
    let mut loader = RdbLoader::new(stream);
    loader.load_meta().unwrap();
    assert!(loader.load_entry().unwrap().is_none());
    assert!(loader.load_entry().unwrap().is_none());
    assert!(loader.is_end);
}

#[test]
fn rdb_object_header_is_returned() {
    let mut stream = b"REDIS0009".to_vec();
    stream.push(0x00); // a plain string object
    stream.extend_from_slice(&rdb_string("mykey"));
    // the object payload stays for the object parser
    stream.extend_from_slice(&rdb_string("myvalue"));
    let mut loader = RdbLoader::new(stream);
    loader.load_meta().unwrap();
    let entry = loader.load_entry().unwrap().expect("an object header");
    assert_eq!(entry.key, b"mykey".to_vec());
    assert_eq!(entry.value_type_byte, 0x00);
    assert!(entry.cmd.args.is_empty());
}

#[test]
fn rdb_fourteen_bit_length() {
    // a 14-bit length header: 0b01 prefix, value 300
    let mut stream = b"REDIS0009".to_vec();
    stream.push(0xfa);
    stream.push(0x41);
    stream.push(0x2c); // length 300
    let mut payload = vec![b'x'; 300];
    stream.append(&mut payload);
    stream.extend_from_slice(&rdb_string("y"));
    stream.push(0xff);
    let mut loader = RdbLoader::new(stream);
    loader.load_meta().unwrap();
    assert!(loader.load_entry().unwrap().is_none());
    assert!(loader.load_entry().unwrap().is_none());
    assert!(loader.is_end);
}

#[test]
fn rdb_integer_encoded_aux_value() {
    // an int8-encoded string: header 0xc0, then the signed byte
    let mut stream = b"REDIS0009".to_vec();
    stream.push(0xfa);
    stream.extend_from_slice(&rdb_string("repl-stream-db"));
    stream.push(0xc0);
    stream.push(9);
    stream.push(0xff);
    let mut loader = RdbLoader::new(stream);
    loader.load_meta().unwrap();
    assert!(loader.load_entry().unwrap().is_none());
    assert_eq!(loader.repl_stream_db_id, 9);
}

#[test]
fn rdb_truncated_stream_is_an_error() {
    let mut stream = b"REDIS0009".to_vec();
    stream.push(0xfa);
    stream.extend_from_slice(&rdb_string("lua"));
    stream.push(0x08); // promises eight bytes, delivers none
    let mut loader = RdbLoader::new(stream);
    loader.load_meta().unwrap();
    assert!(loader.load_entry().is_err());
}

#[test]
fn rdb_header_rejections() {
    // too short for the magic: nothing consumed
    let mut loader = RdbLoader::new(b"RED".to_vec());
    assert!(loader.load_meta().is_err());
    assert_eq!(loader.reader.pos, 0);
    // good magic, short version
    let mut loader = RdbLoader::new(b"REDIS00".to_vec());
    assert!(loader.load_meta().is_err());
    assert_eq!(loader.reader.pos, 5);
    // good magic, non-ascii version bytes
    let mut stream = b"REDIS".to_vec();
    stream.extend_from_slice(&[0x80, 0x80, 0x80, 0x80]);
    let mut loader = RdbLoader::new(stream);
    assert!(loader.load_meta().is_err());
    assert_eq!(loader.reader.pos, 9);
}
