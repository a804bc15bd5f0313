use ape_dts::events::RowData;
use ape_dts::merger::MongoMerger;
use ape_dts::value::ColValue;
use ape_dts::RowType;

fn doc(id: &str, v: &str) -> Vec<(String, ColValue)> {
    vec![
        (
            "doc".to_string(),
            ColValue::MongoDoc { id: Some(id.to_string()), bytes: v.as_bytes().to_vec() },
        ),
        ("v".to_string(), ColValue::String(v.to_string())),
    ]
}

fn insert(schema: &str, tb: &str, id: &str, v: &str) -> RowData {
    RowData::new(schema.to_string(), tb.to_string(), RowType::Insert, None, Some(doc(id, v)))
}

fn delete(schema: &str, tb: &str, id: &str, v: &str) -> RowData {
    RowData::new(schema.to_string(), tb.to_string(), RowType::Delete, Some(doc(id, v)), None)
}

fn update(schema: &str, tb: &str, id: &str, from: &str, to: &str) -> RowData {
    RowData::new(
        schema.to_string(),
        tb.to_string(),
        RowType::Update,
        Some(doc(id, from)),
        Some(doc(id, to)),
    )
}

#[test]
fn merge_collapses_to_terminal_state() {
    // insert, rewrite, delete, insert again: one delete and the final
    // insert survive
    let data = vec![
        insert("db1", "t", "1", "a"),
        update("db1", "t", "1", "a", "b"),
        delete("db1", "t", "1", "b"),
        insert("db1", "t", "1", "c"),
    ];
    let (inserts, deletes, unmerged) = MongoMerger::merge_row_data(data);
    assert!(unmerged.is_empty());
    assert_eq!(inserts, vec![insert("db1", "t", "1", "c")]);
    assert_eq!(deletes, vec![delete("db1", "t", "1", "b")]);
}

#[test]
fn merge_update_decomposes() {
    let data = vec![update("db1", "t", "1", "a", "b")];
    let (inserts, deletes, unmerged) = MongoMerger::merge_row_data(data);
    assert!(unmerged.is_empty());
    assert_eq!(inserts.len(), 1);
    assert_eq!(inserts[0].row_type, RowType::Insert);
    assert_eq!(inserts[0].after, Some(doc("1", "b")));
    assert_eq!(inserts[0].before, None);
    assert_eq!(deletes.len(), 1);
    assert_eq!(deletes[0].row_type, RowType::Delete);
    assert_eq!(deletes[0].before, Some(doc("1", "a")));
    assert_eq!(deletes[0].after, None);
}

#[test]
fn merge_keeps_one_row_per_key() {
    let data = vec![
        insert("db1", "t", "1", "a"),
        insert("db1", "t", "2", "b"),
        insert("db1", "t", "1", "c"),
    ];
    let (inserts, deletes, unmerged) = MongoMerger::merge_row_data(data);
    assert!(deletes.is_empty());
    assert!(unmerged.is_empty());
    assert_eq!(inserts.len(), 2);
    assert!(inserts.contains(&insert("db1", "t", "1", "c")));
    assert!(inserts.contains(&insert("db1", "t", "2", "b")));
}

#[test]
fn merge_halts_at_underivable_key() {
    // an update whose new image carries no document cannot be decomposed;
    // it and everything after it relay unmerged in order
    let diff_update = RowData::new(
        "db1".to_string(),
        "t".to_string(),
        RowType::Update,
        Some(doc("1", "a")),
        Some(vec![("delta".to_string(), ColValue::String("x".to_string()))]),
    );
    let data = vec![
        insert("db1", "t", "1", "a"),
        diff_update.clone(),
        insert("db1", "t", "2", "b"),
    ];
    let (inserts, deletes, unmerged) = MongoMerger::merge_row_data(data);
    assert_eq!(inserts, vec![insert("db1", "t", "1", "a")]);
    assert!(deletes.is_empty());
    assert_eq!(unmerged, vec![diff_update, insert("db1", "t", "2", "b")]);
}

#[test]
fn merge_groups_by_table() {
    let data = vec![
        insert("db1", "t1", "1", "a"),
        insert("db2", "t2", "1", "b"),
        delete("db1", "t1", "1", "a"),
    ];
    let merged = MongoMerger::merge(data);
    assert_eq!(merged.len(), 2);
    let t1 = merged.iter().find(|m| m.tb == "db1.t1").unwrap();
    assert!(t1.insert_rows.is_empty());
    assert_eq!(t1.delete_rows, vec![delete("db1", "t1", "1", "a")]);
    assert!(t1.unmerged_rows.is_empty());
    let t2 = merged.iter().find(|m| m.tb == "db2.t2").unwrap();
    assert_eq!(t2.insert_rows, vec![insert("db2", "t2", "1", "b")]);
}

#[test]
fn get_hash_key_reads_the_document() {
    let row = insert("db1", "t", "42", "a");
    assert_eq!(MongoMerger::get_hash_key(&row), Some("42".to_string()));
    let row = delete("db1", "t", "7", "a");
    assert_eq!(MongoMerger::get_hash_key(&row), Some("7".to_string()));
    // an update with no document in the new image has no key
    let row = RowData::new(
        "db1".to_string(),
        "t".to_string(),
        RowType::Update,
        Some(doc("1", "a")),
        Some(vec![("delta".to_string(), ColValue::String("x".to_string()))]),
    );
    assert_eq!(MongoMerger::get_hash_key(&row), None);
    // a document without an id has no key
    let row = RowData::new(
        "db1".to_string(),
        "t".to_string(),
        RowType::Insert,
        None,
        Some(vec![("doc".to_string(), ColValue::MongoDoc { id: None, bytes: vec![] })]),
    );
    assert_eq!(MongoMerger::get_hash_key(&row), None);
}
