use vde_segment::json::JsonPath;
use vde_segment::json::JsonValue;
use vde_segment::payload::VDEPayloadStorage;
use vde_segment::types::Distance;

fn fresh() -> VDEPayloadStorage {
    VDEPayloadStorage::new("/tmp/payload", "seg", 4, Distance::Cosine).unwrap()
}

fn obj(entries: Vec<(&str, JsonValue)>) -> JsonValue {
    JsonValue::Obj(entries.into_iter().map(|(k, v)| (String::from(k), v)).collect())
}

fn path(first: &str, rest: Vec<&str>) -> JsonPath {
    JsonPath { first: String::from(first), rest: rest.into_iter().map(String::from).collect() }
}

#[test]
fn get_of_missing_document_is_empty() {
    let mut p = fresh();
    assert_eq!(p.get(5).unwrap(), obj(vec![]));
}

#[test]
fn overwrite_then_get() {
    let mut p = fresh();
    let doc = obj(vec![("a", JsonValue::Int(1))]);
    p.overwrite(3, &doc).unwrap();
    assert_eq!(p.get(3).unwrap(), doc);
    assert_eq!(p.get_sequential(3).unwrap(), doc);
}

#[test]
fn set_merges_new_keys_over_existing() {
    let mut p = fresh();
    p.overwrite(1, &obj(vec![("a", JsonValue::Int(1)), ("b", JsonValue::Int(2))])).unwrap();
    p.set(1, &obj(vec![("b", JsonValue::Int(9)), ("c", JsonValue::Bool(true))])).unwrap();
    assert_eq!(
        p.get(1).unwrap(),
        obj(vec![
            ("a", JsonValue::Int(1)),
            ("b", JsonValue::Int(9)),
            ("c", JsonValue::Bool(true)),
        ]),
    );
}

#[test]
fn set_replaces_arrays_whole() {
    let mut p = fresh();
    p.overwrite(1, &obj(vec![("xs", JsonValue::Arr(vec![JsonValue::Int(1), JsonValue::Int(2)]))]))
        .unwrap();
    p.set(1, &obj(vec![("xs", JsonValue::Arr(vec![JsonValue::Int(3)]))])).unwrap();
    assert_eq!(p.get(1).unwrap(), obj(vec![("xs", JsonValue::Arr(vec![JsonValue::Int(3)]))]));
}

#[test]
fn set_by_key_then_get_at_path_returns_merged_value() {
    let mut p = fresh();
    p.overwrite(2, &obj(vec![("meta", obj(vec![("x", JsonValue::Int(1))]))])).unwrap();
    let partial = obj(vec![("y", JsonValue::Int(2))]);
    p.set_by_key(2, &partial, &path("meta", vec![])).unwrap();
    let doc = p.get(2).unwrap();
    let at = doc.get_path(&path("meta", vec![])).unwrap();
    assert_eq!(*at, obj(vec![("x", JsonValue::Int(1)), ("y", JsonValue::Int(2))]));
}

#[test]
fn delete_at_path_returns_removed_and_get_is_absent() {
    let mut p = fresh();
    p.overwrite(2, &obj(vec![("meta", obj(vec![("x", JsonValue::Int(7))]))])).unwrap();
    let removed = p.delete(2, &path("meta", vec!["x"])).unwrap();
    assert_eq!(removed, vec![JsonValue::Int(7)]);
    let doc = p.get(2).unwrap();
    assert!(doc.get_path(&path("meta", vec!["x"])).is_none());
    let removed_again = p.delete(2, &path("meta", vec!["x"])).unwrap();
    assert!(removed_again.is_empty());
}

#[test]
fn clear_returns_prior_and_evicts_cache() {
    let mut p = fresh();
    let doc = obj(vec![("a", JsonValue::Int(1))]);
    p.overwrite(4, &doc).unwrap();
    let prior = p.clear(4).unwrap();
    assert_eq!(prior, Some(doc));
    assert!(p.iter().is_empty(), "clear evicts the cache entry");
    assert_eq!(p.get(4).unwrap(), obj(vec![]));
}

#[test]
fn iter_walks_the_cache_only() {
    let mut p = fresh();
    p.overwrite(1, &obj(vec![("a", JsonValue::Int(1))])).unwrap();
    // a document written through the engine directly is invisible until read
    let hidden = obj(vec![("h", JsonValue::Int(9))]);
    p.coll.upsert(2, None, Some(&hidden));
    let entries = p.iter();
    assert_eq!(entries.len(), 1);
    assert_eq!(entries[0].0, 1);
    // reading it pulls it into the cache, and iteration sees it
    assert_eq!(p.get(2).unwrap(), hidden);
    assert_eq!(p.iter().len(), 2);
}

#[test]
fn clear_all_empties_cache() {
    let mut p = fresh();
    p.overwrite(1, &obj(vec![("a", JsonValue::Int(1))])).unwrap();
    p.clear_all().unwrap();
    assert!(p.iter().is_empty());
    // the engine still holds the document
    assert_eq!(p.get(1).unwrap(), obj(vec![("a", JsonValue::Int(1))]));
}

#[test]
fn payload_files_manifest_and_flags() {
    let p = fresh();
    assert_eq!(p.files(), vec![String::from("/tmp/payload/seg_metadata.btr")]);
    assert!(p.is_on_disk());
    p.flusher();
}

#[test]
fn storage_size_counts_serialized_cache() {
    let mut p = fresh();
    assert_eq!(p.get_storage_size_bytes().unwrap(), 0);
    p.overwrite(1, &obj(vec![("a", JsonValue::Int(1))])).unwrap();
    // {"a":1}
    assert_eq!(p.get_storage_size_bytes().unwrap(), 7);
    // the unit is UTF-8 bytes, not characters
    p.overwrite(2, &obj(vec![("s", JsonValue::Str(String::from("\u{e9}")))])).unwrap();
    // {"s":"é"} is nine characters but ten bytes
    assert_eq!(p.get_storage_size_bytes().unwrap(), 7 + 10);
}

#[test]
fn close_returns_engine_with_collection() {
    let mut p = fresh();
    p.overwrite(1, &obj(vec![("a", JsonValue::Int(1))])).unwrap();
    let engine = p.close();
    assert_eq!(engine.collections.len(), 1);
    assert_eq!(engine.collections[0].0, "seg");
    assert_eq!(engine.collections[0].1.flushes, 1);
}
