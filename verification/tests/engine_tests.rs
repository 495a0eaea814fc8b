use vde_segment::engine::Engine;
use vde_segment::index::VDEVectorIndex;
use vde_segment::types::Distance;

#[test]
fn test_engine_create_destroy() {
    let work_dir = String::from("/tmp/vde_test");
    let engine = Engine::create(work_dir);
    assert!(engine.collections.is_empty(), "Failed to create VDE engine");
    drop(engine);
}

#[test]
fn test_collection_create() {
    let index = VDEVectorIndex::new(
        "/tmp/vde_test_collection",
        "test_collection",
        128,
        Distance::Cosine,
        None,
    );
    assert!(index.is_ok());
    let index = index.expect("Failed to create collection");
    assert_eq!(index.coll.config.dimension, 128);
    assert_eq!(index.coll.config.index_type, "vsag_hnsw");
    assert_eq!(index.coll.config.storage_type, "zendb");
    assert_eq!(index.distance.name(), "cosine");
    assert_eq!(index.name, "test_collection");
}

#[test]
fn engine_reopen_after_close() {
    let index = VDEVectorIndex::new("/tmp/w", "c", 4, Distance::Dot, None).unwrap();
    let engine = index.close();
    let reopened = VDEVectorIndex::open(engine, "c", 4, Distance::Dot);
    assert!(reopened.is_ok());
}

#[test]
fn engine_open_missing_collection_fails() {
    let engine = Engine::create(String::from("/tmp/w"));
    let r = VDEVectorIndex::open(engine, "absent", 4, Distance::Dot);
    assert_eq!(r.unwrap_err(), vde_segment::errors::VdeError::Initialization);
}

#[test]
fn engine_open_wrong_dimension_fails() {
    let index = VDEVectorIndex::new("/tmp/w", "c", 4, Distance::Dot, None).unwrap();
    let engine = index.close();
    let r = VDEVectorIndex::open(engine, "c", 8, Distance::Dot);
    assert_eq!(r.unwrap_err(), vde_segment::errors::VdeError::Initialization);
}
