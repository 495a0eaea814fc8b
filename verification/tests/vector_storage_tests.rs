use vde_segment::errors::VdeError;
use vde_segment::storage::VDEVectorStorage;
use vde_segment::types::Distance;
use vde_segment::types::SparseVector;
use vde_segment::types::VectorInternal;

fn fresh(dim: u32) -> VDEVectorStorage {
    VDEVectorStorage::new("/tmp/storage", "seg", dim, Distance::Cosine).unwrap()
}

fn dense(v: Vec<i32>) -> VectorInternal {
    VectorInternal::Dense(v)
}

#[test]
fn insert_then_get_returns_vector() {
    let mut s = fresh(3);
    s.insert_vector(7, &dense(vec![1, 2, 3])).unwrap();
    assert_eq!(s.get_vector(7), dense(vec![1, 2, 3]));
}

#[test]
fn get_never_inserted_returns_default() {
    let mut s = fresh(3);
    assert_eq!(s.get_vector(9), dense(vec![]));
    assert_eq!(s.get_vector_opt(9), None);
}

#[test]
fn insert_dimension_mismatch_fails_before_native_call() {
    let mut s = fresh(3);
    let calls_before = s.coll.calls;
    let r = s.insert_vector(0, &dense(vec![1, 2]));
    assert_eq!(r.unwrap_err(), VdeError::DimensionMismatch { expected: 3, got: 2 });
    assert_eq!(s.coll.calls, calls_before, "the native layer must not be invoked");
}

#[test]
fn insert_sparse_rejected() {
    let mut s = fresh(3);
    let sparse = VectorInternal::Sparse(SparseVector { indices: vec![0], values: vec![1] });
    let calls_before = s.coll.calls;
    assert_eq!(s.insert_vector(0, &sparse).unwrap_err(), VdeError::UnsupportedVectorKind);
    assert_eq!(s.coll.calls, calls_before);
}

#[test]
fn delete_returns_true_exactly_once() {
    let mut s = fresh(2);
    s.insert_vector(4, &dense(vec![1, 1])).unwrap();
    assert_eq!(s.delete_vector(4).unwrap(), true);
    assert_eq!(s.delete_vector(4).unwrap(), false);
    assert!(s.is_deleted_vector(4));
}

#[test]
fn upsert_keeps_count_unchanged() {
    // Scenario: dimension 4, Cosine; re-insert at the same offset is an
    // upsert, not a duplicate entry.
    let mut s = VDEVectorStorage::new("/tmp/upsert", "seg", 4, Distance::Cosine).unwrap();
    s.insert_vector(100, &dense(vec![1, 0, 1, 1])).unwrap();
    assert_eq!(s.get_vector(100), dense(vec![1, 0, 1, 1]));
    let count_before = s.total_vector_count();
    s.insert_vector(100, &dense(vec![2, 0, 2, 2])).unwrap();
    assert_eq!(s.get_vector(100), dense(vec![2, 0, 2, 2]));
    assert_eq!(s.total_vector_count(), count_before);
    assert_eq!(s.total_vector_count(), 1);
}

#[test]
fn update_from_applies_tombstones() {
    // Scenario: 5 items, item index 3 tombstoned.
    let mut s = fresh(2);
    let items = vec![
        (dense(vec![0, 0]), false),
        (dense(vec![1, 1]), false),
        (dense(vec![2, 2]), false),
        (dense(vec![0, 0]), true),
        (dense(vec![4, 4]), false),
    ];
    let range = s.update_from(&items, None).unwrap();
    assert_eq!(range, 0..5);
    assert_eq!(s.deleted_vector_count(), 1);
    assert!(s.is_deleted_vector(3));
    assert_eq!(s.get_vector(1), dense(vec![1, 1]));
}

#[test]
fn update_from_cancelled_keeps_prefix() {
    // Scenario: 10 items, cancellation observed after 5 are applied.
    let mut s = fresh(1);
    let mut items = Vec::new();
    for i in 0..10 {
        items.push((dense(vec![i as i32]), false));
    }
    let r = s.update_from(&items, Some(5));
    assert_eq!(r.unwrap_err(), VdeError::Cancelled);
    assert_eq!(s.get_vector(4), dense(vec![4]));
    assert_eq!(s.get_vector(5), dense(vec![]));
    assert_eq!(s.total_vector_count(), 5);
}

#[test]
fn update_from_empty_is_empty_range() {
    let mut s = fresh(2);
    let items: Vec<(VectorInternal, bool)> = Vec::new();
    assert_eq!(s.update_from(&items, None).unwrap(), 0..0);
}

#[test]
fn update_from_stops_at_invalid_item() {
    let mut s = fresh(2);
    let items = vec![
        (dense(vec![1, 1]), false),
        (dense(vec![1]), false),
        (dense(vec![2, 2]), false),
    ];
    let e = s.update_from(&items, None).unwrap_err();
    assert_eq!(e, VdeError::DimensionMismatch { expected: 2, got: 1 });
    assert_eq!(s.get_vector(0), dense(vec![1, 1]));
    assert_eq!(s.get_vector(2), dense(vec![]));
}

#[test]
fn bitslice_is_a_real_view() {
    let mut s = fresh(1);
    s.insert_vector(0, &dense(vec![1])).unwrap();
    s.insert_vector(1, &dense(vec![2])).unwrap();
    s.delete_vector(1).unwrap();
    let bits = s.deleted_vector_bitslice();
    assert_eq!(bits.len(), 2);
    assert!(!bits.get(0));
    assert!(bits.get(1));
}

#[test]
fn storage_files_manifest() {
    let s = fresh(2);
    let files = s.files();
    assert_eq!(files, vec![
        String::from("/tmp/storage/seg_vectors.btr"),
        String::from("/tmp/storage/seg_index.snapshot"),
    ]);
}

#[test]
fn storage_getters() {
    let s = fresh(2);
    assert_eq!(s.distance(), Distance::Cosine);
    assert_eq!(s.datatype(), vde_segment::types::VectorStorageDatatype::Float32);
    assert!(s.is_on_disk());
    s.flusher();
}
