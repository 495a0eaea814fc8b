use vde_segment::errors::VdeError;
use vde_segment::index::VDEVectorIndex;
use vde_segment::json::JsonValue;
use vde_segment::types::Distance;
use vde_segment::types::Filter;
use vde_segment::types::MatchValue;
use vde_segment::types::QueryVector;
use vde_segment::types::SparseVector;
use vde_segment::types::VectorInternal;

fn fresh(dim: u32, distance: Distance) -> VDEVectorIndex {
    VDEVectorIndex::new("/tmp/index", "seg", dim, distance, None).unwrap()
}

fn dense(v: Vec<i32>) -> VectorInternal {
    VectorInternal::Dense(v)
}

#[test]
fn update_of_never_inserted_offset_is_not_found() {
    // Scenario: a delete-style update against offset 999, never inserted,
    // fails as not-found and creates nothing.
    let mut ix = fresh(2, Distance::Cosine);
    let before = ix.indexed_vector_count();
    let e = ix.update_vector(999, None).unwrap_err();
    assert!(e.is_not_found());
    assert!(matches!(e, VdeError::Service { .. }));
    assert_eq!(ix.indexed_vector_count(), before);
}

#[test]
fn update_vector_upserts_and_deletes() {
    let mut ix = fresh(2, Distance::Dot);
    ix.update_vector(3, Some(&dense(vec![5, 6]))).unwrap();
    assert_eq!(ix.indexed_vector_count(), 1);
    ix.update_vector(3, Some(&dense(vec![7, 8]))).unwrap();
    assert_eq!(ix.indexed_vector_count(), 1);
    ix.update_vector(3, None).unwrap();
    assert_eq!(ix.indexed_vector_count(), 0);
}

#[test]
fn update_vector_wrong_dimension_is_service_error() {
    let mut ix = fresh(2, Distance::Dot);
    let e = ix.update_vector(0, Some(&dense(vec![1, 2, 3]))).unwrap_err();
    assert_eq!(e, VdeError::Service { code: vde_segment::errors::CODE_DIMENSION_MISMATCH });
}

#[test]
fn search_scores_and_truncates() {
    let mut ix = fresh(2, Distance::Dot);
    ix.update_vector(0, Some(&dense(vec![1, 0]))).unwrap();
    ix.update_vector(1, Some(&dense(vec![0, 1]))).unwrap();
    ix.update_vector(2, Some(&dense(vec![2, 2]))).unwrap();
    let queries = vec![QueryVector::Nearest(dense(vec![3, 4]))];
    let results = ix.search(&queries, None, 10).unwrap();
    assert_eq!(results.len(), 1);
    let hits = &results[0];
    assert_eq!(hits.len(), 3);
    assert_eq!((hits[0].idx, hits[0].score), (0, 3));
    assert_eq!((hits[1].idx, hits[1].score), (1, 4));
    assert_eq!((hits[2].idx, hits[2].score), (2, 14));

    // a result buffer of exactly top_k slots, truncated to the hits
    let top1 = ix.search(&queries, None, 1).unwrap();
    assert_eq!(top1[0].len(), 1);
    assert_eq!(top1[0][0].idx, 0);
    let top0 = ix.search(&queries, None, 0).unwrap();
    assert_eq!(top0[0].len(), 0);
}

#[test]
fn search_euclid_and_manhattan_scores() {
    let mut ix = fresh(2, Distance::Euclid);
    ix.update_vector(0, Some(&dense(vec![1, 2]))).unwrap();
    let q = vec![QueryVector::Nearest(dense(vec![4, 6]))];
    let hits = ix.search(&q, None, 5).unwrap();
    assert_eq!(hits[0][0].score, 25);

    let mut ixm = fresh(2, Distance::Manhattan);
    ixm.update_vector(0, Some(&dense(vec![1, 2]))).unwrap();
    let hits = ixm.search(&q, None, 5).unwrap();
    assert_eq!(hits[0][0].score, 7);
}

#[test]
fn search_rejects_dimension_mismatch_before_native_call() {
    let mut ix = fresh(2, Distance::Cosine);
    ix.update_vector(0, Some(&dense(vec![1, 1]))).unwrap();
    let calls_before = ix.coll.calls;
    let queries = vec![QueryVector::Nearest(dense(vec![1, 2, 3]))];
    let e = ix.search(&queries, None, 5).unwrap_err();
    assert_eq!(e, VdeError::DimensionMismatch { expected: 2, got: 3 });
    assert_eq!(ix.coll.calls, calls_before, "the native layer must not be invoked");
}

#[test]
fn search_rejects_sparse_query() {
    let mut ix = fresh(2, Distance::Cosine);
    let queries = vec![QueryVector::Nearest(VectorInternal::Sparse(SparseVector {
        indices: vec![0],
        values: vec![1],
    }))];
    assert_eq!(ix.search(&queries, None, 5).unwrap_err(), VdeError::UnsupportedVectorKind);
}

#[test]
fn search_with_filter_matches_payload() {
    let mut ix = fresh(1, Distance::Dot);
    ix.update_vector(0, Some(&dense(vec![1]))).unwrap();
    ix.update_vector(1, Some(&dense(vec![2]))).unwrap();
    // attach payloads through the engine model directly
    let doc = JsonValue::Obj(vec![(String::from("color"), JsonValue::Str(String::from("red")))]);
    ix.coll.upsert(1, None, Some(&doc));
    let filter = Filter { key: String::from("color"), value: MatchValue::Str(String::from("red")) };
    let q = vec![QueryVector::Nearest(dense(vec![1]))];
    let hits = ix.search(&q, Some(&filter), 5).unwrap();
    assert_eq!(hits[0].len(), 1);
    assert_eq!(hits[0][0].idx, 1);
}

#[test]
fn telemetry_is_static_and_zeroed() {
    let ix = fresh(2, Distance::Cosine);
    let t = ix.get_telemetry_data();
    assert_eq!(t.index_name, Some(String::from("vde_hnsw")));
    assert_eq!(t.unfiltered_hnsw, 0);
    assert_eq!(t.filtered_plain, 0);
}

#[test]
fn index_files_manifest() {
    let ix = fresh(2, Distance::Cosine);
    assert_eq!(ix.files(), vec![String::from("/tmp/index/seg.vde")]);
}

#[test]
fn save_and_size_estimate() {
    let mut ix = fresh(2, Distance::Cosine);
    ix.update_vector(0, Some(&dense(vec![1, 1]))).unwrap();
    ix.save().unwrap();
    assert_eq!(ix.coll.snapshots, 1);
    assert_eq!(ix.size_of_searchable_vectors_in_bytes(), 2 * 4 * 2);
    let engine = ix.close();
    assert_eq!(engine.collections.len(), 1);
    // teardown saves once more
    assert_eq!(engine.collections[0].1.snapshots, 2);
}
