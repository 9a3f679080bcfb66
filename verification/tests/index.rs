use visual_search::db::{Euclidean, VectorIndex, MAX_REMOVED_BEFORE_REBUILD};
use visual_search::errors::ServiceError;

#[test]
fn test_vector_index() {
    let mut index = VectorIndex::new();
    let features: [&[i32]; 9] = [
        &[0, 0, 0, 0],
        &[0, 0, 0, 1],
        &[0, 0, 1, 1],
        &[0, 1, 1, 0],
        &[1, 1, 0, 0],
        &[0, 0, 1, 1],
        &[0, 1, 1, 0],
        &[1, 1, 0, 0],
        &[1, 0, 0, 1],
    ];

    let mut i = 0;
    for &feature in &features {
        let v = feature.to_vec();
        index.insert(v, i.to_string()).unwrap();
        i += 1;
    }

    let neighbors = index.search(&features[0].to_vec()).unwrap();
    assert_eq!(neighbors[0].id, "0".to_string());

    index.remove("0".to_string());
    let neighbors = index.search(&features[0].to_vec()).unwrap();
    assert_eq!(neighbors[0].id, "1".to_string());

    index.rebuild();
    let neighbors = index.search(&features[0].to_vec()).unwrap();
    assert_eq!(neighbors[0].id, "1".to_string());
    assert!(index.removed.is_empty());
}

#[test]
fn exact_match_ranks_first_with_distance_zero() {
    let mut index = VectorIndex::new();
    index.insert(vec![5, 5, 5], "far".to_string()).unwrap();
    index.insert(vec![1, 2, 3], "target".to_string()).unwrap();
    index.insert(vec![0, 0, 9], "other".to_string()).unwrap();

    let hits = index.search(&vec![1, 2, 3]).unwrap();
    assert_eq!(hits[0].id, "target");
    assert_eq!(hits[0].distance, 0);
    assert_eq!(hits[0].index, 1);
}

#[test]
fn removed_id_never_returned_before_rebuild() {
    let mut index = VectorIndex::new();
    index.insert(vec![0, 0], "a".to_string()).unwrap();
    index.insert(vec![0, 1], "b".to_string()).unwrap();
    index.insert(vec![1, 1], "a".to_string()).unwrap();

    index.remove("a".to_string());
    // Well below the rebuild threshold: records are kept, only hidden.
    assert_eq!(index.vectors.len(), 3);

    for query in [vec![0, 0], vec![1, 1], vec![7, -3]] {
        let hits = index.search(&query).unwrap();
        assert!(hits.iter().all(|h| h.id != "a"));
        assert!(hits.iter().any(|h| h.id == "b"));
    }
}

#[test]
fn rebuild_preserves_results_when_no_candidate_is_tombstoned() {
    let mut index = VectorIndex::new();
    for (i, v) in [
        [0, 0, 0, 0],
        [0, 0, 0, 1],
        [0, 0, 1, 1],
        [0, 1, 1, 0],
        [1, 1, 0, 0],
        [0, 0, 1, 2],
        [0, 2, 1, 0],
        [2, 1, 0, 0],
        [1, 0, 0, 2],
    ]
    .iter()
    .enumerate()
    {
        index.insert(v.to_vec(), i.to_string()).unwrap();
    }
    // One record far from the query: it cannot enter the candidate list.
    index.insert(vec![90, 90, 90, 90], "far".to_string()).unwrap();
    index.remove("far".to_string());

    let query = vec![0, 0, 0, 0];
    let before: Vec<(String, u32)> = index
        .search(&query)
        .unwrap()
        .into_iter()
        .map(|h| (h.id, h.distance))
        .collect();
    index.rebuild();
    let after: Vec<(String, u32)> = index
        .search(&query)
        .unwrap()
        .into_iter()
        .map(|h| (h.id, h.distance))
        .collect();
    assert_eq!(before, after);
    assert_eq!(before.len(), 8);
}

#[test]
fn crossing_removal_threshold_purges_tombstones() {
    let mut index = VectorIndex::new();
    let n_records = MAX_REMOVED_BEFORE_REBUILD + 2;
    for i in 0..n_records {
        index.insert(vec![i as i32, 0], i.to_string()).unwrap();
    }
    for i in 0..MAX_REMOVED_BEFORE_REBUILD {
        index.remove(i.to_string());
    }
    // At the threshold, nothing is purged yet.
    assert_eq!(index.removed.len(), MAX_REMOVED_BEFORE_REBUILD);
    assert_eq!(index.vectors.len(), n_records);

    // The removal that crosses the threshold rebuilds inline.
    index.remove(MAX_REMOVED_BEFORE_REBUILD.to_string());
    assert!(index.removed.is_empty());
    let n_distinct_removed = MAX_REMOVED_BEFORE_REBUILD + 1;
    assert_eq!(index.vectors.len(), n_records - n_distinct_removed);
    assert_eq!(index.vectors[0].id, (n_records - 1).to_string());
}

#[test]
fn repeated_removal_of_same_id_counts_once() {
    let mut index = VectorIndex::new();
    index.insert(vec![1], "x".to_string()).unwrap();
    index.remove("x".to_string());
    index.remove("x".to_string());
    assert_eq!(index.removed.len(), 1);
    assert_eq!(index.vectors.len(), 1);
}

#[test]
fn insert_rejects_wrong_dimension() {
    let mut index = VectorIndex::new();
    index.insert(vec![1, 2, 3], "a".to_string()).unwrap();
    let err = index.insert(vec![1, 2], "b".to_string()).unwrap_err();
    assert_eq!(err, ServiceError::DimensionMismatch { expected: 3, actual: 2 });
    // The rejected insert left the index unchanged.
    assert_eq!(index.vectors.len(), 1);
}

#[test]
fn search_rejects_wrong_dimension() {
    let mut index = VectorIndex::new();
    index.insert(vec![1, 2, 3], "a".to_string()).unwrap();
    let err = index.search(&vec![1, 2, 3, 4]).unwrap_err();
    assert_eq!(err, ServiceError::DimensionMismatch { expected: 3, actual: 4 });
}

#[test]
fn search_on_empty_index_is_empty() {
    let index = VectorIndex::new();
    let hits = index.search(&vec![1, 2, 3]).unwrap();
    assert!(hits.is_empty());
}

#[test]
fn search_caps_candidates_and_orders_by_distance() {
    let mut index = VectorIndex::new();
    for i in 0..12 {
        index.insert(vec![i], i.to_string()).unwrap();
    }
    let hits = index.search(&vec![0]).unwrap();
    assert_eq!(hits.len(), 8);
    for (rank, hit) in hits.iter().enumerate() {
        assert_eq!(hit.id, rank.to_string());
        assert_eq!(hit.distance, (rank * rank) as u32);
    }
}

#[test]
fn euclidean_distance_is_exact_squared_distance() {
    let metric = Euclidean;
    assert_eq!(metric.distance(&vec![1, 2, 3], &vec![4, 6, 3]), 25);
    assert_eq!(metric.distance(&vec![0, 0], &vec![0, 0]), 0);
    assert_eq!(metric.distance(&vec![-2, 1], &vec![2, -1]), 20);
    // Only the shared prefix of the two vectors is compared.
    assert_eq!(metric.distance(&vec![1, 1, 9], &vec![1, 1]), 0);
}

#[test]
fn euclidean_distance_saturates() {
    let metric = Euclidean;
    // Each component contributes almost u64::MAX; two of them saturate.
    let a = vec![i32::MAX, i32::MAX];
    let b = vec![i32::MIN, i32::MIN];
    assert_eq!(metric.distance(&a, &b), u64::MAX);
}

#[test]
fn reported_distance_saturates_at_u32() {
    let mut index = VectorIndex::new();
    index.insert(vec![100_000, 0], "far".to_string()).unwrap();
    let hits = index.search(&vec![0, 0]).unwrap();
    // 100_000^2 exceeds u32::MAX, so the reported distance is capped.
    assert_eq!(hits[0].distance, u32::MAX);
}
