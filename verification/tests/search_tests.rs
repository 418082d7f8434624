use quickwit::search::{
    analyze_errors, assemble_search_result, assign_jobs, build_jobs, build_leaf_search_request,
    compute_split_cost, leaf_request_hit_count, merge_fruits, merge_split_search_results,
    partial_hits_for_split, select_hits_window, total_attempted_fits, total_hits_fits,
    FetchDocsResult, Hit, Job, LeafSearchResult, NodeSearchError, PartialHit, SearchError,
    SearchRequest, SplitSearchError,
};
use quickwit::metastore::SplitMetadata;

fn hit(value: i64, split: &str, segment: u32, doc: u32) -> PartialHit {
    PartialHit {
        sorting_field_value: value,
        split_id: split.to_string(),
        segment_ord: segment,
        doc_id: doc,
    }
}

fn leaf_result(num_hits: u64, hits: Vec<PartialHit>) -> LeafSearchResult {
    LeafSearchResult {
        num_hits,
        partial_hits: hits,
        failed_requests: Vec::new(),
        num_attempted_splits: 1,
    }
}

fn doc(value: i64, split: &str, segment: u32, doc_id: u32, json: &str) -> Hit {
    Hit { partial_hit: Some(hit(value, split, segment, doc_id)), json: json.to_string() }
}

#[test]
fn test_root_search_single_split() {
    let leaf = leaf_result(
        3,
        vec![hit(3, "split1", 1, 1), hit(2, "split1", 2, 2), hit(1, "split1", 3, 3)],
    );
    let wanted = leaf_request_hit_count(10, 0);
    assert_eq!(wanted, 10);
    let merged = merge_fruits(wanted as usize, &vec![leaf]);
    assert_eq!(merged.num_hits, 3);
    assert_eq!(merged.partial_hits.len(), 3);
    let fetched = FetchDocsResult {
        hits: vec![
            doc(3, "split1", 1, 1, "{\"title\" : \"1\", \"body\" : \"test 1\", \"url\" : \"http://127.0.0.1/1\"}"),
            doc(2, "split1", 2, 2, "{\"title\" : \"2\", \"body\" : \"test 22\", \"url\" : \"http://127.0.0.1/2\"}"),
            doc(1, "split1", 3, 3, "{\"title\" : \"3\", \"body\" : \"test 3\", \"url\" : \"http://127.0.0.1/3\"}"),
        ],
    };
    let result = assemble_search_result(merged.num_hits, &vec![fetched], 0, 10, 0);
    assert_eq!(result.num_hits, 3);
    assert_eq!(result.hits.len(), 3);
    let values: Vec<i64> = result
        .hits
        .iter()
        .map(|h| h.partial_hit.as_ref().unwrap().sorting_field_value)
        .collect();
    assert_eq!(values, vec![3, 2, 1]);
}

#[test]
fn test_root_search_multiple_splits() {
    let leaf_a = leaf_result(2, vec![hit(3, "split1", 1, 1), hit(1, "split1", 3, 3)]);
    let leaf_b = leaf_result(1, vec![hit(2, "split2", 2, 2)]);
    let merged = merge_fruits(10, &vec![leaf_a, leaf_b]);
    assert_eq!(merged.num_hits, 3);
    let values: Vec<i64> =
        merged.partial_hits.iter().map(|h| h.sorting_field_value).collect();
    assert_eq!(values, vec![3, 2, 1]);
    let fetched_a = FetchDocsResult {
        hits: vec![
            doc(3, "split1", 1, 1, "{\"title\" : \"1\", \"body\" : \"test 1\", \"url\" : \"http://127.0.0.1/1\"}"),
            doc(1, "split1", 3, 3, "{\"title\" : \"3\", \"body\" : \"test 3\", \"url\" : \"http://127.0.0.1/3\"}"),
        ],
    };
    let fetched_b = FetchDocsResult {
        hits: vec![
            doc(2, "split2", 2, 2, "{\"title\" : \"2\", \"body\" : \"test 22\", \"url\" : \"http://127.0.0.1/2\"}"),
        ],
    };
    let result = assemble_search_result(merged.num_hits, &vec![fetched_a, fetched_b], 0, 10, 0);
    assert_eq!(result.num_hits, 3);
    assert_eq!(result.hits.len(), 3);
    let values: Vec<i64> = result
        .hits
        .iter()
        .map(|h| h.partial_hit.as_ref().unwrap().sorting_field_value)
        .collect();
    assert_eq!(values, vec![3, 2, 1]);
}

#[test]
fn test_zero_max_hits_still_counts_every_match() {
    let leaf_a = leaf_result(7, vec![hit(5, "split1", 0, 0), hit(4, "split1", 0, 1)]);
    let leaf_b = leaf_result(4, vec![hit(6, "split2", 0, 2)]);
    let merged = merge_fruits(0, &vec![leaf_a, leaf_b]);
    assert_eq!(merged.num_hits, 11);
    assert!(merged.partial_hits.is_empty());
}

#[test]
fn test_more_max_hits_never_removes_a_hit() {
    let hits = vec![
        hit(5, "split1", 0, 0),
        hit(9, "split2", 0, 1),
        hit(1, "split1", 0, 2),
        hit(7, "split2", 0, 3),
    ];
    let small = merge_fruits(2, &vec![leaf_result(4, hits.clone())]);
    let large = merge_fruits(4, &vec![leaf_result(4, hits)]);
    assert_eq!(small.partial_hits.len(), 2);
    assert_eq!(large.partial_hits.len(), 4);
    for (i, h) in small.partial_hits.iter().enumerate() {
        assert_eq!(large.partial_hits[i].doc_id, h.doc_id);
    }
}

#[test]
fn test_window_applies_offset_and_limit() {
    let hits = vec![
        hit(5, "s", 0, 0),
        hit(9, "s", 0, 1),
        hit(1, "s", 0, 2),
        hit(7, "s", 0, 3),
        hit(3, "s", 0, 4),
    ];
    let window = select_hits_window(hits, 1, 2);
    let values: Vec<i64> = window.iter().map(|h| h.sorting_field_value).collect();
    assert_eq!(values, vec![7, 5]);
}

#[test]
fn test_sort_is_stable_for_equal_values() {
    let hits = vec![hit(5, "a", 0, 0), hit(5, "b", 0, 1), hit(5, "c", 0, 2)];
    let merged = merge_fruits(3, &vec![leaf_result(3, hits)]);
    let ids: Vec<&str> = merged.partial_hits.iter().map(|h| h.split_id.as_str()).collect();
    assert_eq!(ids, vec!["a", "b", "c"]);
}

#[test]
fn test_partial_hits_group_by_split() {
    let hits = vec![hit(3, "split1", 0, 0), hit(2, "split2", 0, 1), hit(1, "split1", 0, 2)];
    let only_first = partial_hits_for_split(&hits, &"split1".to_string());
    assert_eq!(only_first.len(), 2);
    assert!(only_first.iter().all(|h| h.split_id == "split1"));
}

#[test]
fn test_jobs_and_assignment() {
    let splits = vec![
        SplitMetadata::new("split1".to_string()),
        SplitMetadata::new("split2".to_string()),
        SplitMetadata::new("split3".to_string()),
    ];
    assert_eq!(compute_split_cost(&splits[0]), 1);
    let jobs = build_jobs(&splits);
    assert_eq!(jobs.len(), 3);
    assert_eq!(jobs[0].split, "split1");
    assert_eq!(jobs[0].cost, 1);
    let assigned = assign_jobs(&jobs, 2);
    assert_eq!(assigned.len(), 2);
    let first: Vec<&str> = assigned[0].iter().map(|j| j.split.as_str()).collect();
    let second: Vec<&str> = assigned[1].iter().map(|j| j.split.as_str()).collect();
    assert_eq!(first, vec!["split1", "split3"]);
    assert_eq!(second, vec!["split2"]);
    // deterministic: the same jobs give the same assignment
    let jobs_again = vec![
        Job { split: "split1".to_string(), cost: 1 },
        Job { split: "split2".to_string(), cost: 1 },
        Job { split: "split3".to_string(), cost: 1 },
    ];
    let assigned_again = assign_jobs(&jobs_again, 2);
    let first_again: Vec<&str> = assigned_again[0].iter().map(|j| j.split.as_str()).collect();
    assert_eq!(first, first_again);
}

#[test]
fn test_leaf_merge_keeps_failed_splits_apart() {
    let good = leaf_result(2, vec![hit(4, "split1", 0, 0), hit(2, "split1", 0, 1)]);
    let results: Vec<Result<LeafSearchResult, SplitSearchError>> = vec![
        Ok(good),
        Err(SplitSearchError { split_id: "split2".to_string(), error: "storage".to_string() }),
    ];
    let merged = merge_split_search_results(10, results);
    assert_eq!(merged.num_hits, 2);
    assert_eq!(merged.num_attempted_splits, 2);
    assert_eq!(merged.partial_hits.len(), 2);
    assert_eq!(merged.failed_requests.len(), 1);
    assert_eq!(merged.failed_requests[0].split_id, "split2");
}

#[test]
fn test_analyze_errors_plans_the_retry() {
    let healthy = LeafSearchResult {
        num_hits: 5,
        partial_hits: Vec::new(),
        failed_requests: vec![SplitSearchError {
            split_id: "split3".to_string(),
            error: "io".to_string(),
        }],
        num_attempted_splits: 2,
    };
    let broken = NodeSearchError {
        search_error: SearchError::Unavailable,
        split_ids: vec!["split4".to_string()],
    };
    let entries: Vec<(u64, Result<LeafSearchResult, NodeSearchError>)> =
        vec![(1, Ok(healthy)), (2, Err(broken))];
    let plan = analyze_errors(&entries).unwrap();
    assert_eq!(plan.retry_split_ids, vec!["split3".to_string()]);
    // the retry goes to the healthy node only
    assert_eq!(plan.nodes_to_use, vec![1]);
}

#[test]
fn test_analyze_errors_without_failures_plans_nothing() {
    let clean = leaf_result(1, vec![hit(1, "split1", 0, 0)]);
    let entries: Vec<(u64, Result<LeafSearchResult, NodeSearchError>)> = vec![(1, Ok(clean))];
    assert!(analyze_errors(&entries).is_none());
}

#[test]
fn test_analyze_errors_with_only_broken_nodes_uses_them() {
    let all_failed = LeafSearchResult {
        num_hits: 0,
        partial_hits: Vec::new(),
        failed_requests: vec![SplitSearchError {
            split_id: "split1".to_string(),
            error: "io".to_string(),
        }],
        num_attempted_splits: 1,
    };
    let entries: Vec<(u64, Result<LeafSearchResult, NodeSearchError>)> = vec![(7, Ok(all_failed))];
    let plan = analyze_errors(&entries).unwrap();
    assert_eq!(plan.nodes_to_use, vec![7]);
    assert_eq!(plan.retry_split_ids, vec!["split1".to_string()]);
}

#[test]
fn test_leaf_request_widens_the_window() {
    let request = SearchRequest {
        index_id: "test-idx".to_string(),
        query: "test".to_string(),
        search_fields: vec!["body".to_string()],
        start_timestamp: None,
        end_timestamp: None,
        max_hits: 10,
        start_offset: 5,
    };
    let jobs = vec![
        Job { split: "split1".to_string(), cost: 1 },
        Job { split: "split2".to_string(), cost: 1 },
    ];
    let leaf_request = build_leaf_search_request(&request, &jobs);
    assert_eq!(leaf_request.search_request.start_offset, 0);
    assert_eq!(leaf_request.search_request.max_hits, 15);
    assert_eq!(leaf_request.search_request.query, "test");
    assert_eq!(leaf_request.split_ids, vec!["split1".to_string(), "split2".to_string()]);
}

#[test]
fn test_merging_no_leaves_returns_nothing() {
    let merged = merge_fruits(5, &Vec::new());
    assert_eq!(merged.num_hits, 0);
    assert_eq!(merged.num_attempted_splits, 0);
    assert!(merged.partial_hits.is_empty());
    assert!(merged.failed_requests.is_empty());
}

#[test]
fn test_overflowing_totals_are_detected() {
    let a = leaf_result(u64::MAX, Vec::new());
    let b = leaf_result(1, Vec::new());
    assert!(total_hits_fits(&vec![
        leaf_result(u64::MAX, Vec::new()),
    ]));
    assert!(!total_hits_fits(&vec![a, b]));
    let mut crowded = leaf_result(0, Vec::new());
    crowded.num_attempted_splits = u64::MAX;
    let one_more = leaf_result(0, Vec::new());
    assert!(!total_attempted_fits(&vec![crowded, one_more]));
}

#[test]
fn test_truncating_at_the_window_end_loses_nothing() {
    // the merge truncates to start_offset + max_hits; the final
    // window over that truncation equals the window over all hits
    let hits = vec![
        hit(5, "s", 0, 0),
        hit(9, "s", 0, 1),
        hit(1, "s", 0, 2),
        hit(7, "s", 0, 3),
        hit(3, "s", 0, 4),
    ];
    let merged = merge_fruits(3, &vec![leaf_result(5, hits.clone())]);
    let through_truncation = select_hits_window(merged.partial_hits, 1, 2);
    let direct = select_hits_window(hits, 1, 2);
    let lhs: Vec<u32> = through_truncation.iter().map(|h| h.doc_id).collect();
    let rhs: Vec<u32> = direct.iter().map(|h| h.doc_id).collect();
    assert_eq!(lhs, rhs);
    assert_eq!(lhs, vec![3, 0]);
}
