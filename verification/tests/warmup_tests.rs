use quickwit::cache::{seed_with_hot_ranges, ByteRangeCache, HotRange};
use quickwit::checkpoint::Checkpoint;
use quickwit::metastore::{
    IndexConfig, IndexMetadata, Metastore, SplitMetadata, SplitState, TimeRange,
};
use quickwit::search::{list_relevant_splits, SearchError, SearchRequest};
use quickwit::warmup::{
    plan_fast_field_warmup, plan_terms_warmup, resolve_fast_fields, FieldEntry, TermRequest,
};

#[test]
fn test_terms_warmup_covers_every_segment() {
    let terms = vec![
        TermRequest { field: 1, term: b"obama".to_vec(), needs_positions: true },
        TermRequest { field: 2, term: b"barack".to_vec(), needs_positions: false },
    ];
    let plan = plan_terms_warmup(&terms, 3);
    assert_eq!(plan.len(), 6);
    // segment by segment, term by term
    assert_eq!(plan[0].segment, 0);
    assert_eq!(plan[0].field, 1);
    assert_eq!(plan[0].term, b"obama".to_vec());
    assert!(plan[0].needs_positions);
    assert_eq!(plan[1].field, 2);
    assert!(!plan[1].needs_positions);
    assert_eq!(plan[5].segment, 2);
    assert_eq!(plan[5].field, 2);
}

#[test]
fn test_fast_field_warmup_covers_every_segment() {
    let plan = plan_fast_field_warmup(&vec![4, 7], 2);
    let pairs: Vec<(u32, u32)> = plan.iter().map(|f| (f.field, f.segment)).collect();
    assert_eq!(pairs, vec![(4, 0), (7, 0), (4, 1), (7, 1)]);
}

fn schema() -> Vec<FieldEntry> {
    vec![
        FieldEntry { name: "body".to_string(), fast: false },
        FieldEntry { name: "timestamp".to_string(), fast: true },
    ]
}

#[test]
fn test_resolving_fast_fields() {
    let fields = resolve_fast_fields(&schema(), &vec!["timestamp".to_string()]).unwrap();
    assert_eq!(fields, vec![1]);
}

#[test]
fn test_resolving_a_missing_field_is_refused() {
    let refused = resolve_fast_fields(&schema(), &vec!["missing".to_string()]);
    assert!(matches!(refused, Err(SearchError::InternalError(_))));
}

#[test]
fn test_resolving_a_slow_field_is_refused() {
    let refused = resolve_fast_fields(&schema(), &vec!["body".to_string()]);
    assert!(matches!(refused, Err(SearchError::InternalError(_))));
}

#[test]
fn test_hot_ranges_seed_the_cache() {
    let mut cache = ByteRangeCache::new_with_unlimited_capacity();
    let ranges = vec![
        HotRange { path: "meta.json".to_string(), start: 0, end: 2, bytes: vec![1, 2] },
        HotRange { path: "terms".to_string(), start: 8, end: 11, bytes: vec![3, 4, 5] },
    ];
    seed_with_hot_ranges(&mut cache, ranges);
    assert_eq!(cache.get(&"meta.json".to_string(), 0, 2), Some(vec![1, 2]));
    assert_eq!(cache.get(&"terms".to_string(), 8, 11), Some(vec![3, 4, 5]));
    assert_eq!(cache.get(&"terms".to_string(), 0, 3), None);
}

fn request(start: Option<i64>, end: Option<i64>) -> SearchRequest {
    SearchRequest {
        index_id: "test-idx".to_string(),
        query: "test".to_string(),
        search_fields: vec!["body".to_string()],
        start_timestamp: start,
        end_timestamp: end,
        max_hits: 10,
        start_offset: 0,
    }
}

#[test]
fn test_list_relevant_splits_applies_the_time_filter() {
    let mut metastore = Metastore::new();
    metastore
        .create_index(IndexMetadata {
            index_id: "test-idx".to_string(),
            index_uri: "file:///path/to/index/test-idx".to_string(),
            index_config: IndexConfig {
                default_search_fields: vec!["body".to_string()],
                timestamp_field: Some("timestamp".to_string()),
            },
            checkpoint: Checkpoint::default(),
        })
        .unwrap();
    let mut ranged = SplitMetadata::new("ranged".to_string());
    ranged.time_range = Some(TimeRange { start: 100, end: 200 });
    metastore.stage_split(&"test-idx".to_string(), ranged).unwrap();
    metastore.stage_split(&"test-idx".to_string(), SplitMetadata::new("open".to_string())).unwrap();
    metastore
        .publish_splits(&"test-idx".to_string(), &vec!["ranged".to_string(), "open".to_string()])
        .unwrap();

    let all = list_relevant_splits(&metastore, &request(None, None)).unwrap();
    assert_eq!(all.len(), 2);
    let hit = list_relevant_splits(&metastore, &request(Some(150), Some(160))).unwrap();
    assert_eq!(hit.len(), 2);
    let miss = list_relevant_splits(&metastore, &request(Some(300), Some(400))).unwrap();
    let ids: Vec<&str> = miss.iter().map(|s| s.split_id.as_str()).collect();
    assert_eq!(ids, vec!["open"]);
    let open_ended = list_relevant_splits(&metastore, &request(Some(150), None)).unwrap();
    assert_eq!(open_ended.len(), 2);

    // splits not yet published are never candidates
    metastore.stage_split(&"test-idx".to_string(), SplitMetadata::new("staged".to_string())).unwrap();
    let after = list_relevant_splits(&metastore, &request(None, None)).unwrap();
    assert_eq!(after.len(), 2);

    let wrong_index = list_relevant_splits(
        &metastore,
        &SearchRequest { index_id: "other".to_string(), ..request(None, None) },
    );
    assert!(matches!(wrong_index, Err(SearchError::IndexDoesNotExist)));
}
