use quickwit::checkpoint::Checkpoint;
use quickwit::metastore::{
    IndexConfig, IndexMetadata, Metastore, MetastoreError, SplitMetadata, SplitState, TimeRange,
};

fn test_index_metadata() -> IndexMetadata {
    IndexMetadata {
        index_id: "test-idx".to_string(),
        index_uri: "file:///path/to/index/test-idx".to_string(),
        index_config: IndexConfig {
            default_search_fields: vec!["body".to_string()],
            timestamp_field: None,
        },
        checkpoint: Checkpoint::default(),
    }
}

fn store_with_index() -> Metastore {
    let mut metastore = Metastore::new();
    metastore.create_index(test_index_metadata()).unwrap();
    metastore
}

fn split(id: &str, time_range: Option<TimeRange>) -> SplitMetadata {
    let mut meta = SplitMetadata::new(id.to_string());
    meta.time_range = time_range;
    meta
}

fn id(name: &str) -> String {
    name.to_string()
}

#[test]
fn test_create_index_twice_is_refused() {
    let mut metastore = store_with_index();
    let second = metastore.create_index(test_index_metadata());
    assert_eq!(second, Err(MetastoreError::IndexAlreadyExists));
}

#[test]
fn test_unknown_index_is_refused() {
    let metastore = store_with_index();
    let err = metastore.list_all_splits(&id("other-idx"));
    assert!(err.is_err());
    assert_eq!(err.unwrap_err(), MetastoreError::IndexDoesNotExist);
}

#[test]
fn test_stage_split_records_a_staged_row() {
    let mut metastore = store_with_index();
    metastore.stage_split(&id("test-idx"), split("split1", None)).unwrap();
    let rows = metastore.list_all_splits(&id("test-idx")).unwrap();
    assert_eq!(rows.len(), 1);
    assert_eq!(rows[0].split_id, "split1");
    assert_eq!(rows[0].split_state, SplitState::Staged);
}

#[test]
fn test_stage_split_twice_is_refused() {
    let mut metastore = store_with_index();
    metastore.stage_split(&id("test-idx"), split("split1", None)).unwrap();
    let again = metastore.stage_split(&id("test-idx"), split("split1", None));
    assert_eq!(again, Err(MetastoreError::SplitAlreadyExists));
    assert_eq!(metastore.list_all_splits(&id("test-idx")).unwrap().len(), 1);
}

#[test]
fn test_publish_moves_staged_to_published() {
    let mut metastore = store_with_index();
    metastore.stage_split(&id("test-idx"), split("split1", None)).unwrap();
    metastore.publish_splits(&id("test-idx"), &vec![id("split1")]).unwrap();
    let rows = metastore.list_all_splits(&id("test-idx")).unwrap();
    assert_eq!(rows[0].split_state, SplitState::Published);
}

#[test]
fn test_publish_is_idempotent() {
    let mut metastore = store_with_index();
    metastore.stage_split(&id("test-idx"), split("split1", None)).unwrap();
    metastore.publish_splits(&id("test-idx"), &vec![id("split1")]).unwrap();
    metastore.publish_splits(&id("test-idx"), &vec![id("split1")]).unwrap();
    let rows = metastore.list_all_splits(&id("test-idx")).unwrap();
    assert_eq!(rows.len(), 1);
    assert_eq!(rows[0].split_state, SplitState::Published);
}

#[test]
fn test_publish_missing_split_is_refused_in_full() {
    let mut metastore = store_with_index();
    metastore.stage_split(&id("test-idx"), split("split1", None)).unwrap();
    let r = metastore.publish_splits(&id("test-idx"), &vec![id("split1"), id("ghost")]);
    assert_eq!(r, Err(MetastoreError::SplitDoesNotExist));
    // nothing was applied
    let rows = metastore.list_all_splits(&id("test-idx")).unwrap();
    assert_eq!(rows[0].split_state, SplitState::Staged);
}

#[test]
fn test_publish_deleted_split_is_refused() {
    let mut metastore = store_with_index();
    metastore.stage_split(&id("test-idx"), split("split1", None)).unwrap();
    metastore.mark_splits_as_deleted(&id("test-idx"), &vec![id("split1")]).unwrap();
    let r = metastore.publish_splits(&id("test-idx"), &vec![id("split1")]);
    assert_eq!(r, Err(MetastoreError::ForbiddenSplitState));
}

#[test]
fn test_mark_splits_as_deleted_is_idempotent() {
    let mut metastore = store_with_index();
    metastore.stage_split(&id("test-idx"), split("split1", None)).unwrap();
    metastore.publish_splits(&id("test-idx"), &vec![id("split1")]).unwrap();
    metastore.mark_splits_as_deleted(&id("test-idx"), &vec![id("split1")]).unwrap();
    metastore.mark_splits_as_deleted(&id("test-idx"), &vec![id("split1")]).unwrap();
    let rows = metastore.list_all_splits(&id("test-idx")).unwrap();
    assert_eq!(rows[0].split_state, SplitState::ScheduledForDeletion);
}

#[test]
fn test_delete_requires_staged_or_marked() {
    let mut metastore = store_with_index();
    metastore.stage_split(&id("test-idx"), split("split1", None)).unwrap();
    metastore.publish_splits(&id("test-idx"), &vec![id("split1")]).unwrap();
    let refused = metastore.delete_splits(&id("test-idx"), &vec![id("split1")]);
    assert_eq!(refused, Err(MetastoreError::ForbiddenSplitState));
    metastore.mark_splits_as_deleted(&id("test-idx"), &vec![id("split1")]).unwrap();
    metastore.delete_splits(&id("test-idx"), &vec![id("split1")]).unwrap();
    assert!(metastore.list_all_splits(&id("test-idx")).unwrap().is_empty());
}

#[test]
fn test_lifecycle_without_publishing() {
    let mut metastore = store_with_index();
    metastore.stage_split(&id("test-idx"), split("split1", None)).unwrap();
    metastore.mark_splits_as_deleted(&id("test-idx"), &vec![id("split1")]).unwrap();
    metastore.delete_splits(&id("test-idx"), &vec![id("split1")]).unwrap();
    assert!(metastore.list_all_splits(&id("test-idx")).unwrap().is_empty());
}

#[test]
fn test_staged_split_deletes_directly() {
    let mut metastore = store_with_index();
    metastore.stage_split(&id("test-idx"), split("split1", None)).unwrap();
    metastore.delete_splits(&id("test-idx"), &vec![id("split1")]).unwrap();
    assert!(metastore.list_all_splits(&id("test-idx")).unwrap().is_empty());
}

fn published_store() -> Metastore {
    let mut metastore = store_with_index();
    metastore
        .stage_split(&id("test-idx"), split("ranged", Some(TimeRange { start: 10, end: 20 })))
        .unwrap();
    metastore.stage_split(&id("test-idx"), split("open", None)).unwrap();
    metastore
        .stage_split(&id("test-idx"), split("early", Some(TimeRange { start: 0, end: 5 })))
        .unwrap();
    metastore
        .publish_splits(&id("test-idx"), &vec![id("ranged"), id("open"), id("early")])
        .unwrap();
    metastore
}

#[test]
fn test_list_splits_filters_by_state() {
    let mut metastore = published_store();
    metastore.stage_split(&id("test-idx"), split("fresh", None)).unwrap();
    let published = metastore.list_splits(&id("test-idx"), SplitState::Published, &None).unwrap();
    assert_eq!(published.len(), 3);
    let staged = metastore.list_splits(&id("test-idx"), SplitState::Staged, &None).unwrap();
    assert_eq!(staged.len(), 1);
    assert_eq!(staged[0].split_id, "fresh");
}

#[test]
fn test_list_splits_time_range_keeps_unknown_time_splits() {
    let metastore = published_store();
    let hits = metastore
        .list_splits(
            &id("test-idx"),
            SplitState::Published,
            &Some(TimeRange { start: 12, end: 15 }),
        )
        .unwrap();
    let ids: Vec<&str> = hits.iter().map(|s| s.split_id.as_str()).collect();
    // the intersecting split and the split without a time range, nothing else
    assert_eq!(ids, vec!["ranged", "open"]);
}

#[test]
fn test_list_splits_empty_range_selects_strict_interior() {
    let metastore = published_store();
    // [15, 15): strictly inside "ranged"
    let inside = metastore
        .list_splits(
            &id("test-idx"),
            SplitState::Published,
            &Some(TimeRange { start: 15, end: 15 }),
        )
        .unwrap();
    let ids: Vec<&str> = inside.iter().map(|s| s.split_id.as_str()).collect();
    assert_eq!(ids, vec!["ranged", "open"]);
    // [10, 10): on the boundary, not strictly inside
    let boundary = metastore
        .list_splits(
            &id("test-idx"),
            SplitState::Published,
            &Some(TimeRange { start: 10, end: 10 }),
        )
        .unwrap();
    let ids: Vec<&str> = boundary.iter().map(|s| s.split_id.as_str()).collect();
    assert_eq!(ids, vec!["open"]);
}

#[test]
fn test_delete_index_refused_while_published() {
    let mut metastore = published_store();
    let refused = metastore.delete_index(&id("test-idx"));
    assert_eq!(refused, Err(MetastoreError::ForbiddenSplitState));
    let ids = vec![id("ranged"), id("open"), id("early")];
    metastore.mark_splits_as_deleted(&id("test-idx"), &ids).unwrap();
    metastore.delete_splits(&id("test-idx"), &ids).unwrap();
    metastore.delete_index(&id("test-idx")).unwrap();
    assert!(metastore.index_metadata(&id("test-idx")).is_err());
}

#[test]
fn test_advance_checkpoint_merges_partitions() {
    let mut metastore = store_with_index();
    let mut first = Checkpoint::default();
    first.add_position("part-0".to_string(), vec![1]);
    first.add_position("part-1".to_string(), vec![2]);
    metastore.advance_checkpoint(&id("test-idx"), first).unwrap();
    let mut second = Checkpoint::default();
    second.add_position("part-1".to_string(), vec![9]);
    metastore.advance_checkpoint(&id("test-idx"), second).unwrap();
    let index_metadata = metastore.index_metadata(&id("test-idx")).unwrap();
    assert_eq!(index_metadata.checkpoint.position(&"part-0".to_string()), Some(&vec![1]));
    assert_eq!(index_metadata.checkpoint.position(&"part-1".to_string()), Some(&vec![9]));
    assert_eq!(index_metadata.checkpoint.position(&"part-2".to_string()), None);
}
