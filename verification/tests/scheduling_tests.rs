use quickwit::scheduling::{SourceIndexingConfig, UniqueQueue};

#[test]
fn test_simple() {
    let mut queue = UniqueQueue::new();
    queue.send(1);
    assert_eq!(queue.recv(), Some(1));
    assert_eq!(queue.recv(), None);
}

#[test]
fn test_unbounce() {
    let mut queue = UniqueQueue::new();
    queue.send(1);
    queue.send(1);
    assert_eq!(queue.recv(), Some(1));
    assert_eq!(queue.recv(), None);
}

#[test]
fn test_unbounce_interleaved() {
    let mut queue = UniqueQueue::new();
    queue.send(1);
    queue.send(2);
    queue.send(1);
    queue.send(3);
    assert_eq!(queue.recv(), Some(1));
    assert_eq!(queue.recv(), Some(2));
    queue.send(1);
    assert_eq!(queue.recv(), Some(3));
    assert_eq!(queue.recv(), Some(1));
    assert_eq!(queue.recv(), None);
}

#[test]
fn test_pending_item_is_never_doubled() {
    let mut queue = UniqueQueue::new();
    queue.send(4);
    queue.send(5);
    queue.send(4);
    queue.send(5);
    queue.send(4);
    assert_eq!(queue.len(), 2);
}

#[test]
fn test_source_configs_compare_by_source_id() {
    let a = SourceIndexingConfig {
        source_id: "source1".to_string(),
        source_params: "file:a.json".to_string(),
        index_id: "index1".to_string(),
        indexing_period_millis: 100,
        metastore_uri: "ram://metastore".to_string(),
        storage_uri: "ram://storage".to_string(),
        source_type: "file".to_string(),
    };
    let mut same_source = a.clone();
    same_source.index_id = "index2".to_string();
    same_source.indexing_period_millis = 300;
    assert!(a == same_source);
    let mut other_source = a.clone();
    other_source.source_id = "source2".to_string();
    assert!(a != other_source);
}
