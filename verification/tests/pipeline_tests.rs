use quickwit::checkpoint::Checkpoint;
use quickwit::clock::{apply_command, on_period, after_failed_send, Command, State, TickAction};
use quickwit::gc::{prepare_delete_index, prepare_garbage_collect};
use quickwit::metastore::{
    IndexConfig, IndexMetadata, Metastore, MetastoreError, SplitMetadata, SplitState,
};
use quickwit::pipeline::{
    mailbox_capacity, publish_split, IndexerCore, IndexerError, PipelineRole,
    MAX_CONCURRENT_SPLIT_TASKS,
};

#[test]
fn test_clock_transition_table() {
    // a clock starts idle and obeys its commands
    assert_eq!(apply_command(State::Idle, Command::Run), State::Running);
    assert_eq!(apply_command(State::Running, Command::Pause), State::Idle);
    assert_eq!(apply_command(State::Idle, Command::Pause), State::Idle);
    assert_eq!(apply_command(State::Running, Command::Run), State::Running);
    assert_eq!(apply_command(State::Running, Command::Terminate), State::Terminated);
    // terminated absorbs everything
    assert_eq!(apply_command(State::Terminated, Command::Run), State::Terminated);
    assert_eq!(apply_command(State::Terminated, Command::Pause), State::Terminated);
    assert_eq!(apply_command(State::Terminated, Command::Terminate), State::Terminated);
}

#[test]
fn test_clock_period_actions() {
    assert_eq!(on_period(State::Running), TickAction::SendTick);
    assert_eq!(on_period(State::Idle), TickAction::Skip);
    assert_eq!(on_period(State::Terminated), TickAction::Stop);
    // a failed tick send terminates the clock
    assert_eq!(after_failed_send(State::Running), State::Terminated);
}

#[test]
fn test_mailbox_bounds_by_role() {
    assert_eq!(mailbox_capacity(PipelineRole::Publisher), 3);
    assert_eq!(mailbox_capacity(PipelineRole::Uploader), 1);
    assert_eq!(mailbox_capacity(PipelineRole::Packager), 1);
    assert_eq!(mailbox_capacity(PipelineRole::Indexer), 100);
    assert_eq!(MAX_CONCURRENT_SPLIT_TASKS, 10);
}

#[test]
fn test_indexer_core_counts_and_merges() {
    let mut indexer = IndexerCore::new();
    let mut update = Checkpoint::default();
    update.add_position("part-0".to_string(), vec![3]);
    indexer.record_batch(2, update).unwrap();
    let mut update = Checkpoint::default();
    update.add_position("part-0".to_string(), vec![5]);
    indexer.record_batch(3, update).unwrap();
    assert_eq!(indexer.observable_state().num_docs(), 5);
    let checkpoint = indexer.finalize().unwrap();
    assert_eq!(checkpoint.position(&"part-0".to_string()), Some(&vec![5]));
    // the scratch is gone: a second handover has nothing to hand over
    assert!(matches!(indexer.finalize(), Err(IndexerError::MissingScratch)));
    // and a fresh scratch may be created exactly once
    assert!(indexer.create_scratch().is_ok());
    assert_eq!(indexer.create_scratch(), Err(IndexerError::ScratchAlreadyExists));
}

#[test]
fn test_indexer_refuses_batches_without_scratch() {
    let mut indexer = IndexerCore::new();
    indexer.finalize().unwrap();
    let refused = indexer.record_batch(1, Checkpoint::default());
    assert_eq!(refused, Err(IndexerError::MissingScratch));
}

fn store_with_staged_split() -> Metastore {
    let mut metastore = Metastore::new();
    metastore
        .create_index(IndexMetadata {
            index_id: "test-idx".to_string(),
            index_uri: "file:///path/to/index/test-idx".to_string(),
            index_config: IndexConfig {
                default_search_fields: vec!["body".to_string()],
                timestamp_field: None,
            },
            checkpoint: Checkpoint::default(),
        })
        .unwrap();
    metastore
        .stage_split(&"test-idx".to_string(), SplitMetadata::new("split1".to_string()))
        .unwrap();
    metastore
}

#[test]
fn test_publisher_publishes_and_advances_the_checkpoint() {
    let mut metastore = store_with_staged_split();
    let mut update = Checkpoint::default();
    update.add_position("part-0".to_string(), vec![9]);
    publish_split(&mut metastore, &"test-idx".to_string(), &"split1".to_string(), update)
        .unwrap();
    let rows = metastore.list_all_splits(&"test-idx".to_string()).unwrap();
    assert_eq!(rows[0].split_state, SplitState::Published);
    let index_metadata = metastore.index_metadata(&"test-idx".to_string()).unwrap();
    assert_eq!(index_metadata.checkpoint.position(&"part-0".to_string()), Some(&vec![9]));
}

#[test]
fn test_publisher_refuses_unknown_split() {
    let mut metastore = store_with_staged_split();
    let refused = publish_split(
        &mut metastore,
        &"test-idx".to_string(),
        &"ghost".to_string(),
        Checkpoint::default(),
    );
    assert_eq!(refused, Err(MetastoreError::SplitDoesNotExist));
}

#[test]
fn test_prepare_delete_index_marks_everything() {
    let mut metastore = store_with_staged_split();
    metastore
        .stage_split(&"test-idx".to_string(), SplitMetadata::new("split2".to_string()))
        .unwrap();
    metastore
        .publish_splits(&"test-idx".to_string(), &vec!["split2".to_string()])
        .unwrap();
    let to_remove = prepare_delete_index(&mut metastore, &"test-idx".to_string()).unwrap();
    assert_eq!(to_remove.len(), 2);
    let rows = metastore.list_all_splits(&"test-idx".to_string()).unwrap();
    assert!(rows.iter().all(|s| s.split_state == SplitState::ScheduledForDeletion));
    // files removed outside; now the rows and the index itself go
    metastore.delete_splits(&"test-idx".to_string(), &to_remove).unwrap();
    metastore.delete_index(&"test-idx".to_string()).unwrap();
    assert!(metastore.index_metadata(&"test-idx".to_string()).is_err());
}

#[test]
fn test_prepare_garbage_collect_spares_published_splits() {
    let mut metastore = store_with_staged_split();
    metastore
        .stage_split(&"test-idx".to_string(), SplitMetadata::new("split2".to_string()))
        .unwrap();
    metastore
        .publish_splits(&"test-idx".to_string(), &vec!["split2".to_string()])
        .unwrap();
    let to_remove = prepare_garbage_collect(&mut metastore, &"test-idx".to_string()).unwrap();
    assert_eq!(to_remove, vec!["split1".to_string()]);
    let rows = metastore.list_all_splits(&"test-idx".to_string()).unwrap();
    let published: Vec<&str> = rows
        .iter()
        .filter(|s| s.split_state == SplitState::Published)
        .map(|s| s.split_id.as_str())
        .collect();
    assert_eq!(published, vec!["split2"]);
}
