//! Decisions of the indexing pipeline actors: the indexer's scratch
//! and checkpoint bookkeeping, the publisher's metastore transition,
//! and the wiring constants of a campaign.

use vstd::prelude::*;
use crate::checkpoint::Checkpoint;
use crate::metastore::{Metastore, MetastoreError, SplitState, rows_with_states, row_ok};

verus! {

/// How many per-split storage tasks may run at once, in uploads and
/// in garbage collection.
pub const MAX_CONCURRENT_SPLIT_TASKS: usize = 10;

/// The memory budget handed to one indexer's writer.
pub const MEM_BUDGET_IN_BYTES: usize = 2000000000;

/// The actors of one campaign, in spawn order: each upstream actor is
/// built with its downstream's mailbox.
#[derive(Debug, Clone, Copy, PartialEq, Eq, Structural)]
pub enum PipelineRole {
    /// Publishes uploaded splits in the metastore.
    Publisher,
    /// Stages splits and uploads their files.
    Uploader,
    /// Builds the hot-cache and the manifest.
    Packager,
    /// Parses documents and feeds the writer.
    Indexer,
}

/// The mailbox bound of each role. The small bounds of the uploader
/// and packager are the backpressure of the pipeline: a slow upload
/// stalls the packager and, transitively, the indexer.
pub fn mailbox_capacity(role: PipelineRole) -> (r: usize)
    ensures
        role == PipelineRole::Publisher ==> r == 3,
        role == PipelineRole::Uploader ==> r == 1,
        role == PipelineRole::Packager ==> r == 1,
        role == PipelineRole::Indexer ==> r == 100,
{
    match role {
        PipelineRole::Publisher => 3,
        PipelineRole::Uploader => 1,
        PipelineRole::Packager => 1,
        PipelineRole::Indexer => 100,
    }
}

/// What the indexer can get wrong with its scratch area.
#[derive(Debug, Clone, Copy, PartialEq, Eq, Structural)]
pub enum IndexerError {
    /// A scratch area already exists; building a second one over it
    /// would lose the split being built.
    ScratchAlreadyExists,
    /// No scratch area exists to write into or to hand over.
    MissingScratch,
}

/// What the indexer's observers see.
#[derive(Debug, Clone, Copy, PartialEq, Eq, Structural)]
pub struct IndexerStatistics {
    num_docs: usize,
}

impl Default for IndexerStatistics {
    /// No document indexed yet.
    fn default() -> (r: IndexerStatistics)
        ensures
            r.docs() == 0,
    {
        IndexerStatistics { num_docs: 0 }
    }
}

impl IndexerStatistics {
    /// How many documents were indexed.
    pub closed spec fn docs(self) -> usize {
        self.num_docs
    }

    /// How many documents were indexed.
    pub fn num_docs(&self) -> (r: usize)
        ensures
            r == self.docs(),
    {
        self.num_docs
    }
}

/// The verified bookkeeping of the indexer: a scratch area that must
/// exist exactly once, a document counter, and the checkpoint
/// accumulated from the batches. Parsing documents and feeding the
/// writer live beside this, outside the core.
#[derive(Debug)]
pub struct IndexerCore {
    statistics: IndexerStatistics,
    checkpoint: Checkpoint,
    scratch_exists: bool,
}

impl IndexerCore {
    /// The accumulated checkpoint is well-formed.
    pub closed spec fn wf(self) -> bool {
        self.checkpoint.wf()
    }

    /// Whether a scratch area exists.
    pub closed spec fn has_scratch(self) -> bool {
        self.scratch_exists
    }

    /// How many documents this indexer has counted.
    pub closed spec fn docs(self) -> usize {
        self.statistics.docs()
    }

    /// The checkpoint accumulated so far.
    pub closed spec fn checkpoint_view(self) -> Map<Seq<char>, Seq<u8>> {
        self.checkpoint@
    }

    /// A fresh indexer: a scratch is created right away, nothing is
    /// counted, and the checkpoint is empty.
    pub fn new() -> (r: IndexerCore)
        ensures
            r.wf(),
            r.has_scratch(),
            r.docs() == 0,
            r.checkpoint_view() == Map::<Seq<char>, Seq<u8>>::empty(),
    {
        IndexerCore {
            statistics: IndexerStatistics::default(),
            checkpoint: Checkpoint::default(),
            scratch_exists: true,
        }
    }

    /// Creates the scratch area. Refused while one exists: recreating
    /// it would drop the split being built.
    pub fn create_scratch(&mut self) -> (r: Result<(), IndexerError>)
        ensures
            r is Ok <==> !old(self).has_scratch(),
            r is Err ==> *final(self) == *old(self) && r == Err::<(), IndexerError>(
                IndexerError::ScratchAlreadyExists,
            ),
            r is Ok ==> {
                &&& final(self).has_scratch()
                &&& final(self).docs() == old(self).docs()
                &&& final(self).checkpoint_view() == old(self).checkpoint_view()
                &&& (old(self).wf() ==> final(self).wf())
            },
    {
        if self.scratch_exists {
            return Err(IndexerError::ScratchAlreadyExists);
        }
        self.scratch_exists = true;
        Ok(())
    }

    /// Records one batch: the documents are counted and the batch's
    /// checkpoint update is merged in, partitions in the update
    /// winning. Refused without a scratch to write into.
    pub fn record_batch(&mut self, num_docs: usize, checkpoint_update: Checkpoint) -> (r: Result<
        (),
        IndexerError,
    >)
        requires
            old(self).wf(),
            checkpoint_update.wf(),
            old(self).docs() + num_docs <= usize::MAX,
        ensures
            final(self).wf(),
            r is Ok <==> old(self).has_scratch(),
            r is Err ==> *final(self) == *old(self) && r == Err::<(), IndexerError>(
                IndexerError::MissingScratch,
            ),
            r is Ok ==> {
                &&& final(self).has_scratch()
                &&& final(self).docs() == old(self).docs() + num_docs
                &&& final(self).checkpoint_view() == old(self).checkpoint_view().union_prefer_right(
                    checkpoint_update@,
                )
            },
    {
        if !self.scratch_exists {
            return Err(IndexerError::MissingScratch);
        }
        self.statistics = IndexerStatistics { num_docs: self.statistics.num_docs + num_docs };
        self.checkpoint.update_checkpoint(checkpoint_update);
        Ok(())
    }

    /// The indexer's observable state.
    pub fn observable_state(&self) -> (r: IndexerStatistics)
        ensures
            r.docs() == self.docs(),
    {
        self.statistics
    }

    /// Hands the finished split over: the scratch is consumed and the
    /// accumulated checkpoint travels with the split, leaving this
    /// indexer with an empty one. Refused without a scratch.
    pub fn finalize(&mut self) -> (r: Result<Checkpoint, IndexerError>)
        requires
            old(self).wf(),
        ensures
            final(self).wf(),
            match r {
                Ok(checkpoint) => {
                    &&& old(self).has_scratch()
                    &&& checkpoint.wf()
                    &&& checkpoint@ == old(self).checkpoint_view()
                    &&& !final(self).has_scratch()
                    &&& final(self).docs() == old(self).docs()
                    &&& final(self).checkpoint_view() == Map::<Seq<char>, Seq<u8>>::empty()
                },
                Err(e) => {
                    &&& !old(self).has_scratch()
                    &&& e == IndexerError::MissingScratch
                    &&& *final(self) == *old(self)
                },
            },
    {
        if !self.scratch_exists {
            return Err(IndexerError::MissingScratch);
        }
        self.scratch_exists = false;
        let checkpoint = self.checkpoint.clone();
        self.checkpoint = Checkpoint::default();
        Ok(checkpoint)
    }
}

/// The publisher's whole step for one uploaded split: move it from
/// `Staged` to `Published` and advance the index's checkpoint by the
/// split's update, atomically from the caller's point of view — a
/// refused publish leaves the store untouched. Re-publishing an
/// already published split succeeds and only re-merges its update.
pub fn publish_split(
    metastore: &mut Metastore,
    index_id: &String,
    split_id: &String,
    checkpoint_update: Checkpoint,
) -> (r: Result<(), MetastoreError>)
    requires
        old(metastore).wf(),
        checkpoint_update.wf(),
    ensures
        final(metastore).wf(),
        r is Ok <==> old(metastore).has_index(index_id@) && row_ok(
            old(metastore).splits(),
            split_id@,
            SplitState::Staged,
            SplitState::Published,
        ),
        r is Err ==> *final(metastore) == *old(metastore),
        r is Ok ==> {
            &&& final(metastore).metadata is Some
            &&& final(metastore).splits() == rows_with_states(
                old(metastore).splits(),
                seq![*split_id],
                SplitState::Published,
            )
            &&& final(metastore).index().checkpoint@ == old(
                metastore,
            ).index().checkpoint@.union_prefer_right(checkpoint_update@)
            &&& final(metastore).index().index_id == old(metastore).index().index_id
            &&& final(metastore).index().index_uri == old(metastore).index().index_uri
            &&& final(metastore).index().index_config == old(metastore).index().index_config
        },
{
    let mut ids: Vec<String> = Vec::new();
    ids.push(split_id.clone());
    proof {
        assert(ids@ =~= seq![*split_id]);
        assert forall|k: int| 0 <= k < ids@.len() implies (#[trigger] ids@[k])@ == split_id@ by {
            assert(ids@[k] == *split_id);
        }
    }
    match metastore.publish_splits(index_id, &ids) {
        Err(e) => {
            proof {
                if old(metastore).has_index(index_id@) && row_ok(
                    old(metastore).splits(),
                    split_id@,
                    SplitState::Staged,
                    SplitState::Published,
                ) {
                    assert forall|k: int| 0 <= k < ids@.len() implies #[trigger] row_ok(
                        old(metastore).splits(),
                        ids@[k]@,
                        SplitState::Staged,
                        SplitState::Published,
                    ) by {
                        assert(ids@[k]@ == split_id@);
                    }
                    assert(false);
                }
            }
            Err(e)
        },
        Ok(()) => {
            proof {
                assert(row_ok(
                    old(metastore).splits(),
                    ids@[0]@,
                    SplitState::Staged,
                    SplitState::Published,
                ));
                assert(ids@[0]@ == split_id@);
            }
            let advanced = metastore.advance_checkpoint(index_id, checkpoint_update);
            proof {
                assert(advanced is Ok);
            }
            match advanced {
                Ok(()) => Ok(()),
                Err(e) => Err(e),
            }
        },
    }
}

} // verus!
