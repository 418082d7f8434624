//! Periodic scheduling of indexing campaigns: the per-source
//! configuration and the unique queue that collapses bursts of ticks
//! into at most one outstanding job per source.

use vstd::prelude::*;

verus! {

/// One source that should be indexed periodically.
#[derive(Debug)]
pub struct SourceIndexingConfig {
    /// Identifies the source; uniqueness of this id is what equality
    /// of configs goes by.
    pub source_id: String,
    /// How to read the source, as an opaque parameter string.
    pub source_params: String,
    /// The index the source feeds.
    pub index_id: String,
    /// How often to schedule the source for indexing, in
    /// milliseconds. A shorter period shortens the time to search.
    pub indexing_period_millis: u64,
    /// Where the metastore of the index lives.
    pub metastore_uri: String,
    /// Where the split files of the index live.
    pub storage_uri: String,
    /// The kind of source, as text.
    pub source_type: String,
}

impl Clone for SourceIndexingConfig {
    fn clone(&self) -> (r: Self)
        ensures
            r.source_id@ == self.source_id@,
            r.source_params@ == self.source_params@,
            r.index_id@ == self.index_id@,
            r.indexing_period_millis == self.indexing_period_millis,
            r.metastore_uri@ == self.metastore_uri@,
            r.storage_uri@ == self.storage_uri@,
            r.source_type@ == self.source_type@,
    {
        SourceIndexingConfig {
            source_id: self.source_id.clone(),
            source_params: self.source_params.clone(),
            index_id: self.index_id.clone(),
            indexing_period_millis: self.indexing_period_millis,
            metastore_uri: self.metastore_uri.clone(),
            storage_uri: self.storage_uri.clone(),
            source_type: self.source_type.clone(),
        }
    }
}

impl PartialEq for SourceIndexingConfig {
    /// Two configs are the same source exactly when their source ids
    /// match: source ids are unique.
    fn eq(&self, other: &Self) -> (r: bool) {
        self.source_id == other.source_id
    }
}

impl vstd::std_specs::cmp::PartialEqSpecImpl for SourceIndexingConfig {
    open spec fn obeys_eq_spec() -> bool {
        true
    }

    open spec fn eq_spec(&self, other: &Self) -> bool {
        self.source_id@ == other.source_id@
    }
}

impl Eq for SourceIndexingConfig {

}

/// The queue of sources waiting for a campaign, each at most once:
/// sending a source already in the queue succeeds and enqueues
/// nothing, so however many scheduler ticks pile up while a campaign
/// is slow, at most one job per source is ever outstanding. Items are
/// the positions of the sources in the scheduler's configuration.
#[derive(Debug)]
pub struct UniqueQueue {
    items: Vec<u64>,
}

impl View for UniqueQueue {
    type V = Seq<u64>;

    closed spec fn view(&self) -> Seq<u64> {
        self.items@
    }
}

impl UniqueQueue {
    /// No item sits in the queue twice.
    pub closed spec fn wf(self) -> bool {
        forall|i: int, j: int| 0 <= i < j < self.items@.len() ==> self.items@[i] != self.items@[j]
    }

    /// An empty queue.
    pub fn new() -> (r: UniqueQueue)
        ensures
            r.wf(),
            r@ == Seq::<u64>::empty(),
    {
        let items: Vec<u64> = Vec::new();
        proof {
            assert(items@ =~= Seq::<u64>::empty());
        }
        UniqueQueue { items }
    }

    /// Enqueues `item` unless it is already pending: a pending item
    /// is accepted without being enqueued again.
    pub fn send(&mut self, item: u64)
        requires
            old(self).wf(),
        ensures
            final(self).wf(),
            final(self)@ == if old(self)@.contains(item) {
                old(self)@
            } else {
                old(self)@.push(item)
            },
    {
        let n = self.items.len();
        let mut i: usize = 0;
        while i < n
            invariant
                self.wf(),
                self.items@ == old(self).items@,
                n == self.items@.len(),
                i <= n,
                forall|k: int| 0 <= k < i as int ==> self.items@[k] != item,
            decreases n - i,
        {
            if self.items[i] == item {
                proof {
                    assert(self.items@.contains(item));
                }
                return ;
            }
            i = i + 1;
        }
        proof {
            assert(!self.items@.contains(item));
        }
        self.items.push(item);
    }

    /// Dequeues the oldest pending item, if any. Once an item leaves
    /// the queue it may be sent again.
    pub fn recv(&mut self) -> (r: Option<u64>)
        requires
            old(self).wf(),
        ensures
            final(self).wf(),
            match r {
                Some(item) => old(self)@.len() > 0 && item == old(self)@[0] && final(self)@ == old(
                    self,
                )@.drop_first(),
                None => old(self)@.len() == 0 && final(self)@ == old(self)@,
            },
    {
        if self.items.len() == 0 {
            return None;
        }
        let item = self.items.remove(0);
        proof {
            assert(self.items@ =~= old(self).items@.drop_first());
        }
        Some(item)
    }

    /// How many items are pending.
    pub fn len(&self) -> (r: usize)
        ensures
            r == self@.len(),
    {
        self.items.len()
    }
}

/// At any time the queue holds no duplicates: two distinct positions
/// hold distinct items. This is the invariant `send` relies on to
/// collapse bursts.
pub proof fn lemma_unique_queue_no_duplicates(q: UniqueQueue, i: int, j: int)
    requires
        q.wf(),
        0 <= i < q@.len(),
        0 <= j < q@.len(),
        i != j,
    ensures
        q@[i] != q@[j],
{
}

} // verus!
