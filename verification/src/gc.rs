//! Garbage collection and index deletion: the metastore side of the
//! cleanup, split from the storage side. These functions plan and
//! apply the state transitions; the caller removes the storage
//! prefixes of the split ids handed back, then deletes the rows and,
//! for a full index deletion, the index itself.

use vstd::prelude::*;
use crate::metastore::{
    Metastore, MetastoreError, SplitMetadata, SplitState, has_id, id_listed, rows_with_states,
};

verus! {

/// The ids of the rows in state `a` or `b`, in row order.
pub open spec fn ids_in_states(splits: Seq<SplitMetadata>, a: SplitState, b: SplitState) -> Seq<
    String,
> {
    splits.filter(|s: SplitMetadata| s.split_state == a || s.split_state == b).map_values(
        |s: SplitMetadata| s.split_id,
    )
}

/// Collects the ids of the rows in state `a` or `b`.
fn collect_ids_in_states(splits: &Vec<SplitMetadata>, a: SplitState, b: SplitState) -> (r: Vec<
    String,
>)
    ensures
        r@ == ids_in_states(splits@, a, b),
{
    let ghost pred = |s: SplitMetadata| s.split_state == a || s.split_state == b;
    let n = splits.len();
    let mut r: Vec<String> = Vec::new();
    let mut i: usize = 0;
    proof {
        assert(r@ =~= splits@.take(0).filter(pred).map_values(|s: SplitMetadata| s.split_id));
    }
    while i < n
        invariant
            n == splits@.len(),
            i <= n,
            r@ == splits@.take(i as int).filter(pred).map_values(|s: SplitMetadata| s.split_id),
            pred == (|s: SplitMetadata| s.split_state == a || s.split_state == b),
        decreases n - i,
    {
        proof {
            crate::seq_lemmas::lemma_filter_take_step(splits@, pred, i as int);
        }
        if splits[i].split_state == a || splits[i].split_state == b {
            r.push(splits[i].split_id.clone());
            proof {
                assert(splits@.take(i as int + 1).filter(pred).map_values(
                    |s: SplitMetadata| s.split_id,
                ) =~= splits@.take(i as int).filter(pred).map_values(
                    |s: SplitMetadata| s.split_id,
                ).push(splits@[i as int].split_id));
            }
        }
        i = i + 1;
    }
    proof {
        crate::seq_lemmas::lemma_take_all(splits@);
    }
    r
}

/// Every collected id has a row: the collection only reads the rows.
proof fn lemma_collected_ids_exist(splits: Seq<SplitMetadata>, a: SplitState, b: SplitState)
    ensures
        forall|k: int|
            0 <= k < ids_in_states(splits, a, b).len() ==> has_id(
                splits,
                #[trigger] ids_in_states(splits, a, b)[k]@,
            ),
{
    let pred = |s: SplitMetadata| s.split_state == a || s.split_state == b;
    let f = splits.filter(pred);
    assert forall|k: int| 0 <= k < ids_in_states(splits, a, b).len() implies has_id(
        splits,
        #[trigger] ids_in_states(splits, a, b)[k]@,
    ) by {
        assert(ids_in_states(splits, a, b)[k] == f[k].split_id);
        assert(f.contains(f[k]));
        crate::seq_lemmas::lemma_filter_membership(splits, pred, f[k]);
        let i = choose|i: int| 0 <= i < splits.len() && splits[i] == f[k];
        assert(splits[i].split_id@ == ids_in_states(splits, a, b)[k]@);
    }
}

/// A row whose state is `a` or `b` has its id among the collected
/// ones.
proof fn lemma_row_in_states_is_listed(
    splits: Seq<SplitMetadata>,
    a: SplitState,
    b: SplitState,
    i: int,
)
    requires
        0 <= i < splits.len(),
        splits[i].split_state == a || splits[i].split_state == b,
    ensures
        id_listed(ids_in_states(splits, a, b), splits[i].split_id@),
{
    let pred = |s: SplitMetadata| s.split_state == a || s.split_state == b;
    let f = splits.filter(pred);
    crate::seq_lemmas::lemma_filter_membership(splits, pred, splits[i]);
    assert(splits.contains(splits[i]));
    let k = choose|k: int| 0 <= k < f.len() && f[k] == splits[i];
    assert(ids_in_states(splits, a, b)[k] == f[k].split_id);
}

/// The metastore phase of deleting a whole index: every `Published`
/// and `Staged` row is marked as deleted, so that afterwards every
/// row of the index awaits deletion, and their split ids come back
/// for the storage cleanup. Once the caller has removed the files it
/// deletes the rows and then the index itself.
pub fn prepare_delete_index(metastore: &mut Metastore, index_id: &String) -> (r: Result<
    Vec<String>,
    MetastoreError,
>)
    requires
        old(metastore).wf(),
    ensures
        final(metastore).wf(),
        r is Ok <==> old(metastore).has_index(index_id@),
        r is Err ==> *final(metastore) == *old(metastore) && r == Err::<Vec<String>, MetastoreError>(
            MetastoreError::IndexDoesNotExist,
        ),
        r is Ok ==> {
            &&& final(metastore).metadata is Some
            &&& final(metastore).index() == old(metastore).index()
            &&& final(metastore).splits() == rows_with_states(
                old(metastore).splits(),
                ids_in_states(old(metastore).splits(), SplitState::Published, SplitState::Staged),
                SplitState::ScheduledForDeletion,
            )
            // afterwards no row is still published or staged
            &&& forall|i: int|
                0 <= i < final(metastore).splits().len()
                    ==> (#[trigger] final(metastore).splits()[i]).split_state
                    == SplitState::ScheduledForDeletion
            // the ids handed back are exactly the rows' ids, in order
            &&& r->Ok_0@.len() == final(metastore).splits().len()
            &&& forall|i: int|
                0 <= i < r->Ok_0@.len() ==> (#[trigger] r->Ok_0@[i])@
                    == final(metastore).splits()[i].split_id@
        },
{
    let splits_copy = match metastore.list_all_splits(index_id) {
        Err(e) => {
            return Err(e);
        },
        Ok(v) => v,
    };
    let to_mark = collect_ids_in_states(&splits_copy, SplitState::Published, SplitState::Staged);
    proof {
        lemma_collected_ids_exist(
            old(metastore).splits(),
            SplitState::Published,
            SplitState::Staged,
        );
    }
    let marked = metastore.mark_splits_as_deleted(index_id, &to_mark);
    proof {
        assert(marked is Ok);
    }
    match marked {
        Err(e) => Err(e),
        Ok(()) => {
            proof {
                let olds = old(metastore).splits();
                let ids = ids_in_states(olds, SplitState::Published, SplitState::Staged);
                let news = rows_with_states(olds, ids, SplitState::ScheduledForDeletion);
                assert forall|i: int| 0 <= i < news.len() implies (#[trigger] news[i]).split_state
                    == SplitState::ScheduledForDeletion by {
                    if olds[i].split_state == SplitState::Published || olds[i].split_state
                        == SplitState::Staged {
                        lemma_row_in_states_is_listed(
                            olds,
                            SplitState::Published,
                            SplitState::Staged,
                            i,
                        );
                    } else {
                        assert(olds[i].split_state != SplitState::New);
                    }
                }
            }
            let ids = all_split_ids(metastore, index_id);
            Ok(ids)
        },
    }
}

/// The metastore phase of garbage collection: orphaned `Staged`
/// splits are marked as deleted, and the ids of every row awaiting
/// deletion come back for the storage cleanup. The caller removes the
/// files and then deletes those rows.
pub fn prepare_garbage_collect(metastore: &mut Metastore, index_id: &String) -> (r: Result<
    Vec<String>,
    MetastoreError,
>)
    requires
        old(metastore).wf(),
    ensures
        final(metastore).wf(),
        r is Ok <==> old(metastore).has_index(index_id@),
        r is Err ==> *final(metastore) == *old(metastore) && r == Err::<Vec<String>, MetastoreError>(
            MetastoreError::IndexDoesNotExist,
        ),
        r is Ok ==> {
            &&& final(metastore).metadata is Some
            &&& final(metastore).index() == old(metastore).index()
            &&& final(metastore).splits() == rows_with_states(
                old(metastore).splits(),
                ids_in_states(old(metastore).splits(), SplitState::Staged, SplitState::Staged),
                SplitState::ScheduledForDeletion,
            )
            // no staged row survives, published rows stay searchable
            &&& forall|i: int|
                0 <= i < final(metastore).splits().len()
                    ==> (#[trigger] final(metastore).splits()[i]).split_state
                    != SplitState::Staged
            // the ids handed back are the rows now awaiting deletion
            &&& r->Ok_0@ == ids_in_states(
                final(metastore).splits(),
                SplitState::ScheduledForDeletion,
                SplitState::ScheduledForDeletion,
            )
        },
{
    let splits_copy = match metastore.list_all_splits(index_id) {
        Err(e) => {
            return Err(e);
        },
        Ok(v) => v,
    };
    let to_mark = collect_ids_in_states(&splits_copy, SplitState::Staged, SplitState::Staged);
    proof {
        lemma_collected_ids_exist(old(metastore).splits(), SplitState::Staged, SplitState::Staged);
    }
    let marked = metastore.mark_splits_as_deleted(index_id, &to_mark);
    proof {
        assert(marked is Ok);
    }
    match marked {
        Err(e) => Err(e),
        Ok(()) => {
            proof {
                let olds = old(metastore).splits();
                let ids = ids_in_states(olds, SplitState::Staged, SplitState::Staged);
                let news = rows_with_states(olds, ids, SplitState::ScheduledForDeletion);
                assert forall|i: int| 0 <= i < news.len() implies (#[trigger] news[i]).split_state
                    != SplitState::Staged by {
                    if olds[i].split_state == SplitState::Staged {
                        lemma_row_in_states_is_listed(
                            olds,
                            SplitState::Staged,
                            SplitState::Staged,
                            i,
                        );
                    }
                }
            }
            let remaining = match metastore.list_all_splits(index_id) {
                Err(e) => {
                    proof {
                        assert(false);
                    }
                    return Err(e);
                },
                Ok(v) => v,
            };
            let ids = collect_ids_in_states(
                &remaining,
                SplitState::ScheduledForDeletion,
                SplitState::ScheduledForDeletion,
            );
            Ok(ids)
        },
    }
}

/// The ids of every row, in row order.
fn all_split_ids(metastore: &Metastore, index_id: &String) -> (r: Vec<String>)
    requires
        metastore.wf(),
        metastore.has_index(index_id@),
    ensures
        r@.len() == metastore.splits().len(),
        forall|i: int|
            0 <= i < r@.len() ==> (#[trigger] r@[i])@ == metastore.splits()[i].split_id@,
{
    let rows = match metastore.list_all_splits(index_id) {
        Err(_) => Vec::new(),
        Ok(v) => v,
    };
    let n = rows.len();
    let mut r: Vec<String> = Vec::new();
    let mut i: usize = 0;
    while i < n
        invariant
            n == rows@.len(),
            rows@ == metastore.splits(),
            i <= n,
            r@.len() == i as int,
            forall|k: int| 0 <= k < i as int ==> (#[trigger] r@[k])@ == rows@[k].split_id@,
        decreases n - i,
    {
        r.push(rows[i].split_id.clone());
        i = i + 1;
    }
    r
}

} // verus!
