//! The metastore: the authoritative record of an index and of the
//! lifecycle of its splits, with atomic state transitions.
//!
//! A split is staged before any of its files reach storage, published
//! once they are all there, marked for deletion before cleanup, and
//! deleted only from `Staged` or `ScheduledForDeletion`. Every stored
//! row is in one of those three states, and no two rows share a split
//! id. Each mutation either applies in full or leaves the store
//! untouched and reports why.

use vstd::prelude::*;
use crate::checkpoint::Checkpoint;

verus! {

/// A half-open interval `[start, end)` of signed 64-bit timestamps.
#[derive(Debug, Clone, Copy, PartialEq, Eq, Structural)]
pub struct TimeRange {
    pub start: i64,
    pub end: i64,
}

/// The lifecycle state of a split.
#[derive(Debug, Clone, Copy, PartialEq, Eq, Structural)]
pub enum SplitState {
    /// Newly created; not yet recorded in the metastore.
    New,
    /// Staged: some of its files may already be in storage.
    Staged,
    /// Published: complete in storage and searchable.
    Published,
    /// Scheduled for deletion: invisible to search, awaiting cleanup.
    ScheduledForDeletion,
}

/// Everything the metastore knows about one split.
#[derive(Debug)]
pub struct SplitMetadata {
    /// Identifies the split under the index URI.
    pub split_id: String,
    /// The lifecycle state.
    pub split_state: SplitState,
    /// Number of records in the split.
    pub num_records: usize,
    /// Weight of the split in bytes.
    pub size_in_bytes: usize,
    /// The span of the timestamp field, when the index has one.
    pub time_range: Option<TimeRange>,
    /// Number of merges this split went through.
    pub generation: usize,
    /// When the split was last modified, as a Unix timestamp.
    pub update_timestamp: i64,
}

impl Clone for SplitMetadata {
    fn clone(&self) -> (r: Self)
        ensures
            r == *self,
    {
        SplitMetadata {
            split_id: self.split_id.clone(),
            split_state: self.split_state,
            num_records: self.num_records,
            size_in_bytes: self.size_in_bytes,
            time_range: self.time_range,
            generation: self.generation,
            update_timestamp: self.update_timestamp,
        }
    }
}

/// Relies on chrono's `Utc::now`: the wall clock decides the result,
/// so nothing is promised of it.
#[verifier::external_body]
fn unix_timestamp_now() -> i64 {
    chrono::Utc::now().timestamp()
}

impl SplitMetadata {
    /// A fresh split record: state `New`, empty counters, stamped with
    /// the current wall-clock time.
    pub fn new(split_id: String) -> (r: Self)
        ensures
            r.split_id == split_id,
            r.split_state == SplitState::New,
            r.num_records == 0,
            r.size_in_bytes == 0,
            r.time_range is None,
            r.generation == 0,
    {
        SplitMetadata {
            split_id,
            split_state: SplitState::New,
            num_records: 0,
            size_in_bytes: 0,
            time_range: None,
            generation: 0,
            update_timestamp: unix_timestamp_now(),
        }
    }
}

/// The schema-level knowledge the core needs about an index: where to
/// search by default and which field, if any, carries the timestamp.
#[derive(Debug)]
pub struct IndexConfig {
    /// Fields searched when the request names none.
    pub default_search_fields: Vec<String>,
    /// The fast field holding each document's timestamp, if any.
    pub timestamp_field: Option<String>,
}

/// Whether two index configs carry the same content.
pub open spec fn index_config_like(a: IndexConfig, b: IndexConfig) -> bool {
    &&& a.default_search_fields@ == b.default_search_fields@
    &&& a.timestamp_field == b.timestamp_field
}

impl Clone for IndexConfig {
    fn clone(&self) -> (r: Self)
        ensures
            index_config_like(r, *self),
    {
        let fields = clone_strings(&self.default_search_fields);
        let timestamp_field = match &self.timestamp_field {
            Some(f) => Some(f.clone()),
            None => None,
        };
        IndexConfig { default_search_fields: fields, timestamp_field }
    }
}

/// Copies a list of strings.
fn clone_strings(v: &Vec<String>) -> (r: Vec<String>)
    ensures
        r@ == v@,
{
    let r = v.clone();
    proof {
        assert(r@ =~= v@);
    }
    r
}

/// All metadata about one index. Immutable once created, except for
/// the checkpoint, which the publisher advances.
#[derive(Debug)]
pub struct IndexMetadata {
    /// Identifies the index when querying the metastore.
    pub index_id: String,
    /// Location of the storage holding the split files.
    pub index_uri: String,
    /// The config the index was created with.
    pub index_config: IndexConfig,
    /// High-water mark: the last successfully published position of
    /// every source partition.
    pub checkpoint: Checkpoint,
}

/// Whether two index metadata records carry the same content.
pub open spec fn index_metadata_like(a: IndexMetadata, b: IndexMetadata) -> bool {
    &&& a.index_id@ == b.index_id@
    &&& a.index_uri@ == b.index_uri@
    &&& index_config_like(a.index_config, b.index_config)
    &&& a.checkpoint@ == b.checkpoint@
}

impl Clone for IndexMetadata {
    fn clone(&self) -> (r: Self)
        ensures
            index_metadata_like(r, *self),
            self.checkpoint.wf() ==> r.checkpoint.wf(),
    {
        IndexMetadata {
            index_id: self.index_id.clone(),
            index_uri: self.index_uri.clone(),
            index_config: self.index_config.clone(),
            checkpoint: self.checkpoint.clone(),
        }
    }
}

/// An index together with the rows of its splits.
#[derive(Debug)]
pub struct MetadataSet {
    /// Metadata of the index itself.
    pub index: IndexMetadata,
    /// One row per split of the index.
    pub splits: Vec<SplitMetadata>,
}

/// Whether some row of `splits` carries the split id `id`.
pub open spec fn has_id(splits: Seq<SplitMetadata>, id: Seq<char>) -> bool {
    exists|i: int| 0 <= i < splits.len() && splits[i].split_id@ == id
}

/// Whether no two rows carry the same split id.
pub open spec fn unique_ids(splits: Seq<SplitMetadata>) -> bool {
    forall|i: int, j: int| 0 <= i < j < splits.len() ==> splits[i].split_id@ != splits[j].split_id@
}

/// Every stored row is `Staged`, `Published` or `ScheduledForDeletion`:
/// a `New` split exists only outside the metastore.
pub open spec fn stored_states(splits: Seq<SplitMetadata>) -> bool {
    forall|i: int| 0 <= i < splits.len() ==> #[trigger] splits[i].split_state != SplitState::New
}

impl MetadataSet {
    /// The store holds exactly one row per split, in a persistent
    /// state.
    pub open spec fn wf(self) -> bool {
        &&& unique_ids(self.splits@)
        &&& stored_states(self.splits@)
        &&& self.index.checkpoint.wf()
    }
}

/// Whether `id` is one of the listed ids.
pub open spec fn id_listed(ids: Seq<String>, id: Seq<char>) -> bool {
    exists|k: int| 0 <= k < ids.len() && ids[k]@ == id
}

/// Whether the half-open ranges `a` and `b` overlap.
pub open spec fn ranges_intersect(a: TimeRange, b: TimeRange) -> bool {
    a.start < b.end && b.start < a.end
}

/// Whether a query time range keeps a split with time range `split`:
/// with no query every split passes, and a split without a time range
/// is always visible.
pub open spec fn time_range_selects(query: Option<TimeRange>, split: Option<TimeRange>) -> bool {
    match (query, split) {
        (Option::None, _) => true,
        (Option::Some(_), Option::None) => true,
        (Option::Some(q), Option::Some(s)) => ranges_intersect(q, s),
    }
}

/// The selection made by `list_splits`: rows in the requested state
/// whose time range passes the query.
pub open spec fn split_selected(s: SplitMetadata, state: SplitState, query: Option<TimeRange>) -> bool {
    s.split_state == state && time_range_selects(query, s.time_range)
}

/// `s` with its lifecycle state replaced.
pub open spec fn with_state(s: SplitMetadata, state: SplitState) -> SplitMetadata {
    SplitMetadata { split_state: state, ..s }
}

/// Why a metastore operation was refused. A refused operation leaves
/// the store exactly as it was.
#[derive(Debug, Clone, Copy, PartialEq, Eq, Structural)]
pub enum MetastoreError {
    /// `create_index` on a root that already holds an index.
    IndexAlreadyExists,
    /// The named index is not the one this store holds.
    IndexDoesNotExist,
    /// `stage_split` with a split id that is already recorded.
    SplitAlreadyExists,
    /// An operation named a split that has no row.
    SplitDoesNotExist,
    /// An operation named a split whose state forbids the transition.
    ForbiddenSplitState,
}


/// Whether some row carries `id` in state `a` or `b`: the check behind
/// `publish_splits` (staged or published) and `delete_splits` (staged
/// or scheduled for deletion).
pub open spec fn row_ok(splits: Seq<SplitMetadata>, id: Seq<char>, a: SplitState, b: SplitState) -> bool {
    exists|i: int|
        0 <= i < splits.len() && splits[i].split_id@ == id && (splits[i].split_state == a
            || splits[i].split_state == b)
}

/// The rows after the listed splits move to `state` and every other
/// row stays as it was.
pub open spec fn rows_with_states(splits: Seq<SplitMetadata>, ids: Seq<String>, state: SplitState) -> Seq<SplitMetadata> {
    Seq::new(
        splits.len(),
        |i: int| if id_listed(ids, splits[i].split_id@) {
            with_state(splits[i], state)
        } else {
            splits[i]
        },
    )
}

/// Whether `id` is one of the listed ids.
fn contains_id(ids: &Vec<String>, id: &String) -> (r: bool)
    ensures
        r == id_listed(ids@, id@),
{
    let n = ids.len();
    let mut k: usize = 0;
    while k < n
        invariant
            n == ids@.len(),
            k <= n,
            forall|j: int| 0 <= j < k as int ==> ids@[j]@ != id@,
        decreases n - k,
    {
        if ids[k] == *id {
            return true;
        }
        k = k + 1;
    }
    false
}

/// Finds the row carrying `id`, if there is one.
fn find_split(splits: &Vec<SplitMetadata>, id: &String) -> (r: Option<usize>)
    ensures
        match r {
            Some(i) => i < splits@.len() && splits@[i as int].split_id@ == id@,
            None => !has_id(splits@, id@),
        },
{
    let n = splits.len();
    let mut k: usize = 0;
    while k < n
        invariant
            n == splits@.len(),
            k <= n,
            forall|j: int| 0 <= j < k as int ==> splits@[j].split_id@ != id@,
        decreases n - k,
    {
        if splits[k].split_id == *id {
            return Some(k);
        }
        k = k + 1;
    }
    None
}

/// Checks that every listed id has a row in state `a` or `b`. Refuses
/// with `SplitDoesNotExist` for an id without a row, and with
/// `ForbiddenSplitState` for a row in another state.
fn check_rows(
    splits: &Vec<SplitMetadata>,
    ids: &Vec<String>,
    a: SplitState,
    b: SplitState,
) -> (r: Result<(), MetastoreError>)
    requires
        unique_ids(splits@),
    ensures
        match r {
            Ok(()) => forall|k: int|
                0 <= k < ids@.len() ==> #[trigger] row_ok(splits@, ids@[k]@, a, b),
            Err(e) => {
                &&& exists|k: int| 0 <= k < ids@.len() && !row_ok(splits@, #[trigger] ids@[k]@, a, b)
                &&& (e == MetastoreError::SplitDoesNotExist || e == MetastoreError::ForbiddenSplitState)
                &&& (e == MetastoreError::SplitDoesNotExist ==> exists|k: int|
                    0 <= k < ids@.len() && !has_id(splits@, #[trigger] ids@[k]@))
            },
        },
{
    let n = ids.len();
    let mut k: usize = 0;
    while k < n
        invariant
            unique_ids(splits@),
            n == ids@.len(),
            k <= n,
            forall|j: int| 0 <= j < k as int ==> #[trigger] row_ok(splits@, ids@[j]@, a, b),
        decreases n - k,
    {
        match find_split(splits, &ids[k]) {
            None => {
                proof {
                    assert(!row_ok(splits@, ids@[k as int]@, a, b)) by {
                        if row_ok(splits@, ids@[k as int]@, a, b) {
                            let i = choose|i: int|
                                0 <= i < splits@.len() && splits@[i].split_id@ == ids@[k as int]@
                                    && (splits@[i].split_state == a || splits@[i].split_state == b);
                            assert(has_id(splits@, ids@[k as int]@));
                        }
                    }
                }
                return Err(MetastoreError::SplitDoesNotExist);
            },
            Some(i) => {
                let matches = splits[i].split_state == a || splits[i].split_state == b;
                if !matches {
                    proof {
                        assert(!row_ok(splits@, ids@[k as int]@, a, b)) by {
                            if row_ok(splits@, ids@[k as int]@, a, b) {
                                let j = choose|j: int|
                                    0 <= j < splits@.len() && splits@[j].split_id@ == ids@[k as int]@
                                        && (splits@[j].split_state == a || splits@[j].split_state
                                        == b);
                                if j < i as int {
                                    assert(splits@[j].split_id@ != splits@[i as int].split_id@);
                                } else if j > i as int {
                                    assert(splits@[i as int].split_id@ != splits@[j].split_id@);
                                }
                            }
                        }
                    }
                    return Err(MetastoreError::ForbiddenSplitState);
                }
            },
        }
        k = k + 1;
    }
    Ok(())
}

/// Checks that every listed id has a row.
fn check_all_exist(splits: &Vec<SplitMetadata>, ids: &Vec<String>) -> (r: bool)
    ensures
        r <==> forall|k: int| 0 <= k < ids@.len() ==> has_id(splits@, #[trigger] ids@[k]@),
{
    let n = ids.len();
    let mut k: usize = 0;
    while k < n
        invariant
            n == ids@.len(),
            k <= n,
            forall|j: int| 0 <= j < k as int ==> has_id(splits@, #[trigger] ids@[j]@),
        decreases n - k,
    {
        match find_split(splits, &ids[k]) {
            None => {
                return false;
            },
            Some(_) => {},
        }
        k = k + 1;
    }
    true
}

/// Moves every listed row to `state` and leaves the others untouched.
fn set_states(splits: &mut Vec<SplitMetadata>, ids: &Vec<String>, state: SplitState)
    ensures
        final(splits)@ == rows_with_states(old(splits)@, ids@, state),
{
    let n = splits.len();
    let mut updated: Vec<SplitMetadata> = Vec::new();
    let mut i: usize = 0;
    while i < n
        invariant
            n == splits@.len(),
            splits@ == old(splits)@,
            i <= n,
            updated@.len() == i as int,
            forall|k: int| #![trigger updated@[k]]
                0 <= k < i as int ==> updated@[k] == rows_with_states(splits@, ids@, state)[k],
        decreases n - i,
    {
        let row = splits[i].clone();
        if contains_id(ids, &row.split_id) {
            updated.push(SplitMetadata { split_state: state, ..row });
        } else {
            updated.push(row);
        }
        i = i + 1;
    }
    *splits = updated;
    proof {
        assert(final(splits)@ =~= rows_with_states(old(splits)@, ids@, state));
    }
}


/// A metastore root, holding at most one index and the rows of its
/// splits. Every mutation checks its inputs first and then applies in
/// full: a refused call leaves the store exactly as it was, so readers
/// see either the pre-state or the post-state.
#[derive(Debug)]
pub struct Metastore {
    /// The metadata set of this root's index, once one was created.
    pub metadata: Option<MetadataSet>,
}

impl Metastore {
    /// The store is empty or holds a well-formed metadata set.
    pub open spec fn wf(self) -> bool {
        match self.metadata {
            Option::Some(ms) => ms.wf(),
            Option::None => true,
        }
    }

    /// Whether this root holds an index named `index_id`.
    pub open spec fn has_index(self, index_id: Seq<char>) -> bool {
        match self.metadata {
            Option::Some(ms) => ms.index.index_id@ == index_id,
            Option::None => false,
        }
    }

    /// The stored split rows (meaningful once an index exists).
    pub open spec fn splits(self) -> Seq<SplitMetadata> {
        self.metadata->Some_0.splits@
    }

    /// The stored index metadata (meaningful once an index exists).
    pub open spec fn index(self) -> IndexMetadata {
        self.metadata->Some_0.index
    }

    /// An empty metastore root: no index yet.
    pub fn new() -> (r: Metastore)
        ensures
            r.wf(),
            r.metadata is None,
    {
        Metastore { metadata: None }
    }

    /// Creates the index of this root. Refused when one exists.
    pub fn create_index(&mut self, index_metadata: IndexMetadata) -> (r: Result<(), MetastoreError>)
        requires
            old(self).wf(),
            index_metadata.checkpoint.wf(),
        ensures
            final(self).wf(),
            r is Ok <==> old(self).metadata is None,
            r is Err ==> *final(self) == *old(self) && r == Err::<(), MetastoreError>(
                MetastoreError::IndexAlreadyExists,
            ),
            r is Ok ==> {
                &&& final(self).metadata is Some
                &&& final(self).index() == index_metadata
                &&& final(self).splits() == Seq::<SplitMetadata>::empty()
            },
    {
        match &self.metadata {
            Some(_) => Err(MetastoreError::IndexAlreadyExists),
            None => {
                let splits: Vec<SplitMetadata> = Vec::new();
                proof {
                    assert(splits@ =~= Seq::<SplitMetadata>::empty());
                }
                self.metadata = Some(MetadataSet { index: index_metadata, splits });
                Ok(())
            },
        }
    }

    /// Drops the index of this root and every row with it. Refused
    /// while any split is still `Published`: the caller marks them as
    /// deleted first, so no searchable split ever loses its row.
    pub fn delete_index(&mut self, index_id: &String) -> (r: Result<(), MetastoreError>)
        requires
            old(self).wf(),
        ensures
            final(self).wf(),
            r is Ok <==> old(self).has_index(index_id@) && (forall|i: int|
                0 <= i < old(self).splits().len() ==> #[trigger] old(self).splits()[i].split_state
                    != SplitState::Published),
            r is Err ==> *final(self) == *old(self),
            r == Err::<(), MetastoreError>(MetastoreError::IndexDoesNotExist) <==> !old(
                self,
            ).has_index(index_id@),
            r is Ok ==> final(self).metadata is None,
    {
        match &self.metadata {
            None => Err(MetastoreError::IndexDoesNotExist),
            Some(ms) => {
                if !(ms.index.index_id == *index_id) {
                    return Err(MetastoreError::IndexDoesNotExist);
                }
                if any_published(&ms.splits) {
                    return Err(MetastoreError::ForbiddenSplitState);
                }
                self.metadata = None;
                Ok(())
            },
        }
    }

    /// A copy of the stored index metadata.
    pub fn index_metadata(&self, index_id: &String) -> (r: Result<IndexMetadata, MetastoreError>)
        requires
            self.wf(),
        ensures
            match r {
                Ok(im) => {
                    &&& self.has_index(index_id@)
                    &&& index_metadata_like(im, self.index())
                    &&& im.checkpoint.wf()
                },
                Err(e) => !self.has_index(index_id@) && e == MetastoreError::IndexDoesNotExist,
            },
    {
        match &self.metadata {
            None => Err(MetastoreError::IndexDoesNotExist),
            Some(ms) => {
                if ms.index.index_id == *index_id {
                    Ok(ms.index.clone())
                } else {
                    Err(MetastoreError::IndexDoesNotExist)
                }
            },
        }
    }

    /// Records a new split in state `Staged`, whatever state the
    /// incoming record carried. A split must be staged before any of
    /// its files goes to storage. Refused when the id already has a
    /// row.
    pub fn stage_split(&mut self, index_id: &String, split_metadata: SplitMetadata) -> (r: Result<
        (),
        MetastoreError,
    >)
        requires
            old(self).wf(),
        ensures
            final(self).wf(),
            r is Ok <==> old(self).has_index(index_id@) && !has_id(
                old(self).splits(),
                split_metadata.split_id@,
            ),
            r is Err ==> *final(self) == *old(self),
            r == Err::<(), MetastoreError>(MetastoreError::IndexDoesNotExist) <==> !old(
                self,
            ).has_index(index_id@),
            r is Ok ==> {
                &&& final(self).metadata is Some
                &&& final(self).index() == old(self).index()
                &&& final(self).splits() == old(self).splits().push(
                    with_state(split_metadata, SplitState::Staged),
                )
            },
    {
        let taken = self.metadata.take();
        match taken {
            None => Err(MetastoreError::IndexDoesNotExist),
            Some(mut ms) => {
                if !(ms.index.index_id == *index_id) {
                    self.metadata = Some(ms);
                    return Err(MetastoreError::IndexDoesNotExist);
                }
                match find_split(&ms.splits, &split_metadata.split_id) {
                    Some(_) => {
                        self.metadata = Some(ms);
                        Err(MetastoreError::SplitAlreadyExists)
                    },
                    None => {
                        let staged = SplitMetadata {
                            split_state: SplitState::Staged,
                            ..split_metadata
                        };
                        ms.splits.push(staged);
                        self.metadata = Some(ms);
                        Ok(())
                    },
                }
            },
        }
    }

    /// Moves the listed splits from `Staged` to `Published`: their
    /// files are all in storage and they become searchable. Publishing
    /// an already-published split succeeds and changes nothing, so the
    /// call is idempotent. Refused in full unless every listed id has
    /// a row in `Staged` or `Published`.
    pub fn publish_splits(&mut self, index_id: &String, split_ids: &Vec<String>) -> (r: Result<
        (),
        MetastoreError,
    >)
        requires
            old(self).wf(),
        ensures
            final(self).wf(),
            r is Ok <==> old(self).has_index(index_id@) && (forall|k: int|
                0 <= k < split_ids@.len() ==> #[trigger] row_ok(
                    old(self).splits(),
                    split_ids@[k]@,
                    SplitState::Staged,
                    SplitState::Published,
                )),
            r is Err ==> *final(self) == *old(self),
            r == Err::<(), MetastoreError>(MetastoreError::IndexDoesNotExist) <==> !old(
                self,
            ).has_index(index_id@),
            r == Err::<(), MetastoreError>(MetastoreError::SplitDoesNotExist) ==> exists|k: int|
                0 <= k < split_ids@.len() && !has_id(old(self).splits(), #[trigger] split_ids@[k]@),
            r is Ok ==> {
                &&& final(self).metadata is Some
                &&& final(self).index() == old(self).index()
                &&& final(self).splits() == rows_with_states(
                    old(self).splits(),
                    split_ids@,
                    SplitState::Published,
                )
            },
    {
        let taken = self.metadata.take();
        match taken {
            None => Err(MetastoreError::IndexDoesNotExist),
            Some(mut ms) => {
                if !(ms.index.index_id == *index_id) {
                    self.metadata = Some(ms);
                    return Err(MetastoreError::IndexDoesNotExist);
                }
                proof {
                    assert(ms.splits@ == old(self).splits());
                }
                match check_rows(&ms.splits, split_ids, SplitState::Staged, SplitState::Published) {
                    Err(e) => {
                        self.metadata = Some(ms);
                        Err(e)
                    },
                    Ok(()) => {
                        proof {
                            assert(forall|k: int|
                                0 <= k < split_ids@.len() ==> #[trigger] row_ok(
                                    old(self).splits(),
                                    split_ids@[k]@,
                                    SplitState::Staged,
                                    SplitState::Published,
                                ));
                        }
                        set_states(&mut ms.splits, split_ids, SplitState::Published);
                        self.metadata = Some(ms);
                        Ok(())
                    },
                }
            },
        }
    }

    /// Moves every listed split to `ScheduledForDeletion`, from any
    /// stored state: the splits leave search and await cleanup. The
    /// call is idempotent. Refused in full unless every listed id has
    /// a row.
    pub fn mark_splits_as_deleted(&mut self, index_id: &String, split_ids: &Vec<String>) -> (r:
        Result<(), MetastoreError>)
        requires
            old(self).wf(),
        ensures
            final(self).wf(),
            r is Ok <==> old(self).has_index(index_id@) && (forall|k: int|
                0 <= k < split_ids@.len() ==> has_id(old(self).splits(), #[trigger] split_ids@[k]@)),
            r is Err ==> *final(self) == *old(self),
            r == Err::<(), MetastoreError>(MetastoreError::IndexDoesNotExist) <==> !old(
                self,
            ).has_index(index_id@),
            r is Ok ==> {
                &&& final(self).metadata is Some
                &&& final(self).index() == old(self).index()
                &&& final(self).splits() == rows_with_states(
                    old(self).splits(),
                    split_ids@,
                    SplitState::ScheduledForDeletion,
                )
            },
    {
        let taken = self.metadata.take();
        match taken {
            None => Err(MetastoreError::IndexDoesNotExist),
            Some(mut ms) => {
                if !(ms.index.index_id == *index_id) {
                    self.metadata = Some(ms);
                    return Err(MetastoreError::IndexDoesNotExist);
                }
                if !check_all_exist(&ms.splits, split_ids) {
                    self.metadata = Some(ms);
                    return Err(MetastoreError::SplitDoesNotExist);
                }
                set_states(&mut ms.splits, split_ids, SplitState::ScheduledForDeletion);
                self.metadata = Some(ms);
                Ok(())
            },
        }
    }

    /// Removes the rows of the listed splits. Legal only from `Staged`
    /// or `ScheduledForDeletion`: a published split keeps its row until
    /// it is marked as deleted. Refused in full otherwise.
    pub fn delete_splits(&mut self, index_id: &String, split_ids: &Vec<String>) -> (r: Result<
        (),
        MetastoreError,
    >)
        requires
            old(self).wf(),
        ensures
            final(self).wf(),
            r is Ok <==> old(self).has_index(index_id@) && (forall|k: int|
                0 <= k < split_ids@.len() ==> #[trigger] row_ok(
                    old(self).splits(),
                    split_ids@[k]@,
                    SplitState::Staged,
                    SplitState::ScheduledForDeletion,
                )),
            r is Err ==> *final(self) == *old(self),
            r == Err::<(), MetastoreError>(MetastoreError::IndexDoesNotExist) <==> !old(
                self,
            ).has_index(index_id@),
            r == Err::<(), MetastoreError>(MetastoreError::SplitDoesNotExist) ==> exists|k: int|
                0 <= k < split_ids@.len() && !has_id(old(self).splits(), #[trigger] split_ids@[k]@),
            r is Ok ==> {
                &&& final(self).metadata is Some
                &&& final(self).index() == old(self).index()
                &&& final(self).splits() == old(self).splits().filter(
                    |s: SplitMetadata| !id_listed(split_ids@, s.split_id@),
                )
            },
    {
        let taken = self.metadata.take();
        match taken {
            None => Err(MetastoreError::IndexDoesNotExist),
            Some(mut ms) => {
                if !(ms.index.index_id == *index_id) {
                    self.metadata = Some(ms);
                    return Err(MetastoreError::IndexDoesNotExist);
                }
                proof {
                    assert(ms.splits@ == old(self).splits());
                }
                match check_rows(
                    &ms.splits,
                    split_ids,
                    SplitState::Staged,
                    SplitState::ScheduledForDeletion,
                ) {
                    Err(e) => {
                        self.metadata = Some(ms);
                        Err(e)
                    },
                    Ok(()) => {
                        proof {
                            assert(forall|k: int|
                                0 <= k < split_ids@.len() ==> #[trigger] row_ok(
                                    old(self).splits(),
                                    split_ids@[k]@,
                                    SplitState::Staged,
                                    SplitState::ScheduledForDeletion,
                                ));
                            lemma_filter_keeps_wf(
                                ms.splits@,
                                |s: SplitMetadata| !id_listed(split_ids@, s.split_id@),
                            );
                        }
                        remove_listed(&mut ms.splits, split_ids);
                        self.metadata = Some(ms);
                        Ok(())
                    },
                }
            },
        }
    }

    /// The rows in `split_state` that the query time range keeps: a
    /// row whose range intersects the query, or with no range at all,
    /// passes; with no query every row in the state passes.
    pub fn list_splits(
        &self,
        index_id: &String,
        split_state: SplitState,
        time_range: &Option<TimeRange>,
    ) -> (r: Result<Vec<SplitMetadata>, MetastoreError>)
        requires
            self.wf(),
        ensures
            match r {
                Ok(v) => self.has_index(index_id@) && v@ == self.splits().filter(
                    |s: SplitMetadata| split_selected(s, split_state, *time_range),
                ),
                Err(e) => !self.has_index(index_id@) && e == MetastoreError::IndexDoesNotExist,
            },
    {
        match &self.metadata {
            None => Err(MetastoreError::IndexDoesNotExist),
            Some(ms) => {
                if !(ms.index.index_id == *index_id) {
                    return Err(MetastoreError::IndexDoesNotExist);
                }
                let ghost pred = |s: SplitMetadata| split_selected(s, split_state, *time_range);
                let n = ms.splits.len();
                let mut out: Vec<SplitMetadata> = Vec::new();
                let mut i: usize = 0;
                proof {
                    assert(ms.splits@.take(0).filter(pred) =~= Seq::<SplitMetadata>::empty());
                }
                while i < n
                    invariant
                        n == ms.splits@.len(),
                        i <= n,
                        out@ == ms.splits@.take(i as int).filter(pred),
                        pred == (|s: SplitMetadata| split_selected(s, split_state, *time_range)),
                    decreases n - i,
                {
                    if split_matches(&ms.splits[i], split_state, time_range) {
                        out.push(ms.splits[i].clone());
                    }
                    proof {
                        crate::seq_lemmas::lemma_filter_take_step(ms.splits@, pred, i as int);
                    }
                    i = i + 1;
                }
                proof {
                    crate::seq_lemmas::lemma_take_all(ms.splits@);
                }
                Ok(out)
            },
        }
    }

    /// A copy of every stored row, whatever its state.
    pub fn list_all_splits(&self, index_id: &String) -> (r: Result<Vec<SplitMetadata>, MetastoreError>)
        requires
            self.wf(),
        ensures
            match r {
                Ok(v) => self.has_index(index_id@) && v@ == self.splits(),
                Err(e) => !self.has_index(index_id@) && e == MetastoreError::IndexDoesNotExist,
            },
    {
        match &self.metadata {
            None => Err(MetastoreError::IndexDoesNotExist),
            Some(ms) => {
                if !(ms.index.index_id == *index_id) {
                    return Err(MetastoreError::IndexDoesNotExist);
                }
                let n = ms.splits.len();
                let mut out: Vec<SplitMetadata> = Vec::new();
                let mut i: usize = 0;
                while i < n
                    invariant
                        n == ms.splits@.len(),
                        i <= n,
                        out@.len() == i as int,
                        forall|k: int| 0 <= k < i as int ==> #[trigger] out@[k] == ms.splits@[k],
                    decreases n - i,
                {
                    out.push(ms.splits[i].clone());
                    i = i + 1;
                }
                proof {
                    assert(out@ =~= ms.splits@);
                }
                Ok(out)
            },
        }
    }

    /// Merges a split's checkpoint update into the index's stored
    /// high-water mark: the publisher calls this when it publishes the
    /// split that carried the update.
    pub fn advance_checkpoint(&mut self, index_id: &String, checkpoint_update: Checkpoint) -> (r:
        Result<(), MetastoreError>)
        requires
            old(self).wf(),
            checkpoint_update.wf(),
        ensures
            final(self).wf(),
            r is Ok <==> old(self).has_index(index_id@),
            r is Err ==> *final(self) == *old(self) && r == Err::<(), MetastoreError>(
                MetastoreError::IndexDoesNotExist,
            ),
            r is Ok ==> {
                &&& final(self).metadata is Some
                &&& final(self).index().checkpoint@ == old(self).index().checkpoint@.union_prefer_right(
                    checkpoint_update@,
                )
                &&& final(self).index().index_id == old(self).index().index_id
                &&& final(self).index().index_uri == old(self).index().index_uri
                &&& final(self).index().index_config == old(self).index().index_config
                &&& final(self).splits() == old(self).splits()
            },
    {
        let taken = self.metadata.take();
        match taken {
            None => Err(MetastoreError::IndexDoesNotExist),
            Some(mut ms) => {
                if !(ms.index.index_id == *index_id) {
                    self.metadata = Some(ms);
                    return Err(MetastoreError::IndexDoesNotExist);
                }
                ms.index.checkpoint.update_checkpoint(checkpoint_update);
                self.metadata = Some(ms);
                Ok(())
            },
        }
    }
}

/// Filtering rows keeps ids unique and states persistent: the store
/// stays well-formed when rows are removed.
proof fn lemma_filter_keeps_wf(s: Seq<SplitMetadata>, pred: spec_fn(SplitMetadata) -> bool)
    requires
        unique_ids(s),
        stored_states(s),
    ensures
        unique_ids(s.filter(pred)),
        stored_states(s.filter(pred)),
    decreases s.len(),
{
    reveal(Seq::filter);
    if s.len() > 0 {
        let d = s.drop_last();
        assert(unique_ids(d)) by {
            assert(forall|i: int| 0 <= i < d.len() ==> d[i] == s[i]);
        }
        assert(stored_states(d)) by {
            assert(forall|i: int| 0 <= i < d.len() ==> d[i] == s[i]);
        }
        lemma_filter_keeps_wf(d, pred);
        let fd = d.filter(pred);
        let f = s.filter(pred);
        if pred(s.last()) {
            assert(f == fd.push(s.last()));
            assert forall|i: int, j: int| 0 <= i < j < f.len() implies f[i].split_id@
                != f[j].split_id@ by {
                if j < fd.len() {
                    assert(f[i] == fd[i] && f[j] == fd[j]);
                } else {
                    assert(f[j] == s.last());
                    assert(f[i] == fd[i]);
                    assert(fd.contains(fd[i]));
                    crate::seq_lemmas::lemma_filter_membership(d, pred, fd[i]);
                    let a = choose|a: int| 0 <= a < d.len() && d[a] == fd[i];
                    assert(s[a] == fd[i]);
                    assert(s[a].split_id@ != s[s.len() - 1].split_id@);
                }
            }
            assert forall|i: int| 0 <= i < f.len() implies #[trigger] f[i].split_state
                != SplitState::New by {
                if i < fd.len() {
                    assert(f[i] == fd[i]);
                } else {
                    assert(f[i] == s.last());
                    assert(s[s.len() - 1].split_state != SplitState::New);
                }
            }
        }
    }
}

/// Whether any row is still `Published`.
fn any_published(splits: &Vec<SplitMetadata>) -> (r: bool)
    ensures
        r <==> exists|i: int|
            0 <= i < splits@.len() && #[trigger] splits@[i].split_state == SplitState::Published,
{
    let n = splits.len();
    let mut i: usize = 0;
    while i < n
        invariant
            n == splits@.len(),
            i <= n,
            forall|k: int|
                0 <= k < i as int ==> #[trigger] splits@[k].split_state != SplitState::Published,
        decreases n - i,
    {
        if splits[i].split_state == SplitState::Published {
            return true;
        }
        i = i + 1;
    }
    false
}

/// Whether the row passes the `list_splits` selection.
fn split_matches(s: &SplitMetadata, state: SplitState, time_range: &Option<TimeRange>) -> (r: bool)
    ensures
        r == split_selected(*s, state, *time_range),
{
    if !(s.split_state == state) {
        return false;
    }
    match (time_range, &s.time_range) {
        (None, _) => true,
        (Some(_), None) => true,
        (Some(q), Some(sr)) => q.start < sr.end && sr.start < q.end,
    }
}

/// Removes every listed row and keeps the rest in order.
fn remove_listed(splits: &mut Vec<SplitMetadata>, ids: &Vec<String>)
    ensures
        final(splits)@ == old(splits)@.filter(|s: SplitMetadata| !id_listed(ids@, s.split_id@)),
{
    let ghost pred = |s: SplitMetadata| !id_listed(ids@, s.split_id@);
    let n = splits.len();
    let mut kept: Vec<SplitMetadata> = Vec::new();
    let mut i: usize = 0;
    proof {
        assert(splits@.take(0).filter(pred) =~= Seq::<SplitMetadata>::empty());
    }
    while i < n
        invariant
            n == splits@.len(),
            splits@ == old(splits)@,
            i <= n,
            kept@ == splits@.take(i as int).filter(pred),
            pred == (|s: SplitMetadata| !id_listed(ids@, s.split_id@)),
        decreases n - i,
    {
        let row = splits[i].clone();
        if !contains_id(ids, &row.split_id) {
            kept.push(row);
        }
        proof {
            crate::seq_lemmas::lemma_filter_take_step(splits@, pred, i as int);
        }
        i = i + 1;
    }
    proof {
        crate::seq_lemmas::lemma_take_all(splits@);
    }
    *splits = kept;
}

/// A well-formed store holds exactly one row per split id, and that
/// row is `Staged`, `Published` or `ScheduledForDeletion`: two rows
/// with one id are the same row, and no row is `New`.
pub proof fn lemma_one_row_per_split(ms: MetadataSet, i: int, j: int)
    requires
        ms.wf(),
        0 <= i < ms.splits@.len(),
        0 <= j < ms.splits@.len(),
        ms.splits@[i].split_id@ == ms.splits@[j].split_id@,
    ensures
        i == j,
        ms.splits@[i].split_state != SplitState::New,
{
    if i < j {
        assert(ms.splits@[i].split_id@ != ms.splits@[j].split_id@);
    } else if j < i {
        assert(ms.splits@[j].split_id@ != ms.splits@[i].split_id@);
    }
}

/// What `list_splits` returns, element by element: every row of the
/// store in the requested state that the time query keeps, and
/// nothing else. With state `Published` and a query range this is the
/// listing the root search plans from: every published split whose
/// range intersects the query plus every published split without a
/// range.
pub proof fn lemma_list_splits_characterization(
    splits: Seq<SplitMetadata>,
    state: SplitState,
    query: Option<TimeRange>,
    r: Seq<SplitMetadata>,
)
    requires
        r == splits.filter(|s: SplitMetadata| split_selected(s, state, query)),
    ensures
        forall|j: int| #![trigger r[j]]
            0 <= j < r.len() ==> splits.contains(r[j]) && r[j].split_state == state
                && time_range_selects(query, r[j].time_range),
        forall|i: int| #![trigger splits[i]]
            0 <= i < splits.len() && splits[i].split_state == state && time_range_selects(
                query,
                splits[i].time_range,
            ) ==> r.contains(splits[i]),
{
    let pred = |s: SplitMetadata| split_selected(s, state, query);
    assert forall|j: int| 0 <= j < r.len() implies splits.contains(#[trigger] r[j])
        && r[j].split_state == state && time_range_selects(query, r[j].time_range) by {
        assert(r.contains(r[j]));
        crate::seq_lemmas::lemma_filter_membership(splits, pred, r[j]);
    }
    assert forall|i: int|
        0 <= i < splits.len() && (#[trigger] splits[i]).split_state == state
            && time_range_selects(query, splits[i].time_range) implies r.contains(splits[i]) by {
        crate::seq_lemmas::lemma_filter_membership(splits, pred, splits[i]);
    }
}

/// An empty query range `[t, t)` keeps exactly the splits whose range
/// strictly contains the instant `t`, besides those with no range.
pub proof fn lemma_empty_query_selects_interior(query: TimeRange, split: TimeRange)
    requires
        query.start == query.end,
    ensures
        ranges_intersect(query, split) <==> split.start < query.start < split.end,
{
}

/// Publishing is idempotent: the listed rows are already `Published`
/// after the first call, so they still qualify for publishing and a
/// second call leaves every row exactly as it was.
pub proof fn lemma_publish_idempotent(splits: Seq<SplitMetadata>, ids: Seq<String>)
    requires
        forall|k: int|
            0 <= k < ids.len() ==> #[trigger] row_ok(
                splits,
                ids[k]@,
                SplitState::Staged,
                SplitState::Published,
            ),
    ensures
        forall|k: int|
            0 <= k < ids.len() ==> #[trigger] row_ok(
                rows_with_states(splits, ids, SplitState::Published),
                ids[k]@,
                SplitState::Staged,
                SplitState::Published,
            ),
        rows_with_states(
            rows_with_states(splits, ids, SplitState::Published),
            ids,
            SplitState::Published,
        ) == rows_with_states(splits, ids, SplitState::Published),
{
    let once = rows_with_states(splits, ids, SplitState::Published);
    assert forall|k: int| 0 <= k < ids.len() implies #[trigger] row_ok(
        once,
        ids[k]@,
        SplitState::Staged,
        SplitState::Published,
    ) by {
        assert(row_ok(splits, ids[k]@, SplitState::Staged, SplitState::Published));
        let i = choose|i: int|
            0 <= i < splits.len() && splits[i].split_id@ == ids[k]@ && (splits[i].split_state
                == SplitState::Staged || splits[i].split_state == SplitState::Published);
        assert(ids[k]@ == splits[i].split_id@);
        assert(id_listed(ids, splits[i].split_id@));
        assert(once[i] == with_state(splits[i], SplitState::Published));
    }
    assert(rows_with_states(once, ids, SplitState::Published) =~= once);
}

/// Marking splits as deleted is idempotent: a marked row still has a
/// row, so the second call is legal, and it changes nothing.
pub proof fn lemma_mark_idempotent(splits: Seq<SplitMetadata>, ids: Seq<String>)
    requires
        forall|k: int| 0 <= k < ids.len() ==> has_id(splits, #[trigger] ids[k]@),
    ensures
        forall|k: int|
            0 <= k < ids.len() ==> has_id(
                rows_with_states(splits, ids, SplitState::ScheduledForDeletion),
                #[trigger] ids[k]@,
            ),
        rows_with_states(
            rows_with_states(splits, ids, SplitState::ScheduledForDeletion),
            ids,
            SplitState::ScheduledForDeletion,
        ) == rows_with_states(splits, ids, SplitState::ScheduledForDeletion),
{
    let once = rows_with_states(splits, ids, SplitState::ScheduledForDeletion);
    assert forall|k: int| 0 <= k < ids.len() implies has_id(once, #[trigger] ids[k]@) by {
        assert(has_id(splits, ids[k]@));
        let i = choose|i: int| 0 <= i < splits.len() && splits[i].split_id@ == ids[k]@;
        assert(once[i].split_id@ == ids[k]@);
    }
    assert(rows_with_states(once, ids, SplitState::ScheduledForDeletion) =~= once);
}

/// The two legal lives of a split. After staging a fresh split,
/// publishing it is legal; after publishing, marking it as deleted is
/// legal; after marking, deleting the row is legal. Skipping the
/// publish — stage, mark, delete — is legal too, since deletion
/// accepts `Staged` rows directly.
pub proof fn lemma_split_lifecycle(
    splits: Seq<SplitMetadata>,
    s: SplitMetadata,
    publish_ids: Seq<String>,
    mark_ids: Seq<String>,
)
    requires
        !has_id(splits, s.split_id@),
        id_listed(publish_ids, s.split_id@),
        id_listed(mark_ids, s.split_id@),
    ensures
        // publishing the staged split is legal
        row_ok(
            splits.push(with_state(s, SplitState::Staged)),
            s.split_id@,
            SplitState::Staged,
            SplitState::Published,
        ),
        // so is deleting it without publishing
        row_ok(
            splits.push(with_state(s, SplitState::Staged)),
            s.split_id@,
            SplitState::Staged,
            SplitState::ScheduledForDeletion,
        ),
        // after publishing, the row is still there to be marked
        has_id(
            rows_with_states(
                splits.push(with_state(s, SplitState::Staged)),
                publish_ids,
                SplitState::Published,
            ),
            s.split_id@,
        ),
        // and after marking, deleting the row is legal
        row_ok(
            rows_with_states(
                rows_with_states(
                    splits.push(with_state(s, SplitState::Staged)),
                    publish_ids,
                    SplitState::Published,
                ),
                mark_ids,
                SplitState::ScheduledForDeletion,
            ),
            s.split_id@,
            SplitState::Staged,
            SplitState::ScheduledForDeletion,
        ),
{
    let staged = splits.push(with_state(s, SplitState::Staged));
    let n = splits.len() as int;
    assert(staged[n] == with_state(s, SplitState::Staged));
    assert(staged[n].split_id@ == s.split_id@);
    let published = rows_with_states(staged, publish_ids, SplitState::Published);
    assert(published[n] == with_state(staged[n], SplitState::Published));
    let marked = rows_with_states(published, mark_ids, SplitState::ScheduledForDeletion);
    assert(marked[n] == with_state(published[n], SplitState::ScheduledForDeletion));
}

} // verus!
