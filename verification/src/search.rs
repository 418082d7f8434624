//! The search data model and the root-side merge: top-k selection of
//! partial hits across leaves, assignment of splits to clients,
//! analysis of per-node failures, and the final ordering and slicing
//! of fetched documents.

use vstd::prelude::*;
use vstd::seq_lib::lemma_multiset_commutative;
use vstd::multiset::Multiset;
use crate::metastore::SplitMetadata;

verus! {

/// A search request as the root receives it.
#[derive(Debug)]
pub struct SearchRequest {
    /// The index to search.
    pub index_id: String,
    /// The query string.
    pub query: String,
    /// Fields to search; empty means the index's defaults.
    pub search_fields: Vec<String>,
    /// Lower bound of the time filter, if any.
    pub start_timestamp: Option<i64>,
    /// Upper bound of the time filter, if any.
    pub end_timestamp: Option<i64>,
    /// How many hits to return.
    pub max_hits: u32,
    /// How many leading hits to skip.
    pub start_offset: u32,
}

/// Enough of a hit to fetch the full document later.
#[derive(Debug)]
pub struct PartialHit {
    /// The value ordering the hits, larger first.
    pub sorting_field_value: i64,
    /// The split holding the document.
    pub split_id: String,
    /// The segment within the split.
    pub segment_ord: u32,
    /// The document within the segment.
    pub doc_id: u32,
}

impl Clone for PartialHit {
    fn clone(&self) -> (r: Self)
        ensures
            r == *self,
    {
        PartialHit {
            sorting_field_value: self.sorting_field_value,
            split_id: self.split_id.clone(),
            segment_ord: self.segment_ord,
            doc_id: self.doc_id,
        }
    }
}

/// A per-split failure reported inside an otherwise successful leaf
/// response.
#[derive(Debug)]
pub struct SplitSearchError {
    /// The split whose search failed.
    pub split_id: String,
    /// What went wrong, as text.
    pub error: String,
}

impl Clone for SplitSearchError {
    fn clone(&self) -> (r: Self)
        ensures
            r == *self,
    {
        SplitSearchError { split_id: self.split_id.clone(), error: self.error.clone() }
    }
}

/// What one leaf (or one split task) reports back.
#[derive(Debug)]
pub struct LeafSearchResult {
    /// How many documents matched in total, before truncation.
    pub num_hits: u64,
    /// The best hits, best first.
    pub partial_hits: Vec<PartialHit>,
    /// The splits whose search failed, with their errors.
    pub failed_requests: Vec<SplitSearchError>,
    /// How many splits this result covers.
    pub num_attempted_splits: u64,
}

/// A fetched document together with the partial hit it answers.
#[derive(Debug)]
pub struct Hit {
    /// The partial hit this document was fetched for.
    pub partial_hit: Option<PartialHit>,
    /// The document payload as JSON text.
    pub json: String,
}

impl Clone for Hit {
    fn clone(&self) -> (r: Self)
        ensures
            r == *self,
    {
        let partial_hit = match &self.partial_hit {
            Some(ph) => Some(ph.clone()),
            None => None,
        };
        Hit { partial_hit, json: self.json.clone() }
    }
}

/// The result of the fetch-docs phase of one client.
#[derive(Debug)]
pub struct FetchDocsResult {
    /// The fetched documents.
    pub hits: Vec<Hit>,
}

/// What the root returns to the caller.
#[derive(Debug)]
pub struct SearchResult {
    /// How many documents matched in total.
    pub num_hits: u64,
    /// The requested window of hits, best first.
    pub hits: Vec<Hit>,
    /// Wall-clock duration of the search, in microseconds.
    pub elapsed_time_micros: u64,
}

/// Why a search failed.
#[derive(Debug, Clone, PartialEq, Eq)]
pub enum SearchError {
    /// The request named an index the metastore does not hold.
    IndexDoesNotExist,
    /// Something broke on the serving path.
    InternalError(String),
    /// The peer cannot serve right now; retrying elsewhere may help.
    Unavailable,
}

/// A whole leaf request that failed, with the splits it covered.
#[derive(Debug)]
pub struct NodeSearchError {
    /// The error the node reported.
    pub search_error: SearchError,
    /// The splits that request covered.
    pub split_ids: Vec<String>,
}

/// One unit of leaf work: search one split, at some cost.
#[derive(Debug)]
pub struct Job {
    /// The split to search.
    pub split: String,
    /// The cost the assignment balances; 1 per split for now.
    pub cost: u32,
}

impl Clone for Job {
    fn clone(&self) -> (r: Self)
        ensures
            r == *self,
    {
        Job { split: self.split.clone(), cost: self.cost }
    }
}

/// The cost of searching one split. A placeholder for a smarter
/// estimate: every split costs the same for now.
pub fn compute_split_cost(split_metadata: &SplitMetadata) -> (r: u32)
    ensures
        r == 1,
{
    let _ = split_metadata;
    1
}

/// Inserting a hit into a list that is sorted by descending sorting
/// value: the hit goes behind every at-least-as-large value, so equal
/// values keep their order.
pub open spec fn insert_desc(x: PartialHit, s: Seq<PartialHit>) -> Seq<PartialHit>
    decreases s.len(),
{
    if s.len() == 0 {
        seq![x]
    } else if s[0].sorting_field_value >= x.sorting_field_value {
        seq![s[0]] + insert_desc(x, s.drop_first())
    } else {
        seq![x] + s
    }
}

/// Insertion sort by descending sorting value, stable for equal
/// values. This is the one order every merge step uses, so the same
/// hits always come out in the same order.
pub open spec fn sort_desc(s: Seq<PartialHit>) -> Seq<PartialHit>
    decreases s.len(),
{
    if s.len() == 0 {
        Seq::empty()
    } else {
        insert_desc(s.last(), sort_desc(s.drop_last()))
    }
}

/// Whether the sorting values never grow along the sequence.
pub open spec fn sorted_desc(s: Seq<PartialHit>) -> bool {
    forall|i: int, j: int|
        0 <= i < j < s.len() ==> s[i].sorting_field_value >= s[j].sorting_field_value
}

/// Inserting keeps a descending list descending and adds exactly the
/// new hit.
proof fn lemma_insert_desc_props(x: PartialHit, s: Seq<PartialHit>)
    requires
        sorted_desc(s),
    ensures
        sorted_desc(insert_desc(x, s)),
        insert_desc(x, s).to_multiset() == s.to_multiset().insert(x),
        insert_desc(x, s).len() == s.len() + 1,
    decreases s.len(),
{
    broadcast use vstd::seq_lib::group_to_multiset_ensures;
    broadcast use vstd::multiset::group_multiset_axioms;

    if s.len() == 0 {
        assert(seq![x] =~= s.push(x));
    } else if s[0].sorting_field_value >= x.sorting_field_value {
        assert(sorted_desc(s.drop_first())) by {
            assert(forall|i: int| 0 <= i < s.drop_first().len() ==> s.drop_first()[i] == s[i + 1]);
        }
        lemma_insert_desc_props(x, s.drop_first());
        let t = insert_desc(x, s.drop_first());
        assert forall|i: int, j: int|
            0 <= i < j < (seq![s[0]] + t).len() implies (seq![s[0]] + t)[i].sorting_field_value
            >= (seq![s[0]] + t)[j].sorting_field_value by {
            if i > 0 {
                assert((seq![s[0]] + t)[i] == t[i - 1]);
                assert((seq![s[0]] + t)[j] == t[j - 1]);
            } else {
                assert((seq![s[0]] + t)[j] == t[j - 1]);
                // the head bounds the inserted hit and every old hit
                assert(t.to_multiset().contains(t[j - 1]));
                assert(s.drop_first().to_multiset().insert(x).contains(t[j - 1]));
                if t[j - 1] == x {
                } else {
                    assert(s.drop_first().to_multiset().contains(t[j - 1]));
                    assert(s.drop_first().contains(t[j - 1]));
                    let k = choose|k: int|
                        0 <= k < s.drop_first().len() && s.drop_first()[k] == t[j - 1];
                    assert(s[k + 1] == t[j - 1]);
                }
            }
        }
        lemma_multiset_commutative(seq![s[0]], t);
        lemma_multiset_commutative(seq![s[0]], s.drop_first());
        assert(seq![s[0]] + s.drop_first() =~= s);
        assert((seq![s[0]] + t).to_multiset() =~= s.to_multiset().insert(x));
    } else {
        lemma_multiset_commutative(seq![x], s);
        assert(seq![x] =~= Seq::<PartialHit>::empty().push(x));
        assert((seq![x] + s).to_multiset() =~= s.to_multiset().insert(x));
    }
}

/// The sort returns the same hits, in descending order.
pub proof fn lemma_sort_desc_props(s: Seq<PartialHit>)
    ensures
        sorted_desc(sort_desc(s)),
        sort_desc(s).to_multiset() == s.to_multiset(),
        sort_desc(s).len() == s.len(),
    decreases s.len(),
{
    if s.len() > 0 {
        broadcast use vstd::seq_lib::group_to_multiset_ensures;

        lemma_sort_desc_props(s.drop_last());
        lemma_insert_desc_props(s.last(), sort_desc(s.drop_last()));
        assert(s.drop_last().push(s.last()).to_multiset() == s.drop_last().to_multiset().insert(
            s.last(),
        ));
        assert(s.drop_last().push(s.last()) =~= s);
        assert(sort_desc(s) == insert_desc(s.last(), sort_desc(s.drop_last())));
        assert(sort_desc(s).to_multiset() == s.drop_last().to_multiset().insert(s.last()));
        assert(s.to_multiset() == s.drop_last().push(s.last()).to_multiset());
    } else {
        assert(s =~= Seq::<PartialHit>::empty());
    }
}

/// Where the new hit lands: before the first strictly smaller value.
proof fn lemma_insert_desc_at(s: Seq<PartialHit>, x: PartialHit, j: int)
    requires
        0 <= j <= s.len(),
        forall|k: int| 0 <= k < j ==> s[k].sorting_field_value >= x.sorting_field_value,
        j < s.len() ==> s[j].sorting_field_value < x.sorting_field_value,
    ensures
        insert_desc(x, s) == s.take(j) + seq![x] + s.skip(j),
    decreases j,
{
    if j == 0 {
        assert(insert_desc(x, s) =~= s.take(0) + seq![x] + s.skip(0));
    } else {
        let d = s.drop_first();
        assert(forall|k: int| 0 <= k < j - 1 ==> d[k] == s[k + 1]);
        assert(j - 1 < d.len() ==> d[j - 1] == s[j]);
        lemma_insert_desc_at(d, x, j - 1);
        assert(insert_desc(x, s) == seq![s[0]] + (d.take(j - 1) + seq![x] + d.skip(j - 1)));
        assert(seq![s[0]] + (d.take(j - 1) + seq![x] + d.skip(j - 1)) =~= s.take(j) + seq![x]
            + s.skip(j));
    }
}

/// Sorts the hits by descending sorting value, stably.
pub fn sort_partial_hits(hits: &mut Vec<PartialHit>)
    ensures
        final(hits)@ == sort_desc(old(hits)@),
{
    let n = hits.len();
    let mut sorted: Vec<PartialHit> = Vec::new();
    let mut i: usize = 0;
    proof {
        assert(old(hits)@.take(0) =~= Seq::<PartialHit>::empty());
    }
    while i < n
        invariant
            n == hits@.len(),
            hits@ == old(hits)@,
            i <= n,
            sorted@ == sort_desc(hits@.take(i as int)),
        decreases n - i,
    {
        let x = hits[i].clone();
        let m = sorted.len();
        let mut j: usize = 0;
        while j < m && sorted[j].sorting_field_value >= x.sorting_field_value
            invariant
                m == sorted@.len(),
                j <= m,
                forall|k: int|
                    0 <= k < j as int ==> sorted@[k].sorting_field_value
                        >= x.sorting_field_value,
            decreases m - j,
        {
            j = j + 1;
        }
        let ghost pre = sorted@;
        proof {
            lemma_insert_desc_at(pre, x, j as int);
        }
        sorted.insert(j, x);
        proof {
            assert(sorted@ =~= pre.take(j as int) + seq![x] + pre.skip(j as int));
            assert(sorted@ == insert_desc(x, pre));
            assert(hits@.take(i as int + 1).drop_last() == hits@.take(i as int));
            assert(hits@.take(i as int + 1).last() == hits@[i as int]);
        }
        i = i + 1;
    }
    proof {
        crate::seq_lemmas::lemma_take_all(old(hits)@);
    }
    *hits = sorted;
}

/// Every partial hit the leaves returned, one leaf after the other.
pub open spec fn all_partial_hits(results: Seq<LeafSearchResult>) -> Seq<PartialHit>
    decreases results.len(),
{
    if results.len() == 0 {
        Seq::empty()
    } else {
        all_partial_hits(results.drop_last()) + results.last().partial_hits@
    }
}

/// The total number of matching documents across the leaves.
pub open spec fn total_hits(results: Seq<LeafSearchResult>) -> int
    decreases results.len(),
{
    if results.len() == 0 {
        0
    } else {
        total_hits(results.drop_last()) + results.last().num_hits
    }
}

/// The total number of splits the leaves attempted.
pub open spec fn total_attempted(results: Seq<LeafSearchResult>) -> int
    decreases results.len(),
{
    if results.len() == 0 {
        0
    } else {
        total_attempted(results.drop_last()) + results.last().num_attempted_splits
    }
}

/// Every per-split failure the leaves reported, one leaf after the
/// other.
pub open spec fn all_failed_requests(results: Seq<LeafSearchResult>) -> Seq<SplitSearchError>
    decreases results.len(),
{
    if results.len() == 0 {
        Seq::empty()
    } else {
        all_failed_requests(results.drop_last()) + results.last().failed_requests@
    }
}

/// The smaller of two values.
pub open spec fn spec_min(a: int, b: int) -> int {
    if a <= b {
        a
    } else {
        b
    }
}

/// The best `k` hits overall: sort every hit by descending sorting
/// value and keep the first `k`.
pub open spec fn top_k_hits(all: Seq<PartialHit>, k: int) -> Seq<PartialHit> {
    sort_desc(all).take(spec_min(k, all.len() as int))
}

/// The window of hits the caller asked for: sort every hit, skip the
/// first `start_offset`, return the next `max_hits`.
pub open spec fn hits_window(all: Seq<PartialHit>, start_offset: int, max_hits: int) -> Seq<PartialHit> {
    sort_desc(all).subrange(
        spec_min(start_offset, all.len() as int),
        spec_min(start_offset + max_hits, all.len() as int),
    )
}

/// The totals are sums of unsigned counters, so they never go
/// negative.
proof fn lemma_totals_nonneg(results: Seq<LeafSearchResult>)
    ensures
        total_hits(results) >= 0,
        total_attempted(results) >= 0,
    decreases results.len(),
{
    if results.len() > 0 {
        lemma_totals_nonneg(results.drop_last());
    }
}

/// Each prefix contributes no more than the whole: the running sums
/// of the merge stay within the final totals.
proof fn lemma_prefix_totals(results: Seq<LeafSearchResult>, i: int)
    requires
        0 <= i <= results.len(),
    ensures
        total_hits(results.take(i)) <= total_hits(results),
        total_attempted(results.take(i)) <= total_attempted(results),
    decreases results.len() - i,
{
    if i < results.len() {
        assert(results.take(i + 1).drop_last() == results.take(i));
        assert(results.take(i + 1).last() == results[i]);
        lemma_prefix_totals(results, i + 1);
    } else {
        crate::seq_lemmas::lemma_take_all(results);
    }
}

/// Whether the leaves' hit totals fit the merge's counter: the
/// check a caller makes before merging results it did not produce
/// itself.
pub fn total_hits_fits(leaf_results: &Vec<LeafSearchResult>) -> (r: bool)
    ensures
        r == (total_hits(leaf_results@) <= u64::MAX),
{
    let n = leaf_results.len();
    let mut sum: u128 = 0;
    let mut i: usize = 0;
    proof {
        assert(leaf_results@.take(0) =~= Seq::<LeafSearchResult>::empty());
    }
    while i < n
        invariant
            n == leaf_results@.len(),
            i <= n,
            sum == total_hits(leaf_results@.take(i as int)),
            sum <= u64::MAX,
        decreases n - i,
    {
        proof {
            assert(leaf_results@.take(i as int + 1).drop_last() == leaf_results@.take(i as int));
            assert(leaf_results@.take(i as int + 1).last() == leaf_results@[i as int]);
        }
        sum = sum + leaf_results[i].num_hits as u128;
        if sum > u64::MAX as u128 {
            proof {
                lemma_prefix_totals(leaf_results@, i as int + 1);
            }
            return false;
        }
        i = i + 1;
    }
    proof {
        crate::seq_lemmas::lemma_take_all(leaf_results@);
    }
    true
}

/// Whether the leaves' attempted-split totals fit the merge's
/// counter.
pub fn total_attempted_fits(leaf_results: &Vec<LeafSearchResult>) -> (r: bool)
    ensures
        r == (total_attempted(leaf_results@) <= u64::MAX),
{
    let n = leaf_results.len();
    let mut sum: u128 = 0;
    let mut i: usize = 0;
    proof {
        assert(leaf_results@.take(0) =~= Seq::<LeafSearchResult>::empty());
    }
    while i < n
        invariant
            n == leaf_results@.len(),
            i <= n,
            sum == total_attempted(leaf_results@.take(i as int)),
            sum <= u64::MAX,
        decreases n - i,
    {
        proof {
            assert(leaf_results@.take(i as int + 1).drop_last() == leaf_results@.take(i as int));
            assert(leaf_results@.take(i as int + 1).last() == leaf_results@[i as int]);
        }
        sum = sum + leaf_results[i].num_attempted_splits as u128;
        if sum > u64::MAX as u128 {
            proof {
                lemma_prefix_totals(leaf_results@, i as int + 1);
            }
            return false;
        }
        i = i + 1;
    }
    proof {
        crate::seq_lemmas::lemma_take_all(leaf_results@);
    }
    true
}

/// Copies a list of partial hits.
fn clone_partial_hits(v: &Vec<PartialHit>) -> (r: Vec<PartialHit>)
    ensures
        r@ == v@,
{
    let n = v.len();
    let mut r: Vec<PartialHit> = Vec::new();
    let mut i: usize = 0;
    while i < n
        invariant
            n == v@.len(),
            i <= n,
            r@.len() == i as int,
            forall|k: int| 0 <= k < i as int ==> #[trigger] r@[k] == v@[k],
        decreases n - i,
    {
        r.push(v[i].clone());
        i = i + 1;
    }
    proof {
        assert(r@ =~= v@);
    }
    r
}

/// Appends a copy of every element of `src` to `dst`.
fn extend_split_errors(dst: &mut Vec<SplitSearchError>, src: &Vec<SplitSearchError>)
    ensures
        final(dst)@ == old(dst)@ + src@,
{
    let n = src.len();
    let mut i: usize = 0;
    while i < n
        invariant
            n == src@.len(),
            i <= n,
            dst@ == old(dst)@ + src@.take(i as int),
        decreases n - i,
    {
        dst.push(src[i].clone());
        proof {
            assert(old(dst)@ + src@.take(i as int + 1) =~= (old(dst)@ + src@.take(i as int)).push(
                src@[i as int],
            ));
        }
        i = i + 1;
    }
    proof {
        crate::seq_lemmas::lemma_take_all(src@);
        assert(dst@ =~= old(dst)@ + src@);
    }
}

/// Appends a copy of every element of `src` to `dst`.
fn extend_partial_hits(dst: &mut Vec<PartialHit>, src: &Vec<PartialHit>)
    ensures
        final(dst)@ == old(dst)@ + src@,
{
    let n = src.len();
    let mut i: usize = 0;
    while i < n
        invariant
            n == src@.len(),
            i <= n,
            dst@ == old(dst)@ + src@.take(i as int),
        decreases n - i,
    {
        dst.push(src[i].clone());
        proof {
            assert(old(dst)@ + src@.take(i as int + 1) =~= (old(dst)@ + src@.take(i as int)).push(
                src@[i as int],
            ));
        }
        i = i + 1;
    }
    proof {
        crate::seq_lemmas::lemma_take_all(src@);
        assert(dst@ =~= old(dst)@ + src@);
    }
}

/// Merges the results of several leaves into one, as the collector
/// does: the totals add up, the failures concatenate, and the
/// returned hits are the best `max_hits` across all leaves, best
/// first. The totals do not depend on `max_hits`: asking for no hit
/// at all still counts every match.
pub fn merge_fruits(max_hits: usize, leaf_results: &Vec<LeafSearchResult>) -> (r: LeafSearchResult)
    requires
        total_hits(leaf_results@) <= u64::MAX,
        total_attempted(leaf_results@) <= u64::MAX,
    ensures
        r.num_hits == total_hits(leaf_results@),
        r.num_attempted_splits == total_attempted(leaf_results@),
        r.failed_requests@ == all_failed_requests(leaf_results@),
        r.partial_hits@ == top_k_hits(all_partial_hits(leaf_results@), max_hits as int),
{
    let n = leaf_results.len();
    let mut hits: Vec<PartialHit> = Vec::new();
    let mut failed: Vec<SplitSearchError> = Vec::new();
    let mut num_hits: u64 = 0;
    let mut attempted: u64 = 0;
    let mut i: usize = 0;
    proof {
        assert(leaf_results@.take(0) =~= Seq::<LeafSearchResult>::empty());
        assert(hits@ =~= all_partial_hits(leaf_results@.take(0)));
        assert(failed@ =~= all_failed_requests(leaf_results@.take(0)));
    }
    while i < n
        invariant
            n == leaf_results@.len(),
            i <= n,
            total_hits(leaf_results@) <= u64::MAX,
            total_attempted(leaf_results@) <= u64::MAX,
            hits@ == all_partial_hits(leaf_results@.take(i as int)),
            failed@ == all_failed_requests(leaf_results@.take(i as int)),
            num_hits == total_hits(leaf_results@.take(i as int)),
            attempted == total_attempted(leaf_results@.take(i as int)),
        decreases n - i,
    {
        proof {
            assert(leaf_results@.take(i as int + 1).drop_last() == leaf_results@.take(i as int));
            assert(leaf_results@.take(i as int + 1).last() == leaf_results@[i as int]);
            lemma_prefix_totals(leaf_results@, i as int + 1);
            lemma_totals_nonneg(leaf_results@.take(i as int));
        }
        extend_partial_hits(&mut hits, &leaf_results[i].partial_hits);
        extend_split_errors(&mut failed, &leaf_results[i].failed_requests);
        num_hits = num_hits + leaf_results[i].num_hits;
        attempted = attempted + leaf_results[i].num_attempted_splits;
        i = i + 1;
    }
    proof {
        crate::seq_lemmas::lemma_take_all(leaf_results@);
    }
    sort_partial_hits(&mut hits);
    proof {
        lemma_sort_desc_props(all_partial_hits(leaf_results@));
    }
    if max_hits < hits.len() {
        hits.truncate(max_hits);
        proof {
            assert(hits@ =~= sort_desc(all_partial_hits(leaf_results@)).take(
                spec_min(max_hits as int, all_partial_hits(leaf_results@).len() as int),
            ));
        }
    } else {
        proof {
            assert(hits@ =~= sort_desc(all_partial_hits(leaf_results@)).take(
                spec_min(max_hits as int, all_partial_hits(leaf_results@).len() as int),
            ));
        }
    }
    LeafSearchResult {
        num_hits,
        partial_hits: hits,
        failed_requests: failed,
        num_attempted_splits: attempted,
    }
}

/// Asking for no hits returns none, whatever the leaves found: only
/// the hit list shrinks, never the reported total.
pub proof fn lemma_top_k_zero(all: Seq<PartialHit>)
    ensures
        top_k_hits(all, 0) == Seq::<PartialHit>::empty(),
{
    lemma_sort_desc_props(all);
    assert(top_k_hits(all, 0) =~= Seq::<PartialHit>::empty());
}

/// The top-`k` selection is monotone in `k`: with more hits allowed,
/// the hits already returned stay, in their places.
pub proof fn lemma_top_k_monotone(all: Seq<PartialHit>, k1: int, k2: int)
    requires
        0 <= k1 <= k2,
    ensures
        top_k_hits(all, k1).len() <= top_k_hits(all, k2).len(),
        forall|i: int|
            0 <= i < top_k_hits(all, k1).len() ==> #[trigger] top_k_hits(all, k2)[i] == top_k_hits(
                all,
                k1,
            )[i],
{
    lemma_sort_desc_props(all);
}

/// Sorting keeps an already descending list as it is: the sort is
/// idempotent, so re-sorting fetched hits cannot reorder them.
pub proof fn lemma_sort_desc_idempotent(s: Seq<PartialHit>)
    requires
        sorted_desc(s),
    ensures
        sort_desc(s) == s,
    decreases s.len(),
{
    if s.len() > 0 {
        let d = s.drop_last();
        assert(sorted_desc(d)) by {
            assert(forall|i: int| 0 <= i < d.len() ==> d[i] == s[i]);
        }
        lemma_sort_desc_idempotent(d);
        lemma_insert_desc_at(d, s.last(), d.len() as int);
        assert(d.take(d.len() as int) =~= d);
        assert(d.skip(d.len() as int) =~= Seq::<PartialHit>::empty());
        assert(d + seq![s.last()] + Seq::<PartialHit>::empty() =~= s);
    }
}

/// The whole root pipeline in one step: merging truncates the hits
/// to the window's end, the fetched hits are re-sorted and the
/// window is cut — and that is exactly the window over all the
/// leaves' hits. Truncating at `start_offset + max_hits` loses
/// nothing the final window would have shown.
pub proof fn lemma_root_pipeline_window(all: Seq<PartialHit>, start_offset: int, max_hits: int)
    requires
        0 <= start_offset,
        0 <= max_hits,
    ensures
        hits_window(top_k_hits(all, start_offset + max_hits), start_offset, max_hits)
            == hits_window(all, start_offset, max_hits),
{
    lemma_sort_desc_props(all);
    let sorted = sort_desc(all);
    let m = spec_min(start_offset + max_hits, all.len() as int);
    let top = sorted.take(m);
    assert(sorted_desc(top)) by {
        assert(forall|i: int| 0 <= i < top.len() ==> top[i] == sorted[i]);
    }
    lemma_sort_desc_idempotent(top);
    if start_offset + max_hits <= all.len() {
        assert(hits_window(top, start_offset, max_hits) =~= hits_window(
            all,
            start_offset,
            max_hits,
        ));
    } else {
        assert(top =~= sorted);
        assert(hits_window(top, start_offset, max_hits) =~= hits_window(
            all,
            start_offset,
            max_hits,
        ));
    }
}

/// Root search is monotone in `max_hits`: raising `max_hits` never
/// removes a hit from the returned window, it only lets the window
/// grow at its tail. The hits of the smaller window sit unchanged at
/// the head of the larger one.
pub proof fn lemma_hits_window_monotone(all: Seq<PartialHit>, start_offset: int, k1: int, k2: int)
    requires
        0 <= start_offset,
        0 <= k1 <= k2,
    ensures
        hits_window(all, start_offset, k1).len() <= hits_window(all, start_offset, k2).len(),
        forall|i: int|
            0 <= i < hits_window(all, start_offset, k1).len() ==> #[trigger] hits_window(
                all,
                start_offset,
                k2,
            )[i] == hits_window(all, start_offset, k1)[i],
{
    lemma_sort_desc_props(all);
}

/// The returned window is ordered: hits come back best first.
pub proof fn lemma_hits_window_descending(all: Seq<PartialHit>, start_offset: int, max_hits: int)
    requires
        0 <= start_offset,
        0 <= max_hits,
    ensures
        sorted_desc(hits_window(all, start_offset, max_hits)),
{
    lemma_sort_desc_props(all);
    let w = hits_window(all, start_offset, max_hits);
    let lo = spec_min(start_offset, all.len() as int);
    let hi = spec_min(start_offset + max_hits, all.len() as int);
    assert(w.len() == hi - lo);
    assert forall|i: int, j: int| 0 <= i < j < w.len() implies w[i].sorting_field_value
        >= w[j].sorting_field_value by {
        assert(w[i] == sort_desc(all)[lo + i]);
        assert(w[j] == sort_desc(all)[lo + j]);
    }
}

/// No hit is invented: whatever the selection returns, some leaf
/// reported it.
pub proof fn lemma_top_k_hits_come_from_leaves(all: Seq<PartialHit>, k: int)
    requires
        0 <= k,
    ensures
        forall|i: int|
            0 <= i < top_k_hits(all, k).len() ==> all.contains(#[trigger] top_k_hits(all, k)[i]),
{
    broadcast use vstd::seq_lib::group_to_multiset_ensures;

    lemma_sort_desc_props(all);
    let sorted = sort_desc(all);
    assert forall|i: int| 0 <= i < top_k_hits(all, k).len() implies all.contains(
        #[trigger] top_k_hits(all, k)[i],
    ) by {
        assert(top_k_hits(all, k)[i] == sorted[i]);
        assert(sorted.contains(sorted[i]));
        assert(sorted.to_multiset().count(sorted[i]) > 0);
        assert(all.to_multiset().count(sorted[i]) > 0);
    }
}

/// The number of hits the leaf phase is asked for: the root slices
/// later, so each leaf must return the window's end.
pub fn leaf_request_hit_count(max_hits: u32, start_offset: u32) -> (r: u64)
    ensures
        r == max_hits + start_offset,
{
    max_hits as u64 + start_offset as u64
}

/// Sorts every fetched hit and cuts the requested window out: the
/// caller sees `max_hits` documents from `start_offset` on, best
/// first.
pub fn select_hits_window(all_hits: Vec<PartialHit>, start_offset: u32, max_hits: u32) -> (r: Vec<
    PartialHit,
>)
    ensures
        r@ == hits_window(all_hits@, start_offset as int, max_hits as int),
{
    let mut sorted = all_hits;
    let ghost input = sorted@;
    sort_partial_hits(&mut sorted);
    proof {
        lemma_sort_desc_props(input);
    }
    let len_u64: u64 = sorted.len() as u64;
    let lo_u64: u64 = if (start_offset as u64) <= len_u64 {
        start_offset as u64
    } else {
        len_u64
    };
    let hi_u64: u64 = if (start_offset as u64) + (max_hits as u64) <= len_u64 {
        (start_offset as u64) + (max_hits as u64)
    } else {
        len_u64
    };
    let lo: usize = lo_u64 as usize;
    let hi: usize = hi_u64 as usize;
    let mut r: Vec<PartialHit> = Vec::new();
    let mut j: usize = lo;
    while j < hi
        invariant
            lo <= j <= hi <= sorted@.len(),
            r@.len() == j - lo,
            forall|k: int| 0 <= k < r@.len() ==> #[trigger] r@[k] == sorted@[lo as int + k],
        decreases hi - j,
    {
        r.push(sorted[j].clone());
        j = j + 1;
    }
    proof {
        assert(r@ =~= hits_window(input, start_offset as int, max_hits as int));
    }
    r
}

/// The partial hits that belong to one split, in their merged order:
/// the fetch phase sends each client the hits of its own splits.
pub fn partial_hits_for_split(hits: &Vec<PartialHit>, split_id: &String) -> (r: Vec<PartialHit>)
    ensures
        r@ == hits@.filter(|h: PartialHit| h.split_id@ == split_id@),
{
    let ghost pred = |h: PartialHit| h.split_id@ == split_id@;
    let n = hits.len();
    let mut r: Vec<PartialHit> = Vec::new();
    let mut i: usize = 0;
    proof {
        assert(hits@.take(0).filter(pred) =~= Seq::<PartialHit>::empty());
    }
    while i < n
        invariant
            n == hits@.len(),
            i <= n,
            r@ == hits@.take(i as int).filter(pred),
            pred == (|h: PartialHit| h.split_id@ == split_id@),
        decreases n - i,
    {
        if hits[i].split_id == *split_id {
            r.push(hits[i].clone());
        }
        proof {
            crate::seq_lemmas::lemma_filter_take_step(hits@, pred, i as int);
        }
        i = i + 1;
    }
    proof {
        crate::seq_lemmas::lemma_take_all(hits@);
    }
    r
}

/// The ordering value of a fetched document: the value of its partial
/// hit, or zero when it carries none.
pub open spec fn hit_sort_value(h: Hit) -> i64 {
    match h.partial_hit {
        Option::Some(ph) => ph.sorting_field_value,
        Option::None => 0,
    }
}

/// Inserting a document into a list sorted by descending value, behind
/// every at-least-as-large value.
pub open spec fn insert_doc_desc(x: Hit, s: Seq<Hit>) -> Seq<Hit>
    decreases s.len(),
{
    if s.len() == 0 {
        seq![x]
    } else if hit_sort_value(s[0]) >= hit_sort_value(x) {
        seq![s[0]] + insert_doc_desc(x, s.drop_first())
    } else {
        seq![x] + s
    }
}

/// The fetched documents sorted by descending value, stably.
pub open spec fn sort_docs_desc(s: Seq<Hit>) -> Seq<Hit>
    decreases s.len(),
{
    if s.len() == 0 {
        Seq::empty()
    } else {
        insert_doc_desc(s.last(), sort_docs_desc(s.drop_last()))
    }
}

/// Every fetched document, one response after the other.
pub open spec fn all_fetched_hits(responses: Seq<FetchDocsResult>) -> Seq<Hit>
    decreases responses.len(),
{
    if responses.len() == 0 {
        Seq::empty()
    } else {
        all_fetched_hits(responses.drop_last()) + responses.last().hits@
    }
}

/// The window of documents the caller asked for: sorted by descending
/// value, the first `start_offset` skipped, at most `max_hits` kept.
pub open spec fn docs_window(all: Seq<Hit>, start_offset: int, max_hits: int) -> Seq<Hit> {
    sort_docs_desc(all).subrange(
        spec_min(start_offset, all.len() as int),
        spec_min(start_offset + max_hits, all.len() as int),
    )
}

/// Where a document lands when inserted: before the first strictly
/// smaller value.
proof fn lemma_insert_doc_desc_at(s: Seq<Hit>, x: Hit, j: int)
    requires
        0 <= j <= s.len(),
        forall|k: int| 0 <= k < j ==> hit_sort_value(s[k]) >= hit_sort_value(x),
        j < s.len() ==> hit_sort_value(s[j]) < hit_sort_value(x),
    ensures
        insert_doc_desc(x, s) == s.take(j) + seq![x] + s.skip(j),
    decreases j,
{
    if j == 0 {
        assert(insert_doc_desc(x, s) =~= s.take(0) + seq![x] + s.skip(0));
    } else {
        let d = s.drop_first();
        assert(forall|k: int| 0 <= k < j - 1 ==> d[k] == s[k + 1]);
        assert(j - 1 < d.len() ==> d[j - 1] == s[j]);
        lemma_insert_doc_desc_at(d, x, j - 1);
        assert(insert_doc_desc(x, s) == seq![s[0]] + (d.take(j - 1) + seq![x] + d.skip(j - 1)));
        assert(seq![s[0]] + (d.take(j - 1) + seq![x] + d.skip(j - 1)) =~= s.take(j) + seq![x]
            + s.skip(j));
    }
}

/// Inserting adds exactly one document.
proof fn lemma_insert_doc_len(x: Hit, s: Seq<Hit>)
    ensures
        insert_doc_desc(x, s).len() == s.len() + 1,
    decreases s.len(),
{
    if s.len() > 0 && hit_sort_value(s[0]) >= hit_sort_value(x) {
        lemma_insert_doc_len(x, s.drop_first());
    }
}

/// Sorting keeps the number of documents.
proof fn lemma_sort_docs_len(s: Seq<Hit>)
    ensures
        sort_docs_desc(s).len() == s.len(),
    decreases s.len(),
{
    if s.len() > 0 {
        lemma_sort_docs_len(s.drop_last());
        lemma_insert_doc_len(s.last(), sort_docs_desc(s.drop_last()));
    }
}

/// Sorts the fetched documents by descending value, stably.
fn sort_docs(docs: &mut Vec<Hit>)
    ensures
        final(docs)@ == sort_docs_desc(old(docs)@),
{
    let n = docs.len();
    let mut sorted: Vec<Hit> = Vec::new();
    let mut i: usize = 0;
    proof {
        assert(old(docs)@.take(0) =~= Seq::<Hit>::empty());
    }
    while i < n
        invariant
            n == docs@.len(),
            docs@ == old(docs)@,
            i <= n,
            sorted@ == sort_docs_desc(docs@.take(i as int)),
        decreases n - i,
    {
        let x = docs[i].clone();
        let xv = hit_value(&x);
        let m = sorted.len();
        let mut j: usize = 0;
        while j < m && hit_value(&sorted[j]) >= xv
            invariant
                m == sorted@.len(),
                j <= m,
                xv == hit_sort_value(x),
                forall|k: int| 0 <= k < j as int ==> hit_sort_value(#[trigger] sorted@[k]) >= hit_sort_value(x),
            decreases m - j,
        {
            j = j + 1;
        }
        let ghost pre = sorted@;
        proof {
            lemma_insert_doc_desc_at(pre, x, j as int);
        }
        sorted.insert(j, x);
        proof {
            assert(sorted@ =~= pre.take(j as int) + seq![x] + pre.skip(j as int));
            assert(sorted@ == insert_doc_desc(x, pre));
            assert(docs@.take(i as int + 1).drop_last() == docs@.take(i as int));
            assert(docs@.take(i as int + 1).last() == docs@[i as int]);
        }
        i = i + 1;
    }
    proof {
        crate::seq_lemmas::lemma_take_all(old(docs)@);
    }
    *docs = sorted;
}

/// The ordering value of one fetched document.
fn hit_value(h: &Hit) -> (r: i64)
    ensures
        r == hit_sort_value(*h),
{
    match &h.partial_hit {
        Some(ph) => ph.sorting_field_value,
        None => 0,
    }
}

/// Builds the final search result: the totals from the leaf phase,
/// and the fetched documents sorted by descending value and cut to
/// the window the caller asked for.
pub fn assemble_search_result(
    num_hits: u64,
    fetched: &Vec<FetchDocsResult>,
    start_offset: u32,
    max_hits: u32,
    elapsed_time_micros: u64,
) -> (r: SearchResult)
    ensures
        r.num_hits == num_hits,
        r.elapsed_time_micros == elapsed_time_micros,
        r.hits@ == docs_window(all_fetched_hits(fetched@), start_offset as int, max_hits as int),
{
    let n = fetched.len();
    let mut docs: Vec<Hit> = Vec::new();
    let mut i: usize = 0;
    proof {
        assert(docs@ =~= all_fetched_hits(fetched@.take(0)));
    }
    while i < n
        invariant
            n == fetched@.len(),
            i <= n,
            docs@ == all_fetched_hits(fetched@.take(i as int)),
        decreases n - i,
    {
        proof {
            assert(fetched@.take(i as int + 1).drop_last() == fetched@.take(i as int));
            assert(fetched@.take(i as int + 1).last() == fetched@[i as int]);
        }
        extend_docs(&mut docs, &fetched[i].hits);
        i = i + 1;
    }
    proof {
        crate::seq_lemmas::lemma_take_all(fetched@);
    }
    let ghost all = docs@;
    sort_docs(&mut docs);
    proof {
        lemma_sort_docs_len(all);
    }
    let len_u64: u64 = docs.len() as u64;
    let lo_u64: u64 = if (start_offset as u64) <= len_u64 {
        start_offset as u64
    } else {
        len_u64
    };
    let hi_u64: u64 = if (start_offset as u64) + (max_hits as u64) <= len_u64 {
        (start_offset as u64) + (max_hits as u64)
    } else {
        len_u64
    };
    let lo: usize = lo_u64 as usize;
    let hi: usize = hi_u64 as usize;
    let mut window: Vec<Hit> = Vec::new();
    let mut j: usize = lo;
    while j < hi
        invariant
            lo <= j <= hi <= docs@.len(),
            window@.len() == j - lo,
            forall|k: int| 0 <= k < window@.len() ==> #[trigger] window@[k] == docs@[lo as int + k],
        decreases hi - j,
    {
        window.push(docs[j].clone());
        j = j + 1;
    }
    proof {
        assert(window@ =~= docs_window(all, start_offset as int, max_hits as int));
    }
    SearchResult { num_hits, hits: window, elapsed_time_micros }
}

/// Appends a copy of every document of `src` to `dst`.
fn extend_docs(dst: &mut Vec<Hit>, src: &Vec<Hit>)
    ensures
        final(dst)@ == old(dst)@ + src@,
{
    let n = src.len();
    let mut i: usize = 0;
    while i < n
        invariant
            n == src@.len(),
            i <= n,
            dst@ == old(dst)@ + src@.take(i as int),
        decreases n - i,
    {
        dst.push(src[i].clone());
        proof {
            assert(old(dst)@ + src@.take(i as int + 1) =~= (old(dst)@ + src@.take(i as int)).push(
                src@[i as int],
            ));
        }
        i = i + 1;
    }
    proof {
        crate::seq_lemmas::lemma_take_all(src@);
        assert(dst@ =~= old(dst)@ + src@);
    }
}

/// The jobs of one root search: one per candidate split, at the
/// placeholder cost of 1.
pub fn build_jobs(splits: &Vec<SplitMetadata>) -> (r: Vec<Job>)
    ensures
        r@.len() == splits@.len(),
        forall|i: int| #![trigger r@[i]]
            0 <= i < r@.len() ==> r@[i].split == splits@[i].split_id && r@[i].cost == 1,
{
    let n = splits.len();
    let mut jobs: Vec<Job> = Vec::new();
    let mut i: usize = 0;
    while i < n
        invariant
            n == splits@.len(),
            i <= n,
            jobs@.len() == i as int,
            forall|k: int| #![trigger jobs@[k]]
                0 <= k < i as int ==> jobs@[k].split == splits@[k].split_id && jobs@[k].cost == 1,
        decreases n - i,
    {
        let cost = compute_split_cost(&splits[i]);
        jobs.push(Job { split: splits[i].split_id.clone(), cost });
        i = i + 1;
    }
    jobs
}

/// The jobs that land on client `c` when the jobs are dealt out in
/// turn over `num_clients` clients.
pub open spec fn round_robin_bucket(jobs: Seq<Job>, num_clients: int, c: int) -> Seq<Job>
    decreases jobs.len(),
{
    if jobs.len() == 0 {
        Seq::empty()
    } else {
        round_robin_bucket(jobs.drop_last(), num_clients, c) + if (jobs.len() - 1) % num_clients
            == c {
            seq![jobs.last()]
        } else {
            Seq::empty()
        }
    }
}

/// Assigns every job to exactly one client, in turn: job `i` goes to
/// client `i` modulo the number of clients. With unit costs this
/// balances the load to within one job, and the same jobs in the same
/// order always give the same assignment, so a retry can aim at a
/// chosen subset of clients.
pub fn assign_jobs(jobs: &Vec<Job>, num_clients: usize) -> (r: Vec<Vec<Job>>)
    requires
        num_clients >= 1,
    ensures
        r@.len() == num_clients,
        forall|c: int|
            0 <= c < num_clients ==> #[trigger] r@[c]@ == round_robin_bucket(
                jobs@,
                num_clients as int,
                c,
            ),
{
    let n = jobs.len();
    let mut out: Vec<Vec<Job>> = Vec::new();
    let mut c: usize = 0;
    while c < num_clients
        invariant
            n == jobs@.len(),
            c <= num_clients,
            out@.len() == c as int,
            forall|d: int|
                0 <= d < c as int ==> #[trigger] out@[d]@ == round_robin_bucket(
                    jobs@,
                    num_clients as int,
                    d,
                ),
        decreases num_clients - c,
    {
        let mut bucket: Vec<Job> = Vec::new();
        let mut i: usize = 0;
        proof {
            assert(bucket@ =~= round_robin_bucket(jobs@.take(0), num_clients as int, c as int));
        }
        while i < n
            invariant
                n == jobs@.len(),
                i <= n,
                num_clients >= 1,
                c < num_clients,
                bucket@ == round_robin_bucket(jobs@.take(i as int), num_clients as int, c as int),
            decreases n - i,
        {
            proof {
                assert(jobs@.take(i as int + 1).drop_last() == jobs@.take(i as int));
                assert(jobs@.take(i as int + 1).last() == jobs@[i as int]);
            }
            if i % num_clients == c {
                bucket.push(jobs[i].clone());
            }
            i = i + 1;
        }
        proof {
            crate::seq_lemmas::lemma_take_all(jobs@);
        }
        out.push(bucket);
        c = c + 1;
    }
    out
}

/// Every job lands somewhere: job `i` is in the bucket of client
/// `i` modulo the number of clients.
pub proof fn lemma_assignment_covers(jobs: Seq<Job>, num_clients: int, i: int)
    requires
        num_clients >= 1,
        0 <= i < jobs.len(),
    ensures
        round_robin_bucket(jobs, num_clients, i % num_clients).contains(jobs[i]),
    decreases jobs.len(),
{
    let c = i % num_clients;
    if i == jobs.len() - 1 {
        let b = round_robin_bucket(jobs, num_clients, c);
        assert(b[b.len() - 1] == jobs[i]);
    } else {
        lemma_assignment_covers(jobs.drop_last(), num_clients, i);
        assert(jobs.drop_last()[i] == jobs[i]);
        let sub = round_robin_bucket(jobs.drop_last(), num_clients, c);
        let j = choose|j: int| 0 <= j < sub.len() && sub[j] == jobs[i];
        assert(round_robin_bucket(jobs, num_clients, c)[j] == jobs[i]);
    }
}

/// No bucket invents work: whatever a client is assigned is one of
/// the jobs.
pub proof fn lemma_assignment_invents_nothing(jobs: Seq<Job>, num_clients: int, c: int, x: Job)
    requires
        round_robin_bucket(jobs, num_clients, c).contains(x),
    ensures
        jobs.contains(x),
    decreases jobs.len(),
{
    if jobs.len() > 0 {
        let b = round_robin_bucket(jobs, num_clients, c);
        let sub = round_robin_bucket(jobs.drop_last(), num_clients, c);
        let j = choose|j: int| 0 <= j < b.len() && b[j] == x;
        if j < sub.len() {
            lemma_assignment_invents_nothing(jobs.drop_last(), num_clients, c, x);
            let k = choose|k: int| 0 <= k < jobs.drop_last().len() && jobs.drop_last()[k] == x;
            assert(jobs[k] == x);
        } else {
            assert(x == jobs.last());
            assert(jobs[jobs.len() - 1] == x);
        }
    }
}

/// Which splits and nodes a second pass should use, after a root
/// search saw failures.
#[derive(Debug)]
pub struct ErrorRetries {
    /// The splits whose per-split searches failed on otherwise
    /// healthy nodes.
    pub retry_split_ids: Vec<String>,
    /// The nodes a retry should go to.
    pub nodes_to_use: Vec<u64>,
}

/// A node failed completely when its whole request errored, or when
/// every split it attempted failed.
pub open spec fn complete_failure(res: Result<LeafSearchResult, NodeSearchError>) -> bool {
    match res {
        Result::Err(_) => true,
        Result::Ok(ok) => ok.failed_requests@.len() == ok.num_attempted_splits,
    }
}

/// Whether a node's answer reports any failure at all.
pub open spec fn reports_trouble(res: Result<LeafSearchResult, NodeSearchError>) -> bool {
    match res {
        Result::Err(_) => true,
        Result::Ok(ok) => ok.failed_requests@.len() > 0,
    }
}

/// The nodes whose answers are complete failures (`want` true), or
/// the others (`want` false), in order.
pub open spec fn nodes_where(
    entries: Seq<(u64, Result<LeafSearchResult, NodeSearchError>)>,
    want: bool,
) -> Seq<u64>
    decreases entries.len(),
{
    if entries.len() == 0 {
        Seq::empty()
    } else {
        nodes_where(entries.drop_last(), want) + if complete_failure(entries.last().1) == want {
            seq![entries.last().0]
        } else {
            Seq::empty()
        }
    }
}

/// The split ids listed as failed inside the successful answers, one
/// node after the other.
pub open spec fn retry_split_ids_of(
    entries: Seq<(u64, Result<LeafSearchResult, NodeSearchError>)>,
) -> Seq<String>
    decreases entries.len(),
{
    if entries.len() == 0 {
        Seq::empty()
    } else {
        retry_split_ids_of(entries.drop_last()) + match entries.last().1 {
            Result::Ok(ok) => ok.failed_requests@.map_values(|f: SplitSearchError| f.split_id),
            Result::Err(_) => Seq::empty(),
        }
    }
}

/// Looks at every node's answer and plans a second pass. With no
/// failure anywhere there is nothing to plan. Otherwise the failed
/// split ids of the successful answers are collected for retry, and
/// the retry is pointed at the nodes that did not fail completely —
/// they are healthy — or, when every node failed completely, at all
/// of them.
pub fn analyze_errors(entries: &Vec<(u64, Result<LeafSearchResult, NodeSearchError>)>) -> (r:
    Option<ErrorRetries>)
    ensures
        match r {
            Option::None => forall|i: int|
                0 <= i < entries@.len() ==> !reports_trouble(#[trigger] entries@[i].1),
            Option::Some(er) => {
                &&& exists|i: int|
                    0 <= i < entries@.len() && reports_trouble(#[trigger] entries@[i].1)
                &&& er.retry_split_ids@ == retry_split_ids_of(entries@)
                &&& er.nodes_to_use@ == if nodes_where(entries@, false).len() > 0 {
                    nodes_where(entries@, false)
                } else {
                    nodes_where(entries@, true)
                }
            },
        },
{
    let n = entries.len();
    let mut any_trouble = false;
    let mut i: usize = 0;
    while i < n
        invariant
            n == entries@.len(),
            i <= n,
            any_trouble ==> exists|k: int|
                0 <= k < entries@.len() && reports_trouble(#[trigger] entries@[k].1),
            !any_trouble ==> forall|k: int|
                0 <= k < i as int ==> !reports_trouble(#[trigger] entries@[k].1),
        decreases n - i,
    {
        let trouble = match &entries[i].1 {
            Err(_) => true,
            Ok(ok) => ok.failed_requests.len() > 0,
        };
        if trouble {
            any_trouble = true;
        }
        i = i + 1;
    }
    if !any_trouble {
        return None;
    }
    let mut healthy: Vec<u64> = Vec::new();
    let mut broken: Vec<u64> = Vec::new();
    let mut retry_ids: Vec<String> = Vec::new();
    let mut i: usize = 0;
    proof {
        assert(healthy@ =~= nodes_where(entries@.take(0), false));
        assert(broken@ =~= nodes_where(entries@.take(0), true));
        assert(retry_ids@ =~= retry_split_ids_of(entries@.take(0)));
    }
    while i < n
        invariant
            n == entries@.len(),
            i <= n,
            healthy@ == nodes_where(entries@.take(i as int), false),
            broken@ == nodes_where(entries@.take(i as int), true),
            retry_ids@ == retry_split_ids_of(entries@.take(i as int)),
        decreases n - i,
    {
        proof {
            assert(entries@.take(i as int + 1).drop_last() == entries@.take(i as int));
            assert(entries@.take(i as int + 1).last() == entries@[i as int]);
        }
        let is_complete = match &entries[i].1 {
            Err(_) => true,
            Ok(ok) => ok.failed_requests.len() as u64 == ok.num_attempted_splits,
        };
        if is_complete {
            broken.push(entries[i].0);
            proof {
                assert(healthy@ =~= nodes_where(entries@.take(i as int + 1), false));
            }
        } else {
            healthy.push(entries[i].0);
            proof {
                assert(broken@ =~= nodes_where(entries@.take(i as int + 1), true));
            }
        }
        match &entries[i].1 {
            Ok(ok) => {
                let m = ok.failed_requests.len();
                let mut j: usize = 0;
                while j < m
                    invariant
                        n == entries@.len(),
                        i < n,
                        entries@[i as int].1 is Ok,
                        entries@[i as int].1->Ok_0.failed_requests@ == ok.failed_requests@,
                        m == entries@[i as int].1->Ok_0.failed_requests@.len(),
                        j <= m,
                        retry_ids@ == retry_split_ids_of(entries@.take(i as int))
                            + entries@[i as int].1->Ok_0.failed_requests@.take(
                            j as int,
                        ).map_values(|f: SplitSearchError| f.split_id),
                    decreases m - j,
                {
                    let ghost fr = entries@[i as int].1->Ok_0.failed_requests@;
                    retry_ids.push(ok.failed_requests[j].split_id.clone());
                    proof {
                        assert(fr.take(j as int + 1).map_values(|f: SplitSearchError| f.split_id)
                            =~= fr.take(j as int).map_values(|f: SplitSearchError| f.split_id).push(
                            fr[j as int].split_id,
                        ));
                        assert(retry_ids@ =~= retry_split_ids_of(entries@.take(i as int))
                            + fr.take(j as int + 1).map_values(|f: SplitSearchError| f.split_id));
                    }
                    j = j + 1;
                }
                proof {
                    let fr = entries@[i as int].1->Ok_0.failed_requests@;
                    crate::seq_lemmas::lemma_take_all(fr);
                    assert(fr.take(m as int) == fr);
                }
            },
            Err(_) => {
                proof {
                    assert(retry_ids@ =~= retry_split_ids_of(entries@.take(i as int + 1)));
                }
            },
        }
        i = i + 1;
    }
    proof {
        crate::seq_lemmas::lemma_take_all(entries@);
    }
    let nodes_to_use = if healthy.len() > 0 {
        healthy
    } else {
        broken
    };
    Some(ErrorRetries { retry_split_ids: retry_ids, nodes_to_use })
}

/// The successful per-split results, in order.
pub open spec fn ok_results(srs: Seq<Result<LeafSearchResult, SplitSearchError>>) -> Seq<
    LeafSearchResult,
>
    decreases srs.len(),
{
    if srs.len() == 0 {
        Seq::empty()
    } else {
        (match srs[0] {
            Result::Ok(ok) => seq![ok],
            Result::Err(_) => Seq::empty(),
        }) + ok_results(srs.drop_first())
    }
}

/// The failed per-split results, in order.
pub open spec fn err_results(srs: Seq<Result<LeafSearchResult, SplitSearchError>>) -> Seq<
    SplitSearchError,
>
    decreases srs.len(),
{
    if srs.len() == 0 {
        Seq::empty()
    } else {
        (match srs[0] {
            Result::Err(e) => seq![e],
            Result::Ok(_) => Seq::empty(),
        }) + err_results(srs.drop_first())
    }
}

/// Merges the per-split outcomes of one leaf request. A failed split
/// does not fail the whole call: its id and error are recorded among
/// the failed requests, while the successful splits are merged as the
/// collector merges leaves. Every split handed in counts as
/// attempted.
pub fn merge_split_search_results(
    max_hits: usize,
    split_results: Vec<Result<LeafSearchResult, SplitSearchError>>,
) -> (r: LeafSearchResult)
    requires
        total_hits(ok_results(split_results@)) <= u64::MAX,
        total_attempted(ok_results(split_results@)) <= u64::MAX,
        split_results@.len() <= u64::MAX,
    ensures
        r.num_hits == total_hits(ok_results(split_results@)),
        r.num_attempted_splits == split_results@.len(),
        r.partial_hits@ == top_k_hits(all_partial_hits(ok_results(split_results@)), max_hits as int),
        r.failed_requests@ == all_failed_requests(ok_results(split_results@)) + err_results(
            split_results@,
        ),
{
    let ghost srs0 = split_results@;
    let num_attempted: u64 = split_results.len() as u64;
    let mut remaining = split_results;
    let mut oks: Vec<LeafSearchResult> = Vec::new();
    let mut errs: Vec<SplitSearchError> = Vec::new();
    proof {
        assert(oks@ + ok_results(remaining@) =~= ok_results(srs0));
        assert(errs@ + err_results(remaining@) =~= err_results(srs0));
    }
    while remaining.len() > 0
        invariant
            oks@ + ok_results(remaining@) == ok_results(srs0),
            errs@ + err_results(remaining@) == err_results(srs0),
        decreases remaining@.len(),
    {
        let ghost rem = remaining@;
        let first = remaining.remove(0);
        proof {
            assert(remaining@ =~= rem.drop_first());
        }
        match first {
            Ok(ok) => {
                oks.push(ok);
                proof {
                    assert(oks@ + ok_results(remaining@) =~= ok_results(srs0));
                    assert(errs@ + err_results(remaining@) =~= err_results(srs0));
                }
            },
            Err(e) => {
                errs.push(e);
                proof {
                    assert(oks@ + ok_results(remaining@) =~= ok_results(srs0));
                    assert(errs@ + err_results(remaining@) =~= err_results(srs0));
                }
            },
        }
    }
    proof {
        assert(ok_results(remaining@) =~= Seq::<LeafSearchResult>::empty());
        assert(err_results(remaining@) =~= Seq::<SplitSearchError>::empty());
        assert(oks@ =~= ok_results(srs0));
        assert(errs@ =~= err_results(srs0));
    }
    let mut merged = merge_fruits(max_hits, &oks);
    extend_split_errors(&mut merged.failed_requests, &errs);
    merged.num_attempted_splits = num_attempted;
    merged
}

/// The time filter of a request, as a query range for the
/// metastore: a missing bound is open, and a request without bounds
/// filters nothing.
pub open spec fn query_time_range(request: SearchRequest) -> Option<crate::metastore::TimeRange> {
    if request.start_timestamp is None && request.end_timestamp is None {
        Option::None
    } else {
        Option::Some(
            crate::metastore::TimeRange {
                start: match request.start_timestamp {
                    Option::Some(t) => t,
                    Option::None => i64::MIN,
                },
                end: match request.end_timestamp {
                    Option::Some(t) => t,
                    Option::None => i64::MAX,
                },
            },
        )
    }
}

/// The first phase of a root search: the published splits that the
/// request's time filter keeps are the candidates the leaf phase
/// fans out over. A split without a time range is always a
/// candidate.
pub fn list_relevant_splits(metastore: &crate::metastore::Metastore, request: &SearchRequest) -> (r:
    Result<Vec<SplitMetadata>, SearchError>)
    requires
        metastore.wf(),
    ensures
        match r {
            Ok(v) => metastore.has_index(request.index_id@) && v@ == metastore.splits().filter(
                |s: SplitMetadata| crate::metastore::split_selected(
                    s,
                    crate::metastore::SplitState::Published,
                    query_time_range(*request),
                ),
            ),
            Err(e) => e == SearchError::IndexDoesNotExist && !metastore.has_index(
                request.index_id@,
            ),
        },
{
    let time_range: Option<crate::metastore::TimeRange> = match (
        &request.start_timestamp,
        &request.end_timestamp,
    ) {
        (None, None) => None,
        (start, end) => {
            let start_bound = match start {
                Some(t) => *t,
                None => i64::MIN,
            };
            let end_bound = match end {
                Some(t) => *t,
                None => i64::MAX,
            };
            Some(crate::metastore::TimeRange { start: start_bound, end: end_bound })
        },
    };
    match metastore.list_splits(
        &request.index_id,
        crate::metastore::SplitState::Published,
        &time_range,
    ) {
        Ok(v) => Ok(v),
        Err(_) => Err(SearchError::IndexDoesNotExist),
    }
}

/// The request one client's leaf phase receives: the query with the
/// window widened, and the splits assigned to that client.
#[derive(Debug)]
pub struct LeafSearchRequest {
    /// The query, with `start_offset` zero and `max_hits` covering
    /// the whole window: the root slices afterwards.
    pub search_request: SearchRequest,
    /// The splits this client searches.
    pub split_ids: Vec<String>,
}

/// Builds the leaf request of one client: the leaf must return the
/// window's end, so it is asked for `max_hits + start_offset` hits
/// from offset zero, over exactly the splits of its jobs.
pub fn build_leaf_search_request(request: &SearchRequest, jobs: &Vec<Job>) -> (r: LeafSearchRequest)
    requires
        request.max_hits + request.start_offset <= u32::MAX,
    ensures
        r.search_request.index_id@ == request.index_id@,
        r.search_request.query@ == request.query@,
        r.search_request.search_fields@ == request.search_fields@,
        r.search_request.start_timestamp == request.start_timestamp,
        r.search_request.end_timestamp == request.end_timestamp,
        r.search_request.max_hits == request.max_hits + request.start_offset,
        r.search_request.start_offset == 0,
        r.split_ids@.len() == jobs@.len(),
        forall|i: int| 0 <= i < jobs@.len() ==> (#[trigger] r.split_ids@[i]) == jobs@[i].split,
{
    let n = jobs.len();
    let mut split_ids: Vec<String> = Vec::new();
    let mut i: usize = 0;
    while i < n
        invariant
            n == jobs@.len(),
            i <= n,
            split_ids@.len() == i as int,
            forall|k: int| 0 <= k < i as int ==> (#[trigger] split_ids@[k]) == jobs@[k].split,
        decreases n - i,
    {
        split_ids.push(jobs[i].split.clone());
        i = i + 1;
    }
    let search_request = SearchRequest {
        index_id: request.index_id.clone(),
        query: request.query.clone(),
        search_fields: clone_strings(&request.search_fields),
        start_timestamp: request.start_timestamp,
        end_timestamp: request.end_timestamp,
        max_hits: request.max_hits + request.start_offset,
        start_offset: 0,
    };
    LeafSearchRequest { search_request, split_ids }
}

/// Copies a list of field names.
fn clone_strings(v: &Vec<String>) -> (r: Vec<String>)
    ensures
        r@ == v@,
{
    let r = v.clone();
    proof {
        assert(r@ =~= v@);
    }
    r
}

} // verus!
