//! Source checkpoints: a per-partition map of opaque positions. The
//! metastore keeps the last successfully published position of every
//! partition, and updates are partial merges keyed by partition.

use vstd::prelude::*;

verus! {

/// The map described by a list of `(partition, position)` entries,
/// later entries winning.
pub open spec fn entries_map(s: Seq<(String, Vec<u8>)>) -> Map<Seq<char>, Seq<u8>>
    decreases s.len(),
{
    if s.len() == 0 {
        Map::empty()
    } else {
        entries_map(s.drop_last()).insert(s.last().0@, s.last().1@)
    }
}

/// Whether some entry of `s` carries the partition `k`.
pub open spec fn has_key(s: Seq<(String, Vec<u8>)>, k: Seq<char>) -> bool {
    exists|i: int| 0 <= i < s.len() && s[i].0@ == k
}

/// Whether no two entries of `s` carry the same partition.
pub open spec fn unique_keys(s: Seq<(String, Vec<u8>)>) -> bool {
    forall|i: int, j: int| 0 <= i < j < s.len() ==> s[i].0@ != s[j].0@
}

proof fn lemma_entries_map_domain(s: Seq<(String, Vec<u8>)>, k: Seq<char>)
    ensures
        entries_map(s).contains_key(k) <==> has_key(s, k),
    decreases s.len(),
{
    if s.len() > 0 {
        lemma_entries_map_domain(s.drop_last(), k);
        if has_key(s, k) && s.last().0@ != k {
            let i = choose|i: int| 0 <= i < s.len() && s[i].0@ == k;
            assert(s.drop_last()[i] == s[i]);
        }
    }
}

/// Under unique keys, the map sends each listed partition to the
/// position stored beside it.
proof fn lemma_entries_map_value(s: Seq<(String, Vec<u8>)>, i: int)
    requires
        unique_keys(s),
        0 <= i < s.len(),
    ensures
        entries_map(s).contains_key(s[i].0@),
        entries_map(s)[s[i].0@] == s[i].1@,
    decreases s.len(),
{
    if i < s.len() - 1 {
        lemma_entries_map_value(s.drop_last(), i);
        assert(s.drop_last()[i] == s[i]);
    }
}

/// A checkpoint: for each partition of a source, the opaque position
/// up to which that partition has been handled.
#[derive(Debug)]
pub struct Checkpoint {
    per_partition_position: Vec<(String, Vec<u8>)>,
}

impl View for Checkpoint {
    type V = Map<Seq<char>, Seq<u8>>;

    closed spec fn view(&self) -> Map<Seq<char>, Seq<u8>> {
        entries_map(self.per_partition_position@)
    }
}

impl Default for Checkpoint {
    /// The empty checkpoint: no partition has a recorded position.
    fn default() -> (r: Checkpoint)
        ensures
            r@ == Map::<Seq<char>, Seq<u8>>::empty(),
            r.wf(),
    {
        Checkpoint { per_partition_position: Vec::new() }
    }
}

impl Clone for Checkpoint {
    fn clone(&self) -> (r: Self)
        ensures
            r@ == self@,
            self.wf() ==> r.wf(),
    {
        let n = self.per_partition_position.len();
        let mut entries: Vec<(String, Vec<u8>)> = Vec::new();
        let mut i: usize = 0;
        while i < n
            invariant
                n == self.per_partition_position@.len(),
                i <= n,
                entries@.len() == i as int,
                forall|k: int| #![trigger entries@[k]]
                    0 <= k < i as int ==> {
                        &&& entries@[k].0@ == self.per_partition_position@[k].0@
                        &&& entries@[k].1@ == self.per_partition_position@[k].1@
                    },
            decreases n - i,
        {
            let key = self.per_partition_position[i].0.clone();
            let value = clone_bytes(&self.per_partition_position[i].1);
            entries.push((key, value));
            i = i + 1;
        }
        let r = Checkpoint { per_partition_position: entries };
        proof {
            lemma_entries_map_congruence(entries@, self.per_partition_position@);
        }
        r
    }
}

/// Entry lists that agree on every key and value view describe the
/// same map.
proof fn lemma_entries_map_congruence(a: Seq<(String, Vec<u8>)>, b: Seq<(String, Vec<u8>)>)
    requires
        a.len() == b.len(),
        forall|k: int| #![trigger a[k]] 0 <= k < a.len() ==> a[k].0@ == b[k].0@ && a[k].1@ == b[k].1@,
    ensures
        unique_keys(b) ==> unique_keys(a),
        entries_map(a) == entries_map(b),
    decreases a.len(),
{
    if a.len() > 0 {
        lemma_entries_map_congruence(a.drop_last(), b.drop_last());
        assert(entries_map(a) =~= entries_map(b));
    }
}

/// Copies a byte string.
fn clone_bytes(v: &Vec<u8>) -> (r: Vec<u8>)
    ensures
        r@ == v@,
{
    let r = v.clone();
    proof {
        assert(r@ =~= v@);
    }
    r
}

impl Checkpoint {
    /// No two entries carry the same partition. Constructors
    /// establish this and every operation preserves it.
    pub closed spec fn wf(self) -> bool {
        unique_keys(self.per_partition_position@)
    }

    /// Records `position` as the current position of `partition_id`,
    /// replacing any earlier position of that partition.
    pub fn add_position(&mut self, partition_id: String, position: Vec<u8>)
        requires
            old(self).wf(),
        ensures
            final(self).wf(),
            final(self)@ == old(self)@.insert(partition_id@, position@),
    {
        let ghost s0 = self.per_partition_position@;
        let n = self.per_partition_position.len();
        let mut i: usize = 0;
        while i < n
            invariant
                self.wf(),
                n == self.per_partition_position@.len(),
                i <= n,
                forall|k: int| 0 <= k < i as int ==> self.per_partition_position@[k].0@ != partition_id@,
                self.per_partition_position@ == s0,
                s0 == old(self).per_partition_position@,
            decreases n - i,
        {
            if self.per_partition_position[i].0 == partition_id {
                self.per_partition_position[i] = (partition_id, position);
                proof {
                    lemma_entries_map_update(s0, i as int, self.per_partition_position@[i as int]);
                }
                return ;
            }
            i = i + 1;
        }
        self.per_partition_position.push((partition_id, position));
        proof {
            assert(self.per_partition_position@.drop_last() == s0);
        }
    }

    /// The recorded `(partition, position)` pairs, one per partition.
    pub fn partitions(&self) -> (r: Vec<(String, Vec<u8>)>)
        ensures
            entries_map(r@) == self@,
            self.wf() ==> unique_keys(r@),
    {
        let copy = self.clone();
        copy.per_partition_position
    }

    /// The position recorded for `partition_id`, if any.
    pub fn position(&self, partition_id: &String) -> (r: Option<&Vec<u8>>)
        requires
            self.wf(),
        ensures
            match r {
                Some(p) => self@.contains_key(partition_id@) && p@ == self@[partition_id@],
                None => !self@.contains_key(partition_id@),
            },
    {
        let n = self.per_partition_position.len();
        let mut i: usize = 0;
        while i < n
            invariant
                self.wf(),
                n == self.per_partition_position@.len(),
                i <= n,
                forall|k: int| 0 <= k < i as int ==> self.per_partition_position@[k].0@ != partition_id@,
            decreases n - i,
        {
            if self.per_partition_position[i].0 == *partition_id {
                proof {
                    lemma_entries_map_value(self.per_partition_position@, i as int);
                }
                return Some(&self.per_partition_position[i].1);
            }
            i = i + 1;
        }
        proof {
            lemma_entries_map_domain(self.per_partition_position@, partition_id@);
        }
        None
    }

    /// Merges `checkpoint_update` into this checkpoint: every partition
    /// listed in the update takes the updated position, every other
    /// partition keeps its old one.
    pub fn update_checkpoint(&mut self, checkpoint_update: Checkpoint)
        requires
            old(self).wf(),
            checkpoint_update.wf(),
        ensures
            final(self).wf(),
            final(self)@ == old(self)@.union_prefer_right(checkpoint_update@),
    {
        let ghost target = old(self)@.union_prefer_right(checkpoint_update@);
        let Checkpoint { per_partition_position: mut entries } = checkpoint_update;
        while entries.len() > 0
            invariant
                self.wf(),
                unique_keys(entries@),
                self@.union_prefer_right(entries_map(entries@)) == target,
            decreases entries@.len(),
        {
            let ghost before = entries@;
            let pair = entries.pop().unwrap();
            proof {
                assert(before.drop_last() == entries@);
                lemma_entries_map_domain(entries@, pair.0@);
                assert(self@.insert(pair.0@, pair.1@).union_prefer_right(entries_map(entries@))
                    =~= self@.union_prefer_right(entries_map(before)));
            }
            self.add_position(pair.0, pair.1);
        }
        proof {
            assert(self@.union_prefer_right(entries_map(entries@)) =~= self@);
        }
    }
}

/// Replacing the entry at `i` by one with the same partition view
/// turns the map into an insert of the new position.
proof fn lemma_entries_map_update(s: Seq<(String, Vec<u8>)>, i: int, p: (String, Vec<u8>))
    requires
        unique_keys(s),
        0 <= i < s.len(),
        p.0@ == s[i].0@,
    ensures
        unique_keys(s.update(i, p)),
        entries_map(s.update(i, p)) == entries_map(s).insert(p.0@, p.1@),
    decreases s.len(),
{
    if i == s.len() - 1 {
        assert(s.update(i, p).drop_last() == s.drop_last());
        assert(entries_map(s.update(i, p)) =~= entries_map(s).insert(p.0@, p.1@));
    } else {
        lemma_entries_map_update(s.drop_last(), i, p);
        assert(s.update(i, p).drop_last() == s.drop_last().update(i, p));
        assert(s.update(i, p).last() == s.last());
        // The replaced key differs from the last key, so the two
        // inserts commute.
        assert(entries_map(s.update(i, p)) =~= entries_map(s).insert(p.0@, p.1@));
    }
}

} // verus!
