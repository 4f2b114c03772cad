//! The process registry: the in-memory mapping from a command identifier to
//! the operating-system identifier of its currently running invocation.
//!
//! An entry exists only while an invocation is in flight, and at most one
//! entry per identifier exists at a time: a second spawn for the same
//! identifier overwrites the tracked value. The host process guards a shared
//! registry with a lock held only around the individual calls here, never
//! across a subprocess's run.

use vstd::prelude::*;
use crate::text::str_eq;

verus! {

/// The registry, seen in contracts as a map from identifier characters to
/// the tracked process identifier.
pub struct ProcessRegistry {
    entries: Vec<(String, u32)>,
}

/// The map held by a sequence of (identifier, process) pairs; a later pair
/// with the same identifier overrides an earlier one.
pub open spec fn map_of(entries: Seq<(String, u32)>) -> Map<Seq<char>, u32>
    decreases entries.len(),
{
    if entries.len() == 0 {
        Map::empty()
    } else {
        map_of(entries.drop_last()).insert(entries.last().0@, entries.last().1)
    }
}

proof fn lemma_map_of_contains(entries: Seq<(String, u32)>, k: Seq<char>)
    ensures
        map_of(entries).contains_key(k) <==> exists|i: int|
            0 <= i < entries.len() && entries[i].0@ == k,
    decreases entries.len(),
{
    if entries.len() > 0 {
        lemma_map_of_contains(entries.drop_last(), k);
        if entries.last().0@ == k {
            assert(entries[entries.len() - 1].0@ == k);
        } else {
            if map_of(entries).contains_key(k) {
                let i = choose|i: int|
                    0 <= i < entries.drop_last().len() && entries.drop_last()[i].0@ == k;
                assert(entries[i].0@ == k);
            }
            if exists|i: int| 0 <= i < entries.len() && entries[i].0@ == k {
                let i = choose|i: int| 0 <= i < entries.len() && entries[i].0@ == k;
                assert(entries.drop_last()[i].0@ == k);
            }
        }
    }
}

proof fn lemma_map_of_value(entries: Seq<(String, u32)>, i: int)
    requires
        distinct_keys(entries),
        0 <= i < entries.len(),
    ensures
        map_of(entries).contains_key(entries[i].0@),
        map_of(entries)[entries[i].0@] == entries[i].1,
    decreases entries.len(),
{
    if i == entries.len() - 1 {
    } else {
        assert(entries.drop_last()[i] == entries[i]);
        lemma_map_of_value(entries.drop_last(), i);
        assert(entries[entries.len() - 1].0@ != entries[i].0@);
    }
}

proof fn lemma_map_of_remove(entries: Seq<(String, u32)>, i: int)
    requires
        distinct_keys(entries),
        0 <= i < entries.len(),
    ensures
        map_of(entries.remove(i)) =~= map_of(entries).remove(entries[i].0@),
    decreases entries.len(),
{
    let k = entries[i].0@;
    if i == entries.len() - 1 {
        assert(entries.remove(i) =~= entries.drop_last());
        lemma_map_of_contains(entries.drop_last(), k);
        assert(forall|j: int|
            0 <= j < entries.drop_last().len() ==> entries.drop_last()[j] == entries[j]);
        assert(!map_of(entries.drop_last()).contains_key(k));
        assert(map_of(entries.drop_last()) =~= map_of(entries).remove(k));
    } else {
        let shorter = entries.drop_last();
        assert(entries.remove(i).drop_last() =~= shorter.remove(i));
        assert(entries.remove(i).last() == entries.last());
        lemma_map_of_remove(shorter, i);
        assert(shorter[i] == entries[i]);
        assert(entries.last().0@ != k);
        assert(map_of(entries.remove(i)) =~= map_of(shorter).remove(k).insert(
            entries.last().0@,
            entries.last().1,
        ));
        assert(map_of(shorter).remove(k).insert(entries.last().0@, entries.last().1)
            =~= map_of(shorter).insert(entries.last().0@, entries.last().1).remove(k));
    }
}

proof fn lemma_map_of_len(entries: Seq<(String, u32)>)
    requires
        distinct_keys(entries),
    ensures
        map_of(entries).dom().finite(),
        map_of(entries).dom().len() == entries.len(),
    decreases entries.len(),
{
    if entries.len() > 0 {
        lemma_map_of_len(entries.drop_last());
        lemma_map_of_contains(entries.drop_last(), entries.last().0@);
        assert(forall|j: int|
            0 <= j < entries.drop_last().len() ==> entries.drop_last()[j] == entries[j]);
        assert(!map_of(entries.drop_last()).contains_key(entries.last().0@));
    }
}

/// No two pairs carry the same identifier.
pub open spec fn distinct_keys(entries: Seq<(String, u32)>) -> bool {
    forall|i: int, j: int|
        0 <= i < j < entries.len() ==> entries[i].0@ != entries[j].0@
}

impl View for ProcessRegistry {
    type V = Map<Seq<char>, u32>;

    closed spec fn view(&self) -> Map<Seq<char>, u32> {
        map_of(self.entries@)
    }
}

impl ProcessRegistry {
    /// The registry is well formed: one entry per identifier.
    pub closed spec fn wf(&self) -> bool {
        distinct_keys(self.entries@)
    }

    /// An empty registry: no invocation is in flight.
    pub fn new() -> (r: ProcessRegistry)
        ensures
            r.wf(),
            r@ == Map::<Seq<char>, u32>::empty(),
    {
        ProcessRegistry { entries: Vec::new() }
    }

    /// The position of the entry for `id`, if one exists.
    fn find(&self, id: &str) -> (r: Option<usize>)
        ensures
            match r {
                Some(i) => i < self.entries@.len() && self.entries@[i as int].0@ == id@,
                None => forall|j: int| 0 <= j < self.entries@.len() ==> self.entries@[j].0@ != id@,
            },
    {
        let mut i: usize = 0;
        while i < self.entries.len()
            invariant
                i <= self.entries@.len(),
                forall|j: int| 0 <= j < i ==> self.entries@[j].0@ != id@,
            decreases self.entries@.len() - i,
        {
            if str_eq(self.entries[i].0.as_str(), id) {
                return Some(i);
            }
            i = i + 1;
        }
        None
    }

    /// The tracked process identifier for a command, if its invocation is in
    /// flight.
    pub fn lookup(&self, id: &str) -> (r: Option<u32>)
        requires
            self.wf(),
        ensures
            r == if self@.contains_key(id@) {
                Some(self@[id@])
            } else {
                None::<u32>
            },
    {
        match self.find(id) {
            Some(i) => {
                proof {
                    lemma_map_of_value(self.entries@, i as int);
                }
                Some(self.entries[i].1)
            },
            None => {
                proof {
                    lemma_map_of_contains(self.entries@, id@);
                }
                None
            },
        }
    }

    /// Tracks a freshly spawned invocation, overwriting any entry the same
    /// identifier already had.
    pub fn insert(&mut self, id: &str, pid: u32)
        requires
            old(self).wf(),
        ensures
            final(self).wf(),
            final(self)@ == old(self)@.insert(id@, pid),
    {
        self.remove(id);
        let ghost before = self.entries@;
        self.entries.push((id.to_owned(), pid));
        proof {
            assert(self.entries@.drop_last() =~= before);
            lemma_map_of_contains(before, id@);
            assert(forall|j: int| 0 <= j < before.len() ==> before[j].0@ != id@);
            assert(map_of(self.entries@) =~= map_of(before).insert(id@, pid));
            assert(map_of(before) =~= old(self)@.remove(id@));
            assert(map_of(self.entries@) =~= old(self)@.insert(id@, pid));
        }
    }

    /// Forgets the entry for a command, if any; removal is idempotent by
    /// construction ("remove if present").
    pub fn remove(&mut self, id: &str)
        requires
            old(self).wf(),
        ensures
            final(self).wf(),
            final(self)@ == old(self)@.remove(id@),
    {
        match self.find(id) {
            Some(i) => {
                proof {
                    lemma_map_of_remove(self.entries@, i as int);
                }
                self.entries.remove(i);
                assert(forall|a: int, b: int|
                    0 <= a < b < self.entries@.len() ==> #[trigger] self.entries@[a].0@
                        != #[trigger] self.entries@[b].0@) by {
                    assert(forall|a: int, b: int|
                        0 <= a < b < old(self).entries@.len() ==> old(self).entries@[a].0@
                            != old(self).entries@[b].0@);
                };
            },
            None => {
                proof {
                    lemma_map_of_contains(self.entries@, id@);
                    assert(!self@.contains_key(id@));
                    assert(self@.remove(id@) =~= self@);
                }
            },
        }
    }

    /// How many invocations are tracked.
    pub fn len(&self) -> (r: usize)
        requires
            self.wf(),
        ensures
            r == self@.dom().len(),
    {
        proof {
            lemma_map_of_len(self.entries@);
        }
        self.entries.len()
    }
}

} // verus!
