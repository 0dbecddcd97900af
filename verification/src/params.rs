//! The store of bound values, keyed by placeholder number.

use vstd::prelude::*;

verus! {

/// The mapping that a list of entries stands for: each entry's number to its
/// value.
pub open spec fn entries_map<V>(entries: Seq<(usize, V)>) -> Map<nat, V>
    decreases entries.len(),
{
    if entries.len() == 0 {
        Map::empty()
    } else {
        entries_map(entries.drop_last()).insert(entries.last().0 as nat, entries.last().1)
    }
}

/// Whether the numbers of `entries` grow strictly from each entry to the next.
pub open spec fn ascending<V>(entries: Seq<(usize, V)>) -> bool {
    forall|i: int, j: int| 0 <= i < j < entries.len() ==> entries[i].0 < entries[j].0
}

/// The mapping of a list of entries holds exactly the numbers of the list.
proof fn lemma_entries_map_dom<V>(entries: Seq<(usize, V)>)
    ensures
        entries_map(entries).dom().finite(),
        forall|n: nat|
            entries_map(entries).contains_key(n) <==> exists|i: int|
                0 <= i < entries.len() && #[trigger] entries[i].0 == n,
    decreases entries.len(),
{
    if entries.len() == 0 {
    } else {
        let front = entries.drop_last();
        lemma_entries_map_dom(front);
        assert forall|n: nat| entries_map(entries).contains_key(n) implies exists|i: int|
            0 <= i < entries.len() && #[trigger] entries[i].0 == n by {
            if n == entries.last().0 {
                assert(entries[entries.len() - 1].0 == n);
            } else {
                assert(entries_map(front).contains_key(n));
                let i = choose|i: int| 0 <= i < front.len() && #[trigger] front[i].0 == n;
                assert(entries[i].0 == n);
            }
        }
        assert forall|n: nat|
            (exists|i: int|
                0 <= i < entries.len() && #[trigger] entries[i].0 == n) implies entries_map(
            entries,
        ).contains_key(n) by {
            let i = choose|i: int| 0 <= i < entries.len() && #[trigger] entries[i].0 == n;
            if i < entries.len() - 1 {
                assert(front[i].0 == n);
            }
        }
    }
}

/// In an ascending list the mapping gives each entry's number that entry's
/// value, and holds as many numbers as the list has entries.
proof fn lemma_entries_map_ascending<V>(entries: Seq<(usize, V)>)
    requires
        ascending(entries),
    ensures
        entries_map(entries).dom().len() == entries.len(),
        forall|i: int|
            0 <= i < entries.len() ==> entries_map(entries).contains_key(
                #[trigger] entries[i].0 as nat,
            ) && entries_map(entries)[entries[i].0 as nat] == entries[i].1,
    decreases entries.len(),
{
    if entries.len() == 0 {
    } else {
        let front = entries.drop_last();
        let last = entries.last();
        lemma_entries_map_ascending(front);
        lemma_entries_map_dom(front);
        assert(!entries_map(front).contains_key(last.0 as nat)) by {
            if entries_map(front).contains_key(last.0 as nat) {
                let i = choose|i: int| 0 <= i < front.len() && #[trigger] front[i].0 == last.0;
                assert(entries[i].0 < entries[entries.len() - 1].0);
            }
        }
        assert forall|i: int| 0 <= i < entries.len() implies entries_map(entries).contains_key(
            #[trigger] entries[i].0 as nat,
        ) && entries_map(entries)[entries[i].0 as nat] == entries[i].1 by {
            if i < entries.len() - 1 {
                assert(front[i] == entries[i]);
                assert(entries[i].0 < entries[entries.len() - 1].0);
            }
        }
    }
}

/// Bound values under their placeholder numbers, in the order in which they
/// were registered.
pub struct ParamStore<V> {
    entries: Vec<(usize, V)>,
}

impl<V> View for ParamStore<V> {
    type V = Map<nat, V>;

    closed spec fn view(&self) -> Map<nat, V> {
        entries_map(self.entries@)
    }
}

impl<V> ParamStore<V> {
    /// The store's invariant: values were registered under growing numbers,
    /// so no number occurs twice.
    pub closed spec fn wf(&self) -> bool {
        ascending(self.entries@)
    }

    /// The empty store.
    pub fn new() -> (s: ParamStore<V>)
        ensures
            s.wf(),
            s@ == Map::<nat, V>::empty(),
    {
        ParamStore { entries: Vec::new() }
    }

    /// How many values the store holds.
    pub fn len(&self) -> (n: usize)
        requires
            self.wf(),
        ensures
            self@.dom().finite(),
            n == self@.dom().len(),
    {
        proof {
            lemma_entries_map_dom(self.entries@);
            lemma_entries_map_ascending(self.entries@);
        }
        self.entries.len()
    }

    /// Registers `value` under `number`, which is above every number that the
    /// store holds.
    pub fn insert(&mut self, number: usize, value: V)
        requires
            old(self).wf(),
            forall|n: nat| old(self)@.contains_key(n) ==> n < number,
        ensures
            final(self).wf(),
            final(self)@ == old(self)@.insert(number as nat, value),
    {
        proof {
            lemma_entries_map_ascending(self.entries@);
        }
        self.entries.push((number, value));
        assert(self.entries@.drop_last() =~= old(self).entries@);
        assert forall|i: int, j: int| 0 <= i < j < self.entries@.len() implies self.entries@[i].0
            < self.entries@[j].0 by {
            assert(old(self).entries@[i] == self.entries@[i]);
            assert(old(self)@.contains_key(old(self).entries@[i].0 as nat));
            if j < old(self).entries@.len() {
                assert(old(self).entries@[j] == self.entries@[j]);
            }
        }
    }

    /// The value registered under `number`, if there is one. The numbers
    /// grow along the entries, so the search halves its range at each step.
    pub fn get(&self, number: usize) -> (found: Option<&V>)
        requires
            self.wf(),
        ensures
            match found {
                Some(v) => self@.contains_key(number as nat) && *v == self@[number as nat],
                None => !self@.contains_key(number as nat),
            },
    {
        let mut lo: usize = 0;
        let mut hi: usize = self.entries.len();
        while lo < hi
            invariant
                self.wf(),
                lo <= hi <= self.entries.len(),
                forall|k: int| 0 <= k < lo ==> self.entries@[k].0 < number,
                forall|k: int| hi <= k < self.entries.len() ==> self.entries@[k].0 > number,
            decreases hi - lo,
        {
            let mid = lo + (hi - lo) / 2;
            let key = self.entries[mid].0;
            if key == number {
                proof {
                    lemma_entries_map_ascending(self.entries@);
                    let e = self.entries@[mid as int];
                    assert(self@.contains_key(e.0 as nat) && self@[e.0 as nat] == e.1);
                }
                return Some(&self.entries[mid].1);
            } else if key < number {
                lo = mid + 1;
            } else {
                hi = mid;
            }
        }
        proof {
            lemma_entries_map_dom(self.entries@);
        }
        None
    }
}

} // verus!
