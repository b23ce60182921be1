//! Hit counters keyed by a value: how often each key was seen in one interval.

use vstd::prelude::*;

verus! {

/// A value that a `Tally` can count: two keys are the same key exactly when
/// their views are equal.
pub trait TallyKey: View + Sized {
    /// Tests whether `self` and `other` are the same key.
    fn same_key(&self, other: &Self) -> (same: bool)
        ensures
            same == (self@ == other@),
    ;
}

impl TallyKey for String {
    fn same_key(&self, other: &Self) -> (same: bool) {
        *self == *other
    }
}

impl TallyKey for (u16, String) {
    fn same_key(&self, other: &Self) -> (same: bool) {
        self.0 == other.0 && self.1 == other.1
    }
}

/// The hits that `entries` hold for `key`, all entries of that key together.
pub open spec fn count_in<K: TallyKey>(entries: Seq<(K, u64)>, key: K::V) -> nat
    decreases entries.len(),
{
    if entries.len() == 0 {
        0
    } else {
        let last = entries.last();
        count_in(entries.drop_last(), key) + if last.0@ == key {
            last.1 as nat
        } else {
            0
        }
    }
}

/// The hits that `entries` hold, all keys together.
pub open spec fn sum_in<K: TallyKey>(entries: Seq<(K, u64)>) -> nat
    decreases entries.len(),
{
    if entries.len() == 0 {
        0
    } else {
        sum_in(entries.drop_last()) + entries.last().1 as nat
    }
}

/// No key stands in two entries.
pub open spec fn distinct_keys<K: TallyKey>(entries: Seq<(K, u64)>) -> bool {
    forall|i: int, j: int|
        0 <= i < j < entries.len() ==> (#[trigger] entries[i]).0@ != (#[trigger] entries[j]).0@
}

/// The hits of one entry never exceed the hits of all keys.
pub proof fn lemma_entry_le_sum<K: TallyKey>(entries: Seq<(K, u64)>, at: int)
    requires
        0 <= at < entries.len(),
    ensures
        entries[at].1 <= sum_in(entries),
    decreases entries.len(),
{
    if at < entries.len() - 1 {
        lemma_entry_le_sum(entries.drop_last(), at);
    }
}

/// A key that no entry holds has no hits.
pub proof fn lemma_count_absent<K: TallyKey>(entries: Seq<(K, u64)>, key: K::V)
    requires
        forall|i: int| 0 <= i < entries.len() ==> (#[trigger] entries[i]).0@ != key,
    ensures
        count_in(entries, key) == 0,
    decreases entries.len(),
{
    if entries.len() > 0 {
        lemma_count_absent(entries.drop_last(), key);
    }
}

/// Where keys are distinct, the hits of a key are those of its one entry.
pub proof fn lemma_count_present<K: TallyKey>(entries: Seq<(K, u64)>, at: int)
    requires
        0 <= at < entries.len(),
        distinct_keys(entries),
    ensures
        count_in(entries, entries[at].0@) == entries[at].1,
    decreases entries.len(),
{
    let key = entries[at].0@;
    let front = entries.drop_last();
    if at == entries.len() - 1 {
        assert forall|i: int| 0 <= i < front.len() implies (#[trigger] front[i]).0@ != key by {
            assert(front[i] == entries[i]);
        }
        lemma_count_absent(front, key);
    } else {
        assert(distinct_keys(front)) by {
            assert forall|i: int, j: int| 0 <= i < j < front.len() implies (#[trigger] front[i]).0@
                != (#[trigger] front[j]).0@ by {
                assert(front[i] == entries[i] && front[j] == entries[j]);
            }
        }
        assert(front[at] == entries[at]);
        lemma_count_present(front, at);
    }
}

/// Replacing the hits of one entry moves the hits of its key and the sum by
/// the same amount and leaves every other key alone.
pub proof fn lemma_update<K: TallyKey>(entries: Seq<(K, u64)>, at: int, hits: u64, key: K::V)
    requires
        0 <= at < entries.len(),
    ensures
        sum_in(entries.update(at, (entries[at].0, hits))) + entries[at].1 == sum_in(entries)
            + hits,
        entries[at].0@ == key ==> count_in(entries.update(at, (entries[at].0, hits)), key)
            + entries[at].1 == count_in(entries, key) + hits,
        entries[at].0@ != key ==> count_in(entries.update(at, (entries[at].0, hits)), key)
            == count_in(entries, key),
    decreases entries.len(),
{
    let changed = entries.update(at, (entries[at].0, hits));
    if at == entries.len() - 1 {
        assert(changed.drop_last() =~= entries.drop_last());
    } else {
        assert(changed.drop_last() =~= entries.drop_last().update(
            at,
            (entries.drop_last()[at].0, hits),
        ));
        lemma_update(entries.drop_last(), at, hits, key);
    }
}

/// What one more hit for `key` makes of a tally: the hits of that key and the
/// sum grow by one, and no other key changes. Every key keeps its place, and
/// a key that is new comes last.
pub open spec fn bumped<K: TallyKey>(before: Tally<K>, after: Tally<K>, key: K::V) -> bool {
    &&& after.wf()
    &&& after.sum() == before.sum() + 1
    &&& after.count_of(key) == before.count_of(key) + 1
    &&& forall|other: K::V| other != key ==> after.count_of(other) == before.count_of(other)
    &&& after.items().len() == before.items().len() + if before.count_of(key) == 0 {
        1int
    } else {
        0int
    }
    &&& forall|i: int|
        0 <= i < before.items().len() ==> (#[trigger] after.items()[i]).0@ == before.items()[i].0@
    &&& before.count_of(key) == 0 ==> after.items().last().0@ == key
}

/// How often each key was seen. Every key stands in one entry, in the order
/// in which the keys were first seen.
pub struct Tally<K: TallyKey> {
    entries: Vec<(K, u64)>,
    total: u64,
}

impl<K: TallyKey> Tally<K> {
    /// The entries, one per key, in the order in which the keys were first seen.
    pub closed spec fn items(&self) -> Seq<(K, u64)> {
        self.entries@
    }

    /// The invariant: keys are distinct, every entry has at least one hit, and
    /// the total is the sum of the hits.
    pub closed spec fn wf(&self) -> bool {
        &&& distinct_keys(self.entries@)
        &&& forall|i: int| 0 <= i < self.entries@.len() ==> (#[trigger] self.entries@[i]).1 > 0
        &&& self.total == sum_in(self.entries@)
    }

    /// What the invariant says of the entries: no key stands in two of
    /// them, each has at least one hit, and a key has the hits of its entry.
    pub proof fn lemma_entries(&self)
        requires
            self.wf(),
        ensures
            distinct_keys(self.items()),
            forall|i: int|
                0 <= i < self.items().len() ==> (#[trigger] self.items()[i]).1 >= 1
                    && self.count_of(self.items()[i].0@) == self.items()[i].1,
            self.sum() <= u64::MAX,
    {
        assert forall|i: int| 0 <= i < self.items().len() implies (#[trigger] self.items()[i]).1
            >= 1 && self.count_of(self.items()[i].0@) == self.items()[i].1 by {
            lemma_count_present(self.items(), i);
        }
    }

    /// The hits counted for `key`; zero for a key that was never seen.
    pub open spec fn count_of(&self, key: K::V) -> nat {
        count_in(self.items(), key)
    }

    /// The hits counted for all keys together.
    pub open spec fn sum(&self) -> nat {
        sum_in(self.items())
    }

    /// An empty tally.
    pub fn new() -> (tally: Self)
        ensures
            tally.wf(),
            tally.items() == Seq::<(K, u64)>::empty(),
            tally.sum() == 0,
            forall|key: K::V| tally.count_of(key) == 0,
    {
        Tally { entries: Vec::new(), total: 0 }
    }

    /// The hits counted for all keys together.
    pub fn total(&self) -> (total: u64)
        requires
            self.wf(),
        ensures
            total == self.sum(),
    {
        self.total
    }

    /// The number of keys seen.
    pub fn len(&self) -> (n: usize)
        ensures
            n == self.items().len(),
    {
        self.entries.len()
    }

    /// The entries, one per key, in the order in which the keys were first seen.
    pub fn entries(&self) -> (entries: &Vec<(K, u64)>)
        ensures
            entries@ == self.items(),
    {
        &self.entries
    }

    /// Where the entry of `key` stands, if it has one.
    fn position(&self, key: &K) -> (at: Option<usize>)
        ensures
            match at {
                Some(i) => i < self.entries@.len() && self.entries@[i as int].0@ == key@,
                None => forall|i: int|
                    0 <= i < self.entries@.len() ==> (#[trigger] self.entries@[i]).0@ != key@,
            },
    {
        let mut i: usize = 0;
        while i < self.entries.len()
            invariant
                i <= self.entries@.len(),
                forall|j: int| 0 <= j < i ==> (#[trigger] self.entries@[j]).0@ != key@,
            decreases self.entries@.len() - i,
        {
            if self.entries[i].0.same_key(key) {
                return Some(i);
            }
            i += 1;
        }
        None
    }

    /// The hits counted for `key`; zero for a key that was never seen.
    pub fn get(&self, key: &K) -> (hits: u64)
        requires
            self.wf(),
        ensures
            hits == self.count_of(key@),
    {
        match self.position(key) {
            Some(i) => {
                proof {
                    lemma_count_present(self.entries@, i as int);
                }
                self.entries[i].1
            },
            None => {
                proof {
                    lemma_count_absent(self.entries@, key@);
                }
                0
            },
        }
    }

    /// Counts one more hit for `key`.
    pub fn increment(&mut self, key: K)
        requires
            old(self).wf(),
            old(self).sum() < u64::MAX,
        ensures
            bumped(*old(self), *final(self), key@),
    {
        let ghost before = self.entries@;
        match self.position(&key) {
            Some(i) => {
                let hits: u64 = self.entries[i].1;
                proof {
                    lemma_entry_le_sum(before, i as int);
                    lemma_count_present(before, i as int);
                }
                self.entries[i].1 = hits + 1;
                self.total = self.total + 1;
                proof {
                    let after = self.entries@;
                    assert(after =~= before.update(i as int, (before[i as int].0, (hits + 1) as u64)));
                    lemma_update(before, i as int, (hits + 1) as u64, key@);
                    assert forall|other: K::V| other != key@ implies count_in(after, other)
                        == count_in(before, other) by {
                        lemma_update(before, i as int, (hits + 1) as u64, other);
                    }
                    assert(distinct_keys(after)) by {
                        assert forall|a: int, b: int| 0 <= a < b < after.len() implies (
                        #[trigger] after[a]).0@ != (#[trigger] after[b]).0@ by {
                            assert(after[a].0 == before[a].0 && after[b].0 == before[b].0);
                        }
                    }
                }
            },
            None => {
                self.entries.push((key, 1));
                self.total = self.total + 1;
                proof {
                    let after = self.entries@;
                    lemma_count_absent(before, key@);
                    assert(after.drop_last() =~= before);
                    assert forall|other: K::V| other != key@ implies count_in(after, other)
                        == count_in(before, other) by {}
                }
            },
        }
    }
}

} // verus!
