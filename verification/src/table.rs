//! An ordered list of key/value pairs read as a mapping in which the last
//! entry written for a key is the one that counts.

use vstd::prelude::*;
use crate::bytes::equal;

verus! {

/// One key with its value.
#[derive(Debug, PartialEq, Eq)]
pub struct Entry {
    pub key: Vec<u8>,
    pub value: Vec<u8>,
}

/// The mapping that a list of pairs stands for: each pair is written in turn,
/// so a later pair replaces an earlier one with the same key.
pub open spec fn pairs_map(s: Seq<(Seq<u8>, Seq<u8>)>) -> Map<Seq<u8>, Seq<u8>>
    decreases s.len(),
{
    if s.len() == 0 {
        Map::empty()
    } else {
        pairs_map(s.drop_last()).insert(s.last().0, s.last().1)
    }
}

/// Where `k` is last written at index `i` of `s`, `pairs_map(s)` maps `k` to
/// the value written there.
pub proof fn lemma_pairs_map_last(s: Seq<(Seq<u8>, Seq<u8>)>, k: Seq<u8>, i: int)
    requires
        0 <= i < s.len(),
        s[i].0 == k,
        forall|j: int| i < j < s.len() ==> (#[trigger] s[j]).0 != k,
    ensures
        pairs_map(s).contains_key(k),
        pairs_map(s)[k] == s[i].1,
    decreases s.len(),
{
    if i < s.len() - 1 {
        let t = s.drop_last();
        assert forall|j: int| i < j < t.len() implies (#[trigger] t[j]).0 != k by {}
        lemma_pairs_map_last(t, k, i);
    }
}

/// A key that `s` never writes is no key of `pairs_map(s)`.
pub proof fn lemma_pairs_map_absent(s: Seq<(Seq<u8>, Seq<u8>)>, k: Seq<u8>)
    requires
        forall|j: int| 0 <= j < s.len() ==> (#[trigger] s[j]).0 != k,
    ensures
        !pairs_map(s).contains_key(k),
    decreases s.len(),
{
    if s.len() > 0 {
        let t = s.drop_last();
        assert forall|j: int| 0 <= j < t.len() implies (#[trigger] t[j]).0 != k by {}
        lemma_pairs_map_absent(t, k);
    }
}

/// One more write is one more `insert`.
pub proof fn lemma_pairs_map_push(s: Seq<(Seq<u8>, Seq<u8>)>, p: (Seq<u8>, Seq<u8>))
    ensures
        pairs_map(s.push(p)) == pairs_map(s).insert(p.0, p.1),
{
    assert(s.push(p).drop_last() =~= s);
}

/// A mapping from byte strings to byte strings, kept as the list of writes
/// that produced it.
#[derive(Debug, PartialEq, Eq)]
pub struct Table {
    pub entries: Vec<Entry>,
}

impl Table {
    /// The writes, oldest first.
    pub open spec fn pairs(&self) -> Seq<(Seq<u8>, Seq<u8>)> {
        Seq::new(self.entries@.len(), |i: int| (self.entries@[i].key@, self.entries@[i].value@))
    }

    /// The mapping that the writes produce.
    pub open spec fn view(&self) -> Map<Seq<u8>, Seq<u8>> {
        pairs_map(self.pairs())
    }

    /// The empty mapping.
    pub fn new() -> (r: Table)
        ensures
            r.pairs() == Seq::<(Seq<u8>, Seq<u8>)>::empty(),
            r@ == Map::<Seq<u8>, Seq<u8>>::empty(),
    {
        let r = Table { entries: Vec::new() };
        r
    }

    /// Writes `value` under `key`, replacing what was written there before.
    pub fn insert(&mut self, key: Vec<u8>, value: Vec<u8>)
        ensures
            final(self).pairs() == old(self).pairs().push((key@, value@)),
            final(self)@ == old(self)@.insert(key@, value@),
    {
        self.entries.push(Entry { key, value });
        proof {
            assert(self.pairs() =~= old(self).pairs().push((key@, value@)));
            lemma_pairs_map_push(old(self).pairs(), (key@, value@));
        }
    }

    /// The number of writes made.
    pub fn len(&self) -> (n: usize)
        ensures
            n == self.pairs().len(),
    {
        self.entries.len()
    }

    /// The value written last under `key`, if any was.
    pub fn get(&self, key: &[u8]) -> (r: Option<&Vec<u8>>)
        ensures
            match r {
                Some(v) => self@.contains_key(key@) && self@[key@] == v@,
                None => !self@.contains_key(key@),
            },
    {
        let mut i: usize = self.entries.len();
        while i > 0
            invariant
                0 <= i <= self.entries@.len(),
                forall|j: int| i <= j < self.entries@.len() ==> (#[trigger] self.pairs()[j]).0 != key@,
            decreases i,
        {
            i -= 1;
            if equal(self.entries[i].key.as_slice(), key) {
                proof {
                    lemma_pairs_map_last(self.pairs(), key@, i as int);
                }
                return Some(&self.entries[i].value);
            }
        }
        proof {
            lemma_pairs_map_absent(self.pairs(), key@);
        }
        None
    }
}

} // verus!
