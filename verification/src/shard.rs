//! One shard: an isolated, mutable string-to-string mapping.
//!
//! A shard holds one partition of the overall key space and knows nothing of
//! sharding or routing. It is modelled as a [`Map`] from the key's characters
//! to the value's characters; the implementation keeps the entries in a vector
//! whose keys are pairwise distinct.

use vstd::prelude::*;

verus! {

/// An association list read left to right as a map: a later entry for a key
/// overrides an earlier one (well-formed shards never hold two entries for
/// one key, so nothing is ever overridden there).
spec fn assoc_map(s: Seq<(Seq<char>, Seq<char>)>) -> Map<Seq<char>, Seq<char>>
    decreases s.len(),
{
    if s.len() == 0 {
        Map::empty()
    } else {
        assoc_map(s.drop_last()).insert(s.last().0, s.last().1)
    }
}

/// No two entries of `s` share a key.
spec fn unique_keys(s: Seq<(Seq<char>, Seq<char>)>) -> bool {
    forall|i: int, j: int| 0 <= i < j < s.len() ==> s[i].0 != s[j].0
}

/// A key that occurs in no entry of `s` is not in the map `s` stands for.
proof fn lemma_assoc_map_absent(s: Seq<(Seq<char>, Seq<char>)>, k: Seq<char>)
    requires
        forall|i: int| 0 <= i < s.len() ==> (#[trigger] s[i]).0 != k,
    ensures
        !assoc_map(s).contains_key(k),
    decreases s.len(),
{
    if s.len() > 0 {
        lemma_assoc_map_absent(s.drop_last(), k);
    }
}

/// When keys are unique, the map `s` stands for holds each entry's key, bound
/// to that entry's value.
proof fn lemma_assoc_map_index(s: Seq<(Seq<char>, Seq<char>)>, i: int)
    requires
        unique_keys(s),
        0 <= i < s.len(),
    ensures
        assoc_map(s).contains_key(s[i].0),
        assoc_map(s)[s[i].0] == s[i].1,
    decreases s.len(),
{
    if i < s.len() - 1 {
        assert(unique_keys(s.drop_last()));
        lemma_assoc_map_index(s.drop_last(), i);
    }
}

/// When keys are unique and the map `s` stands for lacks `k`, no entry of `s`
/// has key `k`.
proof fn lemma_no_entry_for_absent_key(s: Seq<(Seq<char>, Seq<char>)>, k: Seq<char>)
    requires
        unique_keys(s),
        !assoc_map(s).contains_key(k),
    ensures
        forall|i: int| 0 <= i < s.len() ==> (#[trigger] s[i]).0 != k,
{
    assert forall|i: int| 0 <= i < s.len() implies (#[trigger] s[i]).0 != k by {
        lemma_assoc_map_index(s, i);
    }
}

/// Removing entry `i` from a unique-keyed list removes exactly that entry's
/// key from the map the list stands for.
proof fn lemma_assoc_map_remove(s: Seq<(Seq<char>, Seq<char>)>, i: int)
    requires
        unique_keys(s),
        0 <= i < s.len(),
    ensures
        unique_keys(s.remove(i)),
        assoc_map(s.remove(i)) == assoc_map(s).remove(s[i].0),
    decreases s.len(),
{
    assert(unique_keys(s.remove(i)));
    if i == s.len() - 1 {
        assert(s.remove(i) =~= s.drop_last());
        assert(forall|j: int|
            0 <= j < s.drop_last().len() ==> (#[trigger] s.drop_last()[j]).0 != s[i].0);
        lemma_assoc_map_absent(s.drop_last(), s[i].0);
        assert(assoc_map(s.remove(i)) =~= assoc_map(s).remove(s[i].0));
    } else {
        let t = s.drop_last();
        assert(unique_keys(t));
        lemma_assoc_map_remove(t, i);
        assert(s.remove(i).drop_last() =~= t.remove(i));
        assert(s.remove(i).last() == s.last());
        assert(assoc_map(s.remove(i)) == assoc_map(t.remove(i)).insert(s.last().0, s.last().1));
        assert(s[i].0 != s.last().0);
        assert(assoc_map(s.remove(i)) =~= assoc_map(s).remove(s[i].0));
    }
}

/// One partition of the key space: an isolated mutable mapping from string
/// keys to string values.
pub struct Shard {
    data: Vec<(String, String)>,
}

impl View for Shard {
    type V = Map<Seq<char>, Seq<char>>;

    closed spec fn view(&self) -> Map<Seq<char>, Seq<char>> {
        assoc_map(self.entries())
    }
}

impl Shard {
    /// The stored entries, as mathematical values.
    spec fn entries(&self) -> Seq<(Seq<char>, Seq<char>)> {
        self.data@.map_values(|p: (String, String)| (p.0@, p.1@))
    }

    /// Internal invariant: the stored keys are pairwise distinct, so each key
    /// has at most one entry and the vector faithfully represents a map.
    pub closed spec fn wf(&self) -> bool {
        unique_keys(self.entries())
    }

    /// Creates an empty shard.
    pub fn new() -> (s: Shard)
        ensures
            s.wf(),
            s@ == Map::<Seq<char>, Seq<char>>::empty(),
    {
        let s = Shard { data: Vec::new() };
        proof {
            assert(s.entries() =~= Seq::<(Seq<char>, Seq<char>)>::empty());
        }
        s
    }

    /// Reports whether the shard holds no entry at all.
    pub fn is_empty(&self) -> (r: bool)
        ensures
            r <==> self@ == Map::<Seq<char>, Seq<char>>::empty(),
    {
        let r = self.data.len() == 0;
        proof {
            if self.data@.len() == 0 {
                assert(self.entries() =~= Seq::<(Seq<char>, Seq<char>)>::empty());
            } else {
                let last = self.entries().last();
                assert(self@.contains_key(last.0));
                assert(!Map::<Seq<char>, Seq<char>>::empty().dom().contains(last.0));
            }
        }
        r
    }

    /// Returns the value currently bound to `key`, if any. No side effects.
    pub fn get(&self, key: &str) -> (r: Option<String>)
        requires
            self.wf(),
        ensures
            match r {
                Some(v) => self@.contains_key(key@) && v@ == self@[key@],
                None => !self@.contains_key(key@),
            },
    {
        let k: String = key.to_owned();
        let n: usize = self.data.len();
        let mut i: usize = 0;
        while i < n
            invariant
                self.wf(),
                n == self.data@.len(),
                i <= n,
                k@ == key@,
                forall|j: int| 0 <= j < i ==> (#[trigger] self.entries()[j]).0 != key@,
            decreases n - i,
        {
            let p = &self.data[i];
            if p.0 == k {
                proof {
                    lemma_assoc_map_index(self.entries(), i as int);
                }
                return Some(p.1.clone());
            }
            i += 1;
        }
        proof {
            lemma_assoc_map_absent(self.entries(), key@);
        }
        None
    }

    /// Inserts `value` under `key`, silently replacing any value that was
    /// bound to `key` before.
    pub fn set(&mut self, key: String, value: String)
        requires
            old(self).wf(),
        ensures
            final(self).wf(),
            final(self)@ == old(self)@.insert(key@, value@),
    {
        let _ = self.delete(key.as_str());
        let ghost mid = *self;
        self.data.push((key, value));
        proof {
            assert(self.entries() =~= mid.entries().push((key@, value@)));
            assert(self.entries().drop_last() =~= mid.entries());
            assert(self@ == mid@.insert(key@, value@));
            lemma_no_entry_for_absent_key(mid.entries(), key@);
            assert(unique_keys(self.entries()));
            assert(self@ =~= old(self)@.insert(key@, value@));
        }
    }

    /// Removes `key` and returns the value it was bound to; returns `None`,
    /// and changes nothing, when `key` was absent. Deleting an absent key is
    /// a no-op by design, not a failure.
    pub fn delete(&mut self, key: &str) -> (r: Option<String>)
        requires
            old(self).wf(),
        ensures
            final(self).wf(),
            final(self)@ == old(self)@.remove(key@),
            match r {
                Some(v) => old(self)@.contains_key(key@) && v@ == old(self)@[key@],
                None => !old(self)@.contains_key(key@),
            },
    {
        let k: String = key.to_owned();
        let n: usize = self.data.len();
        let mut i: usize = 0;
        while i < n
            invariant
                *self == *old(self),
                self.wf(),
                n == self.data@.len(),
                i <= n,
                k@ == key@,
                forall|j: int| 0 <= j < i ==> (#[trigger] self.entries()[j]).0 != key@,
            decreases n - i,
        {
            let p = &self.data[i];
            if p.0 == k {
                proof {
                    lemma_assoc_map_index(self.entries(), i as int);
                    lemma_assoc_map_remove(self.entries(), i as int);
                }
                let ghost prev = *self;
                let entry = self.data.remove(i);
                proof {
                    assert(self.entries() =~= prev.entries().remove(i as int));
                }
                return Some(entry.1);
            }
            i += 1;
        }
        proof {
            lemma_assoc_map_absent(self.entries(), key@);
            assert(old(self)@.remove(key@) =~= old(self)@);
        }
        None
    }
}

} // verus!
