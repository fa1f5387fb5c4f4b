//! The string dictionary: a write-once, content-addressed map from 128-bit
//! hashes to the lexical strings they stand for.
//!
//! An entry is never updated in place. Re-inserting an equal pair is a
//! no-op; inserting a different string under an existing hash is a fatal
//! hash collision and leaves the dictionary unchanged.
//!
//! The dictionary itself accepts any hash-to-string pair; that a key is the
//! hash of the string it maps to is the callers' convention, upheld by the
//! term encoders, which always stage a string under its own hash.

use vstd::prelude::*;
use vstd::string::StrSliceExecFns;

use crate::Error;
use crate::hash::StrHash;
use crate::lexical::str_eq;

verus! {

/// The map denoted by a sequence of dictionary entries; later entries win,
/// though a well-formed dictionary never repeats a key.
pub open spec fn entries_map(s: Seq<(u128, String)>) -> Map<u128, Seq<char>>
    decreases s.len(),
{
    if s.len() == 0 {
        Map::empty()
    } else {
        entries_map(s.drop_last()).insert(s.last().0, s.last().1@)
    }
}

/// A key is in the map exactly when some entry carries it.
pub proof fn lemma_entries_map_contains(s: Seq<(u128, String)>, h: u128)
    ensures
        entries_map(s).contains_key(h) <==> exists|i: int| 0 <= i < s.len() && (#[trigger] s[i]).0
            == h,
    decreases s.len(),
{
    if s.len() > 0 {
        lemma_entries_map_contains(s.drop_last(), h);
        if entries_map(s).contains_key(h) {
            if s.last().0 == h {
                assert(s[s.len() - 1].0 == h);
            }
        }
        if exists|i: int| 0 <= i < s.len() && (#[trigger] s[i]).0 == h {
            let i = choose|i: int| 0 <= i < s.len() && (#[trigger] s[i]).0 == h;
            if i < s.len() - 1 {
                assert(s.drop_last()[i].0 == h);
            }
        }
    }
}

/// In a dictionary without repeated keys, each entry gives the value of its
/// key.
pub proof fn lemma_entries_map_at(s: Seq<(u128, String)>, i: int)
    requires
        forall|a: int, b: int| 0 <= a < b < s.len() ==> (#[trigger] s[a]).0 != (#[trigger] s[b]).0,
        0 <= i < s.len(),
    ensures
        entries_map(s).contains_key(s[i].0),
        entries_map(s)[s[i].0] == s[i].1@,
    decreases s.len(),
{
    if i < s.len() - 1 {
        assert(s.drop_last()[i] == s[i]);
        lemma_entries_map_at(s.drop_last(), i);
        assert(s[i].0 != s.last().0);
    }
}

/// The hash-to-string dictionary.
pub struct Dictionary {
    /// The entries; public for specification. No two entries share a key.
    pub entries: Vec<(u128, String)>,
}

impl View for Dictionary {
    type V = Map<u128, Seq<char>>;

    open spec fn view(&self) -> Map<u128, Seq<char>> {
        entries_map(self.entries@)
    }
}

impl Dictionary {
    /// No two entries share a key.
    pub open spec fn wf(&self) -> bool {
        forall|a: int, b: int|
            0 <= a < b < self.entries@.len() ==> (#[trigger] self.entries@[a]).0
                != (#[trigger] self.entries@[b]).0
    }

    /// An empty dictionary.
    pub fn new() -> (r: Dictionary)
        ensures
            r@ == Map::<u128, Seq<char>>::empty(),
            r.wf(),
    {
        Dictionary { entries: Vec::new() }
    }

    /// Looks a hash up. Returns the stored string exactly when the hash has
    /// an entry.
    pub fn get_str(&self, key: StrHash) -> (r: Option<String>)
        requires
            self.wf(),
        ensures
            r matches Some(v) ==> self@.contains_key(key.hash) && v@ == self@[key.hash],
            r is None ==> !self@.contains_key(key.hash),
    {
        let n = self.entries.len();
        let mut i: usize = 0;
        while i < n
            invariant
                i <= n,
                n == self.entries@.len(),
                self.wf(),
                forall|j: int| 0 <= j < i ==> (#[trigger] self.entries@[j]).0 != key.hash,
            decreases n - i,
        {
            if self.entries[i].0 == key.hash {
                let value = self.entries[i].1.clone();
                proof {
                    lemma_entries_map_at(self.entries@, i as int);
                }
                return Some(value);
            }
            i = i + 1;
        }
        proof {
            lemma_entries_map_contains(self.entries@, key.hash);
        }
        None
    }

    /// Stages a hash-to-string pair. Idempotent for an equal pair; a
    /// different string under an existing hash is a fatal collision and
    /// changes nothing.
    pub fn insert_str(&mut self, key: StrHash, value: &str) -> (r: Result<(), Error>)
        requires
            old(self).wf(),
        ensures
            final(self).wf(),
            r matches Ok(()) ==> final(self)@ == old(self)@.insert(key.hash, value@),
            r is Err ==> final(self)@ == old(self)@ && r == Err::<(), Error>(Error::HashCollision),
            (r is Err) == (old(self)@.contains_key(key.hash) && old(self)@[key.hash] != value@),
    {
        let n = self.entries.len();
        let mut i: usize = 0;
        while i < n
            invariant
                i <= n,
                n == self.entries@.len(),
                self.wf(),
                self == old(self),
                forall|j: int| 0 <= j < i ==> (#[trigger] self.entries@[j]).0 != key.hash,
            decreases n - i,
        {
            if self.entries[i].0 == key.hash {
                proof {
                    lemma_entries_map_at(self.entries@, i as int);
                }
                if str_eq(self.entries[i].1.as_str(), value) {
                    proof {
                        assert(old(self)@.insert(key.hash, value@) =~= old(self)@);
                    }
                    return Ok(());
                } else {
                    return Err(Error::HashCollision);
                }
            }
            i = i + 1;
        }
        proof {
            lemma_entries_map_contains(self.entries@, key.hash);
        }
        let ghost before = self.entries@;
        self.entries.push((key.hash, value.to_owned()));
        proof {
            assert(self.entries@.drop_last() =~= before);
            assert(self.entries@.last().0 == key.hash);
        }
        Ok(())
    }
    /// An identical copy, as the commit check uses to probe a batch
    /// without touching the live dictionary.
    pub fn duplicate(&self) -> (r: Dictionary)
        ensures
            r@ == self@,
            r.wf() == self.wf(),
            r.entries@ == self.entries@,
    {
        let n = self.entries.len();
        let mut entries: Vec<(u128, String)> = Vec::new();
        let mut i: usize = 0;
        while i < n
            invariant
                i <= n,
                n == self.entries@.len(),
                entries@ == self.entries@.take(i as int),
            decreases n - i,
        {
            let value = self.entries[i].1.clone();
            entries.push((self.entries[i].0, value));
            proof {
                assert(entries@ =~= self.entries@.take(i + 1));
            }
            i = i + 1;
        }
        proof {
            assert(self.entries@.take(n as int) =~= self.entries@);
        }
        Dictionary { entries }
    }
}

} // verus!
