//! The watch-history store: a set of path keys, with membership test, add
//! and remove. Keys are normalized to the configured media root before
//! every lookup and every mutation, so that reads and writes always agree.

use crate::config::Config;
use crate::listing::Entry;
use crate::paths::norm_key_spec;
use crate::paths::normalize_key;
use vstd::prelude::*;

verus! {

/// The set of "watched" path keys. A key present in the store means the
/// file it names is considered watched.
pub struct HistoryStore {
    keys: Vec<String>,
}

impl View for HistoryStore {
    type V = Set<Seq<char>>;

    closed spec fn view(&self) -> Set<Seq<char>> {
        Set::new(|k: Seq<char>| exists|i: int| 0 <= i < self.keys@.len() && self.keys@[i]@ == k)
    }
}

impl HistoryStore {
    /// No key occurs twice.
    #[verifier::type_invariant]
    spec fn inv(self) -> bool {
        forall|i: int, j: int|
            0 <= i < j < self.keys@.len() ==> self.keys@[i]@ != self.keys@[j]@
    }

    /// An empty store.
    pub fn new() -> (h: HistoryStore)
        ensures
            h@ == Set::<Seq<char>>::empty(),
    {
        let h = HistoryStore { keys: Vec::new() };
        proof {
            assert(h@ =~= Set::<Seq<char>>::empty());
        }
        h
    }

    /// Whether `key` is in the store.
    pub fn contains(&self, key: &String) -> (r: bool)
        ensures
            r == self@.contains(key@),
    {
        let n = self.keys.len();
        let mut i: usize = 0;
        while i < n
            invariant
                i <= n,
                n == self.keys@.len(),
                forall|k: int| 0 <= k < i ==> self.keys@[k]@ != key@,
            decreases n - i,
        {
            if self.keys[i] == *key {
                return true;
            }
            i = i + 1;
        }
        false
    }

    /// The position of `key` among the stored keys, if it is present.
    fn position_of(&self, key: &String) -> (r: Option<usize>)
        ensures
            r matches Some(i) ==> i < self.keys@.len() && self.keys@[i as int]@ == key@,
            r is None ==> forall|k: int| 0 <= k < self.keys@.len() ==> self.keys@[k]@ != key@,
    {
        let n = self.keys.len();
        let mut i: usize = 0;
        while i < n
            invariant
                i <= n,
                n == self.keys@.len(),
                forall|k: int| 0 <= k < i ==> self.keys@[k]@ != key@,
            decreases n - i,
        {
            if self.keys[i] == *key {
                return Some(i);
            }
            i = i + 1;
        }
        None
    }

    /// Adds `key` to the store; adding a key that is already present leaves
    /// the store as it was.
    pub fn add(&mut self, key: String)
        ensures
            final(self)@ == old(self)@.insert(key@),
    {
        proof {
            use_type_invariant(&*self);
        }
        if !self.contains(&key) {
            let mut ks: Vec<String> = Vec::new();
            core::mem::swap(&mut ks, &mut self.keys);
            ks.push(key);
            core::mem::swap(&mut ks, &mut self.keys);
        }
        proof {
            let ghost n = old(self).keys@.len() as int;
            assert forall|k: Seq<char>| self@.contains(k) <==> old(self)@.insert(key@).contains(
                k,
            ) by {
                if self@.contains(k) {
                    let i = choose|i: int| 0 <= i < self.keys@.len() && self.keys@[i]@ == k;
                    if i < n {
                        assert(old(self).keys@[i]@ == k);
                        assert(old(self)@.contains(k));
                    } else {
                        assert(k == key@);
                    }
                }
                if old(self)@.contains(k) {
                    let i = choose|i: int| 0 <= i < n && old(self).keys@[i]@ == k;
                    assert(self.keys@[i]@ == k);
                    assert(self@.contains(k));
                }
                if k == key@ {
                    if self.keys@.len() > n {
                        assert(self.keys@[n]@ == key@);
                    }
                    assert(self@.contains(k));
                }
            }
            assert(self@ =~= old(self)@.insert(key@));
        }
    }

    /// Removes `key` from the store; removing an absent key leaves the
    /// store as it was.
    pub fn remove(&mut self, key: &String)
        ensures
            final(self)@ == old(self)@.remove(key@),
    {
        proof {
            use_type_invariant(&*self);
        }
        match self.position_of(key) {
            Some(i) => {
                let mut ks: Vec<String> = Vec::new();
                core::mem::swap(&mut ks, &mut self.keys);
                ks.remove(i);
                core::mem::swap(&mut ks, &mut self.keys);
                proof {
                    let oldk = old(self).keys@;
                    let newk = self.keys@;
                    assert forall|k: Seq<char>|
                        self@.contains(k) <==> old(self)@.remove(key@).contains(k) by {
                        if self@.contains(k) {
                            let j = choose|j: int| 0 <= j < newk.len() && newk[j]@ == k;
                            if j < i {
                                assert(oldk[j]@ == k);
                            } else {
                                assert(oldk[j + 1]@ == k);
                            }
                        }
                        if old(self)@.contains(k) && k != key@ {
                            let j = choose|j: int| 0 <= j < oldk.len() && oldk[j]@ == k;
                            if j < i {
                                assert(newk[j]@ == k);
                            } else {
                                assert(newk[j - 1]@ == k);
                            }
                        }
                    }
                    assert(self@ =~= old(self)@.remove(key@));
                }
            },
            None => {
                proof {
                    assert(!old(self)@.contains(key@));
                    assert(self@ =~= old(self)@.remove(key@));
                }
            },
        }
    }

    /// The stored keys, in their storage order; each key is in the set, and
    /// every member of the set is among them exactly once.
    pub fn keys(&self) -> (r: &Vec<String>)
        ensures
            forall|i: int| 0 <= i < r@.len() ==> self@.contains(#[trigger] r@[i]@),
            forall|k: Seq<char>| self@.contains(k) ==> exists|i: int|
                0 <= i < r@.len() && r@[i]@ == k,
            forall|i: int, j: int| 0 <= i < j < r@.len() ==> r@[i]@ != r@[j]@,
    {
        proof {
            use_type_invariant(&*self);
        }
        &self.keys
    }
}

/// The membership round trip of the store: a key just added is watched,
/// and a key just removed is not, whatever the store held before.
pub proof fn lemma_history_round_trip(h: Set<Seq<char>>, k: Seq<char>)
    ensures
        h.insert(k).contains(k),
        !h.remove(k).contains(k),
{
}

/// Whether the entry's file is recorded as watched: membership of the
/// entry's normalized path key.
pub fn hist_contains(data: &HistoryStore, config: &Config, e: &Entry) -> (r: bool)
    ensures
        r == data@.contains(norm_key_spec(e.path@, config.media_dir@)),
{
    let key = normalize_key(e.path.as_str(), config.media_dir.as_str());
    data.contains(&key)
}

/// Records the entry's file as watched.
pub fn hist_add(data: &mut HistoryStore, config: &Config, e: &Entry)
    ensures
        final(data)@ == old(data)@.insert(norm_key_spec(e.path@, config.media_dir@)),
{
    let key = normalize_key(e.path.as_str(), config.media_dir.as_str());
    data.add(key);
}

/// Removes the entry's file from the watched set.
pub fn hist_remove(data: &mut HistoryStore, config: &Config, e: &Entry)
    ensures
        final(data)@ == old(data)@.remove(norm_key_spec(e.path@, config.media_dir@)),
{
    let key = normalize_key(e.path.as_str(), config.media_dir.as_str());
    data.remove(&key);
}

} // verus!
