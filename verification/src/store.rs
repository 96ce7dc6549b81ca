//! A map keyed by document URI, held as two parallel vectors.
use vstd::prelude::*;
use vstd::string::*;
use crate::text::str_eq;

verus! {

/// Values of type `V` by URI (compared character by character).
pub struct UriMap<V> {
    keys: Vec<String>,
    values: Vec<V>,
}

impl<V> UriMap<V> {
    /// The keys, as character sequences, in the order they are held.
    pub closed spec fn key_seq(&self) -> Seq<Seq<char>> {
        self.keys@.map_values(|k: String| k@)
    }

    /// One value per key, and no key twice.
    pub closed spec fn wf(&self) -> bool {
        &&& self.keys@.len() == self.values@.len()
        &&& self.key_seq().no_duplicates()
    }

    /// The map from each key to its value.
    pub closed spec fn view(&self) -> Map<Seq<char>, V> {
        Map::new(
            |k: Seq<char>| self.key_seq().contains(k),
            |k: Seq<char>| self.values@[self.key_seq().index_of(k)],
        )
    }

    proof fn lemma_at(&self, i: int)
        requires
            self.wf(),
            0 <= i < self.keys@.len(),
        ensures
            self.view().dom().contains(self.key_seq()[i]),
            self.view()[self.key_seq()[i]] == self.values@[i],
    {
        let ks = self.key_seq();
        assert(ks.contains(ks[i]));
        let j = ks.index_of(ks[i]);
        assert(0 <= j < ks.len() && ks[j] == ks[i]);
    }

    /// An empty map.
    pub fn new() -> (r: Self)
        ensures
            r.wf(),
            r.view() == Map::<Seq<char>, V>::empty(),
    {
        let r = UriMap { keys: Vec::new(), values: Vec::new() };
        assert(r.view() =~= Map::<Seq<char>, V>::empty());
        r
    }

    /// Where `key` is held, if it is.
    fn find(&self, key: &str) -> (r: Option<usize>)
        requires
            self.wf(),
        ensures
            match r {
                Some(i) => i < self.keys@.len() && self.key_seq()[i as int] == key@,
                None => !self.key_seq().contains(key@),
            },
    {
        let n = self.keys.len();
        for i in 0..n
            invariant
                n == self.keys@.len(),
                forall|j: int| 0 <= j < i ==> self.key_seq()[j] != key@,
        {
            if str_eq(self.keys[i].as_str(), key) {
                return Some(i);
            }
        }
        None
    }

    /// Whether `key` has a value.
    pub fn contains(&self, key: &str) -> (r: bool)
        requires
            self.wf(),
        ensures
            r == self.view().dom().contains(key@),
    {
        self.find(key).is_some()
    }

    /// The value of `key`, if it has one.
    pub fn get(&self, key: &str) -> (r: Option<&V>)
        requires
            self.wf(),
        ensures
            match r {
                Some(v) => self.view().dom().contains(key@) && *v == self.view()[key@],
                None => !self.view().dom().contains(key@),
            },
    {
        match self.find(key) {
            Some(i) => {
                proof {
                    self.lemma_at(i as int);
                }
                Some(&self.values[i])
            },
            None => None,
        }
    }

    /// Gives `key` the value `value`, in place of the one it had.
    pub fn insert(&mut self, key: &str, value: V)
        requires
            old(self).wf(),
        ensures
            final(self).wf(),
            final(self).view() == old(self).view().insert(key@, value),
    {
        let ghost before = self.view();
        let ghost old_keys = self.key_seq();
        match self.find(key) {
            Some(i) => {
                self.values.set(i, value);
                proof {
                    assert(self.key_seq() =~= old_keys);
                    assert forall|k: Seq<char>| #[trigger]
                        self.view().dom().contains(k) implies self.view()[k] == before.insert(
                        key@,
                        value,
                    )[k] by {
                        let j = old_keys.index_of(k);
                        assert(0 <= j < old_keys.len() && old_keys[j] == k);
                        if k != key@ {
                            assert(j != i);
                        }
                    }
                    assert(self.view() =~= before.insert(key@, value));
                }
            },
            None => {
                let ghost n = self.keys@.len() as int;
                self.keys.push(String::from_str(key));
                self.values.push(value);
                proof {
                    let ks = self.key_seq();
                    assert(ks =~= old_keys.push(key@));
                    assert(ks[n] == key@);
                    assert forall|a: int, b: int|
                        0 <= a < ks.len() && 0 <= b < ks.len() && a != b implies ks[a]
                        != ks[b] by {
                        if a < n && b < n {
                            assert(ks[a] == old_keys[a]);
                            assert(ks[b] == old_keys[b]);
                        } else if a == n {
                            assert(ks[b] == old_keys[b]);
                            assert(old_keys.contains(ks[b]));
                        } else {
                            assert(ks[a] == old_keys[a]);
                            assert(old_keys.contains(ks[a]));
                        }
                    }
                    assert forall|k: Seq<char>|
                        #![trigger self.view().dom().contains(k)]
                        #![trigger before.insert(key@, value).dom().contains(k)]
                        self.view().dom().contains(k) == before.insert(
                            key@,
                            value,
                        ).dom().contains(k) by {
                        if ks.contains(k) {
                            let j = ks.index_of(k);
                            if j < n {
                                assert(old_keys[j] == k);
                                assert(old_keys.contains(k));
                            }
                        }
                        if old_keys.contains(k) {
                            let j = old_keys.index_of(k);
                            assert(ks[j] == k);
                        }
                    }
                    assert forall|k: Seq<char>| #[trigger]
                        self.view().dom().contains(k) implies self.view()[k] == before.insert(
                        key@,
                        value,
                    )[k] by {
                        let j = ks.index_of(k);
                        assert(0 <= j < ks.len() && ks[j] == k);
                        if k == key@ {
                            assert(j == n);
                        } else {
                            assert(j < n);
                            assert(old_keys[j] == k);
                            assert(old_keys.contains(k));
                            let j2 = old_keys.index_of(k);
                            assert(old_keys[j2] == k);
                            assert(j2 == j);
                        }
                    }
                    assert(self.view() =~= before.insert(key@, value));
                }
            },
        }
    }

    /// Takes `key` and its value out of the map.
    pub fn remove(&mut self, key: &str)
        requires
            old(self).wf(),
        ensures
            final(self).wf(),
            final(self).view() == old(self).view().remove(key@),
    {
        let ghost before = self.view();
        let ghost old_keys = self.key_seq();
        let ghost old_values = self.values@;
        match self.find(key) {
            Some(i) => {
                self.keys.remove(i);
                self.values.remove(i);
                proof {
                    let ks = self.key_seq();
                    assert(ks =~= old_keys.remove(i as int));
                    assert forall|a: int, b: int|
                        0 <= a < ks.len() && 0 <= b < ks.len() && a != b implies ks[a]
                        != ks[b] by {
                        let oa = if a < i {
                            a
                        } else {
                            a + 1
                        };
                        let ob = if b < i {
                            b
                        } else {
                            b + 1
                        };
                        assert(ks[a] == old_keys[oa]);
                        assert(ks[b] == old_keys[ob]);
                    }
                    assert forall|k: Seq<char>|
                        #![trigger self.view().dom().contains(k)]
                        #![trigger before.remove(key@).dom().contains(k)]
                        self.view().dom().contains(k) == before.remove(key@).dom().contains(
                            k,
                        ) by {
                        if ks.contains(k) {
                            let j = ks.index_of(k);
                            let oj = if j < i {
                                j
                            } else {
                                j + 1
                            };
                            assert(old_keys[oj] == k);
                            assert(old_keys.contains(k));
                            assert(oj != i);
                        }
                        if old_keys.contains(k) && k != key@ {
                            let j = old_keys.index_of(k);
                            assert(j != i);
                            let nj = if j < i {
                                j
                            } else {
                                j - 1
                            };
                            assert(ks[nj] == k);
                        }
                    }
                    assert forall|k: Seq<char>| #[trigger]
                        self.view().dom().contains(k) implies self.view()[k] == before.remove(
                        key@,
                    )[k] by {
                        let j = ks.index_of(k);
                        assert(0 <= j < ks.len() && ks[j] == k);
                        let oj = if j < i {
                            j
                        } else {
                            j + 1
                        };
                        assert(old_keys[oj] == k);
                        assert(old_keys.contains(k));
                        let j2 = old_keys.index_of(k);
                        assert(old_keys[j2] == k);
                        assert(j2 == oj);
                        assert(self.values@[j] == old_values[oj]);
                    }
                    assert(self.view() =~= before.remove(key@));
                }
            },
            None => {
                assert(self.view() =~= before.remove(key@));
            },
        }
    }
}

} // verus!
