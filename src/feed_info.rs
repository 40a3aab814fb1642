//! Free key/value metadata of a feed.

use vstd::prelude::*;

verus! {

/// The keys of a sequence of pairs, in order.
pub open spec fn keys_of(s: Seq<(String, String)>) -> Seq<Seq<char>> {
    s.map_values(|p: (String, String)| p.0@)
}

/// The map given by a sequence of pairs with distinct keys.
pub open spec fn map_of(s: Seq<(String, String)>) -> Map<Seq<char>, Seq<char>> {
    Map::new(
        |k: Seq<char>| keys_of(s).contains(k),
        |k: Seq<char>| s[keys_of(s).index_of(k)].1@,
    )
}

/// A map from keys to values, both strings; a key holds one value.
pub struct FeedInfos {
    entries: Vec<(String, String)>,
}

impl View for FeedInfos {
    type V = Map<Seq<char>, Seq<char>>;

    closed spec fn view(&self) -> Map<Seq<char>, Seq<char>> {
        map_of(self.entries@)
    }
}

impl FeedInfos {
    #[verifier::type_invariant]
    closed spec fn inv(&self) -> bool {
        keys_of(self.entries@).no_duplicates()
    }

    /// The empty map.
    pub fn new() -> (r: Self)
        ensures
            r@ == Map::<Seq<char>, Seq<char>>::empty(),
    {
        let r = FeedInfos { entries: Vec::new() };
        proof {
            assert(keys_of(r.entries@) =~= Seq::<Seq<char>>::empty());
            assert(r@ =~= Map::<Seq<char>, Seq<char>>::empty());
        }
        r
    }

    /// Position of `key` among the entries.
    fn find(&self, key: &String) -> (r: Option<usize>)
        ensures
            r matches Some(i) ==> i < self.entries@.len() && self.entries@[i as int].0@ == key@,
            r is None ==> !keys_of(self.entries@).contains(key@),
    {
        let mut i: usize = 0;
        while i < self.entries.len()
            invariant
                i <= self.entries@.len(),
                forall|k: int| 0 <= k < i ==> self.entries@[k].0@ != key@,
            decreases self.entries@.len() - i,
        {
            if self.entries[i].0.eq(key) {
                return Some(i);
            }
            i = i + 1;
        }
        proof {
            if keys_of(self.entries@).contains(key@) {
                let k = choose|k: int| 0 <= k < keys_of(self.entries@).len() && keys_of(self.entries@)[k] == key@;
                assert(self.entries@[k].0@ == key@);
            }
        }
        None
    }

    /// The value of `key`, if any.
    pub fn get(&self, key: &str) -> (r: Option<&String>)
        ensures
            r.is_some() == self@.contains_key(key@),
            r matches Some(v) ==> v@ == self@[key@],
    {
        proof {
            use_type_invariant(self);
        }
        let k = key.to_owned();
        match self.find(&k) {
            Some(i) => {
                proof {
                    assert(keys_of(self.entries@)[i as int] == key@);
                }
                Some(&self.entries[i].1)
            },
            None => None,
        }
    }

    /// Sets `key` to `value`, replacing any value it had.
    pub fn insert(&mut self, key: String, value: String)
        ensures
            final(self)@ == old(self)@.insert(key@, value@),
    {
        proof {
            use_type_invariant(&*self);
        }
        let ghost ks = keys_of(self.entries@);
        let found = self.find(&key);
        let mut entries: Vec<(String, String)> = Vec::new();
        std::mem::swap(&mut entries, &mut self.entries);
        let ghost before = entries@;
        match found {
            Some(i) => {
                entries.set(i, (key, value));
                proof {
                    assert(keys_of(entries@) =~= keys_of(before));
                    assert(keys_of(before)[i as int] == key@);
                    assert(old(self)@.contains_key(key@));
                    assert forall|k: Seq<char>| keys_of(entries@).contains(k) implies
                        entries@[keys_of(entries@).index_of(k)].1@ == old(self)@.insert(key@, value@)[k] by {
                        let j = keys_of(entries@).index_of(k);
                        if k == key@ {
                            assert(keys_of(entries@)[i as int] == k);
                        } else {
                            assert(j != i);
                        }
                    }
                    assert(map_of(entries@) =~= old(self)@.insert(key@, value@));
                }
            },
            None => {
                entries.push((key, value));
                proof {
                    assert(keys_of(entries@) =~= keys_of(before).push(key@));
                    let n = before.len() as int;
                    assert forall|k: Seq<char>| keys_of(entries@).contains(k) implies
                        entries@[keys_of(entries@).index_of(k)].1@ == old(self)@.insert(key@, value@)[k] by {
                        let j = keys_of(entries@).index_of(k);
                        if k == key@ {
                            assert(keys_of(entries@)[n] == k);
                        } else {
                            assert(j != n);
                            assert(keys_of(before)[j] == k);
                        }
                    }
                    assert forall|k: Seq<char>| keys_of(entries@).contains(k) <==> #[trigger] old(self)@.insert(key@, value@).contains_key(k) by {
                        if k != key@ && keys_of(entries@).contains(k) {
                            let j = choose|j: int| 0 <= j < keys_of(entries@).len() && keys_of(entries@)[j] == k;
                            assert(j != n);
                            assert(keys_of(before)[j] == k);
                        }
                        if k != key@ && keys_of(before).contains(k) {
                            let j = choose|j: int| 0 <= j < keys_of(before).len() && keys_of(before)[j] == k;
                            assert(keys_of(entries@)[j] == k);
                        }
                        if k == key@ {
                            assert(keys_of(entries@)[n] == k);
                        }
                    }
                    assert(map_of(entries@) =~= old(self)@.insert(key@, value@));
                }
            },
        }
        self.entries = entries;
    }

    /// Number of keys.
    pub fn len(&self) -> (r: usize)
        ensures
            r == self@.len(),
    {
        proof {
            use_type_invariant(self);
            assert(self@.dom() =~= keys_of(self.entries@).to_set());
            keys_of(self.entries@).unique_seq_to_set();
        }
        self.entries.len()
    }

    /// Sets every key of `other` to its value there, replacing values of
    /// keys present in both.
    pub fn extend(&mut self, other: &FeedInfos)
        ensures
            final(self)@ == old(self)@.union_prefer_right(other@),
    {
        proof {
            use_type_invariant(other);
        }
        let ghost oe = other.entries@;
        let mut i: usize = 0;
        while i < other.entries.len()
            invariant
                i <= oe.len(),
                oe == other.entries@,
                keys_of(oe).no_duplicates(),
                self@ == old(self)@.union_prefer_right(other@.restrict(keys_of(oe.take(i as int)).to_set())),
            decreases oe.len() - i,
        {
            let key = other.entries[i].0.clone();
            let value = other.entries[i].1.clone();
            let ghost prev = self@;
            self.insert(key, value);
            proof {
                let ks = keys_of(oe);
                assert(ks[i as int] == oe[i as int].0@);
                assert(ks.index_of(oe[i as int].0@) == i as int);
                assert(keys_of(oe.take(i + 1)) =~= keys_of(oe.take(i as int)).push(oe[i as int].0@));
                keys_of(oe.take(i as int)).lemma_push_to_set_commute(oe[i as int].0@);
                assert(self@ =~= old(self)@.union_prefer_right(other@.restrict(keys_of(oe.take(i + 1)).to_set())));
            }
            i = i + 1;
        }
        proof {
            assert(oe.take(i as int) =~= oe);
            assert(other@.restrict(keys_of(oe).to_set()) =~= other@);
        }
    }

    /// The entries, each key once.
    pub fn to_vec(&self) -> (r: Vec<(String, String)>)
        ensures
            r@.len() == self@.len(),
            forall|j: int| 0 <= j < r@.len() ==> self@.contains_key(#[trigger] r@[j].0@)
                && self@[r@[j].0@] == r@[j].1@,
    {
        proof {
            use_type_invariant(self);
            assert(self@.dom() =~= keys_of(self.entries@).to_set());
            keys_of(self.entries@).unique_seq_to_set();
        }
        let mut r: Vec<(String, String)> = Vec::new();
        let mut i: usize = 0;
        while i < self.entries.len()
            invariant
                i <= self.entries@.len(),
                r@.len() == i,
                keys_of(self.entries@).no_duplicates(),
                forall|j: int| 0 <= j < i ==> (#[trigger] r@[j]).0@ == self.entries@[j].0@
                    && r@[j].1@ == self.entries@[j].1@,
            decreases self.entries@.len() - i,
        {
            r.push((self.entries[i].0.clone(), self.entries[i].1.clone()));
            i = i + 1;
        }
        proof {
            assert forall|j: int| 0 <= j < r@.len() implies self@.contains_key(#[trigger] r@[j].0@)
                && self@[r@[j].0@] == r@[j].1@ by {
                assert(keys_of(self.entries@)[j] == r@[j].0@);
            }
        }
        r
    }
}

} // verus!
