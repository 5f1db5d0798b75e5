//! Named entries kept as a list of `(key, value)` pairs with distinct keys,
//! seen as a map from key to value.
use vstd::prelude::*;

verus! {

/// The map that a list of pairs denotes; where a key occurs more than once,
/// its last value counts.
pub open spec fn pairs_map<V: View>(s: Seq<(String, V)>) -> Map<Seq<char>, V::V>
    decreases s.len(),
{
    if s.len() == 0 {
        Map::empty()
    } else {
        pairs_map(s.drop_last()).insert(s.last().0@, s.last().1@)
    }
}

/// No key occurs twice in the list.
pub open spec fn keys_distinct<V>(s: Seq<(String, V)>) -> bool {
    forall|i: int, j: int| 0 <= i < s.len() && 0 <= j < s.len() && i != j ==> s[i].0@ != s[j].0@
}

/// The keys of the list, in order.
pub open spec fn pair_keys<V>(s: Seq<(String, V)>) -> Seq<Seq<char>> {
    Seq::new(s.len(), |i: int| s[i].0@)
}

/// A key is in the map exactly when some pair carries it.
pub proof fn lemma_pairs_map_dom<V: View>(s: Seq<(String, V)>, k: Seq<char>)
    ensures
        pairs_map(s).dom().contains(k) <==> exists|i: int| 0 <= i < s.len() && s[i].0@ == k,
    decreases s.len(),
{
    if s.len() > 0 {
        lemma_pairs_map_dom(s.drop_last(), k);
        if pairs_map(s.drop_last()).dom().contains(k) {
            let i = choose|i: int| 0 <= i < s.drop_last().len() && s.drop_last()[i].0@ == k;
            assert(s[i].0@ == k);
        }
        if exists|i: int| 0 <= i < s.len() && s[i].0@ == k {
            let i = choose|i: int| 0 <= i < s.len() && s[i].0@ == k;
            if i < s.len() - 1 {
                assert(s.drop_last()[i].0@ == k);
            }
        }
    }
}

/// The value the map gives a key is that of the last pair carrying it.
pub proof fn lemma_pairs_map_value<V: View>(s: Seq<(String, V)>, i: int)
    requires
        0 <= i < s.len(),
        forall|j: int| i < j < s.len() ==> s[j].0@ != s[i].0@,
    ensures
        pairs_map(s).dom().contains(s[i].0@),
        pairs_map(s)[s[i].0@] == s[i].1@,
    decreases s.len(),
{
    if i < s.len() - 1 {
        let t = s.drop_last();
        assert forall|j: int| i < j < t.len() implies t[j].0@ != t[i].0@ by {
            assert(t[j] == s[j]);
        }
        lemma_pairs_map_value(t, i);
        assert(t[i] == s[i]);
    }
}

/// The map of a list with distinct keys, pair by pair.
pub proof fn lemma_distinct_pairs_map<V: View>(s: Seq<(String, V)>)
    requires
        keys_distinct(s),
    ensures
        forall|i: int| 0 <= i < s.len() ==> #[trigger] pairs_map(s).dom().contains(s[i].0@) && pairs_map(s)[s[i].0@] == s[i].1@,
        forall|k: Seq<char>| pairs_map(s).dom().contains(k) <==> exists|i: int| 0 <= i < s.len() && s[i].0@ == k,
{
    assert forall|i: int| 0 <= i < s.len() implies #[trigger] pairs_map(s).dom().contains(s[i].0@) && pairs_map(s)[s[i].0@] == s[i].1@ by {
        lemma_pairs_map_value(s, i);
    }
    assert forall|k: Seq<char>| pairs_map(s).dom().contains(k) <==> exists|i: int| 0 <= i < s.len() && s[i].0@ == k by {
        lemma_pairs_map_dom(s, k);
    }
}

/// The map of a list is finite.
pub proof fn lemma_pairs_map_finite<V: View>(s: Seq<(String, V)>)
    ensures
        pairs_map(s).dom().finite(),
    decreases s.len(),
{
    if s.len() > 0 {
        lemma_pairs_map_finite(s.drop_last());
    }
}

/// Pairs of string keys and byte-string values, no key twice.
#[derive(Clone, Debug)]
pub struct Entries {
    items: Vec<(String, Vec<u8>)>,
}

impl View for Entries {
    type V = Map<Seq<char>, Seq<u8>>;

    closed spec fn view(&self) -> Map<Seq<char>, Seq<u8>> {
        pairs_map(self.items@)
    }
}

impl Entries {
    /// The list holds no key twice.
    pub closed spec fn wf(&self) -> bool {
        keys_distinct(self.items@)
    }

    /// The list in its stored order.
    pub closed spec fn pairs(&self) -> Seq<(String, Vec<u8>)> {
        self.items@
    }

    /// The stored pairs denote the map, with no key twice.
    pub proof fn lemma_pairs(&self)
        requires
            self.wf(),
        ensures
            keys_distinct(self.pairs()),
            pairs_map(self.pairs()) == self@,
            self@.dom().finite(),
            forall|i: int| 0 <= i < self.pairs().len() ==> #[trigger] self@.dom().contains(self.pairs()[i].0@) && self@[self.pairs()[i].0@] == self.pairs()[i].1@,
            forall|k: Seq<char>| self@.dom().contains(k) <==> exists|i: int| 0 <= i < self.pairs().len() && self.pairs()[i].0@ == k,
    {
        lemma_distinct_pairs_map(self.items@);
        lemma_pairs_map_finite(self.items@);
    }

    pub fn new() -> (r: Self)
        ensures
            r.wf(),
            r@ == Map::<Seq<char>, Seq<u8>>::empty(),
            r.pairs().len() == 0,
    {
        Entries { items: Vec::new() }
    }

    /// The entries of a list of pairs; where a key occurs twice, its last
    /// value counts.
    pub fn from_pairs(data: &Vec<(String, Vec<u8>)>) -> (r: Self)
        ensures
            r.wf(),
            r@ == pairs_map(data@),
    {
        let mut entries = Entries::new();
        let mut i: usize = 0;
        while i < data.len()
            invariant
                i <= data@.len(),
                entries.wf(),
                entries@ == pairs_map(data@.subrange(0, i as int)),
            decreases data@.len() - i,
        {
            let key = data[i].0.clone();
            let value = vstd::slice::slice_to_vec(data[i].1.as_slice());
            entries.insert(key, value);
            i = i + 1;
            assert(data@.subrange(0, i as int).drop_last() =~= data@.subrange(0, i - 1));
        }
        assert(data@.subrange(0, data@.len() as int) =~= data@);
        entries
    }

    /// Number of entries.
    pub fn len(&self) -> (n: usize)
        requires
            self.wf(),
        ensures
            n == self.pairs().len(),
            n == self@.dom().len(),
    {
        proof {
            self.lemma_pairs();
            lemma_distinct_len(self.items@);
        }
        self.items.len()
    }

    /// The position of the pair carrying `key`.
    pub fn find(&self, key: &str) -> (r: Option<usize>)
        requires
            self.wf(),
        ensures
            match r {
                Some(i) => i < self.pairs().len() && self.pairs()[i as int].0@ == key@,
                None => !self@.dom().contains(key@),
            },
    {
        proof { self.lemma_pairs(); }
        let k = key.to_owned();
        let mut i: usize = 0;
        while i < self.items.len()
            invariant
                i <= self.items@.len(),
                k@ == key@,
                forall|j: int| 0 <= j < i ==> self.items@[j].0@ != key@,
            decreases self.items@.len() - i,
        {
            if self.items[i].0 == k {
                return Some(i);
            }
            i = i + 1;
        }
        None
    }

    /// Whether an entry is stored under `key`.
    pub fn contains(&self, key: &str) -> (r: bool)
        requires
            self.wf(),
        ensures
            r == self@.dom().contains(key@),
    {
        proof { self.lemma_pairs(); }
        self.find(key).is_some()
    }

    /// The value stored under `key`.
    pub fn get(&self, key: &str) -> (r: Option<&Vec<u8>>)
        requires
            self.wf(),
        ensures
            match r {
                Some(v) => self@.dom().contains(key@) && v@ == self@[key@],
                None => !self@.dom().contains(key@),
            },
    {
        proof { self.lemma_pairs(); }
        match self.find(key) {
            Some(i) => {
                assert(self@.dom().contains(self.pairs()[i as int].0@));
                Some(&self.items[i].1)
            },
            None => None,
        }
    }

    /// The pair at position `i`.
    pub fn at(&self, i: usize) -> (r: &(String, Vec<u8>))
        requires
            i < self.pairs().len(),
        ensures
            *r == self.pairs()[i as int],
    {
        &self.items[i]
    }

    /// Stores `data` under `key`, replacing what was there.
    pub fn insert(&mut self, key: String, data: Vec<u8>)
        requires
            old(self).wf(),
        ensures
            final(self).wf(),
            final(self)@ == old(self)@.insert(key@, data@),
    {
        proof { self.lemma_pairs(); }
        let ghost old_items = self.items@;
        match self.find(key.as_str()) {
            Some(i) => {
                self.items.set(i, (key, data));
                proof {
                    let s = self.items@;
                    assert(keys_distinct(s)) by {
                        assert forall|a: int, b: int| 0 <= a < s.len() && 0 <= b < s.len() && a != b implies s[a].0@ != s[b].0@ by {
                            if a != i && b != i {
                                assert(s[a] == old_items[a] && s[b] == old_items[b]);
                            } else if a == i {
                                assert(s[b] == old_items[b]);
                            } else {
                                assert(s[a] == old_items[a]);
                            }
                        }
                    }
                    lemma_distinct_pairs_map(s);
                    lemma_distinct_pairs_map(old_items);
                    assert(pairs_map(s) =~= pairs_map(old_items).insert(key@, data@)) by {
                        assert forall|k: Seq<char>| pairs_map(s).dom().contains(k) <==> pairs_map(old_items).insert(key@, data@).dom().contains(k) by {
                            if exists|j: int| 0 <= j < s.len() && s[j].0@ == k {
                                let j = choose|j: int| 0 <= j < s.len() && s[j].0@ == k;
                                if j != i {
                                    assert(old_items[j] == s[j]);
                                }
                            }
                            if exists|j: int| 0 <= j < old_items.len() && old_items[j].0@ == k {
                                let j = choose|j: int| 0 <= j < old_items.len() && old_items[j].0@ == k;
                                if j != i {
                                    assert(old_items[j] == s[j]);
                                } else {
                                    assert(s[i as int].0@ == k);
                                }
                            }
                        }
                        assert forall|k: Seq<char>| pairs_map(s).dom().contains(k) implies pairs_map(s)[k] == pairs_map(old_items).insert(key@, data@)[k] by {
                            let j = choose|j: int| 0 <= j < s.len() && s[j].0@ == k;
                            assert(pairs_map(s)[s[j].0@] == s[j].1@);
                            if j != i {
                                assert(old_items[j] == s[j]);
                                assert(pairs_map(old_items)[old_items[j].0@] == old_items[j].1@);
                            }
                        }
                    }
                }
            },
            None => {
                self.items.push((key, data));
                proof {
                    let s = self.items@;
                    assert(s.drop_last() =~= old_items);
                    assert(keys_distinct(s)) by {
                        assert forall|a: int, b: int| 0 <= a < s.len() && 0 <= b < s.len() && a != b implies s[a].0@ != s[b].0@ by {
                            if a < old_items.len() && b < old_items.len() {
                                assert(s[a] == old_items[a] && s[b] == old_items[b]);
                            } else if a < old_items.len() {
                                assert(s[a] == old_items[a]);
                                assert(old_items[a].0@ != key@);
                            } else {
                                assert(s[b] == old_items[b]);
                                assert(old_items[b].0@ != key@);
                            }
                        }
                    }
                }
            },
        }
    }

    /// Removes the entry under `key`; says whether there was one.
    pub fn remove(&mut self, key: &str) -> (r: bool)
        requires
            old(self).wf(),
        ensures
            final(self).wf(),
            r == old(self)@.dom().contains(key@),
            final(self)@ == old(self)@.remove(key@),
    {
        proof { self.lemma_pairs(); }
        let ghost old_items = self.items@;
        match self.find(key) {
            Some(i) => {
                self.items.remove(i);
                proof {
                    let s = self.items@;
                    assert forall|j: int| 0 <= j < s.len() implies #[trigger] s[j] == old_items[if j < i { j } else { j + 1 }] by {}
                    assert(keys_distinct(s)) by {
                        assert forall|a: int, b: int| 0 <= a < s.len() && 0 <= b < s.len() && a != b implies s[a].0@ != s[b].0@ by {
                            assert(s[a] == old_items[if a < i { a } else { a + 1 }]);
                            assert(s[b] == old_items[if b < i { b } else { b + 1 }]);
                        }
                    }
                    lemma_distinct_pairs_map(s);
                    lemma_distinct_pairs_map(old_items);
                    assert(pairs_map(s) =~= pairs_map(old_items).remove(key@)) by {
                        assert forall|k: Seq<char>| pairs_map(s).dom().contains(k) <==> pairs_map(old_items).remove(key@).dom().contains(k) by {
                            if exists|j: int| 0 <= j < s.len() && s[j].0@ == k {
                                let j = choose|j: int| 0 <= j < s.len() && s[j].0@ == k;
                                let oj = if j < i { j } else { j + 1 };
                                assert(s[j] == old_items[oj]);
                                assert(old_items[oj].0@ != old_items[i as int].0@);
                            }
                            if exists|j: int| 0 <= j < old_items.len() && old_items[j].0@ == k && k != key@ {
                                let j = choose|j: int| 0 <= j < old_items.len() && old_items[j].0@ == k && k != key@;
                                if j < i {
                                    assert(s[j] == old_items[j]);
                                } else {
                                    assert(j != i);
                                    assert(s[j - 1] == old_items[j]);
                                }
                            }
                        }
                        assert forall|k: Seq<char>| pairs_map(s).dom().contains(k) implies pairs_map(s)[k] == pairs_map(old_items).remove(key@)[k] by {
                            let j = choose|j: int| 0 <= j < s.len() && s[j].0@ == k;
                            let oj = if j < i { j } else { j + 1 };
                            assert(s[j] == old_items[oj]);
                            assert(pairs_map(s)[s[j].0@] == s[j].1@);
                            assert(pairs_map(old_items)[old_items[oj].0@] == old_items[oj].1@);
                        }
                    }
                }
                true
            },
            None => {
                assert(self@ =~= old(self)@.remove(key@));
                false
            },
        }
    }

    /// Removes every entry.
    pub fn clear(&mut self)
        ensures
            final(self).wf(),
            final(self)@ == Map::<Seq<char>, Seq<u8>>::empty(),
    {
        self.items = Vec::new();
    }

    /// Whether both lists denote the same map.
    pub fn same_map(&self, other: &Entries) -> (r: bool)
        requires
            self.wf(),
            other.wf(),
        ensures
            r == (self@ == other@),
    {
        proof {
            self.lemma_pairs();
            other.lemma_pairs();
        }
        if self.len() != other.len() {
            return false;
        }
        let n = self.items.len();
        let mut i: usize = 0;
        while i < n
            invariant
                n == self.items@.len(),
                i <= n,
                self.wf(),
                other.wf(),
                forall|j: int| #![trigger self.items@[j]] 0 <= j < i ==> other@.dom().contains(self.items@[j].0@) && other@[self.items@[j].0@] == self.items@[j].1@,
            decreases n - i,
        {
            match other.get(self.items[i].0.as_str()) {
                Some(d) => {
                    if !crate::bytes::bytes_eq(d.as_slice(), self.items[i].1.as_slice()) {
                        proof {
                            self.lemma_pairs();
                            assert(self@.dom().contains(self.items@[i as int].0@));
                        }
                        return false;
                    }
                    assert(other@.dom().contains(self.items@[i as int].0@) && other@[self.items@[i as int].0@] == self.items@[i as int].1@);
                },
                None => {
                    proof {
                        self.lemma_pairs();
                        assert(self@.dom().contains(self.items@[i as int].0@));
                    }
                    return false;
                },
            }
            i = i + 1;
        }
        proof {
            self.lemma_pairs();
            other.lemma_pairs();
            assert(self@.dom().subset_of(other@.dom())) by {
                assert forall|k: Seq<char>| self@.dom().contains(k) implies other@.dom().contains(k) by {
                    let j = choose|j: int| 0 <= j < self.items@.len() && self.items@[j].0@ == k;
                    assert(other@.dom().contains(self.items@[j].0@));
                }
            }
            vstd::set_lib::lemma_subset_equality(self@.dom(), other@.dom());
            assert(self@ =~= other@) by {
                assert forall|k: Seq<char>| self@.dom().contains(k) implies self@[k] == other@[k] by {
                    let j = choose|j: int| 0 <= j < self.items@.len() && self.items@[j].0@ == k;
                    assert(other@.dom().contains(self.items@[j].0@));
                }
            }
        }
        true
    }

    /// The keys, in stored order.
    pub fn keys(&self) -> (r: Vec<String>)
        requires
            self.wf(),
        ensures
            r@.len() == self.pairs().len(),
            forall|i: int| 0 <= i < r@.len() ==> #[trigger] r@[i]@ == self.pairs()[i].0@,
    {
        let mut r: Vec<String> = Vec::new();
        let mut i: usize = 0;
        while i < self.items.len()
            invariant
                i <= self.items@.len(),
                r@.len() == i,
                forall|j: int| 0 <= j < i ==> #[trigger] r@[j]@ == self.items@[j].0@,
            decreases self.items@.len() - i,
        {
            r.push(self.items[i].0.clone());
            i = i + 1;
        }
        r
    }
}

/// A list of distinct keys has as many pairs as its map has keys.
pub proof fn lemma_distinct_len<V: View>(s: Seq<(String, V)>)
    requires
        keys_distinct(s),
    ensures
        pairs_map(s).dom().len() == s.len(),
    decreases s.len(),
{
    if s.len() > 0 {
        let t = s.drop_last();
        assert(keys_distinct(t)) by {
            assert forall|a: int, b: int| 0 <= a < t.len() && 0 <= b < t.len() && a != b implies t[a].0@ != t[b].0@ by {
                assert(t[a] == s[a] && t[b] == s[b]);
            }
        }
        lemma_distinct_len(t);
        lemma_pairs_map_finite(t);
        lemma_pairs_map_dom(t, s.last().0@);
        if pairs_map(t).dom().contains(s.last().0@) {
            let i = choose|i: int| 0 <= i < t.len() && t[i].0@ == s.last().0@;
            assert(s[i] == t[i]);
        }
    }
}

} // verus!
