//! A map with string keys that remembers the order in which keys were first
//! inserted.
//!
//! Keys and values live in two parallel vectors. Keys are unique; inserting
//! a key that is already present replaces its value and leaves it where it
//! was.

use vstd::prelude::*;

verus! {

/// Do the sequences in `s` differ pairwise?
pub open spec fn distinct_keys(s: Seq<Seq<char>>) -> bool {
    forall|i: int, j: int| 0 <= i < s.len() && 0 <= j < s.len() && i != j ==> s[i] != s[j]
}

/// An insertion-ordered map.
pub struct OrderedMap<K, V> {
    keys: Vec<K>,
    values: Vec<V>,
}

impl<V> OrderedMap<String, V> {
    /// The keys, in order.
    pub closed spec fn key_seq(&self) -> Seq<Seq<char>> {
        self.keys@.map_values(|k: String| k@)
    }

    /// The values, in the order of their keys.
    pub closed spec fn value_seq(&self) -> Seq<V> {
        self.values@
    }

    /// One value per key, and no key twice.
    pub closed spec fn wf(&self) -> bool {
        &&& self.keys@.len() == self.values@.len()
        &&& distinct_keys(self.key_seq())
    }

    /// The invariant: one value per key, and no key twice.
    pub proof fn lemma_wf(&self)
        ensures
            self.wf() <==> (self.value_seq().len() == self.key_seq().len() && distinct_keys(
                self.key_seq(),
            )),
    {
    }

    /// Where `k` stands among the keys, if it is there.
    fn position(&self, k: &String) -> (r: Option<usize>)
        requires
            self.wf(),
        ensures
            match r {
                Some(i) => i < self.key_seq().len() && self.key_seq()[i as int] == k@,
                None => !self.key_seq().contains(k@),
            },
    {
        let mut i: usize = 0;
        while i < self.keys.len()
            invariant
                self.wf(),
                i <= self.keys@.len(),
                forall|j: int| 0 <= j < i ==> self.key_seq()[j] != k@,
            decreases self.keys@.len() - i,
        {
            if self.keys[i] == *k {
                return Some(i);
            }
            i = i + 1;
        }
        None
    }

    /// Create an empty map.
    pub fn new() -> (r: Self)
        ensures
            r.wf(),
            r.key_seq() == Seq::<Seq<char>>::empty(),
            r.value_seq() == Seq::<V>::empty(),
    {
        let r = OrderedMap { keys: Vec::new(), values: Vec::new() };
        assert(r.key_seq() =~= Seq::<Seq<char>>::empty());
        r
    }

    /// Insert a key/value pair. A new key goes last; a key already present
    /// keeps its place and takes the new value.
    pub fn insert(&mut self, key: String, val: V)
        requires
            old(self).wf(),
        ensures
            final(self).wf(),
            old(self).key_seq().contains(key@) ==> {
                &&& final(self).key_seq() == old(self).key_seq()
                &&& final(self).value_seq().len() == old(self).value_seq().len()
                &&& forall|i: int|
                    0 <= i < old(self).key_seq().len() ==> #[trigger] final(self).value_seq()[i]
                        == if old(self).key_seq()[i] == key@ {
                        val
                    } else {
                        old(self).value_seq()[i]
                    }
            },
            !old(self).key_seq().contains(key@) ==> {
                &&& final(self).key_seq() == old(self).key_seq().push(key@)
                &&& final(self).value_seq() == old(self).value_seq().push(val)
            },
    {
        match self.position(&key) {
            Some(i) => {
                self.values.set(i, val);
                assert(self.key_seq() == old(self).key_seq());
                assert forall|j: int| 0 <= j < old(self).key_seq().len() implies #[trigger] self.value_seq()[j]
                    == if old(self).key_seq()[j] == key@ {
                    val
                } else {
                    old(self).value_seq()[j]
                } by {
                    if j != i {
                        assert(old(self).key_seq()[j] != key@);
                    }
                }
            },
            None => {
                let ghost old_keys = self.key_seq();
                self.keys.push(key);
                self.values.push(val);
                assert(self.key_seq() =~= old_keys.push(key@));
            },
        }
    }

    /// Remove a key and hand back its value, if the key was there. The other
    /// keys keep their order.
    pub fn remove(&mut self, key: &String) -> (r: Option<V>)
        requires
            old(self).wf(),
        ensures
            final(self).wf(),
            !old(self).key_seq().contains(key@) ==> r is None && *final(self) == *old(self),
            old(self).key_seq().contains(key@) ==> exists|i: int|
                0 <= i < old(self).key_seq().len() && old(self).key_seq()[i] == key@ && r == Some(
                    old(self).value_seq()[i],
                ) && final(self).key_seq() == old(self).key_seq().remove(i)
                    && final(self).value_seq() == old(self).value_seq().remove(i),
    {
        match self.position(key) {
            Some(i) => {
                let ghost old_keys = self.key_seq();
                self.keys.remove(i);
                let v = self.values.remove(i);
                assert(self.key_seq() =~= old_keys.remove(i as int));
                Some(v)
            },
            None => None,
        }
    }

    /// Number of entries.
    pub fn len(&self) -> (r: usize)
        requires
            self.wf(),
        ensures
            r == self.key_seq().len(),
    {
        self.keys.len()
    }

    /// Does the map hold no entries?
    pub fn is_empty(&self) -> (r: bool)
        requires
            self.wf(),
        ensures
            r == (self.key_seq().len() == 0),
    {
        self.keys.len() == 0
    }

    /// Is `key` one of the keys?
    pub fn contains_key(&self, key: &str) -> (r: bool)
        requires
            self.wf(),
        ensures
            r == self.key_seq().contains(key@),
    {
        let k = key.to_owned();
        self.position(&k).is_some()
    }

    /// The value stored under `key`, if any.
    pub fn get(&self, key: &str) -> (r: Option<&V>)
        requires
            self.wf(),
        ensures
            !self.key_seq().contains(key@) ==> r is None,
            forall|i: int|
                0 <= i < self.key_seq().len() && self.key_seq()[i] == key@ ==> r == Some(
                    &self.value_seq()[i],
                ),
    {
        let k = key.to_owned();
        match self.position(&k) {
            Some(i) => Some(&self.values[i]),
            None => None,
        }
    }

    /// The keys, in order.
    pub fn keys(&self) -> (r: Keys<'_, String>)
        requires
            self.wf(),
        ensures
            r.wf(),
            r.remaining() == self.key_seq(),
    {
        let r = Keys { keys: &self.keys, pos: 0 };
        assert(r.remaining() =~= self.key_seq());
        r
    }

    /// The entries, in order.
    pub fn iter(&self) -> (r: OrderedMapIterator<'_, String, V>)
        requires
            self.wf(),
        ensures
            r.wf(),
            r.map() == *self,
            r.position() == 0,
    {
        OrderedMapIterator { map: self, curr: 0 }
    }
}

/// A cursor over the keys of an [`OrderedMap`].
pub struct Keys<'m, K> {
    keys: &'m Vec<K>,
    pos: usize,
}

impl<'m> Keys<'m, String> {
    /// The keys not handed out yet.
    pub closed spec fn remaining(&self) -> Seq<Seq<char>> {
        self.keys@.map_values(|k: String| k@).skip(self.pos as int)
    }

    pub closed spec fn wf(&self) -> bool {
        self.pos <= self.keys@.len()
    }

    /// The next key, or `None` once all were handed out.
    pub fn next(&mut self) -> (r: Option<&'m String>)
        requires
            old(self).wf(),
        ensures
            final(self).wf(),
            old(self).remaining().len() == 0 ==> r is None && final(self).remaining().len() == 0,
            old(self).remaining().len() > 0 ==> {
                &&& r matches Some(k) && k@ == old(self).remaining()[0]
                &&& final(self).remaining() == old(self).remaining().drop_first()
            },
    {
        if self.pos < self.keys.len() {
            let k = &self.keys[self.pos];
            self.pos = self.pos + 1;
            assert(self.remaining() =~= old(self).remaining().drop_first());
            Some(k)
        } else {
            None
        }
    }
}

/// A cursor over the entries of an [`OrderedMap`], in key order.
pub struct OrderedMapIterator<'m, K, V> {
    map: &'m OrderedMap<K, V>,
    curr: usize,
}

impl<'m, V> OrderedMapIterator<'m, String, V> {
    /// The map walked over.
    pub closed spec fn map(&self) -> OrderedMap<String, V> {
        *self.map
    }

    /// How many entries were handed out.
    pub closed spec fn position(&self) -> int {
        self.curr as int
    }

    pub closed spec fn wf(&self) -> bool {
        self.map.wf() && self.curr <= self.map.keys@.len()
    }

    /// A cursor stands inside its well-formed map.
    pub proof fn lemma_wf(&self)
        ensures
            self.wf() <==> (self.map().wf() && 0 <= self.position() <= self.map().key_seq().len()),
    {
    }

    /// The next entry, or `None` once all were handed out.
    pub fn next(&mut self) -> (r: Option<(&'m String, &'m V)>)
        requires
            old(self).wf(),
        ensures
            final(self).wf(),
            final(self).map() == old(self).map(),
            old(self).position() == old(self).map().key_seq().len() ==> r is None
                && final(self).position() == old(self).position(),
            old(self).position() < old(self).map().key_seq().len() ==> {
                &&& r matches Some((k, v)) && k@ == old(self).map().key_seq()[old(self).position()]
                    && *v == old(self).map().value_seq()[old(self).position()]
                &&& final(self).position() == old(self).position() + 1
            },
    {
        if self.curr < self.map.keys.len() {
            let key = &self.map.keys[self.curr];
            let val = &self.map.values[self.curr];
            self.curr = self.curr + 1;
            Some((key, val))
        } else {
            None
        }
    }
}

} // verus!
