use vstd::prelude::*;
use crate::ids::fresh_id;

verus! {

/// A map from strings to values, kept as a list of entries with distinct keys.
/// Lookups compare keys by their characters.
#[derive(Clone)]
pub struct StrMap<V> {
    keys: Vec<String>,
    vals: Vec<V>,
    model: Ghost<Map<Seq<char>, V>>,
}

impl<V> View for StrMap<V> {
    type V = Map<Seq<char>, V>;

    closed spec fn view(&self) -> Map<Seq<char>, V> {
        self.model@
    }
}

impl<V> StrMap<V> {
    /// The keys in the order in which the map hands its entries out.
    pub closed spec fn key_order(&self) -> Seq<Seq<char>> {
        self.keys@.map_values(|k: String| k@)
    }

    pub closed spec fn wf(&self) -> bool {
        &&& self.keys.len() == self.vals.len()
        &&& forall|i: int, j: int|
            0 <= i < j < self.keys.len() ==> self.keys[i]@ != self.keys[j]@
        &&& forall|i: int|
            0 <= i < self.keys.len() ==> #[trigger] self.model@.contains_key(self.keys[i]@)
                && self.model@[self.keys[i]@] == self.vals[i]
        &&& forall|k: Seq<char>|
            #[trigger] self.model@.contains_key(k) ==> exists|i: int|
                0 <= i < self.keys.len() && self.keys[i]@ == k
        &&& self.model@.dom().finite()
        &&& self.model@.len() == self.keys.len()
    }

    /// What the well-formedness of a map gives its users: the order of its keys
    /// lists each key of the map once.
    pub proof fn lemma_key_order(&self)
        requires
            self.wf(),
        ensures
            self.key_order().no_duplicates(),
            self.key_order().len() == self@.len(),
            forall|k: Seq<char>| self@.contains_key(k) <==> self.key_order().contains(k),
            self@.dom().finite(),
    {
        assert forall|k: Seq<char>| self@.contains_key(k) <==> self.key_order().contains(k) by {
            if self@.contains_key(k) {
                let i = choose|i: int| 0 <= i < self.keys.len() && self.keys[i]@ == k;
                assert(self.key_order()[i] == k);
            }
            if self.key_order().contains(k) {
                let i = choose|i: int| 0 <= i < self.key_order().len() && self.key_order()[i] == k;
                assert(self.model@.contains_key(self.keys[i]@));
            }
        }
    }

    pub fn new() -> (r: Self)
        ensures
            r.wf(),
            r@ == Map::<Seq<char>, V>::empty(),
    {
        StrMap { keys: Vec::new(), vals: Vec::new(), model: Ghost(Map::empty()) }
    }

    pub fn len(&self) -> (r: usize)
        requires
            self.wf(),
        ensures
            r == self@.len(),
    {
        self.keys.len()
    }

    pub fn is_empty(&self) -> (r: bool)
        requires
            self.wf(),
        ensures
            r == (self@.len() == 0),
    {
        self.keys.len() == 0
    }

    /// The position of `key` among the entries.
    fn find(&self, key: &str) -> (r: Option<usize>)
        requires
            self.wf(),
        ensures
            match r {
                Some(i) => i < self.keys.len() && self.keys[i as int]@ == key@,
                None => !self@.contains_key(key@),
            },
    {
        let owned = key.to_owned();
        let mut i: usize = 0;
        while i < self.keys.len()
            invariant
                self.wf(),
                owned@ == key@,
                0 <= i <= self.keys.len(),
                forall|j: int| 0 <= j < i ==> self.keys[j]@ != key@,
            decreases self.keys.len() - i,
        {
            if self.keys[i] == owned {
                return Some(i);
            }
            i = i + 1;
        }
        None
    }

    pub fn contains_key(&self, key: &str) -> (r: bool)
        requires
            self.wf(),
        ensures
            r == self@.contains_key(key@),
    {
        match self.find(key) {
            Some(_) => true,
            None => false,
        }
    }

    pub fn get(&self, key: &str) -> (r: Option<&V>)
        requires
            self.wf(),
        ensures
            match r {
                Some(v) => self@.contains_key(key@) && *v == self@[key@],
                None => !self@.contains_key(key@),
            },
    {
        match self.find(key) {
            Some(i) => {
                assert(self.model@.contains_key(self.keys[i as int]@));
                Some(&self.vals[i])
            },
            None => None,
        }
    }

    /// Sets the value of `key`, in place where the key is already present.
    pub fn insert(&mut self, key: String, value: V)
        requires
            old(self).wf(),
        ensures
            final(self).wf(),
            final(self)@ == old(self)@.insert(key@, value),
    {
        let ghost k = key@;
        let ghost v = value;
        match self.find(key.as_str()) {
            Some(i) => {
                self.vals.remove(i);
                self.vals.insert(i, value);
                self.model = Ghost(self.model@.insert(k, v));
                assert(old(self).model@.contains_key(k));
                assert(self.model@.dom() =~= old(self).model@.dom());
                assert forall|a: int| 0 <= a < self.keys.len() implies #[trigger] self.model@.contains_key(self.keys[a]@)
                    && self.model@[self.keys[a]@] == self.vals[a] by {
                    assert(old(self).model@.contains_key(self.keys[a]@));
                    if a != i {
                        assert(self.keys[a]@ != k);
                    }
                }
                assert forall|q: Seq<char>| #[trigger] self.model@.contains_key(q) implies exists|j: int|
                    0 <= j < self.keys.len() && self.keys[j]@ == q by {
                    assert(old(self).model@.contains_key(q));
                    let j = choose|j: int| 0 <= j < old(self).keys.len() && old(self).keys[j]@ == q;
                    assert(self.keys[j]@ == q);
                }
            },
            None => {
                self.keys.push(key);
                self.vals.push(value);
                self.model = Ghost(self.model@.insert(k, v));
                assert forall|a: int| 0 <= a < self.keys.len() implies #[trigger] self.model@.contains_key(self.keys[a]@)
                    && self.model@[self.keys[a]@] == self.vals[a] by {
                    if a < self.keys.len() - 1 {
                        assert(self.keys[a] == old(self).keys[a]);
                        assert(self.vals[a] == old(self).vals[a]);
                        assert(old(self).model@.contains_key(self.keys[a]@));
                    } else {
                        assert(self.keys[a]@ == k);
                        assert(self.vals[a] == v);
                    }
                }
                assert forall|q: Seq<char>| #[trigger] self.model@.contains_key(q) implies exists|i: int|
                    0 <= i < self.keys.len() && self.keys[i]@ == q by {
                    if q == k {
                        assert(self.keys[self.keys.len() - 1]@ == q);
                    } else {
                        assert(old(self).model@.contains_key(q));
                        let j = choose|j: int| 0 <= j < old(self).keys.len() && old(self).keys[j]@ == q;
                        assert(self.keys[j]@ == q);
                    }
                }
            },
        }
    }

    /// Takes `key` out of the map, with its value if it was there.
    pub fn remove(&mut self, key: &str) -> (r: Option<V>)
        requires
            old(self).wf(),
        ensures
            final(self).wf(),
            final(self)@ == old(self)@.remove(key@),
            r == (if old(self)@.contains_key(key@) {
                Some(old(self)@[key@])
            } else {
                None::<V>
            }),
    {
        match self.find(key) {
            Some(i) => {
                let ghost k = key@;
                let ghost ok = self.keys@;
                self.keys.remove(i);
                let v = self.vals.remove(i);
                let ghost ov = old(self).vals@;
                self.model = Ghost(self.model@.remove(k));
                assert forall|a: int| 0 <= a < self.keys.len() implies #[trigger] self.model@.contains_key(self.keys[a]@)
                    && self.model@[self.keys[a]@] == self.vals[a] by {
                    let a2 = if a < i { a } else { a + 1 };
                    assert(self.keys[a] == ok[a2]);
                    assert(self.vals[a] == ov[a2]);
                    assert(old(self).keys[a2]@ != old(self).keys[i as int]@);
                    assert(old(self).model@.contains_key(ok[a2]@));
                    assert(old(self).model@[ok[a2]@] == ov[a2]);
                    assert(ok[a2]@ != k);
                }
                assert forall|a: int, b: int| 0 <= a < b < self.keys.len() implies self.keys[a]@ != self.keys[b]@ by {
                    let a2 = if a < i { a } else { a + 1 };
                    let b2 = if b < i { b } else { b + 1 };
                    assert(self.keys[a] == ok[a2]);
                    assert(self.keys[b] == ok[b2]);
                }
                assert forall|q: Seq<char>| #[trigger] self.model@.contains_key(q) implies exists|j: int|
                    0 <= j < self.keys.len() && self.keys[j]@ == q by {
                    assert(old(self).model@.contains_key(q));
                    let j = choose|j: int| 0 <= j < ok.len() && ok[j]@ == q;
                    if j < i {
                        assert(self.keys[j]@ == q);
                    } else {
                        assert(j != i);
                        assert(self.keys[j - 1]@ == q);
                    }
                }
                Some(v)
            },
            None => {
                assert(self.model@ =~= self.model@.remove(key@));
                None
            },
        }
    }

    pub fn clear(&mut self)
        requires
            old(self).wf(),
        ensures
            final(self).wf(),
            final(self)@ == Map::<Seq<char>, V>::empty(),
    {
        self.keys = Vec::new();
        self.vals = Vec::new();
        self.model = Ghost(Map::empty());
    }

    /// The keys, in the map's order.
    pub fn keys(&self) -> (r: Vec<String>)
        requires
            self.wf(),
        ensures
            r@.map_values(|k: String| k@) == self.key_order(),
    {
        let mut out: Vec<String> = Vec::new();
        let mut i: usize = 0;
        while i < self.keys.len()
            invariant
                self.wf(),
                0 <= i <= self.keys.len(),
                out@.map_values(|k: String| k@) == self.key_order().subrange(0, i as int),
            decreases self.keys.len() - i,
        {
            let k = self.keys[i].clone();
            let ghost before = out@;
            out.push(k);
            assert(out@ == before.push(k));
            assert(self.key_order()[i as int] == self.keys[i as int]@);
            assert(out@.map_values(|k: String| k@) =~= before.map_values(|k: String| k@).push(k@));
            assert(out@.map_values(|k: String| k@) =~= self.key_order().subrange(0, i + 1));
            i = i + 1;
        }
        assert(self.key_order().subrange(0, self.keys.len() as int) =~= self.key_order());
        out
    }

    /// The values, as copies, in the map's order.
    pub fn values(&self) -> (r: Vec<V>) where V: Clone
        requires
            self.wf(),
        ensures
            r@.len() == self.key_order().len(),
            forall|i: int| 0 <= i < r@.len() ==> cloned(self@[self.key_order()[i]], #[trigger] r@[i]),
    {
        let mut out: Vec<V> = Vec::new();
        let mut i: usize = 0;
        while i < self.vals.len()
            invariant
                self.wf(),
                0 <= i <= self.vals.len(),
                out@.len() == i,
                forall|j: int| 0 <= j < i ==> cloned(self@[self.key_order()[j]], #[trigger] out@[j]),
            decreases self.vals.len() - i,
        {
            let v = self.vals[i].clone();
            assert(self.key_order()[i as int] == self.keys[i as int]@);
            assert(self.model@.contains_key(self.keys[i as int]@));
            assert(self@[self.key_order()[i as int]] == self.vals[i as int]);
            out.push(v);
            i = i + 1;
        }
        out
    }

    /// A new random key that the map does not hold.
    pub fn unused_key(&self) -> (r: String)
        requires
            self.wf(),
        ensures
            !self@.contains_key(r@),
            r@.len() >= 36,
    {
        let taken = self.keys();
        let r = fresh_id(&taken);
        proof {
            self.lemma_key_order();
            if self@.contains_key(r@) {
                assert(self.key_order().contains(r@));
                let i = choose|i: int| 0 <= i < self.key_order().len() && self.key_order()[i] == r@;
                assert(taken@.map_values(|k: String| k@)[i] == taken@[i]@);
                assert(crate::ids::is_taken(taken@, r@));
            }
        }
        r
    }

    /// The value at a position of the map's order.
    pub fn value_at(&self, i: usize) -> (r: &V)
        requires
            self.wf(),
            i < self.key_order().len(),
        ensures
            *r == self@[self.key_order()[i as int]],
    {
        assert(self.key_order()[i as int] == self.keys[i as int]@);
        assert(self.model@.contains_key(self.keys[i as int]@));
        &self.vals[i]
    }
}

/// Mapping the values of a map commutes with inserting into it.
pub proof fn lemma_map_values_insert<V, W>(m: Map<Seq<char>, V>, k: Seq<char>, v: V, f: spec_fn(V) -> W)
    ensures
        m.insert(k, v).map_values(f) == m.map_values(f).insert(k, f(v)),
{
    assert(m.insert(k, v).map_values(f) =~= m.map_values(f).insert(k, f(v)));
}

/// Mapping the values of a map commutes with removing from it.
pub proof fn lemma_map_values_remove<V, W>(m: Map<Seq<char>, V>, k: Seq<char>, f: spec_fn(V) -> W)
    ensures
        m.remove(k).map_values(f) == m.map_values(f).remove(k),
{
    assert(m.remove(k).map_values(f) =~= m.map_values(f).remove(k));
}

} // verus!
