//! A collection of values indexed by unique string keys.
use vstd::prelude::*;
use crate::safe_vec::total;

verus! {

/// The value bound to `k` in `m`, or `None` when `k` is not bound.
pub open spec fn lookup<K, V>(m: Map<K, V>, k: K) -> Option<V> {
    if m.contains_key(k) {
        Some(m[k])
    } else {
        None
    }
}

/// `dst` holds exactly the entries of `src` whose value `f` accepts.
pub open spec fn filtered<K, V, F: Fn(V) -> bool>(src: Map<K, V>, dst: Map<K, V>, f: F) -> bool {
    &&& forall|k: K| #[trigger]
        dst.contains_key(k) ==> src.contains_key(k) && dst[k] == src[k] && f.ensures(
            (src[k],),
            true,
        )
    &&& forall|k: K|
        src.contains_key(k) && !#[trigger] dst.contains_key(k) ==> f.ensures((src[k],), false)
}

/// `dst` has the keys of `src`, each bound to what `f` gives for its value in `src`.
pub open spec fn mapped<K, V, W, F: Fn(V) -> W>(src: Map<K, V>, dst: Map<K, W>, f: F) -> bool {
    &&& dst.dom() == src.dom()
    &&& forall|k: K| #[trigger] src.contains_key(k) ==> f.ensures((src[k],), dst[k])
}

/// Values indexed by unique string keys. No operation promises an order of
/// the entries.
pub struct SafeMap<V> {
    keys: Vec<String>,
    vals: Vec<V>,
    model: Ghost<Map<Seq<char>, V>>,
}

impl<V> View for SafeMap<V> {
    type V = Map<Seq<char>, V>;

    closed spec fn view(&self) -> Map<Seq<char>, V> {
        self.model@
    }
}

impl<V> SafeMap<V> {
    /// The keys are unique, each bound in the model to the value beside it,
    /// and the model binds no other key.
    pub closed spec fn wf(&self) -> bool {
        &&& self.keys@.len() == self.vals@.len()
        &&& forall|i: int, j: int|
            0 <= i < j < self.keys@.len() ==> #[trigger] self.keys@[i]@ != #[trigger] self.keys@[j]@
        &&& forall|i: int|
            0 <= i < self.keys@.len() ==> self.model@.contains_key(#[trigger] self.keys@[i]@)
                && self.model@[self.keys@[i]@] == self.vals@[i]
        &&& forall|k: Seq<char>| #[trigger]
            self.model@.contains_key(k) ==> exists|i: int|
                0 <= i < self.keys@.len() && #[trigger] self.keys@[i]@ == k
        &&& self.model@.dom().finite()
        &&& self.model@.len() == self.keys@.len()
    }
}

impl<V: Copy> SafeMap<V> {
    /// An empty collection.
    pub fn new() -> (r: Self)
        ensures
            r.wf(),
            r@ == Map::<Seq<char>, V>::empty(),
    {
        SafeMap { keys: Vec::new(), vals: Vec::new(), model: Ghost(Map::empty()) }
    }

    /// A well-formed map has finitely many entries.
    pub proof fn lemma_view_finite(&self)
        requires
            self.wf(),
        ensures
            self@.dom().finite(),
    {
    }

    /// Number of entries.
    pub fn len(&self) -> (r: usize)
        requires
            self.wf(),
        ensures
            r == self@.len(),
            self@.dom().finite(),
    {
        self.keys.len()
    }

    /// Whether there are no entries.
    pub fn is_empty(&self) -> (r: bool)
        requires
            self.wf(),
        ensures
            r == (self@.len() == 0),
    {
        self.keys.len() == 0
    }

    /// The position of `key` among the keys, if it is bound.
    fn position(&self, key: &String) -> (r: Option<usize>)
        requires
            self.wf(),
        ensures
            match r {
                Some(i) => i < self.keys@.len() && self.keys@[i as int]@ == key@,
                None => !self@.contains_key(key@),
            },
    {
        let mut i: usize = 0;
        while i < self.keys.len()
            invariant
                i <= self.keys@.len(),
                forall|j: int| 0 <= j < i ==> self.keys@[j]@ != key@,
            decreases self.keys@.len() - i,
        {
            if self.keys[i] == *key {
                return Some(i);
            }
            i = i + 1;
        }
        None
    }

    /// Checked lookup: the value bound to `key`, or `None`.
    pub fn get(&self, key: &String) -> (r: Option<V>)
        requires
            self.wf(),
        ensures
            r == lookup(self@, key@),
    {
        match self.position(key) {
            Some(i) => Some(self.vals[i]),
            None => None,
        }
    }

    /// Whether `key` is bound.
    pub fn contains_key(&self, key: &String) -> (r: bool)
        requires
            self.wf(),
        ensures
            r == self@.contains_key(key@),
    {
        self.position(key).is_some()
    }

    /// Binds `key` to `value`, replacing any earlier value of `key`.
    pub fn insert(&mut self, key: String, value: V)
        requires
            old(self).wf(),
        ensures
            final(self).wf(),
            final(self)@ == old(self)@.insert(key@, value),
    {
        match self.position(&key) {
            Some(i) => {
                self.vals.set(i, value);
                self.model = Ghost(self.model@.insert(key@, value));
                assert forall|k: Seq<char>| #[trigger]
                    self.model@.contains_key(k) implies exists|j: int|
                        0 <= j < self.keys@.len() && #[trigger] self.keys@[j]@ == k by {
                    if k == key@ {
                        assert(self.keys@[i as int]@ == k);
                    } else {
                        let j = choose|j: int|
                            0 <= j < old(self).keys@.len() && #[trigger] old(self).keys@[j]@ == k;
                        assert(self.keys@[j]@ == k);
                    }
                }
            },
            None => {
                let ghost kv = key@;
                self.keys.push(key);
                self.vals.push(value);
                self.model = Ghost(self.model@.insert(kv, value));
                assert forall|k: Seq<char>| #[trigger]
                    self.model@.contains_key(k) implies exists|j: int|
                        0 <= j < self.keys@.len() && #[trigger] self.keys@[j]@ == k by {
                    if k == kv {
                        assert(self.keys@[self.keys@.len() - 1]@ == k);
                    } else {
                        let j = choose|j: int|
                            0 <= j < old(self).keys@.len() && #[trigger] old(self).keys@[j]@ == k;
                        assert(self.keys@[j]@ == k);
                    }
                }
            },
        }
    }

    /// Unbinds `key` and returns its value; `None`, with nothing changed,
    /// when it was not bound.
    pub fn remove(&mut self, key: &String) -> (r: Option<V>)
        requires
            old(self).wf(),
        ensures
            final(self).wf(),
            r == lookup(old(self)@, key@),
            final(self)@ == old(self)@.remove(key@),
    {
        match self.position(key) {
            Some(i) => {
                let ghost old_keys = self.keys@;
                let _ = self.keys.remove(i);
                let v = self.vals.remove(i);
                self.model = Ghost(self.model@.remove(key@));
                assert forall|k: Seq<char>| #[trigger]
                    self.model@.contains_key(k) implies exists|j: int|
                        0 <= j < self.keys@.len() && #[trigger] self.keys@[j]@ == k by {
                    let j = choose|j: int| 0 <= j < old_keys.len() && #[trigger] old_keys[j]@ == k;
                    if j < i {
                        assert(self.keys@[j]@ == k);
                    } else {
                        assert(self.keys@[j - 1]@ == k);
                    }
                }
                Some(v)
            },
            None => {
                assert(old(self)@.remove(key@) == old(self)@);
                None
            },
        }
    }

    /// Removes every entry.
    pub fn clear(&mut self)
        requires
            old(self).wf(),
        ensures
            final(self).wf(),
            final(self)@ == Map::<Seq<char>, V>::empty(),
    {
        self.keys.clear();
        self.vals.clear();
        self.model = Ghost(Map::empty());
    }
    /// A new collection of the entries whose value `f` accepts.
    pub fn filter<F: Fn(V) -> bool>(&self, f: F) -> (r: SafeMap<V>)
        requires
            self.wf(),
            total::<V, bool, F>(f),
        ensures
            r.wf(),
            filtered(self@, r@, f),
    {
        let mut out: SafeMap<V> = SafeMap::new();
        let mut i: usize = 0;
        while i < self.keys.len()
            invariant
                self.wf(),
                out.wf(),
                total::<V, bool, F>(f),
                i <= self.keys@.len(),
                forall|k: Seq<char>| #[trigger]
                    out@.contains_key(k) ==> self@.contains_key(k) && out@[k] == self@[k]
                        && f.ensures((self@[k],), true),
                forall|j: int|
                    0 <= j < i ==> out@.contains_key(#[trigger] self.keys@[j]@) || f.ensures(
                        (self.vals@[j],),
                        false,
                    ),
            decreases self.keys@.len() - i,
        {
            let v = self.vals[i];
            if f(v) {
                out.insert(self.keys[i].clone(), v);
            }
            i = i + 1;
        }
        assert forall|k: Seq<char>|
            self@.contains_key(k) && !#[trigger] out@.contains_key(k) implies f.ensures(
            (self@[k],),
            false,
        ) by {
            let j = choose|j: int| 0 <= j < self.keys@.len() && #[trigger] self.keys@[j]@ == k;
            assert(out@.contains_key(self.keys@[j]@) || f.ensures((self.vals@[j],), false));
        }
        out
    }

    /// A new collection with the same keys, each bound to `f` of its value.
    pub fn map<W: Copy, F: Fn(V) -> W>(&self, f: F) -> (r: SafeMap<W>)
        requires
            self.wf(),
            total::<V, W, F>(f),
        ensures
            r.wf(),
            mapped(self@, r@, f),
    {
        let mut out: SafeMap<W> = SafeMap::new();
        let mut i: usize = 0;
        while i < self.keys.len()
            invariant
                self.wf(),
                out.wf(),
                total::<V, W, F>(f),
                i <= self.keys@.len(),
                forall|k: Seq<char>| #[trigger]
                    out@.contains_key(k) ==> self@.contains_key(k) && f.ensures(
                        (self@[k],),
                        out@[k],
                    ),
                forall|j: int| 0 <= j < i ==> out@.contains_key(#[trigger] self.keys@[j]@),
            decreases self.keys@.len() - i,
        {
            let w = f(self.vals[i]);
            out.insert(self.keys[i].clone(), w);
            i = i + 1;
        }
        assert forall|k: Seq<char>| #[trigger] self@.contains_key(k) implies out@.contains_key(
            k,
        ) by {
            let j = choose|j: int| 0 <= j < self.keys@.len() && #[trigger] self.keys@[j]@ == k;
            assert(out@.contains_key(self.keys@[j]@));
        }
        assert(out@.dom() == self@.dom());
        out
    }

    /// Keeps only the entries whose value `f` accepts.
    pub fn retain<F: Fn(V) -> bool>(&mut self, f: F)
        requires
            old(self).wf(),
            total::<V, bool, F>(f),
        ensures
            final(self).wf(),
            filtered(old(self)@, final(self)@, f),
    {
        *self = self.filter(f);
    }

    /// The keys, each once.
    pub fn keys(&self) -> (r: Vec<String>)
        requires
            self.wf(),
        ensures
            r@.len() == self@.len(),
            forall|i: int, j: int| 0 <= i < j < r@.len() ==> #[trigger] r@[i]@ != #[trigger] r@[j]@,
            forall|i: int| 0 <= i < r@.len() ==> self@.contains_key(#[trigger] r@[i]@),
            forall|k: Seq<char>| #[trigger]
                self@.contains_key(k) ==> exists|i: int| 0 <= i < r@.len() && #[trigger] r@[i]@ == k,
    {
        self.keys.clone()
    }
}

/// The entries of `map` whose mark is above 80.
pub fn filter_high_marks(map: &SafeMap<i32>) -> (r: SafeMap<i32>)
    requires
        map.wf(),
    ensures
        r.wf(),
        r@ == map@.restrict(map@.dom().filter(|k: Seq<char>| map@[k] > 80)),
{
    let r = map.filter(|mark: i32| -> (b: bool)
        ensures
            b == (mark > 80),
        { mark > 80 });
    assert(r@ == map@.restrict(map@.dom().filter(|k: Seq<char>| map@[k] > 80)));
    r
}

} // verus!
