//! A position-indexed collection with checked and unchecked access.
use vstd::prelude::*;

verus! {

/// `f` accepts every value.
pub open spec fn total<V, W, F: Fn(V) -> W>(f: F) -> bool {
    forall|v: V| #[trigger] f.requires((v,))
}

/// The values of `s` whose flag in `keep` is set, in their order.
pub open spec fn pick<V>(s: Seq<V>, keep: Seq<bool>) -> Seq<V>
    decreases s.len(),
{
    if s.len() == 0 {
        s
    } else if keep[s.len() - 1] {
        pick(s.drop_last(), keep.drop_last()).push(s.last())
    } else {
        pick(s.drop_last(), keep.drop_last())
    }
}

/// `keep` holds, at each position of `s`, a verdict that `f` may give there.
pub open spec fn verdicts<V, F: Fn(V) -> bool>(s: Seq<V>, keep: Seq<bool>, f: F) -> bool {
    &&& keep.len() == s.len()
    &&& forall|i: int| 0 <= i < s.len() ==> f.ensures((s[i],), #[trigger] keep[i])
}

/// `dst` is `src` with the values that `f` rejects taken out.
pub open spec fn filtered_seq<V, F: Fn(V) -> bool>(src: Seq<V>, dst: Seq<V>, f: F) -> bool {
    exists|keep: Seq<bool>| verdicts(src, keep, f) && dst == pick(src, keep)
}

/// `dst` is `src` with `f` applied at every position.
pub open spec fn mapped_seq<V, W, F: Fn(V) -> W>(src: Seq<V>, dst: Seq<W>, f: F) -> bool {
    &&& dst.len() == src.len()
    &&& forall|i: int| 0 <= i < src.len() ==> f.ensures((src[i],), #[trigger] dst[i])
}

/// An owned sequence of values, addressed by position.
pub struct SafeVec<V> {
    items: Vec<V>,
}

impl<V> View for SafeVec<V> {
    type V = Seq<V>;

    closed spec fn view(&self) -> Seq<V> {
        self.items@
    }
}

impl<V: Copy> SafeVec<V> {
    /// An empty collection.
    pub fn new() -> (r: Self)
        ensures
            r@ == Seq::<V>::empty(),
    {
        SafeVec { items: Vec::new() }
    }

    /// A collection holding the given values in order.
    pub fn from_vec(items: Vec<V>) -> (r: Self)
        ensures
            r@ == items@,
    {
        SafeVec { items }
    }

    /// The values in order, as a `Vec`.
    pub fn to_vec(&self) -> (r: Vec<V>)
        ensures
            r@ == self@,
    {
        let mut out: Vec<V> = Vec::new();
        let mut i: usize = 0;
        while i < self.items.len()
            invariant
                i <= self@.len(),
                out@ == self@.take(i as int),
            decreases self@.len() - i,
        {
            out.push(self.items[i]);
            proof {
                assert(self@.take(i + 1) == self@.take(i as int).push(self@[i as int]));
            }
            i = i + 1;
        }
        proof {
            assert(self@.take(self@.len() as int) == self@);
        }
        out
    }

    /// Number of values.
    pub fn len(&self) -> (r: usize)
        ensures
            r == self@.len(),
    {
        self.items.len()
    }

    /// Whether there are no values.
    pub fn is_empty(&self) -> (r: bool)
        ensures
            r == (self@.len() == 0),
    {
        self.items.len() == 0
    }

    /// Checked access: the value at `index`, or `None` when out of range.
    pub fn get(&self, index: usize) -> (r: Option<V>)
        ensures
            index < self@.len() ==> r == Some(self@[index as int]),
            index >= self@.len() ==> r.is_none(),
    {
        if index < self.items.len() {
            Some(self.items[index])
        } else {
            None
        }
    }

    /// Unchecked access: the caller guarantees that `index` is in range.
    pub fn at(&self, index: usize) -> (r: V)
        requires
            index < self@.len(),
        ensures
            r == self@[index as int],
    {
        self.items[index]
    }

    /// Checked overwrite: puts `value` at `index` and returns the value that
    /// was there. Out of range, nothing changes and `None` comes back.
    pub fn set(&mut self, index: usize, value: V) -> (r: Option<V>)
        ensures
            index < old(self)@.len() ==> r == Some(old(self)@[index as int]) && final(self)@
                == old(self)@.update(index as int, value),
            index >= old(self)@.len() ==> r.is_none() && final(self)@ == old(self)@,
    {
        if index < self.items.len() {
            let prev = self.items[index];
            self.items.set(index, value);
            Some(prev)
        } else {
            None
        }
    }

    /// Appends `value` at the end.
    pub fn push(&mut self, value: V)
        ensures
            final(self)@ == old(self)@.push(value),
    {
        self.items.push(value);
    }

    /// Removes and returns the last value, if any.
    pub fn pop(&mut self) -> (r: Option<V>)
        ensures
            old(self)@.len() == 0 ==> r.is_none() && final(self)@ == old(self)@,
            old(self)@.len() > 0 ==> r == Some(old(self)@.last()) && final(self)@
                == old(self)@.drop_last(),
    {
        self.items.pop()
    }

    /// Removes the value at `index` and returns it; the later values move
    /// down by one. Out of range, nothing changes and `None` comes back.
    pub fn remove(&mut self, index: usize) -> (r: Option<V>)
        ensures
            index < old(self)@.len() ==> r == Some(old(self)@[index as int]) && final(self)@
                == old(self)@.remove(index as int),
            index >= old(self)@.len() ==> r.is_none() && final(self)@ == old(self)@,
    {
        if index < self.items.len() {
            Some(self.items.remove(index))
        } else {
            None
        }
    }

    /// Removes every value.
    pub fn clear(&mut self)
        ensures
            final(self)@ == Seq::<V>::empty(),
    {
        self.items.clear();
    }

    /// A new collection of the values that satisfy `f`, in their order.
    pub fn filter<F: Fn(V) -> bool>(&self, f: F) -> (r: SafeVec<V>)
        requires
            total::<V, bool, F>(f),
        ensures
            filtered_seq(self@, r@, f),
    {
        let mut out: Vec<V> = Vec::new();
        let mut i: usize = 0;
        let ghost mut keep: Seq<bool> = Seq::empty();
        while i < self.items.len()
            invariant
                total::<V, bool, F>(f),
                i <= self@.len(),
                verdicts(self@.take(i as int), keep, f),
                out@ == pick(self@.take(i as int), keep),
            decreases self@.len() - i,
        {
            let v = self.items[i];
            let b = f(v);
            proof {
                let old_keep = keep;
                keep = keep.push(b);
                assert(self@.take(i + 1).drop_last() == self@.take(i as int));
                assert(keep.drop_last() == old_keep);
                assert(self@.take(i + 1).last() == v);
                assert forall|j: int| 0 <= j < i + 1 implies f.ensures(
                    (self@.take(i + 1)[j],),
                    #[trigger] keep[j],
                ) by {
                    if j < i {
                        assert(self@.take(i + 1)[j] == self@.take(i as int)[j]);
                        assert(keep[j] == old_keep[j]);
                    }
                }
            }
            if b {
                out.push(v);
            }
            i = i + 1;
        }
        proof {
            assert(self@.take(self@.len() as int) == self@);
        }
        SafeVec { items: out }
    }

    /// Keeps only the values that satisfy `f`, in their order.
    pub fn retain<F: Fn(V) -> bool>(&mut self, f: F)
        requires
            total::<V, bool, F>(f),
        ensures
            filtered_seq(old(self)@, final(self)@, f),
    {
        let kept = self.filter(f);
        self.items = kept.items;
    }

    /// A new collection with `f` applied to every value, position by position.
    pub fn map<W: Copy, F: Fn(V) -> W>(&self, f: F) -> (r: SafeVec<W>)
        requires
            total::<V, W, F>(f),
        ensures
            mapped_seq(self@, r@, f),
    {
        let mut out: Vec<W> = Vec::new();
        let mut i: usize = 0;
        while i < self.items.len()
            invariant
                total::<V, W, F>(f),
                i <= self@.len(),
                out@.len() == i,
                forall|j: int| 0 <= j < i ==> f.ensures((self@[j],), #[trigger] out@[j]),
            decreases self@.len() - i,
        {
            let w = f(self.items[i]);
            out.push(w);
            i = i + 1;
        }
        SafeVec { items: out }
    }
}

/// The even values of `vec`, in their order.
pub fn is_even(vec: &Vec<i32>) -> (r: Vec<i32>)
    ensures
        r@ == vec@.filter(|x: i32| x % 2 == 0),
{
    let mut out: Vec<i32> = Vec::new();
    let mut i: usize = 0;
    while i < vec.len()
        invariant
            i <= vec@.len(),
            out@ == vec@.take(i as int).filter(|x: i32| x % 2 == 0),
        decreases vec@.len() - i,
    {
        let v = vec[i];
        proof {
            reveal(Seq::filter);
            assert(vec@.take(i + 1).drop_last() == vec@.take(i as int));
            assert(vec@.take(i + 1).last() == v);
        }
        if v % 2 == 0 {
            out.push(v);
        }
        i = i + 1;
    }
    proof {
        assert(vec@.take(vec@.len() as int) == vec@);
    }
    out
}

/// The sum of the values of `s`.
pub open spec fn sum_of(s: Seq<i32>) -> int
    decreases s.len(),
{
    if s.len() == 0 {
        0
    } else {
        sum_of(s.drop_last()) + s.last()
    }
}

/// `s` with five added to every value.
pub open spec fn plus_five(s: Seq<i32>) -> Seq<i32> {
    s.map_values(|x: i32| (x + 5) as i32)
}

/// Adds five to every value of `v` in place and returns the sum of the new values.
pub fn process_vector(v: &mut Vec<i32>) -> (r: i32)
    requires
        forall|i: int| 0 <= i < old(v)@.len() ==> old(v)@[i] + 5 <= i32::MAX,
        forall|i: int|
            0 <= i <= old(v)@.len() ==> i32::MIN <= #[trigger] sum_of(plus_five(old(v)@).take(i))
                <= i32::MAX,
    ensures
        final(v)@ == plus_five(old(v)@),
        r == sum_of(final(v)@),
{
    let n = v.len();
    let mut i: usize = 0;
    while i < n
        invariant
            n == v@.len() == old(v)@.len(),
            i <= n,
            forall|j: int| 0 <= j < n ==> old(v)@[j] + 5 <= i32::MAX,
            forall|j: int| 0 <= j < i ==> v@[j] == old(v)@[j] + 5,
            forall|j: int| i <= j < n ==> v@[j] == old(v)@[j],
        decreases n - i,
    {
        let x = v[i];
        v.set(i, x + 5);
        i = i + 1;
    }
    assert(v@ == plus_five(old(v)@));
    let mut sum: i32 = 0;
    let mut i: usize = 0;
    while i < n
        invariant
            n == v@.len(),
            i <= n,
            forall|j: int| 0 <= j <= n ==> i32::MIN <= #[trigger] sum_of(v@.take(j)) <= i32::MAX,
            sum == sum_of(v@.take(i as int)),
        decreases n - i,
    {
        assert(v@.take(i + 1).drop_last() == v@.take(i as int));
        assert(sum_of(v@.take(i + 1)) <= i32::MAX);
        sum = sum + v[i];
        i = i + 1;
    }
    assert(v@.take(n as int) == v@);
    sum
}

} // verus!
