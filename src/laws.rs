//! Properties that hold across the collections' operations.
use vstd::prelude::*;
use crate::safe_map::{filtered, lookup, mapped};
use crate::safe_vec::{filtered_seq, mapped_seq, pick, verdicts};

verus! {

/// The map reached from `m` by a history of updates: `(k, Some(v))` binds `k`
/// to `v`, as `insert` does; `(k, None)` unbinds `k`, as `remove` does.
pub open spec fn replay<K, V>(m: Map<K, V>, ops: Seq<(K, Option<V>)>) -> Map<K, V>
    decreases ops.len(),
{
    if ops.len() == 0 {
        m
    } else {
        let prev = replay(m, ops.drop_last());
        match ops.last().1 {
            Some(v) => prev.insert(ops.last().0, v),
            None => prev.remove(ops.last().0),
        }
    }
}

/// After any history of updates, a lookup of `k` gives the value of the last
/// insert of `k`, provided that no later update touched `k`.
pub proof fn law_last_insert_wins<K, V>(m: Map<K, V>, ops: Seq<(K, Option<V>)>, i: int, k: K, v: V)
    requires
        0 <= i < ops.len(),
        ops[i] == (k, Option::Some(v)),
        forall|j: int| i < j < ops.len() ==> (#[trigger] ops[j]).0 != k,
    ensures
        lookup(replay(m, ops), k) == Some(v),
    decreases ops.len(),
{
    if i < ops.len() - 1 {
        let pre = ops.drop_last();
        assert forall|j: int| i < j < pre.len() implies (#[trigger] pre[j]).0 != k by {
            assert(pre[j] == ops[j]);
        }
        law_last_insert_wins(m, pre, i, k, v);
        assert(ops[ops.len() - 1].0 != k);
    }
}

/// Starting empty, a lookup of a key that was never inserted, or was removed
/// after each insert of it, gives `None`.
pub proof fn law_absent_unless_inserted<K, V>(ops: Seq<(K, Option<V>)>, k: K)
    requires
        forall|i: int|
            0 <= i < ops.len() && (#[trigger] ops[i]).0 == k && ops[i].1.is_some() ==> exists|j: int|
                i < j < ops.len() && (#[trigger] ops[j]).0 == k && ops[j].1.is_none(),
    ensures
        lookup(replay(Map::<K, V>::empty(), ops), k) == None::<V>,
    decreases ops.len(),
{
    if ops.len() > 0 {
        let n = ops.len() - 1;
        let pre = ops.drop_last();
        if ops[n].0 == k {
            if ops[n].1.is_some() {
                let j = choose|j: int| n < j < ops.len() && (#[trigger] ops[j]).0 == k && ops[j].1.is_none();
            }
        } else {
            assert forall|i: int|
                0 <= i < pre.len() && (#[trigger] pre[i]).0 == k && pre[i].1.is_some() implies exists|j: int|
                    i < j < pre.len() && (#[trigger] pre[j]).0 == k && pre[j].1.is_none() by {
                assert(ops[i] == pre[i]);
                let j = choose|j: int| i < j < ops.len() && (#[trigger] ops[j]).0 == k && ops[j].1.is_none();
                assert(j != n);
                assert(pre[j] == ops[j]);
            }
            law_absent_unless_inserted(pre, k);
        }
    }
}

/// A lookup right after a removal of the same key gives `None`.
pub proof fn law_get_after_remove<K, V>(m: Map<K, V>, k: K)
    ensures
        lookup(m.remove(k), k) == None::<V>,
{
}

/// Filtering a map keeps a subset of its entries, each with a value that the
/// predicate accepts, so the result is no larger.
pub proof fn law_filter_subset<K, V, F: Fn(V) -> bool>(src: Map<K, V>, dst: Map<K, V>, f: F)
    requires
        src.dom().finite(),
        filtered(src, dst, f),
    ensures
        dst.dom().subset_of(src.dom()),
        dst.dom().finite(),
        dst.len() <= src.len(),
        forall|k: K| #[trigger] dst.contains_key(k) ==> dst[k] == src[k] && f.ensures((dst[k],), true),
{
    vstd::set_lib::lemma_len_subset(dst.dom(), src.dom());
}

proof fn lemma_pick_sub<V, F: Fn(V) -> bool>(s: Seq<V>, keep: Seq<bool>, f: F)
    requires
        verdicts(s, keep, f),
    ensures
        pick(s, keep).len() <= s.len(),
        forall|j: int|
            0 <= j < pick(s, keep).len() ==> s.contains(#[trigger] pick(s, keep)[j]) && f.ensures(
                (pick(s, keep)[j],),
                true,
            ),
    decreases s.len(),
{
    if s.len() > 0 {
        let s0 = s.drop_last();
        let k0 = keep.drop_last();
        assert forall|i: int| 0 <= i < s0.len() implies f.ensures((s0[i],), #[trigger] k0[i]) by {
            assert(s0[i] == s[i] && k0[i] == keep[i]);
        }
        lemma_pick_sub(s0, k0, f);
        let p = pick(s, keep);
        let p0 = pick(s0, k0);
        assert forall|j: int| 0 <= j < p.len() implies s.contains(#[trigger] p[j]) && f.ensures(
            (p[j],),
            true,
        ) by {
            if j < p0.len() {
                assert(p[j] == p0[j]);
                let t = choose|t: int| 0 <= t < s0.len() && s0[t] == p0[j];
                assert(s[t] == p[j]);
            } else {
                assert(s[s.len() - 1] == p[j]);
                assert(keep[s.len() - 1]);
            }
        }
    }
}

/// Filtering a sequence keeps values of the source, each accepted by the
/// predicate, and the result is no longer.
pub proof fn law_vec_filter_subset<V, F: Fn(V) -> bool>(src: Seq<V>, dst: Seq<V>, f: F)
    requires
        filtered_seq(src, dst, f),
    ensures
        dst.len() <= src.len(),
        forall|j: int| 0 <= j < dst.len() ==> src.contains(#[trigger] dst[j]) && f.ensures((dst[j],), true),
{
    let keep = choose|keep: Seq<bool>| verdicts(src, keep, f) && dst == pick(src, keep);
    lemma_pick_sub(src, keep, f);
}

/// Where `f` computes the spec predicate `p`, filtering by `f` is `Seq::filter` by `p`.
pub proof fn law_vec_filter_is_seq_filter<V, F: Fn(V) -> bool>(
    src: Seq<V>,
    dst: Seq<V>,
    f: F,
    p: spec_fn(V) -> bool,
)
    requires
        filtered_seq(src, dst, f),
        forall|v: V, b: bool| #[trigger] f.ensures((v,), b) ==> b == p(v),
    ensures
        dst == src.filter(p),
{
    let keep = choose|keep: Seq<bool>| verdicts(src, keep, f) && dst == pick(src, keep);
    lemma_pick_filter(src, keep, f, p);
}

proof fn lemma_pick_filter<V, F: Fn(V) -> bool>(s: Seq<V>, keep: Seq<bool>, f: F, p: spec_fn(V) -> bool)
    requires
        verdicts(s, keep, f),
        forall|v: V, b: bool| #[trigger] f.ensures((v,), b) ==> b == p(v),
    ensures
        pick(s, keep) == s.filter(p),
    decreases s.len(),
{
    reveal(Seq::filter);
    if s.len() > 0 {
        let s0 = s.drop_last();
        let k0 = keep.drop_last();
        assert forall|i: int| 0 <= i < s0.len() implies f.ensures((s0[i],), #[trigger] k0[i]) by {
            assert(s0[i] == s[i] && k0[i] == keep[i]);
        }
        lemma_pick_filter(s0, k0, f, p);
        assert(f.ensures((s[s.len() - 1],), keep[s.len() - 1]));
    }
}

/// Mapping a map keeps its key set, hence its size.
pub proof fn law_map_preserves_keys<K, V, W, F: Fn(V) -> W>(src: Map<K, V>, dst: Map<K, W>, f: F)
    requires
        src.dom().finite(),
        mapped(src, dst, f),
    ensures
        dst.dom() == src.dom(),
        dst.len() == src.len(),
{
}

/// Mapping a map by the identity gives an equal map.
pub proof fn law_map_identity<K, V, F: Fn(V) -> V>(src: Map<K, V>, dst: Map<K, V>, f: F)
    requires
        mapped(src, dst, f),
        forall|v: V, w: V| #[trigger] f.ensures((v,), w) ==> w == v,
    ensures
        dst == src,
{
    assert(dst =~= src);
}

/// Mapping a sequence by the identity gives an equal sequence.
pub proof fn law_vec_map_identity<V, F: Fn(V) -> V>(src: Seq<V>, dst: Seq<V>, f: F)
    requires
        mapped_seq(src, dst, f),
        forall|v: V, w: V| #[trigger] f.ensures((v,), w) ==> w == v,
    ensures
        dst == src,
{
    assert(dst =~= src);
}

} // verus!
