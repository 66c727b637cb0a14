//! Stable sorting by a `u16` key.
use vstd::prelude::*;

verus! {

/// Keys never decrease along the sequence.
pub open spec fn sorted_by<A>(s: Seq<A>, key: spec_fn(A) -> u16) -> bool {
    forall|i: int, j: int| 0 <= i < j < s.len() ==> key(s[i]) <= key(s[j])
}

/// The elements of `s` with key `k`, in order.
pub open spec fn with_key<A>(s: Seq<A>, key: spec_fn(A) -> u16, k: u16) -> Seq<A> {
    s.filter(key_is(key, k))
}

/// The test "the key is `k`".
pub open spec fn key_is<A>(key: spec_fn(A) -> u16, k: u16) -> spec_fn(A) -> bool {
    |x: A| key(x) == k
}

/// `r` is `s` stably sorted by `key`: keys ascend, and the elements of each key keep their
/// order from `s`.
pub open spec fn is_stable_sort<A>(r: Seq<A>, s: Seq<A>, key: spec_fn(A) -> u16) -> bool {
    &&& sorted_by(r, key)
    &&& forall|k: u16| #[trigger] with_key(r, key, k) == with_key(s, key, k)
}

/// The views of the elements of `s`.
pub open spec fn seq_views<T: View>(s: Seq<T>) -> Seq<T::V> {
    s.map_values(|x: T| x@)
}

/// Filtering distributes over a split of the sequence.
proof fn lemma_filter_split<A>(a: Seq<A>, p: int, f: spec_fn(A) -> bool)
    requires
        0 <= p <= a.len(),
    ensures
        a.filter(f) == a.take(p).filter(f) + a.skip(p).filter(f),
{
    assert(a =~= a.take(p) + a.skip(p));
    Seq::filter_distributes_over_add(a.take(p), a.skip(p), f);
}

/// Filtering a sequence with an inserted element.
proof fn lemma_filter_insert<A>(a: Seq<A>, p: int, x: A, f: spec_fn(A) -> bool)
    requires
        0 <= p <= a.len(),
    ensures
        a.insert(p, x).filter(f) == a.take(p).filter(f) + (if f(x) {
            seq![x]
        } else {
            Seq::<A>::empty()
        }) + a.skip(p).filter(f),
{
    let b = a.insert(p, x);
    assert(b =~= a.take(p) + seq![x] + a.skip(p));
    Seq::filter_distributes_over_add(a.take(p) + seq![x], a.skip(p), f);
    Seq::filter_distributes_over_add(a.take(p), seq![x], f);
    reveal_with_fuel(Seq::filter, 2);
    assert(seq![x].drop_last() =~= Seq::<A>::empty());
}

/// Sorts `items` stably by `keys`, where `keys[i]` is the key of `items[i]`.
pub fn stable_sort<T: View>(items: Vec<T>, keys: Vec<u16>, Ghost(key): Ghost<spec_fn(T::V) -> u16>) -> (r: Vec<T>)
    requires
        keys@.len() == items@.len(),
        forall|i: int| 0 <= i < items@.len() ==> keys@[i] == key(#[trigger] items@[i]@),
    ensures
        is_stable_sort(seq_views(r@), seq_views(items@), key),
{
    let ghost all = seq_views(items@);
    let ghost all_keys = keys@;
    let mut items = items;
    let mut out: Vec<T> = Vec::new();
    let mut out_keys: Vec<u16> = Vec::new();
    let mut n: usize = 0;
    let total = items.len();
    assert(all.take(0) =~= Seq::<T::V>::empty());
    assert forall|k: u16| #[trigger] with_key(seq_views(out@), key, k) == with_key(all.take(0), key, k) by {
        assert(seq_views(out@) =~= Seq::<T::V>::empty());
    }
    while items.len() > 0
        invariant
            n + items@.len() == total,
            total == all.len(),
            all_keys.len() == all.len(),
            keys@ == all_keys,
            forall|i: int| 0 <= i < all.len() ==> all_keys[i] == key(#[trigger] all[i]),
            seq_views(items@) == all.skip(n as int),
            out_keys@.len() == out@.len(),
            forall|i: int| 0 <= i < out@.len() ==> out_keys@[i] == key(#[trigger] seq_views(out@)[i]),
            sorted_by(seq_views(out@), key),
            forall|k: u16| #[trigger] with_key(seq_views(out@), key, k) == with_key(all.take(n as int), key, k),
        decreases items@.len(),
    {
        let ghost before_items = items@;
        let x = items.remove(0);
        let ghost xv = x@;
        proof {
            assert(xv == seq_views(before_items)[0]);
            assert(xv == all[n as int]);
            assert(items@ =~= before_items.skip(1));
            assert(seq_views(items@) =~= seq_views(before_items).skip(1));
            assert(seq_views(items@) =~= all.skip(n + 1));
        }
        let kx = keys[n];
        assert(kx == key(xv));
        let mut p: usize = 0;
        while p < out_keys.len() && out_keys[p] <= kx
            invariant
                p <= out_keys@.len(),
                out_keys@.len() == out@.len(),
                forall|i: int| 0 <= i < p ==> out_keys@[i] <= kx,
            decreases out_keys.len() - p,
        {
            p = p + 1;
        }
        let ghost ov = seq_views(out@);
        let ghost ok = out_keys@;
        proof {
            if p < out_keys.len() {
                assert(key(ov[p as int]) > kx);
            }
        }
        out.insert(p, x);
        out_keys.insert(p, kx);
        proof {
            let nv = seq_views(out@);
            assert(nv =~= ov.insert(p as int, xv));
            assert forall|i: int, j: int| 0 <= i < j < nv.len() implies key(nv[i]) <= key(nv[j]) by {
                if i < p {
                    assert(nv[i] == ov[i]);
                } else if i > p {
                    assert(nv[i] == ov[i - 1]);
                }
                if j < p {
                    assert(nv[j] == ov[j]);
                } else if j > p {
                    assert(nv[j] == ov[j - 1]);
                    assert(key(ov[p as int]) > kx);
                    if j - 1 > p {
                        assert(key(ov[p as int]) <= key(ov[j - 1]));
                    }
                }
                if i < p {
                    assert(ok[i] <= kx);
                    assert(ok[i] == key(ov[i]));
                }
            }
            assert forall|i: int| 0 <= i < out@.len() implies out_keys@[i] == key(#[trigger] nv[i]) by {
                if i < p {
                    assert(nv[i] == ov[i]);
                } else if i > p {
                    assert(nv[i] == ov[i - 1]);
                }
            }
            assert(all.take(n + 1) =~= all.take(n as int).push(xv));
            assert forall|k: u16| #[trigger] with_key(nv, key, k) == with_key(all.take(n + 1), key, k) by {
                let f = |y: T::V| key(y) == k;
                lemma_filter_insert(ov, p as int, xv, f);
                lemma_filter_split(ov, p as int, f);
                all.take(n as int).lemma_filter_push(xv, f);
                assert(with_key(ov, key, k) == with_key(all.take(n as int), key, k));
                if key(xv) == k {
                    assert(ov.skip(p as int).filter(f) =~= Seq::<T::V>::empty()) by {
                        let q = ov.skip(p as int).filter(f);
                        if q.len() > 0 {
                            ov.skip(p as int).lemma_filter_contains_rev(f, q[0]);
                            let w = choose|w: int| 0 <= w < ov.skip(p as int).len() && ov.skip(p as int)[w] == q[0];
                            assert(ov.skip(p as int)[w] == ov[p + w]);
                            if w > 0 {
                                assert(key(ov[p as int]) <= key(ov[p + w]));
                            }
                            ov.skip(p as int).lemma_filter_pred(f, 0);
                        }
                    }
                    assert(with_key(nv, key, k) =~= with_key(ov, key, k).push(xv));
                } else {
                    assert(with_key(nv, key, k) =~= with_key(ov, key, k));
                }
            }
        }
        n = n + 1;
    }
    assert(all.take(n as int) =~= all);
    out
}

/// The element at `i` is among the elements of its key.
proof fn lemma_with_key_contains<A>(s: Seq<A>, key: spec_fn(A) -> u16, i: int)
    requires
        0 <= i < s.len(),
    ensures
        with_key(s, key, key(s[i])).contains(s[i]),
        with_key(s, key, key(s[i])).len() > 0,
{
    s.lemma_filter_contains(key_is(key, key(s[i])), i);
}

/// Some element of `s` has key `k` when the elements of key `k` are not empty.
proof fn lemma_with_key_witness<A>(s: Seq<A>, key: spec_fn(A) -> u16, k: u16) -> (j: int)
    requires
        with_key(s, key, k).len() > 0,
    ensures
        0 <= j < s.len(),
        key(s[j]) == k,
{
    let f = key_is(key, k);
    let e = s.filter(f)[0];
    s.lemma_filter_pred(f, 0);
    assert(s.filter(f).contains(e));
    s.lemma_filter_contains_rev(f, e);
    let j = choose|j: int| 0 <= j < s.len() && s[j] == e;
    j
}

/// The elements of key `k` after a push.
proof fn lemma_with_key_push<A>(d: Seq<A>, l: A, key: spec_fn(A) -> u16, k: u16)
    ensures
        with_key(d.push(l), key, k) == (if key(l) == k {
            with_key(d, key, k).push(l)
        } else {
            with_key(d, key, k)
        }),
{
    d.lemma_filter_push(l, key_is(key, k));
}

/// A sequence of fewer than two elements is its own stable sort.
pub proof fn lemma_short_is_sorted<A>(s: Seq<A>, key: spec_fn(A) -> u16)
    requires
        s.len() < 2,
    ensures
        is_stable_sort(s, s, key),
{
}

/// Two sequences sorted by `key` whose elements of each key come in the same order are
/// equal.
pub proof fn lemma_sorted_same_keys_equal<A>(r1: Seq<A>, r2: Seq<A>, key: spec_fn(A) -> u16)
    requires
        sorted_by(r1, key),
        sorted_by(r2, key),
        forall|k: u16| #[trigger] with_key(r1, key, k) == with_key(r2, key, k),
    ensures
        r1 == r2,
    decreases r1.len() + r2.len(),
{
    if r1.len() == 0 || r2.len() == 0 {
        if r1.len() > 0 {
            lemma_with_key_contains(r1, key, 0);
            let k = key(r1[0]);
            assert(with_key(r1, key, k) == with_key(r2, key, k));
            assert(r2 =~= Seq::<A>::empty());
            assert(with_key(r2, key, k).len() == 0) by {
                reveal_with_fuel(Seq::filter, 1);
            }
        } else if r2.len() > 0 {
            lemma_with_key_contains(r2, key, 0);
            let k = key(r2[0]);
            assert(with_key(r1, key, k) == with_key(r2, key, k));
            assert(r1 =~= Seq::<A>::empty());
            assert(with_key(r1, key, k).len() == 0) by {
                reveal_with_fuel(Seq::filter, 1);
            }
        } else {
            assert(r1 =~= r2);
        }
    } else {
        let (l1, l2) = (r1.last(), r2.last());
        let (k1, k2) = (key(l1), key(l2));
        lemma_with_key_contains(r1, key, r1.len() - 1);
        lemma_with_key_contains(r2, key, r2.len() - 1);
        assert(with_key(r1, key, k1) == with_key(r2, key, k1));
        assert(with_key(r1, key, k2) == with_key(r2, key, k2));
        let j2 = lemma_with_key_witness(r2, key, k1);
        let j1 = lemma_with_key_witness(r1, key, k2);
        assert(key(r2[j2]) <= k2);
        assert(key(r1[j1]) <= k1);
        let k = k1;
        assert(k1 == k2);
        let (d1, d2) = (r1.drop_last(), r2.drop_last());
        assert(r1 =~= d1.push(l1));
        assert(r2 =~= d2.push(l2));
        assert forall|q: u16| #[trigger] with_key(d1, key, q) == with_key(d2, key, q) by {
            lemma_with_key_push(d1, l1, key, q);
            lemma_with_key_push(d2, l2, key, q);
            assert(with_key(r1, key, q) == with_key(r2, key, q));
            if q == k {
                assert(with_key(d1, key, q) =~= with_key(r1, key, q).drop_last());
                assert(with_key(d2, key, q) =~= with_key(r2, key, q).drop_last());
            }
        }
        lemma_with_key_push(d1, l1, key, k);
        lemma_with_key_push(d2, l2, key, k);
        assert(with_key(r1, key, k) == with_key(r2, key, k));
        assert(with_key(r1, key, k).last() == l1);
        assert(with_key(r2, key, k).last() == l2);
        lemma_sorted_same_keys_equal(d1, d2, key);
        assert(d1 == d2);
    }
}

/// A stable sort is unique: two stable sorts of the same sequence by the same key are
/// equal.
pub proof fn lemma_stable_sort_unique<A>(r1: Seq<A>, r2: Seq<A>, s: Seq<A>, key: spec_fn(A) -> u16)
    requires
        is_stable_sort(r1, s, key),
        is_stable_sort(r2, s, key),
    ensures
        r1 == r2,
{
    assert forall|k: u16| #[trigger] with_key(r1, key, k) == with_key(r2, key, k) by {
        assert(with_key(r1, key, k) == with_key(s, key, k));
        assert(with_key(r2, key, k) == with_key(s, key, k));
    }
    lemma_sorted_same_keys_equal(r1, r2, key);
}

/// Sorting a concatenation stably is sorting the concatenation of stable sorts of its
/// parts stably.
pub proof fn lemma_stable_sort_concat<A>(x: Seq<A>, a: Seq<A>, y: Seq<A>, b: Seq<A>, key: spec_fn(A) -> u16)
    requires
        is_stable_sort(x, a, key),
        is_stable_sort(y, b, key),
    ensures
        forall|k: u16| #[trigger] with_key(x + y, key, k) == with_key(a + b, key, k),
        forall|z: Seq<A>| is_stable_sort(z, a + b, key) <==> #[trigger] is_stable_sort(z, x + y, key),
{
    assert forall|k: u16| #[trigger] with_key(x + y, key, k) == with_key(a + b, key, k) by {
        Seq::filter_distributes_over_add(x, y, key_is(key, k));
        Seq::filter_distributes_over_add(a, b, key_is(key, k));
        assert(with_key(x, key, k) == with_key(a, key, k));
        assert(with_key(y, key, k) == with_key(b, key, k));
    }
}

} // verus!
