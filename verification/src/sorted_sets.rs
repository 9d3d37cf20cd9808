//! Sorting with duplicates removed, under a strict total order on a key:
//! the result is the one strictly increasing sequence of the input's keys.
use vstd::prelude::*;

verus! {

/// `lt` is a strict total order.
pub open spec fn strict_order<K>(lt: spec_fn(K, K) -> bool) -> bool {
    &&& forall|a: K| !(#[trigger] lt(a, a))
    &&& forall|a: K, b: K, c: K| #[trigger] lt(a, b) && #[trigger] lt(b, c) ==> lt(a, c)
    &&& forall|a: K, b: K| a != b ==> #[trigger] lt(a, b) || #[trigger] lt(b, a)
}

/// Every element of `s` comes strictly before the next under `lt`.
pub open spec fn strictly_sorted_by<K>(s: Seq<K>, lt: spec_fn(K, K) -> bool) -> bool {
    forall|i: int, j: int| 0 <= i < j < s.len() ==> #[trigger] lt(s[i], s[j])
}

/// `a` and `b` hold the same elements.
pub open spec fn same_elements<K>(a: Seq<K>, b: Seq<K>) -> bool {
    forall|x: K| a.contains(x) <==> b.contains(x)
}

/// The elements of `s`, each once, in increasing order under `lt`.
pub open spec fn sorted_set<K>(s: Seq<K>, lt: spec_fn(K, K) -> bool) -> Seq<K> {
    choose|t: Seq<K>| strictly_sorted_by(t, lt) && same_elements(t, s)
}

proof fn lemma_sorted_unique<K>(a: Seq<K>, b: Seq<K>, lt: spec_fn(K, K) -> bool)
    requires
        strict_order(lt),
        strictly_sorted_by(a, lt),
        strictly_sorted_by(b, lt),
        same_elements(a, b),
    ensures
        a == b,
    decreases a.len(),
{
    if a.len() == 0 {
        if b.len() > 0 {
            assert(b.contains(b[0]));
        }
        assert(a =~= b);
    } else {
        assert(a.contains(a[0]));
        assert(b.contains(a[0]));
        assert(b.len() > 0);
        assert(b.contains(b[0]));
        assert(a.contains(b[0]));
        let i = choose|i: int| 0 <= i < a.len() && a[i] == b[0];
        let j = choose|j: int| 0 <= j < b.len() && b[j] == a[0];
        if i > 0 {
            assert(lt(a[0], a[i]));
            if j > 0 {
                assert(lt(b[0], b[j]));
                assert(lt(a[0], a[0]));
            } else {
                assert(lt(a[0], a[0]));
            }
        }
        assert(a[0] == b[0]);
        let a1 = a.drop_first();
        let b1 = b.drop_first();
        assert(strictly_sorted_by(a1, lt)) by {
            assert forall|p: int, q: int| 0 <= p < q < a1.len() implies #[trigger] lt(a1[p], a1[q]) by {
                assert(lt(a[p + 1], a[q + 1]));
            }
        }
        assert(strictly_sorted_by(b1, lt)) by {
            assert forall|p: int, q: int| 0 <= p < q < b1.len() implies #[trigger] lt(b1[p], b1[q]) by {
                assert(lt(b[p + 1], b[q + 1]));
            }
        }
        assert forall|x: K| a1.contains(x) <==> b1.contains(x) by {
            if a1.contains(x) {
                let p = choose|p: int| 0 <= p < a1.len() && a1[p] == x;
                assert(lt(a[0], a[p + 1]));
                assert(x != a[0]);
                assert(a.contains(x));
                let q = choose|q: int| 0 <= q < b.len() && b[q] == x;
                assert(q != 0);
                assert(b1[q - 1] == x);
            }
            if b1.contains(x) {
                let p = choose|p: int| 0 <= p < b1.len() && b1[p] == x;
                assert(lt(b[0], b[p + 1]));
                assert(x != b[0]);
                assert(b.contains(x));
                let q = choose|q: int| 0 <= q < a.len() && a[q] == x;
                assert(q != 0);
                assert(a1[q - 1] == x);
            }
        }
        lemma_sorted_unique(a1, b1, lt);
        assert(a =~= seq![a[0]] + a1);
        assert(b =~= seq![b[0]] + b1);
    }
}

/// A strictly sorted sequence with the elements of `s` is `sorted_set(s)`.
pub proof fn lemma_is_sorted_set<K>(t: Seq<K>, s: Seq<K>, lt: spec_fn(K, K) -> bool)
    requires
        strict_order(lt),
        strictly_sorted_by(t, lt),
        same_elements(t, s),
    ensures
        sorted_set(s, lt) == t,
{
    let c = sorted_set(s, lt);
    assert(strictly_sorted_by(c, lt) && same_elements(c, s));
    assert(same_elements(c, t));
    lemma_sorted_unique(c, t, lt);
}

/// `t` with `x` placed before the elements after it, going from the end.
spec fn insert_sorted<K>(t: Seq<K>, x: K, lt: spec_fn(K, K) -> bool) -> Seq<K>
    decreases t.len(),
{
    if t.len() == 0 {
        seq![x]
    } else if lt(t.last(), x) {
        t.push(x)
    } else {
        insert_sorted(t.drop_last(), x, lt).push(t.last())
    }
}

proof fn lemma_insert_sorted<K>(t: Seq<K>, x: K, lt: spec_fn(K, K) -> bool)
    requires
        strict_order(lt),
        strictly_sorted_by(t, lt),
        !t.contains(x),
    ensures
        strictly_sorted_by(insert_sorted(t, x, lt), lt),
        forall|y: K| insert_sorted(t, x, lt).contains(y) <==> (t.contains(y) || y == x),
    decreases t.len(),
{
    let r = insert_sorted(t, x, lt);
    if t.len() == 0 {
        assert forall|y: K| r.contains(y) <==> (t.contains(y) || y == x) by {
            if r.contains(y) {
                assert(r[0] == x);
            }
            if y == x {
                assert(r[0] == y);
            }
        }
    } else {
        let last = t.last();
        let rest = t.drop_last();
        assert(last != x) by {
            assert(t[t.len() - 1] == last);
        }
        if lt(last, x) {
            assert forall|i: int, j: int| 0 <= i < j < r.len() implies #[trigger] lt(r[i], r[j]) by {
                if j == t.len() {
                    if i < t.len() - 1 {
                        assert(lt(t[i], t[t.len() - 1]));
                    }
                } else {
                    assert(r[i] == t[i] && r[j] == t[j]);
                }
            }
            assert forall|y: K| r.contains(y) <==> (t.contains(y) || y == x) by {
                if r.contains(y) {
                    let k = choose|k: int| 0 <= k < r.len() && r[k] == y;
                    if k < t.len() {
                        assert(t[k] == y);
                    }
                }
                if t.contains(y) {
                    let k = choose|k: int| 0 <= k < t.len() && t[k] == y;
                    assert(r[k] == y);
                }
                if y == x {
                    assert(r[r.len() - 1] == x);
                }
            }
        } else {
            assert(lt(x, last));
            assert(strictly_sorted_by(rest, lt)) by {
                assert forall|i: int, j: int| 0 <= i < j < rest.len() implies #[trigger] lt(rest[i], rest[j]) by {
                    assert(rest[i] == t[i] && rest[j] == t[j]);
                }
            }
            assert(!rest.contains(x)) by {
                if rest.contains(x) {
                    let k = choose|k: int| 0 <= k < rest.len() && rest[k] == x;
                    assert(t[k] == x);
                }
            }
            lemma_insert_sorted(rest, x, lt);
            let r0 = insert_sorted(rest, x, lt);
            assert(r == r0.push(last));
            assert forall|i: int, j: int| 0 <= i < j < r.len() implies #[trigger] lt(r[i], r[j]) by {
                if j == r.len() - 1 {
                    assert(r[j] == last);
                    assert(r0.contains(r0[i]));
                    assert(r[i] == r0[i]);
                    if r0[i] == x {
                    } else {
                        assert(rest.contains(r0[i]));
                        let k = choose|k: int| 0 <= k < rest.len() && rest[k] == r0[i];
                        assert(rest[k] == t[k]);
                        assert(t[t.len() - 1] == last);
                        assert(lt(t[k], t[t.len() - 1]));
                    }
                } else {
                    assert(r[i] == r0[i] && r[j] == r0[j]);
                }
            }
            assert forall|y: K| r.contains(y) <==> (t.contains(y) || y == x) by {
                if r.contains(y) {
                    let k = choose|k: int| 0 <= k < r.len() && r[k] == y;
                    if k < r0.len() {
                        assert(r0[k] == y);
                        assert(r0.contains(y));
                        if rest.contains(y) {
                            let m = choose|m: int| 0 <= m < rest.len() && rest[m] == y;
                            assert(t[m] == y);
                        }
                    } else {
                        assert(t[t.len() - 1] == y);
                    }
                }
                if t.contains(y) {
                    let k = choose|k: int| 0 <= k < t.len() && t[k] == y;
                    if k < rest.len() {
                        assert(rest[k] == y);
                        assert(rest.contains(y));
                        assert(r0.contains(y));
                        let m = choose|m: int| 0 <= m < r0.len() && r0[m] == y;
                        assert(r[m] == y);
                    } else {
                        assert(r[r.len() - 1] == y);
                    }
                }
                if y == x {
                    assert(r0.contains(x));
                    let m = choose|m: int| 0 <= m < r0.len() && r0[m] == x;
                    assert(r[m] == x);
                }
            }
        }
    }
}

/// Every sequence has a sorted set under a strict total order: it is
/// strictly sorted and holds the elements of the sequence.
pub proof fn lemma_sorted_set_exists<K>(s: Seq<K>, lt: spec_fn(K, K) -> bool)
    requires
        strict_order(lt),
    ensures
        strictly_sorted_by(sorted_set(s, lt), lt),
        same_elements(sorted_set(s, lt), s),
    decreases s.len(),
{
    if s.len() == 0 {
        assert(strictly_sorted_by(Seq::<K>::empty(), lt));
        assert(same_elements(Seq::<K>::empty(), s));
    } else {
        let rest = s.drop_last();
        let x = s.last();
        lemma_sorted_set_exists(rest, lt);
        let t0 = sorted_set(rest, lt);
        if t0.contains(x) {
            assert forall|y: K| t0.contains(y) <==> s.contains(y) by {
                if s.contains(y) {
                    let k = choose|k: int| 0 <= k < s.len() && s[k] == y;
                    if k < rest.len() {
                        assert(rest[k] == y);
                    }
                }
                if rest.contains(y) {
                    let k = choose|k: int| 0 <= k < rest.len() && rest[k] == y;
                    assert(s[k] == y);
                }
            }
            assert(strictly_sorted_by(t0, lt) && same_elements(t0, s));
        } else {
            lemma_insert_sorted(t0, x, lt);
            let t = insert_sorted(t0, x, lt);
            assert forall|y: K| t.contains(y) <==> s.contains(y) by {
                if s.contains(y) {
                    let k = choose|k: int| 0 <= k < s.len() && s[k] == y;
                    if k < rest.len() {
                        assert(rest[k] == y);
                    }
                }
                if rest.contains(y) {
                    let k = choose|k: int| 0 <= k < rest.len() && rest[k] == y;
                    assert(s[k] == y);
                }
                if y == x {
                    assert(s[s.len() - 1] == y);
                }
            }
            assert(strictly_sorted_by(t, lt) && same_elements(t, s));
        }
    }
}

/// `items` sorted by `key` under `lt`, keeping the first of equal keys:
/// the keys of the result are the sorted set of the keys of `items`.
pub fn sort_unique_by<T, K, F: Fn(&T, &T) -> bool>(
    items: Vec<T>,
    before: F,
    Ghost(key): Ghost<spec_fn(T) -> K>,
    Ghost(lt): Ghost<spec_fn(K, K) -> bool>,
) -> (r: Vec<T>)
    requires
        strict_order(lt),
        forall|a: &T, b: &T| #[trigger] before.requires((a, b)),
        forall|a: &T, b: &T, o: bool| before.ensures((a, b), o) ==> o == lt(key(*a), key(*b)),
    ensures
        r@.map_values(key) == sorted_set(items@.map_values(key), lt),
        strictly_sorted_by(r@.map_values(key), lt),
        same_elements(r@.map_values(key), items@.map_values(key)),
        forall|x: T| r@.contains(x) ==> items@.contains(x),
{
    let ghost orig = items@;
    let mut rest = items;
    let mut out: Vec<T> = Vec::new();
    while rest.len() > 0
        invariant
            strict_order(lt),
            forall|a: &T, b: &T| #[trigger] before.requires((a, b)),
            forall|a: &T, b: &T, o: bool| before.ensures((a, b), o) ==> o == lt(key(*a), key(*b)),
            strictly_sorted_by(out@.map_values(key), lt),
            forall|x: K| orig.map_values(key).contains(x) <==> (out@.map_values(key).contains(x) || rest@.map_values(key).contains(x)),
            forall|x: T| (out@.contains(x) || rest@.contains(x)) ==> orig.contains(x),
        decreases rest@.len(),
    {
        let ghost rest_before = rest@;
        let ghost out_before = out@;
        let item = rest.pop().unwrap();
        proof {
            assert(rest_before =~= rest@.push(item));
        }
        let mut p: usize = 0;
        while p < out.len() && before(&out[p], &item)
            invariant
                out@ == out_before,
                p <= out@.len(),
                forall|a: &T, b: &T| #[trigger] before.requires((a, b)),
                forall|a: &T, b: &T, o: bool| before.ensures((a, b), o) ==> o == lt(key(*a), key(*b)),
                forall|q: int| 0 <= q < p ==> #[trigger] lt(key(out@[q]), key(item)),
            decreases out@.len() - p,
        {
            p = p + 1;
        }
        let ghost ob = out_before.map_values(key);
        let duplicate = p < out.len() && !before(&item, &out[p]);
        proof {
            if p < out_before.len() {
                assert(!lt(key(out_before[p as int]), key(item)));
            }
            if duplicate {
                assert(key(item) == key(out_before[p as int]));
            }
        }
        if !duplicate {
            out.insert(p, item);
        }
        proof {
            let k = key(item);
            let oa = out@.map_values(key);
            if duplicate {
                assert(out@ == out_before);
                assert(ob[p as int] == k);
                assert(ob.contains(k));
            } else {
                assert(out@ == out_before.insert(p as int, item));
                assert(oa =~= ob.insert(p as int, k));
                if p < ob.len() {
                    assert(lt(k, ob[p as int]));
                }
                assert forall|i: int, j: int| 0 <= i < j < oa.len() implies #[trigger] lt(oa[i], oa[j]) by {
                    if j < p {
                        assert(lt(ob[i], ob[j]));
                    } else if j == p {
                        assert(lt(ob[i], k));
                    } else if i < p {
                        assert(oa[j] == ob[j - 1]);
                        assert(lt(ob[i], k));
                        if j - 1 > p {
                            assert(lt(ob[p as int], ob[j - 1]));
                        }
                    } else if i == p {
                        assert(oa[j] == ob[j - 1]);
                        if j - 1 > p {
                            assert(lt(ob[p as int], ob[j - 1]));
                        }
                    } else {
                        assert(oa[i] == ob[i - 1]);
                        assert(oa[j] == ob[j - 1]);
                        assert(lt(ob[i - 1], ob[j - 1]));
                    }
                }
            }
            let ra = rest@.map_values(key);
            let rb = rest_before.map_values(key);
            assert(rb =~= ra.push(k));
            assert forall|x: K| orig.map_values(key).contains(x) <==> (oa.contains(x) || ra.contains(x)) by {
                if ob.contains(x) {
                    let j = choose|j: int| 0 <= j < ob.len() && ob[j] == x;
                    if duplicate || j < p {
                        assert(oa[j] == x);
                    } else {
                        assert(oa[j + 1] == x);
                    }
                }
                if rb.contains(x) {
                    let j = choose|j: int| 0 <= j < rb.len() && rb[j] == x;
                    if j < ra.len() {
                        assert(ra[j] == x);
                    } else if duplicate {
                        assert(oa[p as int] == x);
                    } else {
                        assert(oa[p as int] == x);
                    }
                }
                if oa.contains(x) {
                    let j = choose|j: int| 0 <= j < oa.len() && oa[j] == x;
                    if duplicate || j < p {
                        assert(ob[j] == x);
                    } else if j == p {
                        assert(rb[ra.len() as int] == x);
                    } else {
                        assert(ob[j - 1] == x);
                    }
                }
                if ra.contains(x) {
                    let j = choose|j: int| 0 <= j < ra.len() && ra[j] == x;
                    assert(rb[j] == x);
                }
            }
            assert forall|x: T| (out@.contains(x) || rest@.contains(x)) implies orig.contains(x) by {
                if out@.contains(x) {
                    let j = choose|j: int| 0 <= j < out@.len() && out@[j] == x;
                    if duplicate || j < p {
                        assert(out_before.contains(x));
                    } else if j == p {
                        assert(rest_before[rest@.len() as int] == x);
                        assert(rest_before.contains(x));
                    } else {
                        assert(out_before[j - 1] == x);
                        assert(out_before.contains(x));
                    }
                }
                if rest@.contains(x) {
                    let j = choose|j: int| 0 <= j < rest@.len() && rest@[j] == x;
                    assert(rest_before[j] == x);
                    assert(rest_before.contains(x));
                }
            }
        }
    }
    proof {
        assert(rest@.map_values(key) =~= Seq::<K>::empty());
        lemma_is_sorted_set(out@.map_values(key), orig.map_values(key), lt);
    }
    out
}

} // verus!
