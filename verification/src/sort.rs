//! Stable sorting of listings by a key of a flag (set first) and two
//! strings, as the module and service listings are ordered.
use vstd::prelude::*;

use crate::text::{lt_chars, str_lt, chars_of};

verus! {

// ---------------------------------------------------------------------------
// The order of strings
// ---------------------------------------------------------------------------

pub proof fn lemma_str_lt_irreflexive(a: Seq<char>)
    ensures
        !str_lt(a, a),
    decreases a.len(),
{
    if a.len() > 0 {
        lemma_str_lt_irreflexive(a.drop_first());
    }
}

pub proof fn lemma_str_lt_transitive(a: Seq<char>, b: Seq<char>, c: Seq<char>)
    requires
        str_lt(a, b),
        str_lt(b, c),
    ensures
        str_lt(a, c),
    decreases a.len(),
{
    if a.len() > 0 && b.len() > 0 && c.len() > 0 {
        if a[0] == b[0] && b[0] == c[0] {
            lemma_str_lt_transitive(a.drop_first(), b.drop_first(), c.drop_first());
        }
    }
}

pub proof fn lemma_str_lt_total(a: Seq<char>, b: Seq<char>)
    ensures
        a == b || str_lt(a, b) || str_lt(b, a),
        !(str_lt(a, b) && str_lt(b, a)),
    decreases a.len(),
{
    if a.len() > 0 && b.len() > 0 {
        if a[0] == b[0] {
            lemma_str_lt_total(a.drop_first(), b.drop_first());
            if a.drop_first() == b.drop_first() {
                assert(a == seq![a[0]] + a.drop_first());
                assert(b == seq![b[0]] + b.drop_first());
            }
        }
    } else if a.len() == 0 && b.len() == 0 {
        assert(a == b);
    }
}

// ---------------------------------------------------------------------------
// Keys
// ---------------------------------------------------------------------------

/// A sort key: entries with the flag set come first, then the order of the
/// first string, then that of the second.
#[derive(Debug, Clone)]
pub struct SortKey {
    pub flag: bool,
    pub first: String,
    pub second: String,
}

pub open spec fn key_lt(x: SortKey, y: SortKey) -> bool {
    ||| x.flag && !y.flag
    ||| x.flag == y.flag && str_lt(x.first@, y.first@)
    ||| x.flag == y.flag && x.first@ == y.first@ && str_lt(x.second@, y.second@)
}

pub open spec fn key_eq(x: SortKey, y: SortKey) -> bool {
    x.flag == y.flag && x.first@ == y.first@ && x.second@ == y.second@
}

pub proof fn lemma_key_order(x: SortKey, y: SortKey, z: SortKey)
    ensures
        !key_lt(x, x),
        key_lt(x, y) ==> !key_lt(y, x),
        key_eq(x, y) || key_lt(x, y) || key_lt(y, x),
        key_lt(x, y) && key_lt(y, z) ==> key_lt(x, z),
        !key_lt(x, y) && !key_lt(y, x) ==> key_eq(x, y),
        key_eq(x, y) ==> (key_lt(x, z) == key_lt(y, z)) && (key_lt(z, x) == key_lt(z, y)),
{
    lemma_str_lt_irreflexive(x.first@);
    lemma_str_lt_irreflexive(x.second@);
    lemma_str_lt_total(x.first@, y.first@);
    lemma_str_lt_total(x.second@, y.second@);
    if key_lt(x, y) && key_lt(y, z) {
        if str_lt(x.first@, y.first@) && str_lt(y.first@, z.first@) {
            lemma_str_lt_transitive(x.first@, y.first@, z.first@);
        }
        if str_lt(x.second@, y.second@) && str_lt(y.second@, z.second@) {
            lemma_str_lt_transitive(x.second@, y.second@, z.second@);
        }
    }
}

pub fn key_less(x: &SortKey, y: &SortKey) -> (b: bool)
    ensures
        b == key_lt(*x, *y),
{
    if x.flag != y.flag {
        return x.flag;
    }
    let xf = chars_of(x.first.as_str());
    let yf = chars_of(y.first.as_str());
    if lt_chars(&xf, &yf) {
        return true;
    }
    if lt_chars(&yf, &xf) {
        proof {
            lemma_str_lt_total(x.first@, y.first@);
        }
        return false;
    }
    proof {
        lemma_str_lt_total(x.first@, y.first@);
    }
    lt_chars(&chars_of(x.second.as_str()), &chars_of(y.second.as_str()))
}

// ---------------------------------------------------------------------------
// Sorting
// ---------------------------------------------------------------------------

/// `perm` is a permutation of `0..n`.
pub open spec fn is_permutation(perm: Seq<int>, n: int) -> bool {
    &&& perm.len() == n
    &&& forall|k: int| 0 <= k < n ==> 0 <= #[trigger] perm[k] < n
    &&& forall|a: int, b: int| 0 <= a < b < n ==> perm[a] != perm[b]
}

/// `out` is `items` sorted stably by `keys`: `out[k]` is `items[perm[k]]`,
/// the keys do not decrease, and items with equal keys keep their order.
pub open spec fn stably_sorted<T>(
    items: Seq<T>,
    keys: Seq<SortKey>,
    out: Seq<T>,
    out_keys: Seq<SortKey>,
    perm: Seq<int>,
) -> bool {
    &&& out.len() == items.len()
    &&& out_keys.len() == items.len()
    &&& is_permutation(perm, items.len() as int)
    &&& forall|k: int| 0 <= k < out.len() ==> out[k] == items[#[trigger] perm[k]]
    &&& forall|k: int| 0 <= k < out.len() ==> out_keys[k] == keys[#[trigger] perm[k]]
    &&& forall|a: int, b: int| 0 <= a < b < out.len() ==> !key_lt(#[trigger] out_keys[b], #[trigger] out_keys[a])
    &&& forall|a: int, b: int|
        0 <= a < b < out.len() && key_eq(#[trigger] out_keys[a], #[trigger] out_keys[b]) ==> perm[a] < perm[b]
}

/// Sorts `items` stably by `keys` (`keys[i]` is the key of `items[i]`).
pub fn sort_by_keys<T>(items: Vec<T>, keys: Vec<SortKey>) -> (r: (Vec<T>, Vec<SortKey>))
    requires
        items@.len() == keys@.len(),
    ensures
        exists|perm: Seq<int>| stably_sorted(items@, keys@, r.0@, r.1@, perm),
{
    let ghost src = items@;
    let ghost src_keys = keys@;
    let n = items.len();
    let mut out: Vec<T> = Vec::new();
    let mut out_keys: Vec<SortKey> = Vec::new();
    let mut rest = items;
    let mut rest_keys = keys;
    let ghost mut perm: Seq<int> = Seq::empty();
    // Take the items from the back so that each is moved, not copied; the
    // item taken is inserted before every item of equal key placed so far,
    // which all came later in the input.
    while rest.len() > 0
        invariant
            rest@.len() == rest_keys@.len(),
            rest@ == src.take(rest@.len() as int),
            rest_keys@ == src_keys.take(rest@.len() as int),
            src.len() == src_keys.len() == n,
            out@.len() == out_keys@.len() == perm.len() == n - rest@.len(),
            forall|k: int| 0 <= k < perm.len() ==> rest@.len() <= #[trigger] perm[k] < n,
            forall|a: int, b: int| 0 <= a < b < perm.len() ==> perm[a] != perm[b],
            forall|k: int| 0 <= k < out@.len() ==> out@[k] == src[#[trigger] perm[k]],
            forall|k: int| 0 <= k < out@.len() ==> out_keys@[k] == src_keys[#[trigger] perm[k]],
            forall|a: int, b: int| 0 <= a < b < out@.len() ==> !key_lt(#[trigger] out_keys@[b], #[trigger] out_keys@[a]),
            forall|a: int, b: int|
                0 <= a < b < out@.len() && key_eq(#[trigger] out_keys@[a], #[trigger] out_keys@[b]) ==> perm[a] < perm[b],
        decreases rest@.len(),
    {
        let x = rest.pop().unwrap();
        let xk = rest_keys.pop().unwrap();
        let ghost xi: int = rest@.len() as int;
        assert(x == src[xi] && xk == src_keys[xi]);
        // The place: after every placed key that is smaller than `xk`.
        let mut p: usize = 0;
        while p < out_keys.len() && key_less(&out_keys[p], &xk)
            invariant
                0 <= p <= out_keys@.len(),
                forall|q: int| 0 <= q < p ==> key_lt(#[trigger] out_keys@[q], xk),
            decreases out_keys@.len() - p,
        {
            p += 1;
        }
        proof {
            // Every key from `p` on is at least `xk`.
            assert forall|q: int| p <= q < out_keys@.len() implies !key_lt(#[trigger] out_keys@[q], xk) by {
                if q > p {
                    lemma_key_order(out_keys@[p as int], out_keys@[q], xk);
                    lemma_key_order(out_keys@[q], out_keys@[p as int], xk);
                    lemma_key_order(xk, out_keys@[p as int], out_keys@[q]);
                }
            }
        }
        let ghost old_out = out@;
        let ghost old_keys = out_keys@;
        let ghost old_perm = perm;
        out.insert(p, x);
        out_keys.insert(p, xk);
        proof {
            perm = old_perm.insert(p as int, xi);
            assert forall|k: int| 0 <= k < perm.len() implies rest@.len() <= #[trigger] perm[k] < n by {
                if k < p {
                    assert(perm[k] == old_perm[k]);
                } else if k > p {
                    assert(perm[k] == old_perm[k - 1]);
                }
            }
            assert forall|a: int, b: int| 0 <= a < b < perm.len() implies perm[a] != perm[b] by {
                if a != p && b != p {
                    let oa = if a < p { a } else { a - 1 };
                    let ob = if b < p { b } else { b - 1 };
                    assert(perm[a] == old_perm[oa]);
                    assert(perm[b] == old_perm[ob]);
                } else if a == p {
                    let ob = b - 1;
                    assert(perm[b] == old_perm[ob]);
                } else {
                    assert(perm[a] == old_perm[a]);
                }
            }
            assert forall|k: int| 0 <= k < out@.len() implies out@[k] == src[#[trigger] perm[k]] by {
                if k < p {
                    assert(out@[k] == old_out[k] && perm[k] == old_perm[k]);
                } else if k > p {
                    assert(out@[k] == old_out[k - 1] && perm[k] == old_perm[k - 1]);
                }
            }
            assert forall|k: int| 0 <= k < out@.len() implies out_keys@[k] == src_keys[#[trigger] perm[k]] by {
                if k < p {
                    assert(out_keys@[k] == old_keys[k] && perm[k] == old_perm[k]);
                } else if k > p {
                    assert(out_keys@[k] == old_keys[k - 1] && perm[k] == old_perm[k - 1]);
                }
            }
            assert forall|a: int, b: int| 0 <= a < b < out@.len() implies !key_lt(
                #[trigger] out_keys@[b],
                #[trigger] out_keys@[a],
            ) by {
                let ka = out_keys@[a];
                let kb = out_keys@[b];
                if a != p && b != p {
                    let oa = if a < p { a } else { a - 1 };
                    let ob = if b < p { b } else { b - 1 };
                    assert(ka == old_keys[oa] && kb == old_keys[ob]);
                } else if a == p {
                    assert(kb == old_keys[b - 1]);
                    lemma_key_order(kb, xk, xk);
                } else {
                    assert(ka == old_keys[a]);
                    lemma_key_order(xk, ka, xk);
                }
            }
            assert forall|a: int, b: int|
                0 <= a < b < out@.len() && key_eq(#[trigger] out_keys@[a], #[trigger] out_keys@[b]) implies perm[a]
                < perm[b] by {
                let ka = out_keys@[a];
                let kb = out_keys@[b];
                if a != p && b != p {
                    let oa = if a < p { a } else { a - 1 };
                    let ob = if b < p { b } else { b - 1 };
                    assert(ka == old_keys[oa] && kb == old_keys[ob]);
                    assert(perm[a] == old_perm[oa] && perm[b] == old_perm[ob]);
                } else if a == p {
                    assert(kb == old_keys[b - 1]);
                    assert(perm[b] == old_perm[b - 1]);
                } else {
                    assert(ka == old_keys[a]);
                    lemma_key_order(ka, xk, xk);
                    assert(key_lt(ka, xk));
                }
            }
        }
    }
    proof {
        assert(is_permutation(perm, n as int));
        assert(rest@.len() == 0);
    }
    let r = (out, out_keys);
    assert(stably_sorted(src, src_keys, r.0@, r.1@, perm));
    r
}

} // verus!
