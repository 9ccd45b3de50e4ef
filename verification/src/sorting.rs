//! Stable sorting by text keys, in the order `String`'s `Ord` defines (code point by
//! code point, a proper prefix first).

use vstd::prelude::*;
use crate::text::{chars_of, views};

verus! {

/// `a <= b` in lexicographic order of code points.
pub open spec fn key_le(a: Seq<char>, b: Seq<char>) -> bool
    decreases a.len(),
{
    if a.len() == 0 {
        true
    } else if b.len() == 0 {
        false
    } else if a[0] < b[0] {
        true
    } else if a[0] > b[0] {
        false
    } else {
        key_le(a.drop_first(), b.drop_first())
    }
}

pub proof fn lemma_key_le_total(a: Seq<char>, b: Seq<char>)
    ensures
        key_le(a, b) || key_le(b, a),
    decreases a.len(),
{
    if a.len() > 0 && b.len() > 0 && a[0] == b[0] {
        lemma_key_le_total(a.drop_first(), b.drop_first());
    }
}

pub proof fn lemma_key_le_refl(a: Seq<char>)
    ensures
        key_le(a, a),
    decreases a.len(),
{
    if a.len() > 0 {
        lemma_key_le_refl(a.drop_first());
    }
}

pub proof fn lemma_key_le_antisym(a: Seq<char>, b: Seq<char>)
    requires
        key_le(a, b),
        key_le(b, a),
    ensures
        a == b,
    decreases a.len(),
{
    if a.len() > 0 && b.len() > 0 {
        assert(a[0] == b[0]);
        lemma_key_le_antisym(a.drop_first(), b.drop_first());
        assert(a =~= seq![a[0]] + a.drop_first());
        assert(b =~= seq![b[0]] + b.drop_first());
    }
}

pub proof fn lemma_key_le_trans(a: Seq<char>, b: Seq<char>, c: Seq<char>)
    requires
        key_le(a, b),
        key_le(b, c),
    ensures
        key_le(a, c),
    decreases a.len(),
{
    if a.len() > 0 && b.len() > 0 && c.len() > 0 {
        if a[0] == b[0] && b[0] == c[0] {
            lemma_key_le_trans(a.drop_first(), b.drop_first(), c.drop_first());
        }
    }
}

/// `a` may come before `b`: ascending `a <= b`, descending `a >= b`.
pub open spec fn in_order(a: Seq<char>, b: Seq<char>, descending: bool) -> bool {
    if descending {
        key_le(b, a)
    } else {
        key_le(a, b)
    }
}

pub proof fn lemma_in_order_props(a: Seq<char>, b: Seq<char>, c: Seq<char>, d: bool)
    ensures
        in_order(a, b, d) || in_order(b, a, d),
        in_order(a, a, d),
        in_order(a, b, d) && in_order(b, c, d) ==> in_order(a, c, d),
{
    lemma_key_le_total(a, b);
    lemma_key_le_refl(a);
    if in_order(a, b, d) && in_order(b, c, d) {
        if d {
            lemma_key_le_trans(c, b, a);
        } else {
            lemma_key_le_trans(a, b, c);
        }
    }
}

/// `key_le(a, b)`.
pub fn key_le_exec(a: &str, b: &str) -> (r: bool)
    ensures
        r == key_le(a@, b@),
{
    let x = chars_of(a);
    let y = chars_of(b);
    let mut i: usize = 0;
    assert(x@.skip(0) =~= x@);
    assert(y@.skip(0) =~= y@);
    while i < x.len() && i < y.len() && x[i] == y[i]
        invariant
            i <= x.len(),
            i <= y.len(),
            key_le(x@.skip(i as int), y@.skip(i as int)) == key_le(a@, b@),
            x@ == a@,
            y@ == b@,
        decreases x.len() - i,
    {
        assert(x@.skip(i as int).drop_first() =~= x@.skip(i + 1));
        assert(y@.skip(i as int).drop_first() =~= y@.skip(i + 1));
        i = i + 1;
    }
    if i == x.len() {
        return true;
    }
    if i == y.len() {
        return false;
    }
    assert(x@.skip(i as int)[0] == x[i as int]);
    assert(y@.skip(i as int)[0] == y[i as int]);
    x[i] < y[i]
}

/// `in_order(a, b, descending)`.
pub fn in_order_exec(a: &str, b: &str, descending: bool) -> (r: bool)
    ensures
        r == in_order(a@, b@, descending),
{
    if descending {
        key_le_exec(b, a)
    } else {
        key_le_exec(a, b)
    }
}

/// `out` is `input` stably sorted by `keys` (the key of `input[i]` is `keys[i]`):
/// `perm` tells where each element came from, keys are in order, and equal keys keep
/// the order they came in.
pub open spec fn is_stable_sort<T>(
    input: Seq<T>,
    keys: Seq<Seq<char>>,
    out: Seq<T>,
    perm: Seq<int>,
    descending: bool,
) -> bool {
    &&& keys.len() == input.len()
    &&& perm.len() == input.len()
    &&& out.len() == input.len()
    &&& forall|p: int| 0 <= p < perm.len() ==> 0 <= #[trigger] perm[p] < input.len()
    &&& forall|p: int, q: int| 0 <= p < q < perm.len() ==> perm[p] != perm[q]
    &&& forall|p: int| 0 <= p < out.len() ==> #[trigger] out[p] == input[perm[p]]
    &&& forall|p: int, q: int|
        0 <= p < q < perm.len() ==> in_order(keys[perm[p]], keys[perm[q]], descending)
    &&& forall|p: int, q: int|
        0 <= p < q < perm.len() && keys[perm[p]] == keys[perm[q]] ==> perm[p] < perm[q]
}

/// Sorts `items` stably by `keys` (`keys[i]` is the key of `items[i]`), ascending or
/// descending.
pub fn stable_sort_by_keys<T>(items: Vec<T>, keys: &Vec<String>, descending: bool) -> (r: Vec<T>)
    requires
        items.len() == keys.len(),
    ensures
        exists|perm: Seq<int>| is_stable_sort(items@, views(keys@), r@, perm, descending),
{
    let ghost input = items@;
    let ghost kv = views(keys@);
    let n = items.len();
    let mut rest = items;
    let mut out: Vec<T> = Vec::new();
    let mut out_keys: Vec<usize> = Vec::new();
    let ghost mut perm: Seq<int> = Seq::empty();
    let mut k: usize = 0;
    while k < n
        invariant
            k <= n == input.len() == kv.len(),
            kv == views(keys@),
            rest@ == input.skip(k as int),
            out@.len() == k,
            perm.len() == k,
            out_keys@.len() == k,
            forall|p: int| 0 <= p < k ==> out_keys@[p] == perm[p],
            forall|p: int| 0 <= p < perm.len() ==> 0 <= #[trigger] perm[p] < k,
            forall|p: int, q: int| 0 <= p < q < perm.len() ==> perm[p] != perm[q],
            forall|p: int| 0 <= p < k ==> #[trigger] out@[p] == input[perm[p]],
            forall|p: int, q: int|
                0 <= p < q < perm.len() ==> in_order(kv[perm[p]], kv[perm[q]], descending),
            forall|p: int, q: int|
                0 <= p < q < perm.len() && kv[perm[p]] == kv[perm[q]] ==> perm[p] < perm[q],
        decreases n - k,
    {
        let x = rest.remove(0);
        assert(x == input[k as int]);
        assert(rest@ =~= input.skip(k + 1));
        let xk = keys[k].as_str();
        assert(xk@ == kv[k as int]);
        let mut pos: usize = 0;
        assert forall|p: int| 0 <= p < k implies out_keys@[p] < n by {
            assert(out_keys@[p] == perm[p]);
            assert(0 <= perm[p] < k);
        }
        while pos < out.len() && in_order_exec(keys[out_keys[pos]].as_str(), xk, descending)
            invariant
                pos <= out@.len() == k,
                k < n == kv.len(),
                kv == views(keys@),
                xk@ == kv[k as int],
                out_keys@.len() == k,
                forall|p: int| 0 <= p < k ==> out_keys@[p] == perm[p],
                forall|p: int| 0 <= p < k ==> out_keys@[p] < n,
                forall|p: int| 0 <= p < perm.len() ==> 0 <= #[trigger] perm[p] < k,
                perm.len() == k,
                forall|p: int| 0 <= p < pos ==> in_order(kv[perm[p]], kv[k as int], descending),
            decreases k - pos,
        {
            assert(kv[perm[pos as int]] == keys@[out_keys@[pos as int] as int]@);
            pos = pos + 1;
        }
        proof {
            if pos < k {
                assert(kv[perm[pos as int]] == keys@[out_keys@[pos as int] as int]@);
                assert(!in_order(kv[perm[pos as int]], kv[k as int], descending));
            }
        }
        let ghost old_perm = perm;
        let ghost old_out = out@;
        proof {
            // elements at and after pos come strictly after x
            assert forall|q: int| pos <= q < k implies !in_order(kv[old_perm[q]], kv[k as int], descending) by {
                if q > pos && in_order(kv[old_perm[q]], kv[k as int], descending) {
                    lemma_in_order_props(kv[old_perm[pos as int]], kv[old_perm[q]], kv[k as int], descending);
                }
            }
        }
        out.insert(pos, x);
        out_keys.insert(pos, k);
        proof {
            perm = old_perm.insert(pos as int, k as int);
            assert forall|p: int, q: int| 0 <= p < q < perm.len() implies in_order(
                kv[perm[p]],
                kv[perm[q]],
                descending,
            ) by {
                if p == pos {
                    lemma_in_order_props(kv[perm[q]], kv[k as int], kv[k as int], descending);
                } else if q == pos {
                } else {
                }
            }
            assert forall|p: int, q: int|
                0 <= p < q < perm.len() && kv[perm[p]] == kv[perm[q]] implies perm[p] < perm[q] by {
                if p == pos {
                    lemma_in_order_props(kv[perm[q]], kv[k as int], kv[k as int], descending);
                }
            }
            assert forall|p: int, q: int| 0 <= p < q < perm.len() implies perm[p] != perm[q] by {}
            assert forall|p: int| 0 <= p < k + 1 implies #[trigger] out@[p] == input[perm[p]] by {}
        }
        k = k + 1;
    }
    assert(is_stable_sort(input, kv, out@, perm, descending));
    out
}

} // verus!
