//! Stable sorting by a key made of a number and a text: the lists the
//! client shows (modules, schemes, runs) are ordered this way.
use crate::plan::{lemma_lex_total, lemma_lex_trans, lex_lt, str_lt};
use vstd::prelude::*;

verus! {

/// Item `i` comes before item `j`: by the number, then by the text, then by
/// the order in which the items came.
pub open spec fn rank_before(keys: Seq<(u128, Seq<char>)>, i: int, j: int) -> bool {
    ||| keys[i].0 < keys[j].0
    ||| keys[i].0 == keys[j].0 && lex_lt(keys[i].1, keys[j].1)
    ||| keys[i].0 == keys[j].0 && keys[i].1 == keys[j].1 && i < j
}

/// `p` lists each of `0..n` exactly once.
pub open spec fn is_perm(p: Seq<int>, n: int) -> bool {
    &&& p.len() == n
    &&& forall|k: int| 0 <= k < n ==> 0 <= #[trigger] p[k] < n
    &&& forall|k: int, m: int| 0 <= k < m < n ==> #[trigger] p[k] != #[trigger] p[m]
}

/// `r` is `s` rearranged so that each item comes before the ones after it.
pub open spec fn sorted_by_rank<T>(s: Seq<T>, keys: Seq<(u128, Seq<char>)>, r: Seq<T>) -> bool {
    exists|p: Seq<int>|
        #[trigger] is_perm(p, s.len() as int) && r.len() == s.len() && (forall|k: int|
            0 <= k < r.len() ==> #[trigger] r[k] == s[p[k]]) && (forall|k: int, m: int|
            0 <= k < m < r.len() ==> rank_before(keys, #[trigger] p[k], #[trigger] p[m]))
}

/// The views of keys.
pub open spec fn keys_view(keys: Seq<(u128, String)>) -> Seq<(u128, Seq<char>)> {
    keys.map_values(|k: (u128, String)| (k.0, k.1@))
}

/// The order is total on different items.
proof fn lemma_rank_total(keys: Seq<(u128, Seq<char>)>, i: int, j: int)
    requires
        i != j,
    ensures
        rank_before(keys, i, j) || rank_before(keys, j, i),
{
    if keys[i].0 == keys[j].0 && keys[i].1 != keys[j].1 {
        lemma_lex_total(keys[i].1, keys[j].1);
    }
}

/// The order is transitive.
proof fn lemma_rank_trans(keys: Seq<(u128, Seq<char>)>, i: int, j: int, k: int)
    requires
        rank_before(keys, i, j),
        rank_before(keys, j, k),
    ensures
        rank_before(keys, i, k),
{
    if keys[i].0 == keys[j].0 && keys[j].0 == keys[k].0 {
        if lex_lt(keys[i].1, keys[j].1) && lex_lt(keys[j].1, keys[k].1) {
            lemma_lex_trans(keys[i].1, keys[j].1, keys[k].1);
        }
    }
}

/// Whether the key `a` (of item `ia`) comes before the key `b` (of item `ib`).
fn rank_less(a: &(u128, String), ia: usize, b: &(u128, String), ib: usize) -> (r: bool)
    ensures
        r == ({
            ||| a.0 < b.0
            ||| a.0 == b.0 && lex_lt(a.1@, b.1@)
            ||| a.0 == b.0 && a.1@ == b.1@ && ia < ib
        }),
{
    if a.0 != b.0 {
        return a.0 < b.0;
    }
    if str_lt(a.1.as_str(), b.1.as_str()) {
        return true;
    }
    if str_lt(b.1.as_str(), a.1.as_str()) {
        return false;
    }
    proof {
        if a.1@ != b.1@ {
            lemma_lex_total(a.1@, b.1@);
        }
    }
    ia < ib
}

/// `items` sorted by their keys, stably.
pub fn sort_by_rank<T>(items: Vec<T>, keys: Vec<(u128, String)>) -> (r: Vec<T>)
    requires
        keys@.len() == items@.len(),
    ensures
        sorted_by_rank(items@, keys_view(keys@), r@),
{
    let ghost s = items@;
    let ghost kv = keys_view(keys@);
    let ghost n = s.len() as int;
    let mut rest = items;
    let mut idx: Vec<usize> = Vec::new();
    let mut t: usize = 0;
    while t < rest.len()
        invariant
            rest@ == s,
            t <= s.len(),
            idx@.len() == t,
            forall|q: int| 0 <= q < t ==> #[trigger] idx@[q] == q,
        decreases s.len() - t,
    {
        idx.push(t);
        t += 1;
    }
    let mut out: Vec<T> = Vec::new();
    let ghost mut p: Seq<int> = Seq::empty();
    while rest.len() > 0
        invariant
            n == s.len(),
            kv == keys_view(keys@),
            kv.len() == n,
            rest@.len() == idx@.len(),
            out@.len() == p.len(),
            p.len() + rest@.len() == n,
            forall|q: int| 0 <= q < rest@.len() ==> 0 <= #[trigger] idx@[q] < n && rest@[q] == s[idx@[q] as int],
            forall|q: int, w: int| 0 <= q < w < idx@.len() ==> #[trigger] idx@[q] != #[trigger] idx@[w],
            forall|k: int| 0 <= k < p.len() ==> 0 <= #[trigger] p[k] < n && out@[k] == s[p[k]],
            forall|k: int, m: int| 0 <= k < m < p.len() ==> #[trigger] p[k] != #[trigger] p[m],
            forall|k: int, q: int| 0 <= k < p.len() && 0 <= q < idx@.len() ==> #[trigger] p[k] != #[trigger] idx@[q] as int,
            forall|k: int, m: int| 0 <= k < m < p.len() ==> rank_before(kv, #[trigger] p[k], #[trigger] p[m]),
            forall|k: int, q: int|
                0 <= k < p.len() && 0 <= q < idx@.len() ==> rank_before(kv, #[trigger] p[k], #[trigger] idx@[q] as int),
        decreases rest@.len(),
    {
        let mut best: usize = 0;
        let mut q: usize = 1;
        while q < rest.len()
            invariant
                kv == keys_view(keys@),
                kv.len() == n,
                rest@.len() == idx@.len(),
                forall|w: int| 0 <= w < rest@.len() ==> 0 <= #[trigger] idx@[w] < n && rest@[w] == s[idx@[w] as int],
                forall|w: int, v: int| 0 <= w < v < idx@.len() ==> #[trigger] idx@[w] != #[trigger] idx@[v],
                rest@.len() > 0,
                best < rest@.len(),
                1 <= q <= rest@.len(),
                best < q,
                forall|w: int| 0 <= w < q && w != best ==> rank_before(kv, idx@[best as int] as int, #[trigger] idx@[w] as int),
            decreases rest@.len() - q,
        {
            let iq = idx[q];
            let ib = idx[best];
            assert(kv[iq as int] == (keys@[iq as int].0, keys@[iq as int].1@));
            assert(kv[ib as int] == (keys@[ib as int].0, keys@[ib as int].1@));
            if rank_less(&keys[iq], iq, &keys[ib], ib) {
                proof {
                    assert(rank_before(kv, iq as int, ib as int));
                    assert forall|w: int| 0 <= w < q + 1 && w != q implies rank_before(kv, iq as int, #[trigger] idx@[w] as int) by {
                        if w != best {
                            lemma_rank_trans(kv, iq as int, ib as int, idx@[w] as int);
                        }
                    }
                }
                best = q;
            } else {
                proof {
                    lemma_rank_total(kv, iq as int, ib as int);
                }
            }
            q += 1;
        }
        let ghost chosen = idx@[best as int] as int;
        let ghost rest0 = rest@;
        let ghost idx0 = idx@;
        let item = rest.remove(best);
        idx.remove(best);
        out.push(item);
        proof {
            p = p.push(chosen);
            assert forall|q: int| 0 <= q < idx@.len() implies rank_before(kv, chosen, #[trigger] idx@[q] as int) by {
                if q < best {
                    assert(idx@[q] == idx0[q]);
                } else {
                    assert(idx@[q] == idx0[q + 1]);
                }
            }
            assert forall|q: int| 0 <= q < rest@.len() implies 0 <= #[trigger] idx@[q] < n && rest@[q] == s[idx@[q] as int] by {
                if q < best {
                    assert(idx@[q] == idx0[q] && rest@[q] == rest0[q]);
                } else {
                    assert(idx@[q] == idx0[q + 1] && rest@[q] == rest0[q + 1]);
                }
            }
            assert forall|q: int, w: int| 0 <= q < w < idx@.len() implies #[trigger] idx@[q] != #[trigger] idx@[w] by {
                let q0 = if q < best { q } else { q + 1 };
                let w0 = if w < best { w } else { w + 1 };
                assert(idx@[q] == idx0[q0] && idx@[w] == idx0[w0]);
            }
            assert forall|k: int, q: int| 0 <= k < p.len() && 0 <= q < idx@.len() implies #[trigger] p[k] != #[trigger] idx@[q] as int by {
                let q0 = if q < best { q } else { q + 1 };
                assert(idx@[q] == idx0[q0]);
                if k == p.len() - 1 {
                    assert(q0 != best);
                }
            }
            assert forall|k: int, q: int| 0 <= k < p.len() && 0 <= q < idx@.len() implies rank_before(kv, #[trigger] p[k], #[trigger] idx@[q] as int) by {
                let q0 = if q < best { q } else { q + 1 };
                assert(idx@[q] == idx0[q0]);
            }
            assert forall|k: int, m: int| 0 <= k < m < p.len() implies rank_before(kv, #[trigger] p[k], #[trigger] p[m]) by {
                if m == p.len() - 1 {
                    assert(p[m] == idx0[best as int]);
                }
            }
            assert forall|k: int, m: int| 0 <= k < m < p.len() implies #[trigger] p[k] != #[trigger] p[m] by {
                if m == p.len() - 1 {
                    assert(p[m] == idx0[best as int]);
                }
            }
        }
    }
    proof {
        assert(is_perm(p, n));
    }
    out
}

} // verus!
