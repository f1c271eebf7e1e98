//! Stable sorting, expressed as a permutation of indices.
use vstd::prelude::*;
use crate::text::{chars_lt, lemma_seq_lt_total, lemma_seq_lt_transitive, seq_lt};

verus! {

/// Index `i` comes before index `j` when its key is smaller, or the keys are
/// equal and `i` came first (stability).
pub open spec fn before_str(keys: Seq<Seq<char>>, i: int, j: int) -> bool {
    seq_lt(keys[i], keys[j]) || (keys[i] == keys[j] && i < j)
}

/// Same as `before_str`, for integer keys.
pub open spec fn before_u64(keys: Seq<u64>, i: int, j: int) -> bool {
    keys[i] < keys[j] || (keys[i] == keys[j] && i < j)
}

/// `p` lists every index of `0..n` exactly once.
pub open spec fn is_index_perm(p: Seq<usize>, n: nat) -> bool {
    &&& p.len() == n
    &&& forall|a: int| 0 <= a < p.len() ==> #[trigger] p[a] < n
    &&& forall|a: int, b: int| 0 <= a < b < p.len() ==> p[a] != p[b]
    &&& forall|k: int| 0 <= k < n ==> #[trigger] occurs_in(p, k)
}

/// Index `k` is listed in `p`.
pub open spec fn occurs_in(p: Seq<usize>, k: int) -> bool {
    exists|a: int| 0 <= a < p.len() && p[a] == k
}

/// `p` is the stable ascending order of `keys`.
pub open spec fn is_stable_order_str(keys: Seq<Seq<char>>, p: Seq<usize>) -> bool {
    &&& is_index_perm(p, keys.len())
    &&& forall|a: int, b: int|
        0 <= a < b < p.len() ==> before_str(keys, #[trigger] p[a] as int, #[trigger] p[b] as int)
}

/// `p` is the stable ascending order of `keys`.
pub open spec fn is_stable_order_u64(keys: Seq<u64>, p: Seq<usize>) -> bool {
    &&& is_index_perm(p, keys.len())
    &&& forall|a: int, b: int|
        0 <= a < b < p.len() ==> before_u64(keys, #[trigger] p[a] as int, #[trigger] p[b] as int)
}

/// Stable ascending order of string keys (as a permutation of indices).
pub fn stable_order_str(keys: &Vec<Vec<char>>) -> (p: Vec<usize>)
    ensures
        is_stable_order_str(keys@.map_values(|k: Vec<char>| k@), p@),
{
    let ghost ks = keys@.map_values(|k: Vec<char>| k@);
    let mut out: Vec<usize> = Vec::new();
    let mut i: usize = 0;
    while i < keys.len()
        invariant
            i <= keys.len(),
            ks == keys@.map_values(|k: Vec<char>| k@),
            is_index_perm(out@, i as nat),
            forall|a: int, b: int|
                0 <= a < b < out@.len() ==> before_str(ks, #[trigger] out@[a] as int, #[trigger] out@[b] as int),
        decreases keys.len() - i,
    {
        let mut pos: usize = 0;
        while pos < out.len()
            invariant
                i < keys.len(),
                ks == keys@.map_values(|k: Vec<char>| k@),
                pos <= out.len(),
                is_index_perm(out@, i as nat),
                forall|q: int| 0 <= q < pos ==> !seq_lt(ks[i as int], #[trigger] ks[out@[q] as int]),
            ensures
                pos <= out.len(),
                forall|q: int| 0 <= q < pos ==> !seq_lt(ks[i as int], #[trigger] ks[out@[q] as int]),
                pos < out.len() ==> seq_lt(ks[i as int], ks[out@[pos as int] as int]),
            decreases out.len() - pos,
        {
            if chars_lt(&keys[i], &keys[out[pos]]) {
                break;
            }
            pos = pos + 1;
        }
        let ghost old_out = out@;
        proof {
            assert forall|q: int| pos <= q < old_out.len() implies before_str(ks, i as int, #[trigger] old_out[q] as int) by {
                // the first element at or after pos has a strictly larger key
                assert(seq_lt(ks[i as int], ks[old_out[pos as int] as int]));
                if q > pos {
                    assert(before_str(ks, old_out[pos as int] as int, old_out[q] as int));
                    if seq_lt(ks[old_out[pos as int] as int], ks[old_out[q] as int]) {
                        lemma_seq_lt_transitive(ks[i as int], ks[old_out[pos as int] as int], ks[old_out[q] as int]);
                    }
                }
            }
            assert forall|q: int| 0 <= q < pos implies before_str(ks, #[trigger] old_out[q] as int, i as int) by {
                lemma_seq_lt_total(ks[i as int], ks[old_out[q] as int]);
            }
        }
        out.insert(pos, i);
        proof {
            assert forall|a: int, b: int| 0 <= a < b < out@.len() implies before_str(ks, #[trigger] out@[a] as int, #[trigger] out@[b] as int) by {
                if a < pos && b < pos {
                    assert(out@[a] == old_out[a] && out@[b] == old_out[b]);
                } else if a < pos && b == pos {
                } else if a < pos {
                    assert(out@[b] == old_out[b - 1]);
                } else if a == pos {
                    assert(out@[b] == old_out[b - 1]);
                } else {
                    assert(out@[a] == old_out[a - 1] && out@[b] == old_out[b - 1]);
                }
            }
            assert forall|a: int, b: int| 0 <= a < b < out@.len() implies out@[a] != out@[b] by {
                if a < pos && b < pos {
                } else if a < pos && b == pos {
                } else if a < pos {
                    assert(out@[b] == old_out[b - 1]);
                } else if a == pos {
                    assert(out@[b] == old_out[b - 1]);
                } else {
                    assert(out@[a] == old_out[a - 1] && out@[b] == old_out[b - 1]);
                }
            }
            assert forall|k: int| 0 <= k < i + 1 implies #[trigger] occurs_in(out@, k) by {
                if k == i {
                    assert(out@[pos as int] == k);
                } else {
                    assert(occurs_in(old_out, k));
                    let a = choose|a: int| 0 <= a < old_out.len() && old_out[a] == k;
                    assert(out@ == old_out.insert(pos as int, i));
                    if a < pos {
                        assert(old_out.insert(pos as int, i)[a] == old_out[a]);
                        assert(out@[a] == k);
                    } else {
                        assert(old_out.insert(pos as int, i)[a + 1] == old_out[a]);
                        assert(out@[a + 1] == k);
                    }
                }
            }
            assert forall|a: int| 0 <= a < out@.len() implies #[trigger] out@[a] < i + 1 by {
                if a < pos {
                } else if a > pos {
                    assert(out@[a] == old_out[a - 1]);
                }
            }
        }
        i = i + 1;
    }
    out
}

/// Stable ascending order of integer keys (as a permutation of indices).
pub fn stable_order_u64(keys: &Vec<u64>) -> (p: Vec<usize>)
    ensures
        is_stable_order_u64(keys@, p@),
{
    let mut out: Vec<usize> = Vec::new();
    let mut i: usize = 0;
    while i < keys.len()
        invariant
            i <= keys.len(),
            is_index_perm(out@, i as nat),
            forall|a: int, b: int|
                0 <= a < b < out@.len() ==> before_u64(keys@, #[trigger] out@[a] as int, #[trigger] out@[b] as int),
        decreases keys.len() - i,
    {
        let mut pos: usize = 0;
        while pos < out.len()
            invariant
                i < keys.len(),
                pos <= out.len(),
                is_index_perm(out@, i as nat),
                forall|q: int| 0 <= q < pos ==> keys@[#[trigger] out@[q] as int] <= keys@[i as int],
            ensures
                pos <= out.len(),
                forall|q: int| 0 <= q < pos ==> keys@[#[trigger] out@[q] as int] <= keys@[i as int],
                pos < out.len() ==> keys@[i as int] < keys@[out@[pos as int] as int],
            decreases out.len() - pos,
        {
            if keys[i] < keys[out[pos]] {
                break;
            }
            pos = pos + 1;
        }
        let ghost old_out = out@;
        proof {
            assert forall|q: int| pos <= q < old_out.len() implies before_u64(keys@, i as int, #[trigger] old_out[q] as int) by {
                if q > pos {
                    assert(before_u64(keys@, old_out[pos as int] as int, old_out[q] as int));
                }
            }
        }
        out.insert(pos, i);
        proof {
            assert forall|a: int, b: int| 0 <= a < b < out@.len() implies before_u64(keys@, #[trigger] out@[a] as int, #[trigger] out@[b] as int) by {
                if a < pos && b < pos {
                    assert(out@[a] == old_out[a] && out@[b] == old_out[b]);
                } else if a < pos && b == pos {
                    assert(out@[a] == old_out[a]);
                } else if a < pos {
                    assert(out@[b] == old_out[b - 1]);
                } else if a == pos {
                    assert(out@[b] == old_out[b - 1]);
                } else {
                    assert(out@[a] == old_out[a - 1] && out@[b] == old_out[b - 1]);
                }
            }
            assert forall|a: int, b: int| 0 <= a < b < out@.len() implies out@[a] != out@[b] by {
                if a < pos && b < pos {
                } else if a < pos && b == pos {
                } else if a < pos {
                    assert(out@[b] == old_out[b - 1]);
                } else if a == pos {
                    assert(out@[b] == old_out[b - 1]);
                } else {
                    assert(out@[a] == old_out[a - 1] && out@[b] == old_out[b - 1]);
                }
            }
            assert forall|k: int| 0 <= k < i + 1 implies #[trigger] occurs_in(out@, k) by {
                if k == i {
                    assert(out@[pos as int] == k);
                } else {
                    assert(occurs_in(old_out, k));
                    let a = choose|a: int| 0 <= a < old_out.len() && old_out[a] == k;
                    assert(out@ == old_out.insert(pos as int, i));
                    if a < pos {
                        assert(old_out.insert(pos as int, i)[a] == old_out[a]);
                        assert(out@[a] == k);
                    } else {
                        assert(old_out.insert(pos as int, i)[a + 1] == old_out[a]);
                        assert(out@[a + 1] == k);
                    }
                }
            }
            assert forall|a: int| 0 <= a < out@.len() implies #[trigger] out@[a] < i + 1 by {
                if a < pos {
                } else if a > pos {
                    assert(out@[a] == old_out[a - 1]);
                }
            }
        }
        i = i + 1;
    }
    out
}

/// Two stable ascending orders of the same integer keys agree below `a`.
proof fn lemma_stable_order_u64_agree(keys: Seq<u64>, p: Seq<usize>, q: Seq<usize>, a: int)
    requires
        is_stable_order_u64(keys, p),
        is_stable_order_u64(keys, q),
        0 <= a <= p.len(),
    ensures
        forall|b: int| 0 <= b < a ==> p[b] == q[b],
    decreases a,
{
    if a > 0 {
        lemma_stable_order_u64_agree(keys, p, q, a - 1);
        let x = a - 1;
        if p[x] != q[x] {
            assert(q[x] < keys.len());
            assert(occurs_in(p, q[x] as int));
            let c = choose|c: int| 0 <= c < p.len() && p[c] == q[x];
            if c < x {
                assert(q[c] == p[c]);
            }
            assert(c > x);
            assert(before_u64(keys, p[x] as int, p[c] as int));
            assert(p[x] < keys.len());
            assert(occurs_in(q, p[x] as int));
            let d = choose|d: int| 0 <= d < q.len() && q[d] == p[x];
            if d < x {
                assert(p[d] == q[d]);
            }
            assert(d > x);
            assert(before_u64(keys, q[x] as int, q[d] as int));
        }
    }
}

/// The stable ascending order of integer keys is unique.
pub proof fn lemma_stable_order_u64_unique(keys: Seq<u64>, p: Seq<usize>, q: Seq<usize>)
    requires
        is_stable_order_u64(keys, p),
        is_stable_order_u64(keys, q),
    ensures
        p == q,
{
    lemma_stable_order_u64_agree(keys, p, q, p.len() as int);
    assert(p =~= q);
}

} // verus!
