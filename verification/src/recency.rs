//! Newest-first listing: rows ordered by a timestamp, latest first, and among
//! equal timestamps the row stored later first.

use vstd::prelude::*;

verus! {

/// Row `a` is listed before row `b`.
pub open spec fn newer_first(keys: Seq<i64>, a: int, b: int) -> bool {
    keys[a] > keys[b] || (keys[a] == keys[b] && a > b)
}

/// `p` lists every row position of `keys` once, newest first.
pub open spec fn is_recency_order(keys: Seq<i64>, p: Seq<int>) -> bool {
    &&& p.len() == keys.len()
    &&& forall|i: int| 0 <= i < p.len() ==> 0 <= #[trigger] p[i] < keys.len()
    &&& forall|i: int, j: int|
        0 <= i < j < p.len() ==> newer_first(keys, #[trigger] p[i], #[trigger] p[j])
}

/// Positions as integers.
pub open spec fn positions(p: Seq<usize>) -> Seq<int> {
    p.map_values(|x: usize| x as int)
}

/// The row positions of `keys`, newest first.
pub fn recency_order(keys: &Vec<i64>) -> (p: Vec<usize>)
    ensures
        is_recency_order(keys@, positions(p@)),
{
    let mut p: Vec<usize> = Vec::new();
    let mut k: usize = 0;
    while k < keys.len()
        invariant
            k <= keys@.len(),
            p@.len() == k,
            forall|i: int| 0 <= i < p@.len() ==> #[trigger] p@[i] < k,
            forall|i: int, j: int|
                0 <= i < j < p@.len() ==> newer_first(keys@, #[trigger] p@[i] as int, #[trigger] p@[j] as int),
        decreases keys@.len() - k,
    {
        let key = keys[k];
        let mut q: usize = 0;
        while q < p.len() && keys[p[q]] > key
            invariant
                q <= p@.len(),
                p@.len() == k,
                k < keys@.len(),
                key == keys@[k as int],
                forall|i: int| 0 <= i < p@.len() ==> #[trigger] p@[i] < k,
                forall|i: int| 0 <= i < q ==> keys@[#[trigger] p@[i] as int] > key,
            decreases p@.len() - q,
        {
            q = q + 1;
        }
        let ghost old_p = p@;
        p.insert(q, k);
        proof {
            assert forall|i: int| 0 <= i < p@.len() implies #[trigger] p@[i] < k + 1 by {
                if i < q {
                    assert(p@[i] == old_p[i]);
                } else if i > q {
                    assert(p@[i] == old_p[i - 1]);
                }
            }
            assert forall|i: int, j: int| 0 <= i < j < p@.len() implies newer_first(
                keys@,
                #[trigger] p@[i] as int,
                #[trigger] p@[j] as int,
            ) by {
                if j < q {
                    assert(p@[i] == old_p[i] && p@[j] == old_p[j]);
                } else if j == q {
                    assert(p@[i] == old_p[i]);
                } else if i < q {
                    assert(p@[i] == old_p[i] && p@[j] == old_p[j - 1]);
                } else if i == q {
                    assert(p@[j] == old_p[j - 1]);
                    assert(keys@[old_p[q as int] as int] <= key);
                    if q < j - 1 {
                        assert(newer_first(keys@, old_p[q as int] as int, old_p[j - 1] as int));
                    }
                } else {
                    assert(p@[i] == old_p[i - 1] && p@[j] == old_p[j - 1]);
                }
            }
        }
        k = k + 1;
    }
    proof {
        let ps = positions(p@);
        assert forall|i: int| 0 <= i < ps.len() implies 0 <= #[trigger] ps[i] < keys@.len() by {
            assert(ps[i] == p@[i] as int);
        }
        assert forall|i: int, j: int| 0 <= i < j < ps.len() implies newer_first(
            keys@,
            #[trigger] ps[i],
            #[trigger] ps[j],
        ) by {
            assert(ps[i] == p@[i] as int && ps[j] == p@[j] as int);
        }
    }
    p
}

/// A newest-first order lists every row position.
pub proof fn lemma_recency_order_covers(keys: Seq<i64>, p: Seq<int>)
    requires
        is_recency_order(keys, p),
    ensures
        forall|x: int| 0 <= x < keys.len() ==> #[trigger] p.contains(x),
{
    assert forall|i: int, j: int| 0 <= i < p.len() && 0 <= j < p.len() && i != j implies p[i] != p[j] by {
        if i < j {
            assert(newer_first(keys, p[i], p[j]));
        } else {
            assert(newer_first(keys, p[j], p[i]));
        }
    }
    assert(p.no_duplicates());
    p.unique_seq_to_set();
    let range = vstd::set_lib::set_int_range(0, keys.len() as int);
    vstd::set_lib::lemma_int_range(0, keys.len() as int);
    assert(p.to_set().subset_of(range));
    vstd::set_lib::lemma_len_subset(p.to_set(), range);
    vstd::set_lib::lemma_subset_equality(p.to_set(), range);
    assert forall|x: int| 0 <= x < keys.len() implies #[trigger] p.contains(x) by {
        assert(range.contains(x));
        assert(p.to_set().contains(x));
    }
}

/// Two newest-first orders agree on their first `m` positions.
proof fn lemma_recency_orders_agree(keys: Seq<i64>, p: Seq<int>, q: Seq<int>, m: int)
    requires
        is_recency_order(keys, p),
        is_recency_order(keys, q),
        0 <= m <= p.len(),
    ensures
        forall|j: int| 0 <= j < m ==> #[trigger] p[j] == q[j],
    decreases m,
{
    if m > 0 {
        lemma_recency_orders_agree(keys, p, q, m - 1);
        let i = m - 1;
        if p[i] != q[i] {
            let x = p[i];
            let y = q[i];
            lemma_recency_order_covers(keys, p);
            lemma_recency_order_covers(keys, q);
            assert(p.contains(y));
            assert(q.contains(x));
            let a = choose|a: int| 0 <= a < p.len() && p[a] == y;
            let b = choose|b: int| 0 <= b < q.len() && q[b] == x;
            if a < i {
                assert(p[a] == q[a]);
                assert(newer_first(keys, q[a], q[i]));
            } else if b < i {
                assert(p[b] == q[b]);
                assert(newer_first(keys, p[b], p[i]));
            } else {
                assert(newer_first(keys, p[i], p[a]));
                assert(newer_first(keys, q[i], q[b]));
            }
        }
    }
}

/// There is one newest-first order of a table's rows, so a listing is determined by
/// the rows.
pub proof fn lemma_recency_order_unique(keys: Seq<i64>, p: Seq<int>, q: Seq<int>)
    requires
        is_recency_order(keys, p),
        is_recency_order(keys, q),
    ensures
        p == q,
{
    lemma_recency_orders_agree(keys, p, q, p.len() as int);
    assert(p =~= q);
}

} // verus!
