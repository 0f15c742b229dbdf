//! Stable ordering of items by an integer key.
use vstd::prelude::*;

verus! {

/// `r` lists each index of `keys` once, by ascending key, ties in index order.
pub open spec fn is_stable_order(keys: Seq<i64>, r: Seq<usize>) -> bool {
    &&& r.len() == keys.len()
    &&& forall|i: int| 0 <= i < r.len() ==> r[i] < keys.len()
    &&& forall|i: int, j: int| 0 <= i < j < r.len() ==> r[i] != r[j]
    &&& forall|i: int, j: int| 0 <= i < j < r.len() ==> keys[r[i] as int] <= keys[r[j] as int]
    &&& forall|i: int, j: int|
        0 <= i < j < r.len() && keys[r[i] as int] == keys[r[j] as int] ==> r[i] < r[j]
    &&& forall|x: int| 0 <= x < keys.len() ==> #[trigger] listed(r, x)
}

/// `x` occurs in `r`.
pub open spec fn listed(r: Seq<usize>, x: int) -> bool {
    exists|q: int| 0 <= q < r.len() && r[q] == x
}

/// The indices of `keys` sorted by ascending key; equal keys keep their order.
pub fn stable_order(keys: &Vec<i64>) -> (r: Vec<usize>)
    ensures
        is_stable_order(keys@, r@),
{
    let mut r: Vec<usize> = Vec::new();
    let mut n: usize = 0;
    while n < keys.len()
        invariant
            n <= keys@.len(),
            r@.len() == n,
            forall|i: int| 0 <= i < r@.len() ==> r@[i] < n,
            forall|i: int, j: int| 0 <= i < j < r@.len() ==> r@[i] != r@[j],
            forall|i: int, j: int| 0 <= i < j < r@.len() ==> keys@[r@[i] as int] <= keys@[r@[j] as int],
            forall|i: int, j: int|
                0 <= i < j < r@.len() && keys@[r@[i] as int] == keys@[r@[j] as int] ==> r@[i] < r@[j],
            forall|x: int| 0 <= x < n ==> #[trigger] listed(r@, x),
        decreases keys@.len() - n,
    {
        let k = keys[n];
        let mut p: usize = 0;
        while p < r.len() && keys[r[p]] <= k
            invariant
                p <= r@.len(),
                r@.len() == n,
                n < keys@.len(),
                k == keys@[n as int],
                forall|i: int| 0 <= i < r@.len() ==> r@[i] < n,
                forall|i: int| 0 <= i < p ==> keys@[r@[i] as int] <= k,
            decreases r@.len() - p,
        {
            p += 1;
        }
        let ghost old_r = r@;
        r.insert(p, n);
        proof {
            assert(r@ == old_r.insert(p as int, n));
            assert forall|x: int| 0 <= x < n + 1 implies #[trigger] listed(r@, x) by {
                if x == n {
                    assert(r@[p as int] == x);
                } else {
                    assert(listed(old_r, x));
                    let q = choose|q: int| 0 <= q < old_r.len() && old_r[q] == x;
                    if q < p {
                        assert(r@[q] == x);
                    } else {
                        assert(r@[q + 1] == x);
                    }
                }
            }
            assert forall|i: int| p < i < r@.len() implies keys@[r@[i] as int] > k by {
                assert(r@[i] == old_r[i - 1]);
                assert(keys@[old_r[p as int] as int] > k);
                if i - 1 > p {
                    assert(keys@[old_r[p as int] as int] <= keys@[old_r[i - 1] as int]);
                }
            }
            assert forall|i: int, j: int| 0 <= i < j < r@.len() implies r@[i] != r@[j] by {
                if i < p && j > p {
                    assert(r@[j] == old_r[j - 1]);
                } else if j > p && i > p {
                    assert(r@[j] == old_r[j - 1]);
                    assert(r@[i] == old_r[i - 1]);
                }
            }
            assert forall|i: int, j: int| 0 <= i < j < r@.len() implies keys@[r@[i] as int] <= keys@[r@[j] as int] by {
                if j > p && i > p {
                    assert(r@[j] == old_r[j - 1]);
                    assert(r@[i] == old_r[i - 1]);
                } else if i < p && j > p {
                    assert(r@[j] == old_r[j - 1]);
                }
            }
            assert forall|i: int, j: int|
                0 <= i < j < r@.len() && keys@[r@[i] as int] == keys@[r@[j] as int] implies r@[i] < r@[j] by {
                if j > p && i > p {
                    assert(r@[j] == old_r[j - 1]);
                    assert(r@[i] == old_r[i - 1]);
                } else if i < p && j > p {
                    assert(r@[j] == old_r[j - 1]);
                }
            }
        }
        n += 1;
    }
    r
}

} // verus!
