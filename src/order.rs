//! Stable ordering of indices by integer keys.
use vstd::prelude::*;

verus! {

/// `r` lists each of `0..n` exactly once.
pub open spec fn is_permutation(r: Seq<usize>, n: nat) -> bool {
    &&& r.len() == n
    &&& forall|i: int| 0 <= i < r.len() ==> (#[trigger] r[i]) < n
    &&& forall|i: int, j: int| 0 <= i < j < r.len() ==> (#[trigger] r[i]) != (#[trigger] r[j])
}

/// The keys along `r` never decrease.
pub open spec fn sorted_by(r: Seq<usize>, keys: Seq<i128>) -> bool {
    forall|i: int, j: int| 0 <= i < j < r.len() ==> keys[#[trigger] r[i] as int] <= keys[#[trigger] r[j] as int]
}

/// The indices of `keys`, ordered by key; equal keys keep index order.
pub fn sort_indices(keys: &Vec<i128>) -> (r: Vec<usize>)
    ensures
        is_permutation(r@, keys@.len()),
        sorted_by(r@, keys@),
        forall|i: int, j: int| 0 <= i < j < r@.len() && keys@[r@[i] as int] == keys@[r@[j] as int]
            ==> #[trigger] r@[i] < #[trigger] r@[j],
{
    let n = keys.len();
    let mut r: Vec<usize> = Vec::new();
    let mut i: usize = 0;
    while i < n
        invariant
            n == keys@.len(),
            i <= n,
            is_permutation(r@, i as nat),
            sorted_by(r@, keys@),
            forall|a: int, b: int| 0 <= a < b < r@.len() && keys@[r@[a] as int] == keys@[r@[b] as int]
                ==> #[trigger] r@[a] < #[trigger] r@[b],
        decreases n - i,
    {
        let k = keys[i];
        let mut pos: usize = 0;
        while pos < r.len() && keys[r[pos]] <= k
            invariant
                pos <= r@.len(),
                n == keys@.len(),
                is_permutation(r@, i as nat),
                i < n,
                forall|a: int| 0 <= a < pos ==> keys@[#[trigger] r@[a] as int] <= k,
            decreases r@.len() - pos,
        {
            pos = pos + 1;
        }
        let ghost old_r = r@;
        proof {
            assert forall|a: int| pos <= a < old_r.len() implies k < keys@[#[trigger] old_r[a] as int] by {
                if pos < old_r.len() {
                    assert(k < keys@[old_r[pos as int] as int]);
                    if a > pos {
                        assert(keys@[old_r[pos as int] as int] <= keys@[old_r[a] as int]);
                    }
                }
            }
        }
        r.insert(pos, i);
        proof {
            assert(r@ == old_r.insert(pos as int, i));
            assert forall|a: int| 0 <= a < r@.len() implies
                (a < pos ==> r@[a] == old_r[a]) && (a == pos ==> r@[a] == i)
                && (a > pos ==> r@[a] == old_r[a - 1]) by {}
            assert forall|a: int, b: int| 0 <= a < b < r@.len()
                implies keys@[#[trigger] r@[a] as int] <= keys@[#[trigger] r@[b] as int] by {
                if b < pos {
                } else if b == pos {
                } else if a < pos {
                    assert(k < keys@[old_r[b - 1] as int]);
                } else if a == pos {
                    assert(k < keys@[old_r[b - 1] as int]);
                } else {
                }
            }
            assert forall|a: int, b: int| 0 <= a < b < r@.len() && keys@[r@[a] as int] == keys@[r@[b] as int]
                implies #[trigger] r@[a] < #[trigger] r@[b] by {
                if b == pos {
                    assert(r@[a] == old_r[a]);
                } else if a == pos {
                    assert(k < keys@[old_r[b - 1] as int]);
                } else if b < pos {
                } else if a < pos {
                } else {
                }
            }
            assert forall|a: int, b: int| 0 <= a < b < r@.len() implies (#[trigger] r@[a]) != (#[trigger] r@[b]) by {
                if a == pos || b == pos {
                } else if b < pos {
                } else if a < pos {
                } else {
                }
            }
        }
        i = i + 1;
    }
    r
}

} // verus!
