//! Picking the largest entries of a list, largest first.
use vstd::prelude::*;

verus! {

/// Entry `a` comes before entry `b` when its key is larger, or when the keys
/// tie and `a` is earlier in the list (the order a stable descending sort gives).
pub open spec fn ranks_before(keys: Seq<u128>, a: int, b: int) -> bool {
    keys[a] > keys[b] || (keys[a] == keys[b] && a < b)
}

/// `r` lists, in order, the first `n` entries of `keys` in the order
/// `ranks_before` (all entries when there are fewer than `n`).
pub open spec fn is_top(keys: Seq<u128>, n: nat, r: Seq<usize>) -> bool {
    &&& r.len() == if n <= keys.len() {
        n
    } else {
        keys.len()
    }
    &&& forall|i: int| 0 <= i < r.len() ==> #[trigger] r[i] < keys.len()
    &&& forall|i: int, j: int|
        0 <= i < j < r.len() ==> ranks_before(keys, #[trigger] r[i] as int, #[trigger] r[j] as int)
    &&& forall|i: int, j: int|
        0 <= i < r.len() && 0 <= j < keys.len() && !r.contains(j as usize) ==> #[trigger] ranks_before(
            keys,
            r[i] as int,
            j,
        )
}

/// Indices of the `n` largest keys, largest first; equal keys keep their
/// order in the list.
pub fn top_indices(keys: &Vec<u128>, n: usize) -> (r: Vec<usize>)
    ensures
        is_top(keys@, n as nat, r@),
{
    let len = keys.len();
    let count = if n <= len {
        n
    } else {
        len
    };
    let mut taken: Vec<bool> = Vec::new();
    let mut k: usize = 0;
    while k < len
        invariant
            len == keys@.len(),
            k <= len,
            taken@.len() == k,
            forall|j: int| 0 <= j < k ==> !taken@[j],
        decreases len - k,
    {
        taken.push(false);
        k = k + 1;
    }
    let mut r: Vec<usize> = Vec::new();
    while r.len() < count
        invariant
            len == keys@.len(),
            count <= len,
            count == (if n <= len {
                n
            } else {
                len
            }),
            taken@.len() == len,
            r@.len() <= count,
            forall|i: int| 0 <= i < r@.len() ==> #[trigger] r@[i] < len,
            forall|j: int| 0 <= j < len ==> (#[trigger] taken@[j] <==> r@.contains(j as usize)),
            forall|i: int, j: int|
                0 <= i < j < r@.len() ==> ranks_before(
                    keys@,
                    #[trigger] r@[i] as int,
                    #[trigger] r@[j] as int,
                ),
            forall|i: int, j: int|
                0 <= i < r@.len() && 0 <= j < len && !taken@[j] ==> #[trigger] ranks_before(
                    keys@,
                    r@[i] as int,
                    j,
                ),
        decreases count - r@.len(),
    {
        let mut best: usize = len;
        let mut j: usize = 0;
        while j < len
            invariant
                len == keys@.len(),
                taken@.len() == len,
                j <= len,
                best == len || (best < j && !taken@[best as int]),
                best == len ==> forall|q: int| 0 <= q < j ==> taken@[q],
                best < len ==> forall|q: int|
                    0 <= q < j && !taken@[q] && q != best ==> ranks_before(keys@, best as int, q),
            decreases len - j,
        {
            if !taken[j] {
                if best == len || keys[j] > keys[best] {
                    best = j;
                }
            }
            j = j + 1;
        }
        proof {
            if best == len {
                // some index is untaken, since fewer than `count <= len` are taken
                assert forall|q: usize| q < len implies #[trigger] r@.contains(q) by {
                    assert(taken@[q as int]);
                }
                lemma_all_listed(r@, len);
                assert(false);
            }
        }
        let ghost old_r = r@;
        let ghost old_taken = taken@;
        r.push(best);
        taken.set(best, true);
        proof {
            assert forall|q: int| 0 <= q < len implies (#[trigger] taken@[q] <==> r@.contains(
                q as usize,
            )) by {
                if q == best as int {
                    assert(r@[old_r.len() as int] == best);
                } else {
                    if r@.contains(q as usize) {
                        let t = choose|t: int| 0 <= t < r@.len() && r@[t] == q as usize;
                        assert(t < old_r.len());
                        assert(old_r[t] == q as usize);
                    }
                    if old_r.contains(q as usize) {
                        let t = choose|t: int| 0 <= t < old_r.len() && old_r[t] == q as usize;
                        assert(r@[t] == q as usize);
                    }
                }
            }
            assert forall|a: int, b: int| 0 <= a < b < r@.len() implies ranks_before(
                keys@,
                #[trigger] r@[a] as int,
                #[trigger] r@[b] as int,
            ) by {
                if b == old_r.len() {
                    assert(!old_taken[best as int]);
                    assert(old_r[a] == r@[a]);
                } else {
                    assert(old_r[a] == r@[a]);
                    assert(old_r[b] == r@[b]);
                }
            }
            assert forall|a: int, q: int| 0 <= a < r@.len() && 0 <= q < len && !taken@[q] implies #[trigger] ranks_before(
                keys@,
                r@[a] as int,
                q,
            ) by {
                assert(q != best as int);
                assert(!old_taken[q]);
                if a < old_r.len() {
                    assert(old_r[a] == r@[a]);
                }
            }
        }
    }
    proof {
        assert forall|i: int, j: int|
            0 <= i < r@.len() && 0 <= j < len && !r@.contains(j as usize) implies #[trigger] ranks_before(
            keys@,
            r@[i] as int,
            j,
        ) by {
            assert(!taken@[j]);
        }
    }
    r
}

/// A list holding every index below `len` has at least `len` entries.
proof fn lemma_all_listed(r: Seq<usize>, len: usize)
    requires
        forall|q: usize| q < len ==> #[trigger] r.contains(q),
    ensures
        r.len() >= len,
    decreases len,
{
    if len > 0 {
        let last = (len - 1) as usize;
        assert(r.contains(last));
        let t = choose|t: int| 0 <= t < r.len() && r[t] == last;
        let rest = r.remove(t);
        assert forall|q: usize| q < last implies #[trigger] rest.contains(q) by {
            assert(r.contains(q));
            let u = choose|u: int| 0 <= u < r.len() && r[u] == q;
            assert(u != t);
            if u < t {
                assert(rest[u] == q);
            } else {
                assert(rest[u - 1] == q);
            }
        }
        lemma_all_listed(rest, last);
    }
}

} // verus!
