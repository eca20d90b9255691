//! Memory use per process name: summing the processes that share a name and
//! picking the largest.
use vstd::prelude::*;
use crate::rank::{is_top, ranks_before, top_indices};

verus! {

/// The (name, amount) pairs of `v`, names by their characters.
pub open spec fn pairs_view(v: Seq<(String, u64)>) -> Seq<(Seq<char>, u64)> {
    v.map_values(|p: (String, u64)| (p.0@, p.1))
}

/// Index of the first entry of `a` named `name`, at or after `k`.
pub open spec fn name_index_from(a: Seq<(Seq<char>, u64)>, name: Seq<char>, k: int) -> Option<int>
    decreases a.len() - k,
{
    if k < 0 || k >= a.len() {
        None
    } else if a[k].0 == name {
        Some(k)
    } else {
        name_index_from(a, name, k + 1)
    }
}

/// Adds each entry of `s` in turn to a running total per name (names in the
/// order they first occur); `None` as soon as a running total would pass
/// `u64::MAX`.
pub open spec fn totals_by_name(s: Seq<(Seq<char>, u64)>) -> Option<Seq<(Seq<char>, u64)>>
    decreases s.len(),
{
    if s.len() == 0 {
        Some(Seq::empty())
    } else {
        match totals_by_name(s.drop_last()) {
            None => None,
            Some(a) => {
                let name = s.last().0;
                let amount = s.last().1;
                match name_index_from(a, name, 0) {
                    Some(j) => if a[j].1 + amount > u64::MAX {
                        None
                    } else {
                        Some(a.update(j, (name, (a[j].1 + amount) as u64)))
                    },
                    None => Some(a.push((name, amount))),
                }
            },
        }
    }
}

/// The amounts of `a`, as sort keys.
pub open spec fn amount_keys(a: Seq<(Seq<char>, u64)>) -> Seq<u128> {
    a.map_values(|p: (Seq<char>, u64)| p.1 as u128)
}

/// `r` holds the `n` entries of `a` with the largest amounts, largest first;
/// equal amounts keep their order in `a`.
pub open spec fn largest_amounts(a: Seq<(Seq<char>, u64)>, n: nat, r: Seq<(Seq<char>, u64)>) -> bool {
    exists|idx: Seq<usize>|
        is_top(amount_keys(a), n, idx) && r == idx.map_values(|i: usize| a[i as int])
}

proof fn lemma_name_index(a: Seq<(Seq<char>, u64)>, name: Seq<char>, k: int)
    requires
        name_index_from(a, name, k) is Some,
    ensures
        ({
            let j = name_index_from(a, name, k)->0;
            k <= j < a.len() && a[j].0 == name
        }),
    decreases a.len() - k,
{
    if 0 <= k < a.len() && a[k].0 != name {
        lemma_name_index(a, name, k + 1);
    }
}

fn find_name(acc: &Vec<(String, u64)>, name: &String) -> (r: Option<usize>)
    ensures
        r matches Some(j) ==> name_index_from(pairs_view(acc@), name@, 0) == Some(j as int),
        r is None ==> name_index_from(pairs_view(acc@), name@, 0) is None,
        r matches Some(j) ==> j < acc@.len(),
{
    let ghost a = pairs_view(acc@);
    let n = acc.len();
    let mut k: usize = 0;
    while k < n
        invariant
            n == acc@.len(),
            a == pairs_view(acc@),
            k <= n,
            name_index_from(a, name@, k as int) == name_index_from(a, name@, 0),
        decreases n - k,
    {
        if acc[k].0 == *name {
            return Some(k);
        }
        k = k + 1;
    }
    None
}

/// Running totals per name over `list`, in the order the names first occur;
/// `None` when a running total would pass `u64::MAX`.
pub fn total_by_name(list: &Vec<(String, u64)>) -> (r: Option<Vec<(String, u64)>>)
    ensures
        match totals_by_name(pairs_view(list@)) {
            None => r is None,
            Some(a) => r matches Some(v) && pairs_view(v@) == a,
        },
{
    let ghost s = pairs_view(list@);
    let mut acc: Vec<(String, u64)> = Vec::new();
    let n = list.len();
    let mut i: usize = 0;
    while i < n
        invariant
            n == list@.len(),
            s == pairs_view(list@),
            i <= n,
            totals_by_name(s.take(i as int)) == Some(pairs_view(acc@)),
        decreases n - i,
    {
        proof {
            assert(s.take(i + 1).drop_last() =~= s.take(i as int));
            assert(s.take(i + 1).last() == s[i as int]);
        }
        let name = &list[i].0;
        let amount = list[i].1;
        match find_name(&acc, name) {
            Some(j) => {
                proof {
                    lemma_name_index(pairs_view(acc@), name@, 0);
                    assert(pairs_view(acc@)[j as int] == (acc@[j as int].0@, acc@[j as int].1));
                    assert(s[i as int] == (name@, amount));
                }
                if acc[j].1 > u64::MAX - amount {
                    proof {
                        let a = pairs_view(acc@);
                        let t = s.take(i + 1);
                        assert(name_index_from(a, name@, 0) == Some(j as int));
                        assert(a[j as int].1 + amount > u64::MAX);
                        assert(t.last().0 == name@);
                        assert(t.last().1 == amount);
                        assert(totals_by_name(t.drop_last()) == Some(a));
                        assert(totals_by_name(t) is None);
                        lemma_overflow_sticks(s, i as int + 1);
                        assert(s.take(n as int) =~= s);
                    }
                    return None;
                }
                let total = acc[j].1 + amount;
                let ghost before = acc@;
                let entry = (acc[j].0.clone(), total);
                acc.set(j, entry);
                proof {
                    assert(pairs_view(acc@) =~= pairs_view(before).update(j as int, (name@, total)));
                }
            },
            None => {
                let ghost before = acc@;
                acc.push((name.clone(), amount));
                proof {
                    assert(pairs_view(acc@) =~= pairs_view(before).push((name@, amount)));
                }
            },
        }
        i = i + 1;
    }
    proof {
        assert(s.take(n as int) =~= s);
    }
    Some(acc)
}

/// Once a running total has overflowed, longer prefixes overflow too.
proof fn lemma_overflow_sticks(s: Seq<(Seq<char>, u64)>, i: int)
    requires
        0 <= i <= s.len(),
        totals_by_name(s.take(i)) is None,
    ensures
        totals_by_name(s.take(s.len() as int)) is None,
    decreases s.len() - i,
{
    if i < s.len() {
        assert(s.take(i + 1).drop_last() =~= s.take(i));
        lemma_overflow_sticks(s, i + 1);
    }
}

/// The `n` entries of `totals` with the largest amounts, largest first; equal
/// amounts keep their order.
pub fn largest(totals: &Vec<(String, u64)>, n: usize) -> (r: Vec<(String, u64)>)
    ensures
        largest_amounts(pairs_view(totals@), n as nat, pairs_view(r@)),
{
    let ghost a = pairs_view(totals@);
    let len = totals.len();
    let mut keys: Vec<u128> = Vec::new();
    let mut k: usize = 0;
    while k < len
        invariant
            len == totals@.len(),
            a == pairs_view(totals@),
            k <= len,
            keys@ == amount_keys(a).take(k as int),
        decreases len - k,
    {
        keys.push(totals[k].1 as u128);
        proof {
            assert(keys@ =~= amount_keys(a).take(k + 1));
        }
        k = k + 1;
    }
    assert(keys@ =~= amount_keys(a));
    let idx = top_indices(&keys, n);
    let m = idx.len();
    let mut out: Vec<(String, u64)> = Vec::new();
    let mut t: usize = 0;
    while t < m
        invariant
            len == totals@.len(),
            a == pairs_view(totals@),
            m == idx@.len(),
            is_top(amount_keys(a), n as nat, idx@),
            t <= m,
            pairs_view(out@) == idx@.take(t as int).map_values(|i: usize| a[i as int]),
        decreases m - t,
    {
        let j = idx[t];
        assert(j < len);
        let ghost before = out@;
        let item = (totals[j].0.clone(), totals[j].1);
        out.push(item);
        proof {
            assert(a[j as int] == (item.0@, item.1));
            assert(idx@.take(t + 1) =~= idx@.take(t as int).push(j));
            assert(out@ == before.push(item));
            assert(pairs_view(out@) =~= pairs_view(before).push((item.0@, item.1)));
            assert(pairs_view(out@) =~= idx@.take(t + 1).map_values(|i: usize| a[i as int]));
        }
        t = t + 1;
    }
    proof {
        assert(idx@.take(m as int) =~= idx@);
        assert(pairs_view(out@) == idx@.map_values(|i: usize| a[i as int]));
    }
    out
}

/// Some entry of `a` is named `name`.
pub open spec fn named_in(a: Seq<(Seq<char>, u64)>, name: Seq<char>) -> bool {
    exists|i: int| 0 <= i < a.len() && a[i].0 == name
}

/// Sum of the amounts of the entries of `s` named `name`.
pub open spec fn amount_of(s: Seq<(Seq<char>, u64)>, name: Seq<char>) -> int
    decreases s.len(),
{
    if s.len() == 0 {
        0
    } else {
        amount_of(s.drop_last(), name) + if s.last().0 == name {
            s.last().1 as int
        } else {
            0
        }
    }
}

proof fn lemma_name_index_absent(a: Seq<(Seq<char>, u64)>, name: Seq<char>, k: int)
    requires
        0 <= k,
        name_index_from(a, name, k) is None,
    ensures
        forall|j: int| k <= j < a.len() ==> a[j].0 != name,
    decreases a.len() - k,
{
    if k < a.len() {
        lemma_name_index_absent(a, name, k + 1);
    }
}

/// Summing by name keeps one entry per name that occurs, each holding the
/// sum of that name's amounts.
pub proof fn lemma_totals_are_sums(s: Seq<(Seq<char>, u64)>)
    requires
        totals_by_name(s) is Some,
    ensures
        ({
            let a = totals_by_name(s)->0;
            &&& forall|i: int, j: int|
                0 <= i < a.len() && 0 <= j < a.len() && i != j ==> #[trigger] a[i].0 != #[trigger] a[j].0
            &&& forall|i: int| 0 <= i < a.len() ==> #[trigger] a[i].1 == amount_of(s, a[i].0)
            &&& forall|k: int| 0 <= k < s.len() ==> named_in(a, #[trigger] s[k].0)
        }),
    decreases s.len(),
{
    if s.len() > 0 {
        let t = s.drop_last();
        lemma_totals_are_sums(t);
        let b = totals_by_name(t)->0;
        let a = totals_by_name(s)->0;
        let name = s.last().0;
        let amount = s.last().1;
        match name_index_from(b, name, 0) {
            Some(j) => {
                lemma_name_index(b, name, 0);
                assert(a == b.update(j, (name, (b[j].1 + amount) as u64)));
                assert forall|i: int| 0 <= i < a.len() implies #[trigger] a[i].1 == amount_of(s, a[i].0) by {
                    assert(amount_of(s, a[i].0) == amount_of(t, a[i].0) + if name == a[i].0 {
                        amount as int
                    } else {
                        0
                    });
                    if i != j {
                        assert(b[i].0 != b[j].0);
                    }
                }
                assert forall|i: int, k: int|
                    0 <= i < a.len() && 0 <= k < a.len() && i != k implies #[trigger] a[i].0 != #[trigger] a[k].0 by {
                    assert(b[i].0 != b[k].0);
                }
                assert forall|k: int| 0 <= k < s.len() implies named_in(a, #[trigger] s[k].0) by {
                    if k < t.len() {
                        assert(t[k] == s[k]);
                        assert(named_in(b, t[k].0));
                        let i = choose|i: int| 0 <= i < b.len() && b[i].0 == t[k].0;
                        assert(a[i].0 == s[k].0);
                    } else {
                        assert(a[j].0 == s[k].0);
                    }
                }
            },
            None => {
                lemma_name_index_absent(b, name, 0);
                assert(a == b.push((name, amount)));
                assert forall|i: int| 0 <= i < a.len() implies #[trigger] a[i].1 == amount_of(s, a[i].0) by {
                    assert(amount_of(s, a[i].0) == amount_of(t, a[i].0) + if name == a[i].0 {
                        amount as int
                    } else {
                        0
                    });
                    if i == b.len() {
                        lemma_amount_of_absent(t, name, b);
                    } else {
                        assert(a[i] == b[i]);
                    }
                }
                assert forall|i: int, k: int|
                    0 <= i < a.len() && 0 <= k < a.len() && i != k implies #[trigger] a[i].0 != #[trigger] a[k].0 by {
                    if i < b.len() && k < b.len() {
                        assert(b[i].0 != b[k].0);
                    }
                }
                assert forall|k: int| 0 <= k < s.len() implies named_in(a, #[trigger] s[k].0) by {
                    if k < t.len() {
                        assert(t[k] == s[k]);
                        assert(named_in(b, t[k].0));
                        let i = choose|i: int| 0 <= i < b.len() && b[i].0 == t[k].0;
                        assert(a[i].0 == s[k].0);
                    } else {
                        assert(a[b.len() as int].0 == s[k].0);
                    }
                }
            },
        }
    }
}

/// A name without an entry in the totals has no amount in the list.
proof fn lemma_amount_of_absent(t: Seq<(Seq<char>, u64)>, name: Seq<char>, b: Seq<(Seq<char>, u64)>)
    requires
        forall|k: int| 0 <= k < t.len() ==> named_in(b, #[trigger] t[k].0),
        forall|j: int| 0 <= j < b.len() ==> b[j].0 != name,
    ensures
        amount_of(t, name) == 0,
    decreases t.len(),
{
    if t.len() > 0 {
        let u = t.drop_last();
        assert forall|k: int| 0 <= k < u.len() implies named_in(b, #[trigger] u[k].0) by {
            assert(u[k] == t[k]);
            assert(named_in(b, t[k].0));
        }
        lemma_amount_of_absent(u, name, b);
        let last = t.len() - 1;
        assert(named_in(b, t[last].0));
        assert(t.last().0 != name);
    }
}

/// The largest amounts come first: among the entries of `a` picked by `idx`
/// as the `n` largest, the picked come in non-increasing order of amount, and
/// each picked one has at least the amount of every entry not picked.
pub proof fn lemma_largest_first(a: Seq<(Seq<char>, u64)>, n: nat, idx: Seq<usize>)
    requires
        is_top(amount_keys(a), n, idx),
    ensures
        forall|i: int, j: int|
            0 <= i < j < idx.len() ==> (#[trigger] a[idx[i] as int]).1 >= (#[trigger] a[idx[j] as int]).1,
        forall|i: int, j: int|
            0 <= i < idx.len() && 0 <= j < a.len() && !idx.contains(j as usize) ==> (
            #[trigger] a[idx[i] as int]).1 >= (#[trigger] a[j]).1,
{
    let keys = amount_keys(a);
    assert forall|i: int, j: int| 0 <= i < j < idx.len() implies (#[trigger] a[idx[i] as int]).1 >= (
        #[trigger] a[idx[j] as int]).1 by {
        assert(ranks_before(keys, idx[i] as int, idx[j] as int));
        assert(idx[i] < a.len() && idx[j] < a.len());
    }
    assert forall|i: int, j: int|
        0 <= i < idx.len() && 0 <= j < a.len() && !idx.contains(j as usize) implies (
        #[trigger] a[idx[i] as int]).1 >= (#[trigger] a[j]).1 by {
        assert(ranks_before(keys, idx[i] as int, j));
        assert(idx[i] < a.len());
    }
}

} // verus!
