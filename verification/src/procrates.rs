//! Per-process upload and download rates from two snapshots of the
//! cumulative per-process byte counters.
use vstd::prelude::*;
use std::collections::HashMap;
use vstd::std_specs::iter::IteratorSpec;
use crate::rank::{is_top, ranks_before, top_indices};

verus! {

broadcast use vstd::std_specs::hash::group_hash_axioms;

/// One process's traffic rates, in bytes per second.
#[derive(Clone, Copy, Debug, PartialEq, Eq, Structural)]
pub struct PidRate {
    pub pid: u32,
    pub up_bps: u64,
    pub down_bps: u64,
}

/// `cur - prev` for a cumulative counter; 0 when the counter went backwards.
pub open spec fn counter_delta(prev: u64, cur: u64) -> u64 {
    if cur >= prev {
        (cur - prev) as u64
    } else {
        0
    }
}

/// Bytes per second for `delta` bytes over `elapsed_ms` milliseconds (0 when
/// no time has passed), capped at `u64::MAX`.
pub open spec fn per_second(delta: u64, elapsed_ms: u64) -> u64 {
    if elapsed_ms == 0 {
        0
    } else if delta * 1000 / (elapsed_ms as int) > u64::MAX {
        u64::MAX
    } else {
        (delta * 1000 / (elapsed_ms as int)) as u64
    }
}

/// `pid`'s (sent, received) counters in `prev`, or `cur`'s when `prev` does
/// not know the process (so a new process starts at no traffic).
pub open spec fn prev_or_cur(prev: Map<u32, (u64, u64)>, cur: Map<u32, (u64, u64)>, pid: u32) -> (
    u64,
    u64,
) {
    if prev.contains_key(pid) {
        prev[pid]
    } else {
        cur[pid]
    }
}

/// The rates of `pid` between the snapshots `prev` and `cur`.
pub open spec fn rate_of(
    prev: Map<u32, (u64, u64)>,
    cur: Map<u32, (u64, u64)>,
    pid: u32,
    elapsed_ms: u64,
) -> PidRate {
    let p = prev_or_cur(prev, cur, pid);
    PidRate {
        pid,
        up_bps: per_second(counter_delta(p.0, cur[pid].0), elapsed_ms),
        down_bps: per_second(counter_delta(p.1, cur[pid].1), elapsed_ms),
    }
}

/// `r` holds the rate of each process of `cur`, each exactly once.
pub open spec fn lists_rates(
    r: Seq<PidRate>,
    prev: Map<u32, (u64, u64)>,
    cur: Map<u32, (u64, u64)>,
    elapsed_ms: u64,
) -> bool {
    &&& forall|i: int, j: int|
        0 <= i < r.len() && 0 <= j < r.len() && i != j ==> #[trigger] r[i].pid != #[trigger] r[j].pid
    &&& forall|i: int|
        0 <= i < r.len() ==> cur.contains_key(#[trigger] r[i].pid) && r[i] == rate_of(
            prev,
            cur,
            r[i].pid,
            elapsed_ms,
        )
    &&& forall|pid: u32| #[trigger]
        cur.contains_key(pid) ==> exists|i: int| 0 <= i < r.len() && r[i].pid == pid
}

/// Bytes a cumulative counter advanced from `prev` to `cur`.
pub fn bps_delta(prev: u64, cur: u64) -> (r: u64)
    ensures
        r == counter_delta(prev, cur),
{
    cur.saturating_sub(prev)
}

/// Bytes per second for `delta` bytes over `elapsed_ms` milliseconds.
pub fn rate_per_second(delta: u64, elapsed_ms: u64) -> (r: u64)
    ensures
        r == per_second(delta, elapsed_ms),
{
    if elapsed_ms == 0 {
        return 0;
    }
    let scaled = (delta as u128) * 1000 / (elapsed_ms as u128);
    if scaled > u64::MAX as u128 {
        u64::MAX
    } else {
        scaled as u64
    }
}

/// The rate of every process in `cur` since `prev`, `elapsed_ms`
/// milliseconds earlier (processes in the order the map yields them).
pub fn pid_rates(prev: &HashMap<u32, (u64, u64)>, cur: &HashMap<u32, (u64, u64)>, elapsed_ms: u64) -> (r: Vec<PidRate>)
    ensures
        lists_rates(r@, prev@, cur@, elapsed_ms),
{
    let ghost all = vstd::std_specs::hash::spec_keys_iter(cur).remaining().unref();
    let mut pids: Vec<u32> = Vec::new();
    for k in it: cur.keys()
        invariant
            it.seq().unref() == all,
            pids@ == all.take(it.index()),
    {
        pids.push(*k);
    }
    assert(pids@ == all);
    let n = pids.len();
    let mut out: Vec<PidRate> = Vec::new();
    let mut i: usize = 0;
    while i < n
        invariant
            n == pids@.len(),
            pids@ == all,
            all.no_duplicates(),
            all.to_set() == cur@.dom(),
            i <= n,
            out@.len() == i,
            forall|j: int| 0 <= j < i ==> #[trigger] out@[j] == rate_of(prev@, cur@, all[j], elapsed_ms),
        decreases n - i,
    {
        let pid = pids[i];
        assert(all.to_set().contains(pid));
        let c: (u64, u64) = match cur.get(&pid) {
            Some(v) => *v,
            None => (0, 0),
        };
        let p: (u64, u64) = match prev.get(&pid) {
            Some(v) => *v,
            None => c,
        };
        let entry = PidRate {
            pid,
            up_bps: rate_per_second(bps_delta(p.0, c.0), elapsed_ms),
            down_bps: rate_per_second(bps_delta(p.1, c.1), elapsed_ms),
        };
        out.push(entry);
        i = i + 1;
    }
    proof {
        assert forall|pid: u32| #[trigger] cur@.contains_key(pid) implies exists|i: int|
            0 <= i < out@.len() && out@[i].pid == pid by {
            assert(all.to_set().contains(pid));
            let j = choose|j: int| 0 <= j < all.len() && all[j] == pid;
            assert(out@[j].pid == pid);
        }
        assert forall|a: int| 0 <= a < out@.len() implies cur@.contains_key(#[trigger] out@[a].pid) by {
            assert(all.to_set().contains(all[a]));
        }
    }
    out
}

/// Both directions together, as a sort key.
pub open spec fn total_keys(r: Seq<PidRate>) -> Seq<u128> {
    r.map_values(|x: PidRate| (x.up_bps + x.down_bps) as u128)
}

/// The `n` busiest processes by upload plus download, busiest first; equal
/// totals keep their order.
pub fn top_net_procs(rates: &Vec<PidRate>, n: usize) -> (r: Vec<PidRate>)
    ensures
        exists|idx: Seq<usize>|
            is_top(total_keys(rates@), n as nat, idx) && r@ == idx.map_values(
                |i: usize| rates@[i as int],
            ),
{
    let len = rates.len();
    let mut keys: Vec<u128> = Vec::new();
    let mut k: usize = 0;
    while k < len
        invariant
            len == rates@.len(),
            k <= len,
            keys@ == total_keys(rates@).take(k as int),
        decreases len - k,
    {
        keys.push(rates[k].up_bps as u128 + rates[k].down_bps as u128);
        proof {
            assert(keys@ =~= total_keys(rates@).take(k + 1));
        }
        k = k + 1;
    }
    assert(keys@ =~= total_keys(rates@));
    let idx = top_indices(&keys, n);
    let m = idx.len();
    let mut out: Vec<PidRate> = Vec::new();
    let mut t: usize = 0;
    while t < m
        invariant
            len == rates@.len(),
            m == idx@.len(),
            is_top(total_keys(rates@), n as nat, idx@),
            t <= m,
            out@ == idx@.take(t as int).map_values(|i: usize| rates@[i as int]),
        decreases m - t,
    {
        let j = idx[t];
        assert(j < len);
        out.push(rates[j]);
        proof {
            assert(out@ =~= idx@.take(t + 1).map_values(|i: usize| rates@[i as int]));
        }
        t = t + 1;
    }
    proof {
        assert(idx@.take(m as int) =~= idx@);
    }
    out
}

/// The busiest come first, by upload plus download: among the entries of
/// `rates` picked by `idx` as the top ones, the picked come in non-increasing
/// order of `up_bps + down_bps`, and each picked one has at least the
/// `up_bps + down_bps` of every entry not picked.
pub proof fn lemma_top_by_total_traffic(rates: Seq<PidRate>, n: nat, idx: Seq<usize>)
    requires
        is_top(total_keys(rates), n, idx),
    ensures
        forall|i: int, j: int|
            0 <= i < j < idx.len() ==> (#[trigger] rates[idx[i] as int]).up_bps + rates[idx[i] as int].down_bps
                >= (#[trigger] rates[idx[j] as int]).up_bps + rates[idx[j] as int].down_bps,
        forall|i: int, j: int|
            0 <= i < idx.len() && 0 <= j < rates.len() && !idx.contains(j as usize) ==> (
            #[trigger] rates[idx[i] as int]).up_bps + rates[idx[i] as int].down_bps >= (
            #[trigger] rates[j]).up_bps + rates[j].down_bps,
{
    let keys = total_keys(rates);
    assert forall|i: int, j: int| 0 <= i < j < idx.len() implies (#[trigger] rates[idx[i] as int]).up_bps
        + rates[idx[i] as int].down_bps >= (#[trigger] rates[idx[j] as int]).up_bps + rates[idx[j] as int].down_bps by {
        assert(ranks_before(keys, idx[i] as int, idx[j] as int));
        assert(idx[i] < rates.len() && idx[j] < rates.len());
    }
    assert forall|i: int, j: int|
        0 <= i < idx.len() && 0 <= j < rates.len() && !idx.contains(j as usize) implies (
        #[trigger] rates[idx[i] as int]).up_bps + rates[idx[i] as int].down_bps >= (
        #[trigger] rates[j]).up_bps + rates[j].down_bps by {
        assert(ranks_before(keys, idx[i] as int, j));
        assert(idx[i] < rates.len());
    }
}

/// Rates are bytes per second: over `elapsed_ms > 0` milliseconds, the rate
/// `r` reported for `delta` bytes is the whole number of bytes per second,
/// `r * elapsed_ms <= delta * 1000 < (r + 1) * elapsed_ms`, unless that would
/// pass `u64::MAX`, where it stays at `u64::MAX`; a counter's delta is how far
/// it went up, and 0 when it went down.
pub proof fn lemma_rates_are_per_second(delta: u64, elapsed_ms: u64, prev: u64, cur: u64)
    requires
        elapsed_ms > 0,
    ensures
        delta * 1000 < (u64::MAX + 1) * elapsed_ms ==> per_second(delta, elapsed_ms) * elapsed_ms
            <= delta * 1000 < (per_second(delta, elapsed_ms) + 1) * elapsed_ms,
        delta * 1000 >= (u64::MAX + 1) * elapsed_ms ==> per_second(delta, elapsed_ms) == u64::MAX,
        cur >= prev ==> prev + counter_delta(prev, cur) == cur,
        cur < prev ==> counter_delta(prev, cur) == 0,
{
    let q = delta * 1000 / (elapsed_ms as int);
    let d = delta * 1000;
    let m = elapsed_ms as int;
    assert(q * m <= d < (q + 1) * m) by (nonlinear_arith)
        requires
            q == d / m,
            m > 0,
            d >= 0,
    ;
    if d < (u64::MAX + 1) * m {
        assert(q <= u64::MAX) by (nonlinear_arith)
            requires
                q * m <= d,
                d < (u64::MAX + 1) * m,
                m > 0,
        ;
    } else {
        assert(q >= u64::MAX + 1) by (nonlinear_arith)
            requires
                d < (q + 1) * m,
                d >= (u64::MAX + 1) * m,
                m > 0,
        ;
    }
}

} // verus!
