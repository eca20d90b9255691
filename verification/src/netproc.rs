//! Per-process network byte counters fed by the kernel's network events.
use vstd::prelude::*;
use std::collections::{HashMap, HashSet};
use vstd::std_specs::iter::IteratorSpec;

verus! {

broadcast use vstd::std_specs::hash::group_hash_axioms;

/// Which way a network event moved bytes.
#[derive(Clone, Copy, Debug, PartialEq, Eq, Structural)]
pub enum Direction {
    Send,
    Recv,
}

/// Event ids of the kernel network provider that carry a payload `size`
/// sent by the owning process: TCP 10/26 and UDP 42/58 (IPv4/IPv6).
pub open spec fn is_send_event(id: u16) -> bool {
    id == 10 || id == 26 || id == 42 || id == 58
}

/// Event ids whose payload `size` was received: TCP 11/27 and UDP 43/59.
pub open spec fn is_recv_event(id: u16) -> bool {
    id == 11 || id == 27 || id == 43 || id == 59
}

pub open spec fn direction_of(id: u16) -> Option<Direction> {
    if is_send_event(id) {
        Some(Direction::Send)
    } else if is_recv_event(id) {
        Some(Direction::Recv)
    } else {
        None
    }
}

/// The direction an event id stands for, or `None` for events that carry no
/// traffic of interest.
pub fn event_direction(id: u16) -> (r: Option<Direction>)
    ensures
        r == direction_of(id),
{
    if id == 10 || id == 26 || id == 42 || id == 58 {
        Some(Direction::Send)
    } else if id == 11 || id == 27 || id == 43 || id == 59 {
        Some(Direction::Recv)
    } else {
        None
    }
}

/// What `NetProc::record` did with an event.
#[derive(Clone, Copy, Debug, PartialEq, Eq, Structural)]
pub enum RecordOutcome {
    /// The event carried no bytes and was dropped.
    Ignored,
    /// The bytes were added to the process's counter.
    Counted,
    /// Adding the bytes would take the counter past `u64::MAX`; nothing changed.
    Overflow,
}

/// Cumulative (sent, received) bytes per process id since tracing started,
/// with the tracer's status.
pub struct NetProc {
    counts: HashMap<u32, (u64, u64)>,
    available: bool,
    events_seen: u64,
    stop: bool,
}

/// The counters after one event of `size` bytes in direction `dir` for `pid`.
pub open spec fn add_event(
    counts: Map<u32, (u64, u64)>,
    dir: Direction,
    size: u32,
    pid: u32,
) -> Map<u32, (u64, u64)> {
    let cur = if counts.contains_key(pid) {
        counts[pid]
    } else {
        (0u64, 0u64)
    };
    let next = match dir {
        Direction::Send => ((cur.0 + size) as u64, cur.1),
        Direction::Recv => (cur.0, (cur.1 + size) as u64),
    };
    counts.insert(pid, next)
}

/// Adding `size` bytes in direction `dir` to `pid`'s counter stays within `u64`.
pub open spec fn event_fits(counts: Map<u32, (u64, u64)>, dir: Direction, size: u32, pid: u32) -> bool {
    let cur = if counts.contains_key(pid) {
        counts[pid]
    } else {
        (0u64, 0u64)
    };
    match dir {
        Direction::Send => cur.0 + size <= u64::MAX,
        Direction::Recv => cur.1 + size <= u64::MAX,
    }
}

/// The event count after one more counted event (it wraps at `u64::MAX`).
pub open spec fn next_count(n: u64) -> u64 {
    if n == u64::MAX {
        0
    } else {
        (n + 1) as u64
    }
}

/// What recording one event of `size` bytes in direction `dir` for `pid`
/// does to counters `c` and event count `n`, giving outcome `r`, counters `c2`
/// and count `n2`: an event of no bytes is ignored; one that would overflow its
/// counter changes nothing; any other is added and counted.
pub open spec fn record_effect(
    c: Map<u32, (u64, u64)>,
    n: u64,
    dir: Direction,
    size: u32,
    pid: u32,
    r: RecordOutcome,
    c2: Map<u32, (u64, u64)>,
    n2: u64,
) -> bool {
    &&& size == 0 ==> r == RecordOutcome::Ignored
    &&& size != 0 && !event_fits(c, dir, size, pid) ==> r == RecordOutcome::Overflow
    &&& size != 0 && event_fits(c, dir, size, pid) ==> r == RecordOutcome::Counted
    &&& r == RecordOutcome::Counted ==> c2 == add_event(c, dir, size, pid) && n2 == next_count(n)
    &&& r != RecordOutcome::Counted ==> c2 == c && n2 == n
}

impl NetProc {
    /// The per-process counters.
    pub closed spec fn counts_view(&self) -> Map<u32, (u64, u64)> {
        self.counts@
    }

    /// Whether a trace session is running and delivering events.
    pub closed spec fn is_available(&self) -> bool {
        self.available
    }

    /// Number of events counted so far.
    pub closed spec fn events_view(&self) -> u64 {
        self.events_seen
    }

    /// Whether the owner of the trace has been told to drop it.
    pub closed spec fn stop_view(&self) -> bool {
        self.stop
    }

    /// No counters, no session running, nothing counted, no stop requested.
    pub fn new() -> (r: NetProc)
        ensures
            r.counts_view() == Map::<u32, (u64, u64)>::empty(),
            !r.is_available(),
            r.events_view() == 0,
            !r.stop_view(),
    {
        NetProc { counts: HashMap::new(), available: false, events_seen: 0, stop: false }
    }

    /// A copy of the per-process counters.
    pub fn counts_snapshot(&self) -> (r: HashMap<u32, (u64, u64)>)
        ensures
            r@ == self.counts_view(),
    {
        self.counts.clone()
    }

    /// Whether a trace session is running.
    pub fn available(&self) -> (r: bool)
        ensures
            r == self.is_available(),
    {
        self.available
    }

    /// Number of events counted since tracing started.
    pub fn events_seen(&self) -> (r: u64)
        ensures
            r == self.events_view(),
    {
        self.events_seen
    }

    /// Whether the owner of the trace has been told to drop it.
    pub fn stop_requested(&self) -> (r: bool)
        ensures
            r == self.stop_view(),
    {
        self.stop
    }

    /// Records whether the trace session is running.
    pub fn set_available(&mut self, running: bool)
        ensures
            final(self).is_available() == running,
            final(self).counts_view() == old(self).counts_view(),
            final(self).events_view() == old(self).events_view(),
            final(self).stop_view() == old(self).stop_view(),
    {
        self.available = running;
    }

    /// Drops the counters of process ids that are not in `live`.
    pub fn retain_pids(&mut self, live: &HashSet<u32>)
        ensures
            final(self).counts_view() == old(self).counts_view().restrict(live@),
            final(self).is_available() == old(self).is_available(),
            final(self).events_view() == old(self).events_view(),
            final(self).stop_view() == old(self).stop_view(),
    {
        let ghost orig = self.counts@;
        let ghost all = vstd::std_specs::hash::spec_keys_iter(&self.counts).remaining().unref();
        let mut pids: Vec<u32> = Vec::new();
        for k in it: self.counts.keys()
            invariant
                it.seq().unref() == all,
                pids@ == all.take(it.index()),
        {
            pids.push(*k);
        }
        assert(pids@ == all);
        assert(forall|k: u32| orig.contains_key(k) ==> pids@.contains(k));
        let n = pids.len();
        let mut i: usize = 0;
        while i < n
            invariant
                n == pids@.len(),
                i <= n,
                forall|k: u32| orig.contains_key(k) ==> pids@.contains(k),
                forall|k: u32|
                    #![trigger self.counts@.contains_key(k)]
                    self.counts@.contains_key(k) <==> (orig.contains_key(k) && (pids@.take(
                        i as int,
                    ).contains(k) ==> live@.contains(k))),
                forall|k: u32| self.counts@.contains_key(k) ==> self.counts@[k] == orig[k],
                self.available == old(self).available,
                self.events_seen == old(self).events_seen,
                self.stop == old(self).stop,
            decreases n - i,
        {
            let pid = pids[i];
            if !live.contains(&pid) {
                self.counts.remove(&pid);
            }
            proof {
                let before = pids@.take(i as int);
                let after = pids@.take(i + 1);
                assert(after =~= before.push(pid));
                assert forall|k: u32| after.contains(k) <==> (before.contains(k) || k == pid) by {
                    if after.contains(k) && k != pid {
                        let j = choose|j: int| 0 <= j < after.len() && after[j] == k;
                        assert(j < i);
                        assert(before[j] == k);
                    }
                    if before.contains(k) {
                        let j = choose|j: int| 0 <= j < before.len() && before[j] == k;
                        assert(after[j] == k);
                    }
                    if k == pid {
                        assert(after[i as int] == k);
                    }
                }
            }
            i = i + 1;
        }
        proof {
            assert(pids@.take(n as int) =~= pids@);
            assert(self.counts@ =~= orig.restrict(live@));
        }
    }

    /// Tells the owner of the trace to drop it; the session no longer counts
    /// as available.
    pub fn shutdown(&mut self)
        ensures
            !final(self).is_available(),
            final(self).stop_view(),
            final(self).counts_view() == old(self).counts_view(),
            final(self).events_view() == old(self).events_view(),
    {
        self.available = false;
        self.stop = true;
    }

    /// Adds one event of `size` bytes in direction `dir` to `pid`'s counter.
    /// An event of no bytes is dropped; one that would overflow the counter
    /// changes nothing. Each counted event advances the event count, which
    /// wraps around at `u64::MAX`.
    pub fn record(&mut self, dir: Direction, size: u32, pid: u32) -> (r: RecordOutcome)
        ensures
            record_effect(
                old(self).counts_view(),
                old(self).events_view(),
                dir,
                size,
                pid,
                r,
                final(self).counts_view(),
                final(self).events_view(),
            ),
            final(self).is_available() == old(self).is_available(),
            final(self).stop_view() == old(self).stop_view(),
    {
        if size == 0 {
            return RecordOutcome::Ignored;
        }
        let cur: (u64, u64) = match self.counts.get(&pid) {
            Some(c) => *c,
            None => (0, 0),
        };
        let next: (u64, u64) = match dir {
            Direction::Send => {
                if cur.0 > u64::MAX - size as u64 {
                    return RecordOutcome::Overflow;
                }
                (cur.0 + size as u64, cur.1)
            },
            Direction::Recv => {
                if cur.1 > u64::MAX - size as u64 {
                    return RecordOutcome::Overflow;
                }
                (cur.0, cur.1 + size as u64)
            },
        };
        self.counts.insert(pid, next);
        self.events_seen = if self.events_seen == u64::MAX {
            0
        } else {
            self.events_seen + 1
        };
        RecordOutcome::Counted
    }
}

/// Counters are cumulative: counting an event never lowers nor drops any
/// process's counter, and raises the event's process in the event's
/// direction by exactly the event's size.
pub proof fn lemma_counts_only_grow(m: Map<u32, (u64, u64)>, dir: Direction, size: u32, pid: u32)
    requires
        event_fits(m, dir, size, pid),
    ensures
        forall|p: u32| #[trigger]
            m.contains_key(p) ==> add_event(m, dir, size, pid).contains_key(p) && add_event(
                m,
                dir,
                size,
                pid,
            )[p].0 >= m[p].0 && add_event(m, dir, size, pid)[p].1 >= m[p].1,
        add_event(m, dir, size, pid).contains_key(pid),
        add_event(m, dir, size, pid)[pid].0 + add_event(m, dir, size, pid)[pid].1 == (if m.contains_key(
            pid,
        ) {
            m[pid].0 + m[pid].1
        } else {
            0
        }) + size,
{
}

/// One network event as the tracer hands it over.
#[derive(Clone, Copy, Debug, PartialEq, Eq, Structural)]
pub struct NetEvent {
    pub dir: Direction,
    pub size: u32,
    pub pid: u32,
}

/// Bytes sent by `pid` over the events `evs`.
pub open spec fn sent_total(evs: Seq<NetEvent>, pid: u32) -> int
    decreases evs.len(),
{
    if evs.len() == 0 {
        0
    } else {
        sent_total(evs.drop_last(), pid) + if evs.last().pid == pid && evs.last().dir
            == Direction::Send {
            evs.last().size as int
        } else {
            0
        }
    }
}

/// Bytes received by `pid` over the events `evs`.
pub open spec fn recv_total(evs: Seq<NetEvent>, pid: u32) -> int
    decreases evs.len(),
{
    if evs.len() == 0 {
        0
    } else {
        recv_total(evs.drop_last(), pid) + if evs.last().pid == pid && evs.last().dir
            == Direction::Recv {
            evs.last().size as int
        } else {
            0
        }
    }
}

/// Number of events of `evs` that carry bytes.
pub open spec fn carrying(evs: Seq<NetEvent>) -> int
    decreases evs.len(),
{
    if evs.len() == 0 {
        0
    } else {
        carrying(evs.drop_last()) + if evs.last().size > 0 {
            1int
        } else {
            0
        }
    }
}

/// Some event of `evs` carried bytes for `pid`.
pub open spec fn has_traffic(evs: Seq<NetEvent>, pid: u32) -> bool {
    exists|i: int| 0 <= i < evs.len() && evs[i].pid == pid && evs[i].size > 0
}

/// `c` and `n` are the counters and event count after recording `evs` from
/// scratch: a process has a counter exactly when some event carried bytes for
/// it, holding its sent and received sums, and every event with bytes is
/// counted once.
pub open spec fn sums_of(c: Map<u32, (u64, u64)>, n: u64, evs: Seq<NetEvent>) -> bool {
    &&& forall|p: u32| #[trigger] c.contains_key(p) <==> has_traffic(evs, p)
    &&& forall|p: u32|
        #[trigger] c.contains_key(p) ==> c[p].0 == sent_total(evs, p) && c[p].1 == recv_total(evs, p)
    &&& n == carrying(evs)
}

proof fn lemma_totals_nonneg(evs: Seq<NetEvent>, pid: u32)
    ensures
        sent_total(evs, pid) >= 0,
        recv_total(evs, pid) >= 0,
        carrying(evs) >= 0,
    decreases evs.len(),
{
    if evs.len() > 0 {
        lemma_totals_nonneg(evs.drop_last(), pid);
    }
}

proof fn lemma_prefix_totals(evs: Seq<NetEvent>, k: int, pid: u32)
    requires
        0 <= k <= evs.len(),
    ensures
        sent_total(evs.take(k), pid) <= sent_total(evs, pid),
        recv_total(evs.take(k), pid) <= recv_total(evs, pid),
        carrying(evs.take(k)) <= carrying(evs),
    decreases evs.len() - k,
{
    if k < evs.len() {
        lemma_prefix_totals(evs, k + 1, pid);
        assert(evs.take(k + 1).drop_last() =~= evs.take(k));
    } else {
        assert(evs.take(k) =~= evs);
    }
}

/// Counting is cumulative: recording the events `evs` one after the other,
/// starting from no counters and no events, leaves each process with the sum
/// of the bytes it sent and the sum of the bytes it received, a counter only
/// for processes some event carried bytes for, and one count per event that
/// carried bytes. `counts[i]`, `seen[i]` are the state before event `i` and
/// `outcomes[i]` what recording it returned; no event is refused as an
/// overflow while every process's sums and the number of counted events stay
/// within `u64`.
pub proof fn lemma_recorded_counts_are_sums(
    evs: Seq<NetEvent>,
    counts: Seq<Map<u32, (u64, u64)>>,
    seen: Seq<u64>,
    outcomes: Seq<RecordOutcome>,
)
    requires
        counts.len() == evs.len() + 1,
        seen.len() == evs.len() + 1,
        outcomes.len() == evs.len(),
        counts[0] == Map::<u32, (u64, u64)>::empty(),
        seen[0] == 0,
        forall|i: int|
            0 <= i < evs.len() ==> record_effect(
                counts[i],
                seen[i],
                #[trigger] evs[i].dir,
                evs[i].size,
                evs[i].pid,
                outcomes[i],
                counts[i + 1],
                seen[i + 1],
            ),
        forall|p: u32| sent_total(evs, p) <= u64::MAX && recv_total(evs, p) <= u64::MAX,
        carrying(evs) <= u64::MAX,
    ensures
        forall|i: int| 0 <= i < evs.len() ==> #[trigger] outcomes[i] != RecordOutcome::Overflow,
        sums_of(counts[evs.len() as int], seen[evs.len() as int], evs),
{
    lemma_recorded_prefix(evs, counts, seen, outcomes, evs.len() as int);
    assert(evs.take(evs.len() as int) =~= evs);
}

/// The same for the first `k` events.
proof fn lemma_recorded_prefix(
    evs: Seq<NetEvent>,
    counts: Seq<Map<u32, (u64, u64)>>,
    seen: Seq<u64>,
    outcomes: Seq<RecordOutcome>,
    k: int,
)
    requires
        counts.len() == evs.len() + 1,
        seen.len() == evs.len() + 1,
        outcomes.len() == evs.len(),
        counts[0] == Map::<u32, (u64, u64)>::empty(),
        seen[0] == 0,
        forall|i: int|
            0 <= i < evs.len() ==> record_effect(
                counts[i],
                seen[i],
                #[trigger] evs[i].dir,
                evs[i].size,
                evs[i].pid,
                outcomes[i],
                counts[i + 1],
                seen[i + 1],
            ),
        forall|p: u32| sent_total(evs, p) <= u64::MAX && recv_total(evs, p) <= u64::MAX,
        carrying(evs) <= u64::MAX,
        0 <= k <= evs.len(),
    ensures
        forall|i: int| 0 <= i < k ==> #[trigger] outcomes[i] != RecordOutcome::Overflow,
        sums_of(counts[k], seen[k], evs.take(k)),
    decreases k,
{
    if k == 0 {
        assert(evs.take(0) =~= Seq::<NetEvent>::empty());
    } else {
        lemma_recorded_prefix(evs, counts, seen, outcomes, k - 1);
        // the last of the first k events
        let j0 = k - 1;
        let pre = evs.take(j0);
        let post = evs.take(j0 + 1);
        let e = evs[j0];
        assert(post.drop_last() =~= pre);
        assert(post.last() == e);
        let c = counts[j0];
        let c2 = counts[j0 + 1];
        assert(record_effect(c, seen[j0], e.dir, e.size, e.pid, outcomes[j0], c2, seen[j0 + 1]));
        lemma_prefix_totals(evs, j0 + 1, e.pid);
        lemma_totals_nonneg(pre, e.pid);
        if e.size > 0 {
            // the event fits: its process's sums after it stay within u64
            assert(event_fits(c, e.dir, e.size, e.pid)) by {
                if c.contains_key(e.pid) {
                    assert(c[e.pid].0 == sent_total(pre, e.pid));
                    assert(c[e.pid].1 == recv_total(pre, e.pid));
                } else {
                    assert(!has_traffic(pre, e.pid));
                    lemma_no_traffic_no_sums(pre, e.pid);
                }
            }
            assert(outcomes[j0] == RecordOutcome::Counted);
            assert(c2 == add_event(c, e.dir, e.size, e.pid));
            assert(seen[j0] == carrying(pre));
            lemma_prefix_totals(evs, j0 + 1, e.pid);
            assert(seen[j0 + 1] == carrying(post));
            assert forall|p: u32| #[trigger] c2.contains_key(p) <==> has_traffic(post, p) by {
                if has_traffic(pre, p) {
                    let jj = choose|jj: int| 0 <= jj < pre.len() && pre[jj].pid == p && pre[jj].size > 0;
                    assert(post[jj] == pre[jj]);
                }
                if has_traffic(post, p) && p != e.pid {
                    let jj = choose|jj: int| 0 <= jj < post.len() && post[jj].pid == p && post[jj].size > 0;
                    assert(jj < j0);
                    assert(pre[jj] == post[jj]);
                }
                if p == e.pid {
                    assert(post[j0] == e);
                }
            }
            assert forall|p: u32| #[trigger] c2.contains_key(p) implies c2[p].0 == sent_total(post, p)
                && c2[p].1 == recv_total(post, p) by {
                if p == e.pid {
                    if !c.contains_key(p) {
                        lemma_no_traffic_no_sums(pre, p);
                    }
                }
            }
        } else {
            assert(outcomes[j0] == RecordOutcome::Ignored);
            assert forall|p: u32| #[trigger] c2.contains_key(p) <==> has_traffic(post, p) by {
                if has_traffic(pre, p) {
                    let jj = choose|jj: int| 0 <= jj < pre.len() && pre[jj].pid == p && pre[jj].size > 0;
                    assert(post[jj] == pre[jj]);
                }
                if has_traffic(post, p) {
                    let jj = choose|jj: int| 0 <= jj < post.len() && post[jj].pid == p && post[jj].size > 0;
                    assert(jj < j0);
                    assert(pre[jj] == post[jj]);
                }
            }
        }
    }
}

/// A process no event carried bytes for has no sent and no received bytes.
proof fn lemma_no_traffic_no_sums(evs: Seq<NetEvent>, pid: u32)
    requires
        !has_traffic(evs, pid),
    ensures
        sent_total(evs, pid) == 0,
        recv_total(evs, pid) == 0,
    decreases evs.len(),
{
    if evs.len() > 0 {
        let t = evs.drop_last();
        assert(!has_traffic(t, pid)) by {
            if has_traffic(t, pid) {
                let j = choose|j: int| 0 <= j < t.len() && t[j].pid == pid && t[j].size > 0;
                assert(evs[j] == t[j]);
            }
        }
        lemma_no_traffic_no_sums(t, pid);
        if evs.last().pid == pid {
            assert(evs[evs.len() - 1].size == 0);
        }
    }
}

} // verus!
