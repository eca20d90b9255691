//! Interface throughput: which interface to watch and how many bytes per
//! second went up and down on it since the last refresh.
use vstd::prelude::*;
use vstd::multiset::Multiset;
use sysinfo::{NetworkData, Networks, System};
use crate::table::CounterTable;
use crate::procrates::{lists_rates, pid_rates, top_net_procs, total_keys, PidRate};
use crate::rank::is_top;
use std::collections::{HashMap, HashSet};
use crate::usage::{largest, largest_amounts, pairs_view, total_by_name, totals_by_name};
use crate::text::{chars_of, lowercase_of, occurs, occurs_in, same_text, string_views, to_lowercase};

verus! {

broadcast use vstd::std_specs::hash::group_hash_axioms;

#[verifier::external_type_specification]
#[verifier::external_body]
pub struct ExNetworks(Networks);

#[verifier::external_type_specification]
#[verifier::external_body]
pub struct ExNetworkData(NetworkData);

#[verifier::external_type_specification]
#[verifier::external_body]
pub struct ExSystem(System);

/// One interface as the system reports it: its name and the bytes it has
/// received and transmitted in total.
#[derive(Debug)]
pub struct IfaceSample {
    pub name: String,
    pub total_received: u64,
    pub total_transmitted: u64,
}

/// What a `Networks` value holds: for each interface name, its total
/// received and transmitted bytes.
pub uninterp spec fn interface_totals(networks: Networks) -> Map<Seq<char>, (u64, u64)>;

/// `s` lists the interfaces of `m`, each exactly once.
pub open spec fn lists_totals(s: Seq<IfaceSample>, m: Map<Seq<char>, (u64, u64)>) -> bool {
    &&& forall|i: int, j: int|
        0 <= i < s.len() && 0 <= j < s.len() && i != j ==> #[trigger] s[i].name@ != #[trigger] s[j].name@
    &&& forall|i: int|
        0 <= i < s.len() ==> m.contains_key(#[trigger] s[i].name@) && m[s[i].name@] == (
            s[i].total_received,
            s[i].total_transmitted,
        )
    &&& forall|k: Seq<char>| #[trigger]
        m.contains_key(k) ==> exists|i: int| 0 <= i < s.len() && s[i].name@ == k
}

/// Calls `sysinfo::Networks::new_with_refreshed_list`, which reads the
/// machine's interfaces; nothing is claimed of what it finds.
#[verifier::external_body]
fn load_networks() -> Networks {
    Networks::new_with_refreshed_list()
}

/// Calls `sysinfo::Networks::refresh(true)`, which re-reads the machine's
/// interfaces and their counters; nothing is claimed of what it finds.
#[verifier::external_body]
fn refresh_networks(networks: &mut Networks) {
    networks.refresh(true)
}

/// Walks `sysinfo::Networks` (a map from interface name to its data) and
/// reads `total_received` and `total_transmitted` of each entry. Claimed: each
/// interface of the map comes out exactly once, with its totals.
#[verifier::external_body]
fn list_interfaces(networks: &Networks) -> (r: Vec<IfaceSample>)
    ensures
        lists_totals(r@, interface_totals(*networks)),
{
    let mut out = Vec::new();
    for (name, data) in networks.iter() {
        out.push(
            IfaceSample {
                name: name.clone(),
                total_received: data.total_received(),
                total_transmitted: data.total_transmitted(),
            },
        );
    }
    out
}

/// Calls `sysinfo::System::new_all`, which reads the machine's state.
#[verifier::external_body]
fn load_system() -> System {
    System::new_all()
}

/// Calls `sysinfo::System::refresh_all`, which re-reads the machine's state;
/// nothing is claimed of what it finds.
#[verifier::external_body]
fn refresh_system(system: &mut System) {
    system.refresh_all()
}

/// One process as the system reports it.
#[derive(Debug)]
pub struct ProcessSample {
    pub pid: u32,
    pub name: String,
    pub memory: u64,
}

pub open spec fn process_views(s: Seq<ProcessSample>) -> Seq<(u32, Seq<char>, u64)> {
    s.map_values(|p: ProcessSample| (p.pid, p.name@, p.memory))
}

/// What a `System` holds about its processes: one (id, name, memory in
/// bytes) triple per process.
pub uninterp spec fn process_table(system: System) -> Multiset<(u32, Seq<char>, u64)>;

/// Walks the processes of a `sysinfo::System` (a map from process id to
/// process) and reads each one's id (as `u32`), name (lossily decoded) and
/// `memory`. Claimed: each process comes out exactly once.
#[verifier::external_body]
fn list_processes(system: &System) -> (r: Vec<ProcessSample>)
    ensures
        process_views(r@).to_multiset() == process_table(*system),
{
    let mut out = Vec::new();
    for (pid, p) in system.processes().iter() {
        let name = p.name().to_string_lossy().into_owned();
        out.push(ProcessSample { pid: pid.as_u32(), name, memory: p.memory() });
    }
    out
}

/// The process ids of a process listing.
pub open spec fn pids_of(s: Seq<ProcessSample>) -> Set<u32> {
    Set::new(|p: u32| exists|i: int| 0 <= i < s.len() && s[i].pid == p)
}

/// The process ids of `list`.
fn pid_set(list: &Vec<ProcessSample>) -> (r: HashSet<u32>)
    ensures
        r@ == pids_of(list@),
{
    let n = list.len();
    let mut out: HashSet<u32> = HashSet::new();
    let mut i: usize = 0;
    while i < n
        invariant
            n == list@.len(),
            i <= n,
            out@ == pids_of(list@.take(i as int)),
        decreases n - i,
    {
        out.insert(list[i].pid);
        proof {
            let t = list@.take(i + 1);
            assert forall|p: u32| #[trigger] out@.contains(p) == pids_of(t).contains(p) by {
                if out@.contains(p) && p != list@[i as int].pid {
                    let k = choose|k: int| 0 <= k < i && list@.take(i as int)[k].pid == p;
                    assert(t[k].pid == p);
                }
                if pids_of(t).contains(p) {
                    let k = choose|k: int| 0 <= k < t.len() && t[k].pid == p;
                    if k < i {
                        assert(list@.take(i as int)[k].pid == p);
                    }
                }
                if p == list@[i as int].pid {
                    assert(t[i as int].pid == p);
                }
            }
            assert(out@ =~= pids_of(t));
        }
        i = i + 1;
    }
    assert(list@.take(n as int) =~= list@);
    out
}

/// The (name, memory) pairs of a process listing.
pub open spec fn name_memory(s: Seq<ProcessSample>) -> Seq<(Seq<char>, u64)> {
    s.map_values(|p: ProcessSample| (p.name@, p.memory))
}

/// The (id, name) pairs of a process listing.
pub open spec fn id_names(s: Seq<ProcessSample>) -> Seq<(u32, Seq<char>)> {
    s.map_values(|p: ProcessSample| (p.pid, p.name@))
}

/// The (name, memory) pairs of `list`, in order.
fn memory_pairs(list: &Vec<ProcessSample>) -> (r: Vec<(String, u64)>)
    ensures
        pairs_view(r@) == name_memory(list@),
{
    let n = list.len();
    let mut out: Vec<(String, u64)> = Vec::new();
    let mut i: usize = 0;
    while i < n
        invariant
            n == list@.len(),
            i <= n,
            pairs_view(out@) == name_memory(list@).take(i as int),
        decreases n - i,
    {
        let ghost before = out@;
        let item = (list[i].name.clone(), list[i].memory);
        out.push(item);
        proof {
            assert(out@ == before.push(item));
            assert(pairs_view(out@) =~= pairs_view(before).push((item.0@, item.1)));
            assert(pairs_view(out@) =~= name_memory(list@).take(i + 1));
        }
        i = i + 1;
    }
    assert(name_memory(list@).take(n as int) =~= name_memory(list@));
    out
}

/// The (id, name) pairs of `list`, in order.
fn id_name_pairs(list: &Vec<ProcessSample>) -> (r: Vec<(u32, String)>)
    ensures
        r@.map_values(|p: (u32, String)| (p.0, p.1@)) == id_names(list@),
{
    let n = list.len();
    let mut out: Vec<(u32, String)> = Vec::new();
    let mut i: usize = 0;
    while i < n
        invariant
            n == list@.len(),
            i <= n,
            out@.map_values(|p: (u32, String)| (p.0, p.1@)) == id_names(list@).take(i as int),
        decreases n - i,
    {
        let ghost before = out@;
        let item = (list[i].pid, list[i].name.clone());
        out.push(item);
        proof {
            assert(out@ == before.push(item));
            assert(out@.map_values(|p: (u32, String)| (p.0, p.1@)) =~= before.map_values(
                |p: (u32, String)| (p.0, p.1@),
            ).push((item.0, item.1@)));
            assert(out@.map_values(|p: (u32, String)| (p.0, p.1@)) =~= id_names(list@).take(i + 1));
        }
        i = i + 1;
    }
    assert(id_names(list@).take(n as int) =~= id_names(list@));
    out
}

pub open spec fn names_of(s: Seq<IfaceSample>) -> Seq<Seq<char>> {
    s.map_values(|x: IfaceSample| x.name@)
}


/// Text that holds one of the wireless keywords.
pub open spec fn holds_wifi_keyword(l: Seq<char>) -> bool {
    ||| occurs_in(l, "wi-fi"@)
    ||| occurs_in(l, "wifi"@)
    ||| occurs_in(l, "wlan"@)
    ||| occurs_in(l, "wireless"@)
    ||| occurs_in(l, "wi_fi"@)
}

/// A name that reads as a wireless interface once lowercased.
pub open spec fn is_wifi_name(name: Seq<char>) -> bool {
    holds_wifi_keyword(lowercase_of(name))
}

/// The loopback interface's name on Linux and on Windows.
pub open spec fn is_loopback_name(name: Seq<char>) -> bool {
    name == "lo"@ || name == "Loopback Pseudo-Interface 1"@
}

pub open spec fn first_wifi_from(names: Seq<Seq<char>>, i: int) -> Option<int>
    decreases names.len() - i,
{
    if i < 0 || i >= names.len() {
        None
    } else if is_wifi_name(names[i]) {
        Some(i)
    } else {
        first_wifi_from(names, i + 1)
    }
}

pub open spec fn first_non_loopback_from(names: Seq<Seq<char>>, i: int) -> Option<int>
    decreases names.len() - i,
{
    if i < 0 || i >= names.len() {
        None
    } else if !is_loopback_name(names[i]) {
        Some(i)
    } else {
        first_non_loopback_from(names, i + 1)
    }
}

/// The interface watched by default: the first wireless one, else the first
/// that is not loopback, else the first, else the empty name.
pub open spec fn default_iface(names: Seq<Seq<char>>) -> Seq<char> {
    match first_wifi_from(names, 0) {
        Some(i) => names[i],
        None => match first_non_loopback_from(names, 0) {
            Some(i) => names[i],
            None => if names.len() > 0 {
                names[0]
            } else {
                Seq::empty()
            },
        },
    }
}

/// Whether the (already lowercased) text `lower` holds one of the wireless
/// keywords "wi-fi", "wifi", "wlan", "wireless" or "wi_fi".
pub fn has_wifi_keyword(lower: &str) -> (r: bool)
    ensures
        r == holds_wifi_keyword(lower@),
{
    let l = chars_of(lower);
    occurs(&l, &chars_of("wi-fi")) || occurs(&l, &chars_of("wifi")) || occurs(&l, &chars_of("wlan"))
        || occurs(&l, &chars_of("wireless")) || occurs(&l, &chars_of("wi_fi"))
}

/// Whether `name`, lowercased, holds one of the wireless keywords.
pub fn looks_like_wifi(name: &String) -> (r: bool)
    ensures
        r == is_wifi_name(name@),
{
    let lower = to_lowercase(name.as_str());
    has_wifi_keyword(lower.as_str())
}

/// Whether `name` is a loopback interface's name.
pub fn is_loopback(name: &String) -> (r: bool)
    ensures
        r == is_loopback_name(name@),
{
    same_text(name.as_str(), "lo") || same_text(name.as_str(), "Loopback Pseudo-Interface 1")
}

/// The interface to watch by default among `names` (listed in the system's order).
pub fn pick_default_iface(names: &Vec<String>) -> (r: String)
    ensures
        r@ == default_iface(string_views(names@)),
{
    let ghost v = string_views(names@);
    let n = names.len();
    let mut i: usize = 0;
    while i < n
        invariant
            n == names@.len(),
            v == string_views(names@),
            i <= n,
            first_wifi_from(v, i as int) == first_wifi_from(v, 0),
        decreases n - i,
    {
        if looks_like_wifi(&names[i]) {
            return names[i].clone();
        }
        i = i + 1;
    }
    let mut j: usize = 0;
    while j < n
        invariant
            n == names@.len(),
            v == string_views(names@),
            j <= n,
            first_wifi_from(v, 0) is None,
            first_non_loopback_from(v, j as int) == first_non_loopback_from(v, 0),
        decreases n - j,
    {
        if !is_loopback(&names[j]) {
            return names[j].clone();
        }
        j = j + 1;
    }
    if n > 0 {
        names[0].clone()
    } else {
        String::new()
    }
}

/// Received bytes per interface after storing each sample's total in turn.
pub open spec fn rx_totals(s: Seq<IfaceSample>) -> Map<Seq<char>, u64>
    decreases s.len(),
{
    if s.len() == 0 {
        Map::empty()
    } else {
        rx_totals(s.drop_last()).insert(s.last().name@, s.last().total_received)
    }
}

/// Transmitted bytes per interface after storing each sample's total in turn.
pub open spec fn tx_totals(s: Seq<IfaceSample>) -> Map<Seq<char>, u64>
    decreases s.len(),
{
    if s.len() == 0 {
        Map::empty()
    } else {
        tx_totals(s.drop_last()).insert(s.last().name@, s.last().total_transmitted)
    }
}

/// The watched interface and the last totals seen per interface.
pub struct NetCountersView {
    pub selected: Seq<char>,
    pub rx: Map<Seq<char>, u64>,
    pub tx: Map<Seq<char>, u64>,
}

/// Counters right after the interfaces `s` were first listed.
pub open spec fn initial_counters(s: Seq<IfaceSample>) -> NetCountersView {
    NetCountersView { selected: default_iface(names_of(s)), rx: rx_totals(s), tx: tx_totals(s) }
}

/// Index of the first sample named `name` at or after `i`.
pub open spec fn first_named_from(s: Seq<IfaceSample>, name: Seq<char>, i: int) -> Option<int>
    decreases s.len() - i,
{
    if i < 0 || i >= s.len() {
        None
    } else if s[i].name@ == name {
        Some(i)
    } else {
        first_named_from(s, name, i + 1)
    }
}

/// `a - b`, or 0 when `b` is larger (a counter that went backwards).
pub open spec fn sat_sub(a: u64, b: u64) -> u64 {
    if a >= b {
        (a - b) as u64
    } else {
        0
    }
}

/// The value under `k`, or `dflt` when there is none.
pub open spec fn get_or(m: Map<Seq<char>, u64>, k: Seq<char>, dflt: u64) -> u64 {
    if m.contains_key(k) {
        m[k]
    } else {
        dflt
    }
}

/// Bytes (up, down) on the watched interface since its totals were last
/// stored; (0, 0) when the interface is not listed. An interface without
/// stored totals counts as unchanged.
pub open spec fn rates_after(c: NetCountersView, s: Seq<IfaceSample>) -> (u64, u64) {
    match first_named_from(s, c.selected, 0) {
        None => (0, 0),
        Some(i) => (
            sat_sub(s[i].total_transmitted, get_or(c.tx, c.selected, s[i].total_transmitted)),
            sat_sub(s[i].total_received, get_or(c.rx, c.selected, s[i].total_received)),
        ),
    }
}

/// The counters after a refresh that listed `s`: the watched interface's
/// totals are stored, nothing else changes.
pub open spec fn counters_after(c: NetCountersView, s: Seq<IfaceSample>) -> NetCountersView {
    match first_named_from(s, c.selected, 0) {
        None => c,
        Some(i) => NetCountersView {
            selected: c.selected,
            rx: c.rx.insert(c.selected, s[i].total_received),
            tx: c.tx.insert(c.selected, s[i].total_transmitted),
        },
    }
}

/// What one refresh reports: the watched interface, its upload and download
/// bytes since the previous refresh, and all interfaces.
#[derive(Debug)]
pub struct NetStats {
    pub interface: String,
    pub upload_bps: u64,
    pub download_bps: u64,
    pub interfaces: Vec<String>,
}

/// `stats` is the report of a refresh from counters `c` that listed `s`.
pub open spec fn reports(stats: NetStats, c: NetCountersView, s: Seq<IfaceSample>) -> bool {
    &&& stats.interface@ == c.selected
    &&& stats.upload_bps == rates_after(c, s).0
    &&& stats.download_bps == rates_after(c, s).1
    &&& string_views(stats.interfaces@) == names_of(s)
}

/// The names of the listed interfaces, in order.
pub fn interface_names(samples: &Vec<IfaceSample>) -> (r: Vec<String>)
    ensures
        string_views(r@) == names_of(samples@),
{
    let n = samples.len();
    let mut out: Vec<String> = Vec::new();
    let mut i: usize = 0;
    while i < n
        invariant
            n == samples@.len(),
            i <= n,
            string_views(out@) == names_of(samples@).take(i as int),
        decreases n - i,
    {
        let ghost before = out@;
        let name = samples[i].name.clone();
        out.push(name);
        proof {
            assert(string_views(before).len() == i);
            assert(before.len() == i);
            assert(out@ == before.push(name));
            assert(out@.len() == i + 1);
            assert(string_views(out@).len() == i + 1);
            assert forall|k: int| 0 <= k < i + 1 implies #[trigger] string_views(out@)[k]
                == names_of(samples@).take(i + 1)[k] by {
                if k < i {
                    assert(string_views(before)[k] == names_of(samples@).take(i as int)[k]);
                }
            }
            assert(string_views(out@) =~= names_of(samples@).take(i + 1));
        }
        i = i + 1;
    }
    assert(names_of(samples@).take(n as int) =~= names_of(samples@));
    out
}

/// Which interface is watched and the totals last seen per interface.
pub struct NetCounters {
    selected_iface: String,
    prev_rx: CounterTable,
    prev_tx: CounterTable,
}

impl NetCounters {
    pub closed spec fn wf(&self) -> bool {
        self.prev_rx.wf() && self.prev_tx.wf()
    }

    pub closed spec fn view(&self) -> NetCountersView {
        NetCountersView {
            selected: self.selected_iface@,
            rx: self.prev_rx.view(),
            tx: self.prev_tx.view(),
        }
    }

    /// Counters for interfaces first listed as `samples`: the default
    /// interface is watched and every listed total is stored.
    pub fn from_samples(samples: &Vec<IfaceSample>) -> (r: NetCounters)
        ensures
            r.wf(),
            r.view() == initial_counters(samples@),
    {
        let names = interface_names(samples);
        let selected = pick_default_iface(&names);
        let mut rx = CounterTable::new();
        let mut tx = CounterTable::new();
        let n = samples.len();
        let mut i: usize = 0;
        while i < n
            invariant
                n == samples@.len(),
                i <= n,
                rx.wf(),
                tx.wf(),
                rx.view() == rx_totals(samples@.take(i as int)),
                tx.view() == tx_totals(samples@.take(i as int)),
            decreases n - i,
        {
            rx.insert(samples[i].name.clone(), samples[i].total_received);
            tx.insert(samples[i].name.clone(), samples[i].total_transmitted);
            proof {
                assert(samples@.take(i + 1).drop_last() =~= samples@.take(i as int));
            }
            i = i + 1;
        }
        assert(samples@.take(n as int) =~= samples@);
        NetCounters { selected_iface: selected, prev_rx: rx, prev_tx: tx }
    }

    /// The interface being watched.
    pub fn current_interface(&self) -> (r: String)
        ensures
            r@ == self.view().selected,
    {
        self.selected_iface.clone()
    }

    /// Watches `name` from now on; stored totals are kept.
    pub fn set_interface(&mut self, name: String)
        requires
            old(self).wf(),
        ensures
            final(self).wf(),
            final(self).view() == (NetCountersView { selected: name@, ..old(self).view() }),
    {
        self.selected_iface = name;
    }

    /// Reports the watched interface's traffic since the previous refresh
    /// from the freshly listed `samples` and stores its new totals.
    pub fn update(&mut self, samples: &Vec<IfaceSample>) -> (stats: NetStats)
        requires
            old(self).wf(),
        ensures
            final(self).wf(),
            reports(stats, old(self).view(), samples@),
            final(self).view() == counters_after(old(self).view(), samples@),
    {
        let ifaces = interface_names(samples);
        let n = samples.len();
        let mut i: usize = 0;
        while i < n
            invariant
                n == samples@.len(),
                i <= n,
                first_named_from(samples@, self.selected_iface@, i as int) == first_named_from(
                    samples@,
                    self.selected_iface@,
                    0,
                ),
                self.wf(),
                self.view() == old(self).view(),
                string_views(ifaces@) == names_of(samples@),
            decreases n - i,
        {
            if samples[i].name == self.selected_iface {
                let rx = samples[i].total_received;
                let tx = samples[i].total_transmitted;
                let prev_rx = match self.prev_rx.get(&samples[i].name) {
                    Some(v) => v,
                    None => rx,
                };
                let prev_tx = match self.prev_tx.get(&samples[i].name) {
                    Some(v) => v,
                    None => tx,
                };
                self.prev_rx.insert(samples[i].name.clone(), rx);
                self.prev_tx.insert(samples[i].name.clone(), tx);
                let down = rx.saturating_sub(prev_rx);
                let up = tx.saturating_sub(prev_tx);
                return NetStats {
                    interface: self.selected_iface.clone(),
                    upload_bps: up,
                    download_bps: down,
                    interfaces: ifaces,
                };
            }
            i = i + 1;
        }
        NetStats {
            interface: self.selected_iface.clone(),
            upload_bps: 0,
            download_bps: 0,
            interfaces: ifaces,
        }
    }
}

/// The name of process `pid` in `names`: the first listed, or the id in
/// decimal when it is not listed.
fn process_name(names: &Vec<(u32, String)>, pid: u32) -> (r: String)
    ensures
        name_for(names@.map_values(|p: (u32, String)| (p.0, p.1@)), pid, r),
{
    let ghost v = names@.map_values(|p: (u32, String)| (p.0, p.1@));
    let n = names.len();
    let mut i: usize = 0;
    while i < n
        invariant
            n == names@.len(),
            v == names@.map_values(|p: (u32, String)| (p.0, p.1@)),
            i <= n,
            forall|j: int| 0 <= j < i ==> v[j].0 != pid,
        decreases n - i,
    {
        if names[i].0 == pid {
            proof {
                let c = choose_first_pid(v, pid);
                assert(v[i as int].0 == pid && forall|j: int| 0 <= j < i ==> v[j].0 != pid);
                assert(c == i as int);
            }
            return names[i].1.clone();
        }
        i = i + 1;
    }
    pid.to_string()
}

/// Each of `top`, in order, under its name in `names`.
fn name_processes(top: &Vec<PidRate>, names: &Vec<(u32, String)>) -> (r: Vec<NetProcEntry>)
    ensures
        r@.len() == top@.len(),
        forall|i: int|
            0 <= i < r@.len() ==> {
                &&& r@[i].up_bps == top@[i].up_bps
                &&& r@[i].down_bps == top@[i].down_bps
                &&& name_for(names@.map_values(|p: (u32, String)| (p.0, p.1@)), top@[i].pid, r@[i].name)
            },
{
    let n = top.len();
    let mut out: Vec<NetProcEntry> = Vec::new();
    let mut i: usize = 0;
    while i < n
        invariant
            n == top@.len(),
            i <= n,
            out@.len() == i,
            forall|j: int|
                0 <= j < i ==> {
                    &&& #[trigger] out@[j].up_bps == top@[j].up_bps
                    &&& out@[j].down_bps == top@[j].down_bps
                    &&& name_for(names@.map_values(|p: (u32, String)| (p.0, p.1@)), top@[j].pid, out@[j].name)
                },
        decreases n - i,
    {
        let r = top[i];
        let name = process_name(names, r.pid);
        out.push(NetProcEntry { name, up_bps: r.up_bps, down_bps: r.down_bps });
        i = i + 1;
    }
    out
}

/// The widget's monitoring state: the machine's interfaces and processes as
/// `sysinfo` reads them, and the interface counters.
pub struct MonitorState {
    pub system: System,
    networks: Networks,
    counters: NetCounters,
    prev_proc: HashMap<u32, (u64, u64)>,
    last_sample_ms: Option<u64>,
}

/// Number of processes the per-process view lists.
pub const TOP_NET_PROCS: usize = 5;

/// One process in the per-process view: its name and rates.
#[derive(Debug)]
pub struct NetProcEntry {
    pub name: String,
    pub up_bps: u64,
    pub down_bps: u64,
}

/// The per-process view: whether per-process counting works at all, the
/// watched interface and the busiest processes.
#[derive(Debug)]
pub struct NetProcInfo {
    pub available: bool,
    pub interface: String,
    pub procs: Vec<NetProcEntry>,
}

/// Milliseconds from the previous sample at `last` to `now` (0 when there is
/// none, or when the clock did not advance).
pub open spec fn elapsed_since(last: Option<u64>, now: u64) -> u64 {
    match last {
        Some(t) => if now > t {
            (now - t) as u64
        } else {
            0
        },
        None => 0,
    }
}

/// `name` is what the process `pid` is called in `names`: the first listed
/// name of that id, or, for an id not listed, its decimal rendering.
pub open spec fn name_for(names: Seq<(u32, Seq<char>)>, pid: u32, name: String) -> bool {
    if exists|i: int| 0 <= i < names.len() && names[i].0 == pid {
        name@ == names[choose_first_pid(names, pid)].1
    } else {
        vstd::string::to_string_from_display_ensures::<u32>(&pid, name)
    }
}

/// Index of the first entry of `names` with id `pid`.
pub open spec fn choose_first_pid(names: Seq<(u32, Seq<char>)>, pid: u32) -> int {
    choose|i: int|
        0 <= i < names.len() && names[i].0 == pid && forall|j: int|
            0 <= j < i ==> names[j].0 != pid
}

/// `procs` shows, in order, the processes picked from `rates` by `idx`, each
/// under its name in `names`.
pub open spec fn shows(procs: Seq<NetProcEntry>, rates: Seq<PidRate>, idx: Seq<usize>, names: Seq<(u32, Seq<char>)>) -> bool {
    &&& procs.len() == idx.len()
    &&& forall|i: int|
        0 <= i < procs.len() ==> {
            let r = #[trigger] rates[idx[i] as int];
            &&& procs[i].up_bps == r.up_bps
            &&& procs[i].down_bps == r.down_bps
            &&& name_for(names, r.pid, procs[i].name)
        }
}

impl MonitorState {
    pub closed spec fn wf(&self) -> bool {
        self.counters.wf()
    }

    /// The interfaces the state last read, with their totals.
    pub closed spec fn interfaces_view(&self) -> Map<Seq<char>, (u64, u64)> {
        interface_totals(self.networks)
    }

    /// The processes the state last read: (id, name, memory) per process.
    pub closed spec fn processes_view(&self) -> Multiset<(u32, Seq<char>, u64)> {
        process_table(self.system)
    }

    /// The watched interface and the totals last stored per interface.
    pub closed spec fn counters_view(&self) -> NetCountersView {
        self.counters.view()
    }

    /// Reads the machine's interfaces and processes, watches the default
    /// interface (in the order the interfaces were listed) and stores every
    /// interface's totals.
    pub fn new() -> (r: MonitorState)
        ensures
            r.wf(),
            exists|s: Seq<IfaceSample>|
                lists_totals(s, r.interfaces_view()) && r.counters_view() == initial_counters(s),
    {
        let mut networks = load_networks();
        refresh_networks(&mut networks);
        let samples = list_interfaces(&networks);
        let counters = NetCounters::from_samples(&samples);
        MonitorState {
            system: load_system(),
            networks,
            counters,
            prev_proc: HashMap::new(),
            last_sample_ms: None,
        }
    }

    /// Re-reads the interfaces and reports the watched interface's upload and
    /// download bytes since the previous refresh; its new totals are stored.
    pub fn refresh_net(&mut self) -> (stats: NetStats)
        requires
            old(self).wf(),
        ensures
            final(self).wf(),
            exists|s: Seq<IfaceSample>|
                lists_totals(s, final(self).interfaces_view()) && reports(
                    stats,
                    old(self).counters_view(),
                    s,
                ) && final(self).counters_view() == counters_after(old(self).counters_view(), s),
    {
        refresh_networks(&mut self.networks);
        let samples = list_interfaces(&self.networks);
        let stats = self.counters.update(&samples);
        assert(lists_totals(samples@, self.interfaces_view()));
        stats
    }

    /// Watches `name` from now on.
    pub fn set_interface(&mut self, name: String)
        requires
            old(self).wf(),
        ensures
            final(self).wf(),
            final(self).counters_view() == (NetCountersView {
                selected: name@,
                ..old(self).counters_view()
            }),
            final(self).interfaces_view() == old(self).interfaces_view(),
    {
        self.counters.set_interface(name);
    }

    /// The interface being watched.
    pub fn current_interface(&self) -> (r: String)
        ensures
            r@ == self.counters_view().selected,
    {
        self.counters.current_interface()
    }

    /// Re-reads the machine's processes and returns the `n` process names
    /// using the most memory, with their memory summed over the processes of
    /// that name, largest first (in some listing order of the processes).
    /// `None` when a sum would pass `u64::MAX`.
    pub fn memory_top(&mut self, n: usize) -> (r: Option<Vec<(String, u64)>>)
        requires
            old(self).wf(),
        ensures
            final(self).wf(),
            final(self).counters_view() == old(self).counters_view(),
            final(self).interfaces_view() == old(self).interfaces_view(),
            exists|l: Seq<ProcessSample>|
                process_views(l).to_multiset() == final(self).processes_view() && match totals_by_name(name_memory(l)) {
                    None => r is None,
                    Some(a) => r matches Some(v) && largest_amounts(a, n as nat, pairs_view(v@)),
                },
    {
        refresh_system(&mut self.system);
        let list = list_processes(&self.system);
        let pairs = memory_pairs(&list);
        match total_by_name(&pairs) {
            None => None,
            Some(totals) => Some(largest(&totals, n)),
        }
    }

    /// The cumulative per-process counters of the previous per-process
    /// sample, and when it was taken.
    pub closed spec fn proc_sample_view(&self) -> (Map<u32, (u64, u64)>, Option<u64>) {
        (self.prev_proc@, self.last_sample_ms)
    }

    /// The per-process view at time `now_ms` (milliseconds on a monotonic
    /// clock) from the cumulative per-process counters `counts`: when
    /// per-process counting is `available`, the `TOP_NET_PROCS` processes
    /// with the most traffic per second since the previous sample, named
    /// after the freshly read process list; `counts` becomes the previous
    /// sample. When it is not available, no process is listed and nothing is
    /// stored.
    pub fn refresh_net_processes(
        &mut self,
        available: bool,
        counts: &HashMap<u32, (u64, u64)>,
        now_ms: u64,
    ) -> (r: NetProcInfo)
        requires
            old(self).wf(),
        ensures
            final(self).wf(),
            final(self).counters_view() == old(self).counters_view(),
            final(self).interfaces_view() == old(self).interfaces_view(),
            r.available == available,
            r.interface@ == old(self).counters_view().selected,
            !available ==> r.procs@.len() == 0 && final(self).proc_sample_view()
                == old(self).proc_sample_view(),
            available ==> final(self).proc_sample_view() == (counts@, Some(now_ms)),
            available ==> exists|rates: Seq<PidRate>, idx: Seq<usize>, listing: Seq<ProcessSample>|
                {
                    &&& lists_rates(
                        rates,
                        old(self).proc_sample_view().0,
                        counts@,
                        elapsed_since(old(self).proc_sample_view().1, now_ms),
                    )
                    &&& process_views(listing).to_multiset() == final(self).processes_view()
                    &&& is_top(total_keys(rates), TOP_NET_PROCS as nat, idx)
                    &&& shows(r.procs@, rates, idx, id_names(listing))
                },
    {
        let interface = self.counters.current_interface();
        if !available {
            return NetProcInfo { available: false, interface, procs: Vec::new() };
        }
        let elapsed: u64 = match self.last_sample_ms {
            Some(t) => if now_ms > t {
                now_ms - t
            } else {
                0
            },
            None => 0,
        };
        let rates = pid_rates(&self.prev_proc, counts, elapsed);
        let top = top_net_procs(&rates, TOP_NET_PROCS);
        self.prev_proc = counts.clone();
        self.last_sample_ms = Some(now_ms);
        refresh_system(&mut self.system);
        let list = list_processes(&self.system);
        let names = id_name_pairs(&list);
        let procs = name_processes(&top, &names);
        let info = NetProcInfo { available: true, interface, procs };
        proof {
            let idx = choose|idx: Seq<usize>|
                is_top(total_keys(rates@), TOP_NET_PROCS as nat, idx) && top@ == idx.map_values(
                    |i: usize| rates@[i as int],
                );
            let nv = names@.map_values(|p: (u32, String)| (p.0, p.1@));
            assert forall|i: int| 0 <= i < info.procs@.len() implies #[trigger] top@[i] == rates@[idx[i] as int] by {
                assert(top@[i] == idx.map_values(|k: usize| rates@[k as int])[i]);
            }
            assert(shows(info.procs@, rates@, idx, nv));
        }
        info
    }

    /// The ids of the processes the state last read, each once.
    pub fn live_pids(&self) -> (r: HashSet<u32>)
        ensures
            exists|l: Seq<ProcessSample>|
                process_views(l).to_multiset() == self.processes_view() && r@ == pids_of(l),
    {
        let list = list_processes(&self.system);
        pid_set(&list)
    }

    /// The names of the interfaces last read, each once.
    pub fn interfaces(&self) -> (r: Vec<String>)
        ensures
            exists|s: Seq<IfaceSample>|
                lists_totals(s, self.interfaces_view()) && string_views(r@) == names_of(s),
    {
        let samples = list_interfaces(&self.networks);
        interface_names(&samples)
    }
}

/// Refreshing again while no interface counter moved reports no traffic: the
/// first refresh stored the watched interface's totals.
pub proof fn lemma_repeat_refresh_reports_nothing(c: NetCountersView, s: Seq<IfaceSample>)
    ensures
        rates_after(counters_after(c, s), s) == (0u64, 0u64),
{
}

/// With each interface listed once, the totals stored for `s[i]` are its own.
pub proof fn lemma_totals_of_listed(s: Seq<IfaceSample>, i: int)
    requires
        0 <= i < s.len(),
        forall|a: int, b: int|
            0 <= a < s.len() && 0 <= b < s.len() && a != b ==> #[trigger] s[a].name@ != #[trigger] s[b].name@,
    ensures
        rx_totals(s).contains_key(s[i].name@),
        rx_totals(s)[s[i].name@] == s[i].total_received,
        tx_totals(s).contains_key(s[i].name@),
        tx_totals(s)[s[i].name@] == s[i].total_transmitted,
    decreases s.len(),
{
    let last = s.len() - 1;
    if i < last {
        let t = s.drop_last();
        assert(t[i] == s[i]);
        assert forall|a: int, b: int|
            0 <= a < t.len() && 0 <= b < t.len() && a != b implies #[trigger] t[a].name@ != #[trigger] t[b].name@ by {
            assert(t[a] == s[a] && t[b] == s[b]);
        }
        lemma_totals_of_listed(t, i);
        assert(s[i].name@ != s[last].name@);
    }
}

/// The first refresh after the interfaces were first listed reports no
/// traffic when no counter moved in between, whichever interface is watched.
pub proof fn lemma_first_refresh_reports_nothing(s: Seq<IfaceSample>, m: Map<Seq<char>, (u64, u64)>, selected: Seq<char>)
    requires
        lists_totals(s, m),
    ensures
        rates_after(NetCountersView { selected, ..initial_counters(s) }, s) == (0u64, 0u64),
{
    let c = NetCountersView { selected, ..initial_counters(s) };
    match first_named_from(s, selected, 0) {
        Some(i) => {
            lemma_first_named(s, selected, 0);
            lemma_totals_of_listed(s, i);
        },
        None => {},
    }
}

/// `first_named_from` finds an entry of that name, at or after `k`.
pub proof fn lemma_first_named(s: Seq<IfaceSample>, name: Seq<char>, k: int)
    requires
        first_named_from(s, name, k) is Some,
    ensures
        k <= first_named_from(s, name, k)->0 < s.len(),
        s[first_named_from(s, name, k)->0].name@ == name,
    decreases s.len() - k,
{
    if 0 <= k < s.len() && s[k].name@ != name {
        lemma_first_named(s, name, k + 1);
    }
}

proof fn lemma_first_wifi(names: Seq<Seq<char>>, k: int)
    requires
        0 <= k,
    ensures
        first_wifi_from(names, k) matches Some(j) ==> k <= j < names.len() && is_wifi_name(names[j]),
        (exists|j: int| k <= j < names.len() && is_wifi_name(names[j])) ==> first_wifi_from(names, k) is Some,
    decreases names.len() - k,
{
    if k < names.len() {
        lemma_first_wifi(names, k + 1);
        if exists|j: int| k <= j < names.len() && is_wifi_name(names[j]) {
            let j = choose|j: int| k <= j < names.len() && is_wifi_name(names[j]);
            if j > k {
                assert(k + 1 <= j);
            }
        }
    }
}

proof fn lemma_first_non_loopback(names: Seq<Seq<char>>, k: int)
    requires
        0 <= k,
    ensures
        first_non_loopback_from(names, k) matches Some(j) ==> k <= j < names.len() && !is_loopback_name(names[j]),
    decreases names.len() - k,
{
    if k < names.len() {
        lemma_first_non_loopback(names, k + 1);
    }
}

/// The default interface is one of the listed interfaces (the empty name
/// when none is listed), and a wireless one whenever one is listed.
pub proof fn lemma_default_iface_is_listed(names: Seq<Seq<char>>)
    ensures
        names.len() > 0 ==> names.contains(default_iface(names)),
        names.len() == 0 ==> default_iface(names) == Seq::<char>::empty(),
        (exists|j: int| 0 <= j < names.len() && is_wifi_name(names[j])) ==> is_wifi_name(default_iface(names)),
{
    lemma_first_wifi(names, 0);
    lemma_first_non_loopback(names, 0);
    if names.len() > 0 {
        match first_wifi_from(names, 0) {
            Some(i) => {
                assert(names[i] == default_iface(names));
            },
            None => match first_non_loopback_from(names, 0) {
                Some(i) => {
                    assert(names[i] == default_iface(names));
                },
                None => {
                    assert(names[0] == default_iface(names));
                },
            },
        }
    }
}

/// The counters after refreshes that listed `ss[0]`, `ss[1]`, ... in turn.
pub open spec fn refresh_chain(c: NetCountersView, ss: Seq<Seq<IfaceSample>>) -> NetCountersView
    decreases ss.len(),
{
    if ss.len() == 0 {
        c
    } else {
        counters_after(refresh_chain(c, ss.drop_last()), ss.last())
    }
}

/// Upload bytes reported over the refreshes that listed `ss` in turn.
pub open spec fn upload_sum(c: NetCountersView, ss: Seq<Seq<IfaceSample>>) -> int
    decreases ss.len(),
{
    if ss.len() == 0 {
        0
    } else {
        upload_sum(c, ss.drop_last()) + rates_after(refresh_chain(c, ss.drop_last()), ss.last()).0
    }
}

/// Download bytes reported over the refreshes that listed `ss` in turn.
pub open spec fn download_sum(c: NetCountersView, ss: Seq<Seq<IfaceSample>>) -> int
    decreases ss.len(),
{
    if ss.len() == 0 {
        0
    } else {
        download_sum(c, ss.drop_last()) + rates_after(refresh_chain(c, ss.drop_last()), ss.last()).1
    }
}

/// The sample of interface `name` in the listing `s` (its first).
pub open spec fn sample_named(s: Seq<IfaceSample>, name: Seq<char>) -> IfaceSample {
    s[first_named_from(s, name, 0)->0]
}

/// Every listing of `ss` holds the watched interface of `c`, whose totals are
/// stored in `c` and never go down from there through the listings.
pub open spec fn totals_grow(c: NetCountersView, ss: Seq<Seq<IfaceSample>>) -> bool {
    let sel = c.selected;
    &&& forall|k: int| 0 <= k < ss.len() ==> (#[trigger] first_named_from(ss[k], sel, 0)) is Some
    &&& c.rx.contains_key(sel)
    &&& c.tx.contains_key(sel)
    &&& ss.len() > 0 ==> c.rx[sel] <= sample_named(ss[0], sel).total_received && c.tx[sel]
        <= sample_named(ss[0], sel).total_transmitted
    &&& forall|k: int|
        0 < k < ss.len() ==> sample_named(ss[k - 1], sel).total_received <= (#[trigger] sample_named(
            ss[k],
            sel,
        )).total_received && sample_named(ss[k - 1], sel).total_transmitted <= sample_named(
            ss[k],
            sel,
        ).total_transmitted
}

/// Rates add up: over refreshes whose listings hold the watched interface
/// with totals that never go down, the reported upload and download bytes sum
/// to how far its totals grew beyond the ones stored before the first refresh,
/// and the totals of the last listing end up stored.
pub proof fn lemma_rates_add_up(c: NetCountersView, ss: Seq<Seq<IfaceSample>>)
    requires
        totals_grow(c, ss),
    ensures
        refresh_chain(c, ss).selected == c.selected,
        refresh_chain(c, ss).rx.contains_key(c.selected),
        refresh_chain(c, ss).tx.contains_key(c.selected),
        ss.len() > 0 ==> refresh_chain(c, ss).rx[c.selected] == sample_named(
            ss.last(),
            c.selected,
        ).total_received && refresh_chain(c, ss).tx[c.selected] == sample_named(
            ss.last(),
            c.selected,
        ).total_transmitted,
        download_sum(c, ss) == refresh_chain(c, ss).rx[c.selected] - c.rx[c.selected],
        upload_sum(c, ss) == refresh_chain(c, ss).tx[c.selected] - c.tx[c.selected],
    decreases ss.len(),
{
    if ss.len() > 0 {
        let sel = c.selected;
        let t = ss.drop_last();
        assert forall|k: int| 0 <= k < t.len() implies (#[trigger] first_named_from(t[k], sel, 0)) is Some by {
            assert(t[k] == ss[k]);
            assert(first_named_from(ss[k], sel, 0) is Some);
        }
        assert forall|k: int| 0 < k < t.len() implies sample_named(t[k - 1], sel).total_received
            <= (#[trigger] sample_named(t[k], sel)).total_received && sample_named(
            t[k - 1],
            sel,
        ).total_transmitted <= sample_named(t[k], sel).total_transmitted by {
            assert(t[k] == ss[k] && t[k - 1] == ss[k - 1]);
            assert(sample_named(ss[k], sel) == sample_named(t[k], sel));
        }
        if t.len() > 0 {
            assert(t[0] == ss[0]);
        }
        lemma_rates_add_up(c, t);
        let prev = refresh_chain(c, t);
        let last = ss.last();
        assert(last == ss[ss.len() - 1]);
        assert(first_named_from(ss[ss.len() - 1], sel, 0) is Some);
        let i = first_named_from(last, sel, 0)->0;
        lemma_first_named(last, sel, 0);
        if t.len() > 0 {
            assert(t.last() == ss[ss.len() - 2]);
            assert(sample_named(ss[ss.len() - 1], sel) == sample_named(last, sel));
        }
    }
}

/// From the start: after the interfaces were first listed as `s0`, holding
/// the watched interface, refreshes whose listings hold it with totals that
/// never go down report, summed up, exactly how far its totals grew since
/// that first listing.
pub proof fn lemma_rates_since_start(
    s0: Seq<IfaceSample>,
    m: Map<Seq<char>, (u64, u64)>,
    selected: Seq<char>,
    ss: Seq<Seq<IfaceSample>>,
)
    requires
        lists_totals(s0, m),
        first_named_from(s0, selected, 0) is Some,
        totals_grow(NetCountersView { selected, ..initial_counters(s0) }, ss),
    ensures
        ss.len() > 0 ==> download_sum(NetCountersView { selected, ..initial_counters(s0) }, ss)
            == sample_named(ss.last(), selected).total_received - sample_named(
            s0,
            selected,
        ).total_received,
        ss.len() > 0 ==> upload_sum(NetCountersView { selected, ..initial_counters(s0) }, ss)
            == sample_named(ss.last(), selected).total_transmitted - sample_named(
            s0,
            selected,
        ).total_transmitted,
{
    let c = NetCountersView { selected, ..initial_counters(s0) };
    lemma_first_named(s0, selected, 0);
    let i = first_named_from(s0, selected, 0)->0;
    lemma_totals_of_listed(s0, i);
    lemma_rates_add_up(c, ss);
}

/// Processes are shown under their names: in a per-process view drawn from
/// the process listing `listing`, an entry whose process id occurs in the
/// listing carries the name the listing gives that id (its first entry with
/// that id).
pub proof fn lemma_listed_processes_shown_by_name(
    procs: Seq<NetProcEntry>,
    rates: Seq<PidRate>,
    idx: Seq<usize>,
    listing: Seq<ProcessSample>,
)
    requires
        shows(procs, rates, idx, id_names(listing)),
    ensures
        forall|i: int, j: int|
            #![trigger procs[i], listing[j]]
            0 <= i < procs.len() && 0 <= j < listing.len() && listing[j].pid == rates[idx[i] as int].pid
                && (forall|k: int| 0 <= k < j ==> listing[k].pid != listing[j].pid) ==> procs[i].name@
                == listing[j].name@,
{
    let names = id_names(listing);
    assert forall|i: int, j: int|
        #![trigger procs[i], listing[j]]
        0 <= i < procs.len() && 0 <= j < listing.len() && listing[j].pid == rates[idx[i] as int].pid
            && (forall|k: int| 0 <= k < j ==> listing[k].pid != listing[j].pid) implies procs[i].name@
        == listing[j].name@ by {
        let pid = rates[idx[i] as int].pid;
        assert(names[j] == (listing[j].pid, listing[j].name@));
        assert(0 <= j < names.len() && names[j].0 == pid);
        assert(forall|k: int| 0 <= k < j ==> names[k].0 != pid) by {
            assert forall|k: int| 0 <= k < j implies names[k].0 != pid by {
                assert(names[k] == (listing[k].pid, listing[k].name@));
            }
        }
        let c = choose_first_pid(names, pid);
        assert(0 <= c < names.len() && names[c].0 == pid && forall|k: int|
            0 <= k < c ==> names[k].0 != pid);
        if c < j {
            assert(names[c].0 != pid);
        }
        if j < c {
            assert(names[j].0 != pid);
        }
        assert(c == j);
    }
}

/// The wireless keywords are exactly "wi-fi", "wifi", "wlan", "wireless" and
/// "wi_fi": a text counts as holding one exactly when one of these occurs in it.
pub proof fn lemma_wifi_keywords(l: Seq<char>)
    ensures
        holds_wifi_keyword(l) <==> (occurs_in(l, "wi-fi"@) || occurs_in(l, "wifi"@) || occurs_in(
            l,
            "wlan"@,
        ) || occurs_in(l, "wireless"@) || occurs_in(l, "wi_fi"@)),
{
}

/// Wi-Fi first: when some listed name, lowercased, holds "wi-fi", "wifi",
/// "wlan", "wireless" or "wi_fi", the default interface is such a name, and
/// no earlier listed name is one.
pub proof fn lemma_default_is_first_keyword_name(names: Seq<Seq<char>>)
    ensures
        (exists|i: int|
            0 <= i < names.len() && {
                let l = lowercase_of(#[trigger] names[i]);
                occurs_in(l, "wi-fi"@) || occurs_in(l, "wifi"@) || occurs_in(l, "wlan"@)
                    || occurs_in(l, "wireless"@) || occurs_in(l, "wi_fi"@)
            }) ==> exists|i: int|
            0 <= i < names.len() && names[i] == default_iface(names) && {
                let l = lowercase_of(names[i]);
                occurs_in(l, "wi-fi"@) || occurs_in(l, "wifi"@) || occurs_in(l, "wlan"@)
                    || occurs_in(l, "wireless"@) || occurs_in(l, "wi_fi"@)
            } && forall|j: int|
                0 <= j < i ==> {
                    let l = lowercase_of(#[trigger] names[j]);
                    !(occurs_in(l, "wi-fi"@) || occurs_in(l, "wifi"@) || occurs_in(l, "wlan"@)
                        || occurs_in(l, "wireless"@) || occurs_in(l, "wi_fi"@))
                },
{
    if exists|i: int|
        0 <= i < names.len() && {
            let l = lowercase_of(#[trigger] names[i]);
            occurs_in(l, "wi-fi"@) || occurs_in(l, "wifi"@) || occurs_in(l, "wlan"@)
                || occurs_in(l, "wireless"@) || occurs_in(l, "wi_fi"@)
        } {
        let w = choose|i: int|
            0 <= i < names.len() && {
                let l = lowercase_of(#[trigger] names[i]);
                occurs_in(l, "wi-fi"@) || occurs_in(l, "wifi"@) || occurs_in(l, "wlan"@)
                    || occurs_in(l, "wireless"@) || occurs_in(l, "wi_fi"@)
            };
        assert(is_wifi_name(names[w]));
        lemma_first_wifi(names, 0);
        lemma_first_wifi_is_first(names, 0);
        let i = first_wifi_from(names, 0)->0;
        assert(names[i] == default_iface(names));
        assert forall|j: int| 0 <= j < i implies !is_wifi_name(#[trigger] names[j]) by {}
    }
}

proof fn lemma_first_wifi_is_first(names: Seq<Seq<char>>, k: int)
    requires
        0 <= k,
    ensures
        first_wifi_from(names, k) matches Some(j) ==> forall|q: int| k <= q < j ==> !is_wifi_name(
            #[trigger] names[q],
        ),
    decreases names.len() - k,
{
    if k < names.len() {
        lemma_first_wifi_is_first(names, k + 1);
    }
}

} // verus!
