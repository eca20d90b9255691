use std::collections::HashMap;
use trafmon::procrates::{bps_delta, pid_rates, rate_per_second, top_net_procs, PidRate};
use trafmon::rank::top_indices;
use trafmon::usage::{largest, total_by_name};

fn pairs(v: &[(&str, u64)]) -> Vec<(String, u64)> {
    v.iter().map(|(n, m)| (n.to_string(), *m)).collect()
}

#[test]
fn top_indices_largest_first_ties_in_order() {
    let keys: Vec<u128> = vec![5, 9, 5, 1, 9];
    assert_eq!(top_indices(&keys, 3), vec![1, 4, 0]);
    assert_eq!(top_indices(&keys, 10), vec![1, 4, 0, 2, 3]);
    assert_eq!(top_indices(&keys, 0), Vec::<usize>::new());
    assert_eq!(top_indices(&Vec::new(), 3), Vec::<usize>::new());
}

#[test]
fn memory_summed_per_name() {
    let list = pairs(&[("chrome", 100), ("code", 50), ("chrome", 70), ("sh", 1), ("code", 5)]);
    let totals = total_by_name(&list).unwrap();
    assert_eq!(totals, pairs(&[("chrome", 170), ("code", 55), ("sh", 1)]));
    assert_eq!(largest(&totals, 2), pairs(&[("chrome", 170), ("code", 55)]));
}

#[test]
fn memory_sum_overflow_is_reported() {
    let list = pairs(&[("a", u64::MAX), ("b", 1), ("a", 1)]);
    assert_eq!(total_by_name(&list), None);
    let list = pairs(&[("a", u64::MAX), ("b", 1)]);
    assert_eq!(total_by_name(&list), Some(pairs(&[("a", u64::MAX), ("b", 1)])));
}

#[test]
fn counter_deltas_and_rates() {
    assert_eq!(bps_delta(100, 250), 150);
    assert_eq!(bps_delta(250, 100), 0);
    assert_eq!(rate_per_second(1500, 1000), 1500);
    assert_eq!(rate_per_second(1500, 3000), 500);
    assert_eq!(rate_per_second(1500, 0), 0);
    assert_eq!(rate_per_second(u64::MAX, 1), u64::MAX);
}

#[test]
fn rates_per_process() {
    let mut prev: HashMap<u32, (u64, u64)> = HashMap::new();
    prev.insert(1, (100, 100));
    prev.insert(2, (50, 0));
    let mut cur: HashMap<u32, (u64, u64)> = HashMap::new();
    cur.insert(1, (300, 1100));
    cur.insert(3, (900, 900));
    let mut r = pid_rates(&prev, &cur, 2000);
    r.sort_by_key(|x| x.pid);
    assert_eq!(
        r,
        vec![
            PidRate { pid: 1, up_bps: 100, down_bps: 500 },
            PidRate { pid: 3, up_bps: 0, down_bps: 0 },
        ]
    );
}

#[test]
fn busiest_processes_first() {
    let rates = vec![
        PidRate { pid: 1, up_bps: 10, down_bps: 0 },
        PidRate { pid: 2, up_bps: 0, down_bps: 500 },
        PidRate { pid: 3, up_bps: 5, down_bps: 5 },
        PidRate { pid: 4, up_bps: 300, down_bps: 300 },
    ];
    let top = top_net_procs(&rates, 3);
    assert_eq!(top.iter().map(|r| r.pid).collect::<Vec<_>>(), vec![4, 2, 1]);
}
