use std::collections::HashSet;
use trafmon::netproc::{event_direction, Direction, NetProc, RecordOutcome};

#[test]
fn event_ids_map_to_directions() {
    for id in [10u16, 26, 42, 58] {
        assert_eq!(event_direction(id), Some(Direction::Send));
    }
    for id in [11u16, 27, 43, 59] {
        assert_eq!(event_direction(id), Some(Direction::Recv));
    }
    for id in [0u16, 12, 28, 44, 60, 65535] {
        assert_eq!(event_direction(id), None);
    }
}

#[test]
fn starts_idle() {
    let np = NetProc::new();
    assert!(!np.available());
    assert_eq!(np.events_seen(), 0);
    assert!(!np.stop_requested());
    assert!(np.counts_snapshot().is_empty());
}

#[test]
fn records_bytes_per_process() {
    let mut np = NetProc::new();
    assert_eq!(np.record(Direction::Send, 100, 7), RecordOutcome::Counted);
    assert_eq!(np.record(Direction::Recv, 40, 7), RecordOutcome::Counted);
    assert_eq!(np.record(Direction::Send, 5, 7), RecordOutcome::Counted);
    assert_eq!(np.record(Direction::Recv, 9, 3), RecordOutcome::Counted);
    let snap = np.counts_snapshot();
    assert_eq!(snap.get(&7), Some(&(105, 40)));
    assert_eq!(snap.get(&3), Some(&(0, 9)));
    assert_eq!(np.events_seen(), 4);
}

#[test]
fn empty_events_are_ignored() {
    let mut np = NetProc::new();
    assert_eq!(np.record(Direction::Send, 0, 7), RecordOutcome::Ignored);
    assert!(np.counts_snapshot().is_empty());
    assert_eq!(np.events_seen(), 0);
}

#[test]
fn large_events_accumulate() {
    let mut np = NetProc::new();
    let mut n = 0u64;
    while n < 8 {
        assert_eq!(np.record(Direction::Recv, u32::MAX, 1), RecordOutcome::Counted);
        n += 1;
    }
    assert_eq!(np.counts_snapshot().get(&1), Some(&(0, 8 * u32::MAX as u64)));
    assert_eq!(np.events_seen(), 8);
}

#[test]
fn retain_drops_dead_processes() {
    let mut np = NetProc::new();
    np.record(Direction::Send, 1, 1);
    np.record(Direction::Send, 2, 2);
    np.record(Direction::Send, 3, 3);
    let live: HashSet<u32> = [1u32, 3, 99].into_iter().collect();
    np.retain_pids(&live);
    let snap = np.counts_snapshot();
    assert_eq!(snap.len(), 2);
    assert_eq!(snap.get(&1), Some(&(1, 0)));
    assert_eq!(snap.get(&3), Some(&(3, 0)));
    assert_eq!(snap.get(&2), None);
    assert_eq!(np.events_seen(), 3);
}

#[test]
fn shutdown_stops_and_marks_unavailable() {
    let mut np = NetProc::new();
    np.set_available(true);
    assert!(np.available());
    np.record(Direction::Send, 10, 4);
    np.shutdown();
    assert!(!np.available());
    assert!(np.stop_requested());
    assert_eq!(np.counts_snapshot().get(&4), Some(&(10, 0)));
    assert_eq!(np.events_seen(), 1);
}

#[test]
fn counters_are_sums_of_events() {
    let mut np = NetProc::new();
    let events = [
        (Direction::Send, 10u32, 1u32),
        (Direction::Recv, 0, 1),
        (Direction::Recv, 7, 2),
        (Direction::Send, 5, 2),
        (Direction::Recv, 3, 1),
        (Direction::Send, 20, 1),
        (Direction::Send, 0, 9),
    ];
    for (d, size, pid) in events {
        assert_ne!(np.record(d, size, pid), RecordOutcome::Overflow);
    }
    let snap = np.counts_snapshot();
    assert_eq!(snap.len(), 2);
    assert_eq!(snap.get(&1), Some(&(30, 3)));
    assert_eq!(snap.get(&2), Some(&(5, 7)));
    assert_eq!(np.events_seen(), 5);
}
