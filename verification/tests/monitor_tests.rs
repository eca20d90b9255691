use std::collections::HashMap;
use trafmon::monitor::{
    has_wifi_keyword, interface_names, is_loopback, looks_like_wifi, pick_default_iface, IfaceSample, MonitorState,
    NetCounters, TOP_NET_PROCS,
};

fn names(v: &[&str]) -> Vec<String> {
    v.iter().map(|s| s.to_string()).collect()
}

fn sample(name: &str, rx: u64, tx: u64) -> IfaceSample {
    IfaceSample { name: name.to_string(), total_received: rx, total_transmitted: tx }
}

#[test]
fn wifi_keywords_ignore_case() {
    assert!(looks_like_wifi(&"Wi-Fi".to_string()));
    assert!(looks_like_wifi(&"WLAN0".to_string()));
    assert!(looks_like_wifi(&"Intel Wireless-AC".to_string()));
    assert!(looks_like_wifi(&"wi_fi 2".to_string()));
    assert!(looks_like_wifi(&"MyWIFI".to_string()));
    // 'İ' lowercases to 'i' and a combining dot, which ends the keyword here
    assert!(looks_like_wifi(&"WIFİ".to_string()));
    assert!(!looks_like_wifi(&"WİFI".to_string()));
    assert!(!looks_like_wifi(&"Ethernet".to_string()));
    assert!(!looks_like_wifi(&"eth0".to_string()));
}

#[test]
fn loopback_names() {
    assert!(is_loopback(&"lo".to_string()));
    assert!(is_loopback(&"Loopback Pseudo-Interface 1".to_string()));
    assert!(!is_loopback(&"lo0".to_string()));
    assert!(!is_loopback(&"eth0".to_string()));
}

#[test]
fn default_prefers_wifi() {
    assert_eq!(pick_default_iface(&names(&["lo", "Ethernet", "Wi-Fi", "WLAN 2"])), "Wi-Fi");
}

#[test]
fn default_falls_back_to_first_non_loopback() {
    assert_eq!(pick_default_iface(&names(&["lo", "Loopback Pseudo-Interface 1", "eth0", "eth1"])), "eth0");
}

#[test]
fn default_falls_back_to_first_then_empty() {
    assert_eq!(pick_default_iface(&names(&["lo", "Loopback Pseudo-Interface 1"])), "lo");
    assert_eq!(pick_default_iface(&names(&[])), "");
}

#[test]
fn names_in_listing_order() {
    let s = vec![sample("a", 1, 2), sample("b", 3, 4)];
    assert_eq!(interface_names(&s), names(&["a", "b"]));
}

#[test]
fn first_refresh_without_traffic_reports_zero() {
    let first = vec![sample("eth0", 1000, 500), sample("wlan0", 7000, 300)];
    let mut c = NetCounters::from_samples(&first);
    assert_eq!(c.current_interface(), "wlan0");
    let stats = c.update(&first);
    assert_eq!(stats.interface, "wlan0");
    assert_eq!((stats.upload_bps, stats.download_bps), (0, 0));
    assert_eq!(stats.interfaces, names(&["eth0", "wlan0"]));
}

#[test]
fn refresh_reports_bytes_since_last_refresh() {
    let mut c = NetCounters::from_samples(&vec![sample("wlan0", 7000, 300)]);
    let stats = c.update(&vec![sample("wlan0", 9000, 450)]);
    assert_eq!((stats.upload_bps, stats.download_bps), (150, 2000));
    let stats = c.update(&vec![sample("wlan0", 9100, 460)]);
    assert_eq!((stats.upload_bps, stats.download_bps), (10, 100));
    // the same totals again: nothing moved
    let stats = c.update(&vec![sample("wlan0", 9100, 460)]);
    assert_eq!((stats.upload_bps, stats.download_bps), (0, 0));
}

#[test]
fn counter_going_backwards_reports_zero() {
    let mut c = NetCounters::from_samples(&vec![sample("wlan0", 7000, 300)]);
    let stats = c.update(&vec![sample("wlan0", 10, 5)]);
    assert_eq!((stats.upload_bps, stats.download_bps), (0, 0));
    let stats = c.update(&vec![sample("wlan0", 110, 25)]);
    assert_eq!((stats.upload_bps, stats.download_bps), (20, 100));
}

#[test]
fn missing_interface_reports_zero() {
    let mut c = NetCounters::from_samples(&vec![sample("wlan0", 7000, 300)]);
    let stats = c.update(&vec![sample("eth0", 1, 1)]);
    assert_eq!(stats.interface, "wlan0");
    assert_eq!((stats.upload_bps, stats.download_bps), (0, 0));
    assert_eq!(stats.interfaces, names(&["eth0"]));
}

#[test]
fn switching_interface_uses_its_stored_totals() {
    let first = vec![sample("eth0", 1000, 500), sample("wlan0", 7000, 300)];
    let mut c = NetCounters::from_samples(&first);
    c.set_interface("eth0".to_string());
    assert_eq!(c.current_interface(), "eth0");
    let stats = c.update(&vec![sample("eth0", 1600, 800), sample("wlan0", 9000, 900)]);
    assert_eq!(stats.interface, "eth0");
    assert_eq!((stats.upload_bps, stats.download_bps), (300, 600));
    // wlan0's totals were not stored by that refresh
    c.set_interface("wlan0".to_string());
    let stats = c.update(&vec![sample("eth0", 1600, 800), sample("wlan0", 9000, 900)]);
    assert_eq!((stats.upload_bps, stats.download_bps), (600, 2000));
}

#[test]
fn new_interface_starts_without_traffic() {
    let mut c = NetCounters::from_samples(&vec![sample("eth0", 1, 1)]);
    c.set_interface("usb0".to_string());
    let stats = c.update(&vec![sample("eth0", 1, 1), sample("usb0", 5000, 5000)]);
    assert_eq!((stats.upload_bps, stats.download_bps), (0, 0));
    let stats = c.update(&vec![sample("eth0", 1, 1), sample("usb0", 5100, 5050)]);
    assert_eq!((stats.upload_bps, stats.download_bps), (50, 100));
}

#[test]
fn monitor_reads_this_machine() {
    let mut m = MonitorState::new();
    let ifaces = m.interfaces();
    let current = m.current_interface();
    assert!(ifaces.is_empty() || ifaces.contains(&current));
    let stats = m.refresh_net();
    assert_eq!(stats.interface, current);
    m.set_interface("no-such-interface".to_string());
    let stats = m.refresh_net();
    assert_eq!(stats.interface, "no-such-interface");
    assert_eq!((stats.upload_bps, stats.download_bps), (0, 0));
}

#[test]
fn monitor_lists_loopback_on_linux() {
    let m = MonitorState::new();
    let ifaces = m.interfaces();
    assert!(ifaces.contains(&"lo".to_string()));
}

#[test]
fn memory_top_lists_this_machines_processes() {
    let mut m = MonitorState::new();
    let top = m.memory_top(3).unwrap();
    assert!(!top.is_empty() && top.len() <= 3);
    for w in top.windows(2) {
        assert!(w[0].1 >= w[1].1);
    }
}

#[test]
fn per_process_view_when_unavailable() {
    let mut m = MonitorState::new();
    let counts: HashMap<u32, (u64, u64)> = HashMap::new();
    let info = m.refresh_net_processes(false, &counts, 0);
    assert!(!info.available);
    assert!(info.procs.is_empty());
    assert_eq!(info.interface, m.current_interface());
}

#[test]
fn per_process_view_rates() {
    let mut m = MonitorState::new();
    let me: u32 = 1;
    let mut counts: HashMap<u32, (u64, u64)> = HashMap::new();
    counts.insert(me, (1000, 2000));
    counts.insert(4_000_000_000, (0, 0));
    let info = m.refresh_net_processes(true, &counts, 1000);
    assert!(info.available);
    assert_eq!(info.procs.len(), 2);
    assert!(info.procs.iter().all(|p| p.up_bps == 0 && p.down_bps == 0));
    counts.insert(me, (3000, 2500));
    let info = m.refresh_net_processes(true, &counts, 3000);
    assert_eq!(info.procs.len(), 2);
    assert_eq!((info.procs[0].up_bps, info.procs[0].down_bps), (1000, 250));
    // the unknown process id is shown by its number
    assert_eq!(info.procs[1].name, "4000000000");
    assert!(info.procs.len() <= TOP_NET_PROCS);
}

#[test]
fn keyword_search_on_lowercased_text() {
    assert!(has_wifi_keyword("intel wi-fi 6"));
    assert!(has_wifi_keyword("wlan0"));
    assert!(has_wifi_keyword("realtek wireless lan"));
    assert!(has_wifi_keyword("my_wi_fi"));
    assert!(has_wifi_keyword("xwifix"));
    assert!(!has_wifi_keyword("WLAN0"));
    assert!(!has_wifi_keyword("ethernet"));
    assert!(!has_wifi_keyword(""));
}

#[test]
fn rates_over_several_refreshes_add_up() {
    let mut c = NetCounters::from_samples(&vec![sample("wlan0", 1000, 100)]);
    let totals = [(1500u64, 160u64), (1500, 200), (4000, 900), (4100, 901)];
    let (mut down, mut up) = (0u64, 0u64);
    for (rx, tx) in totals {
        let stats = c.update(&vec![sample("eth0", 7, 7), sample("wlan0", rx, tx)]);
        down += stats.download_bps;
        up += stats.upload_bps;
    }
    assert_eq!((down, up), (4100 - 1000, 901 - 100));
}

#[test]
fn live_pids_of_this_machine() {
    let mut m = MonitorState::new();
    let live = m.live_pids();
    assert!(!live.is_empty());
    let top = m.memory_top(1).unwrap();
    assert_eq!(top.len(), 1);
}
