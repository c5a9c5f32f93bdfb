use cosmic_ext_applet_sysmon::network::{
    auto_pick, is_virtual, select_traffic, sort_names, InterfaceCounters,
};

fn names(list: &[&str]) -> Vec<String> {
    list.iter().map(|s| s.to_string()).collect()
}

fn counters(name: &str, received: u64, transmitted: u64) -> InterfaceCounters {
    InterfaceCounters { name: name.to_string(), received, transmitted }
}

#[test]
fn virtual_interfaces_are_recognised() {
    for n in ["lo", "lo0", "docker0", "br-1234", "veth9", "virbr0", "tun0", "tap1"] {
        assert!(is_virtual(n), "{}", n);
    }
    for n in ["eth0", "enp3s0", "wlan0", "l", "bridge", "dockerx".trim_start_matches('d'), ""] {
        assert!(!is_virtual(n), "{}", n);
    }
}

#[test]
fn auto_pick_prefers_physical_prefixes_in_order() {
    // `eth` outranks `wlp` even though `wlp` comes first in the list.
    assert_eq!(auto_pick(&names(&["wlp2s0", "eth1", "eth0"])), Some("eth1".to_string()));
    assert_eq!(auto_pick(&names(&["lo", "wlan0", "enp3s0"])), Some("enp3s0".to_string()));
    assert_eq!(auto_pick(&names(&["wlx001122", "wlan0"])), Some("wlan0".to_string()));
}

#[test]
fn auto_pick_falls_back_to_first_non_virtual() {
    assert_eq!(auto_pick(&names(&["lo", "docker0", "ppp0", "usb0"])), Some("ppp0".to_string()));
}

#[test]
fn auto_pick_finds_nothing_among_virtual_interfaces() {
    assert_eq!(auto_pick(&names(&["lo", "docker0", "veth1", "tap0"])), None);
    assert_eq!(auto_pick(&names(&[])), None);
}

#[test]
fn names_are_sorted_lexicographically() {
    let sorted = sort_names(&names(&["wlan0", "eth1", "lo", "eth0", "docker0", "Zed", "é1"]));
    assert_eq!(sorted, names(&["Zed", "docker0", "eth0", "eth1", "lo", "wlan0", "é1"]));
    let mut expected = names(&["b", "ab", "a", "abc", ""]);
    expected.sort();
    assert_eq!(sort_names(&names(&["b", "ab", "a", "abc", ""])), expected);
}

#[test]
fn traffic_of_auto_picked_interface() {
    let list = vec![counters("wlan0", 10, 20), counters("lo", 5, 5), counters("eth0", 300, 400)];
    let r = select_traffic(&list, None);
    assert_eq!(r.available, names(&["eth0", "lo", "wlan0"]));
    assert_eq!(r.interface, Some("eth0".to_string()));
    assert_eq!((r.received, r.transmitted), (300, 400));
}

#[test]
fn traffic_of_selected_interface() {
    let list = vec![counters("wlan0", 10, 20), counters("eth0", 300, 400)];
    let r = select_traffic(&list, Some("wlan0".to_string()));
    assert_eq!(r.interface, Some("wlan0".to_string()));
    assert_eq!((r.received, r.transmitted), (10, 20));
}

#[test]
fn traffic_of_unlisted_selection_is_zero() {
    let list = vec![counters("eth0", 300, 400)];
    let r = select_traffic(&list, Some("wg0".to_string()));
    assert_eq!(r.interface, Some("wg0".to_string()));
    assert_eq!((r.received, r.transmitted), (0, 0));
}

#[test]
fn traffic_without_candidates() {
    let list = vec![counters("lo", 7, 8)];
    let r = select_traffic(&list, None);
    assert_eq!(r.interface, None);
    assert_eq!((r.received, r.transmitted), (0, 0));
    assert_eq!(r.available, names(&["lo"]));
}
