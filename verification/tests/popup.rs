use cosmic_ext_applet_sysmon::config::Settings;
use cosmic_ext_applet_sysmon::popup::{nic_choice, popup_layout};

fn list(items: &[&str]) -> Vec<String> {
    items.iter().map(|s| s.to_string()).collect()
}

#[test]
fn layout_with_auto_selection() {
    let auto = "Auto".to_string();
    let layout = popup_layout(&Settings::default(), true, &list(&["eth0", "wlan0"]), &auto);
    assert!(layout.gpu_toggle);
    let sel = layout.nic_selector.expect("network shown with interfaces");
    assert_eq!(sel.options, list(&["Auto", "eth0", "wlan0"]));
    assert_eq!(sel.selected, 0);
    assert_eq!(layout.interval_label, "2000 ms");
}

#[test]
fn layout_with_configured_interface() {
    let auto = "Auto".to_string();
    let mut cfg = Settings::default();
    cfg.network_interface = Some("wlan0".to_string());
    cfg.refresh_interval_ms = 250;
    let layout = popup_layout(&cfg, false, &list(&["eth0", "wlan0"]), &auto);
    assert!(!layout.gpu_toggle);
    let sel = layout.nic_selector.unwrap();
    assert_eq!(sel.selected, 2);
    assert_eq!(nic_choice(&sel.options, sel.selected, &auto), Some("wlan0".to_string()));
    assert_eq!(layout.interval_label, "250 ms");
}

#[test]
fn layout_with_unlisted_interface_selects_first_entry() {
    let auto = "Auto".to_string();
    let mut cfg = Settings::default();
    cfg.network_interface = Some("wg0".to_string());
    let sel = popup_layout(&cfg, false, &list(&["eth0"]), &auto).nic_selector.unwrap();
    assert_eq!(sel.selected, 0);
}

#[test]
fn layout_without_selector() {
    let auto = "Auto".to_string();
    let mut cfg = Settings::default();
    assert!(popup_layout(&cfg, true, &list(&[]), &auto).nic_selector.is_none());
    cfg.show_network = false;
    assert!(popup_layout(&cfg, true, &list(&["eth0"]), &auto).nic_selector.is_none());
}

#[test]
fn choosing_auto_means_auto_pick() {
    let auto = "Auto".to_string();
    let options = list(&["Auto", "eth0"]);
    assert_eq!(nic_choice(&options, 0, &auto), None);
    assert_eq!(nic_choice(&options, 1, &auto), Some("eth0".to_string()));
}
