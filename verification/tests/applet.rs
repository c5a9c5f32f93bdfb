use cosmic_ext_applet_sysmon::applet::{Action, AppModel, Message, Metric};
use cosmic_ext_applet_sysmon::config::{
    clamp_refresh_interval, Settings, DEFAULT_REFRESH_INTERVAL_MS, MAX_REFRESH_INTERVAL_MS,
    MIN_REFRESH_INTERVAL_MS,
};

fn model(ms: u64) -> AppModel {
    let mut config = Settings::default();
    config.refresh_interval_ms = ms;
    AppModel::init(config).0
}

#[test]
fn default_settings() {
    let s = Settings::default();
    assert_eq!(s.refresh_interval_ms, DEFAULT_REFRESH_INTERVAL_MS);
    assert!(s.show_cpu && s.show_memory && s.show_gpu && s.show_network);
    assert_eq!(s.network_interface, None);
}

#[test]
fn interval_clamping() {
    assert_eq!(clamp_refresh_interval(0), MIN_REFRESH_INTERVAL_MS);
    assert_eq!(clamp_refresh_interval(250), 250);
    assert_eq!(clamp_refresh_interval(4000), 4000);
    assert_eq!(clamp_refresh_interval(10_001), MAX_REFRESH_INTERVAL_MS);
    assert_eq!(model(100).tick_interval_ms(), 250);
    assert_eq!(model(60_000).tick_interval_ms(), 10_000);
}

#[test]
fn init_primes_a_refresh() {
    let mut config = Settings::default();
    config.refresh_interval_ms = 100;
    config.network_interface = Some("eth0".to_string());
    let (m, action) = AppModel::init(config);
    assert_eq!(m.popup, None);
    match action {
        Action::Refresh { since_nanos, interface } => {
            assert_eq!(since_nanos, 250_000_000);
            assert_eq!(interface, Some("eth0".to_string()));
        }
        _ => panic!("expected a refresh"),
    }
    // Above the maximum the priming interval is not clamped.
    let mut config = Settings::default();
    config.refresh_interval_ms = 20_000;
    match AppModel::init(config).1 {
        Action::Refresh { since_nanos, .. } => assert_eq!(since_nanos, 20_000_000_000),
        _ => panic!("expected a refresh"),
    }
}

#[test]
fn tick_snaps_short_intervals_to_configured() {
    let mut m = model(2000);
    match m.update(Message::Tick(10_000_000)) {
        Action::Refresh { since_nanos, interface } => {
            assert_eq!(since_nanos, 2_000_000_000);
            assert_eq!(interface, None);
        }
        _ => panic!("expected a refresh"),
    }
    match m.update(Message::Tick(2_100_000_000)) {
        Action::Refresh { since_nanos, .. } => assert_eq!(since_nanos, 2_100_000_000),
        _ => panic!("expected a refresh"),
    }
    // Exactly 50 ms is kept as measured.
    match m.update(Message::Tick(50_000_000)) {
        Action::Refresh { since_nanos, .. } => assert_eq!(since_nanos, 50_000_000),
        _ => panic!("expected a refresh"),
    }
    let mut m = model(50);
    match m.update(Message::Tick(0)) {
        Action::Refresh { since_nanos, .. } => assert_eq!(since_nanos, 250_000_000),
        _ => panic!("expected a refresh"),
    }
}

#[test]
fn toggle_metric_persists() {
    let mut m = model(2000);
    match m.update(Message::ToggleMetric(Metric::Gpu, false)) {
        Action::Persist(c) => {
            assert!(!c.show_gpu);
            assert!(c.show_cpu && c.show_memory && c.show_network);
        }
        _ => panic!("expected persist"),
    }
    assert!(!m.config.show_gpu);
    m.update(Message::ToggleMetric(Metric::Cpu, false));
    m.update(Message::ToggleMetric(Metric::Memory, false));
    m.update(Message::ToggleMetric(Metric::Network, false));
    assert!(!m.config.show_cpu && !m.config.show_memory && !m.config.show_network);
    m.update(Message::ToggleMetric(Metric::Network, true));
    assert!(m.config.show_network);
}

#[test]
fn select_interface_persists() {
    let mut m = model(2000);
    match m.update(Message::SelectNetworkInterface(Some("wlan0".to_string()))) {
        Action::Persist(c) => assert_eq!(c.network_interface, Some("wlan0".to_string())),
        _ => panic!("expected persist"),
    }
    assert_eq!(m.config.network_interface, Some("wlan0".to_string()));
    m.update(Message::SelectNetworkInterface(None));
    assert_eq!(m.config.network_interface, None);
}

#[test]
fn slider_clamps_interval() {
    let mut m = model(2000);
    m.update(Message::SetRefreshInterval(100));
    assert_eq!(m.config.refresh_interval_ms, 250);
    m.update(Message::SetRefreshInterval(3000));
    assert_eq!(m.config.refresh_interval_ms, 3000);
    m.update(Message::SetRefreshInterval(i64::MAX));
    assert_eq!(m.config.refresh_interval_ms, 10_000);
    m.update(Message::SetRefreshInterval(-5));
    assert_eq!(m.config.refresh_interval_ms, 250);
    m.update(Message::SetRefreshInterval(3000));
    // A position that is not a number arrives as 0 and stays in range.
    match m.update(Message::SetRefreshInterval(0)) {
        Action::Persist(c) => assert_eq!(c.refresh_interval_ms, 250),
        _ => panic!("expected persist"),
    }
}

#[test]
fn update_config_replaces_settings() {
    let mut m = model(2000);
    let mut c = Settings::default();
    c.show_cpu = false;
    c.refresh_interval_ms = 777;
    assert!(matches!(m.update(Message::UpdateConfig(c)), Action::Nothing));
    assert!(!m.config.show_cpu);
    assert_eq!(m.config.refresh_interval_ms, 777);
}

#[test]
fn popup_toggles_open_and_closed() {
    let mut m = model(2000);
    let first = match m.update(Message::TogglePopup) {
        Action::OpenPopup(t) => t,
        _ => panic!("expected open"),
    };
    assert_eq!(m.popup, Some(first));
    match m.update(Message::TogglePopup) {
        Action::ClosePopup(t) => assert_eq!(t, first),
        _ => panic!("expected close"),
    }
    assert_eq!(m.popup, None);
    let second = match m.update(Message::TogglePopup) {
        Action::OpenPopup(t) => t,
        _ => panic!("expected open"),
    };
    assert_ne!(first, second);
}

#[test]
fn popup_closed_only_forgets_its_own_window() {
    let mut m = model(2000);
    let t = match m.update(Message::TogglePopup) {
        Action::OpenPopup(t) => t,
        _ => panic!("expected open"),
    };
    m.update(Message::PopupClosed(None));
    assert_eq!(m.popup, Some(t));
    m.update(Message::PopupClosed(Some(t + 1)));
    assert_eq!(m.popup, Some(t));
    m.update(Message::PopupClosed(Some(t)));
    assert_eq!(m.popup, None);
}
