use cosmic_ext_applet_sysmon::config::Settings;
use cosmic_ext_applet_sysmon::panel::{build_panel_line, PanelReadings};

fn readings() -> PanelReadings {
    PanelReadings {
        cpu_percent: "12%".to_string(),
        memory_used: 3 * 1024 * 1024 * 1024,
        memory_total: 16 * 1024 * 1024 * 1024,
        gpu_present: true,
        gpu_percent: Some("40%".to_string()),
        gpu_vram_used: Some(1536 * 1024 * 1024),
        gpu_vram_total: Some(8 * 1024 * 1024 * 1024),
        gpu_temp: Some("55°C".to_string()),
        net_rx: "1.2 MB/s".to_string(),
        net_tx: "300 B/s".to_string(),
        net_interface: Some("eth0".to_string()),
    }
}

#[test]
fn full_panel_line() {
    let line = build_panel_line(&readings(), &Settings::default());
    assert_eq!(
        line,
        "CPU 12% | RAM 3.0 GiB/16.0 GiB | GPU 40% | 1.5 GiB/8.0 GiB 55°C | eth0 ↓1.2 MB/s ↑300 B/s"
    );
}

#[test]
fn panel_line_without_metrics() {
    let mut cfg = Settings::default();
    cfg.show_cpu = false;
    cfg.show_memory = false;
    cfg.show_gpu = false;
    cfg.show_network = false;
    assert_eq!(build_panel_line(&readings(), &cfg), "Sysmon (no metrics)");
    // A shown GPU metric without a GPU contributes nothing either.
    cfg.show_gpu = true;
    let mut r = readings();
    r.gpu_present = false;
    assert_eq!(build_panel_line(&r, &cfg), "Sysmon (no metrics)");
}

#[test]
fn panel_gpu_variants() {
    let mut cfg = Settings::default();
    cfg.show_cpu = false;
    cfg.show_memory = false;
    cfg.show_network = false;
    let mut r = readings();
    r.gpu_percent = None;
    r.gpu_vram_total = Some(0);
    r.gpu_temp = None;
    assert_eq!(build_panel_line(&r, &cfg), "GPU | 1.5 GiB");
    r.gpu_vram_used = None;
    assert_eq!(build_panel_line(&r, &cfg), "GPU");
}

#[test]
fn panel_network_without_interface() {
    let mut cfg = Settings::default();
    cfg.show_cpu = false;
    cfg.show_gpu = false;
    let mut r = readings();
    r.net_interface = None;
    assert_eq!(build_panel_line(&r, &cfg), "RAM 3.0 GiB/16.0 GiB | ? ↓1.2 MB/s ↑300 B/s");
}
