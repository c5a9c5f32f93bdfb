use cosmic_ext_applet_sysmon::gpu::{GpuSample, Temperature};
use cosmic_ext_applet_sysmon::network::InterfaceCounters;
use cosmic_ext_applet_sysmon::snapshot::take_readings;

fn counters(name: &str, received: u64, transmitted: u64) -> InterfaceCounters {
    InterfaceCounters { name: name.to_string(), received, transmitted }
}

#[test]
fn readings_without_gpu_have_no_gpu_figures() {
    let r = take_readings(&vec![], &vec![counters("wlan0", 10, 20), counters("lo", 1, 1)], None);
    assert!(!r.gpu.present);
    assert!(r.gpu.utilization_samples.is_empty());
    assert_eq!((r.gpu.vram_used, r.gpu.vram_total, r.gpu.hottest), (None, None, None));
    assert_eq!(r.network.available, vec!["lo".to_string(), "wlan0".to_string()]);
    assert_eq!(r.network.interface, Some("wlan0".to_string()));
    assert_eq!((r.network.received, r.network.transmitted), (10, 20));
}

#[test]
fn readings_keep_the_selection() {
    let samples = vec![
        GpuSample { utilization: Some(30), vram_used: Some(1), vram_total: None, temperature: Some(Temperature::Celsius(60)) },
        GpuSample { utilization: None, vram_used: Some(2), vram_total: Some(8), temperature: None },
    ];
    let list = vec![counters("eth0", 5, 6), counters("docker0", 7, 8)];
    let r = take_readings(&samples, &list, Some("docker0".to_string()));
    assert!(r.gpu.present);
    assert_eq!(r.gpu.utilization_samples, vec![30]);
    assert_eq!((r.gpu.vram_used, r.gpu.vram_total), (Some(2), Some(8)));
    assert_eq!(r.gpu.hottest, Some(Temperature::Celsius(60)));
    assert_eq!(r.network.available, vec!["docker0".to_string(), "eth0".to_string()]);
    assert_eq!(r.network.interface, Some("docker0".to_string()));
    assert_eq!((r.network.received, r.network.transmitted), (7, 8));

    // A selection that is not listed is still the monitored interface, with zeros.
    let r = take_readings(&samples, &list, Some("wg0".to_string()));
    assert_eq!(r.network.interface, Some("wg0".to_string()));
    assert_eq!((r.network.received, r.network.transmitted), (0, 0));
}
