use std::path::PathBuf;

use cosmic_ext_applet_sysmon::gpu::{
    clean_name, drm_card_vendor, hwmon_label_file, hwmon_scan, hwmon_step, is_card_entry,
    parse_sysfs_u64, summarize_gpus, DrmEntry, DrmVendor, GpuBackend, GpuSample, Gpus, HwmonInput,
    HwmonStep, Temperature,
};

fn sample(
    utilization: Option<u64>,
    vram_used: Option<u64>,
    vram_total: Option<u64>,
    temperature: Option<Temperature>,
) -> GpuSample {
    GpuSample { utilization, vram_used, vram_total, temperature }
}

#[test]
fn card_entries() {
    assert!(is_card_entry("card0"));
    assert!(is_card_entry("card12"));
    assert!(!is_card_entry("card0-DP-1"));
    assert!(!is_card_entry("renderD128"));
    assert!(!is_card_entry("version"));
}

#[test]
fn drm_vendor_from_uevent() {
    let amd = "DRIVER=amdgpu\nPCI_CLASS=30000\nPCI_SLOT_NAME=0000:03:00.0\n";
    assert_eq!(drm_card_vendor(amd, &None), Some(DrmVendor::Amd));
    assert_eq!(drm_card_vendor(amd, &Some(vec!["0000:01:00.0".to_string()])), Some(DrmVendor::Amd));
    assert_eq!(drm_card_vendor(amd, &Some(vec!["0000:03:00.0".to_string()])), None);
    assert_eq!(drm_card_vendor("DRIVER=i915\n", &None), Some(DrmVendor::Intel));
    assert_eq!(drm_card_vendor("PCI_ID=1\r\nDRIVER=xe\r\n", &None), Some(DrmVendor::Intel));
    assert_eq!(drm_card_vendor("DRIVER=nouveau\n", &None), None);
    assert_eq!(drm_card_vendor("", &None), None);
    // Only the first DRIVER line counts.
    assert_eq!(drm_card_vendor("DRIVER=i915\nDRIVER=amdgpu", &None), Some(DrmVendor::Intel));
    // Without a PCI slot the NVML list is not consulted.
    assert_eq!(drm_card_vendor("DRIVER=amdgpu", &Some(vec!["".to_string()])), Some(DrmVendor::Amd));
}

#[test]
fn names_are_trimmed() {
    assert_eq!(clean_name("  Radeon RX 7900\n"), Some("Radeon RX 7900".to_string()));
    assert_eq!(clean_name(" \t\n"), None);
    assert_eq!(clean_name(""), None);
    assert_eq!(clean_name("\u{a0}x\u{3000}"), Some("x".to_string()));
}

#[test]
fn sysfs_numbers() {
    assert_eq!(parse_sysfs_u64("42\n"), Some(42));
    assert_eq!(parse_sysfs_u64("  +7 "), Some(7));
    assert_eq!(parse_sysfs_u64("18446744073709551615"), Some(u64::MAX));
    assert_eq!(parse_sysfs_u64("18446744073709551616"), None);
    assert_eq!(parse_sysfs_u64("-1"), None);
    assert_eq!(parse_sysfs_u64("+"), None);
    assert_eq!(parse_sysfs_u64(""), None);
    assert_eq!(parse_sysfs_u64("1 2"), None);
    assert_eq!(parse_sysfs_u64("0x10"), None);
    for text in ["0", "007", "+12", "99999999999999999999", "12a", "a12", "\t5\n"] {
        assert_eq!(parse_sysfs_u64(text), text.trim().parse::<u64>().ok(), "{:?}", text);
    }
}

#[test]
fn detected_gpus() {
    let mut gpus = Gpus::new();
    assert!(gpus.is_empty());
    gpus.add_nvidia(0, Some("RTX 4090".to_string()));
    gpus.add_nvidia(1, None);
    gpus.add_drm_card(DrmVendor::Amd, PathBuf::from("/sys/class/drm/card1/device"), Some(" RX 6600 \n".to_string()));
    gpus.add_drm_card(DrmVendor::Intel, PathBuf::from("/sys/class/drm/card2/device"), None);
    gpus.add_drm_card(DrmVendor::Amd, PathBuf::from("/sys/class/drm/card3/device"), Some("\n".to_string()));
    let list = gpus.list();
    assert_eq!(list.len(), 5);
    assert_eq!(list[0].name, "RTX 4090");
    assert_eq!(list[1].name, "NVIDIA GPU 1");
    assert!(matches!(list[1].backend, GpuBackend::Nvidia { index: 1 }));
    assert_eq!(list[2].name, "RX 6600");
    assert!(matches!(&list[2].backend, GpuBackend::Amd { device_dir } if device_dir == &PathBuf::from("/sys/class/drm/card1/device")));
    assert_eq!(list[3].name, "Intel GPU");
    assert!(matches!(list[3].backend, GpuBackend::Intel { .. }));
    assert_eq!(list[4].name, "AMD GPU");
}

#[test]
fn summary_of_no_gpu() {
    let s = summarize_gpus(&vec![]);
    assert!(!s.present);
    assert!(s.utilization_samples.is_empty());
    assert_eq!((s.vram_used, s.vram_total, s.hottest), (None, None, None));
}

#[test]
fn summary_combines_gpus() {
    let s = summarize_gpus(&vec![
        sample(Some(30), Some(1000), Some(8000), Some(Temperature::Celsius(60))),
        sample(Some(50), Some(500), None, Some(Temperature::MilliCelsius(61500))),
        sample(None, Some(u64::MAX), Some(u64::MAX), None),
    ]);
    assert!(s.present);
    assert_eq!(s.utilization_samples, vec![30, 50]);
    assert_eq!(s.vram_used, Some(u64::MAX));
    assert_eq!(s.vram_total, Some(u64::MAX));
    assert_eq!(s.hottest, Some(Temperature::MilliCelsius(61500)));
}

#[test]
fn summary_of_gpu_without_readings() {
    let s = summarize_gpus(&vec![sample(None, Some(1), None, None)]);
    assert!(s.present);
    assert_eq!((s.vram_used, s.vram_total, s.hottest), (None, None, None));
}

#[test]
fn hottest_ties_keep_the_last() {
    let s = summarize_gpus(&vec![
        sample(None, None, None, Some(Temperature::MilliCelsius(70000))),
        sample(None, None, None, Some(Temperature::Celsius(70))),
    ]);
    assert_eq!(s.hottest, Some(Temperature::Celsius(70)));
}

#[test]
fn hwmon_label_files() {
    assert_eq!(hwmon_label_file("temp1_input"), Some("temp1_label".to_string()));
    assert_eq!(hwmon_label_file("temp_input2_input"), Some("temp_label2_label".to_string()));
    assert_eq!(hwmon_label_file("temp1_crit"), None);
    assert_eq!(hwmon_label_file("in0_input"), None);
}

#[test]
fn hwmon_steps() {
    let s = |v: &str| Some(v.to_string());
    assert_eq!(hwmon_step(None, "temp2_input", s("edge\n"), s("45000\n")), HwmonStep::Done(45000));
    assert_eq!(hwmon_step(Some(1), "temp2_input", s(" edge "), s("45000")), HwmonStep::Done(45000));
    assert_eq!(hwmon_step(None, "temp1_input", s("junction"), s("50000")), HwmonStep::Continue(Some(50000)));
    assert_eq!(hwmon_step(Some(1), "temp1_input", None, s("50000")), HwmonStep::Continue(Some(1)));
    assert_eq!(hwmon_step(None, "temp3_input", None, s("50000")), HwmonStep::Continue(None));
}

#[test]
fn hwmon_unreadable_inputs_are_skipped() {
    let s = |v: &str| Some(v.to_string());
    assert_eq!(hwmon_step(Some(1), "temp3_input", s("edge"), None), HwmonStep::Continue(Some(1)));
    assert_eq!(hwmon_step(Some(1), "temp3_input", s("edge"), s("hot")), HwmonStep::Continue(Some(1)));
    assert_eq!(hwmon_step(None, "temp1_input", None, s("4294967296")), HwmonStep::Continue(None));
    // An unreadable input before the edge input does not hide the edge reading.
    let mut fallback = None;
    let mut result = None;
    for (name, label, raw) in [
        ("temp1_input", None, s("41000")),
        ("temp2_input", s("junction"), None),
        ("temp3_input", s("edge"), s("45000")),
    ] {
        match hwmon_step(fallback, name, label, raw) {
            HwmonStep::Done(v) => {
                result = Some(v);
                break;
            }
            HwmonStep::Continue(f) => fallback = f,
        }
    }
    assert_eq!(result, Some(45000));
    assert_eq!(fallback, Some(41000));
}

fn input(file_name: &str, label: Option<&str>, raw: Option<&str>) -> HwmonInput {
    HwmonInput {
        file_name: file_name.to_string(),
        label: label.map(|l| l.to_string()),
        raw: raw.map(|r| r.to_string()),
    }
}

#[test]
fn hwmon_scan_prefers_edge() {
    let inputs = vec![
        input("temp1_input", None, Some("41000\n")),
        input("temp2_input", Some("junction"), None),
        input("temp3_input", Some("edge\n"), Some("45000\n")),
        input("temp4_input", Some("edge"), Some("47000")),
    ];
    assert_eq!(hwmon_scan(&inputs), Some(45000));
}

#[test]
fn hwmon_scan_falls_back_to_first_temp1() {
    let inputs = vec![
        input("temp1_input", None, Some("hot")),
        input("temp2_input", Some("junction"), Some("52000")),
        input("temp1_input", Some("edge"), None),
        input("temp1_input", None, Some("43000")),
        input("temp1_input", None, Some("44000")),
    ];
    assert_eq!(hwmon_scan(&inputs), Some(43000));
    assert_eq!(hwmon_scan(&vec![input("temp2_input", Some("junction"), Some("52000"))]), None);
    assert_eq!(hwmon_scan(&vec![]), None);
}

fn drm(name: &str, uevent: Option<&str>, raw_name: Option<&str>) -> DrmEntry {
    DrmEntry {
        name: name.to_string(),
        device_dir: PathBuf::from(format!("/sys/class/drm/{}/device", name)),
        uevent: uevent.map(|u| u.to_string()),
        raw_name: raw_name.map(|n| n.to_string()),
    }
}

#[test]
fn discovery_lists_nvidia_first_then_cards() {
    let nvidia = vec![Some("RTX 4090".to_string()), None];
    let bus_ids = Some(vec!["0000:01:00.0".to_string()]);
    let entries = vec![
        drm("card0-DP-1", Some("DRIVER=amdgpu\n"), Some("RX 7900")),
        drm("renderD128", Some("DRIVER=amdgpu\n"), None),
        drm("card0", Some("DRIVER=amdgpu\nPCI_SLOT_NAME=0000:03:00.0\n"), Some(" RX 6600 \n")),
        drm("card1", None, Some("Arc")),
        drm("card2", Some("DRIVER=nouveau\n"), Some("GeForce")),
        drm("card3", Some("DRIVER=amdgpu\nPCI_SLOT_NAME=0000:01:00.0\n"), Some("Duplicate")),
        drm("card4", Some("DRIVER=xe\n"), Some("\n")),
    ];
    let gpus = Gpus::from_probe(nvidia, &bus_ids, entries);
    let list = gpus.list();
    assert_eq!(list.len(), 4);
    assert_eq!(list[0].name, "RTX 4090");
    assert!(matches!(list[0].backend, GpuBackend::Nvidia { index: 0 }));
    assert_eq!(list[1].name, "NVIDIA GPU 1");
    assert!(matches!(list[1].backend, GpuBackend::Nvidia { index: 1 }));
    assert_eq!(list[2].name, "RX 6600");
    assert!(matches!(&list[2].backend, GpuBackend::Amd { device_dir } if device_dir == &PathBuf::from("/sys/class/drm/card0/device")));
    assert_eq!(list[3].name, "Intel GPU");
    assert!(matches!(&list[3].backend, GpuBackend::Intel { device_dir } if device_dir == &PathBuf::from("/sys/class/drm/card4/device")));
}

#[test]
fn discovery_without_anything_is_empty() {
    let gpus = Gpus::from_probe(vec![], &None, vec![drm("version", None, None)]);
    assert!(gpus.is_empty());
}
