use cosmic_ext_applet_sysmon::format::format_bytes;

/// The same computation done with floating point, as a reference.
fn float_reference(bytes: u64) -> String {
    const KIB: f64 = 1024.0;
    const MIB: f64 = KIB * 1024.0;
    const GIB: f64 = MIB * 1024.0;
    const TIB: f64 = GIB * 1024.0;
    let b = bytes as f64;
    if b >= TIB {
        format!("{:.1} TiB", b / TIB)
    } else if b >= GIB {
        format!("{:.1} GiB", b / GIB)
    } else if b >= MIB {
        format!("{:.1} MiB", b / MIB)
    } else if b >= KIB {
        format!("{:.1} KiB", b / KIB)
    } else {
        format!("{} B", bytes)
    }
}

#[test]
fn bytes_below_one_kib() {
    assert_eq!(format_bytes(0), "0 B");
    assert_eq!(format_bytes(1), "1 B");
    assert_eq!(format_bytes(1023), "1023 B");
}

#[test]
fn bytes_in_each_unit() {
    assert_eq!(format_bytes(1024), "1.0 KiB");
    assert_eq!(format_bytes(1536), "1.5 KiB");
    assert_eq!(format_bytes(1048576), "1.0 MiB");
    assert_eq!(format_bytes(3 * 1073741824 / 2), "1.5 GiB");
    assert_eq!(format_bytes(1099511627776), "1.0 TiB");
    assert_eq!(format_bytes(u64::MAX), "16777216.0 TiB");
}

#[test]
fn bytes_ties_round_to_even() {
    // 1.25 KiB and 1.75 KiB are exact ties.
    assert_eq!(format_bytes(1280), "1.2 KiB");
    assert_eq!(format_bytes(1792), "1.8 KiB");
    // Just below a unit boundary the value rounds up within the smaller unit.
    assert_eq!(format_bytes(1048575), "1024.0 KiB");
}

#[test]
fn bytes_agree_with_float_formatting() {
    let mut probes: Vec<u64> = Vec::new();
    for b in 0..5000u64 {
        probes.push(b);
    }
    for shift in [10u32, 20, 30, 40, 50, 53, 54, 60, 63] {
        let base = 1u64 << shift;
        for delta in 0..300u64 {
            probes.push(base.wrapping_add(delta));
            probes.push(base.wrapping_sub(delta));
            probes.push(base.wrapping_add(delta * 97));
            probes.push(base.wrapping_mul(3).wrapping_add(delta * 1_000_003));
        }
    }
    let mut x: u64 = 0x9E3779B97F4A7C15;
    for _ in 0..20000 {
        x ^= x << 13;
        x ^= x >> 7;
        x ^= x << 17;
        probes.push(x);
        probes.push(x >> (x % 64));
    }
    probes.push(u64::MAX);
    for b in probes {
        assert_eq!(format_bytes(b), float_reference(b), "bytes = {}", b);
    }
}
