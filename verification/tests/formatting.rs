use recall::utils::{format_bytes, format_duration, GB, KB, MB, TB};

fn by_floats(bytes: u64) -> String {
    if bytes >= TB {
        format!("{:.2} TB", bytes as f64 / TB as f64)
    } else if bytes >= GB {
        format!("{:.2} GB", bytes as f64 / GB as f64)
    } else if bytes >= MB {
        format!("{:.2} MB", bytes as f64 / MB as f64)
    } else if bytes >= KB {
        format!("{:.2} KB", bytes as f64 / KB as f64)
    } else {
        format!("{} B", bytes)
    }
}

#[test]
fn units_are_powers_of_1024() {
    assert_eq!(KB, 1024);
    assert_eq!(MB, 1024 * 1024);
    assert_eq!(GB, 1024 * 1024 * 1024);
    assert_eq!(TB, 1024u64 * 1024 * 1024 * 1024);
}

#[test]
fn bytes_below_a_kilobyte() {
    assert_eq!(format_bytes(0), "0 B");
    assert_eq!(format_bytes(1), "1 B");
    assert_eq!(format_bytes(500), "500 B");
    assert_eq!(format_bytes(1023), "1023 B");
}

#[test]
fn whole_units() {
    assert_eq!(format_bytes(1024), "1.00 KB");
    assert_eq!(format_bytes(1048576), "1.00 MB");
    assert_eq!(format_bytes(1073741824), "1.00 GB");
    assert_eq!(format_bytes(1099511627776), "1.00 TB");
}

#[test]
fn fractions_of_units() {
    assert_eq!(format_bytes(1536), "1.50 KB");
    assert_eq!(format_bytes(1024 + 512 + 256), "1.75 KB");
    assert_eq!(format_bytes(5 * 1048576 + 104858), "5.10 MB");
    assert_eq!(format_bytes(1048575), "1024.00 KB");
    assert_eq!(format_bytes(1073741823), "1024.00 MB");
    assert_eq!(format_bytes(1099511627775), "1024.00 GB");
    assert_eq!(format_bytes(u64::MAX), "16777216.00 TB");
}

#[test]
fn ties_go_to_the_even_hundredth() {
    assert_eq!(format_bytes(1152), "1.12 KB");
    assert_eq!(format_bytes(1024 + 384), "1.38 KB");
    assert_eq!(format_bytes(1029), "1.00 KB");
    assert_eq!(format_bytes(1030), "1.01 KB");
}

#[test]
fn amounts_agree_with_floating_point_formatting() {
    let mut samples: Vec<u64> = vec![0, 1, 1023, 1024, 1025, 1029, 1030, 1152, 1408, 2047, 2048, u64::MAX, u64::MAX - 1];
    for shift in 10..64 {
        let base = 1u64 << shift;
        for delta in [0u64, 1, 2, 3, 5, 7, 511, 512, 513, 1023, 1024, 1025, 2047, 2048, 2049, 4096] {
            samples.push(base.wrapping_add(delta));
            samples.push(base.wrapping_sub(delta));
            samples.push((base / 3).wrapping_mul(2).wrapping_add(delta));
            samples.push((base / 200).wrapping_mul(3 + 2 * delta % 197));
        }
    }
    let mut state: u64 = 0x9E3779B97F4A7C15;
    for _ in 0..20000 {
        state ^= state << 13;
        state ^= state >> 7;
        state ^= state << 17;
        samples.push(state);
        samples.push(state >> (state % 60));
    }
    for unit in [KB, MB, GB, TB] {
        for k in 0..4000u64 {
            samples.push(unit / 200 * (2 * k + 1));
            samples.push(unit / 200 * (2 * k + 1) + unit);
        }
    }
    for bytes in samples {
        assert_eq!(format_bytes(bytes), by_floats(bytes), "for {} bytes", bytes);
    }
}

#[test]
fn large_amounts_round_like_doubles() {
    let above = (1u64 << 53) + 1;
    assert_eq!(format_bytes(above), by_floats(above));
    for bytes in [
        (1u64 << 60) + 5497558138,
        (1u64 << 62) + 5497558139 * 3,
        (1u64 << 63) + 1024,
        (1u64 << 63) + 1025,
        (1u64 << 63) + 3072,
        u64::MAX - 1023,
        u64::MAX - 1024,
    ] {
        assert_eq!(format_bytes(bytes), by_floats(bytes), "for {} bytes", bytes);
    }
}

#[test]
fn durations_in_words() {
    assert_eq!(format_duration(3661), "1h 1m 1s");
    assert_eq!(format_duration(125), "2m 5s");
    assert_eq!(format_duration(45), "45s");
}

#[test]
fn duration_edges() {
    assert_eq!(format_duration(0), "0s");
    assert_eq!(format_duration(59), "59s");
    assert_eq!(format_duration(60), "1m 0s");
    assert_eq!(format_duration(3599), "59m 59s");
    assert_eq!(format_duration(3600), "1h 0m 0s");
    assert_eq!(format_duration(86399), "23h 59m 59s");
    assert_eq!(format_duration(360000), "100h 0m 0s");
    assert_eq!(format_duration(u64::MAX), "5124095576030431h 0m 15s");
}
