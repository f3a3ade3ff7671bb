use rtree::size::{human_size, unit_for, Unit};

/// The same rendering done in double-precision arithmetic.
fn in_doubles(bytes: u64) -> String {
    let units = ["B", "KB", "MB", "GB", "TB"];
    if bytes < 1024 {
        return format!("{} B", bytes);
    }
    let mut value = bytes as f64;
    let mut unit = 0usize;
    while value >= 1024.0 && unit < units.len() - 1 {
        value /= 1024.0;
        unit += 1;
    }
    format!("{:.2} {}", value, units[unit])
}

fn assert_agrees(bytes: u64) {
    assert_eq!(human_size(bytes), in_doubles(bytes), "for {} bytes", bytes);
}

#[test]
fn zero_bytes() {
    assert_eq!(human_size(0), "0 B");
}

#[test]
fn below_one_kilobyte_is_a_plain_count() {
    assert_eq!(human_size(1), "1 B");
    assert_eq!(human_size(9), "9 B");
    assert_eq!(human_size(10), "10 B");
    assert_eq!(human_size(512), "512 B");
    assert_eq!(human_size(1023), "1023 B");
}

#[test]
fn one_kilobyte() {
    assert_eq!(human_size(1024), "1.00 KB");
}

#[test]
fn one_and_a_half_kilobytes() {
    assert_eq!(human_size(1536), "1.50 KB");
}

#[test]
fn one_megabyte() {
    assert_eq!(human_size(1024 * 1024), "1.00 MB");
}

#[test]
fn two_megabytes() {
    assert_eq!(human_size(2 * 1024 * 1024), "2.00 MB");
}

#[test]
fn one_gigabyte_and_one_terabyte() {
    assert_eq!(human_size(1 << 30), "1.00 GB");
    assert_eq!(human_size(1 << 40), "1.00 TB");
}

#[test]
fn just_under_a_threshold_keeps_the_lower_unit() {
    assert_eq!(human_size((1 << 20) - 1), "1024.00 KB");
    assert_eq!(human_size((1 << 30) - 1), "1024.00 MB");
    assert_eq!(human_size((1 << 40) - 1), "1024.00 GB");
    assert_eq!(human_size((1 << 20) - 6), "1023.99 KB");
}

#[test]
fn terabytes_are_the_ceiling() {
    assert_eq!(human_size(1 << 50), "1024.00 TB");
    assert_eq!(human_size(5 << 50), "5120.00 TB");
    assert_eq!(human_size(u64::MAX), "16777216.00 TB");
}

#[test]
fn ties_go_to_the_even_hundredth() {
    // 1152 / 1024 = 1.125 and 1408 / 1024 = 1.375, both exactly.
    assert_eq!(human_size(1152), "1.12 KB");
    assert_eq!(human_size(1408), "1.38 KB");
    assert_eq!(human_size(1029), "1.00 KB");
    assert_eq!(human_size(1030), "1.01 KB");
}

#[test]
fn units_change_at_exact_powers() {
    assert_eq!(unit_for(0), Unit::B);
    assert_eq!(unit_for(1023), Unit::B);
    assert_eq!(unit_for(1024), Unit::KB);
    assert_eq!(unit_for((1 << 20) - 1), Unit::KB);
    assert_eq!(unit_for(1 << 20), Unit::MB);
    assert_eq!(unit_for((1 << 30) - 1), Unit::MB);
    assert_eq!(unit_for(1 << 30), Unit::GB);
    assert_eq!(unit_for((1 << 40) - 1), Unit::GB);
    assert_eq!(unit_for(1 << 40), Unit::TB);
    assert_eq!(unit_for(u64::MAX), Unit::TB);
}

#[test]
fn agrees_with_doubles_on_small_counts() {
    for bytes in 0..=300_000u64 {
        assert_agrees(bytes);
    }
}

#[test]
fn agrees_with_doubles_around_powers_of_two() {
    for shift in 0..64u32 {
        let power = 1u64 << shift;
        for delta in 0..=200u64 {
            assert_agrees(power.wrapping_add(delta));
            assert_agrees(power.wrapping_sub(delta));
        }
    }
    for delta in 0..=5000u64 {
        assert_agrees(u64::MAX - delta);
    }
}

#[test]
fn agrees_with_doubles_on_exact_ties() {
    // Counts that lie exactly between two hundredths of their unit.
    for k in 0..20_000u64 {
        assert_agrees(128 * (2 * k + 1));
        assert_agrees((1 << 17) * (2 * k + 1));
        assert_agrees((1 << 27) * (2 * k + 1));
        assert_agrees((1 << 37) * (2 * k + 1));
        assert_agrees(((1 << 37) * (2 * k + 1)).wrapping_add(1));
        assert_agrees(((1 << 37) * (2 * k + 1)).wrapping_sub(1));
    }
    for m in (1u64 << 26)..(1u64 << 26) + 20_000 {
        let tie = m.wrapping_mul(2).wrapping_add(1).wrapping_mul(1 << 37);
        for delta in 0..3u64 {
            assert_agrees(tie.wrapping_add(delta));
            assert_agrees(tie.wrapping_sub(delta));
        }
    }
}

#[test]
fn agrees_with_doubles_beyond_their_precision() {
    let base = 1u64 << 53;
    for delta in 0..=4096u64 {
        assert_agrees(base + delta);
        assert_agrees((1u64 << 54) + delta);
        assert_agrees((1u64 << 60) + delta);
        assert_agrees((1u64 << 63) + delta);
        assert_agrees((1u64 << 63) + (1 << 62) + delta);
    }
}

#[test]
fn agrees_with_doubles_on_scattered_counts() {
    let mut state: u64 = 0x9E37_79B9_7F4A_7C15;
    for round in 0..200_000u32 {
        state = state.wrapping_mul(6364136223846793005).wrapping_add(1442695040888963407);
        let width = round % 64;
        assert_agrees(state >> width);
    }
}
