use sizr::byte_fmt::pretty;

#[test]
fn zero_is_rendered_without_decimals() {
    assert_eq!(pretty(0), "0 B");
}

#[test]
fn one_kibibyte_is_one_kb() {
    assert_eq!(pretty(1024), "1.00 kB");
}

#[test]
fn counts_below_a_kibibyte_stay_in_bytes() {
    assert_eq!(pretty(1), "1 B");
    assert_eq!(pretty(5), "5 B");
    assert_eq!(pretty(10), "10 B");
    assert_eq!(pretty(999), "999 B");
    assert_eq!(pretty(1023), "1023 B");
}

#[test]
fn every_count_below_a_kibibyte_shows_itself() {
    let mut n: i128 = -1023;
    while n < 1024 {
        assert_eq!(pretty(n), format!("{} B", n));
        n += 1;
    }
}

#[test]
fn each_unit_starts_at_its_power_of_1024() {
    let labels = ["kB", "MB", "GB", "TB", "PB", "EB", "ZB", "YB"];
    let mut size: i128 = 1024;
    for label in labels {
        assert!(!pretty(size - 1).ends_with(label));
        assert_eq!(pretty(size), format!("1.00 {}", label));
        size *= 1024;
    }
}

#[test]
fn the_value_just_below_a_unit_rounds_up_in_the_unit_before() {
    assert_eq!(pretty(1024 * 1024 - 1), "1024.00 kB");
    assert_eq!(pretty(1_048_570), "1023.99 kB");
    assert_eq!(pretty(1_048_571), "1024.00 kB");
    assert_eq!(pretty(1_048_576), "1.00 MB");
}

#[test]
fn fractions_are_rounded_to_two_places() {
    assert_eq!(pretty(1536), "1.50 kB");
    assert_eq!(pretty(1025), "1.00 kB");
    assert_eq!(pretty(1029), "1.00 kB");
    assert_eq!(pretty(1030), "1.01 kB");
    assert_eq!(pretty(4_404_019), "4.20 MB");
    assert_eq!(pretty(123_456_789), "117.74 MB");
}

#[test]
fn a_tie_goes_to_the_even_hundredth() {
    // 1152 / 1024 = 1.125 and 1408 / 1024 = 1.375, both exactly.
    assert_eq!(pretty(1152), "1.12 kB");
    assert_eq!(pretty(1408), "1.38 kB");
}

#[test]
fn negative_counts_carry_a_minus_sign() {
    assert_eq!(pretty(-1), "-1 B");
    assert_eq!(pretty(-1023), "-1023 B");
    assert_eq!(pretty(-1024), "-1.00 kB");
    assert_eq!(pretty(-4_404_019), "-4.20 MB");
}

#[test]
fn counts_beyond_the_last_unit_stay_in_it() {
    let yb: i128 = 1 << 80;
    assert_eq!(pretty(yb), "1.00 YB");
    assert_eq!(pretty(yb * 1024), "1024.00 YB");
    assert_eq!(pretty(yb * 1024 * 1024), "1048576.00 YB");
}

#[test]
fn the_ends_of_the_integer_range_are_rendered() {
    assert_eq!(pretty(i128::MAX), "140737488355328.00 YB");
    assert_eq!(pretty(i128::MIN), "-140737488355328.00 YB");
    assert_eq!(pretty(u64::MAX as i128), "16.00 EB");
}
