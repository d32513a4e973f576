use pi_dash::format::{
    clip, coarse_uptime, compact_count, human_bytes, human_kb, human_rate, human_rate_compact,
    short_age, uptime, Rate,
};
use pi_dash::panes::radios::rate;

const SECOND: u64 = 1_000_000_000;

fn per_second(bytes: u64) -> Rate {
    Rate { bytes, nanos: SECOND }
}

#[test]
fn rates_switch_unit_at_the_1024_boundaries() {
    assert_eq!(human_rate(per_second(0)), "0 B/s");
    assert_eq!(human_rate(per_second(1023)), "1023 B/s");
    assert_eq!(human_rate(per_second(1024)), "1.0 KB/s");
    assert_eq!(human_rate(per_second(1_572_864)), "1.5 MB/s");
    assert_eq!(human_rate_compact(per_second(1024)), "1.0K");
    assert_eq!(human_rate_compact(per_second(1_572_864)), "1.5M");
}

#[test]
fn negative_rates_read_as_zero_not_as_a_huge_number() {
    // Counters reset when an adapter is re-plugged; the delta goes negative
    // for exactly one sample.
    assert_eq!(human_rate(rate(0, 5, SECOND)), "0 B/s");
    assert_eq!(human_rate_compact(rate(0, 5, SECOND)), "0B");
}

#[test]
fn kilobytes_scale_to_gigabytes() {
    assert_eq!(human_kb(0), "0");
    assert_eq!(human_kb(512), "512K");
    assert_eq!(human_kb(2048), "2M");
    assert_eq!(human_kb(3_145_728), "3.0G");
}

#[test]
fn ages_pick_one_unit() {
    assert_eq!(short_age(0), "0s");
    assert_eq!(short_age(59), "59s");
    assert_eq!(short_age(60), "1m");
    assert_eq!(short_age(3600), "1h");
    assert_eq!(short_age(86400), "1d");
    assert_eq!(short_age(-3), "+");
}

#[test]
fn uptime_keeps_a_stable_width() {
    assert_eq!(uptime(0), "0d0h0m");
    assert_eq!(uptime(90_061), "1d1h1m");
    assert_eq!(coarse_uptime(59), "0m");
    assert_eq!(coarse_uptime(3_900), "1h 5m");
}

#[test]
fn bytes_scale_the_same_way_kilobytes_do() {
    assert_eq!(human_bytes(0), "0");
    assert_eq!(human_bytes(12_400_000_000), "11.5G");
    assert_eq!(human_bytes(512), "0");
}

#[test]
fn counts_stay_four_characters_wide() {
    assert_eq!(compact_count(0), "0");
    assert_eq!(compact_count(402), "402");
    assert_eq!(compact_count(999), "999");
    assert_eq!(compact_count(1_000), "1.0k");
    assert_eq!(compact_count(12_400), "12.4k");
    assert_eq!(compact_count(2_500_000), "2.5M");
}

#[test]
fn a_count_never_rounds_itself_into_an_extra_column() {
    assert_eq!(compact_count(999_949), "999.9k");
    assert_eq!(compact_count(999_950), "1.0M");
    assert_eq!(compact_count(999_999), "1.0M");
    assert_eq!(compact_count(999_949_999), "999.9M");
    assert_eq!(compact_count(999_950_000), "1.0G");

    for n in [0, 1, 999, 1_000, 999_950, 1_000_000, u64::MAX] {
        assert!(
            compact_count(n).chars().count() <= 6,
            "{n} rendered as {}",
            compact_count(n)
        );
    }
}

#[test]
fn clip_counts_characters_not_bytes() {
    assert_eq!(clip("abcdef", 3), "abc");
    assert_eq!(clip("abc", 10), "abc");
    // A multi-byte name must not be cut mid-sequence.
    assert_eq!(clip("Réaltek café", 6), "Réalte");
}

#[test]
fn a_rate_over_no_time_is_nothing() {
    assert_eq!(human_rate(Rate { bytes: 4096, nanos: 0 }), "0 B/s");
    // Half a second: twice as much in a whole one.
    assert_eq!(human_rate(Rate { bytes: 1024, nanos: SECOND / 2 }), "2.0 KB/s");
}

#[test]
fn the_largest_counts_say_that_they_are_beyond_the_scale() {
    assert_eq!(compact_count(999_949_999_999), "999.9G");
    assert_eq!(compact_count(999_950_000_000), ">999G");
    assert_eq!(compact_count(u64::MAX), ">999G");
}

/// What a double gives for a rate.
fn by_double(bytes: u64, nanos: u64) -> String {
    let b = bytes as f64 / std::time::Duration::from_nanos(nanos).as_secs_f64();
    if b < 1024.0 {
        format!("{b:.0} B/s")
    } else if b < 1024.0 * 1024.0 {
        format!("{:.1} KB/s", b / 1024.0)
    } else {
        format!("{:.1} MB/s", b / (1024.0 * 1024.0))
    }
}

#[test]
fn a_rate_is_shown_as_a_double_shows_it() {
    // Exactly half-way, but 2.8 seconds are a little less as a double.
    assert_eq!(human_rate(Rate { bytes: 175, nanos: 2_800_000_000 }), "63 B/s");
    assert_eq!(human_rate(Rate { bytes: 1, nanos: 2 * SECOND }), "0 B/s");
    assert_eq!(human_rate(Rate { bytes: 3, nanos: 2 * SECOND }), "2 B/s");
    let mut seed: u64 = 1;
    for round in 0..20_000u64 {
        seed = seed.wrapping_mul(6_364_136_223_846_793_005).wrapping_add(1_442_695_040_888_963_407);
        let bytes = (seed >> 11) >> (round % 50);
        let nanos = match round % 4 {
            0 => (1 + seed % 100) * 100_000_000,
            1 => (1 + seed % 1000) * 10_000_000,
            2 => 1 + seed % 10_000_000_000,
            _ => 1 + (seed >> (round % 60)),
        };
        assert_eq!(
            human_rate(Rate { bytes, nanos }),
            by_double(bytes, nanos),
            "{bytes} bytes in {nanos} ns"
        );
    }
}

#[test]
fn half_way_rates_round_as_doubles_do() {
    for tenths in 1..200u64 {
        let nanos = tenths * 100_000_000;
        for bytes in 0..400u64 {
            assert_eq!(human_rate(Rate { bytes, nanos }), by_double(bytes, nanos));
        }
    }
}
