use pi_dash::panes::health::{
    is_whole_disk, parse_clock_mhz, parse_df_all, parse_diskstats, parse_thermal_millidegrees,
    parse_throttled, parse_volts, should_read_disk, DiskUsage, HealthPane, HealthReadings, Tense,
    Throttle, ThrottleFlags,
};
use pi_dash::panes::{command_bytes, command_output, page_size, read_trimmed, read_u64};

#[test]
fn a_clean_register_decodes_to_nothing_set() {
    let throttle = Throttle::decode(0x0);
    assert!(throttle.clean());
    assert!(!throttle.now.any());
    assert!(!throttle.since_boot.any());
}

#[test]
fn the_low_nibble_is_the_live_state() {
    let throttle = Throttle::decode(0x1);
    assert!(throttle.now.under_voltage);
    assert!(!throttle.now.arm_capped);
    assert!(!throttle.since_boot.any());
    assert!(!throttle.clean());

    let all_now = Throttle::decode(0xF);
    assert_eq!(
        all_now.now,
        ThrottleFlags {
            under_voltage: true,
            arm_capped: true,
            throttled: true,
            soft_temp_limit: true,
        }
    );
    assert!(!all_now.since_boot.any());
}

#[test]
fn bits_16_to_19_are_the_sticky_since_boot_state() {
    let throttle = Throttle::decode(0x50000);
    assert!(!throttle.now.any(), "nothing is happening right now");
    assert!(throttle.since_boot.under_voltage, "bit 16");
    assert!(throttle.since_boot.throttled, "bit 18");
    assert!(!throttle.since_boot.arm_capped);
    assert!(!throttle.since_boot.soft_temp_limit);
    assert!(!throttle.clean());
}

#[test]
fn each_bit_maps_to_exactly_one_condition() {
    for (bit, expected) in [
        (0u32, "under_voltage"),
        (1, "arm_capped"),
        (2, "throttled"),
        (3, "soft_temp_limit"),
    ] {
        let now = Throttle::decode(1 << bit).now;
        let sticky = Throttle::decode(1 << (bit + 16)).since_boot;
        for flags in [now, sticky] {
            let set: Vec<&str> = [
                ("under_voltage", flags.under_voltage),
                ("arm_capped", flags.arm_capped),
                ("throttled", flags.throttled),
                ("soft_temp_limit", flags.soft_temp_limit),
            ]
            .into_iter()
            .filter_map(|(name, on)| on.then_some(name))
            .collect();
            assert_eq!(set, vec![expected], "bit {bit}");
        }
    }
}

#[test]
fn both_halves_can_be_set_at_once_and_stay_distinct() {
    let throttle = Throttle::decode(0x50001);
    assert!(throttle.now.under_voltage);
    assert!(!throttle.now.throttled);
    assert!(throttle.since_boot.under_voltage);
    assert!(throttle.since_boot.throttled);
    assert_eq!(throttle.now.labels(Tense::Now), vec!["UNDER-VOLTAGE NOW"]);
    assert_eq!(
        throttle.since_boot.labels(Tense::SinceBoot),
        vec!["under-voltage", "throttled"]
    );
}

#[test]
fn bits_outside_the_two_nibbles_are_ignored() {
    let throttle = Throttle::decode(0x0000_0FF0 | 0x0F00_0000);
    assert!(!throttle.now.any());
    assert!(!throttle.since_boot.any());
}

#[test]
fn throttled_output_parses_in_every_shipped_form() {
    assert_eq!(parse_throttled("throttled=0x0"), Some(0));
    assert_eq!(parse_throttled("throttled=0x50005"), Some(0x50005));
    assert_eq!(parse_throttled("  throttled=0X50000\n"), Some(0x50000));
    assert_eq!(parse_throttled("0x50000"), Some(0x50000));
    assert_eq!(parse_throttled("327680"), Some(327_680));
    assert_eq!(parse_throttled("throttled="), None);
    assert_eq!(parse_throttled("VCHI initialization failed"), None);
}

#[test]
fn volts_and_clock_parse_from_vcgencmd_output() {
    // In millionths of a volt.
    assert_eq!(parse_volts("volt=0.8563V"), Some(856_300));
    assert_eq!(parse_volts("volt=1.2V\n"), Some(1_200_000));
    assert_eq!(parse_volts("volt=broken"), None);
    assert_eq!(parse_clock_mhz("frequency(48)=1500398464"), Some(1500));
    assert_eq!(parse_clock_mhz("frequency(48)="), None);
}

#[test]
fn thermal_zone_reads_millidegrees_and_treats_zero_as_absent() {
    assert_eq!(parse_thermal_millidegrees("48312"), Some(48_312));
    assert_eq!(parse_thermal_millidegrees("0"), None);
    assert_eq!(parse_thermal_millidegrees(""), None);
}

/// A Pi as df describes one: the card, the boot partition, a stick, and the
/// pile of pseudo-filesystems that are not places a capture can land.
const DF: &str = "\
Filesystem     1024-blocks     Used Available Capacity Mounted on
/dev/mmcblk0p2    59872256 21456320  35367424      38% /
devtmpfs            1804000        0   1804000       0% /dev
tmpfs               1963892        0   1963892       0% /dev/shm
tmpfs                785560     1284    784276       1% /run
/dev/mmcblk0p1       522230    62918    459312      13% /boot/firmware
overlay            59872256 21456320  35367424      38% /var/lib/docker/overlay2/abc/merged
/dev/sda1         244180988      512 244180476       1% /media/captures
tmpfs                392776        0    392776       0% /run/user/1000
";

#[test]
fn df_reads_the_posix_columns() {
    let disk = parse_df_all(DF)
        .into_iter()
        .find(|fs| fs.mount == "/")
        .expect("a root filesystem")
        .usage;
    assert_eq!(disk.total_kb, 59_872_256);
    assert_eq!(disk.used_kb, 21_456_320);
    // Available, not total - used: those differ by what is held back for root.
    assert_eq!(disk.avail_kb, 35_367_424);
    assert_ne!(disk.avail_kb, disk.total_kb - disk.used_kb);
    // And the percentage is df's own column, 38%, not used/total.
    let pct = disk.pct();
    let share = pct.num as f64 * 100.0 / pct.den as f64;
    assert!((share - 37.77).abs() < 0.1, "got {share}");
}

#[test]
fn a_disk_df_could_not_measure_is_zero_percent_rather_than_a_divide() {
    assert_eq!(DiskUsage::default().pct().percent(1), "0.0");
    // A df row with no Available column is dropped rather than yielding a
    // plausible figure built from the columns that did arrive.
    assert!(parse_df_all("Filesystem 1024-blocks Used\n/dev/root 100 40\n").is_empty());
    assert!(parse_df_all("").is_empty());
}

#[test]
fn only_filesystems_a_capture_could_land_on_are_listed() {
    let mounts: Vec<String> = parse_df_all(DF).into_iter().map(|fs| fs.mount).collect();
    assert_eq!(mounts, vec!["/", "/boot/firmware", "/media/captures"]);

    assert!(!mounts.iter().any(|m| m.starts_with("/run")));
    assert!(!mounts.iter().any(|m| m == "/dev/shm"));
    // Docker's overlay is the root filesystem counted a second time.
    assert!(!mounts.iter().any(|m| m.contains("overlay")));
}

#[test]
fn df_is_not_forked_every_sample_on_a_box_with_no_dev_backed_root() {
    assert!(should_read_disk(0, false), "the first sample must read");
    assert!(should_read_disk(1, false), "and keep trying until it has");

    // Once it has run, only the slow cadence.
    assert!(!should_read_disk(1, true));
    assert!(!should_read_disk(4, true));
    assert!(should_read_disk(5, true));
    assert!(should_read_disk(10, true));
}

#[test]
fn a_mount_point_containing_spaces_survives_whole() {
    let text = "Filesystem     1024-blocks     Used Available Capacity Mounted on
/dev/sda1        100 40  60      40% /media/pi/MY DISK
";
    let found = parse_df_all(text);
    assert_eq!(found.len(), 1);
    assert_eq!(found[0].mount, "/media/pi/MY DISK");
    assert_eq!(found[0].label(), "MY DISK");
}

#[test]
fn a_mount_point_is_labelled_by_its_last_component() {
    let found = parse_df_all(DF);
    let labels: Vec<String> = found.iter().map(|fs| fs.label()).collect();
    assert_eq!(labels, vec!["/", "firmware", "captures"]);
}

#[test]
fn one_device_mounted_twice_is_one_row() {
    let text = "\
Filesystem     1024-blocks     Used Available Capacity Mounted on
/dev/sda1        100 40  60      40% /media/captures
/dev/sda1        100 40  60      40% /var/lib/classg
";
    assert_eq!(parse_df_all(text).len(), 1);
}

#[test]
fn diskstats_counts_whole_disks_only() {
    let text = "\
 179       0 mmcblk0 1000 0 4000 100 500 0 8000 200 0 300 400
 179       1 mmcblk0p1 10 0 40 1 5 0 80 2 0 3 4
 179       2 mmcblk0p2 900 0 3900 90 490 0 7900 190 0 290 390
   8       0 sda 100 0 2000 10 50 0 6000 20 0 30 40
   8       1 sda1 100 0 2000 10 50 0 6000 20 0 30 40
   7       0 loop0 1 0 2 0 0 0 0 0 0 0 0
 254       0 dm-0 1 0 999 0 0 0 999 0 0 0 0
";
    let (read, written) = parse_diskstats(text);
    assert_eq!(read, 4000 + 2000, "partitions must not be double-counted");
    assert_eq!(written, 8000 + 6000);
}

#[test]
fn whole_disk_recognises_the_shapes_that_appear_on_a_pi() {
    assert!(is_whole_disk("mmcblk0"));
    assert!(!is_whole_disk("mmcblk0p2"));
    assert!(is_whole_disk("sda"));
    assert!(!is_whole_disk("sda1"));
    assert!(is_whole_disk("nvme0n1"));
    assert!(!is_whole_disk("nvme0n1p1"));
    assert!(!is_whole_disk("loop3"));
    assert!(!is_whole_disk("dm-0"));
    assert!(!is_whole_disk("mmcblk"));
}

#[test]
fn a_missing_vcgencmd_leaves_throttle_unknown_not_clean() {
    let mut pane = HealthPane::new();
    pane.sample(HealthReadings::default(), 1);
    let unknown: Option<Throttle> = pane.throttle;
    assert!(unknown.is_none());
    assert!(Throttle::decode(0).clean());
}

#[test]
fn a_sample_takes_every_reading_and_turns_counters_into_rates() {
    let second = 1_000_000_000;
    let text = |s: &str| Some(s.to_string());
    let mut pane = HealthPane::new();
    assert!(pane.wants_disk());
    pane.sample(
        HealthReadings {
            temp: text("58400"),
            cur_freq: text("1500000"),
            max_freq: text("1800000"),
            volts: text("volt=0.8563V"),
            throttled: text("throttled=0x50000"),
            df: text(DF),
            diskstats: text("   8       0 sda 100 0 2000 10 50 0 6000 20 0 30 40\n"),
            ..HealthReadings::default()
        },
        second,
    );
    assert_eq!(pane.temp_milli, Some(58_400));
    assert_eq!(pane.volts_micro, Some(856_300));
    assert_eq!((pane.arm_mhz, pane.max_mhz), (Some(1500), Some(1800)));
    assert_eq!(pane.throttle, Some(Throttle::decode(0x50000)));
    assert_eq!(pane.disk.expect("a root filesystem").used_kb, 21_456_320);
    assert_eq!(pane.filesystems.len(), 3);
    assert_eq!(pane.io.read.bytes, 0, "one reading is not a rate");

    pane.sample(
        HealthReadings {
            diskstats: text("   8       0 sda 100 0 2004 10 50 0 6002 20 0 30 40\n"),
            ..HealthReadings::default()
        },
        3 * second,
    );
    assert_eq!(pane.io.read.bytes, 4 * 512);
    assert_eq!(pane.io.write.bytes, 2 * 512);
    assert_eq!(pane.io.read.nanos, 2 * second);
    // The disk is not measured again before its turn.
    assert_eq!(pane.filesystems.len(), 3);
}

#[test]
fn missing_files_yield_none_rather_than_panicking() {
    assert!(read_trimmed(None).is_none());
    assert!(read_u64(None).is_none());
    assert_eq!(read_trimmed(Some(" 42 \n")).as_deref(), Some("42"));
    assert_eq!(read_u64(Some(" 42 \n")), Some(42));
    assert_eq!(read_u64(Some("forty-two")), None);
}

#[test]
fn a_missing_command_yields_none() {
    assert!(command_output(false, "anything").is_none());
    assert!(command_output(true, "  \n").is_none());
    assert_eq!(command_output(true, " out \n").as_deref(), Some("out"));
}

#[test]
fn page_size_is_always_plausible() {
    // The auxiliary vector as a 64-bit kernel hands it over: the page size
    // stands behind the number six.
    let entry = |key: u64, value: u64| {
        let mut bytes = key.to_le_bytes().to_vec();
        bytes.extend_from_slice(&value.to_le_bytes());
        bytes
    };
    let mut auxv = entry(3, 0x40);
    auxv.extend(entry(6, 16_384));
    auxv.extend(entry(0, 0));
    assert_eq!(page_size(&auxv, 8), 16_384);

    for bytes in [Vec::new(), entry(6, 12_345), entry(6, 1 << 40)] {
        let size = page_size(&bytes, 8);
        assert!(size.is_power_of_two());
        assert!((1024..=1024 * 1024).contains(&size));
    }
}

#[test]
fn a_voltage_reads_with_a_sign_and_an_exponent() {
    assert_eq!(parse_volts("volt=+1.2V"), Some(1_200_000));
    assert_eq!(parse_volts("volt=-0.5V"), Some(-500_000));
    assert_eq!(parse_volts("volt=85.63e-2V"), Some(856_300));
    assert_eq!(parse_volts("volt=1E0V"), Some(1_000_000));
    assert_eq!(parse_volts("volt=.5"), Some(500_000));
    assert_eq!(parse_volts("volt=1e"), None);
    assert_eq!(parse_volts("volt=e5"), None);
    assert_eq!(parse_volts("volt=--1"), None);
    assert_eq!(parse_volts("volt=1e99999999999999999999999999999999999999999"), None);
    assert_eq!(parse_volts("volt=1e-99999999999999999999999999999999999999999"), Some(0));
    assert_eq!(parse_volts("volt=0e99999999999999999999999999999999999999999"), Some(0));
}

#[test]
fn the_register_reads_back_from_every_form_it_is_printed_in() {
    for raw in [0u32, 1, 9, 16, 0x50005, 0x5_0000, 0xdead_beef, u32::MAX] {
        assert_eq!(parse_throttled(&format!("throttled=0x{raw:x}")), Some(raw));
        assert_eq!(parse_throttled(&format!("0x{raw:x}")), Some(raw));
        assert_eq!(parse_throttled(&format!("  throttled=0X{raw:x}\n")), Some(raw));
        assert_eq!(parse_throttled(&raw.to_string()), Some(raw));
    }
}

#[test]
fn a_command_that_writes_broken_text_still_says_something() {
    assert_eq!(command_bytes(true, b" volt=1.2V\n"), Some("volt=1.2V".to_string()));
    assert_eq!(command_bytes(true, b"\xff"), Some("\u{fffd}".to_string()));
    assert_eq!(command_bytes(false, b"volt=1.2V"), None);
    assert_eq!(command_bytes(true, b" \n"), None);
}
