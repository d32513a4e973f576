use pi_dash::config::Config;
use pi_dash::format::Rate;
use pi_dash::panes::radios::{
    is_radio, listed_interfaces, parse_iw_channel, parse_lsusb_line, parse_net_dev, push_window,
    rate, read_usb_from_lsusb, read_usb_from_sysfs, IfaceCounters, IwOutput, Link, RadiosPane,
    RadiosReadings, UsbEntry, WirelessMode,
};

const SECOND: u64 = 1_000_000_000;

const NET_DEV: &str = "\
Inter-|   Receive                                                |  Transmit
 face |bytes    packets errs drop fifo frame compressed multicast|bytes    packets errs drop fifo colls carrier compressed
    lo:   12345      99    0    0    0     0          0         0    12345      99    0    0    0     0       0          0
  eth0: 987654    4321    0    2    0     0          0        11   123456     2222    0    0    0     0       0          0
 wlan1:       0       0    0    0    0     0          0         0        0        0    0    0    0     0       0          0
";

fn vendors() -> Vec<String> {
    Config::default().usb_vendor_ids
}

#[test]
fn net_dev_reads_rx_and_tx_bytes() {
    let parsed = parse_net_dev(NET_DEV);
    assert_eq!(parsed.len(), 3, "headers must not be parsed as interfaces");
    assert_eq!(parsed[0].0, "lo");
    assert_eq!(parsed[1].0, "eth0");
    assert_eq!(parsed[1].1.rx_bytes, 987_654);
    assert_eq!(parsed[1].1.tx_bytes, 123_456);
    assert_eq!(parsed[2].1, IfaceCounters::default());
}

#[test]
fn a_byte_count_that_runs_into_the_colon_still_parses() {
    let text = "wlan1:11529215046068469 8 0 0 0 0 0 0 4096 8 0 0 0 0 0 0\n";
    let parsed = parse_net_dev(text);
    assert_eq!(parsed.len(), 1);
    assert_eq!(parsed[0].0, "wlan1");
    assert_eq!(parsed[0].1.rx_bytes, 11_529_215_046_068_469);
    assert_eq!(parsed[0].1.tx_bytes, 4096);
}

#[test]
fn a_long_interface_name_still_parses() {
    let text = " enx00e04c680001: 4096 1 0 0 0 0 0 0 8192 2 0 0 0 0 0 0\n";
    let parsed = parse_net_dev(text);
    assert_eq!(parsed[0].0, "enx00e04c680001");
    assert_eq!(parsed[0].1.tx_bytes, 8192);
}

#[test]
fn a_truncated_line_does_not_panic_or_invent_a_tx_figure() {
    let parsed = parse_net_dev("eth0: 100 2 0\n");
    assert_eq!(parsed[0].1.rx_bytes, 100);
    assert_eq!(parsed[0].1.tx_bytes, 0);
    assert!(parse_net_dev("").is_empty());
    assert!(parse_net_dev("no colon here\n").is_empty());
}

/// Bytes in a second.
fn per_second(r: Rate) -> f64 {
    if r.nanos == 0 {
        0.0
    } else {
        r.bytes as f64 * SECOND as f64 / r.nanos as f64
    }
}

#[test]
fn rates_use_measured_elapsed_time_and_clamp_a_counter_reset() {
    assert_eq!(per_second(rate(3072, 1024, 2 * SECOND)), 1024.0);
    // Adapter re-plugged: the counter restarted below the previous value.
    assert_eq!(per_second(rate(10, 1_000_000, 2 * SECOND)), 0.0);
    // The very first sample has no interval at all.
    assert_eq!(per_second(rate(3072, 1024, 0)), 0.0);
}

#[test]
fn the_pi_s_actual_adapters_are_recognised_by_vendor_id() {
    let ids = vendors();
    assert!(is_radio("0e8d:7961", "MediaTek Inc. Wireless_Device", &ids));
    assert!(is_radio("0bda:2838", "Realtek RTL2838 DVB-T", &ids));
    assert!(is_radio("148f:5370", "Ralink RT5370", &ids));
    assert!(is_radio("2357:0109", "TP-Link TL-WN823N", &ids));
    assert!(is_radio("0cf3:9271", "Qualcomm Atheros AR9271", &ids));
    assert!(is_radio("1d50:6089", "OpenMoko HackRF One", &ids));
}

#[test]
fn vendor_matching_is_case_insensitive_and_tolerates_a_trailing_colon() {
    let ids = vec!["0E8D:".to_string()];
    assert!(is_radio("0e8d:7961", "", &ids));
    assert!(is_radio("0E8D:7961", "", &ids));
}

#[test]
fn everyday_usb_devices_are_not_radios() {
    let ids = vendors();
    assert!(!is_radio("1d6b:0002", "Linux Foundation 2.0 root hub", &ids));
    assert!(!is_radio("046d:c52b", "Logitech Unifying Receiver", &ids));
    assert!(!is_radio("05e3:0610", "Genesys Logic Hub", &ids));
}

#[test]
fn an_unlisted_vendor_still_matches_on_its_product_string() {
    let ids: Vec<String> = Vec::new();
    assert!(is_radio("ffff:0001", "Nooelec NESDR RTL-SDR", &ids));
    assert!(is_radio("ffff:0002", "Generic 802.11 adapter", &ids));
    assert!(!is_radio("ffff:0003", "Some Vendor Webcam", &ids));
}

#[test]
fn lsusb_lines_split_on_the_id_marker() {
    let device = parse_lsusb_line(
        "Bus 001 Device 004: ID 0bda:2838 Realtek Semiconductor Corp. RTL2838 DVB-T",
    )
    .expect("parsed");
    assert_eq!(device.id, "0bda:2838");
    assert_eq!(device.description, "Realtek Semiconductor Corp. RTL2838 DVB-T");

    // A device with no description string at all.
    let bare = parse_lsusb_line("Bus 001 Device 002: ID 0e8d:7961").expect("parsed");
    assert_eq!(bare.id, "0e8d:7961");
    assert_eq!(bare.description, "");

    assert!(parse_lsusb_line("").is_none());
    assert!(parse_lsusb_line("Bus 001 Device 002: ID nonsense").is_none());
}

#[test]
fn iw_channel_is_read_from_the_info_block() {
    let text = "\
Interface wlan1
\tifindex 4
\twdev 0x2
\ttype monitor
\tchannel 6 (2437 MHz), width: 20 MHz, center1: 2437 MHz
\ttxpower 20.00 dBm
";
    assert_eq!(parse_iw_channel(text), Some(6));
    assert_eq!(parse_iw_channel("Interface wlan0\n\ttype managed\n"), None);
}

#[test]
fn sysfs_devices_are_listed_by_their_ids() {
    let some = |s: &str| Some(s.to_string());
    let entries = vec![
        UsbEntry {
            vendor: some("148f"),
            product: some("5370"),
            manufacturer: some("Ralink"),
            name: some("802.11 n WLAN"),
        },
        UsbEntry {
            vendor: some("0bda"),
            product: some("2838"),
            manufacturer: None,
            name: some("RTL2838"),
        },
        // A directory that is not a device.
        UsbEntry { vendor: None, product: None, manufacturer: None, name: None },
    ];
    let found = read_usb_from_sysfs(&entries);
    let ids: Vec<&str> = found.iter().map(|u| u.id.as_str()).collect();
    assert_eq!(ids, ["0bda:2838", "148f:5370"]);
    assert_eq!(found[1].description, "Ralink 802.11 n WLAN");
    assert_eq!(read_usb_from_lsusb(None).len(), 0);
    assert_eq!(
        read_usb_from_lsusb(Some("Bus 001 Device 002: ID 0e8d:7961\nnot a line\n")).len(),
        1
    );
}

#[test]
fn a_window_slides_and_stays_bounded() {
    let mut window: Vec<u64> = Vec::new();
    for n in 0..10 {
        push_window(&mut window, n, 4);
    }
    assert_eq!(window, [6, 7, 8, 9]);
}

#[test]
fn a_sample_lists_links_with_their_mode_channel_and_rates() {
    let ignore = Config::default().ignore_interfaces;
    assert_eq!(listed_interfaces(Some(NET_DEV), &ignore), ["eth0", "wlan1"]);

    let mut pane = RadiosPane::new();
    assert!(pane.wants_scan());
    let links = || {
        vec![
            Link {
                name: "eth0".to_string(),
                operstate: Some("up".to_string()),
                wireless: false,
                kind: Some("1".to_string()),
                driver: Some("bcmgenet".to_string()),
            },
            Link {
                name: "wlan1".to_string(),
                operstate: Some("unknown".to_string()),
                wireless: true,
                kind: Some("803".to_string()),
                driver: None,
            },
        ]
    };
    pane.sample(
        RadiosReadings {
            net_dev: Some(NET_DEV.to_string()),
            links: links(),
            iw: vec![IwOutput {
                name: "wlan1".to_string(),
                text: "\tchannel 6 (2437 MHz)\n".to_string(),
            }],
            usb: Vec::new(),
        },
        SECOND,
        &vendors(),
        &ignore,
    );
    assert_eq!(pane.ifaces.len(), 2);
    assert_eq!(pane.ifaces[0].name, "eth0");
    assert_eq!(pane.ifaces[0].mode, None);
    assert_eq!(pane.ifaces[1].mode, Some(WirelessMode::Monitor));
    assert_eq!(pane.ifaces[1].channel, Some(6));
    assert_eq!(pane.ifaces[0].rx.bytes, 0, "one reading is not a rate");
    // Two tables, each with a heading or a word that it is empty, and two
    // lines between them.
    assert_eq!(pane.content_rows(), 3 + 2 + 1);

    let later = NET_DEV.replace("987654", "989702");
    pane.sample(
        RadiosReadings {
            net_dev: Some(later),
            links: links(),
            iw: Vec::new(),
            usb: Vec::new(),
        },
        2 * SECOND,
        &vendors(),
        &ignore,
    );
    assert_eq!(per_second(pane.ifaces[0].rx), 2048.0);
    assert_eq!(pane.ifaces[0].rx_total, 989_702);
    assert_eq!(pane.throughput.last(), Some(&2048));
}
