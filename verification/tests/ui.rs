//! Screens drawn through the real terminal library, so that what no parser test
//! can show is shown: a pane whose title falls off the edge, a layout that
//! leaves a pane no rows, a state that renders as the wrong words.

use ratatui::backend::TestBackend;
use ratatui::buffer::Buffer;
use ratatui::style::Color as Ink;
use ratatui::Terminal;

use pi_dash::app::{App, Mode, Pane};
use pi_dash::check::{judge, verdict_of};
use pi_dash::config::{Config, READER_MAX_COLS};
use pi_dash::format::Rate;
use pi_dash::numeric::Ratio;
use pi_dash::paint::{Color, Line, Style};
use pi_dash::panes::classg::{
    Adsb, AuthState, AuthUser, Capture, CaptureAnalysis, CapturePage, Detection, DetectionPage,
    Evidence, FlexTime, FusionHealth, HealthResponse, Identity, MonitoringState, Position, Rf,
    SensorHealth, Slow, Snapshot, SpectrumSweep, SweepPage, SystemBuild, SystemHost, SystemInfo,
    SystemRuntime, Trace, Track, TrackPage,
};
use pi_dash::panes::health::{DiskUsage, Filesystem, IoRates, Throttle};
use pi_dash::panes::radios::{Iface, UsbRadio, WirelessMode};
use pi_dash::panes::system::{LoadAvg, MemInfo, ProcRow, SortBy};
use pi_dash::ui::classg::detection_request;
use pi_dash::ui::gauge::{Depth, Glyphs};
use pi_dash::ui::screen::{draw, Align, Moment, Widget};

/// A colour of the library as the terminal has it.
fn ink(color: Color) -> Ink {
    match color {
        Color::Black => Ink::Black,
        Color::Red => Ink::Red,
        Color::Green => Ink::Green,
        Color::Yellow => Ink::Yellow,
        Color::Blue => Ink::Blue,
        Color::Magenta => Ink::Magenta,
        Color::Cyan => Ink::Cyan,
        Color::Gray => Ink::Gray,
        Color::DarkGray => Ink::DarkGray,
        Color::LightRed => Ink::LightRed,
        Color::LightGreen => Ink::LightGreen,
        Color::LightYellow => Ink::LightYellow,
        Color::LightBlue => Ink::LightBlue,
        Color::LightMagenta => Ink::LightMagenta,
        Color::LightCyan => Ink::LightCyan,
        Color::White => Ink::White,
        Color::Indexed(n) => Ink::Indexed(n),
    }
}

fn styled(style: Style) -> ratatui::style::Style {
    let mut out = ratatui::style::Style::default();
    if let Some(fg) = style.fg {
        out = out.fg(ink(fg));
    }
    if let Some(bg) = style.bg {
        out = out.bg(ink(bg));
    }
    if style.bold {
        out = out.add_modifier(ratatui::style::Modifier::BOLD);
    }
    out
}

fn drawn(line: &Line) -> ratatui::text::Line<'static> {
    ratatui::text::Line::from(
        line.spans
            .iter()
            .map(|s| ratatui::text::Span::styled(s.text.clone(), styled(s.style)))
            .collect::<Vec<_>>(),
    )
}

fn borders(glyphs: Glyphs) -> ratatui::symbols::border::Set {
    match glyphs {
        Glyphs::Unicode => ratatui::symbols::border::PLAIN,
        Glyphs::Ascii => ratatui::symbols::border::Set {
            top_left: "+",
            top_right: "+",
            bottom_left: "+",
            bottom_right: "+",
            vertical_left: "|",
            vertical_right: "|",
            horizontal_top: "-",
            horizontal_bottom: "-",
        },
    }
}

fn paint(frame: &mut ratatui::Frame, widget: &Widget, glyphs: Glyphs) {
    let area = ratatui::layout::Rect::new(
        widget.area.x,
        widget.area.y,
        widget.area.width,
        widget.area.height,
    );
    if widget.clear {
        frame.render_widget(ratatui::widgets::Clear, area);
    }
    let lines: Vec<ratatui::text::Line> = widget.lines.iter().map(drawn).collect();
    let mut text = ratatui::widgets::Paragraph::new(lines).alignment(match widget.align {
        Align::Left => ratatui::layout::Alignment::Left,
        Align::Center => ratatui::layout::Alignment::Center,
        Align::Right => ratatui::layout::Alignment::Right,
    });
    if widget.wrap {
        text = text.wrap(ratatui::widgets::Wrap { trim: false });
    }
    if let Some(around) = &widget.frame {
        let mut block = ratatui::widgets::Block::default()
            .borders(ratatui::widgets::Borders::ALL)
            .border_set(borders(glyphs))
            .border_style(ratatui::style::Style::default().fg(ink(around.border)))
            .title(drawn(&around.title));
        if let Some(corner) = &around.corner {
            block = block.title_top(drawn(corner).right_aligned());
        }
        text = text.block(block);
    }
    frame.render_widget(text, area);
}

fn moment() -> Moment {
    Moment {
        clock: "21:28:27".to_string(),
        now: FlexTime { secs: 1_786_883_696, nanos: 0 },
        nanos: 1_000_000_000,
    }
}

fn screen(app: &mut App, width: u16, height: u16) -> Buffer {
    let glyphs = app.glyphs;
    let widgets = draw(app, width, height, &moment());
    let mut terminal = Terminal::new(TestBackend::new(width, height)).expect("test backend");
    terminal
        .draw(|frame| {
            for widget in &widgets {
                paint(frame, widget, glyphs);
            }
        })
        .expect("draw must not fail");
    terminal.backend().buffer().clone()
}

/// A rate in bytes per second.
fn bps(bytes: u64) -> Rate {
    Rate { bytes, nanos: 1_000_000_000 }
}

/// Traces what one sensor has heard.
fn trace(app: &mut App, counts: Vec<u64>) {
    app.classg.traces = vec![Trace { sensor_id: "wifi-1".to_string(), counts }];
}

fn counted(app: &App) -> usize {
    app.classg
        .traces
        .iter()
        .find(|t| t.sensor_id == "wifi-1")
        .map_or(0, |t| t.counts.len())
}

fn with_config(config: Config) -> App {
    App::new(config, None, Depth::Cube256, 4096)
}

const BAD: Ink = Ink::Red;
const WARN: Ink = Ink::Yellow;
const DIM: Ink = Ink::DarkGray;

fn test_app() -> App {
    with_config(Config { api: "http://127.0.0.1:1".to_string(), ..Config::default() })
}

fn render(app: &mut App, width: u16, height: u16) -> Vec<String> {
    let buffer = screen(app, width, height);
    (0..height)
        .map(|y| {
            (0..width)
                .map(|x| buffer[(x, y)].symbol().to_string())
                .collect::<String>()
        })
        .collect()
}

fn contains(rows: &[String], needle: &str) -> bool {
    rows.iter().any(|row| row.contains(needle))
}

#[test]
fn the_wide_layout_shows_every_pane_at_once() {
    let mut app = test_app();
    let rows = render(&mut app, 140, 44);
    for title in ["System", "Pi health", "Radios & network", "ClassG"] {
        assert!(
            contains(&rows, title),
            "missing {title} in:\n{}",
            rows.join("\n")
        );
    }
}

#[test]
fn the_reader_column_is_clamped_not_proportional() {
    let mut app = test_app();
    let rows = render(&mut app, 300, 44);
    let health_row = rows
        .iter()
        .find(|row| row.contains("Pi health"))
        .expect("health pane title");
    let start = health_row.find("Pi health").expect("title offset");
    assert!(
        start as u16 >= 300 - READER_MAX_COLS - 2,
        "reader column started at {start}, so it is wider than the clamp"
    );
}

#[test]
fn a_narrow_terminal_shows_one_pane_at_a_time() {
    let mut app = test_app();
    app.focus = Pane::Radios;
    let rows = render(&mut app, 70, 24);
    assert!(contains(&rows, "Radios & network"));
    assert!(!contains(&rows, "Pi health"), "panes must not be stacked");
    assert!(
        contains(&rows, "tab/1-4 pane"),
        "the footer must say how to switch"
    );
}

#[test]
fn every_pane_still_draws_in_a_tiny_terminal() {
    let mut app = test_app();
    for pane in Pane::all() {
        app.focus = pane;
        render(&mut app, 24, 6);
        render(&mut app, 20, 3);
    }
}

fn with_load(app: &mut App) {
    app.system.unavailable = None;
    app.system.cpu = Some(Ratio::new(87, 100));
    app.system.cores = vec![
        Some(Ratio::new(100, 100)),
        Some(Ratio::new(995, 1000)),
        Some(Ratio::new(72, 100)),
        Some(Ratio::new(3, 100)),
    ];
    app.system.mem = MemInfo {
        total_kb: 3_800_000,
        available_kb: 2_400_000,
        cached_kb: 1_200_000,
        buffers_kb: 90_000,
        swap_total_kb: 524_288,
        swap_free_kb: 524_288,
    };
    app.system.load = LoadAvg {
        one: 15_670_000,
        five: 5_210_000,
        fifteen: 2_240_000,
        runnable: 4,
        tasks: 431,
    };
    app.system.uptime_secs = 26_700;
    app.system.cpu_history = (0..200).map(|i| Ratio::new(i % 100, 99)).collect();
    app.system.procs = vec![
        ProcRow {
            pid: 91_997,
            name: "npm ci".to_string(),
            state: 'R',
            cpu: Ratio::new(88, 100),
            rss_kb: 482_000,
            threads: 12,
            user: "admin".to_string(),
            cmdline: "/usr/bin/node /usr/lib/node_modules/npm/bin/npm-cli.js ci".to_string(),
        },
        ProcRow {
            pid: 68_260,
            name: "dump1090-mutability".to_string(),
            state: 'D',
            cpu: Ratio::new(47, 100),
            rss_kb: 6_000,
            threads: 3,
            user: "dump1090".to_string(),
            cmdline: "/usr/bin/dump1090-mutability --net --quiet".to_string(),
        },
    ];
}

fn has_braille(rows: &[String]) -> bool {
    rows.iter().any(|row| {
        row.chars()
            .any(|c| ('\u{2801}'..='\u{28FF}').contains(&c))
    })
}

#[test]
fn the_system_pane_draws_gradient_meters_and_a_history_graph() {
    let mut app = test_app();
    with_load(&mut app);
    let rows = render(&mut app, 140, 44);
    let screen = rows.join("\n");

    assert!(
        screen.contains('\u{2588}'),
        "the meters must be block-filled, not ASCII:\n{screen}"
    );
    assert!(
        has_braille(&rows),
        "the CPU history graph is missing:\n{screen}"
    );
    assert!(
        contains(&rows, "reclaimable"),
        "cache meter missing:\n{screen}"
    );
    assert!(
        contains(&rows, "431 threads, 4 running"),
        "thread counts missing"
    );
    assert!(
        contains(&rows, "up 0d7h25m"),
        "uptime chip missing:\n{screen}"
    );
    assert!(contains(&rows, "npm ci"), "process table missing");
}

#[test]
fn ascii_mode_leaves_no_drawing_glyph_anywhere_on_screen() {
    let mut app = with_config(Config {
        api: "http://127.0.0.1:1".to_string(),
        glyphs: "ascii".to_string(),
        ..Config::default()
    });
    with_load(&mut app);

    for (width, height) in [(140, 44), (70, 24), (24, 6)] {
        for row in render(&mut app, width, height) {
            for ch in row.chars() {
                let drawing = matches!(ch,
                    '\u{2500}'..='\u{257F}'
                    | '\u{2580}'..='\u{259F}'
                    | '\u{25A0}'..='\u{25FF}'
                    | '\u{2190}'..='\u{21FF}'
                    | '\u{2800}'..='\u{28FF}'
                );
                assert!(
                    !drawing,
                    "U+{:04X} survived ascii mode at {width}x{height} in: {row}",
                    ch as u32
                );
            }
        }
    }
}

#[test]
fn a_short_pane_drops_the_graph_rather_than_the_process_table() {
    let mut app = test_app();
    with_load(&mut app);
    app.focus = Pane::System;
    let rows = render(&mut app, 90, 16);
    let screen = rows.join("\n");
    assert!(
        !has_braille(&rows),
        "there is no room for a graph here:\n{screen}"
    );
    assert!(
        contains(&rows, "npm ci"),
        "the table must survive:\n{screen}"
    );
}

#[test]
fn no_system_pane_label_is_ever_sliced_by_the_pane_edge() {
    let mut app = test_app();
    with_load(&mut app);
    app.focus = Pane::System;

    fn cell<'a>(row: &'a str, label: &str) -> Option<&'a str> {
        let tail = row.split(label).nth(1)?;
        Some(tail.split(['\u{2502}', '|']).next().unwrap_or(tail))
    }

    for width in 30..150u16 {
        for row in render(&mut app, width, 30) {
            if let Some(cache) = cell(&row, "  cache ") {
                assert!(
                    !cache.contains("reclaimab") || cache.contains("reclaimable"),
                    "sliced at width {width}: {row}"
                );
            }
            if let Some(swap) = cell(&row, "  swap ") {
                assert!(
                    !swap.contains("thread") || swap.contains(" threads"),
                    "sliced at width {width}: {row}"
                );
                assert!(
                    !swap.contains("runnin") || swap.contains(" running"),
                    "sliced at width {width}: {row}"
                );
            }
            if let Some(cpu) = cell(&row, "  cpu ") {
                assert!(
                    !cpu.contains(" core") || cpu.contains(" cores"),
                    "sliced at width {width}: {row}"
                );
                if let Some(load) = cpu.split(" load ").nth(1) {
                    let numbers: Vec<&str> = load.split_whitespace().collect();
                    assert_eq!(numbers.len(), 3, "load cut short at width {width}: {row}");
                    for n in numbers {
                        assert!(
                            n.parse::<f64>().is_ok(),
                            "partial number {n:?} at width {width}: {row}"
                        );
                    }
                }
            }
        }
    }
}

#[test]
fn adjacent_process_columns_never_run_into_each_other() {
    let mut app = test_app();
    with_load(&mut app);
    app.system.procs[0].name = "W".repeat(40);
    app.system.procs[0].cmdline = "Z".repeat(60);
    app.focus = Pane::System;

    for width in 40..200u16 {
        for row in render(&mut app, width, 30) {
            assert!(!row.contains("WZ"), "columns touch at width {width}: {row}");
        }
    }
}

#[test]
fn a_kernel_thread_is_bracketed_rather_than_left_blank() {
    let mut app = test_app();
    with_load(&mut app);
    app.system.procs[1].name = "kworker/0:1".to_string();
    app.system.procs[1].cmdline = String::new();
    app.focus = Pane::System;
    let rows = render(&mut app, 160, 30);
    assert!(
        contains(&rows, "[kworker/0:1]"),
        "an empty cmdline must read as a kernel thread, not a failed read:\n{}",
        rows.join("\n")
    );
}

#[test]
fn a_monitor_interface_reporting_unknown_is_not_drawn_as_a_fault() {

    let mut app = test_app();
    app.radios.ifaces = vec![
        Iface {
            name: "wlan1".into(),
            state: "unknown".into(),
            rx: bps(0),
            tx: bps(0),
            rx_total: 0,
            tx_total: 0,
            mode: Some(WirelessMode::Monitor),
            channel: Some(6),
            driver: Some("mt7921u".into()),
        },
        Iface {
            name: "eth0".into(),
            state: "down".into(),
            rx: bps(0),
            tx: bps(0),
            rx_total: 0,
            tx_total: 0,
            mode: None,
            channel: None,
            driver: Some("bcmgenet".into()),
        },
    ];
    app.focus = Pane::Radios;

    let buffer = screen(&mut app, 120, 30);

    let colour_of = |needle: &str| -> Option<Ink> {
        let needle: Vec<char> = needle.chars().collect();
        for y in 0..30u16 {
            let row: Vec<String> = (0..120u16)
                .map(|x| buffer[(x, y)].symbol().to_string())
                .collect();
            let flat: String = row.concat();
            if !flat.contains("wlan1") && !flat.contains("eth0") {
                continue;
            }
            for x in 0..row.len().saturating_sub(needle.len()) {
                if needle
                    .iter()
                    .enumerate()
                    .all(|(i, c)| row[x + i] == c.to_string())
                {
                    return buffer[(x as u16, y)].fg.into();
                }
            }
        }
        None
    };

    assert_ne!(
        colour_of("unkn"),
        Some(BAD),
        "an unknown operstate must not read as a fault"
    );
    assert_eq!(
        colour_of("down"),
        Some(BAD),
        "a genuinely down link still must"
    );
}

#[test]
fn every_health_meter_starts_at_the_same_column() {

    let mut app = test_app();
    app.health.temp_milli = Some(39_400);
    app.health.volts_micro = Some(850_000);
    app.health.arm_mhz = Some(1000);
    app.health.max_mhz = Some(1800);
    app.health.disk = Some(DiskUsage {
        used_kb: 31_775_129,
        total_kb: 122_683_392,
        avail_kb: 84_774_400,
    });
    app.health.io = IoRates::default();
    app.focus = Pane::Health;

    for width in 50..140u16 {
        let rows = render(&mut app, width, 30);
        let starts: Vec<usize> = ["  temp ", "  clock ", "  disk "]
            .iter()
            .filter_map(|label| {
                let row = rows.iter().find(|r| r.contains(*label))?;
                row.char_indices()
                    .filter(|(_, c)| matches!(c, '\u{2588}'..='\u{2593}'))
                    .map(|(i, _)| row[..i].chars().count())
                    .next()
            })
            .collect();
        assert_eq!(starts.len(), 3, "all three rows must draw a meter");
        assert!(
            starts.windows(2).all(|w| w[0] == w[1]),
            "meters start at {starts:?} at width {width}"
        );
    }
}

#[test]
fn every_table_on_screen_has_a_heading_over_it() {
    let mut app = test_app();
    with_load(&mut app);
    app.radios.ifaces = vec![Iface {
        name: "wlan1".into(),
        state: "unknown".into(),
        rx: bps(3993),
        tx: bps(0),
        rx_total: 0,
        tx_total: 0,
        mode: Some(WirelessMode::Monitor),
        channel: Some(11),
        driver: Some("mt7921u".into()),
    }];
    app.radios.usb = vec![UsbRadio {
        id: "0bda:2838".into(),
        description: "RTLSDRBlog Blog V4".into(),
    }];
    app.classg.snapshot = Snapshot {
        health: Some(HealthResponse {
            status: "ok".to_string(),
            sensors: vec![SensorHealth {
                sensor_id: "sdr-0".to_string(),
                sensor_kind: "sdr".to_string(),
                healthy: true,
                ..SensorHealth::default()
            }],
            ..HealthResponse::default()
        }),
        ..Snapshot::default()
    };

    let rows = render(&mut app, 152, 48);
    for heading in [
        "PID", "COMMAND", "MEM", "CPU%",
        "IFACE", "LINK", "RX", "TX", "MODE", "CH", "DRIVER",
        "VID:PID", "DEVICE",
        "SENSOR", "KIND", "STATE", "BEAT", "5MIN",
    ] {
        assert!(
            contains(&rows, heading),
            "no {heading} heading:\n{}",
            rows.join("\n")
        );
    }
}

#[test]
fn a_missing_vcgencmd_reads_as_unknown_not_as_ok() {
    let mut app = test_app();
    app.health.throttle = None;
    let rows = render(&mut app, 140, 44);
    assert!(contains(&rows, "no vcgencmd here"), "{}", rows.join("\n"));
    assert!(
        !contains(&rows, "clean since boot"),
        "'cannot tell' must never render as 'clean'"
    );
}

#[test]
fn a_clean_register_and_a_sticky_one_render_differently() {
    let mut app = test_app();
    app.health.throttle = Some(Throttle::decode(0));
    let clean = render(&mut app, 140, 44);
    assert!(contains(&clean, "clean since boot"));

    app.health.throttle = Some(Throttle::decode(0x50000));
    let sticky = render(&mut app, 140, 44);
    assert!(
        contains(&sticky, "nothing right now"),
        "{}",
        sticky.join("\n")
    );
    assert!(contains(&sticky, "under-voltage, throttled"));
    assert!(
        contains(&sticky, "0x50000"),
        "the raw code must still be readable"
    );
    assert!(
        !contains(&sticky, "UNDER-VOLTAGE NOW"),
        "a sticky bit must not be reported as live"
    );

    app.health.throttle = Some(Throttle::decode(0x50005));
    let live = render(&mut app, 140, 44);
    assert!(
        contains(&live, "UNDER-VOLTAGE NOW, throttled"),
        "{}",
        live.join("\n")
    );
    assert!(contains(&live, "under-voltage, throttled"));
    assert!(contains(&live, "0x50005"));
}

#[test]
fn a_dead_api_degrades_into_a_hint_and_leaves_the_rest_alone() {
    let mut app = test_app();
    app.classg.snapshot = Snapshot {
        error: Some("connection refused".to_string()),
        ..Snapshot::default()
    };
    let rows = render(&mut app, 140, 44);
    assert!(contains(&rows, "not reachable"));
    assert!(contains(&rows, "make dev"));
    assert!(contains(&rows, "Pi health"));
    assert!(contains(&rows, "Radios & network"));
    assert!(contains(&rows, "System"));
}

#[test]
fn a_down_sensor_gets_its_reason_on_its_own_line() {
    let mut app = test_app();
    app.classg.snapshot = Snapshot {
        health: Some(HealthResponse {
            status: "degraded".to_string(),
            uptime_s: 4000,
            version: "0.4.1".to_string(),
            sensors: vec![SensorHealth {
                sensor_id: "sdr-1".to_string(),
                healthy: false,
                reason: Some("rtl_sdr: device not found".to_string()),
                ..SensorHealth::default()
            }],
            fusion: None,
        }),
        ..Snapshot::default()
    };
    let rows = render(&mut app, 140, 44);
    assert!(contains(&rows, "degraded"));
    assert!(contains(&rows, "DOWN"));
    assert!(
        contains(&rows, "rtl_sdr: device not found"),
        "{}",
        rows.join("\n")
    );
    assert!(
        contains(&rows, "not configured"),
        "fusion state must still show"
    );
}

#[test]
fn the_help_overlay_covers_the_screen_and_names_the_config_source() {
    let mut app = test_app();
    app.mode = Mode::Help;
    let rows = render(&mut app, 140, 44);
    assert!(contains(&rows, "Help"));
    assert!(contains(&rows, "CLASSG_API"));
    assert!(contains(&rows, "built-in defaults"));
}

fn busy_snapshot() -> Snapshot {
    Snapshot {
        health: Some(HealthResponse {
            status: "ok".to_string(),
            uptime_s: 8_040,
            version: "0.4.1".to_string(),
            sensors: vec![SensorHealth {
                sensor_id: "wifi-1".to_string(),
                sensor_kind: "wifi".to_string(),
                healthy: true,
                seconds_since_heartbeat: Some(2),
                detections_5m: 1_284,
                ..SensorHealth::default()
            }],
            fusion: Some(FusionHealth {
                connected: true,
                configured: true,
                ..FusionHealth::default()
            }),
        }),
        monitoring: Some(MonitoringState {
            enabled: true,
            ..MonitoringState::default()
        }),
        tracks: Some(TrackPage {
            tracks: vec![Track {
                state: "CONFIRMED".to_string(),
                confidence: 820_000,
                detection_count: 402,
                identity: Some(Identity {
                    model_hint: Some("Mavic 3".to_string()),
                    ..Identity::default()
                }),
                evidence: vec![Evidence {
                    class: "A".to_string(),
                    count: 402,
                }],
                current: Some(Position {
                    height_agl_m: Some(120_000_000),
                    speed_mps: Some(14_000_000),
                    ..Position::default()
                }),
                rssi_dbm: Some(-58_000_000),
                ..Track::default()
            }],
            total: 1,
        }),
        detections: Some(DetectionPage {
            detections: vec![Detection {
                sensor_id: "wifi-1".to_string(),
                sensor_kind: "wifi".to_string(),
                detection_class: "A".to_string(),
                rf: Some(Rf {
                    channel: Some(149),
                    rssi_dbm: Some(-52_000_000),
                    ..Rf::default()
                }),
                ..Detection::default()
            }],
            total: 1_284,
        }),
        slow: Slow {
            system: Some(SystemInfo {
                build: SystemBuild {
                    version: "0.4.1".to_string(),
                    revision: Some("a1b2c3d4e5".to_string()),
                    revision_dirty: false,
                },
                runtime: SystemRuntime {
                    store: "libsql".to_string(),
                    ..SystemRuntime::default()
                },
                host: SystemHost {
                    disk_path: "/var/lib/classg".to_string(),
                    disk_total_bytes: Some(31_000_000_000),
                    disk_free_bytes: Some(12_400_000_000),
                },
            }),
            ..Slow::default()
        },
        ..Snapshot::default()
    }
}

#[test]
fn a_paused_recording_is_never_mistaken_for_a_quiet_sky() {
    let mut app = test_app();
    let mut snapshot = busy_snapshot();
    snapshot.tracks = Some(TrackPage::default());
    snapshot.monitoring = Some(MonitoringState {
        enabled: false,
        reason: Some("known local flight".to_string()),
        discarded: 1_204,
        ..MonitoringState::default()
    });
    app.classg.snapshot = snapshot;

    let rows = render(&mut app, 140, 44);
    assert!(contains(&rows, "PAUSED"), "{}", rows.join("\n"));
    assert!(contains(&rows, "1.2k discarded"), "the toll of the pause");
    assert!(contains(&rows, "known local flight"), "and why");
    assert!(contains(&rows, "nothing tracked"));
}

#[test]
fn a_running_recording_says_so_without_shouting() {
    let mut app = test_app();
    app.classg.snapshot = busy_snapshot();
    let rows = render(&mut app, 140, 44);
    assert!(contains(&rows, "recording"));
    assert!(!contains(&rows, "PAUSED"));
    assert!(!contains(&rows, "discarded"));
}

#[test]
fn the_build_a_deploy_can_be_matched_against_beats_the_bare_version() {
    let mut app = test_app();
    app.classg.snapshot = busy_snapshot();
    let rows = render(&mut app, 140, 44);
    assert!(contains(&rows, "0.4.1+a1b2c3d"), "{}", rows.join("\n"));
    assert!(contains(&rows, "libsql"));
    assert!(contains(&rows, "free of"));
}

#[test]
fn a_unit_with_no_slow_tier_yet_still_shows_its_version() {
    let mut app = test_app();
    let mut snapshot = busy_snapshot();
    snapshot.slow = Slow::default();
    app.classg.snapshot = snapshot;
    let rows = render(&mut app, 140, 44);
    assert!(contains(&rows, "0.4.1"));
    assert!(!contains(&rows, "libsql"), "no store line without /system");
}

#[test]
fn a_track_nothing_identified_is_drawn_differently_from_one_something_did() {
    let mut app = test_app();
    let mut snapshot = busy_snapshot();
    snapshot.tracks = Some(TrackPage {
        tracks: vec![Track {
            state: "TENTATIVE".to_string(),
            confidence: 100_000,
            detection_count: 140,
            identity: Some(Identity {
                vendor: Some("DJI".to_string()),
                ..Identity::default()
            }),
            evidence: vec![Evidence {
                class: "C".to_string(),
                count: 140,
            }],
            ..Track::default()
        }],
        total: 1,
    });
    app.classg.snapshot = snapshot;

    let rows = render(&mut app, 140, 44);
    assert!(
        contains(&rows, "~DJI"),
        "an unidentified contact must be marked: {}",
        rows.join("\n")
    );
    assert!(contains(&rows, "Cx140"));
}

#[test]
fn an_identified_track_shows_its_evidence_and_its_kinematics() {
    let mut app = test_app();
    app.classg.snapshot = busy_snapshot();
    let rows = render(&mut app, 140, 44);
    assert!(contains(&rows, "Mavic 3"), "{}", rows.join("\n"));
    assert!(!contains(&rows, "~Mavic 3"), "this one was identified");
    assert!(contains(&rows, "Ax402"), "class A, seen 402 times");
    assert!(contains(&rows, "120m agl"), "reported height above ground");
    assert!(contains(&rows, "14m/s"));
    assert!(contains(&rows, "-58dBm"));
}

#[test]
fn detections_name_their_class_rather_than_lettering_it() {
    let mut app = test_app();
    app.classg.snapshot = busy_snapshot();
    let rows = render(&mut app, 140, 44);
    assert!(
        contains(&rows, "Remote ID"),
        "a bare 'A' is not a claim anyone can check: {}",
        rows.join("\n")
    );
    assert!(contains(&rows, "ch149"), "the Wi-Fi sensor names a channel");
}

#[test]
fn an_sdr_detection_is_tuned_by_frequency_because_it_has_no_channel() {
    let mut app = test_app();
    let mut snapshot = busy_snapshot();
    snapshot.detections = Some(DetectionPage {
        detections: vec![Detection {
            sensor_kind: "sdr".to_string(),
            detection_class: "E".to_string(),
            rf: Some(Rf {
                freq_hz: Some(915_000_000),
                rssi_dbm: Some(-71_000_000),
                ..Rf::default()
            }),
            ..Detection::default()
        }],
        total: 4,
    });
    app.classg.snapshot = snapshot;
    let rows = render(&mut app, 140, 44);
    assert!(contains(&rows, "915M"), "{}", rows.join("\n"));
    assert!(contains(&rows, "Control link"));
}

#[test]
fn a_radio_held_by_a_capture_or_a_sweep_is_reported_where_the_sensor_is() {
    let mut app = test_app();
    let mut snapshot = busy_snapshot();
    snapshot.slow.captures = Some(CapturePage {
        captures: vec![Capture {
            state: "running".to_string(),
            iface: "wlan1".to_string(),
            channel: 6,
            duration_s: 60,
            ..Capture::default()
        }],
    });
    snapshot.slow.sweeps = Some(SweepPage {
        sweeps: vec![SpectrumSweep {
            band: "2.4GHz".to_string(),
            state: "running".to_string(),
            ..SpectrumSweep::default()
        }],
    });
    app.classg.snapshot = snapshot;

    let rows = render(&mut app, 140, 44);
    assert!(
        contains(&rows, "wlan1 ch6  60s"),
        "{}",
        rows.join(
            "
"
        )
    );
    assert!(
        contains(&rows, "no ADS-B while it runs"),
        "a sweep borrows the SDR from dump1090"
    );
}

#[test]
fn a_failed_capture_says_why_rather_than_only_that_it_failed() {
    let mut app = test_app();
    let mut snapshot = busy_snapshot();
    snapshot.slow.captures = Some(CapturePage {
        captures: vec![Capture {
            state: "failed".to_string(),
            iface: "wlan1".to_string(),
            error: Some("tcpdump: wlan1: No such device".to_string()),
            ..Capture::default()
        }],
    });
    app.classg.snapshot = snapshot;
    let rows = render(&mut app, 140, 44);
    assert!(contains(&rows, "No such device"), "{}", rows.join("\n"));
}

#[test]
fn an_idle_unit_spends_no_rows_on_the_radio_section() {
    let mut app = test_app();
    let mut snapshot = busy_snapshot();
    snapshot.slow.captures = Some(CapturePage {
        captures: vec![Capture {
            state: "completed".to_string(),
            iface: "wlan1".to_string(),
            frame_count: 12_400,
            analysis: Some(CaptureAnalysis {
                analyzed: false,
                drone_transmitters: 0,
            }),
            ..Capture::default()
        }],
    });
    app.classg.snapshot = snapshot;
    let rows = render(&mut app, 140, 44);
    assert!(!contains(&rows, "capture"), "{}", rows.join("\n"));
}

#[test]
fn an_analysed_capture_reports_what_it_found() {
    let mut app = test_app();
    let mut snapshot = busy_snapshot();
    snapshot.slow.captures = Some(CapturePage {
        captures: vec![Capture {
            state: "completed".to_string(),
            frame_count: 12_400,
            label: Some("beacon test".to_string()),
            analysis: Some(CaptureAnalysis {
                analyzed: true,
                drone_transmitters: 3,
            }),
            ..Capture::default()
        }],
    });
    app.classg.snapshot = snapshot;
    let rows = render(&mut app, 140, 44);
    assert!(contains(&rows, "3 drone tx"), "{}", rows.join("\n"));
    assert!(contains(&rows, "12.4k frames"));
    assert!(contains(&rows, "beacon test"));
}

#[test]
fn a_refused_poll_is_explained_once_rather_than_drawn_as_an_empty_sky() {
    let mut app = test_app();
    let mut snapshot = busy_snapshot();
    snapshot.tracks = None;
    snapshot.detections = None;
    snapshot.denied = Some("log in to continue".to_string());
    snapshot.slow.auth = Some(AuthState {
        auth_enabled: true,
        authenticated: false,
        ..AuthState::default()
    });
    app.classg.snapshot = snapshot;

    let rows = render(&mut app, 140, 44);
    assert!(contains(&rows, "log in to continue"), "{}", rows.join("\n"));
    assert!(contains(&rows, "no token"));
    assert!(contains(&rows, ".agent-state"), "and how to fix it");
    assert!(contains(&rows, "tracks unavailable"));
}

#[test]
fn a_logged_in_poller_names_the_account_it_is_using() {
    let mut app = test_app();
    let mut snapshot = busy_snapshot();
    snapshot.slow.auth = Some(AuthState {
        auth_enabled: true,
        authenticated: true,
        user: Some(AuthUser {
            username: "lawrence".to_string(),
            role: "viewer".to_string(),
        }),
        ..AuthState::default()
    });
    app.classg.snapshot = snapshot;
    let rows = render(&mut app, 140, 44);
    assert!(contains(&rows, "lawrence"), "{}", rows.join("\n"));
    assert!(contains(&rows, "viewer"));
}

#[test]
fn a_unit_with_auth_switched_off_spends_no_row_saying_so() {
    let mut app = test_app();
    let mut snapshot = busy_snapshot();
    snapshot.slow.auth = Some(AuthState::default());
    app.classg.snapshot = snapshot;
    let rows = render(&mut app, 140, 44);
    assert!(!contains(&rows, "session"), "{}", rows.join("\n"));
}

#[test]
fn a_nearly_full_store_is_amber_before_it_stops_recording() {
    let mut app = test_app();
    let mut snapshot = busy_snapshot();
    if let Some(system) = snapshot.slow.system.as_mut() {
        system.host.disk_free_bytes = Some(1_000_000_000);
        system.host.disk_total_bytes = Some(31_000_000_000);
    }
    app.classg.snapshot = snapshot;

    let buffer = screen(&mut app, 140, 44);

    let mut found = false;
    for y in 0..44u16 {
        let row: Vec<String> = (0..140u16)
            .map(|x| buffer[(x, y)].symbol().to_string())
            .collect();
        let flat: String = row.concat();
        if flat.contains("free of") {
            for x in 0..140u16 {
                if buffer[(x, y)].symbol() == "9" && buffer[(x, y)].fg == WARN {
                    found = true;
                }
            }
        }
    }
    assert!(found, "a store under a tenth free must not be dim");
}

#[test]
fn the_pane_survives_a_disk_the_api_could_not_read() {
    let mut app = test_app();
    let mut snapshot = busy_snapshot();
    if let Some(system) = snapshot.slow.system.as_mut() {
        system.host.disk_free_bytes = None;
        system.host.disk_total_bytes = None;
    }
    app.classg.snapshot = snapshot;
    let rows = render(&mut app, 140, 44);
    assert!(contains(&rows, "disk unreadable"), "{}", rows.join("\n"));
    assert!(!contains(&rows, "0 free of 0"));
}

#[test]
fn the_narrow_pane_drops_the_sensor_column_rather_than_overflowing() {
    let mut app = test_app();
    app.classg.snapshot = busy_snapshot();
    app.focus = Pane::Classg;

    let wide = render(&mut app, 70, 40);
    assert!(contains(&wide, "SENSOR"), "{}", wide.join("\n"));

    let rows = render(&mut app, 100, 40);
    let header = rows
        .iter()
        .find(|row| row.contains("CLASS") && row.contains("TUNE"));
    assert!(header.is_some(), "{}", rows.join("\n"));
}

#[test]
fn no_classg_row_is_ever_sliced_by_the_pane_edge() {
    let mut app = test_app();
    app.classg.snapshot = busy_snapshot();
    for width in [100u16, 120, 140, 200] {
        let rows = render(&mut app, width, 44);
        for row in &rows {
            let trimmed = row.trim_end();
            assert!(
                !trimmed.is_empty(),
                "row vanished at width {width}: {}",
                rows.join("\n")
            );
        }
    }
}

#[test]
fn one_aeroplane_overhead_does_not_fill_the_whole_detection_list() {
    let mut app = test_app();
    let mut snapshot = busy_snapshot();
    let mut detections: Vec<Detection> = (0..16)
        .map(|_| Detection {
            sensor_id: "sdr-0".to_string(),
            sensor_kind: "sdr".to_string(),
            detection_class: "D".to_string(),
            rf: Some(Rf {
                freq_hz: Some(1_090_000_000),
                ..Rf::default()
            }),
            adsb: Some(Adsb {
                icao: "a9d770".to_string(),
                callsign: None,
            }),
            ..Detection::default()
        })
        .collect();
    detections.push(Detection {
        sensor_id: "wifi-1".to_string(),
        sensor_kind: "wifi".to_string(),
        detection_class: "A".to_string(),
        rf: Some(Rf {
            channel: Some(6),
            rssi_dbm: Some(-52_000_000),
            ..Rf::default()
        }),
        identity: Some(Identity {
            model_hint: Some("Mavic 3".to_string()),
            ..Identity::default()
        }),
        ..Detection::default()
    });
    snapshot.detections = Some(DetectionPage {
        detections,
        total: 15370,
    });
    app.classg.snapshot = snapshot;

    let rows = render(&mut app, 140, 44);
    assert!(contains(&rows, "a9d770 x16"), "{}", rows.join("\n"));
    assert!(
        contains(&rows, "Mavic 3"),
        "the folded repeats must leave room for the row that matters"
    );
    assert!(contains(&rows, "15370 total"));
}

#[test]
fn anonymous_repeats_are_left_alone() {
    let mut app = test_app();
    let mut snapshot = busy_snapshot();
    snapshot.detections = Some(DetectionPage {
        detections: (0..3)
            .map(|_| Detection {
                sensor_id: "sdr-0".to_string(),
                sensor_kind: "sdr".to_string(),
                detection_class: "E".to_string(),
                rf: Some(Rf {
                    freq_hz: Some(915_000_000),
                    rssi_dbm: Some(-71_000_000),
                    ..Rf::default()
                }),
                ..Detection::default()
            })
            .collect(),
        total: 3,
    });
    app.classg.snapshot = snapshot;

    let rows = render(&mut app, 140, 44);
    assert!(!contains(&rows, "x3"), "{}", rows.join("\n"));
    let bursts = rows
        .iter()
        .filter(|row| row.contains("Control link"))
        .count();
    assert_eq!(bursts, 3, "all three must still be listed");
}

#[test]
fn the_store_detail_never_runs_into_the_disk_figure() {
    let mut app = test_app();
    let mut snapshot = busy_snapshot();
    if let Some(system) = snapshot.slow.system.as_mut() {
        system.runtime.containerised = true;
        system.runtime.turso_sync_configured = true;
    }
    app.classg.snapshot = snapshot;

    let rows = render(&mut app, 140, 44);
    assert!(contains(&rows, "sync  "), "{}", rows.join("\n"));
    assert!(!contains(&rows, "sync11"), "no space before the figure");
    assert!(!contains(&rows, "sync8"), "no space before the figure");
}

#[test]
fn a_long_callsign_loses_characters_before_it_loses_its_count() {
    let mut app = test_app();
    let mut snapshot = busy_snapshot();
    snapshot.detections = Some(DetectionPage {
        detections: (0..16)
            .map(|_| Detection {
                sensor_id: "sdr-0".to_string(),
                sensor_kind: "sdr".to_string(),
                detection_class: "D".to_string(),
                adsb: Some(Adsb {
                    icao: "a9d770".to_string(),
                    callsign: Some("KLM1234X".to_string()),
                }),
                ..Detection::default()
            })
            .collect(),
        total: 16,
    });
    app.classg.snapshot = snapshot;

    let rows = render(&mut app, 100, 40);
    assert!(
        contains(&rows, "x16"),
        "{}",
        rows.join(
            "
"
        )
    );
    assert!(!contains(&rows, "x1 "), "the count must not be truncated");
}

#[test]
fn the_process_table_says_which_column_it_is_sorted_by() {
    let mut app = test_app();
    with_load(&mut app);
    app.focus = Pane::System;

    let accent_of = |app: &mut App, needle: &str| -> Option<Ink> {
        let buffer = screen(app, 100, 24);
        let needle: Vec<char> = needle.chars().collect();
        for y in 0..24u16 {
            let row: Vec<String> = (0..100u16)
                .map(|x| buffer[(x, y)].symbol().to_string())
                .collect();
            if !row.concat().contains("COMMAND") {
                continue;
            }
            for x in 0..row.len().saturating_sub(needle.len()) {
                if needle
                    .iter()
                    .enumerate()
                    .all(|(i, c)| row[x + i] == c.to_string())
                {
                    return buffer[(x as u16, y)].fg.into();
                }
            }
        }
        None
    };

    app.system.sort = SortBy::Cpu;
    assert_eq!(accent_of(&mut app, "CPU%"), Some(ink(app.accent)));
    assert_eq!(accent_of(&mut app, "MEM"), Some(DIM));

    app.system.sort = SortBy::Memory;
    assert_eq!(accent_of(&mut app, "MEM"), Some(ink(app.accent)));
    assert_eq!(accent_of(&mut app, "CPU%"), Some(DIM));
}

#[test]
fn the_footer_offers_the_sort_you_are_not_already_using() {
    let mut app = test_app();
    app.system.sort = SortBy::Cpu;
    assert!(contains(&render(&mut app, 140, 44), "sort by mem"));
    app.system.sort = SortBy::Memory;
    assert!(contains(&render(&mut app, 140, 44), "sort by cpu%"));
}

#[test]
fn the_classg_pane_survives_a_radios_pane_that_wants_the_whole_column() {
    let mut app = test_app();
    with_load(&mut app);
    app.radios.ifaces = (0..24)
        .map(|i| Iface {
            name: format!("wlan{i}"),
            state: "up".into(),
            rx: bps(0),
            tx: bps(0),
            rx_total: 0,
            tx_total: 0,
            mode: Some(WirelessMode::Monitor),
            channel: Some(6),
            driver: Some("mt7921u".into()),
        })
        .collect();
    app.radios.usb = (0..8)
        .map(|i| UsbRadio {
            id: format!("0e8d:796{i}"),
            description: "MediaTek Inc. Wireless_Device".into(),
        })
        .collect();

    assert!(
        app.radios.content_rows() > 30,
        "the fixture is not extreme enough"
    );

    for (width, height) in [(120u16, 10u16), (120, 16), (120, 24), (120, 44)] {
        let rows = render(&mut app, width, height);
        assert!(
            rows.iter().any(|row| row.contains("ClassG")),
            "the ClassG pane vanished at {width}x{height}:
{}",
            rows.join(
                "
"
            )
        );
    }
}

fn with_filesystems(app: &mut App, extra: usize) {
    let fs = |mount: &str, used: u64, avail: u64, total: u64| Filesystem {
        source: format!("/dev/{mount}"),
        mount: mount.into(),
        usage: DiskUsage {
            used_kb: used,
            avail_kb: avail,
            total_kb: total,
        },
    };
    app.health.filesystems = vec![
        fs("/", 23_800_000, 92_600_000, 122_600_000),
        fs("/boot/firmware", 70_000, 451_000, 521_000),
        fs("/media/captures", 512, 244_180_000, 244_180_000),
    ];
    for n in 0..extra {
        app.health
            .filesystems
            .push(fs(&format!("/spare{n}"), 1, 99, 100));
    }
}

#[test]
fn a_wide_pane_puts_the_disks_beside_the_memory_rather_than_under_them() {
    let mut app = test_app();
    with_load(&mut app);
    with_filesystems(&mut app, 0);
    let rows = render(&mut app, 200, 24);

    let mem = rows
        .iter()
        .find(|r| r.contains("mem "))
        .expect("a memory row");
    assert!(
        mem.contains("disks"),
        "the heading shares the memory row: {mem}"
    );

    let joined = rows.join(
        "
",
    );
    assert!(joined.contains("firmware"), "{joined}");
    assert!(joined.contains("captures"), "{joined}");
    assert!(joined.contains("440M free of 509M"), "{joined}");
    assert!(joined.contains("88.3G free of 116.9G"), "{joined}");
}

#[test]
fn a_narrow_pane_drops_the_disks_rather_than_truncating_them() {
    let mut app = test_app();
    with_load(&mut app);
    with_filesystems(&mut app, 0);
    let rows = render(&mut app, 90, 24);
    let joined = rows.join(
        "
",
    );

    assert!(!joined.contains("firmware"), "{joined}");
    assert!(rows.iter().any(|r| r.contains("mem ")), "{joined}");
}

#[test]
fn more_filesystems_than_fit_are_counted_rather_than_dropped_silently() {
    let mut app = test_app();
    with_load(&mut app);
    with_filesystems(&mut app, 3);
    assert!(render(&mut app, 200, 24)
        .join(
            "
"
        )
        .contains("+3 more"));
}

#[test]
fn the_second_column_is_placed_by_characters_not_by_bytes() {
    let mut app = test_app();
    with_load(&mut app);
    with_filesystems(&mut app, 0);
    for width in [170u16, 200, 240] {
        let rows = render(&mut app, width, 24);
        assert!(
            rows.iter().any(|r| r.contains("disks")),
            "the disks column fell off the pane at {width}"
        );
    }
    for width in [80u16, 104, 140, 170, 200, 240] {
        for row in render(&mut app, width, 24) {
            assert!(
                row.chars().count() <= width as usize,
                "a row overran {width}: {row}"
            );
        }
    }
}

#[test]
fn the_process_table_says_how_much_of_it_is_below_the_fold() {
    let mut app = test_app();
    with_load(&mut app);
    app.system.total_procs = 374;
    assert!(contains(&render(&mut app, 200, 20), "/374"));

    app.system.total_procs = app.system.procs.len();
    assert!(!contains(&render(&mut app, 200, 20), "/374"));
}

#[test]
fn an_active_filter_is_never_invisible() {
    let mut app = test_app();
    with_load(&mut app);
    assert!(contains(&render(&mut app, 200, 20), "COMMAND LINE"));

    app.system.filter = "dump".to_string();
    let rows = render(&mut app, 200, 20);
    assert!(contains(&rows, "filter: dump"), "{}", rows.join("\n"));
    assert!(!contains(&rows, "COMMAND LINE"));
}

#[test]
fn a_filter_being_typed_shows_a_caret_in_either_glyph_set() {
    let mut app = test_app();
    with_load(&mut app);
    app.system.filter = "ngin".to_string();
    app.system.filter_editing = true;
    assert!(contains(&render(&mut app, 200, 20), "filter: ngin\u{258f}"));

    let mut ascii = with_config(Config {
        api: "http://127.0.0.1:1".to_string(),
        glyphs: "ascii".to_string(),
        ..Config::default()
    });
    with_load(&mut ascii);
    ascii.system.filter = "ngin".to_string();
    ascii.system.filter_editing = true;
    assert!(contains(&render(&mut ascii, 200, 20), "filter: ngin_"));
}

#[test]
fn threads_and_user_appear_when_there_is_room_and_go_first_when_there_is_not() {
    let mut app = test_app();
    with_load(&mut app);
    let wide = render(&mut app, 200, 20);
    assert!(contains(&wide, "THR"), "{}", wide.join("\n"));
    assert!(contains(&wide, "USER"));
    assert!(
        contains(&wide, "dump1090"),
        "the account, not just the comm"
    );

    let narrow = render(&mut app, 150, 20);
    assert!(!contains(&narrow, "USER"));
    assert!(contains(&narrow, "COMMAND LINE"));
}

#[test]
fn a_single_threaded_process_leaves_its_thread_column_blank() {
    let mut app = test_app();
    with_load(&mut app);
    if let Some(row) = app.system.procs.get_mut(0) {
        row.threads = 1;
    }
    let line = render(&mut app, 200, 20)
        .into_iter()
        .find(|r| r.contains("npm ci"))
        .expect("the row");
    assert!(!line.contains(" 1 "), "{line}");
}

fn with_interfaces(app: &mut App) {
    let ifc = |name: &str, rx: u64, tx: u64, rt: u64, tt: u64| Iface {
        name: name.into(),
        state: "up".into(),
        rx: bps(rx),
        tx: bps(tx),
        rx_total: rt,
        tx_total: tt,
        mode: Some(WirelessMode::Monitor),
        channel: Some(6),
        driver: Some("mt7921u".into()),
    };
    app.radios.ifaces = vec![
        ifc("wlan-tplink", 0, 0, 0, 0),
        ifc("eth0", 7700, 8000, 677_000_000, 693_000_000),
        ifc("wlan-alfa", 3900, 0, 12_400_000, 0),
    ];
    app.radios.throughput = (0..60).map(|i| (i % 20) * 900).collect();
}

#[test]
fn the_net_column_shows_a_total_as_well_as_a_rate() {
    let mut app = test_app();
    with_load(&mut app);
    with_filesystems(&mut app, 0);
    with_interfaces(&mut app);
    let rows = render(&mut app, 210, 22);
    let joined = rows.join("\n");

    assert!(contains(&rows, "net"), "{joined}");
    let eth = rows.iter().find(|r| r.contains("eth0")).expect("eth0");
    assert!(eth.contains("7.5K"), "the rate: {eth}");
    assert!(eth.contains("646M"), "the total since start: {eth}");

    let quiet = rows
        .iter()
        .find(|r| r.contains("wlan-tpli"))
        .expect("the quiet radio");
    assert!(quiet.contains("0B"), "{quiet}");
}

#[test]
fn the_net_column_puts_the_busiest_interface_first() {
    let mut app = test_app();
    with_load(&mut app);
    with_filesystems(&mut app, 0);
    with_interfaces(&mut app);
    let rows = render(&mut app, 210, 22);
    let position = |needle: &str| {
        rows.iter()
            .position(|r| r.contains(needle))
            .unwrap_or(usize::MAX)
    };
    assert!(position("eth0") < position("wlan-alfa"), "busiest first");
    assert!(position("wlan-alfa") < position("wlan-tpli"));
}

#[test]
fn the_band_drops_columns_from_the_right_as_the_pane_narrows() {
    let mut app = test_app();
    with_load(&mut app);
    with_filesystems(&mut app, 0);
    with_interfaces(&mut app);

    let wide = render(&mut app, 210, 22);
    assert!(contains(&wide, "disks") && contains(&wide, "eth0"));

    let middling = render(&mut app, 170, 22);
    assert!(contains(&middling, "disks"), "disks outlive net");

    let narrow = render(&mut app, 90, 22);
    assert!(!contains(&narrow, "disks"));
    assert!(contains(&narrow, "mem "), "memory always survives");
}

#[test]
fn no_column_of_the_band_ever_overruns_the_pane() {
    let mut app = test_app();
    with_load(&mut app);
    with_filesystems(&mut app, 3);
    with_interfaces(&mut app);
    for width in [80u16, 104, 130, 170, 200, 210, 260] {
        for row in render(&mut app, width, 22) {
            assert!(
                row.chars().count() <= width as usize,
                "a row overran {width}: {row}"
            );
        }
    }
}

fn with_many_procs(app: &mut App) {
    app.system.procs = (0..40)
        .map(|i| ProcRow {
            pid: 1000 + i,
            name: format!("proc{i}"),
            state: 'S',
            cpu: Ratio::new((40 - i) as u64, 100),
            rss_kb: 1000,
            threads: 1,
            user: "root".into(),
            cmdline: format!("/usr/bin/proc{i} --run"),
        })
        .collect();
    app.system.total_procs = 374;
}

#[test]
fn the_process_table_scrolls_and_says_where_in_the_list_it_is() {
    let mut app = test_app();
    with_load(&mut app);
    with_many_procs(&mut app);

    let top = render(&mut app, 200, 24);
    assert!(contains(&top, "proc0 "), "{}", top.join("\n"));

    app.system.scroll = 12;
    let scrolled = render(&mut app, 200, 24);
    assert!(!contains(&scrolled, "proc0 "), "the top rows scrolled away");
    assert!(contains(&scrolled, "proc12"));
    assert!(contains(&scrolled, "13-"), "{}", scrolled.join("\n"));
    assert!(contains(&scrolled, "/374"));
}

#[test]
fn scrolling_past_the_end_parks_the_last_row_rather_than_emptying_the_table() {
    let mut app = test_app();
    with_load(&mut app);
    with_many_procs(&mut app);
    app.system.scroll = 9_999;
    let rows = render(&mut app, 200, 24);
    assert!(contains(&rows, "proc39"), "the last row is still drawn");
}

#[test]
fn a_table_with_nothing_below_the_fold_draws_no_scrollbar() {
    let mut app = test_app();
    with_load(&mut app);
    let rows = render(&mut app, 200, 40);
    let bars = rows.iter().filter(|r| r.contains('\u{2588}')).count();
    with_many_procs(&mut app);
    let more = render(&mut app, 200, 40);
    assert!(
        more.iter().filter(|r| r.contains('\u{2588}')).count() > bars,
        "a scrollbar appears once there is something to scroll to"
    );
}

#[test]
fn every_pane_title_carries_the_number_that_selects_it() {
    let mut app = test_app();
    with_load(&mut app);
    let rows = render(&mut app, 200, 40);
    for (n, name) in [
        (1, "System"),
        (2, "Pi health"),
        (3, "Radios"),
        (4, "ClassG"),
    ] {
        assert!(
            rows.iter().any(|r| r.contains(&format!("{n} {name}"))),
            "pane {n} is not numbered: {}",
            rows.join("\n")
        );
    }
}

#[test]
fn the_memory_band_reports_what_is_available_not_only_what_is_used() {
    let mut app = test_app();
    with_load(&mut app);
    let rows = render(&mut app, 200, 24);
    let line = rows
        .iter()
        .find(|r| r.contains("  avail  "))
        .expect("an avail row");
    assert!(line.contains("63%"), "{line}");
    assert!(line.contains("2.3G") || line.contains("2.4G"), "{line}");
}

#[test]
fn only_the_focused_pane_keeps_the_accent() {
    let mut app = test_app();
    with_load(&mut app);

    let accent_of_title = |app: &mut App, needle: &str| -> Option<Ink> {
        let buffer = screen(app, 200, 40);
        for y in 0..40u16 {
            let row: String = (0..200u16)
                .map(|x| buffer[(x, y)].symbol().to_string())
                .collect();
            if let Some(byte) = row.find(needle) {
                let column = row[..byte].chars().count() as u16;
                return buffer[(column, y)].fg.into();
            }
        }
        None
    };

    app.focus = Pane::System;
    assert_eq!(accent_of_title(&mut app, "1 System"), Some(ink(app.accent)));
    assert_eq!(accent_of_title(&mut app, "3 Radios"), Some(DIM));

    app.focus = Pane::Radios;
    assert_eq!(accent_of_title(&mut app, "3 Radios"), Some(ink(app.accent)));
    assert_eq!(accent_of_title(&mut app, "1 System"), Some(DIM));
}

#[test]
fn the_help_card_fits_every_line_it_carries() {
    let mut app = test_app();
    app.mode = Mode::Help;
    let rows = render(&mut app, 100, 30);
    for needle in [
        "q / Esc / Ctrl-C",
        "s  ",
        "f  ",
        "up/down/pgup/pgdn",
        "tab / 1-4",
        "Ctrl-L",
        "credential",
    ] {
        assert!(
            contains(&rows, needle),
            "the help card lost {needle:?}:\n{}",
            rows.join("\n")
        );
    }
    assert!(!rows.iter().any(|r| r.trim_start().starts_with("top)")));
}

fn folding_page(distinct: usize, each: usize) -> DetectionPage {
    let mut detections = Vec::new();
    for contact in 0..distinct {
        for _ in 0..each {
            detections.push(Detection {
                sensor_id: "sdr-0".to_string(),
                sensor_kind: "sdr".to_string(),
                detection_class: "D".to_string(),
                adsb: Some(Adsb {
                    icao: format!("a9d7{contact:02}"),
                    callsign: None,
                }),
                ..Detection::default()
            });
        }
    }
    let total = detections.len() as u64;
    DetectionPage { detections, total }
}

#[test]
fn a_repeating_sky_asks_for_enough_detections_to_fill_the_pane() {
    let page = folding_page(3, 13);
    let asked = detection_request(Some(&page), 21);
    assert!(
        asked > 40,
        "a 13x fold needs far more than the old ceiling, got {asked}"
    );
    assert!(asked <= 200, "and never more than the API cap, got {asked}");
}

#[test]
fn a_varied_sky_asks_for_no_more_than_it_can_draw() {
    let page = folding_page(30, 1);
    assert_eq!(detection_request(Some(&page), 21), 21);
}

#[test]
fn the_detection_request_settles_instead_of_running_away() {
    let mut asked: usize = 21;
    for _ in 0..8 {
        let page = folding_page(asked.div_ceil(4), 4);
        let next = detection_request(Some(&page), 21);
        assert!(next <= 200);
        asked = next;
    }
    let page = folding_page(asked.div_ceil(4), 4);
    assert_eq!(detection_request(Some(&page), 21), asked);
}

#[test]
fn an_empty_or_missing_page_asks_only_for_the_room() {
    assert_eq!(detection_request(None, 12), 12);
    assert_eq!(
        detection_request(
            Some(&DetectionPage {
                detections: Vec::new(),
                total: 0
            }),
            12
        ),
        12
    );
    assert_eq!(detection_request(None, 0), 1);
}

fn healthy_snapshot() -> Snapshot {
    let mut snapshot = busy_snapshot();
    snapshot.monitoring = Some(MonitoringState {
        enabled: true,
        ..MonitoringState::default()
    });
    if let Some(api) = snapshot.health.as_mut() {
        api.status = "ok".to_string();
        api.sensors.retain(|s| s.healthy || s.optional);
    }
    snapshot
}

#[test]
fn the_header_states_the_verdict_so_a_glance_is_enough() {
    let mut app = test_app();
    with_load(&mut app);
    app.classg.snapshot = healthy_snapshot();
    assert!(contains(&render(&mut app, 150, 12), " ok"));

    let mut paused = healthy_snapshot();
    paused.monitoring = Some(MonitoringState {
        enabled: false,
        reason: Some("known local flight".into()),
        discarded: 1204,
        ..MonitoringState::default()
    });
    app.classg.snapshot = paused;
    let rows = render(&mut app, 150, 12);
    assert!(contains(&rows, "degraded"), "{}", rows[0]);
    assert!(contains(&rows, "recording is paused"), "{}", rows[0]);

    app.classg.snapshot = Snapshot {
        error: Some("Connection refused".into()),
        ..Snapshot::default()
    };
    assert!(contains(&render(&mut app, 150, 12), "down"));
}

#[test]
fn the_header_verdict_cannot_disagree_with_the_one_cron_gets() {
    let mut app = test_app();
    with_load(&mut app);
    for snapshot in [
        healthy_snapshot(),
        busy_snapshot(),
        Snapshot {
            error: Some("Connection refused".into()),
            ..Snapshot::default()
        },
    ] {
        app.classg.snapshot = snapshot;
        let findings = judge(&app.health, &app.classg.snapshot);
        let expected = verdict_of(&findings);
        assert!(
            contains(&render(&mut app, 150, 12), expected.label()),
            "the header does not say {:?}",
            expected.label()
        );
    }
}

#[test]
fn a_narrow_header_drops_the_detail_then_the_chip_but_never_the_clock() {
    let mut app = test_app();
    with_load(&mut app);
    let mut paused = healthy_snapshot();
    paused.monitoring = Some(MonitoringState {
        enabled: false,
        reason: Some("known local flight".into()),
        discarded: 1204,
        ..MonitoringState::default()
    });
    app.classg.snapshot = paused;

    let wide = render(&mut app, 150, 12);
    assert!(contains(&wide, "recording is paused"));

    let middling = render(&mut app, 74, 12);
    assert!(contains(&middling, "degraded"), "{}", middling[0]);
    assert!(
        !contains(&middling, "recording is paused"),
        "{}",
        middling[0]
    );

    for width in [40u16, 60, 74, 100, 150, 200] {
        let rows = render(&mut app, width, 12);
        assert!(
            rows[0].chars().count() <= width as usize,
            "header overran {width}: {}",
            rows[0]
        );
        assert!(
            rows[0].contains(':'),
            "the clock went at {width}: {}",
            rows[0]
        );
        assert!(
            !rows[0].contains("deg") || rows[0].contains("degraded"),
            "a sliced verdict at {width}: {}",
            rows[0]
        );
        assert!(
            !rows[0].contains("dow") || rows[0].contains("down"),
            "a sliced verdict at {width}: {}",
            rows[0]
        );
    }
    for width in 40u16..=90 {
        let row = &render(&mut app, width, 12)[0];
        assert!(
            !row.contains("deg") || row.contains("degraded"),
            "a sliced verdict at {width}: {row}"
        );
    }
}

#[test]
fn a_wide_disk_figure_does_not_push_the_net_column_off_the_pane() {
    let mut app = test_app();
    with_load(&mut app);
    with_filesystems(&mut app, 0);
    with_interfaces(&mut app);

    let rows = render(&mut app, 200, 24);
    assert!(contains(&rows, "disks"), "{}", rows.join("\n"));
    assert!(contains(&rows, "^7.8K"), "the net column was evicted");
    assert!(contains(&rows, "232.9G free"), "{}", rows.join("\n"));
    assert!(
        !contains(&rows, "232.9G free of"),
        "the column did not shorten, so it must have overrun:\n{}",
        rows.join("\n")
    );
}

#[test]
fn the_disk_total_comes_back_once_the_column_can_hold_it() {
    let mut app = test_app();
    with_load(&mut app);
    with_filesystems(&mut app, 0);
    with_interfaces(&mut app);
    let rows = render(&mut app, 250, 24);
    assert!(
        contains(&rows, "88.3G free of 116.9G"),
        "{}",
        rows.join("\n")
    );
    assert!(contains(&rows, "^7.8K"), "and the net column still fits");
}

#[test]
fn a_disk_figure_is_never_cut_off_mid_number() {
    let mut app = test_app();
    with_load(&mut app);
    with_filesystems(&mut app, 0);
    with_interfaces(&mut app);
    for width in 104u16..=260 {
        for row in render(&mut app, width, 24) {
            for figure in ["232.9G", "88.3G", "440M"] {
                let stem = &figure[..figure.len() - 1];
                if let Some(at) = row.find(stem) {
                    let tail: String = row[at..].chars().take(figure.chars().count()).collect();
                    assert!(
                        tail == figure || !row[at..].starts_with(stem),
                        "a sliced size at {width}: {row}"
                    );
                }
            }
        }
    }
}

fn fully_loaded(app: &mut App) {
    with_load(app);
    with_filesystems(app, 1);
    with_interfaces(app);
    app.classg.snapshot = busy_snapshot();
    app.system.total_procs = 203;
    app.system.procs = (0..60)
        .map(|i| ProcRow {
            pid: 1000 + i,
            name: format!("proc{i}"),
            state: 'S',
            cpu: Ratio::new((60 - i) as u64, 200),
            rss_kb: 4000 * (60 - i) as u64,
            threads: i as u64 % 20,
            user: "admin".into(),
            cmdline: format!("/usr/bin/proc{i} --serve"),
        })
        .collect();
}

fn frame_invariants(rows: &[String], width: u16, height: u16) {
    for row in rows {
        assert!(
            row.chars().count() <= width as usize,
            "a row overran {width}x{height}: {row}"
        );
        assert!(
            !row.contains('\u{fffd}'),
            "a replacement character at {width}x{height}: {row}"
        );
    }
    for title in ["1 System", "2 Pi health", "3 Radios", "4 ClassG"] {
        assert!(
            rows.iter().any(|r| r.contains(title)),
            "{title} vanished at {width}x{height}"
        );
    }
}

#[test]
fn every_width_the_wide_layout_covers_draws_a_whole_dashboard() {
    let mut app = test_app();
    fully_loaded(&mut app);
    for width in 100u16..=260 {
        frame_invariants(&render(&mut app, width, 44), width, 44);
    }
}

#[test]
fn every_height_draws_a_whole_dashboard_too() {
    let mut app = test_app();
    fully_loaded(&mut app);
    for height in 12u16..=60 {
        frame_invariants(&render(&mut app, 200, height), 200, height);
    }
}

#[test]
fn the_framebuffer_console_gets_a_whole_dashboard_at_every_width_too() {
    let mut app = with_config(Config {
        api: "http://127.0.0.1:1".to_string(),
        glyphs: "ascii".to_string(),
        ..Config::default()
    });
    fully_loaded(&mut app);
    for width in (100u16..=260).step_by(3) {
        let rows = render(&mut app, width, 44);
        frame_invariants(&rows, width, 44);
        for row in &rows {
            for ch in row.chars() {
                assert!(
                    !matches!(ch,
                        '\u{2500}'..='\u{257F}'
                        | '\u{2580}'..='\u{259F}'
                        | '\u{25A0}'..='\u{25FF}'
                        | '\u{2190}'..='\u{21FF}'
                        | '\u{2800}'..='\u{28FF}'
                    ),
                    "U+{:04X} survived ascii mode at {width}: {row}",
                    ch as u32
                );
            }
        }
    }
}

fn sensor_row(rows: &[String], id: &str) -> Option<String> {
    rows.iter().find(|r| r.contains(id)).cloned()
}

#[test]
fn a_sensor_going_quiet_looks_different_from_one_that_is_busy() {
    let mut app = test_app();
    with_load(&mut app);
    app.classg.snapshot = busy_snapshot();

    trace(&mut app, (0..30).map(|i: u64| 430u64.saturating_sub(i * 14)).collect());
    let fading = sensor_row(&render(&mut app, 200, 30), "wifi-1").expect("a sensor row");

    trace(&mut app, vec![300; 30]);
    let steady = sensor_row(&render(&mut app, 200, 30), "wifi-1").expect("a sensor row");

    assert_ne!(
        fading, steady,
        "a radio going quiet draws the same as one holding steady"
    );
    assert!(contains(&render(&mut app, 200, 30), "15 MIN"));
}

#[test]
fn a_sensor_that_has_never_heard_anything_draws_a_floor_not_a_panic() {
    let mut app = test_app();
    with_load(&mut app);
    app.classg.snapshot = busy_snapshot();
    trace(&mut app, vec![0; 30]);
    let row = sensor_row(&render(&mut app, 200, 30), "wifi-1").expect("a sensor row");
    assert!(!row.contains("NaN"), "{row}");
}

#[test]
fn the_trace_is_dropped_on_a_pane_too_narrow_to_give_it_a_shape() {
    let mut app = test_app();
    with_load(&mut app);
    app.classg.snapshot = busy_snapshot();
    trace(&mut app, vec![100; 30]);
    app.focus = Pane::Classg;
    let rows = render(&mut app, 44, 30);
    let row = sensor_row(&rows, "wifi-1").expect("the sensor row survives");
    assert!(
        !row.chars().any(|c| ('\u{2800}'..='\u{28FF}').contains(&c)),
        "a trace was drawn into a pane with no room for it: {row}"
    );
}

#[test]
fn sensor_history_is_sampled_on_a_clock_not_on_every_poll() {
    let mut app = test_app();
    app.classg.snapshot = busy_snapshot();
    let start = 5_000_000_000;

    app.classg.record_sensor_rates(start);
    let after_first = counted(&app);
    assert_eq!(after_first, 1);

    app.classg
        .record_sensor_rates(start + 5 * 1_000_000_000);
    assert_eq!(counted(&app), 1, "too soon");

    app.classg
        .record_sensor_rates(start + 31 * 1_000_000_000);
    assert_eq!(counted(&app), 2);
}

#[test]
fn a_sensor_that_goes_away_takes_its_trace_with_it() {
    let mut app = test_app();
    app.classg.snapshot = busy_snapshot();
    let start = 5_000_000_000;
    app.classg.record_sensor_rates(start);
    assert!(counted(&app) > 0);

    if let Some(health) = app.classg.snapshot.health.as_mut() {
        health.sensors.clear();
    }
    app.classg
        .record_sensor_rates(start + 31 * 1_000_000_000);
    assert!(
        app.classg.traces.is_empty(),
        "the trace outlived its sensor"
    );
}

#[test]
fn a_sensor_trace_cannot_grow_without_bound() {
    let mut app = test_app();
    app.classg.snapshot = busy_snapshot();
    let start = 5_000_000_000;
    for tick in 0..200u64 {
        app.classg
            .record_sensor_rates(start + tick * 31 * 1_000_000_000);
    }
    assert!(
        counted(&app) <= 30,
        "got {}",
        counted(&app)
    );
}

#[test]
fn a_detections_endpoint_that_broke_says_so_rather_than_vanishing() {
    let mut app = test_app();
    with_load(&mut app);
    let mut snapshot = busy_snapshot();
    snapshot.detections = None;
    snapshot.tracks = None;
    app.classg.snapshot = snapshot;

    let rows = render(&mut app, 200, 44);
    assert!(contains(&rows, "tracks unavailable"), "{}", rows.join("\n"));
    assert!(
        contains(&rows, "detections unavailable"),
        "the section vanished:\n{}",
        rows.join("\n")
    );
}

#[test]
fn the_classg_pane_measures_the_gutter_it_actually_draws() {
    let mut app = test_app();
    with_load(&mut app);
    app.classg.snapshot = busy_snapshot();
    app.focus = Pane::Classg;

    for width in 40u16..=99 {
        for row in render(&mut app, width, 30) {
            if row.contains("free of") {
                assert!(
                    row.contains("28.9G"),
                    "a size was clipped mid-number at {width}: {row}"
                );
            }
        }
    }
}

#[test]
fn the_verdict_chip_budgets_the_address_as_it_is_drawn() {
    let mut app = test_app();
    with_load(&mut app);
    app.classg.snapshot = healthy_snapshot();
    app.host = "pisdr".to_string();

    for width in 44u16..=49 {
        assert!(
            contains(&render(&mut app, width, 12), "ok"),
            "the verdict was dropped at {width} despite fitting"
        );
    }
}
