//! The frame that a README opens with: a healthy unit, drawn through the terminal
//! library, as text and as a picture.

use ratatui::backend::TestBackend;
use ratatui::style::Color as Ink;
use ratatui::style::Modifier;
use ratatui::Terminal;

use pi_dash::app::App;
use pi_dash::config::Config;
use pi_dash::format::Rate;
use pi_dash::numeric::Ratio;
use pi_dash::paint::{Color, Line, Style};
use pi_dash::panes::classg::{
    Detection, DetectionPage, Evidence, FlexTime, FusionHealth, HealthResponse, Identity,
    MonitoringState, Position, Rf, SensorHealth, Slow, Snapshot, SystemBuild, SystemHost,
    SystemInfo, SystemRuntime, Trace, Track, TrackPage,
};
use pi_dash::panes::health::{DiskUsage, IoRates, Throttle};
use pi_dash::panes::radios::{Iface, UsbRadio, WirelessMode};
use pi_dash::panes::system::{LoadAvg, MemInfo, ProcRow};
use pi_dash::ui::demo::{plain_text, svg};
use pi_dash::ui::gauge::{Depth, Glyphs};
use pi_dash::ui::screen::{draw, Align, Moment, Widget};

/// Wide enough for both columns, tall enough that the last pane still has rows
/// for the detection list.
const WIDTH: u16 = 128;
const HEIGHT: u16 = 46;

const NOW: i64 = 1_786_883_696;
const NANOS: u64 = 9_000_000_000;

fn ago(secs: i64) -> FlexTime {
    FlexTime { secs: NOW - secs, nanos: 0 }
}

/// The same on a wall clock that shows half past one.
fn wall(secs: i64) -> String {
    let at = 48_600 - secs;
    format!("{:02}:{:02}:{:02}", at / 3600, at / 60 % 60, at % 60)
}

fn share(part: f64) -> Ratio {
    Ratio::new((part * 1_000_000.0).round() as u64, 1_000_000)
}

fn bps(bytes: u64) -> Rate {
    Rate { bytes, nanos: 1_000_000_000 }
}

/// A colour of the library as the terminal has it.
fn ink(color: Color) -> Ink {
    match color {
        Color::Black => Ink::Black,
        Color::Red => Ink::Red,
        Color::Green => Ink::Green,
        Color::Yellow => Ink::Yellow,
        Color::Blue => Ink::Blue,
        Color::Magenta => Ink::Magenta,
        Color::Cyan => Ink::Cyan,
        Color::Gray => Ink::Gray,
        Color::DarkGray => Ink::DarkGray,
        Color::LightRed => Ink::LightRed,
        Color::LightGreen => Ink::LightGreen,
        Color::LightYellow => Ink::LightYellow,
        Color::LightBlue => Ink::LightBlue,
        Color::LightMagenta => Ink::LightMagenta,
        Color::LightCyan => Ink::LightCyan,
        Color::White => Ink::White,
        Color::Indexed(n) => Ink::Indexed(n),
    }
}

fn styled(style: Style) -> ratatui::style::Style {
    let mut out = ratatui::style::Style::default();
    if let Some(fg) = style.fg {
        out = out.fg(ink(fg));
    }
    if let Some(bg) = style.bg {
        out = out.bg(ink(bg));
    }
    if style.bold {
        out = out.add_modifier(ratatui::style::Modifier::BOLD);
    }
    out
}

fn drawn(line: &Line) -> ratatui::text::Line<'static> {
    ratatui::text::Line::from(
        line.spans
            .iter()
            .map(|s| ratatui::text::Span::styled(s.text.clone(), styled(s.style)))
            .collect::<Vec<_>>(),
    )
}

fn borders(glyphs: Glyphs) -> ratatui::symbols::border::Set {
    match glyphs {
        Glyphs::Unicode => ratatui::symbols::border::PLAIN,
        Glyphs::Ascii => ratatui::symbols::border::Set {
            top_left: "+",
            top_right: "+",
            bottom_left: "+",
            bottom_right: "+",
            vertical_left: "|",
            vertical_right: "|",
            horizontal_top: "-",
            horizontal_bottom: "-",
        },
    }
}

fn paint(frame: &mut ratatui::Frame, widget: &Widget, glyphs: Glyphs) {
    let area = ratatui::layout::Rect::new(
        widget.area.x,
        widget.area.y,
        widget.area.width,
        widget.area.height,
    );
    if widget.clear {
        frame.render_widget(ratatui::widgets::Clear, area);
    }
    let lines: Vec<ratatui::text::Line> = widget.lines.iter().map(drawn).collect();
    let mut text = ratatui::widgets::Paragraph::new(lines).alignment(match widget.align {
        Align::Left => ratatui::layout::Alignment::Left,
        Align::Center => ratatui::layout::Alignment::Center,
        Align::Right => ratatui::layout::Alignment::Right,
    });
    if widget.wrap {
        text = text.wrap(ratatui::widgets::Wrap { trim: false });
    }
    if let Some(around) = &widget.frame {
        let mut block = ratatui::widgets::Block::default()
            .borders(ratatui::widgets::Borders::ALL)
            .border_set(borders(glyphs))
            .border_style(ratatui::style::Style::default().fg(ink(around.border)))
            .title(drawn(&around.title));
        if let Some(corner) = &around.corner {
            block = block.title_top(drawn(corner).right_aligned());
        }
        text = text.block(block);
    }
    frame.render_widget(text, area);
}


fn demo_app() -> App {
    let mut app = App::new(
        Config { api: "http://127.0.0.1:8081".to_string(), ..Config::default() },
        Some("classg-pi".to_string()),
        Depth::Cube256,
        4096,
    );

    app.system.unavailable = None;
    app.system.cpu = Some(share(0.24));
    app.system.cores =
        vec![Some(share(0.22)), Some(share(0.14)), Some(share(0.41)), Some(share(0.09))];
    app.system.mem = MemInfo {
        total_kb: 8_000_000,
        available_kb: 4_960_000,
        cached_kb: 1_990_000,
        buffers_kb: 90_000,
        swap_total_kb: 0,
        swap_free_kb: 0,
    };
    app.system.load = LoadAvg {
        one: 520_000,
        five: 310_000,
        fifteen: 200_000,
        runnable: 2,
        tasks: 214,
    };
    app.system.uptime_secs = 273_900;
    app.system.total_procs = 214;
    // A quiet box with two bursts in the window.
    app.system.cpu_history = (0..320)
        .map(|i| {
            let x = i as f64 / 16.0;
            let base = 0.16 + 0.10 * (x * 0.6).sin() + 0.05 * (x * 2.9).cos();
            let burst = if (120..176).contains(&i) {
                0.70 * (((i - 120) as f64) / 56.0 * std::f64::consts::PI).sin()
            } else if (232..252).contains(&i) {
                0.45
            } else if (280..296).contains(&i) {
                0.24
            } else {
                0.0
            };
            share((base + burst).clamp(0.03, 0.97))
        })
        .collect();
    app.system.core_history = (0..4)
        .map(|core| {
            (0..48)
                .map(|i| {
                    let x = (i as f64 + core as f64 * 7.0) / 5.0;
                    share(
                        (0.16 + 0.14 * x.sin() + 0.09 * (x * 1.7).cos() + core as f64 * 0.04)
                            .clamp(0.02, 0.95),
                    )
                })
                .collect()
        })
        .collect();
    app.system.procs = demo_procs();

    app.health.temp_milli = Some(58_400);
    app.health.volts_micro = Some(856_300);
    app.health.arm_mhz = Some(1500);
    app.health.max_mhz = Some(1800);
    app.health.throttle = Some(Throttle::decode(0));
    app.health.disk = Some(DiskUsage {
        used_kb: 22_020_096,
        total_kb: 58_720_256,
        avail_kb: 34_603_008,
    });
    app.health.io = IoRates {
        read: bps(0),
        write: bps(86_016),
    };

    app.radios.ifaces = vec![
        Iface {
            name: "wlan1".to_string(),
            state: "up".to_string(),
            rx: bps(1_258_291),
            tx: bps(0),
            rx_total: 41_000_000_000,
            tx_total: 0,
            mode: Some(WirelessMode::Monitor),
            channel: Some(6),
            driver: Some("mt7921u".to_string()),
        },
        Iface {
            name: "eth0".to_string(),
            state: "up".to_string(),
            rx: bps(4_096),
            tx: bps(2_048),
            rx_total: 900_000_000,
            tx_total: 240_000_000,
            mode: None,
            channel: None,
            driver: Some("bcmgenet".to_string()),
        },
    ];
    app.radios.usb = vec![
        UsbRadio {
            id: "0e8d:7961".to_string(),
            description: "MediaTek ALFA AWUS036AXML".to_string(),
        },
        UsbRadio {
            id: "0bda:2838".to_string(),
            description: "Realtek RTL2838 (RTL-SDR V4)".to_string(),
        },
    ];
    app.radios.throughput = (0..80)
        .map(|i| {
            let x = i as f64 / 6.0;
            (600_000.0 + 420_000.0 * x.sin().abs() + 120_000.0 * (x * 2.1).cos()) as u64
        })
        .collect();

    app.classg.traces = vec![
        Trace {
            sensor_id: "wifi-1".to_string(),
            counts: (0..60)
                .map(|i| {
                    let x = i as f64 / 7.0;
                    let level = (0.35 + 0.34 * x.sin() + 0.14 * (x * 2.3).cos()).clamp(0.05, 0.98);
                    (level * 1000.0) as u64
                })
                .collect(),
        },
        Trace {
            sensor_id: "sdr-1".to_string(),
            counts: (0..60)
                .map(|i| {
                    let x = i as f64 / 9.0;
                    let level =
                        (0.18 + 0.16 * (x * 1.3).sin() + 0.07 * (x * 0.5).cos()).clamp(0.03, 0.9);
                    (level * 1000.0) as u64
                })
                .collect(),
        },
    ];
    app.classg.polls = 312;
    app.classg.last_ok = Some(NANOS);
    app.classg.snapshot = Snapshot {
        health: Some(HealthResponse {
            status: "ok".to_string(),
            uptime_s: 271_500,
            version: "0.4.1".to_string(),
            sensors: vec![
                SensorHealth {
                    sensor_id: "wifi-1".to_string(),
                    sensor_kind: "wifi".to_string(),
                    healthy: true,
                    seconds_since_heartbeat: Some(1),
                    detections_5m: 12,
                    ..SensorHealth::default()
                },
                SensorHealth {
                    sensor_id: "sdr-1".to_string(),
                    sensor_kind: "sdr".to_string(),
                    healthy: true,
                    seconds_since_heartbeat: Some(2),
                    detections_5m: 4,
                    ..SensorHealth::default()
                },
            ],
            fusion: Some(FusionHealth {
                connected: true,
                configured: true,
                last_message: Some(ago(2)),
                reason: None,
            }),
        }),
        monitoring: Some(MonitoringState {
            enabled: true,
            since: Some(ago(271_000)),
            ..MonitoringState::default()
        }),
        tracks: Some(TrackPage {
            tracks: vec![Track {
                state: "CONFIRMED".to_string(),
                confidence: 820_000,
                first_seen: Some(ago(240)),
                last_seen: Some(ago(3)),
                detection_count: 402,
                identity: Some(Identity {
                    model_hint: Some("Mavic 3".to_string()),
                    ..Identity::default()
                }),
                evidence: vec![Evidence {
                    class: "A".to_string(),
                    count: 402,
                }],
                current: Some(Position {
                    height_agl_m: Some(120_000_000),
                    speed_mps: Some(14_000_000),
                    ..Position::default()
                }),
                rssi_dbm: Some(-58_000_000),
                ..Track::default()
            }],
            total: 1,
        }),
        detections: Some(DetectionPage {
            detections: vec![
                Detection {
                    ts: Some(ago(3)),
                    clock: Some(wall(3)),
                    sensor_id: "wifi-1".to_string(),
                    sensor_kind: "wifi".to_string(),
                    detection_class: "A".to_string(),
                    rf: Some(Rf {
                        channel: Some(149),
                        rssi_dbm: Some(-52_000_000),
                        ..Rf::default()
                    }),
                    identity: Some(Identity {
                        model_hint: Some("Mavic 3".to_string()),
                        ..Identity::default()
                    }),
                    ..Detection::default()
                },
                Detection {
                    ts: Some(ago(19)),
                    clock: Some(wall(19)),
                    sensor_id: "wifi-1".to_string(),
                    sensor_kind: "wifi".to_string(),
                    detection_class: "C".to_string(),
                    rf: Some(Rf {
                        channel: Some(6),
                        rssi_dbm: Some(-71_000_000),
                        ..Rf::default()
                    }),
                    ..Detection::default()
                },
                Detection {
                    ts: Some(ago(34)),
                    clock: Some(wall(34)),
                    sensor_id: "sdr-1".to_string(),
                    sensor_kind: "sdr".to_string(),
                    detection_class: "E".to_string(),
                    rf: Some(Rf {
                        freq_hz: Some(2_437_000_000),
                        rssi_dbm: Some(-64_000_000),
                        ..Rf::default()
                    }),
                    ..Detection::default()
                },
            ],
            total: 1_284,
        }),
        slow: Slow {
            system: Some(SystemInfo {
                build: SystemBuild {
                    version: "0.4.1".to_string(),
                    revision: Some("a1b2c3d4e5".to_string()),
                    revision_dirty: false,
                },
                runtime: SystemRuntime {
                    store: "libsql".to_string(),
                    ..SystemRuntime::default()
                },
                host: SystemHost {
                    disk_path: "/var/lib/classg".to_string(),
                    disk_total_bytes: Some(31_000_000_000),
                    disk_free_bytes: Some(12_400_000_000),
                },
            }),
            ..Slow::default()
        },
        ..Snapshot::default()
    };
    app
}

/// The columns the process table draws, in the order it draws them: pid,
/// name, state, CPU percent, RSS in kB, thread count, user, command line.
type DemoProc = (
    i32,
    &'static str,
    char,
    f64,
    u64,
    u64,
    &'static str,
    &'static str,
);

fn demo_procs() -> Vec<ProcRow> {
    let rows: &[DemoProc] = &[
        (
            1_284,
            "classg-api",
            'S',
            41.2,
            122_880,
            14,
            "classg",
            "/usr/local/bin/classg-api --config /etc/classg/api.toml",
        ),
        (
            1_290,
            "classg_wifi",
            'S',
            18.7,
            65_536,
            6,
            "classg",
            "/usr/bin/python3 -m classg_wifi --iface wlan1",
        ),
        (
            1_301,
            "classg-fusion",
            'S',
            4.1,
            9_216,
            4,
            "classg",
            "/usr/local/bin/classg-fusion",
        ),
        (
            902,
            "dockerd",
            'S',
            1.4,
            210_944,
            23,
            "root",
            "/usr/bin/dockerd -H fd://",
        ),
        (
            1_337,
            "pi-dash",
            'R',
            0.9,
            7_168,
            3,
            "classg",
            "/usr/local/bin/pi-dash",
        ),
        (
            704,
            "containerd",
            'S',
            0.7,
            71_680,
            17,
            "root",
            "/usr/bin/containerd",
        ),
        (
            1_312,
            "classg-web",
            'S',
            0.6,
            43_008,
            5,
            "classg",
            "/usr/local/bin/classg-web --listen 0.0.0.0:8080",
        ),
        (
            448,
            "systemd-journald",
            'S',
            0.5,
            18_432,
            1,
            "root",
            "/lib/systemd/systemd-journald",
        ),
        (61, "kworker/1:2-events", 'I', 0.4, 0, 1, "root", ""),
        (
            1_198,
            "sshd",
            'S',
            0.3,
            11_264,
            1,
            "root",
            "sshd: classg@pts/0",
        ),
        (
            236,
            "rtl_433",
            'S',
            0.2,
            5_120,
            2,
            "classg",
            "/usr/bin/rtl_433 -F json",
        ),
        (
            1_155,
            "classg-deploy-agent",
            'S',
            0.2,
            14_336,
            4,
            "classg",
            "/usr/local/bin/classg-deploy-agent",
        ),
        (
            1_163,
            "classg-watchdog",
            'S',
            0.2,
            6_144,
            2,
            "classg",
            "/usr/local/bin/classg-watchdog",
        ),
        (
            1,
            "systemd",
            'S',
            0.1,
            12_288,
            1,
            "root",
            "/sbin/init splash",
        ),
        (9, "ksoftirqd/0", 'S', 0.1, 0, 1, "root", ""),
        (
            392,
            "systemd-udevd",
            'S',
            0.1,
            7_168,
            1,
            "root",
            "/lib/systemd/systemd-udevd",
        ),
        (
            511,
            "avahi-daemon",
            'S',
            0.1,
            3_072,
            1,
            "avahi",
            "avahi-daemon: running [classg-pi.local]",
        ),
        (
            598,
            "NetworkManager",
            'S',
            0.1,
            20_480,
            3,
            "root",
            "/usr/sbin/NetworkManager --no-daemon",
        ),
        (
            612,
            "wpa_supplicant",
            'S',
            0.1,
            8_192,
            1,
            "root",
            "/sbin/wpa_supplicant -u -s",
        ),
        (
            877,
            "chronyd",
            'S',
            0.1,
            4_096,
            1,
            "chrony",
            "/usr/sbin/chronyd -F 1",
        ),
        (63, "kworker/2:1-mm_percpu_wq", 'I', 0.1, 0, 1, "root", ""),
        (
            1_401,
            "docker-proxy",
            'S',
            0.0,
            9_216,
            6,
            "root",
            "/usr/bin/docker-proxy -proto tcp -host-port 8081",
        ),
        (
            1_420,
            "redis-server",
            'S',
            0.0,
            15_360,
            4,
            "redis",
            "redis-server 127.0.0.1:6379",
        ),
        (
            2_011,
            "cron",
            'S',
            0.0,
            3_072,
            1,
            "root",
            "/usr/sbin/cron -f",
        ),
        (
            2_087,
            "rsyslogd",
            'S',
            0.0,
            5_120,
            4,
            "root",
            "/usr/sbin/rsyslogd -n -iNONE",
        ),
        (
            2_154,
            "dbus-daemon",
            'S',
            0.0,
            4_096,
            1,
            "messagebus",
            "/usr/bin/dbus-daemon --system",
        ),
        (
            2_201,
            "bluetoothd",
            'S',
            0.0,
            6_144,
            1,
            "root",
            "/usr/libexec/bluetooth/bluetoothd",
        ),
        (
            2_260,
            "polkitd",
            'S',
            0.0,
            9_216,
            3,
            "polkitd",
            "/usr/lib/polkit-1/polkitd --no-debug",
        ),
    ];
    rows.iter()
        .map(
            |(pid, name, state, cpu_pct, rss_kb, threads, user, cmdline)| ProcRow {
                pid: *pid,
                name: name.to_string(),
                state: *state,
                cpu: share(*cpu_pct / 100.0),
                rss_kb: *rss_kb,
                threads: *threads,
                user: user.to_string(),
                cmdline: cmdline.to_string(),
            },
        )
        .collect()
}

/// A colour of the terminal as the library has it.
fn color_of(ink: Ink) -> Option<Color> {
    match ink {
        Ink::Black => Some(Color::Black),
        Ink::Red => Some(Color::Red),
        Ink::Green => Some(Color::Green),
        Ink::Yellow => Some(Color::Yellow),
        Ink::Blue => Some(Color::Blue),
        Ink::Magenta => Some(Color::Magenta),
        Ink::Cyan => Some(Color::Cyan),
        Ink::Gray => Some(Color::Gray),
        Ink::DarkGray => Some(Color::DarkGray),
        Ink::White => Some(Color::White),
        Ink::Indexed(n) => Some(Color::Indexed(n)),
        _ => None,
    }
}

/// Draws the demo and collects the screen into runs: neighbouring cells that
/// share a style are one.
fn render_runs() -> Vec<Line> {
    let mut app = demo_app();
    let glyphs = app.glyphs;
    let at = Moment { clock: "13:30:00".to_string(), now: ago(0), nanos: NANOS };
    let widgets = draw(&mut app, WIDTH, HEIGHT, &at);
    let mut terminal = Terminal::new(TestBackend::new(WIDTH, HEIGHT)).expect("test backend");
    terminal
        .draw(|frame| {
            for widget in &widgets {
                paint(frame, widget, glyphs);
            }
        })
        .expect("draw must not fail");
    let buffer = terminal.backend().buffer().clone();

    (0..HEIGHT)
        .map(|y| {
            let mut line = Line::new();
            let mut text = String::new();
            let mut style = Style::plain();
            for x in 0..WIDTH {
                let cell = &buffer[(x, y)];
                let here = Style {
                    fg: color_of(cell.fg),
                    bg: color_of(cell.bg),
                    bold: cell.modifier.contains(Modifier::BOLD),
                };
                if here != style && !text.is_empty() {
                    line.push(text.clone(), style);
                    text.clear();
                }
                style = here;
                text.push_str(cell.symbol());
            }
            line.push(text, style);
            line
        })
        .collect()
}

#[test]
fn the_readme_demo_frame_still_renders() {
    let rows = render_runs();
    let text = plain_text(&rows);

    for marker in [
        "1 System",
        "2 Pi health",
        "3 Radios & network",
        "4 ClassG",
        // The pane that loses its rows first when the layout moves.
        "detections 1284 total",
    ] {
        assert!(text.contains(marker), "no {marker} in the demo:\n{text}");
    }
    // The verdict chip is the loudest thing on the frame, and a demo that opens
    // on a fault reads as a broken unit.
    let header = text.lines().next().unwrap_or_default();
    assert!(
        header.contains(" ok "),
        "the demo must open on a healthy unit, not `{header}`"
    );

    let picture = svg(&rows, WIDTH);
    assert!(picture.starts_with("<svg "));
    assert!(picture.contains("viewBox=\"0 0 1111 771\""), "{}", &picture[..120]);
    assert!(picture.contains("Mavic 3"));
}
