use std::collections::HashMap;

use pi_dash::numeric::Ratio;
use pi_dash::panes::system::{
    account_of, parse_cmdline, parse_loadavg, parse_meminfo, parse_pid_stat, parse_stat, parse_uptime,
    process_rows, push_bounded, CpuTimes, Found, PidStat, SortBy, SystemPane, SystemReadings,
    HISTORY_LEN,
};

const SECOND: u64 = 1_000_000_000;

const STAT: &str = "\
cpu  100 20 50 800 30 0 5 0 0 0
cpu0 50 10 25 400 15 0 2 0 0 0
cpu1 50 10 25 400 15 0 3 0 0 0
intr 12345 1 2 3
ctxt 999
";

/// A share in percent.
fn percent(share: Ratio) -> f64 {
    if share.den == 0 {
        0.0
    } else {
        share.num as f64 * 100.0 / share.den as f64
    }
}

#[test]
fn stat_splits_into_aggregate_and_cores() {
    let (aggregate, cores) = parse_stat(STAT);
    let aggregate = aggregate.expect("aggregate cpu line");
    assert_eq!(aggregate.user, 100);
    assert_eq!(aggregate.steal, 0);
    assert_eq!(aggregate.total(), 1005, "100+20+50+800+30+0+5+0");
    assert_eq!(cores.len(), 2);
    assert_eq!(cores[1].softirq, 3);
}

#[test]
fn guest_columns_are_not_double_counted() {
    let (aggregate, _) = parse_stat("cpu  1 2 3 4 5 6 7 8 900 901\n");
    assert_eq!(aggregate.expect("aggregate").total(), 1 + 2 + 3 + 4 + 5 + 6 + 7 + 8);
}

#[test]
fn cpu_usage_is_the_non_idle_share_of_the_delta() {
    let before = CpuTimes { user: 100, idle: 900, ..Default::default() };
    // 200 more ticks total, 50 of them busy.
    let after = CpuTimes { user: 150, idle: 1050, ..Default::default() };
    let usage = percent(after.usage_since(&before).expect("a usable delta"));
    assert!((usage - 25.0).abs() < 1e-9, "got {usage}");
}

#[test]
fn iowait_counts_as_idle() {
    let before = CpuTimes::default();
    let after = CpuTimes { iowait: 100, idle: 100, ..Default::default() };
    assert_eq!(after.usage_since(&before).map(percent), Some(0.0));
}

#[test]
fn a_stalled_or_rewound_counter_reports_nothing_rather_than_a_wild_number() {
    let before = CpuTimes { user: 100, idle: 900, ..Default::default() };
    assert_eq!(before.usage_since(&before), None, "zero delta");
    let rewound = CpuTimes { user: 1, idle: 1, ..Default::default() };
    assert_eq!(rewound.usage_since(&before), None, "counters went backwards");
}

#[test]
fn history_keeps_the_newest_samples_and_stays_bounded() {
    let mut pane = SystemPane::new(4096);
    for i in 0..HISTORY_LEN + 50 {
        push_bounded(&mut pane.cpu_history, Ratio::new(i as u64, 10_000), HISTORY_LEN);
    }
    assert_eq!(pane.cpu_history.len(), HISTORY_LEN);
    // The window slid: the newest reading is last, the oldest 50 are gone.
    let newest = (HISTORY_LEN + 49) as f64 / 10_000.0;
    assert!((percent(pane.cpu_history[HISTORY_LEN - 1]) / 100.0 - newest).abs() < 1e-12);
    assert!(
        percent(pane.cpu_history[0]) / 100.0 > 0.0049,
        "the first 50 must have aged out"
    );
}

#[test]
fn history_never_stores_a_value_outside_the_graph_range() {
    let mut pane = SystemPane::new(4096);
    push_bounded(&mut pane.cpu_history, Ratio::new(0, 1), HISTORY_LEN);
    push_bounded(&mut pane.cpu_history, Ratio::new(4, 1), HISTORY_LEN);
    let values: Vec<f64> = pane.cpu_history.iter().map(|r| percent(*r) / 100.0).collect();
    assert_eq!(values, vec![0.0, 1.0]);
}

#[test]
fn meminfo_prefers_available_over_free() {
    let text = "\
MemTotal:        8000000 kB
MemFree:          100000 kB
MemAvailable:    6000000 kB
Buffers:          200000 kB
Cached:          3000000 kB
SwapTotal:        512000 kB
SwapFree:         512000 kB
";
    let mem = parse_meminfo(text);
    assert_eq!(mem.total_kb, 8_000_000);
    assert_eq!(mem.available_kb, 6_000_000);
    assert_eq!(mem.used_kb(), 2_000_000);
    assert_eq!(mem.swap_used_kb(), 0);
    assert!((percent(mem.used_pct()) - 25.0).abs() < 1e-9);
}

#[test]
fn meminfo_without_swap_does_not_divide_by_zero() {
    let mem = parse_meminfo("MemTotal: 0 kB\n");
    assert_eq!(percent(mem.used_pct()), 0.0);
    assert_eq!(mem.swap_used_kb(), 0);
}

#[test]
fn loadavg_carries_the_runnable_over_total_field() {
    let load = parse_loadavg("0.52 0.31 0.20 2/431 8899").expect("loadavg");
    // In millionths.
    assert_eq!(load.one, 520_000);
    assert_eq!(load.fifteen, 200_000);
    assert_eq!((load.runnable, load.tasks), (2, 431));
}

#[test]
fn uptime_takes_the_first_field() {
    assert_eq!(parse_uptime("90061.42 355000.11"), Some(90_061));
    assert_eq!(parse_uptime(""), None);
}

#[test]
fn pid_stat_survives_a_comm_containing_spaces_and_parentheses() {
    let text = "1234 (Web Content (x)) S 1 1 0 0 -1 4194304 100 0 0 0 \
                700 300 0 0 20 0 5 0 99 123456789 6789 0 0 0 0 0 0";
    let stat = parse_pid_stat(text).expect("parsed");
    assert_eq!(stat.pid, 1234);
    assert_eq!(stat.comm, "Web Content (x)");
    assert_eq!(stat.state, 'S');
    assert_eq!(stat.cpu_ticks, 1000);
    assert_eq!(stat.rss_pages, 6789);
    assert_eq!(stat.threads, 5);
}

#[test]
fn pid_stat_rejects_junk_without_panicking() {
    assert!(parse_pid_stat("").is_none());
    assert!(parse_pid_stat("not a stat line").is_none());
    assert!(parse_pid_stat("1234 (short) S 1").is_none());
}

#[test]
fn a_command_line_is_split_on_nul_and_joined_with_spaces() {
    let raw = b"/usr/bin/dump1090-mutability\0--net\0--ppm\0" as &[u8];
    assert_eq!(
        parse_cmdline(raw).as_deref(),
        Some("/usr/bin/dump1090-mutability --net --ppm")
    );
    // The trailing NUL must not become a trailing space, and no NUL may survive
    // into a string the pane will measure and draw.
    let joined = parse_cmdline(raw).expect("a command line");
    assert!(!joined.contains('\0'));
    assert!(!joined.ends_with(' '));
}

#[test]
fn an_argument_containing_a_space_stays_one_argument() {
    assert_eq!(
        parse_cmdline(b"tcpdump\0-w\0/captures/beacon test.pcap\0").as_deref(),
        Some("tcpdump -w /captures/beacon test.pcap")
    );
}

#[test]
fn an_empty_command_line_is_none_rather_than_an_empty_string() {
    assert!(parse_cmdline(b"").is_none());
    assert!(parse_cmdline(b"\0").is_none());
    assert!(parse_cmdline(b"\0\0\0").is_none());
}

#[test]
fn a_command_line_that_is_not_utf8_is_replaced_rather_than_dropped() {
    let text = parse_cmdline(b"weird\0\xff\xfe\0end\0").expect("a command line");
    assert!(text.starts_with("weird "));
    assert!(text.ends_with(" end"));
    assert!(text.contains('\u{fffd}'), "{text}");
}

fn stat_of(pid: i32, comm: &str, ticks: u64, rss_pages: u64) -> PidStat {
    PidStat {
        pid,
        comm: comm.to_string(),
        state: 'S',
        cpu_ticks: ticks,
        rss_pages,
        threads: 1,
        start_ticks: 0,
    }
}

#[test]
fn the_process_table_can_be_ordered_by_memory_instead() {
    let prev: HashMap<i32, u64> = [(1, 0), (2, 0)].into_iter().collect();
    let current = vec![
        // Busy but small.
        stat_of(1, "dump1090", 400, 10),
        // Idle but large.
        stat_of(2, "dockerd", 0, 50_000),
    ];
    let by_cpu = process_rows(&current, &prev, 2 * SECOND, 4096, SortBy::Cpu);
    assert_eq!(by_cpu[0].name, "dump1090");
    let by_mem = process_rows(&current, &prev, 2 * SECOND, 4096, SortBy::Memory);
    assert_eq!(by_mem[0].name, "dockerd");
    // The same processes, whichever way.
    assert_eq!(by_cpu.len(), by_mem.len());
}

#[test]
fn a_sort_ties_break_the_same_way_every_frame() {
    let prev: HashMap<i32, u64> = HashMap::new();
    let current = vec![stat_of(9, "b", 0, 100), stat_of(4, "a", 0, 100)];
    for sort in [SortBy::Cpu, SortBy::Memory] {
        let rows = process_rows(&current, &prev, 2 * SECOND, 4096, sort);
        assert_eq!(rows[0].pid, 4, "lowest pid first when all else is equal");
        assert_eq!(rows[1].pid, 9);
    }
}

#[test]
fn the_sort_toggle_returns_to_where_it_started() {
    assert_eq!(SortBy::default(), SortBy::Cpu);
    assert_eq!(SortBy::Cpu.next(), SortBy::Memory);
    assert_eq!(SortBy::Cpu.next().next(), SortBy::Cpu);
    // The labels name the column heading they mark.
    assert_eq!(SortBy::Cpu.label(), "CPU%");
    assert_eq!(SortBy::Memory.label(), "MEM");
}

#[test]
fn starttime_is_read_so_a_recycled_pid_cannot_inherit_a_command_line() {
    let text = "1146 (dump1090-mutabi) S 1 1146 1146 0 -1 4194560 1234 0 0 0 \
900 300 0 0 20 0 4 0 88231 123456789 5678 18446744073709551615 1 1 0 0 0 0 0 0 0";
    let stat = parse_pid_stat(text).expect("parsed");
    assert_eq!(stat.pid, 1146);
    assert_eq!(stat.comm, "dump1090-mutabi");
    assert_eq!(stat.cpu_ticks, 1200);
    assert_eq!(stat.start_ticks, 88231);
    assert_eq!(stat.rss_pages, 5678);
}

#[test]
fn a_stat_line_truncated_mid_read_yields_zeros_not_wrong_fields() {
    let short = "42 (dying) S 1 42 42 0 -1 0 0 0 0 0 700 100";
    let stat = parse_pid_stat(short).expect("utime and stime are present");
    assert_eq!(stat.cpu_ticks, 800);
    assert_eq!(stat.start_ticks, 0);
    assert_eq!(stat.rss_pages, 0);

    // Not even far enough for utime: no row at all rather than a row of zeros
    // that would render as a real, idle process.
    assert!(parse_pid_stat("42 (dying) S 1 42").is_none());
    assert!(parse_pid_stat("").is_none());
    assert!(parse_pid_stat("not a stat line").is_none());
}

#[test]
fn a_comm_with_spaces_and_parens_still_parses() {
    let stat = parse_pid_stat(
        "904 ((sd-pam)) S 1 904 904 0 -1 0 0 0 0 0 10 20 0 0 20 0 1 0 555 0 99 0",
    )
    .expect("parsed");
    assert_eq!(stat.comm, "(sd-pam)");
    assert_eq!(stat.cpu_ticks, 30);
    assert_eq!(stat.start_ticks, 555);
    assert_eq!(stat.rss_pages, 99);
}

#[test]
fn process_cpu_is_a_delta_over_measured_elapsed_time() {
    let prev: HashMap<i32, u64> = [(1, 100), (2, 500)].into_iter().collect();
    let current =
        vec![stat_of(1, "classg-api", 300, 1000), stat_of(2, "idle-thing", 500, 10)];
    let rows = process_rows(&current, &prev, 2 * SECOND, 4096, SortBy::Cpu);

    // 200 ticks = 2.00 s of CPU over a 2 s window = 100% of one core.
    assert_eq!(rows[0].pid, 1);
    assert!((percent(rows[0].cpu) - 100.0).abs() < 1e-9, "got {}", percent(rows[0].cpu));
    assert_eq!(rows[0].rss_kb, 4000);
    assert_eq!(percent(rows[1].cpu), 0.0);
}

#[test]
fn a_brand_new_process_starts_at_zero_not_at_its_whole_lifetime() {
    let prev = HashMap::new();
    let current = vec![stat_of(9, "apt", 99_999, 100)];
    let rows = process_rows(&current, &prev, 2 * SECOND, 4096, SortBy::Cpu);
    assert_eq!(percent(rows[0].cpu), 0.0);
}

#[test]
fn idle_processes_keep_a_stable_order_between_frames() {
    let prev: HashMap<i32, u64> = [(7, 0), (3, 0), (5, 0)].into_iter().collect();
    let current =
        vec![stat_of(7, "g", 0, 10), stat_of(3, "a", 0, 10), stat_of(5, "b", 0, 10)];
    let rows = process_rows(&current, &prev, 2 * SECOND, 4096, SortBy::Cpu);
    assert_eq!(rows.iter().map(|r| r.pid).collect::<Vec<_>>(), vec![3, 5, 7]);
}

#[test]
fn a_zero_length_interval_cannot_produce_infinite_cpu() {
    let prev: HashMap<i32, u64> = [(1, 0)].into_iter().collect();
    let current = vec![stat_of(1, "x", 500, 0)];
    let rows = process_rows(&current, &prev, 0, 4096, SortBy::Cpu);
    assert_eq!(percent(rows[0].cpu), 0.0);
}

fn readings(stat: &str, processes: Vec<PidStat>) -> SystemReadings {
    SystemReadings {
        stat: Some(stat.to_string()),
        meminfo: Some("MemTotal: 8000000 kB\nMemAvailable: 6000000 kB\n".to_string()),
        loadavg: Some("0.52 0.31 0.20 2/431 8899".to_string()),
        uptime: Some("90061.42 355000.11".to_string()),
        processes,
    }
}

#[test]
fn two_samples_make_a_load_and_the_first_does_not() {
    let mut pane = SystemPane::new(4096);
    let wanted = pane.sample(readings(STAT, vec![stat_of(1, "init", 100, 10)]), SECOND);
    assert!(wanted.is_empty(), "nothing is listed before there are two samples");
    assert_eq!(pane.cpu, None);
    assert!(pane.cpu_history.is_empty());
    assert_eq!(pane.uptime_secs, 90_061);
    assert_eq!(pane.load.tasks, 431);

    let later = "cpu  200 20 50 900 30 0 5 0 0 0\ncpu0 100 10 25 450 15 0 2 0 0 0\n";
    let wanted = pane.sample(readings(later, vec![stat_of(1, "init", 150, 10)]), 2 * SECOND);
    assert_eq!(wanted, vec![1], "a new process is asked about");
    pane.describe(vec![Found {
        pid: 1,
        user: "root".to_string(),
        cmdline: "/sbin/init".to_string(),
    }]);
    // 200 more ticks, 100 of them idle.
    assert_eq!(pane.cpu.map(percent), Some(50.0));
    assert_eq!(pane.cpu_history.len(), 1);
    assert_eq!(pane.total_procs, 1);
    assert_eq!(percent(pane.procs[0].cpu), 50.0);
    assert_eq!(pane.procs[0].cmdline, "/sbin/init");
    assert_eq!(pane.procs[0].user, "root");

    let wanted = pane.sample(readings(later, vec![stat_of(1, "init", 160, 10)]), 3 * SECOND);
    assert!(wanted.is_empty(), "it is the same process as before");
    assert_eq!(pane.procs[0].cmdline, "/sbin/init");
}

#[test]
fn a_machine_without_proc_says_so() {
    let mut pane = SystemPane::new(4096);
    pane.sample(SystemReadings::default(), SECOND);
    assert!(pane.unavailable.is_some());
}

#[test]
fn an_account_is_the_first_line_for_its_number() {
    let passwd = "root:x:0:0:root:/root:/bin/bash\nadmin:x:1000:1000::/home/admin:/bin/sh\ntwin:x:1000:1000::/:/bin/sh\nbroken\n";
    assert_eq!(account_of(passwd, 0), "root");
    assert_eq!(account_of(passwd, 1000), "admin");
    assert_eq!(account_of(passwd, 998), "998");
    assert_eq!(account_of("", 0), "0");
}

#[test]
fn uptime_and_load_read_as_numbers_of_any_form() {
    assert_eq!(parse_uptime("-5 0"), Some(0));
    assert_eq!(parse_uptime("+1 0"), Some(1));
    assert_eq!(parse_uptime("1.5e3 0"), Some(1500));
    assert_eq!(parse_uptime("15e-1"), Some(1));
    assert_eq!(parse_uptime("1e30"), Some(u64::MAX));
    assert_eq!(parse_uptime("-1e30"), Some(0));
    assert_eq!(parse_uptime("inf"), Some(u64::MAX));
    assert_eq!(parse_uptime("-Infinity"), Some(0));
    assert_eq!(parse_uptime("NaN"), Some(0));
    assert_eq!(parse_uptime("infinite"), None);
    assert_eq!(parse_uptime("."), None);
    let load = parse_loadavg("+0.5 -0.25 1e1 1/2 3").expect("parsed");
    assert_eq!((load.one, load.five, load.fifteen), (500_000, -250_000, 10_000_000));
}

#[test]
fn an_argument_that_is_not_text_is_replaced_and_not_dropped() {
    assert_eq!(parse_cmdline(b"\xff\0--x\0"), Some("\u{fffd} --x".to_string()));
    assert_eq!(parse_cmdline(b"\0\0"), None);
}
