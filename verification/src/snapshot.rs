//! One plain-text snapshot, no terminal required.
//!
//! The interesting failures on this box are not the kind a type-checker can
//! see: a wedged adapter, an under-volting supply, an API that is not
//! listening. This is how the readers are checked against real hardware.

use vstd::prelude::*;

use crate::check::sensors_found;
use crate::format::{
    age_text, human_bytes, human_kb, human_rate, human_rate_compact, rate_long, rate_short,
    short_age, size_kb, uptime, uptime_text,
};
use crate::numeric::{
    micro_text, signed_quotient_text, write_micro, write_signed_quotient, Ratio,
};
use crate::panes::classg::{
    build_names_its_revision, class_name, classes_of, collapse_runs, detection_class_label, folded,
    newest_capture, only_other_classes_identify, running_among, sweeping_among, AuthState,
    CredentialKind, Detection, DetectionPage, FlexTime, FusionHealth, HealthResponse,
    MonitoringState, Repeats, SensorHealth, Snapshot, SystemInfo, Track, TrackPage,
};
use crate::panes::health::{DiskUsage, HealthPane, Tense, Throttle};
use crate::panes::radios::{iface_rows, usb_views, Iface, IfaceRow, RadiosPane, Usb, WirelessMode};
use crate::panes::system::{less, rows_of, ProcRow, Row, SystemPane};
use crate::text::{
    dec, decimal, has_prefix, has_suffix, hex, hexadecimal, is_space, join, joined,
    lemma_adds_no_line, lemma_adds_no_word, lemma_dec_is_no_space, lemma_part_of_sum, occurs_at,
    occurs_in, opt_view, pad_left, pad_right, padded_left, padded_right, same, signed_dec,
    signed_decimal, text_or, text_or_default, texts,
};

verus! {

/// Labels in a list, or a dash where there are none.
pub open spec fn listed(labels: Seq<Seq<char>>) -> Seq<char> {
    if labels.len() == 0 {
        "-"@
    } else {
        joined(labels, ", "@)
    }
}

fn list(labels: &Vec<String>) -> (r: String)
    ensures
        r@ == listed(texts(labels@)),
{
    if labels.len() == 0 {
        "-".to_owned()
    } else {
        join(labels, ", ")
    }
}

/// The throttle register in words. Unknown is not the same as clean, and what
/// is happening now is not the same as what has happened.
pub open spec fn throttle_words(throttle: Option<Throttle>) -> Seq<char> {
    match throttle {
        None => "unknown - no vcgencmd here"@,
        Some(t) => if t.nothing_set() {
            "ok, clean since boot"@
        } else {
            "now ["@ + listed(t.now.said(Tense::Now)) + "]  since boot ["@ + listed(
                t.since_boot.said(Tense::SinceBoot),
            ) + "]  (0x"@ + hex(t.raw as nat) + ")"@
        },
    }
}

pub fn describe_throttle(throttle: Option<Throttle>) -> (r: String)
    ensures
        r@ == throttle_words(throttle),
{
    match throttle {
        None => "unknown - no vcgencmd here".to_owned(),
        Some(t) => {
            if t.clean() {
                return "ok, clean since boot".to_owned();
            }
            let mut out = "now [".to_owned();
            out.append(list(&t.now.labels(Tense::Now)).as_str());
            out.append("]  since boot [");
            out.append(list(&t.since_boot.labels(Tense::SinceBoot)).as_str());
            out.append("]  (0x");
            out.append(hexadecimal(t.raw as u64).as_str());
            out.append(")");
            out
        },
    }
}

/// A class by its letter and its name. The letter always survives: it is what
/// the API said.
pub open spec fn lettered_class(code: Seq<char>) -> Seq<char> {
    if class_name(code).len() == 0 {
        code
    } else {
        code + " "@ + class_name(code)
    }
}

pub fn class_label(code: &str) -> (r: String)
    ensures
        r@ == lettered_class(code@),
{
    let name = detection_class_label(code);
    let mut out = code.to_owned();
    if !name.is_empty() {
        out.append(" ");
        out.append(name);
    }
    out
}

/// The command of a process: its arguments, or its bracketed name where it has
/// none.
pub open spec fn command_of(row: Row) -> Seq<char> {
    if row.cmdline.len() == 0 {
        "["@ + row.name + "]"@
    } else {
        row.cmdline
    }
}

pub fn command_text(row: &ProcRow) -> (r: String)
    ensures
        r@ == command_of(row@),
{
    if row.cmdline.as_str().is_empty() {
        let mut out = "[".to_owned();
        out.append(row.name.as_str());
        out.append("]");
        out
    } else {
        row.cmdline.clone()
    }
}

/// One process, with its arguments: the kernel cuts the name short, and only
/// they say which of two processes it is.
pub open spec fn process_line(row: Row) -> Seq<char> {
    "  "@ + padded_left(signed_dec(row.pid as int), 7) + "  "@ + padded_left(
        row.cpu.percent_text(1),
        6,
    ) + "%  "@ + padded_left(size_kb(row.rss_kb as nat), 7) + "  "@ + command_of(row) + "\n"@
}

fn write_process(row: &ProcRow) -> (r: String)
    ensures
        r@ == process_line(row@),
{
    let mut out = "  ".to_owned();
    out.append(pad_left(signed_decimal(row.pid as i64).as_str(), 7).as_str());
    out.append("  ");
    out.append(pad_left(row.cpu.percent(1).as_str(), 6).as_str());
    out.append("%  ");
    out.append(pad_left(human_kb(row.rss_kb).as_str(), 7).as_str());
    out.append("  ");
    out.append(command_text(row).as_str());
    out.append("\n");
    out
}

/// The lines of some processes.
pub open spec fn process_lines(rows: Seq<Row>) -> Seq<char>
    decreases rows.len(),
{
    if rows.len() == 0 {
        Seq::empty()
    } else {
        process_lines(rows.drop_last()) + process_line(rows.last())
    }
}

pub open spec fn first_five(rows: Seq<Row>) -> Seq<Row> {
    if rows.len() > 5 {
        rows.take(5)
    } else {
        rows
    }
}

fn write_processes(rows: &Vec<ProcRow>) -> (r: String)
    ensures
        r@ == process_lines(first_five(rows_of(rows@))),
{
    let ghost all = rows_of(rows@);
    let most: usize = if rows.len() > 5 {
        5
    } else {
        rows.len()
    };
    let mut out = String::new();
    let mut i: usize = 0;
    assert(all.take(0) == Seq::<Row>::empty());
    while i < most
        invariant
            i <= most <= rows@.len(),
            all == rows_of(rows@),
            out@ == process_lines(all.take(i as int)),
        decreases most - i,
    {
        assert(all.take(i + 1).drop_last() == all.take(i as int));
        assert(all.take(i + 1).last() == rows@[i as int]@);
        out.append(write_process(&rows[i]).as_str());
        i = i + 1;
    }
    assert(all.take(most as int) == first_five(all));
    out
}

/// The three load averages.
pub open spec fn load_text(s: SystemPane) -> Seq<char> {
    micro_text(s.load.one as int, 2) + " "@ + micro_text(s.load.five as int, 2) + " "@ + micro_text(
        s.load.fifteen as int,
        2,
    )
}

pub fn write_load(s: &SystemPane) -> (r: String)
    ensures
        r@ == load_text(*s),
{
    let mut out = write_micro(s.load.one, 2);
    out.append(" ");
    out.append(write_micro(s.load.five, 2).as_str());
    out.append(" ");
    out.append(write_micro(s.load.fifteen, 2).as_str());
    out
}

/// The used share of memory.
pub open spec fn memory_share(s: SystemPane) -> Ratio {
    Ratio {
        num: less(s.mem.total_kb, s.mem.available_kb),
        den: s.mem.total_kb,
    }
}

pub open spec fn swap_words(s: SystemPane) -> Seq<char> {
    if s.mem.swap_total_kb == 0 {
        "off"@
    } else {
        size_kb(less(s.mem.swap_total_kb, s.mem.swap_free_kb) as nat) + "/"@ + size_kb(
            s.mem.swap_total_kb as nat,
        )
    }
}

pub fn swap_text(s: &SystemPane) -> (r: String)
    ensures
        r@ == swap_words(*s),
{
    if s.mem.swap_total_kb == 0 {
        "off".to_owned()
    } else {
        let mut out = human_kb(s.mem.swap_used_kb());
        out.append("/");
        out.append(human_kb(s.mem.swap_total_kb).as_str());
        out
    }
}

/// The section on the system.
pub open spec fn system_section(s: SystemPane) -> Seq<char> {
    match s.unavailable {
        Some(reason) => "system\n  "@ + reason@ + "\n"@,
        None => "system\n  cpu      "@ + match s.cpu {
            Some(share) => share.percent_text(0) + "%"@,
            None => "-"@,
        } + "  ("@ + dec(s.cores@.len()) + " cores)\n  mem      "@ + size_kb(
            less(s.mem.total_kb, s.mem.available_kb) as nat,
        ) + "/"@ + size_kb(s.mem.total_kb as nat) + " ("@ + memory_share(s).percent_text(0)
            + "%)   swap "@ + swap_words(s) + "\n  load     "@ + load_text(s) + "   up "@
            + uptime_text(s.uptime_secs as nat) + "   "@ + dec(s.load.tasks as nat) + " tasks\n"@
            + process_lines(first_five(rows_of(s.procs@))),
    }
}

pub fn write_system(s: &SystemPane) -> (r: String)
    ensures
        r@ == system_section(*s),
{
    match &s.unavailable {
        Some(reason) => {
            let mut out = "system\n  ".to_owned();
            out.append(reason.as_str());
            out.append("\n");
            out
        },
        None => {
            let mut out = "system\n  cpu      ".to_owned();
            let cpu = match s.cpu {
                Some(share) => {
                    let mut text = share.percent(0);
                    text.append("%");
                    text
                },
                None => "-".to_owned(),
            };
            out.append(cpu.as_str());
            out.append("  (");
            out.append(decimal(s.cores.len() as u64).as_str());
            out.append(" cores)\n  mem      ");
            out.append(human_kb(s.mem.used_kb()).as_str());
            out.append("/");
            out.append(human_kb(s.mem.total_kb).as_str());
            out.append(" (");
            out.append(s.mem.used_pct().percent(0).as_str());
            out.append("%)   swap ");
            out.append(swap_text(s).as_str());
            out.append("\n  load     ");
            out.append(write_load(s).as_str());
            out.append("   up ");
            out.append(uptime(s.uptime_secs).as_str());
            out.append("   ");
            out.append(decimal(s.load.tasks).as_str());
            out.append(" tasks\n");
            out.append(write_processes(&s.procs).as_str());
            out
        },
    }
}

/// The clock now against the most it can be.
pub open spec fn clock_words(arm: Option<u64>, max: Option<u64>) -> Seq<char> {
    match (arm, max) {
        (Some(now), Some(most)) => dec(now as nat) + "/"@ + dec(most as nat) + " MHz"@,
        (Some(now), None) => dec(now as nat) + " MHz"@,
        _ => "?"@,
    }
}

pub fn clock_text(arm: Option<u64>, max: Option<u64>) -> (r: String)
    ensures
        r@ == clock_words(arm, max),
{
    match (arm, max) {
        (Some(now), Some(most)) => {
            let mut out = decimal(now);
            out.append("/");
            out.append(decimal(most).as_str());
            out.append(" MHz");
            out
        },
        (Some(now), None) => {
            let mut out = decimal(now);
            out.append(" MHz");
            out
        },
        _ => "?".to_owned(),
    }
}

/// How much of a disk is used, and how much of it can still be written.
pub open spec fn disk_words(disk: Option<DiskUsage>) -> Seq<char> {
    match disk {
        Some(d) => size_kb(d.used_kb as nat) + " used, "@ + size_kb(d.avail_kb as nat)
            + " free of "@ + size_kb(d.total_kb as nat) + " ("@ + d.fullness().percent_text(0)
            + "%)"@,
        None => "unavailable"@,
    }
}

fn disk_text(disk: Option<DiskUsage>) -> (r: String)
    ensures
        r@ == disk_words(disk),
{
    match disk {
        Some(d) => {
            let mut out = human_kb(d.used_kb);
            out.append(" used, ");
            out.append(human_kb(d.avail_kb).as_str());
            out.append(" free of ");
            out.append(human_kb(d.total_kb).as_str());
            out.append(" (");
            out.append(d.pct().percent(0).as_str());
            out.append("%)");
            out
        },
        None => "unavailable".to_owned(),
    }
}

/// The section on the board itself.
pub open spec fn health_section(h: HealthPane) -> Seq<char> {
    "\nhealth\n  temp     "@ + match h.temp_milli {
        Some(t) => signed_quotient_text(t as int, 1000, 1) + "C"@,
        None => "no thermal zone"@,
    } + "\n  power    "@ + match h.volts_micro {
        Some(v) => micro_text(v as int, 4) + "V"@,
        None => "?V"@,
    } + "   clock "@ + clock_words(h.arm_mhz, h.max_mhz) + "\n  throttle "@ + throttle_words(
        h.throttle,
    ) + "\n  disk     "@ + disk_words(h.disk) + "\n  io       r "@ + rate_long(h.io.read)
        + "  w "@ + rate_long(h.io.write) + "\n"@
}

pub fn write_health(h: &HealthPane) -> (r: String)
    ensures
        r@ == health_section(*h),
{
    let mut out = "\nhealth\n  temp     ".to_owned();
    let temp = match h.temp_milli {
        Some(t) => {
            let mut text = write_signed_quotient(t, 1000, 1);
            text.append("C");
            text
        },
        None => "no thermal zone".to_owned(),
    };
    out.append(temp.as_str());
    out.append("\n  power    ");
    let volts = match h.volts_micro {
        Some(v) => {
            let mut text = write_micro(v, 4);
            text.append("V");
            text
        },
        None => "?V".to_owned(),
    };
    out.append(volts.as_str());
    out.append("   clock ");
    out.append(clock_text(h.arm_mhz, h.max_mhz).as_str());
    out.append("\n  throttle ");
    out.append(describe_throttle(h.throttle).as_str());
    out.append("\n  disk     ");
    out.append(disk_text(h.disk).as_str());
    out.append("\n  io       r ");
    out.append(human_rate(h.io.read).as_str());
    out.append("  w ");
    out.append(human_rate(h.io.write).as_str());
    out.append("\n");
    out
}

pub open spec fn mode_words(mode: Option<WirelessMode>) -> Seq<char> {
    match mode {
        Some(WirelessMode::Monitor) => "monitor"@,
        Some(WirelessMode::Managed) => "managed"@,
        None => ""@,
    }
}

/// One interface.
pub open spec fn iface_line(i: IfaceRow) -> Seq<char> {
    "  "@ + padded_right(i.name, 10) + " "@ + padded_right(i.state, 8) + " v"@ + padded_right(
        rate_short(i.rx),
        8,
    ) + " ^"@ + padded_right(rate_short(i.tx), 8) + " "@ + mode_words(i.mode) + match i.channel {
        Some(c) => " ch"@ + dec(c as nat),
        None => Seq::empty(),
    } + "\n"@
}

fn write_iface(i: &Iface) -> (r: String)
    ensures
        r@ == iface_line(i@),
{
    let mut out = "  ".to_owned();
    out.append(pad_right(i.name.as_str(), 10).as_str());
    out.append(" ");
    out.append(pad_right(i.state.as_str(), 8).as_str());
    out.append(" v");
    out.append(pad_right(human_rate_compact(i.rx).as_str(), 8).as_str());
    out.append(" ^");
    out.append(pad_right(human_rate_compact(i.tx).as_str(), 8).as_str());
    out.append(" ");
    match i.mode {
        Some(WirelessMode::Monitor) => out.append("monitor"),
        Some(WirelessMode::Managed) => out.append("managed"),
        None => out.append(""),
    }
    let channel = match i.channel {
        Some(c) => {
            let mut text = " ch".to_owned();
            text.append(decimal(c as u64).as_str());
            text
        },
        None => String::new(),
    };
    out.append(channel.as_str());
    out.append("\n");
    out
}

pub open spec fn iface_lines(v: Seq<IfaceRow>) -> Seq<char>
    decreases v.len(),
{
    if v.len() == 0 {
        Seq::empty()
    } else {
        iface_lines(v.drop_last()) + iface_line(v.last())
    }
}

pub open spec fn usb_line(d: Usb) -> Seq<char> {
    "  usb      "@ + d.id + "  "@ + d.description + "\n"@
}

pub open spec fn usb_lines(v: Seq<Usb>) -> Seq<char>
    decreases v.len(),
{
    if v.len() == 0 {
        Seq::empty()
    } else {
        usb_lines(v.drop_last()) + usb_line(v.last())
    }
}

/// The section on interfaces and radios.
pub open spec fn radios_section(r: RadiosPane) -> Seq<char> {
    "\nradios\n"@ + iface_lines(iface_rows(r.ifaces@)) + if r.usb@.len() == 0 {
        "  usb      none present - adapters gone from the bus\n"@
    } else {
        usb_lines(usb_views(r.usb@))
    }
}

pub fn write_radios(r: &RadiosPane) -> (text: String)
    ensures
        text@ == radios_section(*r),
{
    let mut list = String::new();
    let ghost ifaces = iface_rows(r.ifaces@);
    let mut i: usize = 0;
    assert(ifaces.take(0) == Seq::<IfaceRow>::empty());
    while i < r.ifaces.len()
        invariant
            i <= r.ifaces@.len(),
            ifaces == iface_rows(r.ifaces@),
            list@ == iface_lines(ifaces.take(i as int)),
        decreases r.ifaces@.len() - i,
    {
        assert(ifaces.take(i + 1).drop_last() == ifaces.take(i as int));
        assert(ifaces.take(i + 1).last() == r.ifaces@[i as int]@);
        list.append(write_iface(&r.ifaces[i]).as_str());
        i = i + 1;
    }
    assert(ifaces.take(i as int) == ifaces);
    let mut out = "\nradios\n".to_owned();
    out.append(list.as_str());
    if r.usb.len() == 0 {
        out.append("  usb      none present - adapters gone from the bus\n");
        return out;
    }
    let mut devices = String::new();
    let ghost usb = usb_views(r.usb@);
    let mut j: usize = 0;
    assert(usb.take(0) == Seq::<Usb>::empty());
    while j < r.usb.len()
        invariant
            j <= r.usb@.len(),
            usb == usb_views(r.usb@),
            devices@ == usb_lines(usb.take(j as int)),
        decreases r.usb@.len() - j,
    {
        assert(usb.take(j + 1).drop_last() == usb.take(j as int));
        assert(usb.take(j + 1).last() == r.usb@[j as int]@);
        let mut line = "  usb      ".to_owned();
        line.append(r.usb[j].id.as_str());
        line.append("  ");
        line.append(r.usb[j].description.as_str());
        line.append("\n");
        devices.append(line.as_str());
        j = j + 1;
    }
    assert(usb.take(j as int) == usb);
    out.append(devices.as_str());
    out
}

/// The build: with its revision where the system endpoint answered, else the
/// bare version.
pub open spec fn build_of(snapshot: Snapshot, health: HealthResponse) -> Seq<char> {
    match snapshot.slow.system {
        Some(system) => system.build_words(),
        None => health.version@,
    }
}

pub fn build_text(snapshot: &Snapshot, health: &HealthResponse) -> (r: String)
    ensures
        r@ == build_of(*snapshot, *health),
{
    match &snapshot.slow.system {
        Some(system) => system.build_label(),
        None => health.version.clone(),
    }
}

/// Free space on the filesystem that detections land on.
pub open spec fn store_line(system: Option<SystemInfo>) -> Seq<char> {
    match system {
        None => Seq::empty(),
        Some(s) => "  store    "@ + s.runtime.store@ + "  "@ + s.host.disk_path@ + "  "@ + match (
            s.host.disk_free_bytes,
            s.host.disk_total_bytes,
        ) {
            (Some(free), Some(total)) => size_kb(free as nat / 1024) + " free of "@ + size_kb(
                total as nat / 1024,
            ),
            _ => "unavailable"@,
        } + "\n"@,
    }
}

fn write_store(system: &Option<SystemInfo>) -> (r: String)
    ensures
        r@ == store_line(*system),
{
    match system {
        None => String::new(),
        Some(s) => {
            let mut out = "  store    ".to_owned();
            out.append(s.runtime.store.as_str());
            out.append("  ");
            out.append(s.host.disk_path.as_str());
            out.append("  ");
            let disk = match (s.host.disk_free_bytes, s.host.disk_total_bytes) {
                (Some(free), Some(total)) => {
                    let mut text = human_bytes(free);
                    text.append(" free of ");
                    text.append(human_bytes(total).as_str());
                    text
                },
                _ => "unavailable".to_owned(),
            };
            out.append(disk.as_str());
            out.append("\n");
            out
        },
    }
}

/// Whether the unit is recording, before anything that this affects.
pub open spec fn record_line(state: Option<MonitoringState>) -> Seq<char> {
    match state {
        None => Seq::empty(),
        Some(s) => if s.enabled {
            "  record   on\n"@
        } else {
            "  record   PAUSED  "@ + dec(s.discarded as nat) + " discarded  "@ + text_or(
                opt_view(s.reason),
                "no reason given"@,
            ) + "\n"@
        },
    }
}

fn write_record(state: &Option<MonitoringState>) -> (r: String)
    ensures
        r@ == record_line(*state),
{
    match state {
        None => String::new(),
        Some(s) => if s.enabled {
            "  record   on\n".to_owned()
        } else {
            let mut out = "  record   PAUSED  ".to_owned();
            out.append(decimal(s.discarded).as_str());
            out.append(" discarded  ");
            out.append(text_or_default(&s.reason, "no reason given"));
            out.append("\n");
            out
        },
    }
}

/// What to do about a refusal depends on which credential went out: a local
/// token that is refused has almost certainly just been rotated.
pub open spec fn refusal_advice(auth: Option<AuthState>, credential: Option<CredentialKind>) -> Seq<
    char,
> {
    match auth {
        None => Seq::empty(),
        Some(a) => if a.setup_required {
            "           this unit has no accounts yet\n"@
        } else if a.auth_enabled && !a.authenticated {
            "           "@ + match credential {
                Some(CredentialKind::Local) =>
                    "the local-agent token was rejected; the API rewrites it on restart"@,
                Some(CredentialKind::Session) => "CLASSG_SESSION has expired"@,
                None => "no local-agent token found; check .agent-state is readable"@,
            } + "\n"@
        } else {
            Seq::empty()
        },
    }
}

pub open spec fn refusal_lines(
    denied: Option<Seq<char>>,
    auth: Option<AuthState>,
    credential: Option<CredentialKind>,
) -> Seq<char> {
    match denied {
        None => Seq::empty(),
        Some(d) => "  auth     refused: "@ + d + "\n"@ + refusal_advice(auth, credential),
    }
}

fn write_refusal(snapshot: &Snapshot) -> (r: String)
    ensures
        r@ == refusal_lines(opt_view(snapshot.denied), snapshot.slow.auth, snapshot.credential),
{
    match &snapshot.denied {
        None => String::new(),
        Some(denied) => {
            let mut out = "  auth     refused: ".to_owned();
            out.append(denied.as_str());
            out.append("\n");
            let mut advice = String::new();
            if let Some(auth) = &snapshot.slow.auth {
                if auth.setup_required {
                    advice = "           this unit has no accounts yet\n".to_owned();
                } else if auth.auth_enabled && !auth.authenticated {
                    advice = "           ".to_owned();
                    match snapshot.credential {
                        Some(CredentialKind::Local) => advice.append(
                            "the local-agent token was rejected; the API rewrites it on restart",
                        ),
                        Some(CredentialKind::Session) => advice.append(
                            "CLASSG_SESSION has expired",
                        ),
                        None => advice.append(
                            "no local-agent token found; check .agent-state is readable",
                        ),
                    }
                    advice.append("\n");
                }
            }
            out.append(advice.as_str());
            out
        },
    }
}

/// The state of a sensor. One that is down and optional is a build.
pub open spec fn sensor_word(s: SensorHealth) -> Seq<char> {
    if s.healthy {
        "ok"@
    } else if s.optional {
        "off"@
    } else {
        "DOWN"@
    }
}

pub fn sensor_state(s: &SensorHealth) -> (r: &'static str)
    ensures
        r@ == sensor_word(*s),
{
    if s.healthy {
        "ok"
    } else if s.optional {
        "off"
    } else {
        "DOWN"
    }
}

/// The age of the last heartbeat.
pub open spec fn beat_of(s: SensorHealth) -> Seq<char> {
    match s.seconds_since_heartbeat {
        Some(n) => signed_dec(n as int) + "s"@,
        None => "-"@,
    }
}

pub fn beat_text(s: &SensorHealth) -> (r: String)
    ensures
        r@ == beat_of(*s),
{
    match s.seconds_since_heartbeat {
        Some(n) => {
            let mut out = signed_decimal(n);
            out.append("s");
            out
        },
        None => "-".to_owned(),
    }
}

pub open spec fn sensor_line(s: SensorHealth) -> Seq<char> {
    "  sensor   "@ + padded_right(s.sensor_id@, 12) + " "@ + padded_right(sensor_word(s), 5)
        + " beat "@ + padded_right(beat_of(s), 5) + " 5m:"@ + padded_right(
        dec(s.detections_5m as nat),
        6,
    ) + " "@ + text_or(opt_view(s.reason), ""@) + "\n"@
}

fn write_sensor(s: &SensorHealth) -> (r: String)
    ensures
        r@ == sensor_line(*s),
{
    let mut out = "  sensor   ".to_owned();
    out.append(pad_right(s.sensor_id.as_str(), 12).as_str());
    out.append(" ");
    out.append(pad_right(sensor_state(s), 5).as_str());
    out.append(" beat ");
    out.append(pad_right(beat_text(s).as_str(), 5).as_str());
    out.append(" 5m:");
    out.append(pad_right(decimal(s.detections_5m).as_str(), 6).as_str());
    out.append(" ");
    out.append(text_or_default(&s.reason, ""));
    out.append("\n");
    out
}

pub open spec fn sensor_lines(v: Seq<SensorHealth>) -> Seq<char>
    decreases v.len(),
{
    if v.len() == 0 {
        Seq::empty()
    } else {
        sensor_lines(v.drop_last()) + sensor_line(v.last())
    }
}

fn write_sensors(v: &Vec<SensorHealth>) -> (r: String)
    ensures
        r@ == sensor_lines(v@),
{
    let mut out = String::new();
    let mut i: usize = 0;
    assert(v@.take(0) == Seq::<SensorHealth>::empty());
    while i < v.len()
        invariant
            i <= v@.len(),
            out@ == sensor_lines(v@.take(i as int)),
        decreases v@.len() - i,
    {
        assert(v@.take(i + 1).drop_last() == v@.take(i as int));
        assert(v@.take(i + 1).last() == v@[i as int]);
        out.append(write_sensor(&v[i]).as_str());
        i = i + 1;
    }
    assert(v@.take(i as int) == v@);
    out
}

/// The state of the link that produces tracks.
pub open spec fn fusion_words(fusion: Option<FusionHealth>, now: FlexTime) -> Seq<char> {
    match fusion {
        None => "not configured"@,
        Some(f) => if f.connected {
            match f.last_message {
                Some(ts) => "connected, last message "@ + age_text(ts.age(now)),
                None => "connected, no messages yet"@,
            }
        } else if f.configured {
            "DOWN  "@ + text_or(opt_view(f.reason), ""@)
        } else {
            "not configured"@
        },
    }
}

fn fusion_text(fusion: &Option<FusionHealth>, now: FlexTime) -> (r: String)
    ensures
        r@ == fusion_words(*fusion, now),
{
    match fusion {
        None => "not configured".to_owned(),
        Some(f) => if f.connected {
            match f.last_message {
                Some(ts) => {
                    let mut out = "connected, last message ".to_owned();
                    out.append(short_age(ts.age_secs(now)).as_str());
                    out
                },
                None => "connected, no messages yet".to_owned(),
            }
        } else if f.configured {
            let mut out = "DOWN  ".to_owned();
            out.append(text_or_default(&f.reason, ""));
            out
        } else {
            "not configured".to_owned()
        },
    }
}

/// A capture or a sweep that holds a radio, or a capture that failed.
pub open spec fn radio_use(snapshot: Snapshot) -> Seq<char> {
    let running = running_among(snapshot.captures());
    let latest = newest_capture(snapshot.captures());
    let sweep = sweeping_among(snapshot.sweeps());
    (if running is Some {
        "  capture  running on "@ + running->0.iface@ + " ch"@ + dec(running->0.channel as nat)
            + " for "@ + dec(running->0.duration_s as nat) + "s\n"@
    } else if latest is Some && latest->0.state@ == "failed"@ {
        "  capture  failed: "@ + text_or(opt_view(latest->0.error), "no reason recorded"@) + "\n"@
    } else {
        Seq::empty()
    }) + (if sweep is Some {
        "  sweep    running on "@ + sweep->0.band@ + " (radio busy)\n"@
    } else {
        Seq::empty()
    })
}

fn write_radio_use(snapshot: &Snapshot) -> (r: String)
    ensures
        r@ == radio_use(*snapshot),
{
    let mut out = String::new();
    if let Some(capture) = snapshot.running_capture() {
        out = "  capture  running on ".to_owned();
        out.append(capture.iface.as_str());
        out.append(" ch");
        out.append(decimal(capture.channel as u64).as_str());
        out.append(" for ");
        out.append(decimal(capture.duration_s).as_str());
        out.append("s\n");
    } else if let Some(capture) = snapshot.latest_capture() {
        if same(capture.state.as_str(), "failed") {
            out = "  capture  failed: ".to_owned();
            out.append(text_or_default(&capture.error, "no reason recorded"));
            out.append("\n");
        }
    }
    let mut busy = String::new();
    if let Some(sweep) = snapshot.running_sweep() {
        busy = "  sweep    running on ".to_owned();
        busy.append(sweep.band.as_str());
        busy.append(" (radio busy)\n");
    }
    out.append(busy.as_str());
    out
}

/// The name of a contact.
pub open spec fn contact_name(track: Track) -> Seq<char> {
    match track.identity {
        Some(identity) => identity.name(),
        None => "unknown"@,
    }
}

pub fn contact_text(track: &Track) -> (r: String)
    ensures
        r@ == contact_name(*track),
{
    match &track.identity {
        Some(identity) => identity.label(),
        None => "unknown".to_owned(),
    }
}

/// One track. A contact that nothing identified says so.
pub open spec fn track_line(t: Track) -> Seq<char> {
    "    "@ + padded_right(t.state@, 10) + " "@ + micro_text(t.confidence as int, 2) + "  "@
        + padded_right(contact_name(t), 20) + " "@ + dec(t.detection_count as nat) + "x  "@
        + joined(classes_of(t.evidence@), Seq::empty()) + (if t.is_identified() {
        ""@
    } else {
        "  (not identified)"@
    }) + "\n"@
}

fn write_track(t: &Track) -> (r: String)
    ensures
        r@ == track_line(*t),
{
    let mut out = "    ".to_owned();
    out.append(pad_right(t.state.as_str(), 10).as_str());
    out.append(" ");
    out.append(write_micro(t.confidence, 2).as_str());
    out.append("  ");
    out.append(pad_right(contact_text(t).as_str(), 20).as_str());
    out.append(" ");
    out.append(decimal(t.detection_count).as_str());
    out.append("x  ");
    out.append(t.evidence_classes().as_str());
    if t.identified() {
        out.append("");
    } else {
        out.append("  (not identified)");
    }
    out.append("\n");
    out
}

pub open spec fn track_lines(v: Seq<Track>) -> Seq<char>
    decreases v.len(),
{
    if v.len() == 0 {
        Seq::empty()
    } else {
        track_lines(v.drop_last()) + track_line(v.last())
    }
}

pub open spec fn track_section(page: Option<TrackPage>) -> Seq<char> {
    match page {
        Some(p) => "  tracks   "@ + dec(p.total as nat) + " live\n"@ + track_lines(p.tracks@),
        None => "  tracks   unavailable\n"@,
    }
}

fn write_tracks(page: &Option<TrackPage>) -> (r: String)
    ensures
        r@ == track_section(*page),
{
    match page {
        None => "  tracks   unavailable\n".to_owned(),
        Some(p) => {
            let mut list = String::new();
            let mut i: usize = 0;
            assert(p.tracks@.take(0) == Seq::<Track>::empty());
            while i < p.tracks.len()
                invariant
                    i <= p.tracks@.len(),
                    list@ == track_lines(p.tracks@.take(i as int)),
                decreases p.tracks@.len() - i,
            {
                assert(p.tracks@.take(i + 1).drop_last() == p.tracks@.take(i as int));
                assert(p.tracks@.take(i + 1).last() == p.tracks@[i as int]);
                list.append(write_track(&p.tracks[i]).as_str());
                i = i + 1;
            }
            assert(p.tracks@.take(i as int) == p.tracks@);
            let mut out = "  tracks   ".to_owned();
            out.append(decimal(p.total).as_str());
            out.append(" live\n");
            out.append(list.as_str());
            out
        },
    }
}

/// The signal strength and the tuning of a detection, as far as they are known.
pub open spec fn strength_of(d: Detection) -> Seq<char> {
    match d.rf {
        Some(rf) => match rf.rssi_dbm {
            Some(n) => micro_text(n as int, 0) + "dBm"@,
            None => Seq::empty(),
        },
        None => Seq::empty(),
    }
}

pub open spec fn tuning_of(d: Detection) -> Seq<char> {
    match d.rf {
        Some(rf) => text_or(rf.tuned(), Seq::empty()),
        None => Seq::empty(),
    }
}

pub fn tuning_text(d: &Detection) -> (r: String)
    ensures
        r@ == tuning_of(*d),
{
    match &d.rf {
        Some(rf) => match rf.tuning() {
            Some(t) => t,
            None => String::new(),
        },
        None => String::new(),
    }
}

/// One run of detections.
pub open spec fn detection_line(d: Detection, run: usize) -> Seq<char> {
    "    "@ + padded_right(d.sensor_kind@, 5) + " "@ + padded_right(
        lettered_class(d.detection_class@),
        15,
    ) + " "@ + padded_right(strength_of(d), 7) + " "@ + padded_right(tuning_of(d), 6) + " "@
        + d.name() + (if run <= 1 {
        Seq::empty()
    } else {
        " x"@ + dec(run as nat)
    }) + "\n"@
}

fn write_detection(d: &Detection, run: usize) -> (r: String)
    ensures
        r@ == detection_line(*d, run),
{
    let mut out = "    ".to_owned();
    out.append(pad_right(d.sensor_kind.as_str(), 5).as_str());
    out.append(" ");
    out.append(pad_right(class_label(d.detection_class.as_str()).as_str(), 15).as_str());
    out.append(" ");
    let strength = match &d.rf {
        Some(rf) => match rf.rssi_dbm {
            Some(n) => {
                let mut text = write_micro(n, 0);
                text.append("dBm");
                text
            },
            None => String::new(),
        },
        None => String::new(),
    };
    out.append(pad_right(strength.as_str(), 7).as_str());
    out.append(" ");
    out.append(pad_right(tuning_text(d).as_str(), 6).as_str());
    out.append(" ");
    out.append(d.label().as_str());
    let count = if run <= 1 {
        String::new()
    } else {
        let mut text = " x".to_owned();
        text.append(decimal(run as u64).as_str());
        text
    };
    out.append(count.as_str());
    out.append("\n");
    out
}

pub open spec fn detection_lines(v: Seq<Detection>, runs: Seq<Repeats>) -> Seq<char>
    decreases runs.len(),
{
    if runs.len() == 0 {
        Seq::empty()
    } else {
        detection_lines(v, runs.drop_last()) + detection_line(
            v[runs.last().first as int],
            runs.last().count,
        )
    }
}

/// The detections, folded as the pane folds them, so that the two views cannot
/// disagree about what happened.
pub open spec fn detection_section(page: Option<DetectionPage>) -> Seq<char> {
    match page {
        Some(p) => "  detects  "@ + dec(p.total as nat) + " total\n"@ + detection_lines(
            p.detections@,
            folded(p.detections@),
        ),
        None => "  detects  unavailable\n"@,
    }
}

fn write_detections(page: &Option<DetectionPage>) -> (r: String)
    ensures
        r@ == detection_section(*page),
{
    match page {
        None => "  detects  unavailable\n".to_owned(),
        Some(p) => {
            let runs = collapse_runs(&p.detections);
            let mut list = String::new();
            let mut i: usize = 0;
            assert(runs@.take(0) == Seq::<Repeats>::empty());
            while i < runs.len()
                invariant
                    i <= runs@.len(),
                    runs@ == folded(p.detections@),
                    forall|k: int|
                        0 <= k < runs@.len() ==> (#[trigger] runs@[k]).first < p.detections@.len(),
                    list@ == detection_lines(p.detections@, runs@.take(i as int)),
                decreases runs@.len() - i,
            {
                assert(runs@.take(i + 1).drop_last() == runs@.take(i as int));
                assert(runs@.take(i + 1).last() == runs@[i as int]);
                let run = runs[i];
                list.append(write_detection(&p.detections[run.first], run.count).as_str());
                i = i + 1;
            }
            assert(runs@.take(i as int) == runs@);
            let mut out = "  detects  ".to_owned();
            out.append(decimal(p.total).as_str());
            out.append(" total\n");
            out.append(list.as_str());
            out
        },
    }
}

/// The section on the detector.
pub open spec fn classg_section(snapshot: Snapshot, now: FlexTime) -> Seq<char> {
    match snapshot.health {
        None => "  not reachable: "@ + text_or(opt_view(snapshot.error), "unknown error"@)
            + "\n  start it with: make dev   (or set CLASSG_API)\n"@,
        Some(health) => "  status   "@ + health.status@ + "  up "@ + dec(health.uptime_s as nat)
            + "s  "@ + build_of(snapshot, health) + "\n"@ + store_line(snapshot.slow.system)
            + record_line(snapshot.monitoring) + refusal_lines(
            opt_view(snapshot.denied),
            snapshot.slow.auth,
            snapshot.credential,
        ) + sensor_lines(health.sensors@) + "  fusion   "@ + fusion_words(health.fusion, now)
            + "\n"@ + radio_use(snapshot) + track_section(snapshot.tracks) + detection_section(
            snapshot.detections,
        ),
    }
}

/// What the API said, as text.
pub fn print_classg(snapshot: &Snapshot, now: FlexTime) -> (r: String)
    ensures
        r@ == classg_section(*snapshot, now),
{
    match &snapshot.health {
        None => {
            let mut out = "  not reachable: ".to_owned();
            out.append(text_or_default(&snapshot.error, "unknown error"));
            out.append("\n  start it with: make dev   (or set CLASSG_API)\n");
            out
        },
        Some(health) => {
            let mut out = "  status   ".to_owned();
            out.append(health.status.as_str());
            out.append("  up ");
            out.append(decimal(health.uptime_s).as_str());
            out.append("s  ");
            out.append(build_text(snapshot, health).as_str());
            out.append("\n");
            out.append(write_store(&snapshot.slow.system).as_str());
            out.append(write_record(&snapshot.monitoring).as_str());
            out.append(write_refusal(snapshot).as_str());
            out.append(write_sensors(&health.sensors).as_str());
            out.append("  fusion   ");
            out.append(fusion_text(&health.fusion, now).as_str());
            out.append("\n");
            out.append(write_radio_use(snapshot).as_str());
            out.append(write_tracks(&snapshot.tracks).as_str());
            out.append(write_detections(&snapshot.detections).as_str());
            out
        },
    }
}

/// The whole snapshot.
pub open spec fn once_text(
    system: SystemPane,
    health: HealthPane,
    radios: RadiosPane,
    api: Seq<char>,
    snapshot: Snapshot,
    now: FlexTime,
) -> Seq<char> {
    system_section(system) + health_section(health) + radios_section(radios) + "\nclassg  "@ + api
        + "\n"@ + classg_section(snapshot, now)
}

/// One plain-text snapshot of everything.
pub fn print_once(
    system: &SystemPane,
    health: &HealthPane,
    radios: &RadiosPane,
    api: &str,
    snapshot: &Snapshot,
    now: FlexTime,
) -> (r: String)
    ensures
        r@ == once_text(*system, *health, *radios, api@, *snapshot, now),
{
    let mut out = write_system(system);
    out.append(write_health(health).as_str());
    out.append(write_radios(radios).as_str());
    out.append("\nclassg  ");
    out.append(api);
    out.append("\n");
    out.append(print_classg(snapshot, now).as_str());
    out
}

/// The line on recording tells a unit that records from one that does not: the
/// first says that it is on and never that it is paused, the second says that
/// it is paused and how many detections that has cost, and never that it is on.
pub proof fn record_line_tells_on_from_paused(state: MonitoringState)
    ensures
        state.enabled ==> record_line(Some(state)) == "  record   on\n"@ && !occurs_in(
            record_line(Some(state)),
            "PAUSED"@,
        ),
        !state.enabled ==> has_prefix(
            record_line(Some(state)),
            "  record   PAUSED  "@ + dec(state.discarded as nat) + " discarded"@,
        ) && !has_prefix(record_line(Some(state)), "  record   on"@),
{
    reveal_strlit("  record   on\n");
    reveal_strlit("PAUSED");
    reveal_strlit("  record   PAUSED  ");
    reveal_strlit("  record   on");
    let line = record_line(Some(state));
    if state.enabled {
        if occurs_in(line, "PAUSED"@) {
            let at = choose|at: int| occurs_at(line, "PAUSED"@, at);
            assert(line.subrange(at, at + 6)[0] == 'P');
            assert(line[at] == 'P');
            assert(line[at] == "  record   on\n"@[at]);
            assert(false);
        }
    } else {
        let head = "  record   PAUSED  "@ + dec(state.discarded as nat) + " discarded"@;
        reveal_strlit(" discarded");
        reveal_strlit(" discarded  ");
        let why = text_or(opt_view(state.reason), "no reason given"@);
        assert(" discarded  "@ == " discarded"@ + seq![' ', ' ']);
        assert(line == head + (seq![' ', ' '] + why + "\n"@));
        assert(line.take(head.len() as int) == head);
        assert(line[11] == 'P');
        if has_prefix(line, "  record   on"@) {
            assert(line.take("  record   on"@.len() as int)[11] == 'o');
        }
    }
}

/// What the section says before and behind the line on recording.
pub open spec fn around_record(snapshot: Snapshot, now: FlexTime) -> (Seq<char>, Seq<char>) {
    let health = snapshot.health->0;
    (
        "  status   "@ + health.status@ + "  up "@ + dec(health.uptime_s as nat) + "s  "@
            + build_of(snapshot, health) + "\n"@ + store_line(snapshot.slow.system),
        refusal_lines(
            opt_view(snapshot.denied),
            snapshot.slow.auth,
            snapshot.credential,
        ) + sensor_lines(health.sensors@) + "  fusion   "@ + fusion_words(health.fusion, now)
            + "\n"@ + radio_use(snapshot) + track_section(snapshot.tracks) + detection_section(
            snapshot.detections,
        ),
    )
}

proof fn lemma_around_record(snapshot: Snapshot, now: FlexTime)
    requires
        snapshot.health is Some,
    ensures
        ({
            let (head, tail) = around_record(snapshot, now);
            &&& classg_section(snapshot, now) == head + record_line(snapshot.monitoring) + tail
            &&& head.len() > 0
            &&& head.last() == '\n'
        }),
{
    let (head, tail) = around_record(snapshot, now);
    reveal_strlit("\n");
    assert(classg_section(snapshot, now) == head + record_line(snapshot.monitoring) + tail);
    if snapshot.slow.system is None {
        assert(head.last() == "\n"@.last());
    } else {
        let store = store_line(snapshot.slow.system);
        assert(store.last() == "\n"@.last());
        assert(head.last() == store.last());
    }
}

/// A unit that records says so on a line of its own, and nothing about
/// recording makes it say that it is paused: the word is there only where the
/// rest of the section has it.
pub proof fn recording_is_never_called_paused(snapshot: Snapshot, now: FlexTime)
    requires
        snapshot.health is Some,
        snapshot.monitoring is Some,
        snapshot.monitoring->0.enabled,
    ensures
        occurs_in(classg_section(snapshot, now), "\n  record   on\n"@),
        !occurs_in(classg_section((Snapshot { monitoring: None, ..snapshot }), now), "PAUSED"@)
            ==> !occurs_in(classg_section(snapshot, now), "PAUSED"@),
{
    let silent = Snapshot { monitoring: None, ..snapshot };
    let (head, tail) = around_record(snapshot, now);
    lemma_around_record(snapshot, now);
    lemma_around_record(silent, now);
    assert(around_record(silent, now) == (head, tail));
    let all = classg_section(snapshot, now);
    let rest = classg_section(silent, now);
    let line = "  record   on\n"@;
    assert(rest == head + tail);
    assert(all == head + line + tail);
    reveal_strlit("  record   on\n");
    reveal_strlit("\n  record   on\n");
    reveal_strlit("PAUSED");
    let at = head.len() - 1;
    assert(all.subrange(at, at + "\n  record   on\n"@.len()) == "\n  record   on\n"@);
    assert(occurs_at(all, "\n  record   on\n"@, at));
    if occurs_in(all, "PAUSED"@) {
        lemma_adds_no_word(head, line, tail, "PAUSED"@);
    }
}

/// A unit that is paused says so on a line of its own, with the number it has
/// discarded, and never has a line that says that recording is on: there is one
/// only where the rest of the section has it.
pub proof fn paused_is_never_called_recording(snapshot: Snapshot, now: FlexTime)
    requires
        snapshot.health is Some,
        snapshot.monitoring is Some,
        !snapshot.monitoring->0.enabled,
    ensures
        occurs_in(
            classg_section(snapshot, now),
            "\n  record   PAUSED  "@ + dec(snapshot.monitoring->0.discarded as nat)
                + " discarded"@,
        ),
        !occurs_in(
            classg_section((Snapshot { monitoring: None, ..snapshot }), now),
            "\n  record   on\n"@,
        ) && (snapshot.monitoring->0.reason matches Some(why) ==> !why@.contains('\n'))
            ==> !occurs_in(classg_section(snapshot, now), "\n  record   on\n"@),
{
    let state = snapshot.monitoring->0;
    let silent = Snapshot { monitoring: None, ..snapshot };
    let (head, tail) = around_record(snapshot, now);
    lemma_around_record(snapshot, now);
    lemma_around_record(silent, now);
    assert(head + record_line(None) + tail == head + tail);
    lemma_paused_stands(head, dec(state.discarded as nat), why_paused(state), tail);
    lemma_dec_is_no_space(state.discarded as nat);
    if state.reason is None {
        reveal_strlit("no reason given");
        let why = why_paused(state);
        if why.contains('\n') {
            let k = choose|k: int| 0 <= k < why.len() && why[k] == '\n';
            assert("no reason given"@[k] != '\n');
        }
    }
    if !why_paused(state).contains('\n') {
        lemma_paused_adds_no_line(head, dec(state.discarded as nat), why_paused(state), tail);
    }
}

spec fn why_paused(state: MonitoringState) -> Seq<char> {
    text_or(opt_view(state.reason), "no reason given"@)
}

spec fn paused_line(number: Seq<char>, why: Seq<char>) -> Seq<char> {
    "  record   PAUSED  "@ + number + " discarded  "@ + why + "\n"@
}

proof fn lemma_paused_stands(head: Seq<char>, number: Seq<char>, why: Seq<char>, tail: Seq<char>)
    requires
        head.len() > 0,
        head.last() == '\n',
    ensures
        occurs_in(
            head + paused_line(number, why) + tail,
            "\n  record   PAUSED  "@ + number + " discarded"@,
        ),
{
    reveal_strlit("  record   PAUSED  ");
    reveal_strlit("\n  record   PAUSED  ");
    reveal_strlit(" discarded");
    reveal_strlit(" discarded  ");
    let before = head.drop_last();
    let shown = "\n  record   PAUSED  "@ + number + " discarded"@;
    let after = seq![' ', ' '] + why + "\n"@ + tail;
    let told = "  record   PAUSED  "@ + number + " discarded"@;
    assert("\n  record   PAUSED  "@ == seq!['\n'] + "  record   PAUSED  "@);
    assert(" discarded  "@ == " discarded"@ + seq![' ', ' ']);
    assert(shown == seq!['\n'] + told);
    assert(paused_line(number, why) == told + (seq![' ', ' '] + why + "\n"@));
    assert(head == before + seq!['\n']);
    assert(head + paused_line(number, why) + tail == before + shown + after);
    lemma_part_of_sum(before, shown, after);
}

proof fn lemma_paused_adds_no_line(
    head: Seq<char>,
    number: Seq<char>,
    why: Seq<char>,
    tail: Seq<char>,
)
    requires
        head.len() > 0,
        head.last() == '\n',
        forall|i: int| 0 <= i < number.len() ==> !is_space(#[trigger] number[i]),
        !why.contains('\n'),
    ensures
        occurs_in(head + paused_line(number, why) + tail, "\n  record   on\n"@) ==> occurs_in(
            head + tail,
            "\n  record   on\n"@,
        ),
{
    let line = paused_line(number, why);
    let on = "  record   on\n"@;
    reveal_strlit("\n  record   on\n");
    reveal_strlit("  record   on\n");
    assert("\n  record   on\n"@ == seq!['\n'] + on);
    lemma_paused_is_one_line(number, why);
    assert(on[11] == 'o');
    assert(on.last() == '\n');
    assert(line != on);
    if occurs_in(head + line + tail, "\n  record   on\n"@) {
        lemma_adds_no_line(head, line, tail, on);
    }
}

proof fn lemma_paused_is_one_line(number: Seq<char>, why: Seq<char>)
    requires
        forall|i: int| 0 <= i < number.len() ==> !is_space(#[trigger] number[i]),
        !why.contains('\n'),
    ensures
        ({
            let line = "  record   PAUSED  "@ + number + " discarded  "@ + why + "\n"@;
            &&& line.len() > 12
            &&& line.last() == '\n'
            &&& line[11] == 'P'
            &&& forall|i: int| 0 <= i < line.len() - 1 ==> #[trigger] line[i] != '\n'
        }),
{
    reveal_strlit("  record   PAUSED  ");
    reveal_strlit(" discarded  ");
    reveal_strlit("\n");
    let line = "  record   PAUSED  "@ + number + " discarded  "@ + why + "\n"@;
    let a = "  record   PAUSED  "@.len();
    let b = a + number.len();
    let c = b + " discarded  "@.len();
    assert forall|i: int| 0 <= i < line.len() - 1 implies #[trigger] line[i] != '\n' by {
        if i < a {
            assert(line[i] == "  record   PAUSED  "@[i]);
        } else if i < b {
            assert(line[i] == number[i - a]);
            assert(!is_space(number[i - a]));
        } else if i < c {
            assert(line[i] == " discarded  "@[i - b]);
        } else {
            assert(line[i] == why[i - c]);
            assert(why.contains(why[i - c]));
        }
    }
}

/// The whole snapshot holds each of its sections, so that what a section says
/// is printed.
pub proof fn snapshot_holds_every_section(
    system: SystemPane,
    health: HealthPane,
    radios: RadiosPane,
    api: Seq<char>,
    snapshot: Snapshot,
    now: FlexTime,
)
    ensures
        ({
            let text = once_text(system, health, radios, api, snapshot, now);
            &&& occurs_in(text, system_section(system))
            &&& occurs_in(text, health_section(health))
            &&& occurs_in(text, radios_section(radios))
            &&& occurs_in(text, api)
            &&& has_suffix(text, classg_section(snapshot, now))
        }),
{
    lemma_sections_stand(
        system_section(system),
        health_section(health),
        radios_section(radios),
        "\nclassg  "@,
        api,
        "\n"@,
        classg_section(snapshot, now),
    );
}

proof fn lemma_sections_stand(
    s: Seq<char>,
    h: Seq<char>,
    r: Seq<char>,
    title: Seq<char>,
    api: Seq<char>,
    end: Seq<char>,
    c: Seq<char>,
)
    ensures
        ({
            let text = s + h + r + title + api + end + c;
            &&& occurs_in(text, s)
            &&& occurs_in(text, h)
            &&& occurs_in(text, r)
            &&& occurs_in(text, api)
            &&& has_suffix(text, c)
        }),
{
    let text = s + h + r + title + api + end + c;
    let none = Seq::<char>::empty();
    assert(text == none + s + (h + r + title + api + end + c));
    lemma_part_of_sum(none, s, h + r + title + api + end + c);
    assert(text == s + h + (r + title + api + end + c));
    lemma_part_of_sum(s, h, r + title + api + end + c);
    assert(text == s + h + r + (title + api + end + c));
    lemma_part_of_sum(s + h, r, title + api + end + c);
    assert(text == s + h + r + title + api + (end + c));
    lemma_part_of_sum(s + h + r + title, api, end + c);
    assert(text.skip(text.len() - c.len()) == c);
}

/// A sensor is called down exactly when the check holds it against the unit:
/// when it is not healthy and not optional. One that is down and optional is
/// off, and a healthy one is well.
pub proof fn sensor_is_called_what_the_check_finds(s: SensorHealth)
    ensures
        sensor_word(s) == "DOWN"@ <==> !s.healthy && !s.optional,
        sensor_word(s) == "DOWN"@ <==> sensors_found(seq![s]).len() == 1,
        sensor_word(s) == "off"@ <==> !s.healthy && s.optional,
        sensor_word(s) == "ok"@ <==> s.healthy,
{
    reveal_strlit("DOWN");
    reveal_strlit("off");
    reveal_strlit("ok");
    assert("DOWN"@.len() == 4 && "off"@.len() == 3 && "ok"@.len() == 2);
    assert(seq![s].drop_last() == Seq::<SensorHealth>::empty());
    assert(sensors_found(seq![s].drop_last()).len() == 0);
}

/// The link that makes tracks is called connected exactly when it is, and down
/// only where it should be up: one that was never configured is no fault.
pub proof fn fusion_is_down_only_where_configured(f: FusionHealth, now: FlexTime)
    ensures
        has_prefix(fusion_words(Some(f), now), "connected"@) <==> f.connected,
        has_prefix(fusion_words(Some(f), now), "DOWN"@) <==> !f.connected && f.configured,
        !f.connected && !f.configured ==> fusion_words(Some(f), now) == fusion_words(None, now),
        f.connected && f.last_message is None ==> occurs_in(
            fusion_words(Some(f), now),
            "no messages"@,
        ),
        !f.connected && f.configured ==> (f.reason matches Some(why) ==> occurs_in(
            fusion_words(Some(f), now),
            why@,
        )),
{
    let text = fusion_words(Some(f), now);
    reveal_strlit("connected");
    reveal_strlit("DOWN");
    reveal_strlit("DOWN  ");
    reveal_strlit("not configured");
    reveal_strlit("connected, last message ");
    reveal_strlit("connected, no messages yet");
    reveal_strlit("no messages");
    if f.connected {
        assert(text.take(9) == "connected"@);
        assert(text[0] == 'c');
        if f.last_message is None {
            assert(text.subrange(11, 22) == "no messages"@);
            assert(occurs_at(text, "no messages"@, 11));
        }
    } else if f.configured {
        let why = text_or(opt_view(f.reason), ""@);
        assert(text == "DOWN  "@ + why);
        assert(text.take(4) == "DOWN"@);
        assert(text[0] == 'D');
        lemma_part_of_sum("DOWN  "@, why, Seq::empty());
        assert("DOWN  "@ + why + Seq::<char>::empty() == text);
        if has_prefix(text, "connected"@) {
            assert(text.take(9)[0] == 'c');
        }
    } else {
        assert(text[0] == 'n');
    }
    if has_prefix(text, "connected"@) {
        assert(text.take(9)[0] == 'c');
    }
    if has_prefix(text, "DOWN"@) {
        assert(text.take(4)[0] == 'D');
    }
}

/// A contact that nothing but corroborating evidence speaks for is marked as
/// not identified, and no other is.
pub proof fn only_unidentified_contacts_are_marked(t: Track)
    ensures
        has_suffix(track_line(t), "  (not identified)\n"@) <== t.evidence@.len() > 0
            && (forall|i: int|
            0 <= i < t.evidence@.len() ==> (#[trigger] t.evidence@[i]).class@ == "C"@
                || t.evidence@[i].class@ == "D"@ || t.evidence@[i].class@ == "H"@),
        t.evidence@.len() == 0 ==> track_line(t) == "    "@ + padded_right(t.state@, 10) + " "@
            + micro_text(t.confidence as int, 2) + "  "@ + padded_right(contact_name(t), 20) + " "@
            + dec(t.detection_count as nat) + "x  \n"@,
        t.is_identified() ==> track_line(t) == "    "@ + padded_right(t.state@, 10) + " "@
            + micro_text(t.confidence as int, 2) + "  "@ + padded_right(contact_name(t), 20) + " "@
            + dec(t.detection_count as nat) + "x  "@ + joined(
            classes_of(t.evidence@),
            Seq::empty(),
        ) + "\n"@,
{
    only_other_classes_identify(t);
    let line = track_line(t);
    reveal_strlit("  (not identified)");
    reveal_strlit("  (not identified)\n");
    reveal_strlit("\n");
    reveal_strlit("");
    reveal_strlit("x  ");
    reveal_strlit("x  \n");
    assert("  (not identified)"@ + "\n"@ == "  (not identified)\n"@);
    if !t.is_identified() {
        let mark = "  (not identified)\n"@;
        assert(line.skip(line.len() - mark.len()) == mark);
    }
    if t.evidence@.len() == 0 {
        let head = "    "@ + padded_right(t.state@, 10) + " "@ + micro_text(
            t.confidence as int,
            2,
        ) + "  "@ + padded_right(contact_name(t), 20) + " "@ + dec(t.detection_count as nat);
        assert(line == head + "x  "@ + "\n"@);
        assert("x  "@ + "\n"@ == "x  \n"@);
        assert(line == head + "x  \n"@);
    }
    if t.is_identified() {
        assert(line == "    "@ + padded_right(t.state@, 10) + " "@ + micro_text(
            t.confidence as int,
            2,
        ) + "  "@ + padded_right(contact_name(t), 20) + " "@ + dec(t.detection_count as nat)
            + "x  "@ + joined(classes_of(t.evidence@), Seq::empty()) + "\n"@);
    }
}

/// The register is unknown where it could not be read, clean only where none of
/// its eight conditions is set, and otherwise told with the figure it was read
/// from.
pub proof fn register_is_told_as_it_is(t: Throttle)
    ensures
        throttle_words(None) == "unknown - no vcgencmd here"@,
        throttle_words(Some(t)) == "ok, clean since boot"@ <==> !t.now.under_voltage
            && !t.now.arm_capped && !t.now.throttled && !t.now.soft_temp_limit
            && !t.since_boot.under_voltage && !t.since_boot.arm_capped && !t.since_boot.throttled
            && !t.since_boot.soft_temp_limit,
        !t.nothing_set() ==> has_suffix(
            throttle_words(Some(t)),
            "(0x"@ + hex(t.raw as nat) + ")"@,
        ),
        !t.nothing_set() ==> occurs_in(
            throttle_words(Some(t)),
            "now ["@ + listed(t.now.said(Tense::Now)) + "]"@,
        ),
        !t.nothing_set() ==> occurs_in(
            throttle_words(Some(t)),
            "since boot ["@ + listed(t.since_boot.said(Tense::SinceBoot)) + "]"@,
        ),
{
    if !t.nothing_set() {
        let now = listed(t.now.said(Tense::Now));
        let past = listed(t.since_boot.said(Tense::SinceBoot));
        lemma_register_text(now, past, hex(t.raw as nat));
    }
}

proof fn lemma_register_text(now: Seq<char>, past: Seq<char>, raw: Seq<char>)
    ensures
        ({
            let text = "now ["@ + now + "]  since boot ["@ + past + "]  (0x"@ + raw + ")"@;
            &&& text != "ok, clean since boot"@
            &&& has_suffix(text, "(0x"@ + raw + ")"@)
            &&& occurs_in(text, "now ["@ + now + "]"@)
            &&& occurs_in(text, "since boot ["@ + past + "]"@)
        }),
{
    reveal_strlit("now [");
    reveal_strlit("]  since boot [");
    reveal_strlit("since boot [");
    reveal_strlit("]  (0x");
    reveal_strlit("(0x");
    reveal_strlit("]");
    reveal_strlit("ok, clean since boot");
    let text = "now ["@ + now + "]  since boot ["@ + past + "]  (0x"@ + raw + ")"@;
    assert(text[0] == 'n');
    assert("ok, clean since boot"@[0] == 'o');
    let tail = "(0x"@ + raw + ")"@;
    assert(text.skip(text.len() - tail.len()) == tail);
    let a = "now ["@ + now + "]"@;
    assert("]  since boot ["@ == "]"@ + ("  "@ + "since boot ["@)) by {
        reveal_strlit("  ");
    }
    let after_a = "  "@ + "since boot ["@ + past + "]  (0x"@ + raw + ")"@;
    assert(text == Seq::<char>::empty() + a + after_a);
    lemma_part_of_sum(Seq::empty(), a, after_a);
    let b = "since boot ["@ + past + "]"@;
    reveal_strlit("  ");
    let before_b = a + "  "@;
    let after_b = "  (0x"@ + raw + ")"@;
    reveal_strlit("  (0x");
    assert("]  (0x"@ == "]"@ + "  (0x"@);
    assert(text == before_b + b + after_b);
    lemma_part_of_sum(before_b, b, after_b);
}

/// A running capture is always told, with the interface and the channel of the
/// first that runs; a failed one only where none runs and it is the latest; and
/// a sweep that runs is told beside either.
pub proof fn radio_in_use_is_told(snapshot: Snapshot)
    ensures
        running_among(snapshot.captures()) matches Some(c) ==> has_prefix(
            radio_use(snapshot),
            "  capture  running on "@ + c.iface@ + " ch"@ + dec(c.channel as nat),
        ),
        running_among(snapshot.captures()) is None ==> (newest_capture(
            snapshot.captures(),
        ) matches Some(c) ==> c.state@ == "failed"@ ==> has_prefix(
            radio_use(snapshot),
            "  capture  failed: "@ + text_or(opt_view(c.error), "no reason recorded"@),
        )),
        sweeping_among(snapshot.sweeps()) matches Some(s) ==> occurs_in(
            radio_use(snapshot),
            "running on "@ + s.band@ + " (radio busy)"@,
        ),
        running_among(snapshot.captures()) is None && (newest_capture(
            snapshot.captures(),
        ) matches Some(c) ==> c.state@ != "failed"@) && sweeping_among(snapshot.sweeps()) is None
            ==> radio_use(snapshot).len() == 0,
{
    let text = radio_use(snapshot);
    if let Some(c) = running_among(snapshot.captures()) {
        let head = "  capture  running on "@ + c.iface@ + " ch"@ + dec(c.channel as nat);
        assert(text.take(head.len() as int) == head);
    } else if let Some(c) = newest_capture(snapshot.captures()) {
        if c.state@ == "failed"@ {
            let head = "  capture  failed: "@ + text_or(
                opt_view(c.error),
                "no reason recorded"@,
            );
            assert(text.take(head.len() as int) == head);
        }
    }
    if let Some(s) = sweeping_among(snapshot.sweeps()) {
        reveal_strlit("  sweep    running on ");
        reveal_strlit("running on ");
        reveal_strlit(" (radio busy)\n");
        reveal_strlit(" (radio busy)");
        let part = "running on "@ + s.band@ + " (radio busy)"@;
        let line = "  sweep    running on "@ + s.band@ + " (radio busy)\n"@;
        let before = text.take(text.len() - line.len());
        assert(text == before + line);
        assert(line == "  sweep    "@ + part + seq!['\n']) by {
            reveal_strlit("  sweep    ");
        }
        lemma_part_of_sum(before + "  sweep    "@, part, seq!['\n']);
        assert(text == before + "  sweep    "@ + part + seq!['\n']);
    }
}

/// A refusal is told in its own words, and what to do about it by what was sent.
pub proof fn refusal_is_told_with_its_remedy(
    denied: Seq<char>,
    auth: AuthState,
    credential: Option<CredentialKind>,
)
    ensures
        refusal_lines(None, Some(auth), credential).len() == 0,
        has_prefix(
            refusal_lines(Some(denied), Some(auth), credential),
            "  auth     refused: "@ + denied,
        ),
        auth.setup_required ==> refusal_advice(Some(auth), credential)
            == "           this unit has no accounts yet\n"@,
        !auth.setup_required && auth.auth_enabled && !auth.authenticated ==> match credential {
            Some(CredentialKind::Session) => occurs_in(
                refusal_advice(Some(auth), credential),
                "CLASSG_SESSION has expired"@,
            ),
            Some(CredentialKind::Local) => occurs_in(
                refusal_advice(Some(auth), credential),
                "the local-agent token was rejected; the API rewrites it on restart"@,
            ),
            None => occurs_in(
                refusal_advice(Some(auth), credential),
                "no local-agent token found; check .agent-state is readable"@,
            ),
        },
        !auth.setup_required && (!auth.auth_enabled || auth.authenticated) ==> refusal_advice(
            Some(auth),
            credential,
        ).len() == 0,
        refusal_advice(None, credential).len() == 0,
{
    let head = "  auth     refused: "@ + denied;
    let text = refusal_lines(Some(denied), Some(auth), credential);
    assert(text.take(head.len() as int) == head);
    lemma_part_of_sum("           "@, "CLASSG_SESSION has expired"@, "\n"@);
    lemma_part_of_sum(
        "           "@,
        "the local-agent token was rejected; the API rewrites it on restart"@,
        "\n"@,
    );
    lemma_part_of_sum(
        "           "@,
        "no local-agent token found; check .agent-state is readable"@,
        "\n"@,
    );
}

/// A run of detections says how many it holds where it holds more than one, and
/// is named by what was heard.
pub proof fn runs_say_how_many(d: Detection, run: usize)
    ensures
        run > 1 ==> has_suffix(
            detection_line(d, run),
            d.name() + " x"@ + dec(run as nat) + "\n"@,
        ),
        run <= 1 ==> has_suffix(detection_line(d, run), d.name() + "\n"@),
{
    let text = detection_line(d, run);
    let a = d.name() + " x"@ + dec(run as nat) + "\n"@;
    let b = d.name() + "\n"@;
    if run > 1 {
        assert(text.skip(text.len() - a.len()) == a);
    } else {
        assert(text.skip(text.len() - b.len()) == b);
    }
}

/// The letter of a class is always shown, and its name behind it where it has
/// one.
pub proof fn letter_of_a_class_survives(code: Seq<char>)
    ensures
        has_prefix(lettered_class(code), code),
        class_name(code).len() > 0 ==> has_suffix(lettered_class(code), class_name(code)),
        class_name(code).len() == 0 ==> lettered_class(code) == code,
{
    let text = lettered_class(code);
    assert(text.take(code.len() as int) == code);
    if class_name(code).len() > 0 {
        assert(text.skip(text.len() - class_name(code).len()) == class_name(code));
    }
}

/// A process is shown by its arguments, and by its name in brackets only where
/// it has none.
pub proof fn command_is_the_arguments(row: Row)
    ensures
        row.cmdline.len() > 0 ==> command_of(row) == row.cmdline,
        row.cmdline.len() == 0 ==> command_of(row) == "["@ + row.name + "]"@,
{
}

/// Memory in use is what is not available, of the whole.
pub proof fn memory_in_use_is_what_is_not_available(s: SystemPane)
    requires
        s.mem.available_kb <= s.mem.total_kb,
    ensures
        memory_share(s).num + s.mem.available_kb == memory_share(s).den,
        memory_share(s).den == s.mem.total_kb,
{
}

/// The clock is told against the most it can be where that is known, alone where
/// it is not, and as unknown where it could not be read.
pub proof fn clock_is_told_against_its_most(now: u64, most: u64)
    ensures
        clock_words(Some(now), Some(most)) == dec(now as nat) + "/"@ + dec(most as nat) + " MHz"@,
        clock_words(Some(now), None) == dec(now as nat) + " MHz"@,
        clock_words(None, Some(most)) == "?"@,
        clock_words(None, None) == "?"@,
{
}

/// Only the first five processes are printed, in their order.
pub proof fn only_five_processes_are_printed(rows: Seq<Row>)
    ensures
        first_five(rows).len() == (if rows.len() < 5 {
            rows.len()
        } else {
            5
        }),
        forall|i: int| 0 <= i < first_five(rows).len() ==> #[trigger] first_five(rows)[i] == rows[i],
{
}

/// An interface in monitor mode is printed as one, and no other is.
pub proof fn monitor_mode_is_printed(mode: Option<WirelessMode>)
    ensures
        mode_words(mode) == "monitor"@ <==> mode == Some(WirelessMode::Monitor),
        mode_words(mode) == "managed"@ <==> mode == Some(WirelessMode::Managed),
{
    reveal_strlit("monitor");
    reveal_strlit("managed");
    reveal_strlit("");
    assert("monitor"@[1] == 'o' && "managed"@[1] == 'a');
    assert("monitor"@.len() == 7 && "managed"@.len() == 7 && ""@.len() == 0);
}

/// The build with its revision is told where the unit gave it, and otherwise the
/// bare version.
pub proof fn build_is_told_as_known(snapshot: Snapshot, health: HealthResponse)
    ensures
        snapshot.slow.system is None ==> build_of(snapshot, health) == health.version@,
        snapshot.slow.system matches Some(s) ==> has_prefix(
            build_of(snapshot, health),
            s.build.version@,
        ),
{
    if let Some(s) = snapshot.slow.system {
        build_names_its_revision(s);
    }
}

/// A unit that does not answer is told with the reason, and with nothing that it
/// did not say.
pub proof fn unreachable_unit_says_why(snapshot: Snapshot, now: FlexTime)
    requires
        snapshot.health is None,
    ensures
        snapshot.error matches Some(e) ==> has_prefix(
            classg_section(snapshot, now),
            "  not reachable: "@ + e@,
        ),
        snapshot.error is None ==> has_prefix(
            classg_section(snapshot, now),
            "  not reachable: unknown error"@,
        ),
{
    let text = classg_section(snapshot, now);
    if let Some(e) = snapshot.error {
        let head = "  not reachable: "@ + e@;
        assert(text.take(head.len() as int) == head);
    } else {
        reveal_strlit("  not reachable: ");
        reveal_strlit("unknown error");
        reveal_strlit("  not reachable: unknown error");
        let head = "  not reachable: unknown error"@;
        assert(head == "  not reachable: "@ + "unknown error"@);
        assert(text.take(head.len() as int) == head);
    }
}

} // verus!
