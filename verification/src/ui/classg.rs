//! The ClassG pane.
//!
//! It answers one question in the order in which an operator asks it: is the
//! unit recording, are the sensors alive, is fusion producing tracks, is
//! anything holding a radio, and only then what is in the sky. Everything above
//! the track list is a reason why the list might be empty.

use vstd::prelude::*;

use super::{heading_style, if_fits, push_if_fits, table_header, Look};
use super::gauge::{parts_of_peak, scale_to_peak, spark_runs, sparkline, Ramp};
use super::system::{clamped, least_of, minus};
use crate::check::{status_found, worst, worst_finding_decides, Verdict};
use crate::format::{
    age_text, clip, clipped, coarse_uptime, coarse_uptime_text, compact_count, count_text,
    human_bytes, short_age, size_kb,
};
use crate::numeric::{micro_text, write_micro};
use crate::paint::{
    add_line, add_lines, bold_style, fg_style, no_lines, plain_style, run, shows, strong_style,
    Color, Line, Run, Style, BAD, DIM, OK, WARN,
};
use crate::panes::classg::{
    capture_times, class_name, collapse_runs, copy_counts, corroborates_only, counts_of,
    detection_class_label, folded, folding_keeps_every_detection, is_corroborating_only,
    newest_capture, newest_is_the_newest, newest_sweep, only_other_classes_identify, running_among,
    running_capture_is_the_first, running_sweep_is_the_first, sweeping_among, traced, AuthState,
    Capture, ClassgPane, CredentialKind, Detection, DetectionPage, FlexTime, FusionHealth,
    HealthResponse, MonitoringState, RowHints, SensorHealth, Snapshot, SpectrumSweep, SystemInfo,
    Trace, Traced, Track, TrackPage, MAX_DETECTION_ROWS,
};
use crate::snapshot::{
    beat_of, beat_text, build_of, build_text, contact_name, contact_text,
    sensor_is_called_what_the_check_finds, sensor_state, sensor_word, tuning_of, tuning_text,
};
use crate::text::{
    add_text, dec, decimal, given, has_prefix, has_suffix, join, joined, lemma_part_of_sum,
    no_texts, occurs_in, opt_view, pad_left, pad_right, padded_left, padded_right, push_text, same,
    text_or, text_or_default, texts,
};

verus! {

/// The gutter of this pane: two blanks and a label of ten columns.
pub const LABEL_GUTTER: usize = 12;

/// From this width on, the detections table has a sensor column: the same word
/// on every row of a unit with one sensor, and on one with two the difference
/// between working and half working.
pub const SENSOR_COLUMN_AT: usize = 54;

pub open spec fn labelled_runs(label: Seq<char>, value: Seq<Run>) -> Seq<Run> {
    seq![run("  "@ + padded_right(label, 10), fg_style(DIM))] + value
}

/// A label in this pane's gutter, and a value behind it.
fn labelled(label: &str, value: Line) -> (r: Line)
    ensures
        r@ == labelled_runs(label@, value@),
{
    let mut text = "  ".to_owned();
    text.append(pad_right(label, 10).as_str());
    let mut line = Line::of(text, Style::fg(DIM));
    line.extend(value);
    line
}

/// A run of what matters less.
pub open spec fn dim_run(text: Seq<char>) -> Run {
    run(text, fg_style(DIM))
}

/// An age as it is shown.
pub open spec fn age_words(ts: FlexTime, now: FlexTime) -> Seq<char> {
    age_text(ts.age(now))
}

fn write_age(ts: &FlexTime, now: FlexTime) -> (r: String)
    ensures
        r@ == age_words(*ts, now),
{
    short_age(ts.age_secs(now))
}

/// What is shown of an API that is not up: where it was looked for, and how to
/// start it. That is a normal state of a bare machine, not an error.
#[verifier::opaque]
pub open spec fn unreachable_lines(error: Option<Seq<char>>, base: Seq<char>) -> Seq<Seq<Run>> {
    seq![
        seq![run("  not reachable"@, fg_style(WARN)), dim_run(" at "@ + base)],
        seq![
            dim_run(
                match error {
                    Some(e) => "  "@ + e,
                    None => "  connecting…"@,
                },
            ),
        ],
        Seq::empty(),
        seq![dim_run("  start it with: make dev   (or set CLASSG_API)"@)],
    ]
}

fn draw_unreachable(error: &Option<String>, base: &str) -> (r: Vec<Line>)
    ensures
        shows(r@) == unreachable_lines(opt_view(*error), base@),
{
    proof {
        reveal(unreachable_lines);
    }
    let mut lines = no_lines();
    let mut first = Line::of("  not reachable".to_owned(), Style::fg(WARN));
    let mut at = " at ".to_owned();
    at.append(base);
    first.push(at, Style::fg(DIM));
    assert(first@ == seq![run("  not reachable"@, fg_style(WARN)), dim_run(" at "@ + base@)]);
    add_line(&mut lines, first);
    let text = match error {
        Some(e) => {
            let mut out = "  ".to_owned();
            out.append(e.as_str());
            out
        },
        None => "  connecting…".to_owned(),
    };
    add_line(&mut lines, Line::of(text, Style::fg(DIM)));
    add_line(&mut lines, Line::new());
    add_line(
        &mut lines,
        Line::of("  start it with: make dev   (or set CLASSG_API)".to_owned(), Style::fg(DIM)),
    );
    assert(shows(lines@) == unreachable_lines(opt_view(*error), base@));
    lines
}

/// The colour of the API's own verdict.
pub open spec fn status_color(status: Seq<char>) -> Color {
    if status == "ok"@ || status == "healthy"@ {
        OK
    } else if status == "degraded"@ {
        WARN
    } else {
        BAD
    }
}

/// What the unit says of itself, and which build it is.
#[verifier::opaque]
pub open spec fn status_row(snapshot: Snapshot, health: HealthResponse, width: nat) -> Seq<Run> {
    seq![
        run("  "@ + health.status@, bold_style(status_color(health.status@))),
        dim_run(
            "   up "@ + coarse_uptime_text(health.uptime_s as nat) + "   "@ + clipped(
                build_of(snapshot, health),
                minus(width as int, 24) as nat,
            ),
        ),
    ]
}

fn draw_status(snapshot: &Snapshot, health: &HealthResponse, width: usize) -> (r: Line)
    ensures
        r@ == status_row(*snapshot, *health, width as nat),
{
    proof {
        reveal(status_row);
    }
    let status = health.status.as_str();
    let color = if same(status, "ok") || same(status, "healthy") {
        OK
    } else if same(status, "degraded") {
        WARN
    } else {
        BAD
    };
    let mut word = "  ".to_owned();
    word.append(status);
    let mut line = Line::of(word, Style::bold(color));
    let mut text = "   up ".to_owned();
    text.append(coarse_uptime(health.uptime_s).as_str());
    text.append("   ");
    text.append(clip(build_text(snapshot, health).as_str(), width.saturating_sub(24)).as_str());
    line.push(text, Style::fg(DIM));
    assert(line@ == status_row(*snapshot, *health, width as nat));
    line
}

/// The store, and how it runs.
pub open spec fn store_words(system: SystemInfo) -> Seq<char> {
    let a = if system.runtime.containerised {
        system.runtime.store@ + " · docker"@
    } else {
        system.runtime.store@
    };
    let b = if system.runtime.turso_sync_configured {
        a + " · sync"@
    } else {
        a
    };
    padded_right(b, 10) + "  "@
}

/// How much of the store's disk is left, of how much where that fits in some
/// columns: a size cut at the frame is a different and worse number.
pub open spec fn store_figure(free: u64, total: u64, room: int) -> Seq<char> {
    let short = size_kb(free as nat / 1024) + " free"@;
    let full = short + " of "@ + size_kb(total as nat / 1024);
    if full.len() <= room {
        full
    } else {
        short
    }
}

/// Amber under a tenth left: a full store stops recording.
pub open spec fn store_color(free: u64, total: u64) -> Color {
    if total > 0 && free * 10 < total {
        WARN
    } else {
        DIM
    }
}

/// The store that detections land on. A disk that could not be read is said to
/// be unreadable, never to have nothing free.
#[verifier::opaque]
pub open spec fn store_row(system: SystemInfo, width: nat) -> Seq<Run> {
    let detail = store_words(system);
    labelled_runs(
        "store"@,
        seq![
            run(detail, plain_style()),
            match (system.host.disk_free_bytes, system.host.disk_total_bytes) {
                (Some(free), Some(total)) => run(
                    store_figure(free, total, width - LABEL_GUTTER - detail.len()),
                    fg_style(store_color(free, total)),
                ),
                _ => dim_run("disk unreadable"@),
            },
        ],
    )
}

fn draw_store(system: &SystemInfo, width: usize) -> (r: Line)
    ensures
        r@ == store_row(*system, width as nat),
{
    proof {
        reveal(store_row);
    }
    let mut detail = system.runtime.store.clone();
    if system.runtime.containerised {
        detail.append(" · docker");
    }
    if system.runtime.turso_sync_configured {
        detail.append(" · sync");
    }
    let mut detail = pad_right(detail.as_str(), 10);
    detail.append("  ");
    assert(detail@ == store_words(*system));
    let len: usize = detail.as_str().unicode_len();
    let mut line = Line::of(detail, Style::plain());
    match (system.host.disk_free_bytes, system.host.disk_total_bytes) {
        (Some(free), Some(total)) => {
            let color = if total > 0 && free as u128 * 10 < total as u128 {
                WARN
            } else {
                DIM
            };
            let mut short = human_bytes(free);
            short.append(" free");
            let mut full = short.clone();
            full.append(" of ");
            full.append(human_bytes(total).as_str());
            let wanted: usize = full.as_str().unicode_len();
            let fits = len <= width && LABEL_GUTTER <= width - len && wanted <= width - len
                - LABEL_GUTTER;
            line.push(
                if fits {
                    full
                } else {
                    short
                },
                Style::fg(color),
            );
        },
        _ => line.push_str("disk unreadable", Style::fg(DIM)),
    }
    assert(line@.len() == 2);
    labelled("store", line)
}

/// Whether the unit records. A pause says what it has cost: one with detections
/// piling up behind it is a pause somebody forgot about.
#[verifier::opaque]
pub open spec fn recording_row(state: MonitoringState, now: FlexTime) -> Seq<Run> {
    labelled_runs(
        "recording"@,
        if state.enabled {
            seq![
                run("on"@, fg_style(OK)),
                dim_run(
                    match state.since {
                        Some(ts) => "   since "@ + age_words(ts, now) + " ago"@,
                        None => ""@,
                    },
                ),
            ]
        } else {
            seq![
                run("PAUSED"@, bold_style(BAD)),
                dim_run(
                    "  "@ + count_text(state.discarded as nat) + " discarded"@ + match state.since {
                        Some(ts) => ", "@ + age_words(ts, now),
                        None => ""@,
                    },
                ),
            ]
        },
    )
}

fn draw_recording(state: &MonitoringState, now: FlexTime) -> (r: Line)
    ensures
        r@ == recording_row(*state, now),
{
    proof {
        reveal(recording_row);
    }
    if state.enabled {
        let mut line = Line::of("on".to_owned(), Style::fg(OK));
        match &state.since {
            Some(ts) => {
                let mut text = "   since ".to_owned();
                text.append(write_age(ts, now).as_str());
                text.append(" ago");
                line.push(text, Style::fg(DIM));
            },
            None => line.push_str("", Style::fg(DIM)),
        }
        assert(line@.len() == 2);
        let r = labelled("recording", line);
        assert(r@ == recording_row(*state, now));
        r
    } else {
        let mut line = Line::of("PAUSED".to_owned(), Style::bold(BAD));
        let mut text = "  ".to_owned();
        text.append(compact_count(state.discarded).as_str());
        text.append(" discarded");
        let mut since = "".to_owned();
        if let Some(ts) = &state.since {
            since = ", ".to_owned();
            since.append(write_age(ts, now).as_str());
        }
        text.append(since.as_str());
        line.push(text, Style::fg(DIM));
        assert(line@.len() == 2);
        let r = labelled("recording", line);
        assert(r@ == recording_row(*state, now));
        r
    }
}

/// Why it is paused, where somebody said.
pub open spec fn pause_reason(state: MonitoringState) -> Option<Seq<char>> {
    match state.reason {
        Some(reason) if reason@.len() > 0 && !state.enabled => Some(reason@),
        _ => None,
    }
}

/// The recording switch, with the reason for a pause under it.
pub open spec fn recording_lines(
    state: Option<MonitoringState>,
    now: FlexTime,
    width: nat,
) -> Seq<Seq<Run>> {
    match state {
        None => Seq::empty(),
        Some(s) => {
            let first = seq![recording_row(s, now)];
            match pause_reason(s) {
                None => first,
                Some(reason) => first.push(
                    seq![
                        dim_run("            "@ + clipped(reason, minus(width as int, 13) as nat)),
                    ],
                ),
            }
        },
    }
}

fn draw_recording_lines(state: &Option<MonitoringState>, now: FlexTime, width: usize) -> (r: Vec<
    Line,
>)
    ensures
        shows(r@) == recording_lines(*state, now, width as nat),
{
    let mut lines = no_lines();
    if let Some(s) = state {
        add_line(&mut lines, draw_recording(s, now));
        assert(shows(lines@) == seq![recording_row(*s, now)]);
        if let Some(reason) = &s.reason {
            if reason.as_str().unicode_len() > 0 && !s.enabled {
                let mut text = "            ".to_owned();
                text.append(clip(reason.as_str(), width.saturating_sub(13)).as_str());
                add_line(&mut lines, Line::of(text, Style::fg(DIM)));
            }
        }
    }
    lines
}

/// What to do about a credential that the API would not take. Which one went
/// out decides it.
pub open spec fn remedy_words(credential: Option<CredentialKind>) -> (Seq<char>, Seq<char>) {
    match credential {
        Some(CredentialKind::Local) => ("rejected"@, "token rotated, re-reading"@),
        Some(CredentialKind::Session) => ("rejected"@, "CLASSG_SESSION expired"@),
        None => ("no token"@, ".agent-state unreadable?"@),
    }
}

pub fn remedy(credential: Option<CredentialKind>) -> (r: (&'static str, &'static str))
    ensures
        (r.0@, r.1@) == remedy_words(credential),
{
    match credential {
        Some(CredentialKind::Local) => ("rejected", "token rotated, re-reading"),
        Some(CredentialKind::Session) => ("rejected", "CLASSG_SESSION expired"),
        None => ("no token", ".agent-state unreadable?"),
    }
}

/// Who the poller is logged in as.
#[verifier::opaque]
pub open spec fn session_row(
    auth: AuthState,
    credential: Option<CredentialKind>,
    width: nat,
) -> Seq<Run> {
    labelled_runs(
        "session"@,
        if auth.setup_required {
            seq![run("this unit has no accounts yet"@, fg_style(WARN))]
        } else {
            match auth.user {
                Some(user) => seq![
                    run(user.username@, fg_style(OK)),
                    dim_run("  "@ + user.role@),
                ],
                None => {
                    let words = remedy_words(credential);
                    if_fits(
                        seq![run(words.0, fg_style(WARN))],
                        LABEL_GUTTER as nat + words.0.len(),
                        width,
                        "  "@ + words.1,
                    )
                },
            }
        },
    )
}

fn draw_session(auth: &AuthState, credential: Option<CredentialKind>, width: usize) -> (r: Line)
    ensures
        r@ == session_row(*auth, credential, width as nat),
{
    proof {
        reveal(session_row);
    }
    let line = if auth.setup_required {
        Line::of("this unit has no accounts yet".to_owned(), Style::fg(WARN))
    } else {
        match &auth.user {
            Some(user) => {
                let mut line = Line::of(user.username.clone(), Style::fg(OK));
                let mut role = "  ".to_owned();
                role.append(user.role.as_str());
                line.push(role, Style::fg(DIM));
                assert(line@ == seq![
                    run(user.username@, fg_style(OK)),
                    dim_run("  "@ + user.role@),
                ]);
                line
            },
            None => {
                let (state, detail) = remedy(credential);
                let mut line = Line::of(state.to_owned(), Style::fg(WARN));
                let len: usize = state.unicode_len();
                let mut text = "  ".to_owned();
                text.append(detail);
                if len <= usize::MAX - LABEL_GUTTER {
                    let mut used: usize = LABEL_GUTTER + len;
                    push_if_fits(&mut line, &mut used, width, text);
                }
                line
            },
        }
    };
    labelled("session", line)
}

/// The session, only where authentication is switched on: with it off, a line
/// that says so on every frame is noise.
pub open spec fn session_lines(snapshot: Snapshot, width: nat) -> Seq<Seq<Run>> {
    match snapshot.slow.auth {
        Some(auth) if auth.auth_enabled => seq![
            session_row(auth, snapshot.credential, width),
        ],
        _ => Seq::empty(),
    }
}

/// A refusal, said once.
pub open spec fn refused_lines(denied: Option<Seq<char>>, width: nat) -> Seq<Seq<Run>> {
    match denied {
        Some(message) => seq![
            labelled_runs(
                "refused"@,
                seq![
                    run(
                        clipped(message, minus(width as int, 13) as nat),
                        fg_style(WARN),
                    ),
                ],
            ),
        ],
        None => Seq::empty(),
    }
}

/// The store's line, where the unit has said what it runs on.
pub open spec fn store_lines(system: Option<SystemInfo>, width: nat) -> Seq<Seq<Run>> {
    match system {
        Some(s) => seq![store_row(s, width)],
        None => Seq::empty(),
    }
}

/// What the unit is, and whether it is recording.
pub open spec fn status_lines(
    snapshot: Snapshot,
    health: HealthResponse,
    now: FlexTime,
    width: nat,
) -> Seq<Seq<Run>> {
    (seq![status_row(snapshot, health, width)] + store_lines(snapshot.slow.system, width)
        + recording_lines(snapshot.monitoring, now, width) + session_lines(snapshot, width)
        + refused_lines(opt_view(snapshot.denied), width)).push(Seq::empty())
}

fn draw_status_lines(
    snapshot: &Snapshot,
    health: &HealthResponse,
    now: FlexTime,
    width: usize,
) -> (r: Vec<Line>)
    ensures
        shows(r@) == status_lines(*snapshot, *health, now, width as nat),
{
    let mut lines = no_lines();
    add_line(&mut lines, draw_status(snapshot, health, width));
    let ghost a = seq![status_row(*snapshot, *health, width as nat)];
    assert(shows(lines@) == a);
    if let Some(system) = &snapshot.slow.system {
        add_line(&mut lines, draw_store(system, width));
    }
    let ghost b = a + store_lines(snapshot.slow.system, width as nat);
    assert(shows(lines@) == b);
    add_lines(&mut lines, draw_recording_lines(&snapshot.monitoring, now, width));
    let ghost c = b + recording_lines(snapshot.monitoring, now, width as nat);
    if let Some(auth) = &snapshot.slow.auth {
        if auth.auth_enabled {
            add_line(&mut lines, draw_session(auth, snapshot.credential, width));
        }
    }
    let ghost d = c + session_lines(*snapshot, width as nat);
    assert(shows(lines@) == d);
    if let Some(denied) = &snapshot.denied {
        add_line(
            &mut lines,
            labelled(
                "refused",
                Line::of(clip(denied.as_str(), width.saturating_sub(13)), Style::fg(WARN)),
            ),
        );
    }
    let ghost e = d + refused_lines(opt_view(snapshot.denied), width as nat);
    assert(shows(lines@) == e);
    add_line(&mut lines, Line::new());
    lines
}

/// Columns of a sensor's row without its trace.
pub const SENSOR_FIXED: usize = 38;

/// Cells of a sensor's trace at its widest, and the fewest that still have a
/// shape.
pub const TRACE_CELLS: usize = 15;

pub const TRACE_MIN_CELLS: usize = 8;

/// The width of the trace, which is dropped where there is no room for it.
pub open spec fn trace_cells(width: int) -> int {
    let room = minus(width, SENSOR_FIXED + 2);
    if room < TRACE_MIN_CELLS {
        0
    } else {
        least_of(room, TRACE_CELLS as int)
    }
}

fn trace_width(width: usize) -> (r: usize)
    ensures
        r == trace_cells(width as int),
        r <= TRACE_CELLS,
{
    let room: usize = width.saturating_sub(SENSOR_FIXED + 2);
    if room < TRACE_MIN_CELLS {
        0
    } else if room < TRACE_CELLS {
        room
    } else {
        TRACE_CELLS
    }
}

pub open spec fn sensor_color(s: SensorHealth) -> Color {
    if s.healthy {
        OK
    } else if s.optional {
        WARN
    } else {
        BAD
    }
}

/// A heartbeat that has stopped is what its column is for, so it stops being
/// dim.
pub open spec fn beat_color(s: SensorHealth) -> Color {
    match s.seconds_since_heartbeat {
        Some(n) if n > 30 => WARN,
        _ => DIM,
    }
}

/// One sensor, and what it has heard over the last quarter of an hour, scaled
/// to its own peak: a radio that goes quiet keeps its heartbeat.
#[verifier::opaque]
pub open spec fn sensor_row(
    s: SensorHealth,
    counts: Seq<u64>,
    look: Look,
    cells: nat,
) -> Seq<Run> {
    let line = seq![
        run("   "@ + padded_right(clipped(s.sensor_id@, 10), 11), plain_style()),
        dim_run(padded_right(clipped(s.sensor_kind@, 5), 6)),
        run(padded_right(sensor_word(s), 6), fg_style(sensor_color(s))),
        run(padded_left(beat_of(s), 5), fg_style(beat_color(s))),
        dim_run(padded_left(count_text(s.detections_5m as nat), 7)),
    ];
    if cells > 0 {
        line.push(run("  "@, plain_style())) + spark_runs(
            look.depth,
            parts_of_peak(counts),
            cells,
            look.glyphs,
            Ramp::Cool,
        )
    } else {
        line
    }
}

fn draw_sensor(s: &SensorHealth, counts: &Vec<u64>, look: Look, cells: usize) -> (r: Line)
    requires
        cells <= TRACE_CELLS,
    ensures
        r@ == sensor_row(*s, counts@, look, cells as nat),
{
    proof {
        reveal(sensor_row);
    }
    let mut id = "   ".to_owned();
    id.append(pad_right(clip(s.sensor_id.as_str(), 10).as_str(), 11).as_str());
    let mut line = Line::of(id, Style::plain());
    line.push(pad_right(clip(s.sensor_kind.as_str(), 5).as_str(), 6), Style::fg(DIM));
    let color = if s.healthy {
        OK
    } else if s.optional {
        WARN
    } else {
        BAD
    };
    line.push(pad_right(sensor_state(s), 6), Style::fg(color));
    let beat = match s.seconds_since_heartbeat {
        Some(n) => if n > 30 {
            WARN
        } else {
            DIM
        },
        None => DIM,
    };
    line.push(pad_left(beat_text(s).as_str(), 5), Style::fg(beat));
    line.push(pad_left(compact_count(s.detections_5m).as_str(), 7), Style::fg(DIM));
    if cells > 0 {
        line.push_str("  ", Style::plain());
        line.extend(
            sparkline(look.depth, &scale_to_peak(counts), cells, look.glyphs, Ramp::Cool),
        );
    }
    line
}

/// Why a sensor is down is the point of looking at it, so it has its own line.
pub open spec fn sensor_block(
    s: SensorHealth,
    counts: Seq<u64>,
    look: Look,
    width: nat,
) -> Seq<Seq<Run>> {
    let first = seq![sensor_row(s, counts, look, trace_cells(width as int) as nat)];
    match given(opt_view(s.reason)) {
        Some(reason) => first.push(
            seq![
                run(
                    "     "@ + clipped(reason, minus(width as int, 6) as nat),
                    fg_style(WARN),
                ),
            ],
        ),
        None => first,
    }
}

/// The rows of the first `n` sensors.
pub open spec fn sensor_blocks(
    sensors: Seq<SensorHealth>,
    traces: Seq<Traced>,
    look: Look,
    width: nat,
    n: nat,
) -> Seq<Seq<Run>>
    decreases n,
{
    if n == 0 {
        Seq::empty()
    } else {
        sensor_blocks(sensors, traces, look, width, (n - 1) as nat) + sensor_block(
            sensors[n - 1],
            counts_of(traces, sensors[n - 1].sensor_id@),
            look,
            width,
        )
    }
}

pub open spec fn sensor_heading(width: int) -> Seq<char> {
    let text = "   "@ + padded_right("SENSOR"@, 11) + padded_right("KIND"@, 6) + padded_right(
        "STATE"@,
        6,
    ) + padded_left("BEAT"@, 5) + padded_left("5MIN"@, 7);
    if trace_cells(width) > 0 {
        text + "  15 MIN"@
    } else {
        text
    }
}

fn write_sensor_heading(width: usize) -> (r: String)
    ensures
        r@ == sensor_heading(width as int),
{
    let mut out = "   ".to_owned();
    out.append(pad_right("SENSOR", 11).as_str());
    out.append(pad_right("KIND", 6).as_str());
    out.append(pad_right("STATE", 6).as_str());
    out.append(pad_left("BEAT", 5).as_str());
    out.append(pad_left("5MIN", 7).as_str());
    if trace_width(width) > 0 {
        out.append("  15 MIN");
    }
    out
}

/// The sensors. An API that knows of none has no basis to claim anything about
/// the sky, so that is not called quiet.
pub open spec fn sensor_lines(
    sensors: Seq<SensorHealth>,
    traces: Seq<Traced>,
    look: Look,
    width: nat,
) -> Seq<Seq<Run>> {
    let head = seq![seq![run("  sensors"@, strong_style())]];
    if sensors.len() == 0 {
        head.push(seq![dim_run("   no sensors reporting"@)])
    } else {
        head.push(seq![run(sensor_heading(width as int), heading_style())]) + sensor_blocks(
            sensors,
            traces,
            look,
            width,
            sensors.len(),
        )
    }
}

fn draw_sensors(sensors: &Vec<SensorHealth>, traces: &Vec<Trace>, look: Look, width: usize) -> (r:
    Vec<Line>)
    ensures
        shows(r@) == sensor_lines(sensors@, traced(traces@), look, width as nat),
{
    let mut lines = no_lines();
    add_line(&mut lines, Line::of("  sensors".to_owned(), Style::strong()));
    let ghost head = seq![seq![run("  sensors"@, strong_style())]];
    assert(shows(lines@) == head);
    if sensors.len() == 0 {
        add_line(&mut lines, Line::of("   no sensors reporting".to_owned(), Style::fg(DIM)));
        return lines;
    }
    add_line(&mut lines, table_header(write_sensor_heading(width)));
    let ghost table = head.push(seq![run(sensor_heading(width as int), heading_style())]);
    assert(shows(lines@) == table);
    let cells: usize = trace_width(width);
    let ghost all = traced(traces@);
    let mut i: usize = 0;
    assert(shows(lines@) == table + sensor_blocks(sensors@, all, look, width as nat, 0));
    while i < sensors.len()
        invariant
            i <= sensors@.len(),
            cells == trace_cells(width as int),
            cells <= TRACE_CELLS,
            all == traced(traces@),
            shows(lines@) == table + sensor_blocks(sensors@, all, look, width as nat, i as nat),
        decreases sensors@.len() - i,
    {
        let s = &sensors[i];
        let counts = copy_counts(traces, s.sensor_id.as_str());
        let ghost before = shows(lines@);
        add_line(&mut lines, draw_sensor(s, &counts, look, cells));
        assert(shows(lines@) == before + seq![
            sensor_row(*s, counts@, look, cells as nat),
        ]);
        if let Some(reason) = &s.reason {
            if reason.as_str().unicode_len() > 0 {
                let mut text = "     ".to_owned();
                text.append(clip(reason.as_str(), width.saturating_sub(6)).as_str());
                add_line(&mut lines, Line::of(text, Style::fg(WARN)));
            }
        }
        assert(shows(lines@) == before + sensor_block(*s, counts@, look, width as nat));
        i = i + 1;
        assert(sensor_blocks(sensors@, all, look, width as nat, i as nat) == sensor_blocks(
            sensors@,
            all,
            look,
            width as nat,
            (i - 1) as nat,
        ) + sensor_block(*s, counts@, look, width as nat));
    }
    lines
}

/// Whether fusion is producing tracks. Every sensor can heartbeat while it is
/// dead, and the empty map that results looks like a quiet sky.
#[verifier::opaque]
pub open spec fn fusion_row(fusion: Option<FusionHealth>, now: FlexTime, width: nat) -> Seq<Run> {
    match fusion {
        Some(f) if f.connected => labelled_runs(
            "fusion"@,
            seq![
                run("connected"@, fg_style(OK)),
                dim_run(
                    match f.last_message {
                        Some(ts) => "   last message "@ + age_words(ts, now),
                        None => "   no messages yet"@,
                    },
                ),
            ],
        ),
        Some(f) if f.configured => labelled_runs(
            "fusion"@,
            seq![
                run("down"@, fg_style(BAD)),
                dim_run(
                    "   "@ + clipped(
                        text_or(opt_view(f.reason), ""@),
                        minus(width as int, 20) as nat,
                    ),
                ),
            ],
        ),
        _ => labelled_runs("fusion"@, seq![dim_run("not configured"@)]),
    }
}

fn draw_fusion(fusion: &Option<FusionHealth>, now: FlexTime, width: usize) -> (r: Line)
    ensures
        r@ == fusion_row(*fusion, now, width as nat),
{
    proof {
        reveal(fusion_row);
    }
    if let Some(f) = fusion {
        if f.connected {
            let mut line = Line::of("connected".to_owned(), Style::fg(OK));
            match &f.last_message {
                Some(ts) => {
                    let mut text = "   last message ".to_owned();
                    text.append(write_age(ts, now).as_str());
                    line.push(text, Style::fg(DIM));
                },
                None => line.push_str("   no messages yet", Style::fg(DIM)),
            }
            assert(line@.len() == 2);
            let r = labelled("fusion", line);
            assert(r@ == fusion_row(*fusion, now, width as nat));
            return r;
        }
        if f.configured {
            let mut line = Line::of("down".to_owned(), Style::fg(BAD));
            let mut text = "   ".to_owned();
            text.append(clip(text_or_default(&f.reason, ""), width.saturating_sub(20)).as_str());
            line.push(text, Style::fg(DIM));
            assert(line@.len() == 2);
            let r = labelled("fusion", line);
            assert(r@ == fusion_row(*fusion, now, width as nat));
            return r;
        }
    }
    labelled("fusion", Line::of("not configured".to_owned(), Style::fg(DIM)))
}

/// A running capture: what it holds, and how far in it is. Without a start time
/// the requested duration stands alone.
#[verifier::opaque]
pub open spec fn capture_running(c: Capture, now: FlexTime) -> Seq<Run> {
    labelled_runs(
        "capture"@,
        seq![
            run("running"@, fg_style(WARN)),
            dim_run(
                "  "@ + clipped(c.iface@, 8) + " ch"@ + dec(c.channel as nat)
                    + match c.started_at {
                    Some(ts) => "  "@ + age_words(ts, now) + " of "@ + dec(c.duration_s as nat)
                        + "s"@,
                    None => "  "@ + dec(c.duration_s as nat) + "s"@,
                },
            ),
        ],
    )
}

fn draw_capture_running(c: &Capture, now: FlexTime) -> (r: Line)
    ensures
        r@ == capture_running(*c, now),
{
    proof {
        reveal(capture_running);
    }
    let mut progress = "  ".to_owned();
    match &c.started_at {
        Some(ts) => {
            progress.append(write_age(ts, now).as_str());
            progress.append(" of ");
            progress.append(decimal(c.duration_s).as_str());
            progress.append("s");
        },
        None => {
            progress.append(decimal(c.duration_s).as_str());
            progress.append("s");
        },
    }
    let mut line = Line::of("running".to_owned(), Style::fg(WARN));
    let mut text = "  ".to_owned();
    text.append(clip(c.iface.as_str(), 8).as_str());
    text.append(" ch");
    text.append(decimal(c.channel as u64).as_str());
    text.append(progress.as_str());
    line.push(text, Style::fg(DIM));
    assert(line@.len() == 2);
    let r = labelled("capture", line);
    assert(r@ == capture_running(*c, now));
    r
}

/// What a failure says of itself.
pub open spec fn failure_row(
    label: Seq<char>,
    error: Option<Seq<char>>,
    width: nat,
) -> Seq<Run> {
    labelled_runs(
        label,
        seq![
            run("failed"@, fg_style(BAD)),
            dim_run(
                "  "@ + clipped(
                    text_or(error, "no reason recorded"@),
                    minus(width as int, 21) as nat,
                ),
            ),
        ],
    )
}

fn draw_failure(label: &str, error: &Option<String>, width: usize) -> (r: Line)
    ensures
        r@ == failure_row(label@, opt_view(*error), width as nat),
{
    let mut line = Line::of("failed".to_owned(), Style::fg(BAD));
    let mut text = "  ".to_owned();
    text.append(
        clip(text_or_default(error, "no reason recorded"), width.saturating_sub(21)).as_str(),
    );
    line.push(text, Style::fg(DIM));
    assert(line@.len() == 2);
    let r = labelled(label, line);
    assert(r@ == failure_row(label@, opt_view(*error), width as nat));
    r
}

/// A finished capture is worth a row only where it failed, or was analysed: an
/// unanalysed one is a file on a disk, and not news.
#[verifier::opaque]
pub open spec fn capture_finished(c: Capture, width: nat) -> Option<Seq<Run>> {
    if c.state@ == "failed"@ {
        Some(failure_row("capture"@, opt_view(c.error), width))
    } else {
        match c.analysis {
            Some(a) if a.analyzed => Some(
                labelled_runs(
                    "capture"@,
                    seq![
                        run(
                            dec(a.drone_transmitters as nat) + " drone tx"@,
                            fg_style(
                                if a.drone_transmitters > 0 {
                                    WARN
                                } else {
                                    DIM
                                },
                            ),
                        ),
                        dim_run(
                            "  in "@ + count_text(c.frame_count as nat) + " frames"@
                                + match given(opt_view(c.label)) {
                                Some(label) => " \""@ + clipped(label, 12) + "\""@,
                                None => ""@,
                            },
                        ),
                    ],
                ),
            ),
            _ => None,
        }
    }
}

/// What an optional line shows.
pub open spec fn shown_line(line: Option<Line>) -> Option<Seq<Run>> {
    match line {
        Some(l) => Some(l@),
        None => None,
    }
}

fn draw_capture_finished(c: &Capture, width: usize) -> (r: Option<Line>)
    ensures
        shown_line(r) == capture_finished(*c, width as nat),
{
    proof {
        reveal(capture_finished);
    }
    if same(c.state.as_str(), "failed") {
        return Some(draw_failure("capture", &c.error, width));
    }
    let analysis = match &c.analysis {
        Some(a) => a,
        None => {
            return None;
        },
    };
    if !analysis.analyzed {
        return None;
    }
    let mut found = decimal(analysis.drone_transmitters);
    found.append(" drone tx");
    let color = if analysis.drone_transmitters > 0 {
        WARN
    } else {
        DIM
    };
    let mut line = Line::of(found, Style::fg(color));
    let mut name = "".to_owned();
    if let Some(label) = &c.label {
        if label.as_str().unicode_len() > 0 {
            name = " \"".to_owned();
            name.append(clip(label.as_str(), 12).as_str());
            name.append("\"");
        }
    }
    let mut text = "  in ".to_owned();
    text.append(compact_count(c.frame_count).as_str());
    text.append(" frames");
    text.append(name.as_str());
    line.push(text, Style::fg(DIM));
    assert(line@.len() == 2);
    let r = labelled("capture", line);
    assert(Some(r@) == capture_finished(*c, width as nat));
    Some(r)
}

/// A running sweep, and what it costs: it takes the dongle off ADS-B.
#[verifier::opaque]
pub open spec fn sweep_running(s: SpectrumSweep, now: FlexTime, width: nat) -> Seq<Run> {
    let head = "  "@ + clipped(s.band@, 10) + match s.started_at {
        Some(ts) => "  "@ + age_words(ts, now),
        None => ""@,
    };
    labelled_runs(
        "sweep"@,
        if_fits(
            seq![run("running"@, fg_style(WARN)), dim_run(head)],
            LABEL_GUTTER as nat + 7 + head.len(),
            width,
            "   no ADS-B while it runs"@,
        ),
    )
}

fn draw_sweep_running(s: &SpectrumSweep, now: FlexTime, width: usize) -> (r: Line)
    ensures
        r@ == sweep_running(*s, now, width as nat),
{
    proof {
        reveal(sweep_running);
    }
    let mut since = "".to_owned();
    if let Some(ts) = &s.started_at {
        since = "  ".to_owned();
        since.append(write_age(ts, now).as_str());
    }
    let mut head = "  ".to_owned();
    head.append(clip(s.band.as_str(), 10).as_str());
    head.append(since.as_str());
    let len: usize = head.as_str().unicode_len();
    let mut line = Line::of("running".to_owned(), Style::fg(WARN));
    line.push(head, Style::fg(DIM));
    assert(line@ == seq![run("running"@, fg_style(WARN)), dim_run(head@)]);
    if len <= usize::MAX - (LABEL_GUTTER + 7) {
        let mut used: usize = LABEL_GUTTER + 7 + len;
        push_if_fits(&mut line, &mut used, width, "   no ADS-B while it runs".to_owned());
    }
    labelled("sweep", line)
}

/// A finished sweep: energy only, and never a classification. Short reads mean
/// that the band has holes, so the peak is a floor rather than a finding.
#[verifier::opaque]
pub open spec fn sweep_finished(s: SpectrumSweep, width: nat) -> Option<Seq<Run>> {
    if s.state@ == "failed"@ {
        Some(failure_row("sweep"@, opt_view(s.error), width))
    } else {
        match s.peak_dbfs {
            None => None,
            Some(peak) => {
                let line = seq![
                    run(padded_right(clipped(s.band@, 10), 11), plain_style()),
                    dim_run("peak "@ + micro_text(peak as int, 0) + " dBFS"@),
                ];
                Some(
                    labelled_runs(
                        "sweep"@,
                        if s.short_reads > 0 {
                            line.push(
                                run(
                                    "  "@ + dec(s.short_reads as nat) + " short"@,
                                    fg_style(WARN),
                                ),
                            )
                        } else {
                            line
                        },
                    ),
                )
            },
        }
    }
}

fn draw_sweep_finished(s: &SpectrumSweep, width: usize) -> (r: Option<Line>)
    ensures
        shown_line(r) == sweep_finished(*s, width as nat),
{
    proof {
        reveal(sweep_finished);
    }
    if same(s.state.as_str(), "failed") {
        return Some(draw_failure("sweep", &s.error, width));
    }
    let peak: i64 = match s.peak_dbfs {
        Some(p) => p,
        None => {
            return None;
        },
    };
    let mut line = Line::of(pad_right(clip(s.band.as_str(), 10).as_str(), 11), Style::plain());
    let mut text = "peak ".to_owned();
    text.append(write_micro(peak, 0).as_str());
    text.append(" dBFS");
    line.push(text, Style::fg(DIM));
    assert(line@ == seq![
        run(padded_right(clipped(s.band@, 10), 11), plain_style()),
        dim_run("peak "@ + micro_text(peak as int, 0) + " dBFS"@),
    ]);
    if s.short_reads > 0 {
        let mut short = "  ".to_owned();
        short.append(decimal(s.short_reads).as_str());
        short.append(" short");
        line.push(short, Style::fg(WARN));
    }
    let r = labelled("sweep", line);
    assert(Some(r@) == sweep_finished(*s, width as nat));
    Some(r)
}

/// At most one line.
pub open spec fn optional_line(line: Option<Seq<Run>>) -> Seq<Seq<Run>> {
    match line {
        Some(l) => seq![l],
        None => Seq::empty(),
    }
}

/// What is said of captures: one that runs, else the latest where it is news.
pub open spec fn capture_lines(v: Seq<Capture>, now: FlexTime, width: nat) -> Seq<Seq<Run>> {
    match running_among(v) {
        Some(c) => seq![capture_running(c, now)],
        None => match newest_capture(v) {
            Some(c) => optional_line(capture_finished(c, width)),
            None => Seq::empty(),
        },
    }
}

/// The same of sweeps.
pub open spec fn sweep_lines(v: Seq<SpectrumSweep>, now: FlexTime, width: nat) -> Seq<Seq<Run>> {
    match sweeping_among(v) {
        Some(s) => seq![sweep_running(s, now, width)],
        None => match newest_sweep(v) {
            Some(s) => optional_line(sweep_finished(s, width)),
            None => Seq::empty(),
        },
    }
}

/// Whatever holds a radio, and nothing where nothing does: either answers why a
/// sensor has gone quiet, and nothing else on the dashboard does.
pub open spec fn radio_lines(snapshot: Snapshot, now: FlexTime, width: nat) -> Seq<Seq<Run>> {
    capture_lines(snapshot.captures(), now, width) + sweep_lines(snapshot.sweeps(), now, width)
}

fn draw_radio_lines(snapshot: &Snapshot, now: FlexTime, width: usize) -> (r: Vec<Line>)
    ensures
        shows(r@) == radio_lines(*snapshot, now, width as nat),
{
    let mut lines = no_lines();
    if let Some(c) = snapshot.running_capture() {
        add_line(&mut lines, draw_capture_running(c, now));
    } else if let Some(c) = snapshot.latest_capture() {
        if let Some(line) = draw_capture_finished(c, width) {
            add_line(&mut lines, line);
        }
    }
    let ghost captures = capture_lines(snapshot.captures(), now, width as nat);
    assert(shows(lines@) == captures);
    if let Some(s) = snapshot.running_sweep() {
        add_line(&mut lines, draw_sweep_running(s, now, width));
    } else if let Some(s) = snapshot.latest_sweep() {
        if let Some(line) = draw_sweep_finished(s, width) {
            add_line(&mut lines, line);
        }
    }
    assert(shows(lines@) == captures + sweep_lines(snapshot.sweeps(), now, width as nat));
    lines
}

/// The width of a track's identity, which takes the slack.
pub open spec fn identity_column(width: int) -> int {
    clamped(minus(width, 34), 6, 26)
}

pub open spec fn confidence_color(micro: i64) -> Color {
    if micro >= 700_000 {
        OK
    } else if micro >= 400_000 {
        WARN
    } else {
        DIM
    }
}

/// An age, or a dash.
pub open spec fn seen_words(ts: Option<FlexTime>, now: FlexTime) -> Seq<char> {
    match ts {
        Some(t) => age_words(t, now),
        None => "-"@,
    }
}

/// A contact as it is named: one that nothing has identified is marked, because
/// evidence that only corroborates is consistent with an aircraft without
/// anything having said that it is one.
pub open spec fn marked_name(track: Track) -> Seq<char> {
    if track.is_identified() {
        contact_name(track)
    } else {
        "~"@ + contact_name(track)
    }
}

fn write_marked_name(track: &Track) -> (r: String)
    ensures
        r@ == marked_name(*track),
{
    let name = contact_text(track);
    if track.identified() {
        name
    } else {
        let mut out = "~".to_owned();
        out.append(name.as_str());
        out
    }
}

/// One track.
#[verifier::opaque]
pub open spec fn track_row(track: Track, now: FlexTime, identity: nat) -> Seq<Run> {
    seq![
        run("   "@ + padded_right(clipped(track.state@, 9), 10), plain_style()),
        run(
            padded_right(micro_text(track.confidence as int, 2), 5),
            fg_style(confidence_color(track.confidence)),
        ),
        run(
            padded_right(clipped(marked_name(track), minus(identity as int, 1) as nat), identity),
            if track.is_identified() {
                plain_style()
            } else {
                fg_style(DIM)
            },
        ),
        dim_run(padded_right(clipped(track.evidence_words(), 5), 6)),
        dim_run(padded_left(count_text(track.detection_count as nat), 4) + " "@),
        dim_run(padded_left(seen_words(track.last_seen, now), 4)),
    ]
}

fn draw_track(track: &Track, now: FlexTime, identity: usize) -> (r: Line)
    ensures
        r@ == track_row(*track, now, identity as nat),
{
    proof {
        reveal(track_row);
    }
    let mut state = "   ".to_owned();
    state.append(pad_right(clip(track.state.as_str(), 9).as_str(), 10).as_str());
    let mut line = Line::of(state, Style::plain());
    let color = if track.confidence >= 700_000 {
        OK
    } else if track.confidence >= 400_000 {
        WARN
    } else {
        DIM
    };
    line.push(pad_right(write_micro(track.confidence, 2).as_str(), 5), Style::fg(color));
    let style = if track.identified() {
        Style::plain()
    } else {
        Style::fg(DIM)
    };
    line.push(
        pad_right(
            clip(write_marked_name(track).as_str(), identity.saturating_sub(1)).as_str(),
            identity,
        ),
        style,
    );
    line.push(
        pad_right(clip(track.evidence_summary().as_str(), 5).as_str(), 6),
        Style::fg(DIM),
    );
    let mut count = pad_left(compact_count(track.detection_count).as_str(), 4);
    count.append(" ");
    line.push(count, Style::fg(DIM));
    let seen = match &track.last_seen {
        Some(ts) => write_age(ts, now),
        None => "-".to_owned(),
    };
    line.push(pad_left(seen.as_str(), 4), Style::fg(DIM));
    assert(line@ == track_row(*track, now, identity as nat));
    line
}

/// Where a track is and how fast, how strong it is, and since when it is held.
/// A height above the ground and a geodetic altitude are not the same, and each
/// says which it is.
pub open spec fn track_parts(track: Track, now: FlexTime) -> Seq<Seq<char>> {
    let none = Seq::<Seq<char>>::empty();
    let a = match track.current {
        Some(position) => {
            let height = match position.height() {
                Some((altitude, unit)) => none.push(micro_text(altitude as int, 0) + "m "@ + unit),
                None => none,
            };
            match position.speed_mps {
                Some(speed) => height.push(micro_text(speed as int, 0) + "m/s"@),
                None => height,
            }
        },
        None => none,
    };
    let b = match track.rssi_dbm {
        Some(rssi) => a.push(micro_text(rssi as int, 0) + "dBm"@),
        None => a,
    };
    let c = if track.adsb_correlated {
        b.push("ADS-B"@)
    } else {
        b
    };
    match track.first_seen {
        Some(ts) => c.push("held "@ + age_words(ts, now)),
        None => c,
    }
}

/// The detail line of a track that has something to say.
pub open spec fn track_detail(track: Track, now: FlexTime) -> Option<Seq<char>> {
    let parts = track_parts(track, now);
    if parts.len() == 0 {
        None
    } else {
        Some(joined(parts, "  "@))
    }
}

fn write_track_detail(track: &Track, now: FlexTime) -> (r: Option<String>)
    ensures
        opt_view(r) == track_detail(*track, now),
{
    let mut parts = no_texts();
    if let Some(position) = &track.current {
        if let Some((altitude, unit)) = position.altitude() {
            let mut text = write_micro(altitude, 0);
            text.append("m ");
            text.append(unit);
            push_text(&mut parts, text);
        }
        if let Some(speed) = position.speed_mps {
            let mut text = write_micro(speed, 0);
            text.append("m/s");
            push_text(&mut parts, text);
        }
    }
    if let Some(rssi) = track.rssi_dbm {
        let mut text = write_micro(rssi, 0);
        text.append("dBm");
        push_text(&mut parts, text);
    }
    if track.adsb_correlated {
        add_text(&mut parts, "ADS-B");
    }
    if let Some(ts) = &track.first_seen {
        let mut text = "held ".to_owned();
        text.append(write_age(ts, now).as_str());
        push_text(&mut parts, text);
    }
    assert(texts(parts@).len() == parts@.len());
    if parts.len() == 0 {
        None
    } else {
        Some(join(&parts, "  "))
    }
}

/// As many tracks as some rows hold, each with its detail line while there are
/// rows to spare.
pub open spec fn track_rows(
    tracks: Seq<Track>,
    budget: nat,
    now: FlexTime,
    width: nat,
) -> Seq<Seq<Run>>
    decreases tracks.len(),
{
    if tracks.len() == 0 || budget == 0 {
        Seq::empty()
    } else {
        let row = seq![track_row(tracks[0], now, identity_column(width as int) as nat)];
        match track_detail(tracks[0], now) {
            Some(detail) if budget > 1 => row.push(
                seq![dim_run("     "@ + clipped(detail, minus(width as int, 6) as nat))],
            ) + track_rows(tracks.drop_first(), (budget - 2) as nat, now, width),
            _ => row + track_rows(tracks.drop_first(), (budget - 1) as nat, now, width),
        }
    }
}

pub open spec fn track_heading(width: int) -> Seq<char> {
    "   "@ + padded_right("STATE"@, 10) + padded_right("CONF"@, 5) + padded_right(
        "IDENTITY"@,
        identity_column(width) as nat,
    ) + padded_right("EVID"@, 6) + padded_left("DET"@, 4) + " "@ + padded_left("SEEN"@, 4)
}

fn identity_width(width: usize) -> (r: usize)
    ensures
        r == identity_column(width as int),
{
    let slack: usize = width.saturating_sub(34);
    if slack < 6 {
        6
    } else if slack > 26 {
        26
    } else {
        slack
    }
}

fn write_track_heading(width: usize) -> (r: String)
    ensures
        r@ == track_heading(width as int),
{
    let mut out = "   ".to_owned();
    out.append(pad_right("STATE", 10).as_str());
    out.append(pad_right("CONF", 5).as_str());
    out.append(pad_right("IDENTITY", identity_width(width)).as_str());
    out.append(pad_right("EVID", 6).as_str());
    out.append(pad_left("DET", 4).as_str());
    out.append(" ");
    out.append(pad_left("SEEN", 4).as_str());
    out
}

/// The track list, in some rows under a blank line and its title.
pub open spec fn track_lines(
    page: Option<TrackPage>,
    room: nat,
    now: FlexTime,
    width: nat,
) -> Seq<Seq<Run>> {
    let blank = seq![Seq::<Run>::empty()];
    match page {
        None => blank.push(seq![dim_run("  tracks unavailable"@)]),
        Some(p) => {
            let head = blank.push(
                seq![
                    run("  tracks"@, strong_style()),
                    dim_run(" "@ + dec(p.total as nat) + " live"@),
                ],
            );
            if p.tracks@.len() == 0 {
                head.push(seq![dim_run("   nothing tracked"@)])
            } else {
                head.push(seq![run(track_heading(width as int), heading_style())]) + track_rows(
                    p.tracks@,
                    minus(room as int, 1) as nat,
                    now,
                    width,
                )
            }
        },
    }
}

fn draw_tracks(page: &Option<TrackPage>, room: usize, now: FlexTime, width: usize) -> (r: Vec<
    Line,
>)
    ensures
        shows(r@) == track_lines(*page, room as nat, now, width as nat),
{
    let mut lines = no_lines();
    add_line(&mut lines, Line::new());
    let ghost blank = seq![Seq::<Run>::empty()];
    assert(shows(lines@) == blank);
    let p = match page {
        None => {
            add_line(&mut lines, Line::of("  tracks unavailable".to_owned(), Style::fg(DIM)));
            return lines;
        },
        Some(p) => p,
    };
    let mut title = Line::of("  tracks".to_owned(), Style::strong());
    let mut live = " ".to_owned();
    live.append(decimal(p.total).as_str());
    live.append(" live");
    title.push(live, Style::fg(DIM));
    assert(title@ == seq![
        run("  tracks"@, strong_style()),
        dim_run(" "@ + dec(p.total as nat) + " live"@),
    ]);
    add_line(&mut lines, title);
    if p.tracks.len() == 0 {
        add_line(&mut lines, Line::of("   nothing tracked".to_owned(), Style::fg(DIM)));
        return lines;
    }
    add_line(&mut lines, table_header(write_track_heading(width)));
    let ghost head = shows(lines@);
    let identity: usize = identity_width(width);
    let all = &p.tracks;
    let mut budget: usize = room.saturating_sub(1);
    let ghost want = head + track_rows(all@, budget as nat, now, width as nat);
    let mut i: usize = 0;
    assert(all@.skip(0) == all@);
    while i < all.len() && budget > 0
        invariant
            i <= all@.len(),
            identity == identity_column(width as int),
            shows(lines@) + track_rows(all@.skip(i as int), budget as nat, now, width as nat)
                == want,
        decreases all@.len() - i,
    {
        let ghost rest = all@.skip(i as int);
        let ghost before = shows(lines@);
        assert(rest[0] == all@[i as int]);
        assert(rest.drop_first() == all@.skip(i + 1));
        add_line(&mut lines, draw_track(&all[i], now, identity));
        budget = budget - 1;
        let ghost row = seq![track_row(rest[0], now, identity as nat)];
        assert(shows(lines@) == before + row);
        if budget > 0 {
            if let Some(detail) = write_track_detail(&all[i], now) {
                let mut text = "     ".to_owned();
                text.append(clip(detail.as_str(), width.saturating_sub(6)).as_str());
                add_line(&mut lines, Line::of(text, Style::fg(DIM)));
                budget = budget - 1;
                let ghost both = row.push(
                    seq![
                        dim_run(
                            "     "@ + clipped(detail@, minus(width as int, 6) as nat),
                        ),
                    ],
                );
                assert(shows(lines@) == before + both);
                assert((before + both) + track_rows(
                    rest.drop_first(),
                    budget as nat,
                    now,
                    width as nat,
                ) == before + (both + track_rows(
                    rest.drop_first(),
                    budget as nat,
                    now,
                    width as nat,
                )));
                i = i + 1;
                continue;
            }
        }
        assert((before + row) + track_rows(rest.drop_first(), budget as nat, now, width as nat)
            == before + (row + track_rows(rest.drop_first(), budget as nat, now, width as nat)));
        i = i + 1;
    }
    assert(track_rows(all@.skip(i as int), budget as nat, now, width as nat) == Seq::<
        Seq<Run>,
    >::empty());
    lines
}

/// The class of a detection by its name, or by its letter where it has none
/// here: that is what the API said.
pub open spec fn shown_class(code: Seq<char>) -> Seq<char> {
    if class_name(code).len() == 0 {
        code
    } else {
        class_name(code)
    }
}

pub fn class_label(code: &str) -> (r: String)
    ensures
        r@ == shown_class(code@),
{
    let name = detection_class_label(code);
    if name.unicode_len() == 0 {
        code.to_owned()
    } else {
        name.to_owned()
    }
}

/// The sensor of a detection by its name, or by its kind where it has none.
pub open spec fn sensor_of(d: Detection) -> Seq<char> {
    if d.sensor_id@.len() == 0 {
        d.sensor_kind@
    } else {
        d.sensor_id@
    }
}

fn sensor_text(d: &Detection) -> (r: &str)
    ensures
        r@ == sensor_of(*d),
{
    if d.sensor_id.as_str().unicode_len() == 0 {
        d.sensor_kind.as_str()
    } else {
        d.sensor_id.as_str()
    }
}

pub open spec fn rssi_of(d: Detection) -> Option<i64> {
    match d.rf {
        Some(rf) => rf.rssi_dbm,
        None => None,
    }
}

pub open spec fn rssi_words(rssi: Option<i64>) -> Seq<char> {
    match rssi {
        Some(r) => micro_text(r as int, 0),
        None => "-"@,
    }
}

pub open spec fn rssi_color(rssi: Option<i64>) -> Color {
    match rssi {
        Some(r) => if r > -60_000_000 {
            OK
        } else if r > -75_000_000 {
            WARN
        } else {
            DIM
        },
        None => DIM,
    }
}

/// A contact with the number of times it repeats. The count is never cut: a
/// name that loses its end is shorter, a number that does is wrong.
pub open spec fn counted_name(name: Seq<char>, count: nat, width: nat) -> Seq<char> {
    if count <= 1 {
        clipped(name, width)
    } else {
        let times = " x"@ + dec(count);
        clipped(name, minus(width as int, times.len() as int) as nat) + times
    }
}

fn write_counted(name: &str, count: usize, width: usize) -> (r: String)
    ensures
        r@ == counted_name(name@, count as nat, width as nat),
{
    if count <= 1 {
        clip(name, width)
    } else {
        let mut times = " x".to_owned();
        times.append(decimal(count as u64).as_str());
        let mut out = clip(name, width.saturating_sub(times.as_str().unicode_len()));
        out.append(times.as_str());
        out
    }
}

/// One detection, or a run of the same contact.
#[verifier::opaque]
pub open spec fn detection_row(d: Detection, count: nat, sensor: bool, label: nat) -> Seq<Run> {
    let time = seq![
        run("   "@ + padded_right(text_or(opt_view(d.clock), "  --:--"@), 9), plain_style()),
    ];
    let named = if sensor {
        time.push(dim_run(padded_right(clipped(sensor_of(d), 7), 8)))
    } else {
        time
    };
    named.push(
        run(
            padded_right(clipped(shown_class(d.detection_class@), 12), 13),
            if corroborates_only(d.detection_class@) {
                fg_style(DIM)
            } else {
                plain_style()
            },
        ),
    ).push(
        run(padded_left(rssi_words(rssi_of(d)), 5), fg_style(rssi_color(rssi_of(d)))),
    ).push(dim_run(padded_left(tuning_of(d), 6) + "  "@)).push(
        run(counted_name(d.name(), count, label), plain_style()),
    )
}

fn draw_detection(d: &Detection, count: usize, sensor: bool, label: usize) -> (r: Line)
    ensures
        r@ == detection_row(*d, count as nat, sensor, label as nat),
{
    proof {
        reveal(detection_row);
    }
    let mut time = "   ".to_owned();
    time.append(pad_right(text_or_default(&d.clock, "  --:--"), 9).as_str());
    let mut line = Line::of(time, Style::plain());
    if sensor {
        line.push(pad_right(clip(sensor_text(d), 7).as_str(), 8), Style::fg(DIM));
    }
    let class = d.detection_class.as_str();
    let style = if is_corroborating_only(class) {
        Style::fg(DIM)
    } else {
        Style::plain()
    };
    line.push(pad_right(clip(class_label(class).as_str(), 12).as_str(), 13), style);
    let rssi: Option<i64> = match &d.rf {
        Some(rf) => rf.rssi_dbm,
        None => None,
    };
    let (text, color) = match rssi {
        Some(r) => (
            write_micro(r, 0),
            if r > -60_000_000 {
                OK
            } else if r > -75_000_000 {
                WARN
            } else {
                DIM
            },
        ),
        None => ("-".to_owned(), DIM),
    };
    line.push(pad_left(text.as_str(), 5), Style::fg(color));
    let mut tuning = pad_left(tuning_text(d).as_str(), 6);
    tuning.append("  ");
    line.push(tuning, Style::fg(DIM));
    line.push(write_counted(d.label().as_str(), count, label), Style::plain());
    line
}

/// The width of a detection's identity, which takes the slack.
pub open spec fn label_column(width: int) -> int {
    clamped(
        minus(
            width,
            if width >= SENSOR_COLUMN_AT {
                46
            } else {
                38
            },
        ),
        4,
        20,
    )
}

fn label_width(width: usize) -> (r: usize)
    ensures
        r == label_column(width as int),
{
    let fixed: usize = if width >= SENSOR_COLUMN_AT {
        46
    } else {
        38
    };
    let slack: usize = width.saturating_sub(fixed);
    if slack < 4 {
        4
    } else if slack > 20 {
        20
    } else {
        slack
    }
}

pub open spec fn detection_heading(width: int) -> Seq<char> {
    let time = "   "@ + padded_right("TIME"@, 9);
    let named = if width >= SENSOR_COLUMN_AT {
        time + padded_right("SENSOR"@, 8)
    } else {
        time
    };
    named + padded_right("CLASS"@, 13) + padded_left("dBm"@, 5) + padded_left("TUNE"@, 6) + "  "@
        + padded_right("ID"@, label_column(width) as nat)
}

fn write_detection_heading(width: usize) -> (r: String)
    ensures
        r@ == detection_heading(width as int),
{
    let mut out = "   ".to_owned();
    out.append(pad_right("TIME", 9).as_str());
    if width >= SENSOR_COLUMN_AT {
        out.append(pad_right("SENSOR", 8).as_str());
    }
    out.append(pad_right("CLASS", 13).as_str());
    out.append(pad_left("dBm", 5).as_str());
    out.append(pad_left("TUNE", 6).as_str());
    out.append("  ");
    out.append(pad_right("ID", label_width(width)).as_str());
    out
}

/// The first of the folded runs, as many as some rows hold.
pub open spec fn detection_rows(v: Seq<Detection>, most: int, width: nat) -> Seq<Seq<Run>> {
    let runs = folded(v);
    Seq::new(
        least_of(runs.len() as int, most) as nat,
        |i: int|
            detection_row(
                v[runs[i].first as int],
                runs[i].count as nat,
                width >= SENSOR_COLUMN_AT,
                label_column(width as int) as nat,
            ),
    )
}

/// The detections, in some rows under a blank line and their title.
pub open spec fn detection_lines(
    page: Option<DetectionPage>,
    room: nat,
    width: nat,
) -> Seq<Seq<Run>> {
    let blank = seq![Seq::<Run>::empty()];
    match page {
        None => blank.push(seq![dim_run("  detections unavailable"@)]),
        Some(p) => {
            let head = blank.push(
                seq![
                    run("  detections"@, strong_style()),
                    dim_run(" "@ + dec(p.total as nat) + " total"@),
                ],
            );
            if p.detections@.len() == 0 {
                head.push(seq![dim_run("   nothing heard"@)])
            } else {
                head.push(seq![run(detection_heading(width as int), heading_style())])
                    + detection_rows(p.detections@, minus(room as int, 1), width)
            }
        },
    }
}

fn draw_detections(page: &Option<DetectionPage>, room: usize, width: usize) -> (r: Vec<Line>)
    ensures
        shows(r@) == detection_lines(*page, room as nat, width as nat),
{
    let mut lines = no_lines();
    add_line(&mut lines, Line::new());
    let ghost blank = seq![Seq::<Run>::empty()];
    assert(shows(lines@) == blank);
    let p = match page {
        None => {
            add_line(&mut lines, Line::of("  detections unavailable".to_owned(), Style::fg(DIM)));
            return lines;
        },
        Some(p) => p,
    };
    let mut title = Line::of("  detections".to_owned(), Style::strong());
    let mut total = " ".to_owned();
    total.append(decimal(p.total).as_str());
    total.append(" total");
    title.push(total, Style::fg(DIM));
    assert(title@ == seq![
        run("  detections"@, strong_style()),
        dim_run(" "@ + dec(p.total as nat) + " total"@),
    ]);
    add_line(&mut lines, title);
    if p.detections.len() == 0 {
        add_line(&mut lines, Line::of("   nothing heard".to_owned(), Style::fg(DIM)));
        return lines;
    }
    add_line(&mut lines, table_header(write_detection_heading(width)));
    let ghost head = shows(lines@);
    let v = &p.detections;
    let runs = collapse_runs(v);
    let most: usize = room.saturating_sub(1);
    let n: usize = if runs.len() < most {
        runs.len()
    } else {
        most
    };
    let ghost body = detection_rows(v@, minus(room as int, 1), width as nat);
    assert(n == body.len());
    let sensor = width >= SENSOR_COLUMN_AT;
    let label: usize = label_width(width);
    let mut i: usize = 0;
    assert(head + body.take(0) == head);
    while i < n
        invariant
            i <= n == body.len(),
            n <= runs@.len(),
            runs@ == folded(v@),
            forall|j: int| 0 <= j < runs@.len() ==> (#[trigger] runs@[j]).first < v@.len(),
            sensor == (width >= SENSOR_COLUMN_AT),
            label == label_column(width as int),
            body == detection_rows(v@, minus(room as int, 1), width as nat),
            shows(lines@) == head + body.take(i as int),
        decreases n - i,
    {
        let repeats = runs[i];
        add_line(&mut lines, draw_detection(&v[repeats.first], repeats.count, sensor, label));
        i = i + 1;
        assert(body.take(i as int) == body.take(i - 1).push(body[i - 1]));
    }
    assert(body.take(i as int) == body);
    lines
}

/// How many detections to ask for next, so that the folded list fills its
/// room: as many as the last page needed for each row that it drew.
pub open spec fn wanted_detections(v: Option<Seq<Detection>>, room: nat) -> int {
    let rows = if room < 1 {
        1
    } else {
        room as int
    };
    match v {
        Some(list) if list.len() > 0 => {
            let drawn = folded(list).len() as int;
            clamped(
                (rows * list.len() + drawn - 1) / drawn,
                1,
                MAX_DETECTION_ROWS as int,
            )
        },
        _ => least_of(rows, MAX_DETECTION_ROWS as int),
    }
}

/// The detections of an optional page.
pub open spec fn page_detections(page: Option<&DetectionPage>) -> Option<Seq<Detection>> {
    match page {
        Some(p) => Some(p.detections@),
        None => None,
    }
}

pub fn detection_request(page: Option<&DetectionPage>, room: usize) -> (r: usize)
    ensures
        r == wanted_detections(page_detections(page), room as nat),
        1 <= r <= MAX_DETECTION_ROWS,
{
    let rows: usize = if room < 1 {
        1
    } else {
        room
    };
    if let Some(p) = page {
        let fetched: usize = p.detections.len();
        if fetched > 0 {
            let drawn: usize = collapse_runs(&p.detections).len();
            assert(rows * fetched <= usize::MAX * usize::MAX) by (nonlinear_arith)
                requires
                    rows <= usize::MAX,
                    fetched <= usize::MAX,
            ;
            assert(usize::MAX * usize::MAX + usize::MAX <= u128::MAX) by (nonlinear_arith)
                requires
                    usize::MAX <= u64::MAX,
            ;
            let all: u128 = rows as u128 * fetched as u128;
            let wanted: u128 = (all + (drawn as u128 - 1)) / drawn as u128;
            return if wanted < 1 {
                1
            } else if wanted > MAX_DETECTION_ROWS as u128 {
                MAX_DETECTION_ROWS
            } else {
                wanted as usize
            };
        }
    }
    if rows < MAX_DETECTION_ROWS {
        rows
    } else {
        MAX_DETECTION_ROWS
    }
}

/// Once a page fills its room exactly, the next request is for a page of the
/// same size: the request settles rather than running away.
pub proof fn request_settles(v: Seq<Detection>, room: nat)
    requires
        0 < v.len() <= MAX_DETECTION_ROWS,
        folded(v).len() == room,
        room > 0,
    ensures
        wanted_detections(Some(v), room) == v.len(),
{
    let n = v.len() as int;
    let r = room as int;
    assert((r * n + r - 1) / r == n) by (nonlinear_arith)
        requires
            r > 0,
            n > 0,
    ;
}

/// A sky that nothing repeats in is asked for no more than can be drawn.
pub proof fn varied_sky_asks_for_the_room(v: Seq<Detection>, room: nat)
    requires
        v.len() > 0,
        folded(v).len() == v.len(),
        1 <= room <= MAX_DETECTION_ROWS,
    ensures
        wanted_detections(Some(v), room) == room,
{
    let n = v.len() as int;
    let r = room as int;
    assert((r * n + n - 1) / n == r) by (nonlinear_arith)
        requires
            r > 0,
            n > 0,
    ;
}

/// The rows of a list under some lines, its spacer and its title.
pub open spec fn list_room(height: nat, used: nat) -> nat {
    minus(height as int, (used + 2) as int) as nat
}

/// What stands above the lists: what cannot be lost.
pub open spec fn standing_lines(
    pane: ClassgPane,
    health: HealthResponse,
    now: FlexTime,
    look: Look,
    width: nat,
) -> Seq<Seq<Run>> {
    (status_lines(pane.snapshot, health, now, width) + sensor_lines(
        health.sensors@,
        traced(pane.traces@),
        look,
        width,
    )).push(Seq::empty()).push(fusion_row(health.fusion, now, width)) + radio_lines(
        pane.snapshot,
        now,
        width,
    )
}

/// Those, and the tracks under them where there is room for any.
pub open spec fn with_tracks(
    pane: ClassgPane,
    standing: Seq<Seq<Run>>,
    now: FlexTime,
    width: nat,
    height: nat,
) -> Seq<Seq<Run>> {
    let room = list_room(height, standing.len());
    if room >= 1 {
        standing + track_lines(pane.snapshot.tracks, room, now, width)
    } else {
        standing
    }
}

/// The whole content of the pane. The lists are what goes when it is short.
pub open spec fn classg_lines(
    pane: ClassgPane,
    now: FlexTime,
    look: Look,
    width: nat,
    height: nat,
) -> Seq<Seq<Run>> {
    match pane.snapshot.health {
        None => unreachable_lines(opt_view(pane.snapshot.error), pane.base@),
        Some(health) => {
            let standing = standing_lines(pane, health, now, look, width);
            let upper = with_tracks(pane, standing, now, width, height);
            let room = list_room(height, upper.len());
            if room >= 1 {
                upper + detection_lines(pane.snapshot.detections, room, width)
            } else {
                upper
            }
        },
    }
}

pub open spec fn opt_detections(page: Option<DetectionPage>) -> Option<Seq<Detection>> {
    match page {
        Some(p) => Some(p.detections@),
        None => None,
    }
}

/// The rows to ask for next time: what fits, and the least where nothing is
/// drawn.
pub open spec fn classg_hints(
    pane: ClassgPane,
    now: FlexTime,
    look: Look,
    width: nat,
    height: nat,
) -> (int, int) {
    match pane.snapshot.health {
        None => (1, 1),
        Some(health) => {
            let standing = standing_lines(pane, health, now, look, width);
            let upper = with_tracks(pane, standing, now, width, height);
            let tracks = list_room(height, standing.len()) as int;
            (
                if tracks < 1 {
                    1
                } else {
                    tracks
                },
                wanted_detections(
                    opt_detections(pane.snapshot.detections),
                    list_room(height, upper.len()),
                ),
            )
        },
    }
}

/// Draws the pane into a frame's inside of `width` by `height`, and says how
/// many rows of each list to ask for next.
pub fn draw_classg(pane: &ClassgPane, now: FlexTime, look: Look, width: u16, height: u16) -> (r: (
    Vec<Line>,
    RowHints,
))
    ensures
        shows(r.0@) == classg_lines(*pane, now, look, width as nat, height as nat),
        (r.1.tracks as int, r.1.detections as int) == classg_hints(
            *pane,
            now,
            look,
            width as nat,
            height as nat,
        ),
{
    let w: usize = width as usize;
    let h: usize = height as usize;
    let snapshot = &pane.snapshot;
    let health = match &snapshot.health {
        None => {
            return (
                draw_unreachable(&snapshot.error, pane.base.as_str()),
                RowHints { tracks: 1, detections: 1 },
            );
        },
        Some(health) => health,
    };
    let mut lines = draw_status_lines(snapshot, health, now, w);
    add_lines(&mut lines, draw_sensors(&health.sensors, &pane.traces, look, w));
    add_line(&mut lines, Line::new());
    add_line(&mut lines, draw_fusion(&health.fusion, now, w));
    add_lines(&mut lines, draw_radio_lines(snapshot, now, w));
    let ghost standing = standing_lines(*pane, *health, now, look, width as nat);
    assert(shows(lines@) == standing);
    let track_room: usize = h.saturating_sub(lines.len().saturating_add(2));
    assert(track_room == list_room(height as nat, standing.len()));
    if track_room >= 1 {
        add_lines(&mut lines, draw_tracks(&snapshot.tracks, track_room, now, w));
    }
    let ghost upper = with_tracks(*pane, standing, now, width as nat, height as nat);
    assert(shows(lines@) == upper);
    let detection_room: usize = h.saturating_sub(lines.len().saturating_add(2));
    assert(detection_room == list_room(height as nat, upper.len()));
    if detection_room >= 1 {
        add_lines(&mut lines, draw_detections(&snapshot.detections, detection_room, w));
    }
    let detections: usize = match &snapshot.detections {
        Some(page) => detection_request(Some(page), detection_room),
        None => detection_request(None, detection_room),
    };
    let tracks: usize = if track_room < 1 {
        1
    } else {
        track_room
    };
    (lines, RowHints { tracks, detections })
}

/// However narrow its column, the number of times that a contact repeats is
/// written out whole.
pub proof fn repeat_count_is_never_cut(name: Seq<char>, count: nat, width: nat)
    requires
        count > 1,
    ensures
        has_suffix(counted_name(name, count, width), " x"@ + dec(count)),
{
    let times = " x"@ + dec(count);
    let all = counted_name(name, count, width);
    assert(all.skip(all.len() - times.len()) == times);
}

/// A contact that nothing has identified is marked as such, and one that
/// something has is not.
pub proof fn unidentified_contacts_are_marked(track: Track)
    ensures
        !track.is_identified() ==> marked_name(track) == "~"@ + contact_name(track),
        track.is_identified() ==> marked_name(track) == contact_name(track),
{
}

/// A pause is never drawn as a quiet sky: the row that says so stands above the
/// lists, and names what the pause has cost.
pub proof fn pause_is_never_a_quiet_sky(state: MonitoringState, now: FlexTime)
    requires
        !state.enabled,
    ensures
        recording_row(state, now)[1] == run("PAUSED"@, bold_style(BAD)),
        has_prefix(
            recording_row(state, now)[2].text,
            "  "@ + count_text(state.discarded as nat) + " discarded"@,
        ),
{
    reveal(recording_row);
    let said = "  "@ + count_text(state.discarded as nat) + " discarded"@;
    assert(recording_row(state, now)[2].text.take(said.len() as int) == said);
}

/// The status is coloured as the check judges it: green where it finds nothing,
/// amber where it finds the unit degraded and red where it finds it down.
pub proof fn status_is_coloured_as_judged(status: Seq<char>)
    ensures
        status_color(status) == Color::Green <==> status == "ok"@ || status == "healthy"@,
        status_color(status) == Color::Green <==> status_found(status).len() == 0,
        status_color(status) == Color::Yellow <==> status == "degraded"@,
        status_color(status) == Color::Yellow <==> worst(status_found(status))
            == Verdict::Degraded,
        status_color(status) == Color::Red <==> worst(status_found(status)) == Verdict::Down,
{
    reveal_strlit("ok");
    reveal_strlit("healthy");
    reveal_strlit("degraded");
    assert("ok"@.len() == 2 && "healthy"@.len() == 7 && "degraded"@.len() == 8);
    worst_finding_decides(status_found(status));
    let found = status_found(status);
    if found.len() > 0 {
        assert(found.len() == 1);
        assert(found[0].verdict.severity() <= worst(found).severity());
        let i = choose|i: int|
            0 <= i < found.len() && (#[trigger] found[i]).verdict.severity() == worst(
                found,
            ).severity();
        assert(i == 0);
    }
}

/// The store is amber exactly when less than a tenth of it is free.
pub proof fn nearly_full_store_is_amber(free: u64, total: u64)
    requires
        total > 0,
    ensures
        store_color(free, total) == Color::Yellow <==> 10 * free < total,
        store_color(free, total) == Color::Yellow || store_color(free, total) == Color::DarkGray,
{
}

/// The store says what it is, and with it that it is in a container or in sync
/// exactly when it is.
pub proof fn store_says_what_it_is(system: SystemInfo)
    ensures
        has_prefix(store_words(system), system.runtime.store@),
        !system.runtime.containerised && !system.runtime.turso_sync_configured ==> store_words(
            system,
        ) == padded_right(system.runtime.store@, 10) + "  "@,
        system.runtime.containerised ==> has_prefix(
            store_words(system),
            system.runtime.store@ + " · docker"@,
        ),
        system.runtime.turso_sync_configured ==> occurs_in(store_words(system), " · sync"@),
{
    let store = system.runtime.store@;
    let a = if system.runtime.containerised {
        store + " · docker"@
    } else {
        store
    };
    let b = if system.runtime.turso_sync_configured {
        a + " · sync"@
    } else {
        a
    };
    let text = store_words(system);
    let rest = text.skip(b.len() as int);
    assert(text == b + rest);
    assert(text.take(store.len() as int) == store);
    assert(text.take(a.len() as int) == a);
    if system.runtime.turso_sync_configured {
        lemma_part_of_sum(a, " · sync"@, rest);
    }
}

/// A unit that records says so in green and never that it is paused; its reason
/// for having been paused is history.
pub proof fn recording_is_never_shown_as_paused(state: MonitoringState, now: FlexTime, width: nat)
    requires
        state.enabled,
    ensures
        recording_row(state, now)[1] == run("on"@, fg_style(Color::Green)),
        recording_lines(Some(state), now, width).len() == 1,
        pause_reason(state) is None,
        state.since is None ==> recording_row(state, now)[2].text == ""@,
{
    reveal(recording_row);
}

/// A unit that is paused says why, on a line below, where a reason was given.
pub proof fn pause_says_why(state: MonitoringState, now: FlexTime, width: nat)
    requires
        !state.enabled,
        state.reason is Some,
        state.reason->0@.len() > 0,
        width >= 13 + state.reason->0@.len(),
    ensures
        recording_lines(Some(state), now, width).len() == 2,
        has_suffix(recording_lines(Some(state), now, width)[1][0].text, state.reason->0@),
{
    let why = state.reason->0@;
    let text = "            "@ + why;
    assert(text.skip(text.len() - why.len()) == why);
    assert(clipped(why, minus(width as int, 13) as nat) == why);
}

/// What to do about a refusal depends on what was sent: a token of this unit is
/// read again, a session has expired, and with nothing sent there was nothing to
/// read.
pub proof fn remedy_fits_the_credential(a: Option<CredentialKind>, b: Option<CredentialKind>)
    ensures
        remedy_words(a).1 == remedy_words(b).1 <==> a == b,
        remedy_words(a).0 == "no token"@ <==> a is None,
        remedy_words(Some(CredentialKind::Session)).1 == "CLASSG_SESSION expired"@,
        remedy_words(Some(CredentialKind::Local)).1 == "token rotated, re-reading"@,
{
    reveal_strlit("rejected");
    reveal_strlit("no token");
    reveal_strlit("token rotated, re-reading");
    reveal_strlit("CLASSG_SESSION expired");
    reveal_strlit(".agent-state unreadable?");
    assert("rejected"@[0] == 'r' && "no token"@[0] == 'n');
    assert("token rotated, re-reading"@.len() == 25 && "CLASSG_SESSION expired"@.len() == 22
        && ".agent-state unreadable?"@.len() == 24);
}

/// A session is shown only where the API asks for one, and then by its user
/// where it has one.
pub proof fn session_is_shown_where_asked_for(snapshot: Snapshot, width: nat)
    ensures
        session_lines(snapshot, width).len() == 1 <==> (snapshot.slow.auth matches Some(a)
            && a.auth_enabled),
        session_lines(snapshot, width).len() <= 1,
        snapshot.slow.auth matches Some(a) ==> a.auth_enabled && !a.setup_required ==> (
        a.user matches Some(u) ==> session_lines(snapshot, width)[0][1] == run(
            u.username@,
            fg_style(Color::Green),
        )),
        snapshot.slow.auth matches Some(a) ==> a.auth_enabled && a.setup_required ==> session_lines(
            snapshot,
            width,
        )[0][1].style == fg_style(Color::Yellow),
{
    reveal(session_row);
}

/// A sensor is coloured by what it is called: green where it is well, amber where
/// it is off and red where it is down.
pub proof fn sensor_is_coloured_as_it_is_called(s: SensorHealth)
    ensures
        sensor_color(s) == Color::Green <==> sensor_word(s) == "ok"@,
        sensor_color(s) == Color::Yellow <==> sensor_word(s) == "off"@,
        sensor_color(s) == Color::Red <==> sensor_word(s) == "DOWN"@,
        sensor_color(s) == Color::Red <==> !s.healthy && !s.optional,
        sensor_color(s) == Color::Green <==> s.healthy,
{
    sensor_is_called_what_the_check_finds(s);
}

/// A heart that last beat more than half a minute ago is amber.
pub proof fn late_heartbeat_is_amber(s: SensorHealth)
    ensures
        beat_color(s) == Color::Yellow <==> (s.seconds_since_heartbeat matches Some(n) && n > 30),
        beat_color(s) == Color::Yellow || beat_color(s) == Color::DarkGray,
{
}

/// The link that makes tracks is green where it is connected, red where it
/// should be and is not, and neither where it was never configured.
pub proof fn fusion_is_coloured_as_it_is(f: FusionHealth, now: FlexTime, width: nat)
    ensures
        fusion_row(Some(f), now, width)[1].style == fg_style(Color::Green) <==> f.connected,
        fusion_row(Some(f), now, width)[1].style == fg_style(Color::Red) <==> !f.connected
            && f.configured,
        f.connected ==> fusion_row(Some(f), now, width)[1].text == "connected"@,
        !f.connected && f.configured ==> fusion_row(Some(f), now, width)[1].text == "down"@,
        !f.connected && !f.configured ==> fusion_row(Some(f), now, width) == fusion_row(
            None,
            now,
            width,
        ),
{
    reveal(fusion_row);
}

/// A contact is green from a confidence of seven tenths, amber from four and dim
/// below.
pub proof fn confidence_has_its_colours(micro: i64)
    ensures
        confidence_color(micro) == Color::Green <==> micro >= 700_000,
        confidence_color(micro) == Color::Yellow <==> 400_000 <= micro < 700_000,
        confidence_color(micro) == Color::DarkGray <==> micro < 400_000,
{
}

/// A signal is green above minus sixty decibels, amber above minus seventy-five
/// and dim below, and one with no strength is a dash.
pub proof fn strength_has_its_colours(rssi: i64)
    ensures
        rssi_color(Some(rssi)) == Color::Green <==> rssi > -60_000_000,
        rssi_color(Some(rssi)) == Color::Yellow <==> -75_000_000 < rssi <= -60_000_000,
        rssi_color(Some(rssi)) == Color::DarkGray <==> rssi <= -75_000_000,
        rssi_color(None) == Color::DarkGray,
        rssi_words(None) == "-"@,
{
}

/// A run is shown under its name where there is room for it, and never takes
/// more than its column unless its count alone does.
pub proof fn counted_name_keeps_to_its_column(name: Seq<char>, count: nat, width: nat)
    ensures
        count <= 1 ==> counted_name(name, count, width) == clipped(name, width),
        count > 1 && name.len() + 2 + dec(count).len() <= width ==> counted_name(name, count, width)
            == name + " x"@ + dec(count),
        2 + dec(count).len() <= width ==> counted_name(name, count, width).len() <= width,
{
    reveal_strlit(" x");
    let times = " x"@ + dec(count);
    if count > 1 && name.len() + times.len() <= width {
        assert(counted_name(name, count, width) == name + times);
        assert(name + times == name + " x"@ + dec(count));
    }
}

/// The rows of tracks never take more room than they are given, and every track
/// has one for as long as there is room.
pub proof fn tracks_keep_to_their_room(tracks: Seq<Track>, budget: nat, now: FlexTime, width: nat)
    ensures
        track_rows(tracks, budget, now, width).len() <= budget,
        budget > 0 && tracks.len() > 0 ==> track_rows(tracks, budget, now, width).len() > 0
            && track_rows(tracks, budget, now, width)[0] == track_row(
            tracks[0],
            now,
            identity_column(width as int) as nat,
        ),
        2 * tracks.len() <= budget ==> track_rows(tracks, budget, now, width).len()
            >= tracks.len(),
    decreases tracks.len(),
{
    if tracks.len() > 0 && budget > 0 {
        let rest = tracks.drop_first();
        match track_detail(tracks[0], now) {
            Some(detail) if budget > 1 => {
                tracks_keep_to_their_room(rest, (budget - 2) as nat, now, width);
            },
            _ => {
                tracks_keep_to_their_room(rest, (budget - 1) as nat, now, width);
            },
        }
    }
}

/// A contact that is not identified is dim and marked, and one that is is
/// neither.
pub proof fn identified_contacts_stand_out(track: Track, now: FlexTime, identity: nat)
    ensures
        track_row(track, now, identity)[2].style == fg_style(Color::DarkGray) <==> (
        track.evidence@.len() > 0 && forall|i: int|
            0 <= i < track.evidence@.len() ==> (#[trigger] track.evidence@[i]).class@ == "C"@
                || track.evidence@[i].class@ == "D"@ || track.evidence@[i].class@ == "H"@),
        track_row(track, now, identity)[1].style == fg_style(confidence_color(track.confidence)),
{
    reveal(track_row);
    only_other_classes_identify(track);
}

/// Running work is shown before finished work, of captures and of sweeps alike,
/// and of finished work only the latest.
pub proof fn running_work_is_shown_first(snapshot: Snapshot, now: FlexTime, width: nat)
    ensures
        (exists|i: int|
            0 <= i < snapshot.captures().len() && (#[trigger] snapshot.captures()[i]).state@
                == "running"@) ==> capture_lines(snapshot.captures(), now, width).len() == 1
            && capture_lines(snapshot.captures(), now, width)[0][1] == run(
            "running"@,
            fg_style(Color::Yellow),
        ),
        (exists|i: int|
            0 <= i < snapshot.sweeps().len() && (#[trigger] snapshot.sweeps()[i]).state@
                == "running"@) ==> sweep_lines(snapshot.sweeps(), now, width).len() == 1
            && sweep_lines(snapshot.sweeps(), now, width)[0][1] == run(
            "running"@,
            fg_style(Color::Yellow),
        ),
        capture_lines(snapshot.captures(), now, width).len() <= 1,
        sweep_lines(snapshot.sweeps(), now, width).len() <= 1,
        snapshot.captures().len() == 0 ==> capture_lines(snapshot.captures(), now, width).len()
            == 0,
{
    reveal(capture_running);
    reveal(sweep_running);
    running_capture_is_the_first(snapshot.captures());
    running_sweep_is_the_first(snapshot.sweeps());
    newest_is_the_newest(capture_times(snapshot.captures()));
}

/// A capture or a sweep that failed says so in red, with its reason, and a
/// capture that heard drones stands out from one that did not.
pub proof fn failures_are_shown_in_red(c: Capture, s: SpectrumSweep, width: nat)
    ensures
        c.state@ == "failed"@ ==> (capture_finished(c, width) matches Some(line) && line[1] == run(
            "failed"@,
            fg_style(Color::Red),
        )),
        s.state@ == "failed"@ ==> (sweep_finished(s, width) matches Some(line) && line[1] == run(
            "failed"@,
            fg_style(Color::Red),
        )),
        c.state@ != "failed"@ ==> (c.analysis matches Some(a) ==> a.analyzed ==> (capture_finished(
            c,
            width,
        ) matches Some(line) && (line[1].style == fg_style(Color::Yellow) <==> a.drone_transmitters
            > 0))),
        c.state@ != "failed"@ && (c.analysis matches Some(a) ==> !a.analyzed) ==> capture_finished(
            c,
            width,
        ) is None,
        s.state@ != "failed"@ && s.peak_dbfs is None ==> sweep_finished(s, width) is None,
        s.state@ != "failed"@ && s.peak_dbfs is Some ==> (sweep_finished(s, width) matches Some(
            line,
        ) && (line.len() == 4 <==> s.short_reads > 0)),
{
    reveal(capture_finished);
    reveal(sweep_finished);
}

/// A detection is shown under the name of the sensor that heard it, or its kind
/// where it has none, and by the name of its class, or its letter where that has
/// none.
pub proof fn detections_name_their_sensor_and_class(d: Detection)
    ensures
        d.sensor_id@.len() > 0 ==> sensor_of(d) == d.sensor_id@,
        d.sensor_id@.len() == 0 ==> sensor_of(d) == d.sensor_kind@,
        class_name(d.detection_class@).len() > 0 ==> shown_class(d.detection_class@) == class_name(
            d.detection_class@,
        ),
        class_name(d.detection_class@).len() == 0 ==> shown_class(d.detection_class@)
            == d.detection_class@,
{
}

/// A detection of a class that only corroborates is dim, and no other is.
pub proof fn corroborating_detections_are_dim(d: Detection, count: nat, label: nat)
    ensures
        detection_row(d, count, false, label)[1].style == fg_style(Color::DarkGray) <==> (
        d.detection_class@ == "C"@ || d.detection_class@ == "D"@ || d.detection_class@ == "H"@),
        detection_row(d, count, true, label)[2].style == detection_row(d, count, false, label)[1].style,
        detection_row(d, count, false, label).last().text == counted_name(d.name(), count, label),
        detection_row(d, count, true, label).len() == detection_row(d, count, false, label).len()
            + 1,
{
    reveal(detection_row);
}

/// As many detections are asked for as fill the room: none fewer than the room
/// where nothing folds, more where they fold, and never more than may be asked
/// for.
pub proof fn folding_asks_for_more(v: Seq<Detection>, room: nat)
    requires
        0 < v.len() <= usize::MAX,
        1 <= room <= 200,
    ensures
        room <= wanted_detections(Some(v), room) <= 200,
        wanted_detections(None, room) == room,
        wanted_detections(Some(v), room) < 200 ==> wanted_detections(Some(v), room) * folded(
            v,
        ).len() >= room * v.len(),
{
    folding_keeps_every_detection(v);
    lemma_some_runs(v);
    let drawn = folded(v).len() as int;
    let n = v.len() as int;
    let r = room as int;
    let w = (r * n + drawn - 1) / drawn;
    assert(w * drawn >= r * n) by (nonlinear_arith)
        requires
            w == (r * n + drawn - 1) / drawn,
            drawn > 0,
    ;
    assert(w >= r) by (nonlinear_arith)
        requires
            w * drawn >= r * n,
            n >= drawn,
            drawn > 0,
            r >= 0,
    ;
}

proof fn lemma_some_runs(v: Seq<Detection>)
    requires
        v.len() > 0,
    ensures
        folded(v).len() > 0,
{
}

/// The details of a contact are those that are known, in their order: its height,
/// its speed, its strength, that an aircraft was seen there and since when.
pub proof fn details_are_those_known(track: Track, now: FlexTime)
    ensures
        track_detail(track, now) is None <==> (track.current matches Some(p) ==> p.height() is None
            && p.speed_mps is None) && track.rssi_dbm is None && !track.adsb_correlated
            && track.first_seen is None,
        track.adsb_correlated ==> track_parts(track, now).contains("ADS-B"@),
        track.rssi_dbm matches Some(rssi) ==> track_parts(track, now).contains(
            micro_text(rssi as int, 0) + "dBm"@,
        ),
        track.current matches Some(p) ==> (p.speed_mps matches Some(v) ==> track_parts(
            track,
            now,
        ).contains(micro_text(v as int, 0) + "m/s"@)),
        track.current matches Some(p) ==> (p.height() matches Some((h, unit)) ==> track_parts(
            track,
            now,
        )[0] == micro_text(h as int, 0) + "m "@ + unit),
        track.first_seen matches Some(ts) ==> track_parts(track, now).last() == "held "@ + age_text(
            ts.age(now),
        ),
{
    let parts = track_parts(track, now);
    let h = if track.current is Some && track.current->0.height() is Some {
        1int
    } else {
        0
    };
    let s = if track.current is Some && track.current->0.speed_mps is Some {
        1int
    } else {
        0
    };
    let r = if track.rssi_dbm is Some {
        1int
    } else {
        0
    };
    if s == 1 {
        assert(parts[h] == micro_text(track.current->0.speed_mps->0 as int, 0) + "m/s"@);
    }
    if r == 1 {
        assert(parts[h + s] == micro_text(track.rssi_dbm->0 as int, 0) + "dBm"@);
    }
    if track.adsb_correlated {
        assert(parts[h + s + r] == "ADS-B"@);
    }
}

} // verus!
