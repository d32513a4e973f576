//! The health pane: temperature, clock and power, throttle bits, disk and I/O.

use vstd::prelude::*;

use super::{
    colours_follow_the_thresholds, either_fits, field, field_runs, level_color, push_either,
    threshold_color, Look, GUTTER,
};
use super::gauge::{bar, bar_fills_its_width, bar_runs, Ramp};
use crate::format::{human_kb, human_rate, rate_long, size_kb};
use crate::numeric::{
    micro_text, signed_quotient_text, write_micro, write_signed_quotient, Ratio,
};
use crate::paint::{
    add_line, bold_style, columns, fg_style, lemma_columns_add, lemma_columns_push, no_lines,
    plain_style, run, shows, Color, Line, Run, Style, BAD, DIM, OK, WARN,
};
use crate::panes::health::{
    each_condition_is_said, elapsed, elapsed_since, DiskUsage, HealthPane, IoRates, Tense, Throttle,
    ThrottleFlags,
};
use crate::snapshot::{clock_text, clock_words};
use crate::text::{
    dec, decimal, hex, hexadecimal, join, joined, pad_left, pad_right, padded_left, padded_right,
    texts,
};

verus! {

/// Lines that this pane writes, and therefore the height the layout pins it
/// to: a pane whose height changed with its contents would shove the panes
/// under it around every time the supply sagged.
pub const CONTENT_ROWS: u16 = 7;

/// The window over which the temperature is drawn, in thousandths of a degree:
/// it only means something against the point where throttling starts.
pub const TEMP_METER_LO: i64 = 30_000;

pub const TEMP_METER_HI: i64 = 85_000;

/// Where the temperature turns amber, and red.
pub const TEMP_WARN: i64 = 65_000;

pub const TEMP_HOT: i64 = 75_000;

/// Cells of each meter.
pub const HEALTH_METER: usize = 12;

/// Columns of the value before a meter. All rows share it, so that the meters
/// line up.
pub const VALUE_W: usize = 16;

/// The temperature's place in its window.
pub open spec fn temp_share(milli: i64) -> Ratio {
    Ratio {
        num: if milli < TEMP_METER_LO {
            0
        } else {
            (milli - TEMP_METER_LO) as u64
        },
        den: 55_000,
    }
}

pub open spec fn temp_color(milli: i64) -> Color {
    if milli >= TEMP_HOT {
        BAD
    } else if milli >= TEMP_WARN {
        WARN
    } else {
        OK
    }
}

/// A temperature, to a tenth of a degree.
pub open spec fn temp_text(milli: i64) -> Seq<char> {
    padded_left(signed_quotient_text(milli as int, 1000, 1), 4) + "C"@
}

/// A row of a value in its column and a meter beside it.
pub open spec fn metered(
    value: Seq<char>,
    style: Style,
    share: Ratio,
    ramp: Ramp,
    look: Look,
) -> Seq<Run> {
    seq![run(padded_right(value, VALUE_W as nat), style)] + bar_runs(
        look.depth,
        share,
        HEALTH_METER as nat,
        look.glyphs,
        ramp,
    )
}

fn draw_metered(value: &str, style: Style, share: Ratio, ramp: Ramp, look: Look) -> (r: Line)
    ensures
        r@ == metered(value@, style, share, ramp, look),
{
    let mut line = Line::of(pad_right(value, VALUE_W), style);
    line.extend(bar(look.depth, share, HEALTH_METER, look.glyphs, ramp));
    line
}

#[verifier::opaque]
pub open spec fn temp_row(temp: Option<i64>, look: Look) -> Seq<Run> {
    match temp {
        Some(milli) => field_runs(
            "temp"@,
            metered(
                temp_text(milli),
                bold_style(temp_color(milli)),
                temp_share(milli),
                Ramp::Load,
                look,
            ).push(run("  30-85"@, fg_style(DIM))),
        ),
        None => field_runs("temp"@, seq![run("no thermal zone"@, fg_style(DIM))]),
    }
}

fn draw_temp(temp: Option<i64>, look: Look) -> (r: Line)
    ensures
        r@ == temp_row(temp, look),
{
    proof {
        reveal(temp_row);
    }
    match temp {
        Some(milli) => {
            let mut text = pad_left(write_signed_quotient(milli, 1000, 1).as_str(), 4);
            text.append("C");
            let color = if milli >= TEMP_HOT {
                BAD
            } else if milli >= TEMP_WARN {
                WARN
            } else {
                OK
            };
            let above: u64 = if milli < TEMP_METER_LO {
                0
            } else {
                (milli - TEMP_METER_LO) as u64
            };
            let mut line = draw_metered(
                text.as_str(),
                Style::bold(color),
                Ratio::new(above, 55_000),
                Ramp::Load,
                look,
            );
            line.push_str("  30-85", Style::fg(DIM));
            field("temp", line)
        },
        None => field("temp", Line::of("no thermal zone".to_owned(), Style::fg(DIM))),
    }
}

/// The core voltage, to a tenth of a millivolt.
pub open spec fn volts_text(micro: Option<i64>) -> Seq<char> {
    match micro {
        Some(v) => "  "@ + micro_text(v as int, 4) + "V"@,
        None => "  ?V"@,
    }
}

fn write_volts(micro: Option<i64>) -> (r: String)
    ensures
        r@ == volts_text(micro),
{
    match micro {
        Some(v) => {
            let mut out = "  ".to_owned();
            out.append(write_micro(v, 4).as_str());
            out.append("V");
            out
        },
        None => "  ?V".to_owned(),
    }
}

/// The clock with its meter, where both ends of the scale are known, and the
/// core voltage behind it.
#[verifier::opaque]
pub open spec fn clock_row(h: HealthPane, look: Look, width: nat) -> Seq<Run> {
    let value = clock_words(h.arm_mhz, h.max_mhz);
    let volts = volts_text(h.volts_micro);
    let drawn = match (h.arm_mhz, h.max_mhz) {
        (Some(now), Some(max)) => (
            metered(value, plain_style(), Ratio { num: now, den: max }, Ramp::Cool, look),
            GUTTER as nat + VALUE_W as nat + HEALTH_METER as nat,
        ),
        _ => (
            seq![run(padded_right(value, VALUE_W as nat), plain_style())],
            GUTTER as nat + VALUE_W as nat,
        ),
    };
    field_runs("clock"@, either_fits(drawn.0, drawn.1, width, volts + " core"@, volts))
}

fn draw_clock(h: &HealthPane, look: Look, width: usize) -> (r: Line)
    ensures
        r@ == clock_row(*h, look, width as nat),
{
    proof {
        reveal(clock_row);
    }
    let value = clock_text(h.arm_mhz, h.max_mhz);
    let volts = write_volts(h.volts_micro);
    let mut long = volts.clone();
    long.append(" core");
    match (h.arm_mhz, h.max_mhz) {
        (Some(now), Some(max)) => {
            let mut line = draw_metered(
                value.as_str(),
                Style::plain(),
                Ratio::new(now, max),
                Ramp::Cool,
                look,
            );
            push_either(&mut line, GUTTER + VALUE_W + HEALTH_METER, width, long, volts);
            field("clock", line)
        },
        _ => {
            let mut line = Line::of(pad_right(value.as_str(), VALUE_W), Style::plain());
            push_either(&mut line, GUTTER + VALUE_W, width, long, volts);
            field("clock", line)
        },
    }
}

/// What the throttle register says of now.
#[verifier::opaque]
pub open spec fn throttle_row(throttle: Option<Throttle>) -> Seq<Run> {
    match throttle {
        None => field_runs("thrott"@, seq![run("unknown - no vcgencmd here"@, fg_style(DIM))]),
        Some(t) => {
            let words = t.now.said(Tense::Now);
            field_runs(
                "thrott"@,
                if words.len() == 0 {
                    seq![
                        run("OK"@, bold_style(OK)),
                        run("  nothing right now"@, fg_style(DIM)),
                    ]
                } else {
                    seq![run(joined(words, ", "@), bold_style(BAD))]
                },
            )
        },
    }
}

/// What it says of the time since boot: that it happened before is a different
/// problem from that it happens now, and looks different.
#[verifier::opaque]
pub open spec fn since_row(throttle: Option<Throttle>) -> Seq<Run> {
    match throttle {
        None => field_runs(
            "since"@,
            seq![run("so the sticky bits are unknown too"@, fg_style(DIM))],
        ),
        Some(t) => {
            let words = t.since_boot.said(Tense::SinceBoot);
            field_runs(
                "since"@,
                if words.len() == 0 {
                    seq![run("clean since boot"@, fg_style(DIM))]
                } else {
                    seq![
                        run(joined(words, ", "@), fg_style(WARN)),
                        run("  (0x"@ + hex(t.raw as nat) + ")"@, fg_style(DIM)),
                    ]
                },
            )
        },
    }
}

/// Both rows of the register. One that could not be read is unknown, never
/// clean.
pub fn throttle_lines(throttle: Option<Throttle>) -> (r: (Line, Line))
    ensures
        r.0@ == throttle_row(throttle),
        r.1@ == since_row(throttle),
{
    proof {
        reveal(throttle_row);
        reveal(since_row);
    }
    match throttle {
        None => (
            field("thrott", Line::of("unknown - no vcgencmd here".to_owned(), Style::fg(DIM))),
            field(
                "since",
                Line::of("so the sticky bits are unknown too".to_owned(), Style::fg(DIM)),
            ),
        ),
        Some(t) => {
            let now = t.now.labels(Tense::Now);
            let sticky = t.since_boot.labels(Tense::SinceBoot);
            assert(texts(now@).len() == now@.len());
            assert(texts(sticky@).len() == sticky@.len());
            let now_line = if now.len() == 0 {
                let mut line = Line::of("OK".to_owned(), Style::bold(OK));
                line.push_str("  nothing right now", Style::fg(DIM));
                assert(line@ == seq![
                    run("OK"@, bold_style(OK)),
                    run("  nothing right now"@, fg_style(DIM)),
                ]);
                line
            } else {
                Line::of(join(&now, ", "), Style::bold(BAD))
            };
            let sticky_line = if sticky.len() == 0 {
                Line::of("clean since boot".to_owned(), Style::fg(DIM))
            } else {
                let mut line = Line::of(join(&sticky, ", "), Style::fg(WARN));
                let mut raw = "  (0x".to_owned();
                raw.append(hexadecimal(t.raw as u64).as_str());
                raw.append(")");
                line.push(raw, Style::fg(DIM));
                assert(line@ == seq![
                    run(joined(t.since_boot.said(Tense::SinceBoot), ", "@), fg_style(WARN)),
                    run("  (0x"@ + hex(t.raw as nat) + ")"@, fg_style(DIM)),
                ]);
                line
            };
            (field("thrott", now_line), field("since", sticky_line))
        },
    }
}

#[verifier::opaque]
pub open spec fn disk_row(disk: Option<DiskUsage>, look: Look) -> Seq<Run> {
    match disk {
        Some(d) => field_runs(
            "disk"@,
            metered(
                size_kb(d.used_kb as nat) + "/"@ + size_kb(d.total_kb as nat),
                plain_style(),
                d.fullness(),
                Ramp::Load,
                look,
            ).push(
                run(
                    "  "@ + d.fullness().percent_text(0) + "%"@,
                    fg_style(level_color(d.fullness(), 80, 92)),
                ),
            ),
        ),
        None => field_runs("disk"@, seq![run("unavailable"@, fg_style(DIM))]),
    }
}

fn draw_disk(disk: &Option<DiskUsage>, look: Look) -> (r: Line)
    ensures
        r@ == disk_row(*disk, look),
{
    proof {
        reveal(disk_row);
    }
    match disk {
        Some(d) => {
            let mut text = human_kb(d.used_kb);
            text.append("/");
            text.append(human_kb(d.total_kb).as_str());
            let share = d.pct();
            let mut line = draw_metered(text.as_str(), Style::plain(), share, Ramp::Load, look);
            let mut pct = "  ".to_owned();
            pct.append(share.percent(0).as_str());
            pct.append("%");
            line.push(pct, Style::fg(threshold_color(share, 80, 92)));
            field("disk", line)
        },
        None => field("disk", Line::of("unavailable".to_owned(), Style::fg(DIM))),
    }
}

#[verifier::opaque]
pub open spec fn io_row(io: IoRates) -> Seq<Run> {
    field_runs(
        "io"@,
        seq![run("r "@ + rate_long(io.read) + "   w "@ + rate_long(io.write), plain_style())],
    )
}

fn draw_io(io: &IoRates) -> (r: Line)
    ensures
        r@ == io_row(*io),
{
    proof {
        reveal(io_row);
    }
    let mut text = "r ".to_owned();
    text.append(human_rate(io.read).as_str());
    text.append("   w ");
    text.append(human_rate(io.write).as_str());
    field("io", Line::of(text, Style::plain()))
}

/// How long ago the API last answered, at a time in nanoseconds.
#[verifier::opaque]
pub open spec fn api_row(last_ok: Option<u64>, now: u64) -> Seq<Run> {
    field_runs(
        "api"@,
        seq![
            run(
                match last_ok {
                    Some(_) => "last good poll "@ + dec(
                        (elapsed(now, last_ok) / 1_000_000_000) as nat,
                    ) + "s ago"@,
                    None => "no successful poll yet"@,
                },
                fg_style(DIM),
            ),
        ],
    )
}

fn draw_api(last_ok: Option<u64>, now: u64) -> (r: Line)
    ensures
        r@ == api_row(last_ok, now),
{
    proof {
        reveal(api_row);
    }
    let text = match last_ok {
        Some(_) => {
            let mut out = "last good poll ".to_owned();
            out.append(decimal(elapsed_since(now, last_ok) / 1_000_000_000).as_str());
            out.append("s ago");
            out
        },
        None => "no successful poll yet".to_owned(),
    };
    field("api", Line::of(text, Style::fg(DIM)))
}

/// The whole content of the pane.
pub open spec fn health_lines(
    h: HealthPane,
    last_ok: Option<u64>,
    now: u64,
    look: Look,
    width: nat,
) -> Seq<Seq<Run>> {
    seq![
        temp_row(h.temp_milli, look),
        clock_row(h, look, width),
        throttle_row(h.throttle),
        since_row(h.throttle),
        disk_row(h.disk, look),
        io_row(h.io),
        api_row(last_ok, now),
    ]
}

pub fn draw_health(
    h: &HealthPane,
    last_ok: Option<u64>,
    now: u64,
    look: Look,
    width: u16,
) -> (r: Vec<Line>)
    ensures
        shows(r@) == health_lines(*h, last_ok, now, look, width as nat),
        r@.len() == CONTENT_ROWS,
{
    let mut lines = no_lines();
    add_line(&mut lines, draw_temp(h.temp_milli, look));
    add_line(&mut lines, draw_clock(h, look, width as usize));
    let (now_line, since_line) = throttle_lines(h.throttle);
    add_line(&mut lines, now_line);
    add_line(&mut lines, since_line);
    add_line(&mut lines, draw_disk(&h.disk, look));
    add_line(&mut lines, draw_io(&h.io));
    add_line(&mut lines, draw_api(last_ok, now));
    assert(shows(lines@) == health_lines(*h, last_ok, now, look, width as nat));
    lines
}

/// A row's meter starts behind its gutter and its value column: every meter of
/// the pane at the same place, as long as the value keeps to its column.
pub proof fn meters_line_up(
    label: Seq<char>,
    value: Seq<char>,
    style: Style,
    share: Ratio,
    ramp: Ramp,
    look: Look,
)
    requires
        label.len() <= 7,
        value.len() <= VALUE_W,
    ensures
        ({
            let row = field_runs(label, metered(value, style, share, ramp, look));
            &&& columns(row.take(2)) == GUTTER + VALUE_W
            &&& row.skip(2) == bar_runs(
                look.depth,
                share,
                HEALTH_METER as nat,
                look.glyphs,
                ramp,
            )
            &&& columns(row) == GUTTER + VALUE_W + HEALTH_METER
        }),
{
    reveal_strlit("  ");
    let row = field_runs(label, metered(value, style, share, ramp, look));
    let gutter = run("  "@ + padded_right(label, 7), fg_style(DIM));
    let shown = run(padded_right(value, VALUE_W as nat), style);
    let meter = bar_runs(look.depth, share, HEALTH_METER as nat, look.glyphs, ramp);
    assert(row.take(2) == Seq::<Run>::empty().push(gutter).push(shown));
    lemma_columns_push(Seq::empty(), gutter);
    lemma_columns_push(Seq::<Run>::empty().push(gutter), shown);
    assert(row.skip(2) == meter);
    assert(row == row.take(2) + meter);
    lemma_columns_add(row.take(2), meter);
    bar_fills_its_width(look.depth, share, HEALTH_METER as nat, look.glyphs, ramp);
}

/// A register that could not be read never reads as a clean one: not as nothing
/// happening now, nor as nothing since boot.
pub proof fn unknown_is_never_clean(t: Throttle)
    ensures
        throttle_row(None) != throttle_row(Some(t)),
        since_row(None)[1].text != "clean since boot"@,
{
    reveal(throttle_row);
    reveal(since_row);
    reveal_strlit("so the sticky bits are unknown too");
    reveal_strlit("clean since boot");
    assert(since_row(None)[1].text == "so the sticky bits are unknown too"@);
    assert(since_row(None)[1].text.len() == 34);
    let none = throttle_row(None);
    let some = throttle_row(Some(t));
    assert(none.len() == 2);
    assert(none[1].style == fg_style(DIM));
    if some.len() == 2 {
        assert(some[1].style == bold_style(BAD));
    }
}

/// A temperature is red from seventy-five degrees, amber from sixty-five and
/// green below.
pub proof fn heat_has_its_colours(milli: i64)
    ensures
        milli >= 75_000 <==> temp_color(milli) == Color::Red,
        65_000 <= milli < 75_000 <==> temp_color(milli) == Color::Yellow,
        milli < 65_000 <==> temp_color(milli) == Color::Green,
{
}

/// The thermometer is empty at thirty degrees and below, full at eighty-five,
/// and rises with the heat in between.
pub proof fn thermometer_runs_from_thirty_to_eighty_five(a: i64, b: i64)
    requires
        a <= b,
    ensures
        a <= 30_000 ==> temp_share(a).num == 0,
        a == 85_000 ==> temp_share(a).num == temp_share(a).den,
        temp_share(a).den == temp_share(b).den,
        temp_share(a).num <= temp_share(b).num,
        30_000 <= a < b ==> temp_share(a).num < temp_share(b).num,
        30_000 <= a ==> temp_share(a).num == a - 30_000,
{
}

/// The supply and the clock are called well exactly when none of their four
/// conditions holds right now; otherwise every one that does is named, in red.
pub proof fn throttling_is_called_what_it_is(t: Throttle)
    ensures
        (throttle_row(Some(t))[1] == run("OK"@, bold_style(Color::Green))) <==> !t.now.under_voltage
            && !t.now.arm_capped && !t.now.throttled && !t.now.soft_temp_limit,
        t.now.under_voltage || t.now.arm_capped || t.now.throttled || t.now.soft_temp_limit
            ==> throttle_row(Some(t))[1] == run(
            joined(t.now.said(Tense::Now), ", "@),
            bold_style(Color::Red),
        ),
{
    reveal(throttle_row);
    each_condition_is_said(t.now);
    let words = t.now.said(Tense::Now);
    if words.len() > 0 {
        assert(bold_style(Color::Red) != bold_style(Color::Green));
    }
}

/// What has happened since boot is named with the register it was read from, and
/// is never mixed up with what is happening.
pub proof fn history_is_named_with_its_register(t: Throttle, other: ThrottleFlags)
    ensures
        since_row(Some(t)) == since_row(Some(Throttle { now: other, ..t })),
        throttle_row(Some(t)) == throttle_row(Some(Throttle { since_boot: other, ..t })),
        !t.since_boot.under_voltage && !t.since_boot.arm_capped && !t.since_boot.throttled
            && !t.since_boot.soft_temp_limit ==> since_row(Some(t))[1] == run(
            "clean since boot"@,
            fg_style(DIM),
        ),
        t.since_boot.under_voltage || t.since_boot.arm_capped || t.since_boot.throttled
            || t.since_boot.soft_temp_limit ==> since_row(Some(t)).len() == 3 && since_row(
            Some(t),
        )[1] == run(joined(t.since_boot.said(Tense::SinceBoot), ", "@), fg_style(Color::Yellow))
            && since_row(Some(t))[2].text == "  (0x"@ + hex(t.raw as nat) + ")"@,
{
    reveal(since_row);
    reveal(throttle_row);
    each_condition_is_said(t.since_boot);
}

/// The figure of the disk is red from ninety-two in a hundred, amber from eighty
/// and green below.
pub proof fn full_disks_have_their_colours(d: DiskUsage, look: Look)
    requires
        0 < d.used_kb + d.avail_kb <= u64::MAX,
    ensures
        ({
            let figure = disk_row(Some(d), look).last();
            let whole = d.used_kb + d.avail_kb;
            &&& 100 * d.used_kb >= 92 * whole ==> figure.style == fg_style(Color::Red)
            &&& 80 * whole <= 100 * d.used_kb < 92 * whole ==> figure.style == fg_style(
                Color::Yellow,
            )
            &&& 100 * d.used_kb < 80 * whole ==> figure.style == fg_style(Color::Green)
        }),
{
    reveal(disk_row);
    colours_follow_the_thresholds(d.fullness(), 80, 92);
    let row = disk_row(Some(d), look);
    let tail = run(
        "  "@ + d.fullness().percent_text(0) + "%"@,
        fg_style(level_color(d.fullness(), 80, 92)),
    );
    assert(row.last() == tail);
}

/// Reading comes before writing.
pub proof fn reading_comes_before_writing(io: IoRates)
    ensures
        io_row(io)[1].text == "r "@ + rate_long(io.read) + "   w "@ + rate_long(io.write),
{
    reveal(io_row);
}

/// The age of the last good poll is in whole seconds, and a unit that never
/// answered has none.
pub proof fn last_good_poll_is_dated(last: u64, now: u64)
    requires
        last <= now,
    ensures
        api_row(Some(last), now)[1].text == "last good poll "@ + dec(
            ((now - last) / 1_000_000_000) as nat,
        ) + "s ago"@,
        api_row(None, now)[1].text == "no successful poll yet"@,
{
    reveal(api_row);
}

} // verus!
