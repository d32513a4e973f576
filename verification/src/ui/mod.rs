//! What each pane draws, one module per pane:
//!
//! - [`system`]: CPU, memory, disks and network
//! - [`processes`]: the process table in it
//! - [`health`]: temperature, power, clock, throttle bits, disk and I/O
//! - [`radios`]: interfaces, monitor mode, USB radios
//! - [`classg`]: the detector's API
//! - [`layout`] and [`screen`]: where they stand, and what is around them
//! - [`gauge`]: meters, graphs and sparklines
//! - [`demo`]: a screen as a picture
//!
//! Everything here is text in colours. There is no animation: over SSH, a frame
//! that is mostly the same as the last one is what keeps the display still.

use vstd::prelude::*;

use crate::numeric::Ratio;
use crate::paint::{
    bold_style, columns, fg_style, lemma_columns_push, run, Color, Line, Run, Style, BAD, DIM, OK,
    WARN,
};
use crate::text::{pad_right, padded_right};

use self::gauge::{Depth, Glyphs};

pub mod classg;
pub mod demo;
pub mod gauge;
pub mod health;
pub mod layout;
pub mod processes;
pub mod radios;
pub mod screen;
pub mod system;

verus! {

/// What decides how things are drawn.
#[derive(Debug, Clone, Copy, PartialEq, Eq, Structural)]
pub struct Look {
    pub depth: Depth,
    pub glyphs: Glyphs,
    pub accent: Color,
}

/// Positions as numbers.
pub open spec fn positions(v: Seq<usize>) -> Seq<int> {
    Seq::new(v.len(), |i: int| v[i] as int)
}

/// The left gutter that a field has: two blanks and a label of seven columns.
pub const GUTTER: usize = 9;

/// A label and a value, with the label in the gutter that every pane shares.
pub open spec fn field_runs(label: Seq<char>, value: Seq<Run>) -> Seq<Run> {
    seq![run("  "@ + padded_right(label, 7), fg_style(DIM))] + value
}

pub fn field(label: &str, value: Line) -> (r: Line)
    ensures
        r@ == field_runs(label@, value@),
{
    let mut text = "  ".to_owned();
    text.append(pad_right(label, 7).as_str());
    let mut line = Line::of(text, Style::fg(DIM));
    line.extend(value);
    line
}

/// The style of a column heading.
pub open spec fn heading_style() -> Style {
    bold_style(DIM)
}

pub fn header_style() -> (r: Style)
    ensures
        r == heading_style(),
{
    Style::bold(DIM)
}

/// A row of column headings.
pub fn table_header(text: String) -> (r: Line)
    ensures
        r@ == seq![run(text@, heading_style())],
{
    Line::of(text, header_style())
}

/// A line with a dim suffix, if it still has room for all of it.
pub open spec fn if_fits(line: Seq<Run>, used: nat, width: nat, text: Seq<char>) -> Seq<Run> {
    if used + text.len() <= width {
        line.push(run(text, fg_style(DIM)))
    } else {
        line
    }
}

/// The columns used after such a suffix.
pub open spec fn used_after(used: nat, width: nat, text: Seq<char>) -> nat {
    if used + text.len() <= width {
        used + text.len()
    } else {
        used
    }
}

/// Appends a dim suffix, but only if the line still has room for all of it:
/// what does not fit is cut wherever the pane ends. Says whether it did.
pub fn push_if_fits(line: &mut Line, used: &mut usize, width: usize, text: String) -> (r: bool)
    ensures
        r == (*old(used) + text@.len() <= width),
        final(line)@ == if_fits(old(line)@, *old(used) as nat, width as nat, text@),
        *final(used) == used_after(*old(used) as nat, width as nat, text@),
{
    let len: usize = text.as_str().unicode_len();
    if *used > width || len > width - *used {
        return false;
    }
    *used = *used + len;
    line.push(text, Style::fg(DIM));
    true
}

/// A line with a long suffix if that fits, else with a short one if that does.
pub open spec fn either_fits(
    line: Seq<Run>,
    used: nat,
    width: nat,
    long: Seq<char>,
    short: Seq<char>,
) -> Seq<Run> {
    if used + long.len() <= width {
        line.push(run(long, fg_style(DIM)))
    } else {
        if_fits(line, used, width, short)
    }
}

pub fn push_either(line: &mut Line, used: usize, width: usize, long: String, short: String)
    ensures
        final(line)@ == either_fits(
            old(line)@,
            used as nat,
            width as nat,
            long@,
            short@,
        ),
{
    let mut taken: usize = used;
    if !push_if_fits(line, &mut taken, width, long) {
        push_if_fits(line, &mut taken, width, short);
    }
}

/// Green, amber from `warn` percent on, red from `bad` on.
pub open spec fn level_color(value: Ratio, warn: nat, bad: nat) -> Color {
    if value.reaches(bad) {
        BAD
    } else if value.reaches(warn) {
        WARN
    } else {
        OK
    }
}

pub fn threshold_color(value: Ratio, warn: u64, bad: u64) -> (r: Color)
    ensures
        r == level_color(value, warn as nat, bad as nat),
{
    if value.at_least(bad) {
        BAD
    } else if value.at_least(warn) {
        WARN
    } else {
        OK
    }
}

/// What is appended only where it fits never runs past the pane: a line that is
/// inside it stays inside it, and what was there is still there.
pub proof fn suffix_never_overruns(
    line: Seq<Run>,
    width: nat,
    text: Seq<char>,
    long: Seq<char>,
    short: Seq<char>,
)
    requires
        columns(line) <= width,
    ensures
        columns(if_fits(line, columns(line), width, text)) <= width,
        if_fits(line, columns(line), width, text).take(line.len() as int) == line,
        columns(either_fits(line, columns(line), width, long, short)) <= width,
        either_fits(line, columns(line), width, long, short).take(line.len() as int) == line,
{
    lemma_columns_push(line, run(text, fg_style(DIM)));
    lemma_columns_push(line, run(long, fg_style(DIM)));
    lemma_columns_push(line, run(short, fg_style(DIM)));
    assert(line.take(line.len() as int) == line);
}

/// A value is red from the higher of two percentages, amber from the lower and
/// green below both.
pub proof fn colours_follow_the_thresholds(value: Ratio, warn: nat, bad: nat)
    requires
        value.den > 0,
        warn <= bad,
    ensures
        value.num * 100 >= bad * value.den ==> level_color(value, warn, bad) == Color::Red,
        warn * value.den <= value.num * 100 < bad * value.den ==> level_color(value, warn, bad)
            == Color::Yellow,
        value.num * 100 < warn * value.den ==> level_color(value, warn, bad) == Color::Green,
{
    assert(warn * value.den <= bad * value.den) by (nonlinear_arith)
        requires
            warn <= bad,
    ;
}

/// A suffix is shown exactly when there is room for all of it, and the longer of
/// two wherever it fits.
pub proof fn suffix_shows_where_it_fits(
    line: Seq<Run>,
    used: nat,
    width: nat,
    long: Seq<char>,
    short: Seq<char>,
)
    ensures
        used + long.len() <= width ==> if_fits(line, used, width, long).last().text == long
            && used_after(used, width, long) == used + long.len(),
        used + long.len() > width ==> if_fits(line, used, width, long) == line && used_after(
            used,
            width,
            long,
        ) == used,
        used + long.len() <= width ==> either_fits(line, used, width, long, short).last().text
            == long,
        used + long.len() > width && used + short.len() <= width ==> either_fits(
            line,
            used,
            width,
            long,
            short,
        ).last().text == short,
{
}

} // verus!
