//! The process table: what it lists, how its columns share the pane, and the
//! scrollbar beside it.

use vstd::prelude::*;

use super::{
    colours_follow_the_thresholds, header_style, heading_style, if_fits, level_color, positions,
    push_if_fits, threshold_color, Look,
};
use super::gauge::{bar, bar_fills_its_width, bar_runs, row_shade, shade_of, Depth, Glyphs, Ramp};
use super::system::{
    minus, CPU_NUM_W, MEM_W, PID_W, PROC_BAR_MIN_COLS, PROC_BAR_W, PROC_CMDLINE_MIN, PROC_NAME_W,
    THREADS_W, USER_W,
};
use crate::format::{clip, clipped, human_kb, size_kb};
use crate::paint::{
    add_line, bold_style, columns, fg_style, filled, lemma_columns_add, lemma_columns_push,
    no_lines, plain_style, run, shaded, shows, Color, Line, Run, Style, DIM, WARN,
};
use crate::panes::system::{rows_of, ProcRow, Row, SortBy, SystemPane};
use crate::snapshot::{command_of, command_text};
use crate::text::{
    contains, dec, decimal, has_prefix, lowercase, lowered, occurs_at, occurs_in, pad_left,
    pad_right, padded_left, padded_right, repeat, repeated, signed_dec, signed_decimal,
};

verus! {

/// Widths of the table's flexible columns. A column of no width is not drawn.
#[derive(Debug, Clone, Copy, PartialEq, Eq, Structural)]
pub struct ProcColumns {
    pub name: usize,
    pub cmdline: usize,
    pub user: usize,
    pub threads: usize,
    pub bar: usize,
}

/// Things are dropped in the order in which they stop paying for themselves:
/// the account and the threads first, which are context for a row already
/// found, then the command line, then the meter. Whatever survives, the
/// command line or else the name takes the slack.
pub open spec fn columns_of(width: int) -> ProcColumns {
    let available = minus(width, 3);
    let bar = if available >= PROC_BAR_MIN_COLS {
        PROC_BAR_W as int
    } else {
        0
    };
    let flexible = minus(available, PID_W + MEM_W + 3 + CPU_NUM_W + bar);
    if flexible >= PROC_NAME_W + PROC_CMDLINE_MIN + USER_W + THREADS_W {
        ProcColumns {
            name: PROC_NAME_W,
            cmdline: (flexible - PROC_NAME_W - USER_W - THREADS_W) as usize,
            user: USER_W,
            threads: THREADS_W,
            bar: bar as usize,
        }
    } else if flexible >= PROC_NAME_W + PROC_CMDLINE_MIN {
        ProcColumns {
            name: PROC_NAME_W,
            cmdline: (flexible - PROC_NAME_W) as usize,
            user: 0,
            threads: 0,
            bar: bar as usize,
        }
    } else {
        ProcColumns {
            name: if flexible < 8 {
                8
            } else {
                flexible as usize
            },
            cmdline: 0,
            user: 0,
            threads: 0,
            bar: bar as usize,
        }
    }
}

pub fn proc_columns(width: usize) -> (r: ProcColumns)
    ensures
        r == columns_of(width as int),
        r.name >= 8,
{
    let available: usize = width.saturating_sub(3);
    let bar: usize = if available >= PROC_BAR_MIN_COLS {
        PROC_BAR_W
    } else {
        0
    };
    let flexible: usize = available.saturating_sub(PID_W + MEM_W + 3 + CPU_NUM_W + bar);
    if flexible >= PROC_NAME_W + PROC_CMDLINE_MIN + USER_W + THREADS_W {
        ProcColumns {
            name: PROC_NAME_W,
            cmdline: flexible - PROC_NAME_W - USER_W - THREADS_W,
            user: USER_W,
            threads: THREADS_W,
            bar,
        }
    } else if flexible >= PROC_NAME_W + PROC_CMDLINE_MIN {
        ProcColumns {
            name: PROC_NAME_W,
            cmdline: flexible - PROC_NAME_W,
            user: 0,
            threads: 0,
            bar,
        }
    } else {
        let name: usize = if flexible < 8 {
            8
        } else {
            flexible
        };
        ProcColumns { name, cmdline: 0, user: 0, threads: 0, bar }
    }
}

/// From forty columns on, the columns of a process row never ask for more than
/// the pane has, so the CPU figure is never stranded past the frame.
pub proof fn process_columns_fit(width: int)
    requires
        40 <= width <= usize::MAX,
    ensures
        ({
            let c = columns_of(width);
            2 + PID_W + c.name + c.cmdline + c.user + c.threads + MEM_W + 3 + CPU_NUM_W + c.bar
                <= width
        }),
{
}

/// Whether a filter lets a process through: by its name or its command line,
/// whichever case either is in.
pub open spec fn matches_filter(row: Row, filter: Seq<char>) -> bool {
    ||| filter.len() == 0
    ||| occurs_in(lowered(row.name), lowered(filter))
    ||| occurs_in(lowered(row.cmdline), lowered(filter))
}

/// The positions of those of the first `n` processes that a filter lets
/// through, in order.
pub open spec fn listed(rows: Seq<Row>, filter: Seq<char>, n: nat) -> Seq<int>
    decreases n,
{
    if n == 0 {
        Seq::empty()
    } else {
        let before = listed(rows, filter, (n - 1) as nat);
        if matches_filter(rows[n - 1], filter) {
            before.push(n - 1)
        } else {
            before
        }
    }
}

fn passes(row: &ProcRow, filter: &str) -> (r: bool)
    ensures
        r == matches_filter(row@, filter@),
{
    if filter.unicode_len() == 0 {
        return true;
    }
    let wanted = lowercase(filter);
    contains(lowercase(row.name.as_str()).as_str(), wanted.as_str()) || contains(
        lowercase(row.cmdline.as_str()).as_str(),
        wanted.as_str(),
    )
}

fn list_rows(rows: &Vec<ProcRow>, filter: &str) -> (r: Vec<usize>)
    ensures
        positions(r@) == listed(rows_of(rows@), filter@, rows@.len()),
        r@.len() <= rows@.len(),
        forall|k: int| 0 <= k < r@.len() ==> (#[trigger] r@[k]) < rows@.len(),
{
    let ghost all = rows_of(rows@);
    let mut out: Vec<usize> = Vec::new();
    let mut i: usize = 0;
    assert(positions(out@) == Seq::<int>::empty());
    while i < rows.len()
        invariant
            i <= rows@.len(),
            all == rows_of(rows@),
            out@.len() <= i,
            positions(out@) == listed(all, filter@, i as nat),
            forall|k: int| 0 <= k < out@.len() ==> (#[trigger] out@[k]) < i,
        decreases rows@.len() - i,
    {
        assert(all[i as int] == rows@[i as int]@);
        if passes(&rows[i], filter) {
            let ghost before = out@;
            out.push(i);
            assert(positions(out@) == positions(before).push(i as int));
        }
        i = i + 1;
    }
    out
}

/// The part of a list that a table of some rows shows: scrolling past the end
/// parks the last row rather than emptying the table.
#[derive(Debug, Clone, Copy, PartialEq, Eq, Structural)]
pub struct Window {
    pub start: usize,
    pub end: usize,
}

pub open spec fn window_of(len: int, scroll: int, rows: int) -> Window {
    let start = if scroll < minus(len, rows) {
        scroll
    } else {
        minus(len, rows)
    };
    Window {
        start: start as usize,
        end: (if len - start < rows {
            len
        } else {
            start + rows
        }) as usize,
    }
}

pub fn window(len: usize, scroll: usize, rows: usize) -> (r: Window)
    ensures
        r == window_of(len as int, scroll as int, rows as int),
        r.start <= r.end <= len,
        r.end - r.start <= rows,
{
    let last: usize = len.saturating_sub(rows);
    let start: usize = if scroll < last {
        scroll
    } else {
        last
    };
    let end: usize = if len - start < rows {
        len
    } else {
        start + rows
    };
    Window { start, end }
}

/// However far it is scrolled, the table is as full as the list can make it,
/// and its last position shows the end of the list.
pub proof fn window_stays_full(len: int, scroll: int, rows: int)
    requires
        0 <= len <= usize::MAX,
        0 <= scroll <= usize::MAX,
        0 <= rows <= usize::MAX,
    ensures
        ({
            let w = window_of(len, scroll, rows);
            &&& w.start <= w.end <= len
            &&& w.end - w.start == if len < rows {
                len
            } else {
                rows
            }
            &&& scroll >= len ==> w.end == len
            &&& scroll == 0 ==> w.start == 0
        }),
{
}

/// Whether the scrollbar's thumb covers a row. There is no scrollbar beside a
/// list that is shown whole.
pub open spec fn thumb_at(len: int, w: Window, rows: int, row: int) -> Option<bool> {
    if len <= rows {
        None
    } else {
        Some(w.start <= row * len / rows < w.end)
    }
}

fn thumb(len: usize, w: Window, rows: usize, row: usize) -> (r: Option<bool>)
    requires
        row < rows,
    ensures
        r == thumb_at(len as int, w, rows as int, row as int),
{
    if len <= rows {
        None
    } else {
        assert(row * len <= usize::MAX * usize::MAX) by (nonlinear_arith)
            requires
                row <= usize::MAX,
                len <= usize::MAX,
        ;
        assert(usize::MAX * usize::MAX <= u128::MAX) by (nonlinear_arith)
            requires
                usize::MAX <= u64::MAX,
        ;
        let at: u128 = row as u128 * len as u128 / rows as u128;
        Some(w.start as u128 <= at && at < w.end as u128)
    }
}

/// How a filter reads in the heading: a filter that is on and unshown is a
/// table quietly misreporting what the machine is running.
pub open spec fn filter_words(filter: Seq<char>, editing: bool, glyphs: Glyphs) -> Seq<char> {
    let words = "filter: "@ + filter;
    if !editing {
        words
    } else {
        match glyphs {
            Glyphs::Unicode => words + "▏"@,
            Glyphs::Ascii => words + "_"@,
        }
    }
}

fn write_filter(filter: &str, editing: bool, glyphs: Glyphs) -> (r: String)
    ensures
        r@ == filter_words(filter@, editing, glyphs),
{
    let mut out = "filter: ".to_owned();
    out.append(filter);
    if editing {
        match glyphs {
            Glyphs::Unicode => out.append("▏"),
            Glyphs::Ascii => out.append("_"),
        }
    }
    out
}

/// Whether the heading has a filter to show.
pub open spec fn filtering(s: SystemPane) -> bool {
    s.filter@.len() > 0 || s.filter_editing
}

/// The heading of the command line column, or nothing where that is dropped.
pub open spec fn cmdline_words(s: SystemPane, width: nat, glyphs: Glyphs) -> Seq<char> {
    if width == 0 {
        ""@
    } else if filtering(s) {
        clipped(filter_words(s.filter@, s.filter_editing, glyphs), (width - 1) as nat)
    } else {
        "COMMAND LINE"@
    }
}

pub fn cmdline_heading(s: &SystemPane, width: usize, glyphs: Glyphs) -> (r: String)
    ensures
        r@ == cmdline_words(*s, width as nat, glyphs),
{
    if width == 0 {
        "".to_owned()
    } else if s.filter.as_str().unicode_len() > 0 || s.filter_editing {
        clip(write_filter(s.filter.as_str(), s.filter_editing, glyphs).as_str(), width - 1)
    } else {
        "COMMAND LINE".to_owned()
    }
}

/// The heading of the name column. It takes the filter where there is no
/// command line to take it.
pub open spec fn name_words(s: SystemPane, cols: ProcColumns, glyphs: Glyphs) -> Seq<char> {
    if cols.cmdline == 0 && filtering(s) {
        clipped(filter_words(s.filter@, s.filter_editing, glyphs), (cols.name - 1) as nat)
    } else {
        "COMMAND"@
    }
}

fn name_heading(s: &SystemPane, cols: ProcColumns, glyphs: Glyphs) -> (r: String)
    requires
        cols.name >= 8,
    ensures
        r@ == name_words(*s, cols, glyphs),
{
    if cols.cmdline == 0 && (s.filter.as_str().unicode_len() > 0 || s.filter_editing) {
        clip(write_filter(s.filter.as_str(), s.filter_editing, glyphs).as_str(), cols.name - 1)
    } else {
        "COMMAND".to_owned()
    }
}

/// How much of the list is shown, where that is not all of it.
pub open spec fn count_words(w: Window, total: nat) -> Seq<char> {
    if total <= w.end - w.start {
        ""@
    } else if w.start == 0 {
        " "@ + dec(w.end as nat) + "/"@ + dec(total)
    } else {
        " "@ + dec((w.start + 1) as nat) + "-"@ + dec(w.end as nat) + "/"@ + dec(total)
    }
}

fn write_count(w: Window, total: usize) -> (r: String)
    requires
        w.start <= w.end,
        w.start < usize::MAX,
    ensures
        r@ == count_words(w, total as nat),
{
    if total <= w.end - w.start {
        return "".to_owned();
    }
    let mut out = " ".to_owned();
    if w.start > 0 {
        out.append(decimal(w.start as u64 + 1).as_str());
        out.append("-");
    }
    out.append(decimal(w.end as u64).as_str());
    out.append("/");
    out.append(decimal(total as u64).as_str());
    out
}

/// The style of a heading: the column that the table is ordered by is coloured.
pub open spec fn sorted_style(s: SystemPane, column: SortBy, look: Look) -> Style {
    if s.sort == column {
        bold_style(look.accent)
    } else {
        heading_style()
    }
}

fn heading_for(s: &SystemPane, column: SortBy, look: Look) -> (r: Style)
    ensures
        r == sorted_style(*s, column, look),
{
    if s.sort == column {
        Style::bold(look.accent)
    } else {
        header_style()
    }
}

/// The left part of the table's heading.
pub open spec fn left_heading(s: SystemPane, cols: ProcColumns, glyphs: Glyphs) -> Seq<char> {
    "  "@ + padded_right("PID"@, PID_W as nat) + padded_right(
        name_words(s, cols, glyphs),
        cols.name as nat,
    ) + padded_right(cmdline_words(s, cols.cmdline as nat, glyphs), cols.cmdline as nat)
        + padded_right(
        if cols.user > 0 {
            "USER"@
        } else {
            ""@
        },
        cols.user as nat,
    ) + padded_left(
        if cols.threads > 0 {
            "THR"@
        } else {
            ""@
        },
        cols.threads as nat,
    )
}

fn write_left_heading(s: &SystemPane, cols: ProcColumns, glyphs: Glyphs) -> (r: String)
    requires
        cols.name >= 8,
    ensures
        r@ == left_heading(*s, cols, glyphs),
{
    let mut out = "  ".to_owned();
    out.append(pad_right("PID", PID_W).as_str());
    out.append(pad_right(name_heading(s, cols, glyphs).as_str(), cols.name).as_str());
    out.append(
        pad_right(cmdline_heading(s, cols.cmdline, glyphs).as_str(), cols.cmdline).as_str(),
    );
    let user = if cols.user > 0 {
        "USER"
    } else {
        ""
    };
    out.append(pad_right(user, cols.user).as_str());
    let threads = if cols.threads > 0 {
        "THR"
    } else {
        ""
    };
    out.append(pad_left(threads, cols.threads).as_str());
    out
}

/// The heading, and behind it how much of the list is shown, where that fits.
#[verifier::opaque]
pub open spec fn table_heading(
    s: SystemPane,
    look: Look,
    cols: ProcColumns,
    w: Window,
    width: nat,
) -> Seq<Run> {
    let left = left_heading(s, cols, look.glyphs);
    if_fits(
        seq![
            run(left, heading_style()),
            run(repeated(' ', (MEM_W - 3) as nat), heading_style()),
            run("MEM"@, sorted_style(s, SortBy::Memory, look)),
            run("   "@, heading_style()),
            run("CPU%"@, sorted_style(s, SortBy::Cpu, look)),
        ],
        left.len() + MEM_W as nat + 7,
        width,
        count_words(w, s.total_procs as nat),
    )
}

fn draw_heading(s: &SystemPane, look: Look, cols: ProcColumns, w: Window, width: usize) -> (r: Line)
    requires
        cols.name >= 8,
        w.start <= w.end,
        w.start < usize::MAX,
    ensures
        r@ == table_heading(*s, look, cols, w, width as nat),
{
    proof {
        reveal(table_heading);
    }
    let left = write_left_heading(s, cols, look.glyphs);
    let len: usize = left.as_str().unicode_len();
    let mut line = Line::of(left, header_style());
    line.push(repeat(' ', MEM_W - 3), header_style());
    line.push_str("MEM", heading_for(s, SortBy::Memory, look));
    line.push_str("   ", header_style());
    line.push_str("CPU%", heading_for(s, SortBy::Cpu, look));
    let ghost before = line@;
    assert(before == seq![
        run(left@, heading_style()),
        run(repeated(' ', (MEM_W - 3) as nat), heading_style()),
        run("MEM"@, sorted_style(*s, SortBy::Memory, look)),
        run("   "@, heading_style()),
        run("CPU%"@, sorted_style(*s, SortBy::Cpu, look)),
    ]);
    let text = write_count(w, s.total_procs);
    if len <= usize::MAX - (MEM_W + 7) {
        let mut used: usize = len + MEM_W + 7;
        push_if_fits(&mut line, &mut used, width, text);
    }
    line
}

/// How a process name is drawn. Uninterruptible sleep is worth spotting: it is
/// almost always the card.
pub open spec fn name_style(state: char) -> Style {
    fg_style(
        if state == 'D' {
            WARN
        } else {
            Color::White
        },
    )
}

/// The thread count of a process. Almost everything has one thread, and a
/// column of ones hides the numbers that matter.
pub open spec fn threads_text(threads: u64) -> Seq<char> {
    if threads > 1 {
        dec(threads as nat)
    } else {
        ""@
    }
}

/// The columns of a process that say which it is. Each is clipped one short of
/// its column, so that no two ever touch.
#[verifier::opaque]
pub open spec fn which_process(row: Row, cols: ProcColumns) -> Seq<Run> {
    let name = seq![
        run("  "@ + padded_right(signed_dec(row.pid as int), PID_W as nat), fg_style(DIM)),
        run(
            padded_right(clipped(row.name, (cols.name - 1) as nat), cols.name as nat),
            name_style(row.state),
        ),
    ];
    let command = if cols.cmdline > 0 {
        name.push(
            run(
                padded_right(
                    clipped(command_of(row), (cols.cmdline - 1) as nat),
                    cols.cmdline as nat,
                ),
                fg_style(
                    if row.cmdline.len() == 0 {
                        DIM
                    } else {
                        Color::Gray
                    },
                ),
            ),
        )
    } else {
        name
    };
    let user = if cols.user > 0 {
        command.push(
            run(
                padded_right(clipped(row.user, (cols.user - 1) as nat), cols.user as nat),
                fg_style(DIM),
            ),
        )
    } else {
        command
    };
    if cols.threads > 0 {
        user.push(run(padded_left(threads_text(row.threads), cols.threads as nat), fg_style(DIM)))
    } else {
        user
    }
}

fn draw_which(row: &ProcRow, cols: ProcColumns) -> (r: Line)
    requires
        cols.name >= 8,
    ensures
        r@ == which_process(row@, cols),
{
    proof {
        reveal(which_process);
    }
    let mut pid = "  ".to_owned();
    pid.append(pad_right(signed_decimal(row.pid as i64).as_str(), PID_W).as_str());
    let mut line = Line::of(pid, Style::fg(DIM));
    let color = if row.state == 'D' {
        WARN
    } else {
        Color::White
    };
    line.push(
        pad_right(clip(row.name.as_str(), cols.name - 1).as_str(), cols.name),
        Style::fg(color),
    );
    if cols.cmdline > 0 {
        let color = if row.cmdline.as_str().unicode_len() == 0 {
            DIM
        } else {
            Color::Gray
        };
        line.push(
            pad_right(
                clip(command_text(row).as_str(), cols.cmdline - 1).as_str(),
                cols.cmdline,
            ),
            Style::fg(color),
        );
    }
    if cols.user > 0 {
        line.push(
            pad_right(clip(row.user.as_str(), cols.user - 1).as_str(), cols.user),
            Style::fg(DIM),
        );
    }
    if cols.threads > 0 {
        let threads = if row.threads > 1 {
            decimal(row.threads)
        } else {
            "".to_owned()
        };
        line.push(pad_left(threads.as_str(), cols.threads), Style::fg(DIM));
    }
    line
}

/// A process: which it is, and what it uses. The meter is scaled against one
/// core, which is what the number beside it means.
#[verifier::opaque]
pub open spec fn process_runs(row: Row, cols: ProcColumns, look: Look) -> Seq<Run> {
    let numbers = which_process(row, cols).push(
        run(padded_left(size_kb(row.rss_kb as nat), MEM_W as nat) + "   "@, plain_style()),
    ).push(
        run(
            padded_left(row.cpu.percent_text(1), 5) + " "@,
            fg_style(level_color(row.cpu, 25, 75)),
        ),
    );
    if cols.bar > 0 {
        numbers + bar_runs(look.depth, row.cpu, cols.bar as nat, look.glyphs, Ramp::Load)
    } else {
        numbers
    }
}

fn draw_process(row: &ProcRow, cols: ProcColumns, look: Look) -> (r: Line)
    requires
        cols.name >= 8,
        cols.bar <= PROC_BAR_W,
    ensures
        r@ == process_runs(row@, cols, look),
{
    proof {
        reveal(process_runs);
    }
    let mut line = draw_which(row, cols);
    let mut memory = pad_left(human_kb(row.rss_kb).as_str(), MEM_W);
    memory.append("   ");
    line.push(memory, Style::plain());
    let mut cpu = pad_left(row.cpu.percent(1).as_str(), 5);
    cpu.append(" ");
    line.push(cpu, Style::fg(threshold_color(row.cpu, 25, 75)));
    if cols.bar > 0 {
        line.extend(bar(look.depth, row.cpu, cols.bar, look.glyphs, Ramp::Load));
    }
    line
}

/// The cell of the scrollbar.
pub open spec fn thumb_runs(lit: bool, look: Look) -> Run {
    run(
        seq![
            if lit {
                look.glyphs.full_char()
            } else {
                look.glyphs.track_char()
            },
        ],
        fg_style(DIM),
    )
}

/// The background of a row of the table: every second one is striped.
pub open spec fn row_background(look: Look, row: int) -> Option<Color> {
    if row % 2 == 1 {
        shade_of(look.depth)
    } else {
        None
    }
}

/// One row of the table, with the scrollbar and the stripe. Both reach the
/// frame, so such a row is filled up to it.
#[verifier::opaque]
pub open spec fn table_row(
    row: Row,
    cols: ProcColumns,
    look: Look,
    width: nat,
    thumb: Option<bool>,
    position: int,
) -> Seq<Run> {
    let line = process_runs(row, cols, look);
    let barred = match thumb {
        None => line,
        Some(lit) => filled(line, minus(width as int, 1) as nat).push(thumb_runs(lit, look)),
    };
    match row_background(look, position) {
        Some(shade) => shaded(filled(barred, width), shade),
        None => barred,
    }
}

fn draw_row(
    row: &ProcRow,
    cols: ProcColumns,
    look: Look,
    width: usize,
    thumb: Option<bool>,
    position: usize,
) -> (r: Line)
    requires
        cols.name >= 8,
        cols.bar <= PROC_BAR_W,
    ensures
        r@ == table_row(row@, cols, look, width as nat, thumb, position as int),
{
    proof {
        reveal(table_row);
    }
    let mut line = draw_process(row, cols, look);
    match thumb {
        None => {},
        Some(lit) => {
            line.pad_to(width.saturating_sub(1));
            let cell = if lit {
                look.glyphs.full()
            } else {
                look.glyphs.track()
            };
            let text = repeat(cell, 1);
            assert(text@ == thumb_runs(lit, look).text);
            line.push(text, Style::fg(DIM));
        },
    }
    if position % 2 == 1 {
        if let Some(shade) = row_shade(look.depth) {
            line.pad_to(width);
            line.shade(shade);
        }
    }
    line
}

/// What stands in a table that has no processes yet.
pub open spec fn waiting_words(glyphs: Glyphs) -> Seq<char> {
    match glyphs {
        Glyphs::Unicode => "  waiting for a second sample…"@,
        Glyphs::Ascii => "  waiting for a second sample..."@,
    }
}

/// The rows of the table that a window shows.
pub open spec fn shown_rows(
    s: SystemPane,
    look: Look,
    cols: ProcColumns,
    w: Window,
    width: nat,
    rows: int,
) -> Seq<Seq<Run>> {
    let all = rows_of(s.procs@);
    let order = listed(all, s.filter@, all.len());
    Seq::new(
        (w.end - w.start) as nat,
        |r: int|
            table_row(
                all[order[w.start + r]],
                cols,
                look,
                width,
                thumb_at(order.len() as int, w, rows, r),
                r,
            ),
    )
}

/// The window of the table.
pub open spec fn table_window(s: SystemPane, rows: int) -> Window {
    let all = rows_of(s.procs@);
    window_of(listed(all, s.filter@, all.len()).len() as int, s.scroll as int, rows)
}

/// The whole table: its heading, the rows of the window, and a word where
/// there is nothing to list yet.
pub open spec fn table_lines(s: SystemPane, look: Look, width: nat, rows: nat) -> Seq<Seq<Run>> {
    let cols = columns_of(width as int);
    let w = table_window(s, rows as int);
    let body = seq![table_heading(s, look, cols, w, width)] + shown_rows(
        s,
        look,
        cols,
        w,
        width,
        rows as int,
    );
    if s.procs@.len() == 0 {
        body.push(seq![run(waiting_words(look.glyphs), fg_style(DIM))])
    } else {
        body
    }
}

pub fn draw_table(s: &SystemPane, look: Look, width: usize, rows: usize) -> (r: Vec<Line>)
    requires
        rows > 0,
    ensures
        shows(r@) == table_lines(*s, look, width as nat, rows as nat),
{
    let cols = proc_columns(width);
    let order = list_rows(&s.procs, s.filter.as_str());
    let w = window(order.len(), s.scroll, rows);
    let ghost all = rows_of(s.procs@);
    let ghost wanted = listed(all, s.filter@, all.len());
    assert(positions(order@).len() == order@.len());
    assert(w == table_window(*s, rows as int));
    let mut lines = no_lines();
    add_line(&mut lines, draw_heading(s, look, cols, w, width));
    let ghost head = seq![table_heading(*s, look, cols, w, width as nat)];
    let ghost body = shown_rows(*s, look, cols, w, width as nat, rows as int);
    let mut r: usize = 0;
    assert(shows(lines@) == head + body.take(0));
    while r < w.end - w.start
        invariant
            r <= w.end - w.start,
            w.start <= w.end <= order@.len(),
            w.end - w.start <= rows,
            cols.name >= 8,
            cols.bar <= PROC_BAR_W,
            all == rows_of(s.procs@),
            wanted == listed(all, s.filter@, all.len()),
            positions(order@) == wanted,
            forall|k: int| 0 <= k < order@.len() ==> (#[trigger] order@[k]) < s.procs@.len(),
            body == shown_rows(*s, look, cols, w, width as nat, rows as int),
            shows(lines@) == head + body.take(r as int),
        decreases w.end - w.start - r,
    {
        let at: usize = order[w.start + r];
        assert(positions(order@)[w.start + r] == at);
        assert(all[at as int] == s.procs@[at as int]@);
        let bar_cell = thumb(order.len(), w, rows, r);
        let line = draw_row(&s.procs[at], cols, look, width, bar_cell, r);
        assert(line@ == body[r as int]);
        add_line(&mut lines, line);
        assert(body.take(r + 1) == body.take(r as int).push(body[r as int]));
        r = r + 1;
    }
    assert(body.take(r as int) == body);
    if s.procs.len() == 0 {
        let words = match look.glyphs {
            Glyphs::Unicode => "  waiting for a second sample…",
            Glyphs::Ascii => "  waiting for a second sample...",
        };
        add_line(&mut lines, Line::of(words.to_owned(), Style::fg(DIM)));
    }
    lines
}

/// From forty columns on, a process row stays within its pane, as long as its
/// figures have no more digits than their columns are made for.
pub proof fn process_row_fits(row: Row, look: Look, width: int)
    requires
        40 <= width <= usize::MAX,
        signed_dec(row.pid as int).len() <= PID_W,
        size_kb(row.rss_kb as nat).len() <= MEM_W,
        row.cpu.percent_text(1).len() <= 5,
        threads_text(row.threads).len() <= THREADS_W,
    ensures
        columns(process_runs(row, columns_of(width), look)) <= width,
{
    reveal(process_runs);
    reveal(which_process);
    reveal_strlit("  ");
    reveal_strlit("   ");
    reveal_strlit(" ");
    let cols = columns_of(width);
    process_columns_fit(width);
    bar_fills_its_width(look.depth, row.cpu, cols.bar as nat, look.glyphs, Ramp::Load);
    let pid = run("  "@ + padded_right(signed_dec(row.pid as int), PID_W as nat), fg_style(DIM));
    let name = run(
        padded_right(clipped(row.name, (cols.name - 1) as nat), cols.name as nat),
        name_style(row.state),
    );
    let both = seq![pid, name];
    assert(both == Seq::<Run>::empty().push(pid).push(name));
    lemma_columns_push(Seq::empty(), pid);
    lemma_columns_push(seq![pid], name);
    let command_run = run(
        padded_right(clipped(command_of(row), (cols.cmdline - 1) as nat), cols.cmdline as nat),
        fg_style(
            if row.cmdline.len() == 0 {
                DIM
            } else {
                Color::Gray
            },
        ),
    );
    lemma_columns_push(both, command_run);
    let command = if cols.cmdline > 0 {
        both.push(command_run)
    } else {
        both
    };
    let user_run = run(
        padded_right(clipped(row.user, (cols.user - 1) as nat), cols.user as nat),
        fg_style(DIM),
    );
    lemma_columns_push(command, user_run);
    let user = if cols.user > 0 {
        command.push(user_run)
    } else {
        command
    };
    let threads_run = run(
        padded_left(threads_text(row.threads), cols.threads as nat),
        fg_style(DIM),
    );
    lemma_columns_push(user, threads_run);
    let which = which_process(row, cols);
    assert(columns(which) <= 2 + PID_W + cols.name + cols.cmdline + cols.user + cols.threads);
    let memory = run(
        padded_left(size_kb(row.rss_kb as nat), MEM_W as nat) + "   "@,
        plain_style(),
    );
    lemma_columns_push(which, memory);
    let cpu = run(
        padded_left(row.cpu.percent_text(1), 5) + " "@,
        fg_style(level_color(row.cpu, 25, 75)),
    );
    lemma_columns_push(which.push(memory), cpu);
    lemma_columns_add(
        which.push(memory).push(cpu),
        bar_runs(look.depth, row.cpu, cols.bar as nat, look.glyphs, Ramp::Load),
    );
}

/// A process is listed where its name or its command holds the filter, in any
/// case, and every one is where there is no filter.
pub proof fn filter_looks_at_name_and_command(row: Row, filter: Seq<char>)
    ensures
        matches_filter(row, Seq::empty()),
        filter.len() > 0 ==> (matches_filter(row, filter) <==> occurs_in(
            lowered(row.name),
            lowered(filter),
        ) || occurs_in(lowered(row.cmdline), lowered(filter))),
        matches_filter(row, row.name),
        matches_filter(row, row.cmdline),
        matches_filter(row, lowered(filter)) <==> matches_filter(row, filter),
{
    let a = lowered(row.name);
    assert(a.subrange(0, a.len() as int) == a);
    assert(occurs_at(a, a, 0));
    let b = lowered(row.cmdline);
    assert(b.subrange(0, b.len() as int) == b);
    assert(occurs_at(b, b, 0));
    assert(lowered(lowered(filter)) == lowered(filter));
}

/// Exactly the processes that pass the filter are listed, in the order of the
/// table.
pub proof fn listed_are_those_that_pass(rows: Seq<Row>, filter: Seq<char>, n: nat, i: int)
    requires
        n <= rows.len(),
    ensures
        listed(rows, filter, n).contains(i) <==> 0 <= i < n && matches_filter(rows[i], filter),
        forall|j: int, k: int|
            0 <= j < k < listed(rows, filter, n).len() ==> #[trigger] listed(rows, filter, n)[j]
                < #[trigger] listed(rows, filter, n)[k],
        forall|k: int|
            0 <= k < listed(rows, filter, n).len() ==> 0 <= #[trigger] listed(rows, filter, n)[k]
                < n,
        filter.len() == 0 ==> listed(rows, filter, n).len() == n,
    decreases n,
{
    if n > 0 {
        let m = (n - 1) as nat;
        listed_are_those_that_pass(rows, filter, m, i);
        let before = listed(rows, filter, m);
        let all = listed(rows, filter, n);
        if before.contains(i) {
            let k = choose|k: int| 0 <= k < before.len() && before[k] == i;
            assert(all[k] == i);
        }
        if all.contains(i) {
            let k = choose|k: int| 0 <= k < all.len() && all[k] == i;
            if k < before.len() {
                assert(before[k] == i);
                assert(before.contains(i));
            }
        }
        if i == m && matches_filter(rows[i], filter) {
            assert(all[before.len() as int] == i);
        }
    }
}

/// The rows shown are those scrolled to, and the last of them is the last of the
/// list once it has been reached.
pub proof fn window_follows_the_scroll(len: int, scroll: int, rows: int)
    requires
        0 <= len <= usize::MAX,
        0 <= scroll <= usize::MAX,
        0 <= rows <= usize::MAX,
    ensures
        scroll + rows <= len ==> window_of(len, scroll, rows).start == scroll && window_of(
            len,
            scroll,
            rows,
        ).end == scroll + rows,
        scroll + rows > len ==> window_of(len, scroll, rows).end == len,
        len <= rows ==> window_of(len, scroll, rows).start == 0,
{
}

/// A list that is shown whole has no thumb; in one that is not, the thumb is at
/// the top exactly when the first row is shown.
pub proof fn thumb_shows_where_one_is(len: int, scroll: int, rows: int)
    requires
        0 <= len <= usize::MAX,
        0 <= scroll <= usize::MAX,
        0 < rows <= usize::MAX,
    ensures
        len <= rows ==> thumb_at(len, window_of(len, scroll, rows), rows, 0) is None,
        len > rows ==> (thumb_at(len, window_of(len, scroll, rows), rows, 0) == Some(true) <==> scroll
            == 0),
{
    assert(0 * len / rows == 0) by (nonlinear_arith)
        requires
            rows > 0,
    ;
}

/// The column that the table is sorted by, and only it, has the accent.
pub proof fn sorted_column_has_the_accent(s: SystemPane, look: Look)
    requires
        look.accent != DIM,
    ensures
        sorted_style(s, SortBy::Cpu, look) == bold_style(look.accent) <==> s.sort == SortBy::Cpu,
        sorted_style(s, SortBy::Memory, look) == bold_style(look.accent) <==> s.sort
            == SortBy::Memory,
{
}

/// A process that waits for a disk stands out, and one with a single thread does
/// not say so.
pub proof fn waiting_processes_stand_out(state: char, threads: u64)
    ensures
        name_style(state) == fg_style(Color::Yellow) <==> state == 'D',
        threads <= 1 ==> threads_text(threads) == ""@,
        threads > 1 ==> threads_text(threads) == dec(threads as nat),
{
}

/// The share of a process is red from three quarters of a core, amber from one
/// and green below.
pub proof fn busy_processes_have_their_colours(row: Row, cols: ProcColumns, look: Look)
    requires
        row.cpu.den > 0,
        cols.bar == 0,
    ensures
        ({
            let figure = process_runs(row, cols, look).last();
            &&& 100 * row.cpu.num >= 75 * row.cpu.den ==> figure.style == fg_style(Color::Red)
            &&& 25 * row.cpu.den <= 100 * row.cpu.num < 75 * row.cpu.den ==> figure.style
                == fg_style(Color::Yellow)
            &&& 100 * row.cpu.num < 25 * row.cpu.den ==> figure.style == fg_style(Color::Green)
            &&& figure.text == padded_left(row.cpu.percent_text(1), 5) + " "@
        }),
{
    reveal(process_runs);
    colours_follow_the_thresholds(row.cpu, 25, 75);
}

/// The heading says which rows are shown wherever not all of them are.
pub proof fn heading_counts_what_is_hidden(w: Window, total: nat)
    requires
        w.start <= w.end <= total,
    ensures
        count_words(w, total) == ""@ <==> w.end - w.start == total,
        w.start == 0 && w.end < total ==> count_words(w, total) == " "@ + dec(w.end as nat) + "/"@
            + dec(total),
        w.start > 0 ==> count_words(w, total) == " "@ + dec((w.start + 1) as nat) + "-"@ + dec(
            w.end as nat,
        ) + "/"@ + dec(total),
{
    reveal_strlit("");
    reveal_strlit(" ");
    if w.end - w.start < total {
        assert(count_words(w, total).len() > 0);
    }
}

/// Every other row is shaded, where the palette has a shade.
pub proof fn every_other_row_is_shaded(look: Look, row: int)
    requires
        row >= 0,
    ensures
        row % 2 == 0 ==> row_background(look, row) is None,
        row % 2 == 1 ==> (row_background(look, row) is Some <==> look.depth == Depth::Cube256),
{
}

/// A filter that is being typed or that is set stands in the heading, and the
/// cursor only while it is being typed.
pub proof fn filter_is_shown_while_it_holds(s: SystemPane, width: nat, glyphs: Glyphs)
    requires
        width > 0,
    ensures
        s.filter@.len() == 0 && !s.filter_editing ==> cmdline_words(s, width, glyphs)
            == "COMMAND LINE"@,
        s.filter@.len() > 0 || s.filter_editing ==> cmdline_words(s, width, glyphs) == clipped(
            filter_words(s.filter@, s.filter_editing, glyphs),
            (width - 1) as nat,
        ),
        filter_words(s.filter@, false, glyphs) == "filter: "@ + s.filter@,
        filter_words(s.filter@, true, glyphs).len() > filter_words(s.filter@, false, glyphs).len(),
        has_prefix(filter_words(s.filter@, true, glyphs), filter_words(s.filter@, false, glyphs)),
{
    reveal_strlit("▏");
    reveal_strlit("_");
    let plain = "filter: "@ + s.filter@;
    let typed = filter_words(s.filter@, true, glyphs);
    assert(typed.take(plain.len() as int) == plain);
}

} // verus!
