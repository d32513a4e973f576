//! The system pane: CPU, memory, disks, network, and the top processes.
//!
//! A scrolling history graph beside per-core meters, the memory, disk and
//! network figures in one band across the pane, then the busiest processes.

use vstd::prelude::*;

use super::{
    colours_follow_the_thresholds, either_fits, field, field_runs, header_style, heading_style,
    if_fits, level_color, positions, push_either, push_if_fits, threshold_color, used_after, Look,
    GUTTER,
};
use super::gauge::{
    area_graph, bar, bar_runs, graph_lines, parts_of_peak, scale_to_peak, spark_runs, sparkline,
    Glyphs, Ramp,
};
use super::processes::{draw_table, table_lines};
use crate::format::{clip, clipped, human_bytes, human_kb, human_rate_compact, rate_short, size_kb};
use crate::numeric::Ratio;
use crate::paint::{
    add_line, add_lines, bold_style, fg_style, filled, no_lines, plain_style, run, shows, Color,
    Line, Run, Style, DIM, WARN,
};
use crate::panes::health::{mount_label, mounted, sum_up, Filesystem, HealthPane, Mounted};
use crate::panes::radios::{iface_rows, Iface, IfaceRow, RadiosPane};
use crate::panes::system::{less, SystemPane};
use crate::snapshot::{load_text, memory_share, swap_text, swap_words, write_load};
use crate::text::{
    dec, decimal, has_prefix, has_suffix, pad_left, pad_right, padded_left, padded_right,
};

verus! {

/// The aggregate meters size themselves to the pane, within these bounds.
pub const METER_MIN: usize = 12;

pub const METER_MAX: usize = 24;

/// Process table columns.
pub const PID_W: usize = 8;

pub const MEM_W: usize = 7;

/// Wide enough for a process pegging four cores.
pub const CPU_NUM_W: usize = 6;

pub const PROC_BAR_W: usize = 10;

/// Below this the per-process meter is dropped.
pub const PROC_BAR_MIN_COLS: usize = 66;

/// The name column, once there is a command line beside it.
pub const PROC_NAME_W: usize = 18;

/// Less command line than this shows a cut path and none of the arguments.
pub const PROC_CMDLINE_MIN: usize = 30;

/// The thread count and the owning account, which are shown together.
pub const THREADS_W: usize = 5;

pub const USER_W: usize = 10;

/// Rows that the history graph may have. Fewer than the least turn every shape
/// into the same flat block.
pub const GRAPH_MAX_ROWS: usize = 6;

pub const GRAPH_MIN_ROWS: usize = 3;

/// Process rows that the graph does not eat into.
pub const PROC_ROWS_RESERVED: usize = 5;

/// Columns that the core column spends on things that are not its meter.
pub const CORE_LABEL: usize = 4;

pub const CORE_TAIL: usize = 7;

pub const CORE_METER_MIN: usize = 6;

pub const CORE_METER_MAX: usize = 14;

/// Enough graph to be worth the columns it takes.
pub const GRAPH_MIN_WIDTH: usize = 30;

/// Cores past which the vertical column stops being a summary.
pub const SIDE_BY_SIDE_MAX_CORES: usize = 8;

pub const CORE_SPARK: usize = 8;

/// Lines besides the CPU's that the pane always writes: memory, available,
/// cache, swap, a blank one and the table's heading.
pub const FIXED_ROWS: usize = 6;

/// How the CPU block is laid out.
#[derive(Debug, Clone, Copy, PartialEq, Eq, Structural)]
pub struct CpuLayout {
    /// The graph beside the core column rather than above a grid.
    pub side_by_side: bool,
    /// Rows of graph. None means that there was no room for one.
    pub rows: usize,
    /// Cells of graph.
    pub graph_width: usize,
    /// Width of each per-core meter.
    pub core_meter: usize,
    /// Cells of sparkline beside each core meter. None drops them.
    pub core_spark: usize,
    /// Cores in a row of the grid.
    pub per_row: usize,
}

pub open spec fn minus(a: int, b: int) -> int {
    if a < b {
        0
    } else {
        a - b
    }
}

pub open spec fn clamped(n: int, low: int, high: int) -> int {
    if n < low {
        low
    } else if n > high {
        high
    } else {
        n
    }
}

/// The columns of the core column at its widest, with a gap before it.
pub open spec fn core_column() -> int {
    CORE_LABEL + CORE_METER_MAX + CORE_TAIL + CORE_SPARK + 2
}

/// Whether the pane is wide enough for a real graph and a core column, tall
/// enough to leave the process table its rows, and short enough in cores that
/// the column is still a summary.
pub open spec fn fits_side_by_side(width: int, height: int, cores: int) -> bool {
    &&& 0 < cores <= SIDE_BY_SIDE_MAX_CORES
    &&& width - 2 >= core_column() + GRAPH_MIN_WIDTH
    &&& height >= cores + 2 + FIXED_ROWS + PROC_ROWS_RESERVED
}

/// Meters in a row of the grid, and the width of each: as many as the smallest
/// cell allows, then widened into what is left over.
pub open spec fn grid_of(width: int, cores: int) -> (int, int) {
    let available = minus(width, 2);
    let fits = available / (CORE_LABEL + CORE_METER_MIN + CORE_TAIL) as int;
    let most = if fits < 1 {
        1
    } else {
        fits
    };
    let per_row = if cores == 0 {
        1
    } else if most < cores {
        most
    } else {
        cores
    };
    (
        per_row,
        clamped(
            minus(available / per_row, CORE_LABEL + CORE_TAIL),
            CORE_METER_MIN as int,
            CORE_METER_MAX as int,
        ),
    )
}

/// How many per-core meters fit on a grid row, and how wide each one gets.
pub fn core_grid(width: usize, cores: usize) -> (r: (usize, usize))
    ensures
        (r.0 as int, r.1 as int) == grid_of(width as int, cores as int),
        r.0 >= 1,
        cores > 0 ==> r.0 <= cores,
        CORE_METER_MIN <= r.1 <= CORE_METER_MAX,
{
    let available: usize = width.saturating_sub(2);
    let fits: usize = available / (CORE_LABEL + CORE_METER_MIN + CORE_TAIL);
    let most: usize = if fits < 1 {
        1
    } else {
        fits
    };
    let per_row: usize = if cores == 0 {
        1
    } else if most < cores {
        most
    } else {
        cores
    };
    let room: usize = (available / per_row).saturating_sub(CORE_LABEL + CORE_TAIL);
    let meter: usize = if room < CORE_METER_MIN {
        CORE_METER_MIN
    } else if room > CORE_METER_MAX {
        CORE_METER_MAX
    } else {
        room
    };
    (per_row, meter)
}

/// Rows for the graph where it stands above the grid. None when there is not
/// enough room for one worth looking at.
pub open spec fn stacked_rows(height: int, core_rows: int) -> int {
    let spare = minus(height, 1 + core_rows + FIXED_ROWS + PROC_ROWS_RESERVED);
    if spare < GRAPH_MIN_ROWS {
        0
    } else if spare > GRAPH_MAX_ROWS {
        GRAPH_MAX_ROWS as int
    } else {
        spare
    }
}

pub fn stacked_graph_rows(height: usize, core_rows: usize) -> (r: usize)
    ensures
        r == stacked_rows(height as int, core_rows as int),
{
    let taken: usize = core_rows.saturating_add(1 + FIXED_ROWS + PROC_ROWS_RESERVED);
    let spare: usize = height.saturating_sub(taken);
    if spare < GRAPH_MIN_ROWS {
        0
    } else if spare > GRAPH_MAX_ROWS {
        GRAPH_MAX_ROWS
    } else {
        spare
    }
}

/// Rows of the grid.
pub open spec fn grid_rows(cores: int, per_row: int) -> int {
    (cores + per_row - 1) / per_row
}

/// The plan for the CPU block.
pub open spec fn cpu_plan(width: int, height: int, cores: int) -> CpuLayout {
    if fits_side_by_side(width, height, cores) {
        CpuLayout {
            side_by_side: true,
            rows: (cores + 2) as usize,
            graph_width: (width - 2 - core_column()) as usize,
            core_meter: CORE_METER_MAX,
            core_spark: CORE_SPARK,
            per_row: 1,
        }
    } else {
        let (per_row, meter) = grid_of(width, cores);
        CpuLayout {
            side_by_side: false,
            rows: stacked_rows(height, grid_rows(cores, per_row)) as usize,
            graph_width: minus(width, GUTTER + 1) as usize,
            core_meter: meter as usize,
            core_spark: 0,
            per_row: per_row as usize,
        }
    }
}

/// Plans the CPU block.
pub fn cpu_layout(width: usize, height: usize, cores: usize) -> (r: CpuLayout)
    ensures
        r == cpu_plan(width as int, height as int, cores as int),
{
    let available: usize = width.saturating_sub(2);
    let column: usize = CORE_LABEL + CORE_METER_MAX + CORE_TAIL + CORE_SPARK + 2;
    if cores > 0 && cores <= SIDE_BY_SIDE_MAX_CORES && available >= column + GRAPH_MIN_WIDTH
        && height >= cores + 2 + FIXED_ROWS + PROC_ROWS_RESERVED {
        return CpuLayout {
            side_by_side: true,
            rows: cores + 2,
            graph_width: available - column,
            core_meter: CORE_METER_MAX,
            core_spark: CORE_SPARK,
            per_row: 1,
        };
    }
    let (per_row, core_meter) = core_grid(width, cores);
    let core_rows: usize = if cores == 0 {
        0
    } else {
        (cores - 1) / per_row + 1
    };
    proof {
        let c = cores as int;
        let p = per_row as int;
        if c > 0 {
            assert((c - 1) / p + 1 == (c + p - 1) / p) by (nonlinear_arith)
                requires
                    p > 0,
                    c > 0,
            ;
        } else {
            assert((0 + p - 1) / p == 0) by (nonlinear_arith)
                requires
                    p > 0,
            ;
        }
    }
    CpuLayout {
        side_by_side: false,
        rows: stacked_graph_rows(height, core_rows),
        graph_width: width.saturating_sub(GUTTER + 1),
        core_meter,
        core_spark: 0,
        per_row,
    }
}

/// Where the graph stands beside the cores, both fit the pane, and the process
/// table keeps the rows that are reserved for it.
pub proof fn side_by_side_fits(width: int, height: int, cores: int)
    requires
        fits_side_by_side(width, height, cores),
        width <= usize::MAX,
    ensures
        ({
            let plan = cpu_plan(width, height, cores);
            &&& 2 + plan.graph_width + 2 + CORE_LABEL + plan.core_meter + CORE_TAIL
                + plan.core_spark <= width
            &&& plan.rows + FIXED_ROWS + PROC_ROWS_RESERVED <= height
            &&& plan.graph_width >= GRAPH_MIN_WIDTH
        }),
{
}

/// A row of the grid never runs past a pane that can hold one cell.
pub proof fn grid_row_fits(width: int, cores: int)
    requires
        width >= CORE_LABEL + CORE_METER_MIN + CORE_TAIL + 2,
        cores >= 0,
    ensures
        ({
            let (per_row, meter) = grid_of(width, cores);
            &&& per_row >= 1
            &&& per_row * (CORE_LABEL + meter + CORE_TAIL) <= width - 2
        }),
{
    let available = width - 2;
    let cell = (CORE_LABEL + CORE_METER_MIN + CORE_TAIL) as int;
    let fits = available / cell;
    let (per_row, meter) = grid_of(width, cores);
    assert(fits >= 1) by (nonlinear_arith)
        requires
            available >= cell,
            cell == 17,
            fits == available / cell,
    ;
    assert(1 <= per_row <= fits);
    let share = available / per_row;
    assert(per_row * share <= available) by (nonlinear_arith)
        requires
            per_row >= 1,
            share == available / per_row,
            available >= 0,
    ;
    assert(share >= cell) by (nonlinear_arith)
        requires
            1 <= per_row <= fits,
            fits == available / cell,
            cell == 17,
            available >= 0,
            share == available / per_row,
    ;
    assert(CORE_LABEL + meter + CORE_TAIL <= share);
    assert(per_row * (CORE_LABEL + meter + CORE_TAIL) <= per_row * share) by (nonlinear_arith)
        requires
            per_row >= 1,
            CORE_LABEL + meter + CORE_TAIL <= share,
    ;
}

/// Whatever the graph above the grid takes, every fixed line and the reserved
/// rows of the table still fit.
pub proof fn stacked_graph_leaves_the_table(height: int, core_rows: int)
    requires
        core_rows >= 0,
    ensures
        ({
            let graph = stacked_rows(height, core_rows);
            &&& graph == 0 || GRAPH_MIN_ROWS <= graph <= GRAPH_MAX_ROWS
            &&& graph > 0 ==> graph + 1 + core_rows + FIXED_ROWS + PROC_ROWS_RESERVED <= height
        }),
{
}

/// A share, or nothing where there is no reading.
pub open spec fn share_or_zero(share: Option<Ratio>) -> Ratio {
    match share {
        Some(s) => s,
        None => Ratio { num: 0, den: 1 },
    }
}

fn or_zero(share: Option<Ratio>) -> (r: Ratio)
    ensures
        r == share_or_zero(share),
{
    match share {
        Some(s) => s,
        None => Ratio::new(0, 1),
    }
}

/// The percentage beside the aggregate meter. Without two readings there is
/// none: a zero could not be told from an idle box.
pub open spec fn cpu_words(cpu: Option<Ratio>, glyphs: Glyphs) -> Seq<char> {
    match cpu {
        Some(share) => " "@ + padded_left(share.percent_text(0), 3) + "%"@,
        None => match glyphs {
            Glyphs::Unicode => "   —"@,
            Glyphs::Ascii => "   -"@,
        },
    }
}

pub fn cpu_value(cpu: Option<Ratio>, glyphs: Glyphs) -> (r: String)
    ensures
        r@ == cpu_words(cpu, glyphs),
{
    match cpu {
        Some(share) => {
            let mut out = " ".to_owned();
            out.append(pad_left(share.percent(0).as_str(), 3).as_str());
            out.append("%");
            out
        },
        None => match glyphs {
            Glyphs::Unicode => "   —".to_owned(),
            Glyphs::Ascii => "   -".to_owned(),
        },
    }
}

/// The line at the head of the core column.
pub open spec fn summary_runs(cpu: Option<Ratio>, look: Look, meter: nat) -> Seq<Run> {
    let share = share_or_zero(cpu);
    (seq![run("CPU "@, bold_style(DIM))] + bar_runs(
        look.depth,
        share,
        meter,
        look.glyphs,
        Ramp::Load,
    )).push(run(cpu_words(cpu, look.glyphs), bold_style(level_color(share, 60, 85))))
}

fn cpu_summary(cpu: Option<Ratio>, look: Look, meter: usize) -> (r: Line)
    requires
        meter * 8 <= usize::MAX,
    ensures
        r@ == summary_runs(cpu, look, meter as nat),
{
    let share = or_zero(cpu);
    let mut line = Line::of("CPU ".to_owned(), Style::bold(DIM));
    line.extend(bar(look.depth, share, meter, look.glyphs, Ramp::Load));
    line.push(cpu_value(cpu, look.glyphs), Style::bold(threshold_color(share, 60, 85)));
    line
}

/// A core's label. Two digits, so that a box with many cores does not shunt the
/// meters one column right half-way down.
pub open spec fn core_label(index: nat) -> Seq<char> {
    "c"@ + padded_right(dec(index), 2) + " "@
}

fn write_core_label(index: usize) -> (r: String)
    ensures
        r@ == core_label(index as nat),
{
    let mut out = "c".to_owned();
    out.append(pad_right(decimal(index as u64).as_str(), 2).as_str());
    out.append(" ");
    out
}

/// The share of one core.
pub open spec fn core_share_of(s: SystemPane, index: int) -> Ratio {
    if 0 <= index < s.cores@.len() {
        share_or_zero(s.cores@[index])
    } else {
        Ratio { num: 0, den: 1 }
    }
}

pub open spec fn core_history_of(s: SystemPane, index: int) -> Seq<Ratio> {
    if 0 <= index < s.core_history@.len() {
        s.core_history@[index]@
    } else {
        Seq::empty()
    }
}

fn core_share_at(s: &SystemPane, index: usize) -> (r: Ratio)
    ensures
        r == core_share_of(*s, index as int),
{
    if index < s.cores.len() {
        or_zero(s.cores[index])
    } else {
        Ratio::new(0, 1)
    }
}

/// One line of the core column: its label, its meter, its share and its
/// sparkline.
pub open spec fn core_runs(s: SystemPane, index: nat, look: Look, plan: CpuLayout) -> Seq<Run> {
    let share = core_share_of(s, index as int);
    let line = (seq![run(core_label(index), fg_style(DIM))] + bar_runs(
        look.depth,
        share,
        plan.core_meter as nat,
        look.glyphs,
        Ramp::Load,
    )).push(
        run(
            padded_left(share.percent_text(0), 4) + "% "@,
            fg_style(level_color(share, 60, 85)),
        ),
    );
    if plan.core_spark > 0 {
        line.push(run(" "@, plain_style())) + spark_runs(
            look.depth,
            core_history_of(s, index as int),
            plan.core_spark as nat,
            look.glyphs,
            Ramp::Load,
        )
    } else {
        line
    }
}

fn core_row(s: &SystemPane, index: usize, look: Look, plan: CpuLayout) -> (r: Line)
    requires
        plan.core_meter * 8 <= usize::MAX,
        plan.core_spark * 2 <= usize::MAX,
    ensures
        r@ == core_runs(*s, index as nat, look, plan),
{
    let share = core_share_at(s, index);
    let mut line = Line::of(write_core_label(index), Style::fg(DIM));
    line.extend(bar(look.depth, share, plan.core_meter, look.glyphs, Ramp::Load));
    let mut value = pad_left(share.percent(0).as_str(), 4);
    value.append("% ");
    line.push(value, Style::fg(threshold_color(share, 60, 85)));
    if plan.core_spark > 0 {
        line.push_str(" ", Style::plain());
        if index < s.core_history.len() {
            line.extend(
                sparkline(
                    look.depth,
                    &s.core_history[index],
                    plan.core_spark,
                    look.glyphs,
                    Ramp::Load,
                ),
            );
        } else {
            let none: Vec<Ratio> = Vec::new();
            line.extend(sparkline(look.depth, &none, plan.core_spark, look.glyphs, Ramp::Load));
        }
    }
    line
}

/// What stands right of the graph in a row: the aggregate, then each core, then
/// the load.
pub open spec fn beside_graph(s: SystemPane, look: Look, plan: CpuLayout, row: nat) -> Seq<Run> {
    if row == 0 {
        summary_runs(s.cpu, look, plan.core_meter as nat)
    } else if row <= s.cores@.len() {
        core_runs(s, (row - 1) as nat, look, plan)
    } else if row == s.cores@.len() + 1 {
        seq![run("load "@ + load_text(s), fg_style(DIM))]
    } else {
        Seq::empty()
    }
}

pub open spec fn side_line(
    s: SystemPane,
    look: Look,
    plan: CpuLayout,
    graph: Seq<Run>,
    row: nat,
) -> Seq<Run> {
    (seq![run("  "@, plain_style())] + graph).push(run("  "@, plain_style())) + beside_graph(
        s,
        look,
        plan,
        row,
    )
}

/// The CPU block with its graph beside the core column.
pub open spec fn side_lines(s: SystemPane, look: Look, plan: CpuLayout) -> Seq<Seq<Run>> {
    let graph = graph_lines(
        look.depth,
        s.cpu_history@,
        plan.graph_width as nat,
        plan.rows as nat,
        look.glyphs,
        Ramp::Load,
    );
    Seq::new(graph.len(), |i: int| side_line(s, look, plan, graph[i], i as nat))
}

fn draw_side(s: &SystemPane, look: Look, plan: CpuLayout) -> (r: Vec<Line>)
    requires
        plan.core_meter * 8 <= usize::MAX,
        plan.core_spark * 2 <= usize::MAX,
        plan.graph_width * 2 <= usize::MAX,
        plan.rows * 4 <= usize::MAX,
    ensures
        shows(r@) == side_lines(*s, look, plan),
{
    let mut graph = area_graph(
        look.depth,
        &s.cpu_history,
        plan.graph_width,
        plan.rows,
        look.glyphs,
        Ramp::Load,
    );
    let ghost shown = shows(graph@);
    let ghost want = side_lines(*s, look, plan);
    let n: usize = graph.len();
    let cores: usize = s.cores.len();
    let mut lines = no_lines();
    let mut row: usize = 0;
    assert(shows(graph@) == shown.skip(0));
    assert(want.take(0) == Seq::<Seq<Run>>::empty());
    while row < n
        invariant
            row <= n == shown.len(),
            n == want.len(),
            cores == s.cores@.len(),
            plan.core_meter * 8 <= usize::MAX,
            plan.core_spark * 2 <= usize::MAX,
            graph@.len() == n - row,
            shows(graph@) == shown.skip(row as int),
            shown == graph_lines(
                look.depth,
                s.cpu_history@,
                plan.graph_width as nat,
                plan.rows as nat,
                look.glyphs,
                Ramp::Load,
            ),
            want == side_lines(*s, look, plan),
            shows(lines@) == want.take(row as int),
        decreases n - row,
    {
        let ghost left = shows(graph@);
        let graph_row = graph.remove(0);
        assert(graph_row@ == left[0]);
        assert(shows(graph@) == left.skip(1));
        assert(left.skip(1) == shown.skip(row + 1));
        let mut line = Line::of("  ".to_owned(), Style::plain());
        line.extend(graph_row);
        line.push_str("  ", Style::plain());
        if row == 0 {
            line.extend(cpu_summary(s.cpu, look, plan.core_meter));
        } else if row <= cores {
            line.extend(core_row(s, row - 1, look, plan));
        } else if row - 1 == cores {
            let mut text = "load ".to_owned();
            text.append(write_load(s).as_str());
            line.extend(Line::of(text, Style::fg(DIM)));
        } else {
            line.extend(Line::new());
        }
        assert(line@ == side_line(*s, look, plan, shown[row as int], row as nat));
        add_line(&mut lines, line);
        row = row + 1;
        assert(want.take(row as int) == want.take(row - 1).push(want[row - 1]));
    }
    assert(want.take(row as int) == want);
    lines
}

/// One cell of the grid of cores.
pub open spec fn grid_cell(s: SystemPane, index: nat, look: Look, plan: CpuLayout) -> Seq<Run> {
    let share = core_share_of(s, index as int);
    (seq![run(core_label(index), fg_style(DIM))] + bar_runs(
        look.depth,
        share,
        plan.core_meter as nat,
        look.glyphs,
        Ramp::Load,
    )).push(
        run(
            padded_left(share.percent_text(0), 4) + "%  "@,
            fg_style(level_color(share, 60, 85)),
        ),
    )
}

/// The cells of the cores from one up to another.
pub open spec fn grid_cells(
    s: SystemPane,
    from: nat,
    to: nat,
    look: Look,
    plan: CpuLayout,
) -> Seq<Run>
    decreases to - from,
{
    if to <= from {
        seq![run("  "@, plain_style())]
    } else {
        grid_cells(s, from, (to - 1) as nat, look, plan) + grid_cell(
            s,
            (to - 1) as nat,
            look,
            plan,
        )
    }
}

pub open spec fn least_of(a: int, b: int) -> int {
    if a < b {
        a
    } else {
        b
    }
}

/// The grid of cores, row by row.
pub open spec fn grid_lines(s: SystemPane, look: Look, plan: CpuLayout) -> Seq<Seq<Run>> {
    let cores = s.cores@.len();
    let per_row = plan.per_row;
    Seq::new(
        grid_rows(cores as int, per_row as int) as nat,
        |i: int|
            grid_cells(
                s,
                (i * per_row) as nat,
                least_of((i + 1) * per_row, cores as int) as nat,
                look,
                plan,
            ),
    )
}

fn draw_grid_cell(s: &SystemPane, index: usize, look: Look, plan: CpuLayout) -> (r: Line)
    requires
        plan.core_meter * 8 <= usize::MAX,
    ensures
        r@ == grid_cell(*s, index as nat, look, plan),
{
    let share = core_share_at(s, index);
    let mut line = Line::of(write_core_label(index), Style::fg(DIM));
    line.extend(bar(look.depth, share, plan.core_meter, look.glyphs, Ramp::Load));
    let mut value = pad_left(share.percent(0).as_str(), 4);
    value.append("%  ");
    line.push(value, Style::fg(threshold_color(share, 60, 85)));
    line
}

fn draw_grid(s: &SystemPane, look: Look, plan: CpuLayout) -> (r: Vec<Line>)
    requires
        plan.core_meter * 8 <= usize::MAX,
        plan.per_row >= 1,
    ensures
        shows(r@) == grid_lines(*s, look, plan),
{
    let cores: usize = s.cores.len();
    let per_row: usize = plan.per_row;
    let ghost want = grid_lines(*s, look, plan);
    let mut lines = no_lines();
    let mut from: usize = 0;
    let ghost mut r: int = 0;
    proof {
        assert(want.take(0) == Seq::<Seq<Run>>::empty());
        assert(0 * per_row == 0) by (nonlinear_arith);
        lemma_grid_rows(cores as int, per_row as int, 0, 0);
    }
    while from < cores
        invariant
            from <= cores == s.cores@.len(),
            per_row == plan.per_row,
            per_row >= 1,
            plan.core_meter * 8 <= usize::MAX,
            0 <= r <= want.len(),
            want == grid_lines(*s, look, plan),
            from == least_of(r * per_row, cores as int),
            shows(lines@) == want.take(r),
        decreases cores - from,
    {
        let to: usize = if cores - from <= per_row {
            cores
        } else {
            from + per_row
        };
        proof {
            assert(from == r * per_row);
            assert((r + 1) * per_row == r * per_row + per_row) by (nonlinear_arith);
            assert(to == least_of((r + 1) * per_row, cores as int));
            lemma_grid_rows(cores as int, per_row as int, r, from as int);
        }
        let mut line = Line::of("  ".to_owned(), Style::plain());
        let mut i: usize = from;
        while i < to
            invariant
                from <= i <= to,
                plan.core_meter * 8 <= usize::MAX,
                line@ == grid_cells(*s, from as nat, i as nat, look, plan),
            decreases to - i,
        {
            line.extend(draw_grid_cell(s, i, look, plan));
            i = i + 1;
        }
        assert(line@ == want[r]);
        add_line(&mut lines, line);
        from = to;
        proof {
            r = r + 1;
            assert(want.take(r) == want.take(r - 1).push(want[r - 1]));
        }
    }
    proof {
        lemma_grid_rows(cores as int, per_row as int, r, from as int);
        assert(want.take(r) == want);
    }
    lines
}

/// A row of the grid begins before the last core exactly if it is one of its
/// rows.
proof fn lemma_grid_rows(cores: int, per_row: int, r: int, from: int)
    requires
        cores >= 0,
        per_row >= 1,
        r >= 0,
        from == least_of(r * per_row, cores),
    ensures
        from < cores <==> r < grid_rows(cores, per_row),
        grid_rows(cores, per_row) >= 0,
{
    let n = grid_rows(cores, per_row);
    assert(n * per_row <= cores + per_row - 1 < n * per_row + per_row) by (nonlinear_arith)
        requires
            n == (cores + per_row - 1) / per_row,
            per_row >= 1,
            cores >= 0,
    ;
    assert(n >= 0) by (nonlinear_arith)
        requires
            n == (cores + per_row - 1) / per_row,
            per_row >= 1,
            cores >= 0,
    ;
    if r < n {
        assert(r * per_row + per_row <= n * per_row) by (nonlinear_arith)
            requires
                r + 1 <= n,
                per_row >= 1,
        ;
    } else {
        assert(n * per_row <= r * per_row) by (nonlinear_arith)
            requires
                n <= r,
                per_row >= 1,
        ;
    }
}

/// The width of the aggregate meters in a pane.
pub open spec fn meter_of(width: int) -> int {
    least_of(clamped(width / 3, METER_MIN as int, METER_MAX as int), width)
}

fn meter_width(width: usize) -> (r: usize)
    ensures
        r == meter_of(width as int),
        r <= METER_MAX,
        r <= width,
{
    let third: usize = width / 3;
    let meter: usize = if third < METER_MIN {
        METER_MIN
    } else if third > METER_MAX {
        METER_MAX
    } else {
        third
    };
    if meter < width {
        meter
    } else {
        width
    }
}

/// The line of the aggregate above the grid.
pub open spec fn cpu_line(s: SystemPane, look: Look, width: nat) -> Seq<Run> {
    let share = share_or_zero(s.cpu);
    let meter = meter_of(width as int) as nat;
    let words = cpu_words(s.cpu, look.glyphs);
    let cores = "  "@ + dec(s.cores@.len()) + " cores"@;
    let load = "   load "@ + load_text(s);
    let used = GUTTER as nat + meter + words.len();
    let line = bar_runs(look.depth, share, meter, look.glyphs, Ramp::Load).push(
        run(words, bold_style(level_color(share, 60, 85))),
    );
    field_runs(
        "cpu"@,
        if_fits(
            if_fits(line, used, width, cores),
            used_after(used, width, cores),
            width,
            load,
        ),
    )
}

fn draw_cpu_line(s: &SystemPane, look: Look, width: usize) -> (r: Line)
    ensures
        r@ == cpu_line(*s, look, width as nat),
{
    let share = or_zero(s.cpu);
    let meter: usize = meter_width(width);
    let mut line = bar(look.depth, share, meter, look.glyphs, Ramp::Load);
    let words = cpu_value(s.cpu, look.glyphs);
    let mut used: usize = (GUTTER + meter).saturating_add(words.as_str().unicode_len());
    line.push(words, Style::bold(threshold_color(share, 60, 85)));
    let mut cores = "  ".to_owned();
    cores.append(decimal(s.cores.len() as u64).as_str());
    cores.append(" cores");
    push_if_fits(&mut line, &mut used, width, cores);
    let mut load = "   load ".to_owned();
    load.append(write_load(s).as_str());
    push_if_fits(&mut line, &mut used, width, load);
    field("cpu", line)
}

/// The lines of the graph above the grid.
pub open spec fn graph_fields(s: SystemPane, look: Look, plan: CpuLayout, width: nat) -> Seq<
    Seq<Run>,
> {
    if plan.rows > 0 && width > GUTTER + 1 {
        let graph = graph_lines(
            look.depth,
            s.cpu_history@,
            (width - GUTTER - 1) as nat,
            plan.rows as nat,
            look.glyphs,
            Ramp::Load,
        );
        Seq::new(graph.len(), |i: int| field_runs(""@, graph[i]))
    } else {
        Seq::empty()
    }
}

fn draw_graph(s: &SystemPane, look: Look, plan: CpuLayout, width: usize) -> (r: Vec<Line>)
    requires
        width * 2 <= usize::MAX,
        plan.rows * 4 <= usize::MAX,
    ensures
        shows(r@) == graph_fields(*s, look, plan, width as nat),
{
    let mut lines = no_lines();
    if plan.rows == 0 || width <= GUTTER + 1 {
        return lines;
    }
    let mut graph = area_graph(
        look.depth,
        &s.cpu_history,
        width - GUTTER - 1,
        plan.rows,
        look.glyphs,
        Ramp::Load,
    );
    let ghost shown = shows(graph@);
    let ghost want = graph_fields(*s, look, plan, width as nat);
    let n: usize = graph.len();
    let mut row: usize = 0;
    assert(shows(graph@) == shown.skip(0));
    assert(want.take(0) == Seq::<Seq<Run>>::empty());
    while row < n
        invariant
            row <= n == shown.len(),
            n == want.len(),
            graph@.len() == n - row,
            shows(graph@) == shown.skip(row as int),
            forall|i: int| 0 <= i < n ==> #[trigger] want[i] == field_runs(""@, shown[i]),
            shows(lines@) == want.take(row as int),
        decreases n - row,
    {
        let ghost left = shows(graph@);
        let graph_row = graph.remove(0);
        assert(graph_row@ == left[0]);
        assert(shows(graph@) == left.skip(1));
        assert(left.skip(1) == shown.skip(row + 1));
        add_line(&mut lines, field("", graph_row));
        row = row + 1;
        assert(want.take(row as int) == want.take(row - 1).push(want[row - 1]));
    }
    assert(want.take(row as int) == want);
    lines
}

/// The whole CPU block.
pub open spec fn cpu_block(s: SystemPane, look: Look, width: nat, height: nat) -> Seq<Seq<Run>> {
    let plan = cpu_plan(width as int, height as int, s.cores@.len() as int);
    if plan.side_by_side {
        side_lines(s, look, plan)
    } else {
        graph_fields(s, look, plan, width).push(cpu_line(s, look, width)) + grid_lines(
            s,
            look,
            plan,
        )
    }
}

fn draw_cpu(s: &SystemPane, look: Look, width: usize, height: usize) -> (r: Vec<Line>)
    requires
        width * 8 <= usize::MAX,
        height * 4 <= usize::MAX,
    ensures
        shows(r@) == cpu_block(*s, look, width as nat, height as nat),
{
    let plan = cpu_layout(width, height, s.cores.len());
    if plan.side_by_side {
        draw_side(s, look, plan)
    } else {
        let mut lines = draw_graph(s, look, plan, width);
        add_line(&mut lines, draw_cpu_line(s, look, width));
        add_lines(&mut lines, draw_grid(s, look, plan));
        lines
    }
}

/// A percentage as it stands behind a meter.
pub open spec fn meter_value(share: Ratio) -> Seq<char> {
    " "@ + padded_left(share.percent_text(0), 3) + "%"@
}

fn write_meter_value(share: Ratio) -> (r: String)
    ensures
        r@ == meter_value(share),
{
    let mut out = " ".to_owned();
    out.append(pad_left(share.percent(0).as_str(), 3).as_str());
    out.append("%");
    out
}

/// Used memory.
#[verifier::opaque]
pub open spec fn mem_row(s: SystemPane, look: Look, meter: nat, width: nat) -> Seq<Run> {
    let share = memory_share(s);
    field_runs(
        "mem"@,
        if_fits(
            bar_runs(look.depth, share, meter, look.glyphs, Ramp::Load).push(
                run(meter_value(share), bold_style(level_color(share, 75, 90))),
            ),
            GUTTER as nat + meter + 5,
            width,
            "  "@ + size_kb(less(s.mem.total_kb, s.mem.available_kb) as nat) + "/"@ + size_kb(
                s.mem.total_kb as nat,
            ),
        ),
    )
}

fn draw_mem(s: &SystemPane, look: Look, meter: usize, width: usize) -> (r: Line)
    requires
        meter <= METER_MAX,
    ensures
        r@ == mem_row(*s, look, meter as nat, width as nat),
{
    proof {
        reveal(mem_row);
    }
    let share = s.mem.used_pct();
    let mut line = bar(look.depth, share, meter, look.glyphs, Ramp::Load);
    line.push(write_meter_value(share), Style::bold(threshold_color(share, 75, 90)));
    let mut used: usize = GUTTER + meter + 5;
    let mut text = "  ".to_owned();
    text.append(human_kb(s.mem.used_kb()).as_str());
    text.append("/");
    text.append(human_kb(s.mem.total_kb).as_str());
    push_if_fits(&mut line, &mut used, width, text);
    field("mem", line)
}

/// Memory that a new allocation could get without swapping.
#[verifier::opaque]
pub open spec fn avail_row(s: SystemPane, look: Look, meter: nat, width: nat) -> Seq<Run> {
    let share = Ratio { num: s.mem.available_kb, den: s.mem.total_kb };
    field_runs(
        "avail"@,
        if_fits(
            bar_runs(look.depth, share, meter, look.glyphs, Ramp::Cool).push(
                run(meter_value(share), fg_style(DIM)),
            ),
            GUTTER as nat + meter + 5,
            width,
            "  "@ + size_kb(s.mem.available_kb as nat),
        ),
    )
}

fn draw_avail(s: &SystemPane, look: Look, meter: usize, width: usize) -> (r: Line)
    requires
        meter <= METER_MAX,
    ensures
        r@ == avail_row(*s, look, meter as nat, width as nat),
{
    proof {
        reveal(avail_row);
    }
    let share = Ratio::new(s.mem.available_kb, s.mem.total_kb);
    let mut line = bar(look.depth, share, meter, look.glyphs, Ramp::Cool);
    line.push(write_meter_value(share), Style::fg(DIM));
    let mut used: usize = GUTTER + meter + 5;
    let mut text = "  ".to_owned();
    text.append(human_kb(s.mem.available_kb).as_str());
    push_if_fits(&mut line, &mut used, width, text);
    field("avail", line)
}

/// Buffers and page cache: what will be given back under pressure.
pub open spec fn cache_kb(s: SystemPane) -> u64 {
    sum_up(s.mem.buffers_kb as int, s.mem.cached_kb as int) as u64
}

#[verifier::opaque]
pub open spec fn cache_row(s: SystemPane, look: Look, meter: nat, width: nat) -> Seq<Run> {
    let share = Ratio { num: cache_kb(s), den: s.mem.total_kb };
    let size = size_kb(cache_kb(s) as nat);
    field_runs(
        "cache"@,
        either_fits(
            bar_runs(look.depth, share, meter, look.glyphs, Ramp::Cool).push(
                run(meter_value(share), fg_style(DIM)),
            ),
            GUTTER as nat + meter + 5,
            width,
            "  "@ + size + " reclaimable"@,
            "  "@ + size,
        ),
    )
}

fn draw_cache(s: &SystemPane, look: Look, meter: usize, width: usize) -> (r: Line)
    requires
        meter <= METER_MAX,
    ensures
        r@ == cache_row(*s, look, meter as nat, width as nat),
{
    proof {
        reveal(cache_row);
    }
    let kb: u64 = s.mem.buffers_kb.saturating_add(s.mem.cached_kb);
    let share = Ratio::new(kb, s.mem.total_kb);
    let mut line = bar(look.depth, share, meter, look.glyphs, Ramp::Cool);
    line.push(write_meter_value(share), Style::fg(DIM));
    let mut short = "  ".to_owned();
    short.append(human_kb(kb).as_str());
    let mut long = short.clone();
    long.append(" reclaimable");
    push_either(&mut line, GUTTER + meter + 5, width, long, short);
    field("cache", line)
}

/// Swap, and the threads. Swap in use puts the card into the latency path, so
/// it is called out.
#[verifier::opaque]
pub open spec fn swap_row(s: SystemPane, width: nat) -> Seq<Run> {
    let words = swap_words(s);
    let color = if s.mem.swap_total_kb > 0 && less(s.mem.swap_total_kb, s.mem.swap_free_kb) > 0 {
        WARN
    } else {
        DIM
    };
    let threads = "   "@ + dec(s.load.tasks as nat) + " threads"@;
    field_runs(
        "swap"@,
        either_fits(
            seq![run(words, fg_style(color))],
            GUTTER as nat + words.len(),
            width,
            threads + ", "@ + dec(s.load.runnable as nat) + " running"@,
            threads,
        ),
    )
}

fn draw_swap(s: &SystemPane, width: usize) -> (r: Line)
    ensures
        r@ == swap_row(*s, width as nat),
{
    proof {
        reveal(swap_row);
    }
    let words = swap_text(s);
    let color = if s.mem.swap_total_kb > 0 && s.mem.swap_used_kb() > 0 {
        WARN
    } else {
        DIM
    };
    let len: usize = words.as_str().unicode_len();
    let used: usize = len.saturating_add(GUTTER);
    let mut line = Line::of(words, Style::fg(color));
    let mut threads = "   ".to_owned();
    threads.append(decimal(s.load.tasks).as_str());
    threads.append(" threads");
    let mut long = threads.clone();
    long.append(", ");
    long.append(decimal(s.load.runnable).as_str());
    long.append(" running");
    assert(used == GUTTER + words@.len() || words@.len() + GUTTER > usize::MAX);
    push_either(&mut line, used, width, long, threads);
    field("swap", line)
}

/// Where the band's columns stand: the width of each, or zero for one that is
/// dropped. They are dropped from the right as the pane narrows, never cut.
#[derive(Debug, Clone, Copy, PartialEq, Eq, Structural)]
pub struct Band {
    pub mem: usize,
    pub disks: usize,
    pub net: usize,
}

/// The narrowest pane with a disks column, and with a network column.
pub const DISKS_AT: usize = 104;

pub const NET_AT: usize = 130;

pub open spec fn band_of(width: int, disks: bool, net: bool) -> Band {
    if width < DISKS_AT || !disks {
        Band { mem: width as usize, disks: 0, net: 0 }
    } else if width < NET_AT || !net {
        Band { mem: (width / 2) as usize, disks: (width - width / 2) as usize, net: 0 }
    } else {
        let mem = width * 2 / 5;
        let half = (width - mem) / 2;
        Band { mem: mem as usize, disks: half as usize, net: (width - mem - half) as usize }
    }
}

pub fn band_layout(width: usize, disks: bool, net: bool) -> (r: Band)
    requires
        width * 8 <= usize::MAX,
    ensures
        r == band_of(width as int, disks, net),
        r.mem + r.disks + r.net == width,
{
    if width < DISKS_AT || !disks {
        Band { mem: width, disks: 0, net: 0 }
    } else if width < NET_AT || !net {
        Band { mem: width / 2, disks: width - width / 2, net: 0 }
    } else {
        let mem: usize = width * 2 / 5;
        let half: usize = (width - mem) / 2;
        Band { mem, disks: half, net: width - mem - half }
    }
}

/// The columns of the band share the pane out exactly, and each that is there
/// has the room its rows need.
pub proof fn band_fills_the_pane(width: int, disks: bool, net: bool)
    requires
        0 <= width <= usize::MAX,
    ensures
        ({
            let band = band_of(width, disks, net);
            &&& band.mem + band.disks + band.net == width
            &&& band.disks > 0 ==> band.mem >= GUTTER + METER_MAX + 5 && band.disks
                > DISK_FIXED
            &&& band.net > 0 ==> band.disks > 0 && band.net >= NET_ROW
        }),
{
}

/// Columns of a disk's row besides its figure: a gap, its label, its meter and
/// a gap.
pub const DISK_METER: usize = 12;

pub const DISK_FIXED: usize = 25;

/// Columns of an interface's row.
pub const NET_ROW: usize = 39;

/// Rows under the headings of the band.
pub const BAND_ROWS: usize = 3;

/// How much of a disk can be written, of how much where that fits: a figure
/// that is cut is a wrong number.
pub open spec fn disk_figure(fs: Mounted, room: nat) -> Seq<char> {
    let free = size_kb(fs.usage.avail_kb as nat) + " free"@;
    let whole = free + " of "@ + size_kb(fs.usage.total_kb as nat);
    if whole.len() <= room {
        whole
    } else {
        free
    }
}

pub open spec fn disk_runs(fs: Mounted, look: Look, room: nat) -> Seq<Run> {
    (seq![
        run(" "@ + padded_right(clipped(mount_label(fs.mount), 9), 10), fg_style(DIM)),
    ] + bar_runs(
        look.depth,
        fs.usage.fullness(),
        DISK_METER as nat,
        look.glyphs,
        Ramp::Load,
    )).push(
        run("  "@ + disk_figure(fs, room), fg_style(level_color(fs.usage.fullness(), 80, 92))),
    )
}

fn draw_disk(fs: &Filesystem, look: Look, room: usize) -> (r: Line)
    ensures
        r@ == disk_runs(fs@, look, room as nat),
{
    let mut label = " ".to_owned();
    label.append(pad_right(clip(fs.label().as_str(), 9).as_str(), 10).as_str());
    let mut line = Line::of(label, Style::fg(DIM));
    let fullness = fs.usage.pct();
    line.extend(bar(look.depth, fullness, DISK_METER, look.glyphs, Ramp::Load));
    let mut free = human_kb(fs.usage.avail_kb);
    free.append(" free");
    let mut whole = free.clone();
    whole.append(" of ");
    whole.append(human_kb(fs.usage.total_kb).as_str());
    let mut figure = "  ".to_owned();
    if whole.as_str().unicode_len() <= room {
        figure.append(whole.as_str());
    } else {
        figure.append(free.as_str());
    }
    line.push(figure, Style::fg(threshold_color(fullness, 80, 92)));
    line
}

/// The heading of the disks column. Filesystems that do not fit are counted.
pub open spec fn disks_heading(n: nat) -> Seq<Run> {
    let line = seq![run(" disks"@, heading_style())];
    if n > BAND_ROWS {
        line.push(run("  +"@ + dec((n - BAND_ROWS) as nat) + " more"@, fg_style(DIM)))
    } else {
        line
    }
}

fn draw_disks_heading(n: usize) -> (r: Line)
    ensures
        r@ == disks_heading(n as nat),
{
    let mut line = Line::of(" disks".to_owned(), header_style());
    if n > BAND_ROWS {
        let mut more = "  +".to_owned();
        more.append(decimal((n - BAND_ROWS) as u64).as_str());
        more.append(" more");
        line.push(more, Style::fg(DIM));
    }
    line
}

/// What the disks column shows in one of its four rows.
pub open spec fn disks_cell(v: Seq<Mounted>, look: Look, width: nat, row: int) -> Seq<Run> {
    if row == 0 {
        disks_heading(v.len())
    } else if row - 1 < v.len() {
        disk_runs(v[row - 1], look, minus(width as int, DISK_FIXED as int) as nat)
    } else {
        Seq::empty()
    }
}

fn draw_disks_cell(v: &Vec<Filesystem>, look: Look, width: usize, row: usize) -> (r: Line)
    ensures
        r@ == disks_cell(mounted(v@), look, width as nat, row as int),
{
    if row == 0 {
        draw_disks_heading(v.len())
    } else if row - 1 < v.len() {
        assert(mounted(v@)[row - 1] == v@[row - 1]@);
        draw_disk(&v[row - 1], look, width.saturating_sub(DISK_FIXED))
    } else {
        Line::new()
    }
}

/// How busy an interface is: what it moved since the last sample, and in all.
pub open spec fn busyness(i: IfaceRow) -> (int, int) {
    (
        sum_up(i.rx.bytes as int, i.tx.bytes as int),
        sum_up(i.rx_total as int, i.tx_total as int),
    )
}

pub open spec fn busier(a: IfaceRow, b: IfaceRow) -> bool {
    busyness(a).0 > busyness(b).0 || (busyness(a).0 == busyness(b).0 && busyness(a).1 > busyness(
        b,
    ).1)
}

/// An order of interfaces with one more, behind those that are no less busy.
pub open spec fn with_iface(order: Seq<int>, v: Seq<IfaceRow>, i: int) -> Seq<int>
    decreases order.len(),
{
    if order.len() == 0 || !busier(v[i], v[order.last()]) {
        order.push(i)
    } else {
        with_iface(order.drop_last(), v, i).push(order.last())
    }
}

/// The positions of the first `n` interfaces, the busiest first.
pub open spec fn by_busyness(v: Seq<IfaceRow>, n: nat) -> Seq<int>
    decreases n,
{
    if n == 0 {
        Seq::empty()
    } else {
        with_iface(by_busyness(v, (n - 1) as nat), v, n - 1)
    }
}

proof fn lemma_with_iface(order: Seq<int>, v: Seq<IfaceRow>, i: int, at: int)
    requires
        0 <= at <= order.len(),
        at == 0 || !busier(v[i], v[order[at - 1]]),
        forall|k: int| at <= k < order.len() ==> busier(v[i], v[#[trigger] order[k]]),
    ensures
        with_iface(order, v, i) == order.insert(at, i),
    decreases order.len(),
{
    if at == order.len() {
        assert(order.insert(at, i) == order.push(i));
    } else {
        assert(busier(v[i], v[order[order.len() - 1]]));
        lemma_with_iface(order.drop_last(), v, i, at);
        assert(order.insert(at, i) == order.drop_last().insert(at, i).push(order.last()));
    }
}

fn is_busier(a: &Iface, b: &Iface) -> (r: bool)
    ensures
        r == busier(a@, b@),
{
    let a_now: u64 = a.rx.bytes.saturating_add(a.tx.bytes);
    let b_now: u64 = b.rx.bytes.saturating_add(b.tx.bytes);
    let a_all: u64 = a.rx_total.saturating_add(a.tx_total);
    let b_all: u64 = b.rx_total.saturating_add(b.tx_total);
    a_now > b_now || (a_now == b_now && a_all > b_all)
}

fn order_ifaces(v: &Vec<Iface>) -> (r: Vec<usize>)
    ensures
        positions(r@) == by_busyness(iface_rows(v@), v@.len()),
        r@.len() == v@.len(),
        forall|k: int| 0 <= k < r@.len() ==> (#[trigger] r@[k]) < v@.len(),
{
    let ghost all = iface_rows(v@);
    let mut out: Vec<usize> = Vec::new();
    let mut i: usize = 0;
    assert(positions(out@) == Seq::<int>::empty());
    while i < v.len()
        invariant
            i <= v@.len(),
            all == iface_rows(v@),
            out@.len() == i,
            positions(out@) == by_busyness(all, i as nat),
            forall|k: int| 0 <= k < out@.len() ==> (#[trigger] out@[k]) < i,
        decreases v@.len() - i,
    {
        let ghost before = positions(out@);
        let mut at: usize = out.len();
        while at > 0 && is_busier(&v[i], &v[out[at - 1]])
            invariant
                at <= out@.len(),
                i < v@.len(),
                all == iface_rows(v@),
                before == positions(out@),
                forall|k: int| 0 <= k < out@.len() ==> (#[trigger] out@[k]) < i,
                forall|k: int|
                    at <= k < before.len() ==> busier(
                        all[i as int],
                        all[#[trigger] before[k]],
                    ),
            decreases at,
        {
            at = at - 1;
        }
        proof {
            lemma_with_iface(before, all, i as int, at as int);
        }
        let ghost raw = out@;
        out.insert(at, i);
        assert(positions(out@) == before.insert(at as int, i as int));
        assert forall|k: int| 0 <= k < out@.len() implies (#[trigger] out@[k]) < i + 1 by {
            if k < at {
                assert(out@[k] == raw[k]);
            } else if k > at {
                assert(out@[k] == raw[k - 1]);
            }
        }
        i = i + 1;
    }
    out
}

/// One interface: what it moves, and what it has moved in all. A rate of
/// nothing is what a quiet minute looks like, and also what a radio that has
/// never worked looks like; only the totals tell them apart.
pub open spec fn net_runs(i: IfaceRow) -> Seq<Run> {
    seq![
        run(" "@ + padded_right(clipped(i.name, 9), 10), fg_style(DIM)),
        run(
            "v"@ + padded_right(rate_short(i.rx), 7) + "^"@ + padded_right(rate_short(i.tx), 7),
            plain_style(),
        ),
        run(
            padded_left(size_kb(i.rx_total as nat / 1024), 6) + padded_left(
                size_kb(i.tx_total as nat / 1024),
                6,
            ),
            fg_style(DIM),
        ),
    ]
}

fn draw_net(i: &Iface) -> (r: Line)
    ensures
        r@ == net_runs(i@),
{
    let mut label = " ".to_owned();
    label.append(pad_right(clip(i.name.as_str(), 9).as_str(), 10).as_str());
    let mut line = Line::of(label, Style::fg(DIM));
    let mut rates = "v".to_owned();
    rates.append(pad_right(human_rate_compact(i.rx).as_str(), 7).as_str());
    rates.append("^");
    rates.append(pad_right(human_rate_compact(i.tx).as_str(), 7).as_str());
    line.push(rates, Style::plain());
    let mut totals = pad_left(human_bytes(i.rx_total).as_str(), 6);
    totals.append(pad_left(human_bytes(i.tx_total).as_str(), 6).as_str());
    line.push(totals, Style::fg(DIM));
    assert(line@ == net_runs(i@));
    line
}

/// Cells of the trace beside the network heading.
pub const NET_TRACE: usize = 16;

/// What the network column shows in one of its four rows.
pub open spec fn net_cell(r: RadiosPane, look: Look, row: int) -> Seq<Run> {
    let v = iface_rows(r.ifaces@);
    if row == 0 {
        seq![run(" net  "@, heading_style())] + spark_runs(
            look.depth,
            parts_of_peak(r.throughput@),
            NET_TRACE as nat,
            look.glyphs,
            Ramp::Cool,
        )
    } else if row - 1 < v.len() {
        net_runs(v[by_busyness(v, v.len())[row - 1]])
    } else {
        Seq::empty()
    }
}

fn draw_net_cell(r: &RadiosPane, order: &Vec<usize>, look: Look, row: usize) -> (line: Line)
    requires
        positions(order@) == by_busyness(iface_rows(r.ifaces@), r.ifaces@.len()),
        order@.len() == r.ifaces@.len(),
        forall|k: int| 0 <= k < order@.len() ==> (#[trigger] order@[k]) < r.ifaces@.len(),
    ensures
        line@ == net_cell(*r, look, row as int),
{
    if row == 0 {
        let mut line = Line::of(" net  ".to_owned(), header_style());
        line.extend(
            sparkline(
                look.depth,
                &scale_to_peak(&r.throughput),
                NET_TRACE,
                look.glyphs,
                Ramp::Cool,
            ),
        );
        line
    } else if row - 1 < order.len() {
        let at: usize = order[row - 1];
        assert(positions(order@)[row - 1] == at);
        draw_net(&r.ifaces[at])
    } else {
        Line::new()
    }
}

/// One row of the band, with the columns that there is room for.
#[verifier::opaque]
pub open spec fn band_row(
    mem: Seq<Run>,
    health: HealthPane,
    radios: RadiosPane,
    look: Look,
    band: Band,
    row: int,
) -> Seq<Run> {
    let with_disks = if band.disks > 0 {
        filled(mem, band.mem as nat) + disks_cell(
            mounted(health.filesystems@),
            look,
            band.disks as nat,
            row,
        )
    } else {
        mem
    };
    if band.net > 0 {
        filled(with_disks, (band.mem + band.disks) as nat) + net_cell(radios, look, row)
    } else {
        with_disks
    }
}

fn draw_band_row(
    mem: Line,
    health: &HealthPane,
    radios: &RadiosPane,
    order: &Vec<usize>,
    look: Look,
    band: Band,
    row: usize,
) -> (r: Line)
    requires
        band.mem + band.disks <= usize::MAX,
        positions(order@) == by_busyness(iface_rows(radios.ifaces@), radios.ifaces@.len()),
        order@.len() == radios.ifaces@.len(),
        forall|k: int| 0 <= k < order@.len() ==> (#[trigger] order@[k]) < radios.ifaces@.len(),
    ensures
        r@ == band_row(mem@, *health, *radios, look, band, row as int),
{
    proof {
        reveal(band_row);
    }
    let mut line = mem;
    if band.disks > 0 {
        line.pad_to(band.mem);
        line.extend(draw_disks_cell(&health.filesystems, look, band.disks, row));
    }
    if band.net > 0 {
        line.pad_to(band.mem + band.disks);
        line.extend(draw_net_cell(radios, order, look, row));
    }
    line
}

/// Memory, disks and network in one band across the pane.
pub open spec fn band_lines(
    s: SystemPane,
    health: HealthPane,
    radios: RadiosPane,
    look: Look,
    width: nat,
) -> Seq<Seq<Run>> {
    let band = band_of(
        width as int,
        health.filesystems@.len() > 0,
        radios.ifaces@.len() > 0,
    );
    let meter = meter_of(width as int) as nat;
    let w = band.mem as nat;
    seq![
        band_row(mem_row(s, look, meter, w), health, radios, look, band, 0),
        band_row(avail_row(s, look, meter, w), health, radios, look, band, 1),
        band_row(cache_row(s, look, meter, w), health, radios, look, band, 2),
        band_row(swap_row(s, w), health, radios, look, band, 3),
    ]
}

fn draw_band(
    s: &SystemPane,
    health: &HealthPane,
    radios: &RadiosPane,
    look: Look,
    width: usize,
) -> (r: Vec<Line>)
    requires
        width * 8 <= usize::MAX,
    ensures
        shows(r@) == band_lines(*s, *health, *radios, look, width as nat),
{
    let band = band_layout(width, health.filesystems.len() > 0, radios.ifaces.len() > 0);
    let meter: usize = meter_width(width);
    let order = order_ifaces(&radios.ifaces);
    let mut lines = no_lines();
    let mem = draw_mem(s, look, meter, band.mem);
    add_line(&mut lines, draw_band_row(mem, health, radios, &order, look, band, 0));
    let avail = draw_avail(s, look, meter, band.mem);
    add_line(&mut lines, draw_band_row(avail, health, radios, &order, look, band, 1));
    let cache = draw_cache(s, look, meter, band.mem);
    add_line(&mut lines, draw_band_row(cache, health, radios, &order, look, band, 2));
    let swap = draw_swap(s, band.mem);
    add_line(&mut lines, draw_band_row(swap, health, radios, &order, look, band, 3));
    assert(shows(lines@) == band_lines(*s, *health, *radios, look, width as nat));
    lines
}

/// The rows that are left for processes under some lines and the table's
/// heading, within a limit.
pub open spec fn table_rows(height: int, above: int, most: Option<usize>) -> int {
    let free = minus(height, above + 1);
    match most {
        Some(n) => least_of(free, n as int),
        None => free,
    }
}

/// What stands above the process table: the CPU block, the band, and a blank
/// line.
pub open spec fn upper_lines(
    s: SystemPane,
    health: HealthPane,
    radios: RadiosPane,
    look: Look,
    width: nat,
    height: nat,
) -> Seq<Seq<Run>> {
    (cpu_block(s, look, width, height) + band_lines(s, health, radios, look, width)).push(
        Seq::empty(),
    )
}

/// The whole content of the system pane.
pub open spec fn system_lines(
    s: SystemPane,
    health: HealthPane,
    radios: RadiosPane,
    look: Look,
    width: nat,
    height: nat,
    most: Option<usize>,
) -> Seq<Seq<Run>> {
    match s.unavailable {
        Some(reason) => seq![seq![run("  "@ + reason@, fg_style(WARN))]],
        None => {
            let upper = upper_lines(s, health, radios, look, width, height);
            let rows = table_rows(height as int, upper.len() as int, most);
            if rows > 0 {
                upper + table_lines(s, look, width, rows as nat)
            } else {
                upper
            }
        },
    }
}

/// The system pane's content, in a frame's inside of `width` by `height`.
pub fn draw_system(
    s: &SystemPane,
    health: &HealthPane,
    radios: &RadiosPane,
    look: Look,
    width: u16,
    height: u16,
    most: Option<usize>,
) -> (r: Vec<Line>)
    ensures
        shows(r@) == system_lines(
            *s,
            *health,
            *radios,
            look,
            width as nat,
            height as nat,
            most,
        ),
{
    let mut lines = no_lines();
    if let Some(reason) = &s.unavailable {
        let mut text = "  ".to_owned();
        text.append(reason.as_str());
        add_line(&mut lines, Line::of(text, Style::fg(WARN)));
        assert(shows(lines@) == seq![seq![run("  "@ + reason@, fg_style(WARN))]]);
        return lines;
    }
    let w: usize = width as usize;
    let h: usize = height as usize;
    add_lines(&mut lines, draw_cpu(s, look, w, h));
    add_lines(&mut lines, draw_band(s, health, radios, look, w));
    add_line(&mut lines, Line::new());
    let ghost upper = upper_lines(*s, *health, *radios, look, width as nat, height as nat);
    assert(shows(lines@) == upper);
    let above: usize = lines.len();
    let free: usize = h.saturating_sub(above.saturating_add(1));
    let rows: usize = match most {
        Some(n) => if free < n {
            free
        } else {
            n
        },
        None => free,
    };
    assert(rows == table_rows(height as int, upper.len() as int, most));
    if rows > 0 {
        let table = draw_table(s, look, w, rows);
        add_lines(&mut lines, table);
    }
    lines
}

/// The load of a core is red from eighty-five in a hundred, amber from sixty and
/// green below, wherever it is shown.
pub proof fn loads_have_their_colours(share: Ratio, look: Look, meter: nat)
    requires
        share.den > 0,
    ensures
        100 * share.num >= 85 * share.den ==> level_color(share, 60, 85) == Color::Red,
        60 * share.den <= 100 * share.num < 85 * share.den ==> level_color(share, 60, 85)
            == Color::Yellow,
        100 * share.num < 60 * share.den ==> level_color(share, 60, 85) == Color::Green,
        summary_runs(Some(share), look, meter).last().style == bold_style(
            level_color(share, 60, 85),
        ),
{
    colours_follow_the_thresholds(share, 60, 85);
}

/// A load that is not known yet is a dash, and one that is known is its
/// percentage.
pub proof fn unknown_load_is_a_dash(share: Ratio)
    ensures
        cpu_words(None, Glyphs::Ascii) == "   -"@,
        cpu_words(None, Glyphs::Unicode) == "   —"@,
        has_suffix(cpu_words(Some(share), Glyphs::Ascii), share.percent_text(0) + "%"@),
        cpu_words(Some(share), Glyphs::Ascii) == cpu_words(Some(share), Glyphs::Unicode),
        has_suffix(meter_value(share), share.percent_text(0) + "%"@),
{
    let text = share.percent_text(0) + "%"@;
    let words = cpu_words(Some(share), Glyphs::Ascii);
    assert(words.skip(words.len() - text.len()) == text);
}

/// Used memory is red from ninety in a hundred and amber from seventy-five.
pub proof fn memory_has_its_colours(s: SystemPane, look: Look, meter: nat)
    requires
        s.mem.total_kb > 0,
        s.mem.available_kb <= s.mem.total_kb,
    ensures
        ({
            let used = s.mem.total_kb - s.mem.available_kb;
            let color = level_color(memory_share(s), 75, 90);
            &&& 100 * used >= 90 * s.mem.total_kb ==> color == Color::Red
            &&& 75 * s.mem.total_kb <= 100 * used < 90 * s.mem.total_kb ==> color == Color::Yellow
            &&& 100 * used < 75 * s.mem.total_kb ==> color == Color::Green
            &&& mem_row(s, look, meter, 0).last() == run(
                meter_value(memory_share(s)),
                bold_style(color),
            )
        }),
{
    reveal(mem_row);
    colours_follow_the_thresholds(memory_share(s), 75, 90);
    let last = run(
        meter_value(memory_share(s)),
        bold_style(level_color(memory_share(s), 75, 90)),
    );
    assert(mem_row(s, look, meter, 0).last() == last);
}

/// Swap is amber exactly when some of it is used, and off where there is none.
pub proof fn used_swap_is_amber(s: SystemPane, width: nat)
    ensures
        swap_row(s, width)[1].style == fg_style(Color::Yellow) <==> s.mem.swap_free_kb
            < s.mem.swap_total_kb,
        s.mem.swap_total_kb == 0 ==> swap_row(s, width)[1].text == "off"@,
        s.mem.swap_total_kb > 0 && s.mem.swap_free_kb <= s.mem.swap_total_kb ==> swap_row(
            s,
            width,
        )[1].text == size_kb((s.mem.swap_total_kb - s.mem.swap_free_kb) as nat) + "/"@ + size_kb(
            s.mem.swap_total_kb as nat,
        ),
{
    reveal(swap_row);
}

/// What the kernel keeps for speed is its buffers and its cached pages together.
pub proof fn cache_is_buffers_and_pages(s: SystemPane)
    requires
        s.mem.buffers_kb + s.mem.cached_kb <= u64::MAX,
    ensures
        cache_kb(s) == s.mem.buffers_kb + s.mem.cached_kb,
{
}

/// Disks that there is no room for are counted.
pub proof fn hidden_disks_are_counted(n: nat)
    ensures
        n <= 3 ==> disks_heading(n).len() == 1,
        n > 3 ==> disks_heading(n).len() == 2 && disks_heading(n)[1].text == "  +"@ + dec(
            (n - 3) as nat,
        ) + " more"@,
{
}

/// A disk shows what is free of it, and of how much where there is room to say.
pub proof fn disk_says_what_is_free(fs: Mounted, room: nat)
    ensures
        has_prefix(disk_figure(fs, room), size_kb(fs.usage.avail_kb as nat) + " free"@),
        (size_kb(fs.usage.avail_kb as nat) + " free"@ + " of "@ + size_kb(
            fs.usage.total_kb as nat,
        )).len() <= room ==> has_suffix(
            disk_figure(fs, room),
            " of "@ + size_kb(fs.usage.total_kb as nat),
        ),
{
    let free = size_kb(fs.usage.avail_kb as nat) + " free"@;
    let tail = " of "@ + size_kb(fs.usage.total_kb as nat);
    let text = disk_figure(fs, room);
    assert(text.take(free.len() as int) == free);
    let whole = free + " of "@ + size_kb(fs.usage.total_kb as nat);
    assert(whole == free + tail);
    assert(whole.skip(whole.len() - tail.len()) == tail);
}

/// One interface is busier than another where more passes through it now, and
/// where the same does, where more has.
pub proof fn busier_means_more_traffic(a: IfaceRow, b: IfaceRow)
    requires
        a.rx.bytes + a.tx.bytes <= u64::MAX,
        b.rx.bytes + b.tx.bytes <= u64::MAX,
        a.rx_total + a.tx_total <= u64::MAX,
        b.rx_total + b.tx_total <= u64::MAX,
    ensures
        a.rx.bytes + a.tx.bytes > b.rx.bytes + b.tx.bytes ==> busier(a, b),
        a.rx.bytes + a.tx.bytes == b.rx.bytes + b.tx.bytes ==> (busier(a, b) <==> a.rx_total
            + a.tx_total > b.rx_total + b.tx_total),
        a.rx.bytes + a.tx.bytes < b.rx.bytes + b.tx.bytes ==> !busier(a, b),
{
}

/// The interfaces are listed busiest first, each once, and all of them.
pub proof fn busiest_interface_comes_first(v: Seq<IfaceRow>, n: nat)
    requires
        n <= v.len(),
    ensures
        by_busyness(v, n).len() == n,
        forall|k: int|
            0 <= k < n ==> 0 <= #[trigger] by_busyness(v, n)[k] < n,
        forall|j: int, k: int|
            0 <= j < k < n ==> !busier(
                v[#[trigger] by_busyness(v, n)[k]],
                v[#[trigger] by_busyness(v, n)[j]],
            ) && by_busyness(v, n)[j] != by_busyness(v, n)[k],
    decreases n,
{
    if n > 0 {
        let m = (n - 1) as nat;
        busiest_interface_comes_first(v, m);
        lemma_busiest_first(by_busyness(v, m), v, m as int);
    }
}

proof fn lemma_busiest_first(order: Seq<int>, v: Seq<IfaceRow>, i: int)
    requires
        0 <= i < v.len(),
        forall|k: int| 0 <= k < order.len() ==> 0 <= #[trigger] order[k] < i,
        forall|j: int, k: int|
            0 <= j < k < order.len() ==> !busier(v[#[trigger] order[k]], v[#[trigger] order[j]])
                && order[j] != order[k],
    ensures
        with_iface(order, v, i).len() == order.len() + 1,
        forall|k: int|
            0 <= k < order.len() + 1 ==> 0 <= #[trigger] with_iface(order, v, i)[k] <= i,
        forall|k: int|
            0 <= k < order.len() + 1 ==> (#[trigger] with_iface(order, v, i)[k] == i || exists|j: int|
                0 <= j < order.len() && #[trigger] order[j] == with_iface(order, v, i)[k]),
        forall|j: int, k: int|
            0 <= j < k < order.len() + 1 ==> !busier(
                v[#[trigger] with_iface(order, v, i)[k]],
                v[#[trigger] with_iface(order, v, i)[j]],
            ) && with_iface(order, v, i)[j] != with_iface(order, v, i)[k],
    decreases order.len(),
{
    let r = with_iface(order, v, i);
    if order.len() == 0 {
        assert(r[0] == i);
    } else if !busier(v[i], v[order.last()]) {
        assert forall|j: int, k: int| 0 <= j < k < r.len() implies !busier(
            v[#[trigger] r[k]],
            v[#[trigger] r[j]],
        ) && r[j] != r[k] by {
            if k < order.len() {
                assert(!busier(v[order[k]], v[order[j]]));
            } else if j < order.len() - 1 {
                assert(!busier(v[order[order.len() - 1]], v[order[j]]));
            }
        }
        assert forall|k: int| 0 <= k < r.len() implies (#[trigger] r[k] == i || exists|j: int|
            0 <= j < order.len() && #[trigger] order[j] == r[k]) by {
            if k < order.len() {
                assert(order[k] == r[k]);
            }
        }
    } else {
        let rest = order.drop_last();
        let front = with_iface(rest, v, i);
        assert forall|k: int| 0 <= k < rest.len() implies 0 <= #[trigger] rest[k] < i by {
            assert(rest[k] == order[k]);
        }
        assert forall|j: int, k: int| 0 <= j < k < rest.len() implies !busier(
            v[#[trigger] rest[k]],
            v[#[trigger] rest[j]],
        ) && rest[j] != rest[k] by {
            assert(rest[j] == order[j] && rest[k] == order[k]);
        }
        lemma_busiest_first(rest, v, i);
        let last = order.len() - 1;
        assert forall|j: int, k: int| 0 <= j < k < r.len() implies !busier(
            v[#[trigger] r[k]],
            v[#[trigger] r[j]],
        ) && r[j] != r[k] by {
            if k < front.len() {
                assert(r[j] == front[j] && r[k] == front[k]);
            } else {
                assert(r[j] == front[j]);
                assert(r[k] == order[last]);
                if front[j] != i {
                    let m = choose|m: int| 0 <= m < rest.len() && #[trigger] rest[m] == front[j];
                    assert(order[m] == rest[m]);
                    assert(!busier(v[order[last]], v[order[m]]));
                }
            }
        }
        assert forall|k: int| 0 <= k < r.len() implies (#[trigger] r[k] == i || exists|j: int|
            0 <= j < order.len() && #[trigger] order[j] == r[k]) by {
            if k < front.len() {
                assert(r[k] == front[k]);
                if front[k] != i {
                    let m = choose|m: int| 0 <= m < rest.len() && #[trigger] rest[m] == front[k];
                    assert(order[m] == r[k]);
                }
            } else {
                assert(order[last] == r[k]);
            }
        }
        assert forall|k: int| 0 <= k < r.len() implies 0 <= #[trigger] r[k] <= i by {
            if k < front.len() {
                assert(r[k] == front[k]);
            } else {
                assert(r[k] == order[last]);
            }
        }
    }
}

/// The table is given the rows that are left below what stands above it and its
/// heading, and no more than were asked for.
pub proof fn table_gets_what_is_left(height: int, above: int, most: Option<usize>)
    requires
        0 <= above,
        0 <= height,
    ensures
        table_rows(height, above, most) >= 0,
        above + 1 <= height ==> above + 1 + table_rows(height, above, most) <= height,
        above + 1 > height ==> table_rows(height, above, most) == 0,
        most is None && above + 1 <= height ==> above + 1 + table_rows(height, above, most)
            == height,
        most matches Some(n) ==> table_rows(height, above, most) <= n,
        most matches Some(n) ==> above + 1 + n <= height ==> table_rows(height, above, most) == n,
{
}

/// Every core has its place in the grid, each in one row.
pub proof fn grid_has_room_for_every_core(cores: int, per_row: int)
    requires
        cores >= 0,
        per_row >= 1,
    ensures
        grid_rows(cores, per_row) * per_row >= cores,
        cores > 0 ==> (grid_rows(cores, per_row) - 1) * per_row < cores,
        cores == 0 ==> grid_rows(cores, per_row) == 0,
{
    let r = grid_rows(cores, per_row);
    let n = cores + per_row - 1;
    assert(r * per_row <= n && n < (r + 1) * per_row) by (nonlinear_arith)
        requires
            r == n / per_row,
            per_row >= 1,
    ;
    assert((r + 1) * per_row == r * per_row + per_row) by (nonlinear_arith);
    assert((r - 1) * per_row == r * per_row - per_row) by (nonlinear_arith);
    if cores == 0 {
        assert(r == 0) by (nonlinear_arith)
            requires
                r == (per_row - 1) / per_row,
                per_row >= 1,
        ;
    }
}

/// The meter is a third of the pane, within its bounds, and never wider than the
/// pane.
pub proof fn meter_is_a_third_of_the_pane(width: int)
    requires
        width >= 0,
    ensures
        meter_of(width) <= width,
        meter_of(width) <= 24,
        36 <= width <= 72 ==> meter_of(width) == width / 3,
        width >= 72 ==> meter_of(width) == 24,
        12 <= width <= 36 ==> meter_of(width) == 12,
{
}

/// Each core is drawn with its own load and under its own number.
pub proof fn each_core_is_drawn_as_itself(s: SystemPane, index: nat, look: Look, plan: CpuLayout)
    requires
        index < s.cores@.len(),
    ensures
        core_share_of(s, index as int) == match s.cores@[index as int] {
            Some(share) => share,
            None => Ratio { num: 0, den: 1 },
        },
        grid_cell(s, index, look, plan)[0].text == "c"@ + padded_right(dec(index), 2) + " "@,
        grid_cell(s, index, look, plan).last().style == fg_style(
            level_color(core_share_of(s, index as int), 60, 85),
        ),
{
    let cell = grid_cell(s, index, look, plan);
    assert(cell[0] == run(core_label(index), fg_style(DIM)));
}

} // verus!
