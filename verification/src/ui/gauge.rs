//! Meters and history graphs.
//!
//! - the fill of a meter is coloured per cell along a green to amber to red
//!   ramp, so where a bar ends is legible without reading the number;
//! - a partly filled cell is drawn at eighth-of-a-cell precision;
//! - the aggregate CPU gets a scrolling history graph, because a box pinned at
//!   full load and one that spikes once a minute show the same instant number.

use vstd::prelude::*;

use crate::numeric::{
    lemma_nearest_up_within, nearest_up, shares_are_in_order, shares_round_up, Ratio,
};
use crate::paint::{
    add_line, columns, fg_style, lemma_columns_push, no_lines, run, shows, Color, Line, Run, Style,
};
use crate::text::{contains, lowercase, lowered, occurs_in, same, trim, trimmed};

verus! {

/// `char::from_u32`: the character with that code, if the number is one.
pub assume_specification[ char::from_u32 ](i: u32) -> (r: Option<char>)
    ensures
        match r {
            Some(c) => c == i as char && (i < 0xd800 || 0xdfff < i <= 0x10ffff),
            None => 0xd800 <= i <= 0xdfff || i > 0x10ffff,
        },
;

/// Which characters meters, graphs and borders are drawn with.
#[derive(Debug, Clone, Copy, PartialEq, Eq, Structural)]
pub enum Glyphs {
    /// Block and braille drawing characters.
    Unicode,
    /// Plain ASCII, for a console font with no such characters.
    Ascii,
}

/// The characters of a pane's frame.
#[derive(Debug, Clone, Copy, PartialEq, Eq, Structural)]
pub struct Border {
    pub top_left: char,
    pub top_right: char,
    pub bottom_left: char,
    pub bottom_right: char,
    pub vertical: char,
    pub horizontal: char,
}

impl Glyphs {
    /// The set that a configured name stands for; unknown names fall back
    /// rather than fail.
    pub open spec fn named(name: Seq<char>) -> Glyphs {
        let key = lowered(trimmed(name));
        if key == "ascii"@ || key == "plain"@ {
            Glyphs::Ascii
        } else {
            Glyphs::Unicode
        }
    }

    pub fn parse(name: &str) -> (r: Glyphs)
        ensures
            r == Glyphs::named(name@),
    {
        let key = lowercase(trim(name).as_str());
        if same(key.as_str(), "ascii") || same(key.as_str(), "plain") {
            Glyphs::Ascii
        } else {
            Glyphs::Unicode
        }
    }

    pub open spec fn border_chars(self) -> Border {
        match self {
            Glyphs::Unicode => Border {
                top_left: '┌',
                top_right: '┐',
                bottom_left: '└',
                bottom_right: '┘',
                vertical: '│',
                horizontal: '─',
            },
            Glyphs::Ascii => Border {
                top_left: '+',
                top_right: '+',
                bottom_left: '+',
                bottom_right: '+',
                vertical: '|',
                horizontal: '-',
            },
        }
    }

    pub fn border_set(self) -> (r: Border)
        ensures
            r == self.border_chars(),
    {
        match self {
            Glyphs::Unicode => Border {
                top_left: '┌',
                top_right: '┐',
                bottom_left: '└',
                bottom_right: '┘',
                vertical: '│',
                horizontal: '─',
            },
            Glyphs::Ascii => Border {
                top_left: '+',
                top_right: '+',
                bottom_left: '+',
                bottom_right: '+',
                vertical: '|',
                horizontal: '-',
            },
        }
    }

    /// The character a fully filled meter cell uses.
    pub open spec fn full_char(self) -> char {
        match self {
            Glyphs::Unicode => '█',
            Glyphs::Ascii => '#',
        }
    }

    pub fn full(self) -> (r: char)
        ensures
            r == self.full_char(),
    {
        match self {
            Glyphs::Unicode => '█',
            Glyphs::Ascii => '#',
        }
    }

    /// The unfilled track behind a meter.
    pub open spec fn track_char(self) -> char {
        match self {
            Glyphs::Unicode => '░',
            Glyphs::Ascii => '.',
        }
    }

    pub fn track(self) -> (r: char)
        ensures
            r == self.track_char(),
    {
        match self {
            Glyphs::Unicode => '░',
            Glyphs::Ascii => '.',
        }
    }

    /// A cell filled `eighths` eighths of the way across. Nothing is the bare
    /// track; ASCII has no part of a cell and rounds at the half.
    pub open spec fn partial_char(self, eighths: nat) -> char {
        match self {
            Glyphs::Unicode => if eighths == 0 {
                '░'
            } else if eighths < 8 {
                ('█' as int + 8 - eighths) as char
            } else {
                '█'
            },
            Glyphs::Ascii => if eighths >= 4 {
                '#'
            } else {
                '.'
            },
        }
    }

    pub fn partial(self, eighths: usize) -> (r: char)
        ensures
            r == self.partial_char(eighths as nat),
    {
        match self {
            Glyphs::Unicode => match eighths {
                0 => '░',
                1 => '▏',
                2 => '▎',
                3 => '▍',
                4 => '▌',
                5 => '▋',
                6 => '▊',
                7 => '▉',
                _ => '█',
            },
            Glyphs::Ascii => if eighths >= 4 {
                '#'
            } else {
                '.'
            },
        }
    }
}

/// How many colours the terminal can be trusted with.
#[derive(Debug, Clone, Copy, PartialEq, Eq, Structural)]
pub enum Depth {
    /// The sixteen ANSI colours, which is all a framebuffer console has.
    Ansi16,
    /// The 256-colour cube.
    Cube256,
}

/// The depth that `TERM` and `COLORTERM` tell of.
pub open spec fn depth_of(term: Option<Seq<char>>, colorterm: Option<Seq<char>>) -> Depth {
    if colorterm is Some && trimmed(colorterm->0).len() > 0 {
        Depth::Cube256
    } else if term is Some && (occurs_in(term->0, "256color"@) || occurs_in(
        term->0,
        "direct"@,
    )) {
        Depth::Cube256
    } else {
        Depth::Ansi16
    }
}

/// What an optional string holds.
pub open spec fn opt_text(s: Option<&str>) -> Option<Seq<char>> {
    match s {
        Some(t) => Some(t@),
        None => None,
    }
}

/// Decides the depth from the two variables that carry the answer.
pub fn detect_depth(term: Option<&str>, colorterm: Option<&str>) -> (r: Depth)
    ensures
        r == depth_of(opt_text(term), opt_text(colorterm)),
{
    if let Some(c) = colorterm {
        let t = trim(c);
        if !t.as_str().is_empty() {
            return Depth::Cube256;
        }
    }
    match term {
        Some(t) => if contains(t, "256color") || contains(t, "direct") {
            Depth::Cube256
        } else {
            Depth::Ansi16
        },
        None => Depth::Ansi16,
    }
}

/// What a full bar means.
#[derive(Debug, Clone, Copy, PartialEq, Eq, Structural)]
pub enum Ramp {
    /// Green to amber to red: more is worse.
    Load,
    /// Blue to cyan: a full bar is fine.
    Cool,
}

/// The colour of the unfilled part of a meter and of the floor of a graph.
pub open spec fn track_color(depth: Depth) -> Color {
    match depth {
        Depth::Cube256 => Color::Indexed(236),
        Depth::Ansi16 => Color::DarkGray,
    }
}

pub fn track(depth: Depth) -> (r: Color)
    ensures
        r == track_color(depth),
{
    match depth {
        Depth::Cube256 => Color::Indexed(236),
        Depth::Ansi16 => Color::DarkGray,
    }
}

/// The background of every other table row, where the palette has one dark
/// enough.
pub open spec fn shade_of(depth: Depth) -> Option<Color> {
    match depth {
        Depth::Cube256 => Some(Color::Indexed(234)),
        Depth::Ansi16 => None,
    }
}

pub fn row_shade(depth: Depth) -> (r: Option<Color>)
    ensures
        r == shade_of(depth),
{
    match depth {
        Depth::Cube256 => Some(Color::Indexed(234)),
        Depth::Ansi16 => None,
    }
}

/// The stop, counted from zero, at `t` along a ramp of `stops` stops.
pub open spec fn stop_at(stops: nat, t: Ratio) -> nat {
    t.capped().of((stops - 1) as nat)
}

fn index_into(stops: usize, t: Ratio) -> (r: usize)
    requires
        stops > 0,
    ensures
        r == stop_at(stops as nat, t),
        r < stops,
{
    t.at_most_one().part_of(stops - 1)
}

/// The palette entry with the given red, green and blue, each up to five.
pub open spec fn cube_color(r: int, g: int, b: int) -> Color {
    Color::Indexed((16 + 36 * r + 6 * g + b) as u8)
}

pub open spec fn least(a: int, b: int) -> int {
    if a < b {
        a
    } else {
        b
    }
}

/// The colour at `t` along a ramp; past either end it is the end's.
///
/// The load ramp of the cube runs along two of its edges, green to yellow and
/// yellow to red, in eleven stops; the cool one from blue to cyan in six.
pub open spec fn ramp_color(depth: Depth, ramp: Ramp, t: Ratio) -> Color {
    match (depth, ramp) {
        (Depth::Cube256, Ramp::Load) => {
            let i = stop_at(11, t) as int;
            cube_color(least(i, 5), least(5, 10 - i), 0)
        },
        (Depth::Cube256, Ramp::Cool) => {
            let i = stop_at(6, t) as int;
            cube_color(0, i, least(3 + i, 5))
        },
        (Depth::Ansi16, Ramp::Load) => {
            seq![Color::Green, Color::LightGreen, Color::LightYellow, Color::LightRed, Color::Red][
                stop_at(5, t) as int
            ]
        },
        (Depth::Ansi16, Ramp::Cool) => {
            seq![Color::Blue, Color::LightBlue, Color::Cyan, Color::LightCyan][
                stop_at(4, t) as int
            ]
        },
    }
}

pub fn ramp_at(depth: Depth, ramp: Ramp, t: Ratio) -> (r: Color)
    ensures
        r == ramp_color(depth, ramp, t),
{
    match (depth, ramp) {
        (Depth::Cube256, Ramp::Load) => {
            let i: u8 = index_into(11, t) as u8;
            let red: u8 = if i < 5 {
                i
            } else {
                5
            };
            let green: u8 = if 5 < 10 - i {
                5
            } else {
                10 - i
            };
            Color::Indexed(16 + 36 * red + 6 * green)
        },
        (Depth::Cube256, Ramp::Cool) => {
            let i: u8 = index_into(6, t) as u8;
            let blue: u8 = if 3 + i < 5 {
                3 + i
            } else {
                5
            };
            Color::Indexed(16 + 6 * i + blue)
        },
        (Depth::Ansi16, Ramp::Load) => match index_into(5, t) {
            0 => Color::Green,
            1 => Color::LightGreen,
            2 => Color::LightYellow,
            3 => Color::LightRed,
            _ => Color::Red,
        },
        (Depth::Ansi16, Ramp::Cool) => match index_into(4, t) {
            0 => Color::Blue,
            1 => Color::LightBlue,
            2 => Color::Cyan,
            _ => Color::LightCyan,
        },
    }
}

/// One cell of a meter or graph.
pub struct Cell {
    pub color: Color,
    pub ch: char,
}

/// Runs of equal colour, with one more cell at the end.
pub open spec fn with_cell(grouped: Seq<Run>, cell: Cell) -> Seq<Run> {
    let style = fg_style(cell.color);
    if grouped.len() > 0 && grouped.last().style == style {
        grouped.drop_last().push(run(grouped.last().text.push(cell.ch), style))
    } else {
        grouped.push(run(seq![cell.ch], style))
    }
}

/// The cells as runs, one for each stretch of equal colour, so a long meter is
/// a handful of spans.
pub open spec fn grouped(cells: Seq<Cell>) -> Seq<Run>
    decreases cells.len(),
{
    if cells.len() == 0 {
        Seq::empty()
    } else {
        with_cell(grouped(cells.drop_last()), cells.last())
    }
}

/// Collects cells of equal colour into runs.
pub struct Runs {
    done: Line,
    text: String,
    color: Option<Color>,
}

impl Runs {
    /// What has been collected.
    pub closed spec fn collected(self) -> Seq<Run> {
        match self.color {
            None => self.done@,
            Some(c) => self.done@.push(run(self.text@, fg_style(c))),
        }
    }

    pub closed spec fn wf(self) -> bool {
        &&& self.color is None ==> self.done@.len() == 0 && self.text@.len() == 0
    }

    pub fn new() -> (r: Runs)
        ensures
            r.wf(),
            r.collected() == grouped(Seq::empty()),
    {
        Runs { done: Line::new(), text: String::new(), color: None }
    }

    pub fn push(&mut self, color: Color, ch: char)
        requires
            old(self).wf(),
        ensures
            final(self).wf(),
            final(self).collected() == with_cell(old(self).collected(), Cell { color, ch }),
    {
        let ghost before = self.collected();
        match self.color {
            None => {
                self.color = Some(color);
                self.text.push(ch);
                assert(self.text@ == seq![ch]);
            },
            Some(c) => {
                assert(before.drop_last() == self.done@);
                if c == color {
                    self.text.push(ch);
                } else {
                    let mut text = String::new();
                    text.push(ch);
                    assert(text@ == seq![ch]);
                    std::mem::swap(&mut self.text, &mut text);
                    self.done.push(text, Style::fg(c));
                    self.color = Some(color);
                    assert(self.done@ == before);
                }
            },
        }
    }

    pub fn finish(self) -> (r: Line)
        requires
            self.wf(),
        ensures
            r@ == self.collected(),
    {
        let mut done = self.done;
        match self.color {
            None => {},
            Some(c) => {
                done.push(self.text, Style::fg(c));
            },
        }
        done
    }
}

/// The eighths of a cell that a meter of `width` cells lights. Anything above
/// nothing lights at least one.
pub open spec fn lit_eighths(frac: Ratio, width: nat) -> nat {
    let f = frac.capped();
    let e = f.of(width * 8);
    if e == 0 && f.num > 0 {
        1
    } else {
        e
    }
}

/// Where along the bar the cell stands. Colour goes by position, not by value;
/// a bar of one cell has only its value to go by.
pub open spec fn cell_position(frac: Ratio, width: nat, cell: nat) -> Ratio {
    if width == 1 {
        frac
    } else {
        Ratio { num: cell as u64, den: (width - 1) as u64 }
    }
}

pub open spec fn bar_cell(
    depth: Depth,
    frac: Ratio,
    width: nat,
    glyphs: Glyphs,
    role: Ramp,
    cell: nat,
) -> Cell {
    let lit = lit_eighths(frac, width);
    let color = ramp_color(depth, role, cell_position(frac, width, cell));
    if cell < lit / 8 {
        Cell { color, ch: glyphs.full_char() }
    } else if cell == lit / 8 && lit % 8 > 0 {
        Cell { color, ch: glyphs.partial_char(lit % 8) }
    } else {
        Cell { color: track_color(depth), ch: glyphs.track_char() }
    }
}

/// The cells of a meter.
pub open spec fn bar_cells(
    depth: Depth,
    frac: Ratio,
    width: nat,
    glyphs: Glyphs,
    role: Ramp,
) -> Seq<Cell> {
    Seq::new(width, |i: int| bar_cell(depth, frac, width, glyphs, role, i as nat))
}

/// What a meter shows.
pub open spec fn bar_runs(
    depth: Depth,
    frac: Ratio,
    width: nat,
    glyphs: Glyphs,
    role: Ramp,
) -> Seq<Run> {
    grouped(bar_cells(depth, frac, width, glyphs, role))
}

/// A horizontal meter, gradient-filled, exactly `width` cells wide.
pub fn bar(depth: Depth, frac: Ratio, width: usize, glyphs: Glyphs, role: Ramp) -> (r: Line)
    requires
        width * 8 <= usize::MAX,
    ensures
        r@ == bar_runs(depth, frac, width as nat, glyphs, role),
{
    let f = frac.at_most_one();
    let mut eighths: usize = f.part_of(width * 8);
    if eighths == 0 && f.num > 0 {
        eighths = 1;
    }
    let full: usize = eighths / 8;
    let remainder: usize = eighths % 8;
    let ghost cells = bar_cells(depth, frac, width as nat, glyphs, role);
    let mut runs = Runs::new();
    let mut cell: usize = 0;
    assert(cells.take(0) == Seq::<Cell>::empty());
    while cell < width
        invariant
            cell <= width,
            eighths == lit_eighths(frac, width as nat),
            full == eighths / 8,
            remainder == eighths % 8,
            cells == bar_cells(depth, frac, width as nat, glyphs, role),
            runs.wf(),
            runs.collected() == grouped(cells.take(cell as int)),
        decreases width - cell,
    {
        let t = if width == 1 {
            frac
        } else {
            Ratio::new(cell as u64, (width - 1) as u64)
        };
        let ghost here = cells.take(cell + 1);
        assert(here.drop_last() == cells.take(cell as int));
        assert(here.last() == bar_cell(depth, frac, width as nat, glyphs, role, cell as nat));
        if cell < full {
            runs.push(ramp_at(depth, role, t), glyphs.full());
        } else if cell == full && remainder > 0 {
            runs.push(ramp_at(depth, role, t), glyphs.partial(remainder));
        } else {
            runs.push(track(depth), glyphs.track());
        }
        cell = cell + 1;
    }
    assert(cells.take(cell as int) == cells);
    runs.finish()
}

/// The level a sample reaches out of `levels`. Anything above nothing reaches
/// at least the first.
pub open spec fn level_of(value: Ratio, levels: nat) -> nat {
    let v = value.capped();
    if v.num == 0 {
        0
    } else if v.of(levels) < 1 {
        1
    } else {
        v.of(levels)
    }
}

/// The sample that stands in a column of a graph. Samples are aligned to the
/// right: the newest is in the last column, and columns older than the oldest
/// sample hold none.
pub open spec fn sample_at(samples: Seq<Ratio>, columns: nat, column: nat) -> Option<Ratio> {
    let i = samples.len() + column - columns;
    if 0 <= i < samples.len() {
        Some(samples[i])
    } else {
        None
    }
}

/// The level in a column of a graph; a column without a sample is at none.
pub open spec fn level_at(samples: Seq<Ratio>, columns: nat, levels: nat, column: nat) -> nat {
    match sample_at(samples, columns, column) {
        Some(value) => level_of(value, levels),
        None => 0,
    }
}

/// How far a level rises above `base`, up to `most`.
pub open spec fn risen(level: nat, base: nat, most: nat) -> nat {
    if level <= base {
        0
    } else if level - base > most {
        most
    } else {
        (level - base) as nat
    }
}

/// The dots of a braille cell's left column, filled `height` dots up. They are
/// numbered 1, 2, 3 and 7 from the top down, and dot `n` is bit `n - 1`.
pub open spec fn left_dots(height: nat) -> nat {
    if height == 0 {
        0
    } else if height == 1 {
        0x40
    } else if height == 2 {
        0x44
    } else if height == 3 {
        0x46
    } else {
        0x47
    }
}

/// The dots of a braille cell's right column: 4, 5, 6 and 8 from the top down.
pub open spec fn right_dots(height: nat) -> nat {
    if height == 0 {
        0
    } else if height == 1 {
        0x80
    } else if height == 2 {
        0xa0
    } else if height == 3 {
        0xb0
    } else {
        0xb8
    }
}

/// The braille cell with its columns filled to the given heights.
pub open spec fn braille(left: nat, right: nat) -> char {
    (0x2800 + left_dots(left) + right_dots(right)) as char
}

fn left_bits(height: usize) -> (r: u32)
    ensures
        r == left_dots(height as nat),
        r <= 0x47,
{
    match height {
        0 => 0,
        1 => 0x40,
        2 => 0x44,
        3 => 0x46,
        _ => 0x47,
    }
}

fn right_bits(height: usize) -> (r: u32)
    ensures
        r == right_dots(height as nat),
        r <= 0xb8,
{
    match height {
        0 => 0,
        1 => 0x80,
        2 => 0xa0,
        3 => 0xb0,
        _ => 0xb8,
    }
}

fn braille_char(left: usize, right: usize) -> (r: char)
    ensures
        r == braille(left as nat, right as nat),
{
    let code: u32 = 0x2800 + left_bits(left) + right_bits(right);
    match char::from_u32(code) {
        Some(c) => c,
        None => '⣿',
    }
}

fn rise(level: usize, base: usize, most: usize) -> (r: usize)
    ensures
        r == risen(level as nat, base as nat, most as nat),
        r <= most,
{
    if level <= base {
        0
    } else if level - base > most {
        most
    } else {
        level - base
    }
}

fn level_for(value: Ratio, levels: usize) -> (r: usize)
    ensures
        r == level_of(value, levels as nat),
{
    let v = value.at_most_one();
    if v.num == 0 {
        0
    } else {
        let level: usize = v.part_of(levels);
        if level < 1 {
            1
        } else {
            level
        }
    }
}

fn value_in(samples: &Vec<Ratio>, columns: usize, column: usize) -> (r: Option<Ratio>)
    requires
        column < columns,
    ensures
        r == sample_at(samples@, columns as nat, column as nat),
{
    let behind: usize = columns - column;
    if behind <= samples.len() {
        Some(samples[samples.len() - behind])
    } else {
        None
    }
}

fn level_in(samples: &Vec<Ratio>, columns: usize, levels: usize, column: usize) -> (r: usize)
    requires
        column < columns,
    ensures
        r == level_at(samples@, columns as nat, levels as nat, column as nat),
{
    match value_in(samples, columns, column) {
        Some(value) => level_for(value, levels),
        None => 0,
    }
}

/// The colour of a graph row, counted from the bottom: that of its middle, so
/// the same load is always the same colour.
pub open spec fn row_position(from_bottom: nat, rows: nat) -> Ratio {
    Ratio { num: (2 * from_bottom + 1) as u64, den: (2 * rows) as u64 }
}

/// One cell of a graph. A braille cell holds two samples of four levels each;
/// an ASCII cell one sample of two. Above the trace the graph is blank, but for
/// a floor under its last row.
pub open spec fn graph_cell(
    depth: Depth,
    samples: Seq<Ratio>,
    width: nat,
    rows: nat,
    glyphs: Glyphs,
    role: Ramp,
    from_bottom: nat,
    cell: nat,
) -> Cell {
    let lit = ramp_color(depth, role, row_position(from_bottom, rows));
    match glyphs {
        Glyphs::Unicode => {
            let left = risen(
                level_at(samples, width * 2, rows * 4, cell * 2),
                from_bottom * 4,
                4,
            );
            let right = risen(
                level_at(samples, width * 2, rows * 4, cell * 2 + 1),
                from_bottom * 4,
                4,
            );
            if left == 0 && right == 0 {
                Cell {
                    color: track_color(depth),
                    ch: if from_bottom == 0 {
                        '\u{28c0}'
                    } else {
                        ' '
                    },
                }
            } else {
                Cell { color: lit, ch: braille(left, right) }
            }
        },
        Glyphs::Ascii => {
            let height = risen(level_at(samples, width, rows * 2, cell), from_bottom * 2, 2);
            if height == 2 {
                Cell { color: lit, ch: '#' }
            } else if height == 1 {
                Cell { color: lit, ch: '-' }
            } else {
                Cell {
                    color: track_color(depth),
                    ch: if from_bottom == 0 {
                        '.'
                    } else {
                        ' '
                    },
                }
            }
        },
    }
}

/// The cells of one row of a graph, counted from the bottom.
pub open spec fn graph_row(
    depth: Depth,
    samples: Seq<Ratio>,
    width: nat,
    rows: nat,
    glyphs: Glyphs,
    role: Ramp,
    from_bottom: nat,
) -> Seq<Cell> {
    Seq::new(
        width,
        |i: int|
            graph_cell(depth, samples, width, rows, glyphs, role, from_bottom, i as nat),
    )
}

/// What a graph shows, from the top row down.
pub open spec fn graph_lines(
    depth: Depth,
    samples: Seq<Ratio>,
    width: nat,
    rows: nat,
    glyphs: Glyphs,
    role: Ramp,
) -> Seq<Seq<Run>> {
    if width == 0 {
        Seq::empty()
    } else {
        Seq::new(
            rows,
            |i: int|
                grouped(
                    graph_row(depth, samples, width, rows, glyphs, role, (rows - 1 - i) as nat),
                ),
        )
    }
}

fn graph_line(
    depth: Depth,
    samples: &Vec<Ratio>,
    width: usize,
    rows: usize,
    glyphs: Glyphs,
    role: Ramp,
    from_bottom: usize,
) -> (r: Line)
    requires
        width * 2 <= usize::MAX,
        rows * 4 <= usize::MAX,
        from_bottom < rows,
    ensures
        r@ == grouped(
            graph_row(
                depth,
                samples@,
                width as nat,
                rows as nat,
                glyphs,
                role,
                from_bottom as nat,
            ),
        ),
{
    let lit = ramp_at(
        depth,
        role,
        Ratio::new((2 * from_bottom + 1) as u64, (2 * rows) as u64),
    );
    let floor = from_bottom == 0;
    let ghost cells = graph_row(
        depth,
        samples@,
        width as nat,
        rows as nat,
        glyphs,
        role,
        from_bottom as nat,
    );
    let mut runs = Runs::new();
    let mut cell: usize = 0;
    assert(cells.take(0) == Seq::<Cell>::empty());
    while cell < width
        invariant
            cell <= width,
            width * 2 <= usize::MAX,
            rows * 4 <= usize::MAX,
            from_bottom < rows,
            lit == ramp_color(depth, role, row_position(from_bottom as nat, rows as nat)),
            floor == (from_bottom == 0),
            cells == graph_row(
                depth,
                samples@,
                width as nat,
                rows as nat,
                glyphs,
                role,
                from_bottom as nat,
            ),
            runs.wf(),
            runs.collected() == grouped(cells.take(cell as int)),
        decreases width - cell,
    {
        let ghost here = cells.take(cell + 1);
        assert(here.drop_last() == cells.take(cell as int));
        assert(here.last() == graph_cell(
            depth,
            samples@,
            width as nat,
            rows as nat,
            glyphs,
            role,
            from_bottom as nat,
            cell as nat,
        ));
        match glyphs {
            Glyphs::Unicode => {
                let left: usize = rise(
                    level_in(samples, width * 2, rows * 4, cell * 2),
                    from_bottom * 4,
                    4,
                );
                let right: usize = rise(
                    level_in(samples, width * 2, rows * 4, cell * 2 + 1),
                    from_bottom * 4,
                    4,
                );
                if left == 0 && right == 0 {
                    runs.push(
                        track(depth),
                        if floor {
                            '\u{28c0}'
                        } else {
                            ' '
                        },
                    );
                } else {
                    runs.push(lit, braille_char(left, right));
                }
            },
            Glyphs::Ascii => {
                let height: usize = rise(
                    level_in(samples, width, rows * 2, cell),
                    from_bottom * 2,
                    2,
                );
                if height == 2 {
                    runs.push(lit, '#');
                } else if height == 1 {
                    runs.push(lit, '-');
                } else {
                    runs.push(
                        track(depth),
                        if floor {
                            '.'
                        } else {
                            ' '
                        },
                    );
                }
            },
        }
        cell = cell + 1;
    }
    assert(cells.take(cell as int) == cells);
    runs.finish()
}

/// A scrolling area graph of `samples`, newest on the right, drawn into `rows`
/// lines of `width` cells.
pub fn area_graph(
    depth: Depth,
    samples: &Vec<Ratio>,
    width: usize,
    rows: usize,
    glyphs: Glyphs,
    role: Ramp,
) -> (r: Vec<Line>)
    requires
        width * 2 <= usize::MAX,
        rows * 4 <= usize::MAX,
    ensures
        shows(r@) == graph_lines(depth, samples@, width as nat, rows as nat, glyphs, role),
{
    let mut lines = no_lines();
    if width == 0 {
        return lines;
    }
    let ghost all = graph_lines(depth, samples@, width as nat, rows as nat, glyphs, role);
    let mut row: usize = 0;
    assert(all.take(0) == Seq::<Seq<Run>>::empty());
    while row < rows
        invariant
            row <= rows,
            width > 0,
            width * 2 <= usize::MAX,
            rows * 4 <= usize::MAX,
            all == graph_lines(depth, samples@, width as nat, rows as nat, glyphs, role),
            shows(lines@) == all.take(row as int),
        decreases rows - row,
    {
        let line = graph_line(depth, samples, width, rows, glyphs, role, rows - 1 - row);
        add_line(&mut lines, line);
        row = row + 1;
        assert(all.take(row as int) == all.take(row - 1).push(all[row - 1]));
    }
    assert(all.take(row as int) == all);
    lines
}

/// The larger of the values in a sparkline cell's two columns.
pub open spec fn peak_of(left: Option<Ratio>, right: Option<Ratio>) -> Ratio {
    let a = if left is Some {
        left->0.capped()
    } else {
        Ratio { num: 0, den: 1 }
    };
    let b = if right is Some {
        right->0.capped()
    } else {
        Ratio { num: 0, den: 1 }
    };
    if a.below(b) {
        b
    } else {
        a
    }
}

/// One cell of a sparkline: two samples of four levels. Colour follows the
/// cell's own value, because in one row height carries none.
pub open spec fn spark_cell(
    depth: Depth,
    samples: Seq<Ratio>,
    width: nat,
    role: Ramp,
    cell: nat,
) -> Cell {
    let left = level_at(samples, width * 2, 4, cell * 2);
    let right = level_at(samples, width * 2, 4, cell * 2 + 1);
    if left == 0 && right == 0 {
        Cell { color: track_color(depth), ch: '\u{28c0}' }
    } else {
        let peak = peak_of(
            sample_at(samples, width * 2, cell * 2),
            sample_at(samples, width * 2, cell * 2 + 1),
        );
        Cell { color: ramp_color(depth, role, peak), ch: braille(left, right) }
    }
}

/// What a sparkline shows. ASCII has no four-level character and gets the one
/// row of a graph.
pub open spec fn spark_runs(
    depth: Depth,
    samples: Seq<Ratio>,
    width: nat,
    glyphs: Glyphs,
    role: Ramp,
) -> Seq<Run> {
    match glyphs {
        Glyphs::Unicode => grouped(
            Seq::new(width, |i: int| spark_cell(depth, samples, width, role, i as nat)),
        ),
        Glyphs::Ascii => grouped(graph_row(depth, samples, width, 1, glyphs, role, 0)),
    }
}

fn capped_or_zero(value: Option<Ratio>) -> (r: Ratio)
    ensures
        r == if value is Some {
            value->0.capped()
        } else {
            (Ratio { num: 0, den: 1 })
        },
{
    match value {
        Some(v) => v.at_most_one(),
        None => Ratio::new(0, 1),
    }
}

/// A one-row filled graph, for the per-core column.
pub fn sparkline(
    depth: Depth,
    samples: &Vec<Ratio>,
    width: usize,
    glyphs: Glyphs,
    role: Ramp,
) -> (r: Line)
    requires
        width * 2 <= usize::MAX,
    ensures
        r@ == spark_runs(depth, samples@, width as nat, glyphs, role),
{
    if glyphs == Glyphs::Ascii {
        return graph_line(depth, samples, width, 1, glyphs, role, 0);
    }
    let ghost cells = Seq::new(
        width as nat,
        |i: int| spark_cell(depth, samples@, width as nat, role, i as nat),
    );
    let mut runs = Runs::new();
    let mut cell: usize = 0;
    assert(cells.take(0) == Seq::<Cell>::empty());
    while cell < width
        invariant
            cell <= width,
            width * 2 <= usize::MAX,
            cells.len() == width,
            forall|i: int|
                0 <= i < width ==> #[trigger] cells[i] == spark_cell(
                    depth,
                    samples@,
                    width as nat,
                    role,
                    i as nat,
                ),
            runs.wf(),
            runs.collected() == grouped(cells.take(cell as int)),
        decreases width - cell,
    {
        let ghost here = cells.take(cell + 1);
        assert(here.drop_last() == cells.take(cell as int));
        assert(here.last() == cells[cell as int]);
        let a = value_in(samples, width * 2, cell * 2);
        let b = value_in(samples, width * 2, cell * 2 + 1);
        let left: usize = level_in(samples, width * 2, 4, cell * 2);
        let right: usize = level_in(samples, width * 2, 4, cell * 2 + 1);
        if left == 0 && right == 0 {
            runs.push(track(depth), '\u{28c0}');
        } else {
            let x = capped_or_zero(a);
            let y = capped_or_zero(b);
            let peak = if x.less_than(y) {
                y
            } else {
                x
            };
            runs.push(ramp_at(depth, role, peak), braille_char(left, right));
        }
        cell = cell + 1;
    }
    assert(cells.take(cell as int) =~= Seq::new(
        width as nat,
        |i: int| spark_cell(depth, samples@, width as nat, role, i as nat),
    ));
    runs.finish()
}

/// The columns that grouped cells take are as many as the cells.
pub proof fn lemma_grouped_columns(cells: Seq<Cell>)
    ensures
        columns(grouped(cells)) == cells.len(),
    decreases cells.len(),
{
    if cells.len() > 0 {
        let before = grouped(cells.drop_last());
        let cell = cells.last();
        lemma_grouped_columns(cells.drop_last());
        if before.len() > 0 && before.last().style == fg_style(cell.color) {
            lemma_columns_push(before.drop_last(), before.last());
            assert(before.drop_last().push(before.last()) == before);
            lemma_columns_push(
                before.drop_last(),
                run(before.last().text.push(cell.ch), fg_style(cell.color)),
            );
        } else {
            lemma_columns_push(before, run(seq![cell.ch], fg_style(cell.color)));
        }
    }
}

/// A meter is exactly as wide as it was asked to be, whatever its value.
pub proof fn bar_fills_its_width(
    depth: Depth,
    frac: Ratio,
    width: nat,
    glyphs: Glyphs,
    role: Ramp,
)
    ensures
        columns(bar_runs(depth, frac, width, glyphs, role)) == width,
{
    lemma_grouped_columns(bar_cells(depth, frac, width, glyphs, role));
}

/// A graph has the rows it was asked for, and every row is as wide as asked.
pub proof fn graph_fills_its_area(
    depth: Depth,
    samples: Seq<Ratio>,
    width: nat,
    rows: nat,
    glyphs: Glyphs,
    role: Ramp,
)
    requires
        width > 0,
    ensures
        graph_lines(depth, samples, width, rows, glyphs, role).len() == rows,
        forall|i: int|
            0 <= i < rows ==> columns(
                #[trigger] graph_lines(depth, samples, width, rows, glyphs, role)[i],
            ) == width,
{
    let all = graph_lines(depth, samples, width, rows, glyphs, role);
    assert forall|i: int| 0 <= i < rows implies columns(#[trigger] all[i]) == width by {
        lemma_grouped_columns(
            graph_row(depth, samples, width, rows, glyphs, role, (rows - 1 - i) as nat),
        );
    }
}

/// A sparkline is exactly as wide as it was asked to be.
pub proof fn sparkline_fills_its_width(
    depth: Depth,
    samples: Seq<Ratio>,
    width: nat,
    glyphs: Glyphs,
    role: Ramp,
)
    ensures
        columns(spark_runs(depth, samples, width, glyphs, role)) == width,
{
    match glyphs {
        Glyphs::Unicode => {
            lemma_grouped_columns(
                Seq::new(width, |i: int| spark_cell(depth, samples, width, role, i as nat)),
            );
        },
        Glyphs::Ascii => {
            lemma_grouped_columns(graph_row(depth, samples, width, 1, glyphs, role, 0));
        },
    }
}

/// The largest of some counts, or zero.
pub open spec fn peak_count(v: Seq<u64>) -> u64
    decreases v.len(),
{
    if v.len() == 0 {
        0
    } else if v.last() > peak_count(v.drop_last()) {
        v.last()
    } else {
        peak_count(v.drop_last())
    }
}

/// Counts as parts of their own peak, for a trace whose scale is its own.
pub open spec fn parts_of_peak(v: Seq<u64>) -> Seq<Ratio> {
    Seq::new(v.len(), |i: int| Ratio { num: v[i], den: peak_count(v) })
}

pub fn scale_to_peak(v: &Vec<u64>) -> (r: Vec<Ratio>)
    ensures
        r@ == parts_of_peak(v@),
{
    let mut peak: u64 = 0;
    let mut i: usize = 0;
    assert(v@.take(0) == Seq::<u64>::empty());
    while i < v.len()
        invariant
            i <= v@.len(),
            peak == peak_count(v@.take(i as int)),
        decreases v@.len() - i,
    {
        assert(v@.take(i + 1).drop_last() == v@.take(i as int));
        assert(v@.take(i + 1).last() == v@[i as int]);
        if v[i] > peak {
            peak = v[i];
        }
        i = i + 1;
    }
    assert(v@.take(i as int) == v@);
    let mut out: Vec<Ratio> = Vec::new();
    let mut j: usize = 0;
    while j < v.len()
        invariant
            j <= v@.len(),
            peak == peak_count(v@),
            out@ == parts_of_peak(v@).take(j as int),
        decreases v@.len() - j,
    {
        out.push(Ratio::new(v[j], peak));
        j = j + 1;
        assert(parts_of_peak(v@).take(j as int) == parts_of_peak(v@).take(j - 1).push(
            parts_of_peak(v@)[j - 1],
        ));
    }
    assert(parts_of_peak(v@).take(j as int) == parts_of_peak(v@));
    out
}

/// Whether every character of a line is ASCII.
pub open spec fn all_ascii(line: Seq<Run>) -> bool {
    forall|i: int, k: int|
        0 <= i < line.len() && 0 <= k < line[i].text.len() ==> (#[trigger] line[i].text[k])
            < '\u{80}'
}

proof fn lemma_grouped_ascii(cells: Seq<Cell>)
    requires
        forall|i: int| 0 <= i < cells.len() ==> (#[trigger] cells[i]).ch < '\u{80}',
    ensures
        all_ascii(grouped(cells)),
    decreases cells.len(),
{
    if cells.len() > 0 {
        let rest = cells.drop_last();
        assert forall|i: int| 0 <= i < rest.len() implies (#[trigger] rest[i]).ch < '\u{80}' by {
            assert(rest[i] == cells[i]);
        }
        lemma_grouped_ascii(rest);
        let before = grouped(rest);
        let line = grouped(cells);
        let last = cells.last();
        assert(last == cells[cells.len() - 1]);
        assert forall|i: int, k: int| 0 <= i < line.len() && 0 <= k < line[i].text.len() implies (
        #[trigger] line[i].text[k]) < '\u{80}' by {
            if before.len() > 0 && before.last().style == fg_style(last.color) {
                if i < before.len() - 1 {
                    assert(line[i] == before[i]);
                } else if k < before.last().text.len() {
                    assert(before[before.len() - 1].text[k] == line[i].text[k]);
                }
            } else if i < before.len() {
                assert(line[i] == before[i]);
            }
        }
    }
}

/// With the ASCII set, no meter, graph or sparkline holds a character that a
/// framebuffer console cannot draw, and nor does a frame.
pub proof fn ascii_set_is_ascii(
    depth: Depth,
    frac: Ratio,
    samples: Seq<Ratio>,
    width: nat,
    rows: nat,
    role: Ramp,
)
    ensures
        all_ascii(bar_runs(depth, frac, width, Glyphs::Ascii, role)),
        all_ascii(spark_runs(depth, samples, width, Glyphs::Ascii, role)),
        forall|i: int|
            0 <= i < graph_lines(depth, samples, width, rows, Glyphs::Ascii, role).len()
                ==> all_ascii(
                #[trigger] graph_lines(depth, samples, width, rows, Glyphs::Ascii, role)[i],
            ),
        ({
            let b = Glyphs::Ascii.border_chars();
            &&& b.top_left < '\u{80}'
            &&& b.top_right < '\u{80}'
            &&& b.bottom_left < '\u{80}'
            &&& b.bottom_right < '\u{80}'
            &&& b.vertical < '\u{80}'
            &&& b.horizontal < '\u{80}'
        }),
{
    lemma_grouped_ascii(bar_cells(depth, frac, width, Glyphs::Ascii, role));
    lemma_grouped_ascii(graph_row(depth, samples, width, 1, Glyphs::Ascii, role, 0));
    let lines = graph_lines(depth, samples, width, rows, Glyphs::Ascii, role);
    assert forall|i: int| 0 <= i < lines.len() implies all_ascii(#[trigger] lines[i]) by {
        lemma_grouped_ascii(
            graph_row(depth, samples, width, rows, Glyphs::Ascii, role, (rows - 1 - i) as nat),
        );
    }
}

/// Anything above nothing lights something, and everything lights all of it.
pub proof fn meter_ends_are_honest(frac: Ratio, width: nat)
    requires
        frac.den > 0,
    ensures
        frac.num > 0 ==> lit_eighths(frac, width) > 0,
        frac.num == 0 ==> lit_eighths(frac, width) == 0,
        frac.num >= frac.den && width > 0 ==> lit_eighths(frac, width) == width * 8,
        width > 0 ==> lit_eighths(frac, width) <= width * 8,
{
    let f = frac.capped();
    lemma_nearest_up_within(f.top(), f.bottom(), width * 8);
    if frac.num == 0 {
        assert(f.top() * (width * 8) == 0) by (nonlinear_arith)
            requires
                f.top() == 0,
        ;
    }
    if frac.num >= frac.den {
        let d = f.bottom();
        let m = width * 8;
        assert(f.top() == d);
        assert((d * m) / d == m && (d * m) % d == 0) by (nonlinear_arith)
            requires
                d > 0,
        ;
    }
}

/// The plain character set is used where it is asked for by either of its
/// names, in any case, and nowhere else.
pub proof fn plain_characters_are_asked_for(name: Seq<char>)
    ensures
        Glyphs::named(name) == Glyphs::Ascii <==> lowered(trimmed(name)) == "ascii"@ || lowered(
            trimmed(name),
        ) == "plain"@,
{
}

/// The larger palette is used where the terminal says in one way or another
/// that it has it.
pub proof fn palette_is_what_the_terminal_has(
    term: Option<Seq<char>>,
    colorterm: Option<Seq<char>>,
)
    ensures
        depth_of(term, colorterm) == Depth::Cube256 <==> (colorterm matches Some(c) && trimmed(
            c,
        ).len() > 0) || (term matches Some(t) && (occurs_in(t, "256color"@) || occurs_in(
            t,
            "direct"@,
        ))),
        depth_of(None, None) == Depth::Ansi16,
{
}

proof fn lemma_part_grows(a: u64, b: u64, den: u64, m: nat)
    requires
        a <= b,
        den > 0,
    ensures
        nearest_up(a as nat * m, den as nat) <= nearest_up(b as nat * m, den as nat),
{
    let x = a as nat * m;
    let y = b as nat * m;
    let d = den as nat;
    assert(x <= y) by (nonlinear_arith)
        requires
            x == a as nat * m,
            y == b as nat * m,
            a <= b,
    ;
    let u = nearest_up(x, d);
    let v = nearest_up(y, d);
    shares_round_up(x, d);
    shares_round_up(y, d);
    if u > v {
        assert(u * d >= v * d + d) by (nonlinear_arith)
            requires
                u > v,
                d > 0,
        ;
    }
}

/// A meter is lit in proportion: more is never shown as less, a half is shown
/// as a half, and what is shown is within half an eighth of a cell of the value
/// unless that would hide it.
pub proof fn meter_is_lit_in_proportion(a: u64, b: u64, den: u64, width: nat)
    requires
        a <= b <= den,
        den > 0,
    ensures
        lit_eighths(Ratio { num: a, den }, width) <= lit_eighths(Ratio { num: b, den }, width),
        2 * a == den ==> lit_eighths(Ratio { num: a, den }, width) == if width == 0 {
            1
        } else {
            width * 4
        },
        lit_eighths(Ratio { num: a, den }, width) > 1 ==> 2 * (lit_eighths(
            Ratio { num: a, den },
            width,
        ) * den) <= 2 * (a * (width * 8)) + den && 2 * (a * (width * 8)) < 2 * (lit_eighths(
            Ratio { num: a, den },
            width,
        ) * den) + den,
{
    let m = width * 8;
    lemma_part_grows(a, b, den, m);
    shares_round_up(a as nat * m, den as nat);
    if 2 * a == den {
        let e = width * 4;
        assert(a as nat * m == e * den as nat) by (nonlinear_arith)
            requires
                2 * a == den,
                m == width * 8,
                e == width * 4,
        ;
        let d = den as nat;
        let n = a as nat * m;
        assert(n / d == e && n % d == 0) by (nonlinear_arith)
            requires
                n == e * d,
                d > 0,
        ;
        assert(nearest_up(n, d) == e);
    }
    assert(a as nat * m == a * (width * 8));
    assert(a == 0 ==> a as nat * m == 0) by (nonlinear_arith);
}

/// A meter is lit from the left without a gap: whatever is behind a cell that is
/// not lit is not lit either.
pub proof fn meter_has_no_gap(
    depth: Depth,
    frac: Ratio,
    width: nat,
    glyphs: Glyphs,
    role: Ramp,
    i: nat,
    j: nat,
)
    requires
        i < j < width,
    ensures
        8 * (j + 1) <= lit_eighths(frac, width) ==> bar_cell(
            depth,
            frac,
            width,
            glyphs,
            role,
            i,
        ).ch == glyphs.full_char(),
        lit_eighths(frac, width) <= 8 * i ==> bar_cell(depth, frac, width, glyphs, role, j) == (
        Cell { color: track_color(depth), ch: glyphs.track_char() }),
        8 * (i + 1) <= lit_eighths(frac, width) ==> bar_cell(
            depth,
            frac,
            width,
            glyphs,
            role,
            i,
        ).ch == glyphs.full_char(),
{
}

/// The ramp of a load runs from green to red and of what is merely used from
/// blue to cyan, on either palette; a fuller one never looks better.
pub proof fn ramps_run_from_good_to_bad(t: Ratio)
    requires
        t.den > 0,
    ensures
        t.num == 0 ==> ramp_color(Depth::Ansi16, Ramp::Load, t) == Color::Green,
        t.num >= t.den ==> ramp_color(Depth::Ansi16, Ramp::Load, t) == Color::Red,
        t.num == 0 ==> ramp_color(Depth::Ansi16, Ramp::Cool, t) == Color::Blue,
        t.num >= t.den ==> ramp_color(Depth::Ansi16, Ramp::Cool, t) == Color::LightCyan,
        t.num == 0 ==> ramp_color(Depth::Cube256, Ramp::Load, t) == Color::Indexed(46),
        t.num >= t.den ==> ramp_color(Depth::Cube256, Ramp::Load, t) == Color::Indexed(196),
        t.num == 0 ==> ramp_color(Depth::Cube256, Ramp::Cool, t) == Color::Indexed(19),
        t.num >= t.den ==> ramp_color(Depth::Cube256, Ramp::Cool, t) == Color::Indexed(51),
{
    lemma_ends_of_stops(t, 11);
    lemma_ends_of_stops(t, 6);
    lemma_ends_of_stops(t, 5);
    lemma_ends_of_stops(t, 4);
}

proof fn lemma_ends_of_stops(t: Ratio, stops: nat)
    requires
        t.den > 0,
        stops > 0,
    ensures
        t.num == 0 ==> stop_at(stops, t) == 0,
        t.num >= t.den ==> stop_at(stops, t) == stops - 1,
{
    let m = (stops - 1) as nat;
    let c = t.capped();
    let d = c.den as nat;
    if t.num == 0 {
        assert(0 * m == 0);
        assert(0nat / d == 0 && 0nat % d == 0) by (nonlinear_arith)
            requires
                d > 0,
        ;
    }
    if t.num >= t.den {
        assert(c.num == c.den);
        let n = c.num as nat * m;
        assert(n / d == m && n % d == 0) by (nonlinear_arith)
            requires
                n == d * m,
                d > 0,
        ;
    }
}

/// Further along a ramp is never back along it.
pub proof fn ramps_never_turn_back(a: u64, b: u64, den: u64, stops: nat)
    requires
        a <= b <= den,
        den > 0,
        stops > 0,
    ensures
        stop_at(stops, Ratio { num: a, den }) <= stop_at(stops, Ratio { num: b, den }),
        stop_at(stops, Ratio { num: b, den }) < stops,
{
    lemma_part_grows(a, b, den, (stops - 1) as nat);
    lemma_part_grows(b, den, den, (stops - 1) as nat);
    lemma_ends_of_stops(Ratio { num: den, den }, stops);
}

/// A reading is drawn as high as its value: nothing for nothing, something for
/// anything, all of it for the whole, and never less for more.
pub proof fn readings_are_drawn_to_scale(a: u64, b: u64, den: u64, levels: nat)
    requires
        a <= b <= den,
        den > 0,
        levels > 0,
    ensures
        level_of(Ratio { num: a, den }, levels) <= level_of(Ratio { num: b, den }, levels),
        level_of(Ratio { num: a, den }, levels) == 0 <==> a == 0,
        level_of(Ratio { num: den, den }, levels) == levels,
        level_of(Ratio { num: b, den }, levels) <= levels,
{
    lemma_part_grows(a, b, den, levels);
    lemma_part_grows(b, den, den, levels);
    let d = den as nat;
    let n = d * levels;
    assert(n / d == levels && n % d == 0) by (nonlinear_arith)
        requires
            n == d * levels,
            d > 0,
    ;
}

/// The newest reading stands at the right edge and the others before it in
/// their order; what is older than the drawing is wide is not drawn, and columns
/// with no reading yet are empty.
pub proof fn newest_reading_stands_at_the_edge(samples: Seq<Ratio>, columns: nat, column: nat)
    requires
        column < columns,
    ensures
        samples.len() > 0 ==> sample_at(samples, columns, (columns - 1) as nat) == Some(
            samples.last(),
        ),
        samples.len() == 0 ==> sample_at(samples, columns, column) is None,
        column + samples.len() < columns ==> sample_at(samples, columns, column) is None,
        column + samples.len() >= columns && samples.len() > 0 ==> sample_at(
            samples,
            columns,
            column,
        ) == Some(samples[samples.len() - (columns - column)]),
{
}

/// Each pair of heights has its own character, and the higher of two has every
/// dot of the lower.
pub proof fn dots_tell_heights_apart(a: nat, b: nat, c: nat, d: nat)
    requires
        a <= 4,
        b <= 4,
        c <= 4,
        d <= 4,
    ensures
        left_dots(a) + right_dots(b) == left_dots(c) + right_dots(d) ==> a == c && b == d,
        a <= c ==> left_dots(a) <= left_dots(c),
        b <= d ==> right_dots(b) <= right_dots(d),
        left_dots(0) == 0,
        right_dots(0) == 0,
        left_dots(4) == 0x47,
        right_dots(4) == 0xb8,
{
}

/// A cell of a graph is lit exactly as far as the reading rises above the row's
/// foot.
pub proof fn rows_are_lit_as_far_as_readings_rise(level: nat, base: nat, most: nat)
    ensures
        risen(level, base, most) <= most,
        level <= base ==> risen(level, base, most) == 0,
        base <= level <= base + most ==> base + risen(level, base, most) == level,
        level >= base + most ==> risen(level, base, most) == most,
{
}

/// The peak is as large as the largest and is one of them.
pub proof fn peak_is_the_largest(v: Seq<u64>)
    ensures
        forall|i: int| 0 <= i < v.len() ==> #[trigger] v[i] <= peak_count(v),
        v.len() > 0 ==> v.contains(peak_count(v)),
        parts_of_peak(v).len() == v.len(),
        forall|i: int|
            0 <= i < v.len() ==> (#[trigger] parts_of_peak(v)[i]).num == v[i]
                && parts_of_peak(v)[i].den == peak_count(v),
    decreases v.len(),
{
    if v.len() > 0 {
        let rest = v.drop_last();
        peak_is_the_largest(rest);
        assert forall|i: int| 0 <= i < v.len() implies #[trigger] v[i] <= peak_count(v) by {
            if i < rest.len() {
                assert(rest[i] == v[i]);
            }
        }
        if v.last() > peak_count(rest) || rest.len() == 0 {
            assert(v[v.len() - 1] == peak_count(v));
        } else {
            let k = choose|k: int| 0 <= k < rest.len() && rest[k] == peak_count(rest);
            assert(v[k] == peak_count(v));
        }
    }
}

/// The colour of two readings drawn together is that of the larger.
pub proof fn larger_reading_gives_the_colour(a: Ratio, b: Ratio)
    ensures
        peak_of(Some(a), None) == a.capped() || a.capped().below(Ratio { num: 0, den: 1 }),
        !peak_of(Some(a), Some(b)).below(a.capped()),
        !peak_of(Some(a), Some(b)).below(b.capped()),
        peak_of(Some(a), Some(b)) == a.capped() || peak_of(Some(a), Some(b)) == b.capped(),
{
    shares_are_in_order(a.capped(), b.capped());
    shares_are_in_order(b.capped(), a.capped());
}

} // verus!
