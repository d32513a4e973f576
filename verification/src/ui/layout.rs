//! Where things stand on the screen.

use vstd::prelude::*;

use super::system::{clamped, least_of, minus};
use crate::config::{NARROW_COLS, READER_MAX_COLS, READER_MIN_COLS};

verus! {

/// A rectangle of cells.
#[derive(Debug, Clone, Copy, PartialEq, Eq, Structural)]
pub struct Rect {
    pub x: u16,
    pub y: u16,
    pub width: u16,
    pub height: u16,
}

impl Rect {
    /// Whether the far edges can be counted at all.
    pub open spec fn countable(self) -> bool {
        self.x + self.width <= u16::MAX && self.y + self.height <= u16::MAX
    }

    /// Whether this lies inside another.
    pub open spec fn within(self, area: Rect) -> bool {
        &&& area.x <= self.x
        &&& area.y <= self.y
        &&& self.x + self.width <= area.x + area.width
        &&& self.y + self.height <= area.y + area.height
    }

    /// The columns and rows inside a frame drawn on the edges.
    pub open spec fn inside(self) -> (int, int) {
        (minus(self.width as int, 2), minus(self.height as int, 2))
    }

    pub fn inner(self) -> (r: (u16, u16))
        ensures
            (r.0 as int, r.1 as int) == self.inside(),
    {
        (self.width.saturating_sub(2), self.height.saturating_sub(2))
    }
}

/// What a part of a split asks for: so many cells, or at least so many.
#[derive(Debug, Clone, Copy, PartialEq, Eq, Structural)]
pub enum Part {
    Length(u16),
    Min(u16),
}

impl Part {
    pub open spec fn least(self) -> int {
        match self {
            Part::Length(n) => n as int,
            Part::Min(n) => n as int,
        }
    }
}

/// What the first `n` parts ask for at the least.
pub open spec fn asked(parts: Seq<Part>, n: nat) -> int
    decreases n,
{
    if n == 0 {
        0
    } else {
        asked(parts, (n - 1) as nat) + parts[n - 1].least()
    }
}

/// Whether all parts but one ask for a length.
pub open spec fn one_grows(parts: Seq<Part>, at: int) -> bool {
    &&& 0 <= at < parts.len()
    &&& parts[at] is Min
    &&& forall|i: int| 0 <= i < parts.len() && i != at ==> (#[trigger] parts[i]) is Length
}

/// How far along the split direction a rectangle starts, and how long it is.
pub open spec fn start_of(r: Rect, vertical: bool) -> int {
    if vertical {
        r.y as int
    } else {
        r.x as int
    }
}

pub open spec fn size_of(r: Rect, vertical: bool) -> int {
    if vertical {
        r.height as int
    } else {
        r.width as int
    }
}

/// Where a part starts when all that is asked for fits: behind those before it,
/// the one that grows taking what is left.
pub open spec fn starts_at(parts: Seq<Part>, at: int, size: int, i: nat) -> int {
    if i > at {
        asked(parts, i) + (size - asked(parts, parts.len()))
    } else {
        asked(parts, i)
    }
}

/// How many of `t` cells the first of two lengths gets that ask for `a` and `b`
/// and together for more: half of them, rounded up, but neither gets more than
/// it asked for.
pub open spec fn squeezed(a: int, b: int, t: int) -> int {
    if 2 * a < t {
        a
    } else if 2 * b < t {
        t - b
    } else {
        (t + 1) / 2
    }
}

/// Splits an area along one direction, by ratatui's `Layout::split`.
///
/// There is a rectangle for each part, each of them in the area and across all
/// of it. They stand in order, adjoin and fill the area: that there is nothing
/// between them is the strongest of what the solver is asked for. Where the
/// least that the parts ask for fits, and only one of them may grow, each length
/// is kept and that one takes the rest. Where it does not fit, the part that may
/// grow still gets its least, as far as the area has it, because its constraint
/// is stronger than that of a length. Two lengths before it share what is left
/// as evenly as what they asked for allows, because the solver is also asked,
/// weakest of all, for neighbours of equal size. In any other order the lengths
/// may tie; which of them then gives way is left to the solver, whose order of
/// work differs from run to run, and is not stated.
#[verifier::external_body]
pub(crate) fn split(area: Rect, vertical: bool, parts: &Vec<Part>) -> (r: Vec<Rect>)
    requires
        area.countable(),
        exists|at: int| one_grows(parts@, at),
        forall|i: int|
            0 <= i < parts@.len() && (#[trigger] parts@[i]) is Min ==> parts@[i].least()
                <= i16::MAX,
    ensures
        r@.len() == parts@.len(),
        forall|i: int|
            0 <= i < r@.len() ==> {
                &&& (#[trigger] r@[i]).within(area)
                &&& vertical ==> r@[i].x == area.x && r@[i].width == area.width
                &&& !vertical ==> r@[i].y == area.y && r@[i].height == area.height
            },
        forall|at: int, i: int|
            #![trigger one_grows(parts@, at), r@[i]]
            one_grows(parts@, at) && 0 <= i < r@.len() && asked(parts@, parts@.len()) <= size_of(
                area,
                vertical,
            ) ==> {
                &&& start_of(r@[i], vertical) == start_of(area, vertical) + starts_at(
                    parts@,
                    at,
                    size_of(area, vertical),
                    i as nat,
                )
                &&& start_of(r@[i], vertical) + size_of(r@[i], vertical) == start_of(area, vertical)
                    + starts_at(parts@, at, size_of(area, vertical), (i + 1) as nat)
            },
        forall|at: int|
            #[trigger] one_grows(parts@, at) ==> size_of(r@[at], vertical) >= least_of(
                parts@[at].least(),
                size_of(area, vertical),
            ),
        start_of(r@[0], vertical) == start_of(area, vertical),
        start_of(r@.last(), vertical) + size_of(r@.last(), vertical) == start_of(area, vertical)
            + size_of(area, vertical),
        forall|i: int|
            0 <= i < r@.len() - 1 ==> start_of(r@[i + 1], vertical) == start_of(
                #[trigger] r@[i],
                vertical,
            ) + size_of(r@[i], vertical),
        parts@.len() == 3 && one_grows(parts@, 2) && parts@[2].least() <= size_of(area, vertical)
            < asked(parts@, 3) ==> {
            &&& size_of(r@[2], vertical) == parts@[2].least()
            &&& size_of(r@[0], vertical) == squeezed(
                parts@[0].least(),
                parts@[1].least(),
                size_of(area, vertical) - parts@[2].least(),
            )
        },
{
    let asked = parts.iter().map(|p| match p {
        Part::Length(n) => ratatui::layout::Constraint::Length(*n),
        Part::Min(n) => ratatui::layout::Constraint::Min(*n),
    });
    let direction = match vertical {
        true => ratatui::layout::Direction::Vertical,
        false => ratatui::layout::Direction::Horizontal,
    };
    let whole = ratatui::layout::Rect::new(area.x, area.y, area.width, area.height);
    let layout = ratatui::layout::Layout::new(direction, asked);
    let cells = layout.split(whole);
    cells.iter().map(|c| Rect { x: c.x, y: c.y, width: c.width, height: c.height }).collect()
}

/// The whole of the screen.
pub open spec fn whole(width: u16, height: u16) -> Rect {
    Rect { x: 0, y: 0, width, height }
}

/// Where the panes stand: all of them, or the one in focus on a terminal too
/// narrow for all.
#[derive(Debug, Clone, Copy, PartialEq, Eq, Structural)]
pub enum Body {
    Wide { system: Rect, health: Rect, radios: Rect, classg: Rect },
    Narrow { focused: Rect },
}

/// Where everything stands.
#[derive(Debug, Clone, Copy, PartialEq, Eq, Structural)]
pub struct Places {
    pub header: Rect,
    pub body: Body,
    pub footer: Rect,
}

/// The width of the column of readers: a share of the screen, but never wider
/// than they have use for.
pub open spec fn reader_cols(width: int) -> int {
    clamped(width * 42 / 100, READER_MIN_COLS as int, READER_MAX_COLS as int)
}

pub fn reader_width(width: u16) -> (r: u16)
    ensures
        r == reader_cols(width as int),
{
    let share: u32 = width as u32 * 42 / 100;
    if share < READER_MIN_COLS as u32 {
        READER_MIN_COLS
    } else if share > READER_MAX_COLS as u32 {
        READER_MAX_COLS
    } else {
        share as u16
    }
}

/// The rows of the body of a screen: all but the header's and the footer's.
pub open spec fn body_rows(height: int) -> int {
    height - 2
}

impl Body {
    /// Whether all panes lie in an area.
    pub open spec fn within(self, area: Rect) -> bool {
        match self {
            Body::Wide { system, health, radios, classg } => {
                &&& system.within(area)
                &&& health.within(area)
                &&& radios.within(area)
                &&& classg.within(area)
            },
            Body::Narrow { focused } => focused.within(area),
        }
    }
}

/// What always holds of the places: everything lies on the screen, and there is
/// one pane exactly on a narrow one.
pub open spec fn on_screen(p: Places, width: u16, height: u16) -> bool {
    let screen = whole(width, height);
    &&& p.header.within(screen)
    &&& p.footer.within(screen)
    &&& p.body.within(screen)
    &&& (p.body is Wide <==> width >= NARROW_COLS)
}

/// Where things stand on a screen that has room for everything: the header on
/// the first row, the footer on the last, and the readers in their column on
/// the right.
pub open spec fn in_place(
    p: Places,
    width: u16,
    height: u16,
    health_rows: u16,
    radio_rows: u16,
) -> bool {
    let rows = body_rows(height as int);
    let reader = reader_cols(width as int);
    &&& p.header == Rect { x: 0, y: 0, width, height: 1 }
    &&& p.footer == Rect { x: 0, y: (height - 1) as u16, width, height: 1 }
    &&& match p.body {
        Body::Narrow { focused } => focused == Rect { x: 0, y: 1, width, height: rows as u16 },
        Body::Wide { system, health, radios, classg } => {
            let x = (width - reader) as u16;
            &&& system == Rect { x: 0, y: 1, width: x, height: rows as u16 }
            &&& health == Rect { x, y: 1, width: reader as u16, height: health_rows }
            &&& radios == Rect {
                x,
                y: (1 + health_rows) as u16,
                width: reader as u16,
                height: radio_rows,
            }
            &&& classg == Rect {
                x,
                y: (1 + health_rows + radio_rows) as u16,
                width: reader as u16,
                height: (rows - health_rows - radio_rows) as u16,
            }
        },
    }
}

/// What the layout fixes on any screen with a row for the header, one for the
/// footer and three between them: the strips, and on a wide screen the column of
/// readers at its full width on the right, one under the other down to the
/// footer.
pub open spec fn columns_stand(p: Places, width: u16, height: u16) -> bool {
    let rows = body_rows(height as int) as u16;
    let reader = reader_cols(width as int) as u16;
    &&& p.header == Rect { x: 0, y: 0, width, height: 1 }
    &&& p.footer == Rect { x: 0, y: (height - 1) as u16, width, height: 1 }
    &&& match p.body {
        Body::Narrow { focused } => focused == Rect { x: 0, y: 1, width, height: rows },
        Body::Wide { system, health, radios, classg } => {
            let x = (width - reader) as u16;
            &&& system == Rect { x: 0, y: 1, width: x, height: rows }
            &&& health.x == x && health.width == reader
            &&& radios.x == x && radios.width == reader
            &&& classg.x == x && classg.width == reader
            &&& health.y == 1
            &&& radios.y == health.y + health.height
            &&& classg.y == radios.y + radios.height
            &&& classg.y + classg.height == 1 + rows
        },
    }
}

/// The rows of the readers on a wide screen that has too few for all of them:
/// the last one gets the four it cannot do without, and the other two share what
/// is left.
pub open spec fn rows_shared(p: Places, height: u16, health_rows: u16, radio_rows: u16) -> bool {
    p.body matches Body::Wide { health, radios, classg, .. } ==> {
        &&& classg.height == 4
        &&& health.height == squeezed(health_rows as int, radio_rows as int, height - 6)
        &&& radios.height == height - 6 - health.height
    }
}

/// What holds of the header and the footer at any height: they reach across the
/// screen, one from its top and one to its bottom.
pub open spec fn strips_span(p: Places, width: u16, height: u16) -> bool {
    &&& p.header.x == 0 && p.header.y == 0 && p.header.width == width
    &&& p.footer.x == 0 && p.footer.width == width
    &&& p.footer.y + p.footer.height == height
}

/// Whether a screen has room for everything.
pub open spec fn roomy(width: u16, height: u16, health_rows: u16, radio_rows: u16) -> bool {
    &&& height >= 5
    &&& width >= NARROW_COLS ==> height >= 2 + health_rows + radio_rows + 4
}

/// What is promised of the places on a screen of any size.
pub open spec fn arranged(
    p: Places,
    width: u16,
    height: u16,
    health_rows: u16,
    radio_rows: u16,
) -> bool {
    &&& on_screen(p, width, height)
    &&& strips_span(p, width, height)
    &&& height >= 5 ==> columns_stand(p, width, height)
    &&& roomy(width, height, health_rows, radio_rows) ==> in_place(
        p,
        width,
        height,
        health_rows,
        radio_rows,
    )
    &&& height >= 6 && !roomy(width, height, health_rows, radio_rows) ==> rows_shared(
        p,
        height,
        health_rows,
        radio_rows,
    )
}

/// On a wide screen of eight rows or more no pane vanishes, whatever the two
/// panes of fixed height ask for, and none is painted over another.
pub proof fn no_pane_vanishes(
    p: Places,
    width: u16,
    height: u16,
    health_rows: u16,
    radio_rows: u16,
)
    requires
        arranged(p, width, height, health_rows, radio_rows),
        width >= NARROW_COLS,
        height >= 8,
        health_rows > 0,
        radio_rows > 0,
    ensures
        p.body matches Body::Wide { system, health, radios, classg } && {
            &&& system.width > 0 && system.height > 0
            &&& health.width > 0 && health.height > 0
            &&& radios.width > 0 && radios.height > 0
            &&& classg.width > 0 && classg.height >= 4
            &&& system.x + system.width == health.x == radios.x == classg.x
            &&& p.header.y + p.header.height == system.y == health.y
            &&& health.y + health.height == radios.y
            &&& radios.y + radios.height == classg.y
            &&& classg.y + classg.height == system.y + system.height == p.footer.y
        },
{
}

fn parts2(a: Part, b: Part) -> (r: Vec<Part>)
    ensures
        r@ == seq![a, b],
{
    let mut out: Vec<Part> = Vec::new();
    out.push(a);
    out.push(b);
    assert(out@ == seq![a, b]);
    out
}

fn parts3(a: Part, b: Part, c: Part) -> (r: Vec<Part>)
    ensures
        r@ == seq![a, b, c],
{
    let mut out: Vec<Part> = Vec::new();
    out.push(a);
    out.push(b);
    out.push(c);
    assert(out@ == seq![a, b, c]);
    out
}

/// Places everything on a screen. Both fixed panes have as many rows as they
/// write, and the rest of their column goes to the last one.
pub fn arrange(width: u16, height: u16, health_rows: u16, radio_rows: u16) -> (r: Places)
    ensures
        arranged(r, width, height, health_rows, radio_rows),
{
    let screen = Rect { x: 0, y: 0, width, height };
    let rows = parts3(Part::Length(1), Part::Min(3), Part::Length(1));
    proof {
        assert(one_grows(rows@, 1));
        reveal_with_fuel(asked, 4);
    }
    let strips = split(screen, true, &rows);
    let header = strips[0];
    let middle = strips[1];
    let footer = strips[2];
    if width < NARROW_COLS {
        return Places { header, body: Body::Narrow { focused: middle }, footer };
    }
    let reader: u16 = reader_width(width);
    let sides = parts2(Part::Min(30), Part::Length(reader));
    proof {
        assert(one_grows(sides@, 0));
        reveal_with_fuel(asked, 4);
    }
    let halves = split(middle, false, &sides);
    let column = parts3(Part::Length(health_rows), Part::Length(radio_rows), Part::Min(4));
    proof {
        assert(one_grows(column@, 2));
        reveal_with_fuel(asked, 4);
    }
    let stack = split(halves[1], true, &column);
    Places {
        header,
        body: Body::Wide {
            system: halves[0],
            health: stack[0],
            radios: stack[1],
            classg: stack[2],
        },
        footer,
    }
}

/// The column that is read has about two fifths of the terminal, but never fewer
/// than forty-eight columns nor more than sixty.
pub proof fn reading_column_keeps_its_bounds(width: int)
    requires
        width >= 0,
    ensures
        48 <= reader_cols(width) <= 60,
        48 <= width * 42 / 100 <= 60 ==> reader_cols(width) == width * 42 / 100,
        width * 42 / 100 < 48 ==> reader_cols(width) == 48,
        width * 42 / 100 > 60 ==> reader_cols(width) == 60,
{
}

/// Where two panes must share too few rows, neither gets more than it asked for
/// while the other goes short, and they share all there are.
pub proof fn squeezed_panes_share_fairly(a: int, b: int, t: int)
    requires
        0 <= a,
        0 <= b,
        0 <= t <= a + b,
    ensures
        0 <= squeezed(a, b, t) <= a,
        0 <= t - squeezed(a, b, t) <= b,
        squeezed(a, b, t) < a && t - squeezed(a, b, t) < b ==> -1 <= 2 * squeezed(a, b, t) - t
            <= 1,
{
}

/// The inside of a pane is what its frame leaves.
pub proof fn frame_takes_one_cell_all_round(r: Rect)
    ensures
        r.width >= 2 ==> r.inside().0 == r.width - 2,
        r.height >= 2 ==> r.inside().1 == r.height - 2,
        r.width < 2 ==> r.inside().0 == 0,
        r.height < 2 ==> r.inside().1 == 0,
{
}

/// All panes are shown on a terminal of a hundred columns or more, and only the
/// one in focus on a narrower one.
pub proof fn narrow_terminals_show_one_pane(
    p: Places,
    width: u16,
    height: u16,
    health_rows: u16,
    radio_rows: u16,
)
    requires
        arranged(p, width, height, health_rows, radio_rows),
    ensures
        p.body is Wide <==> width >= 100,
{
}

/// The header is the first row and the footer the last, and nothing of the body
/// covers either, on any terminal with room for all three.
pub proof fn strips_are_never_covered(
    p: Places,
    width: u16,
    height: u16,
    health_rows: u16,
    radio_rows: u16,
)
    requires
        arranged(p, width, height, health_rows, radio_rows),
        height >= 5,
    ensures
        p.header == (Rect { x: 0, y: 0, width, height: 1 }),
        p.footer == (Rect { x: 0, y: (height - 1) as u16, width, height: 1 }),
        match p.body {
            Body::Narrow { focused } => focused.y == 1 && focused.y + focused.height == height - 1
                && focused.width == width,
            Body::Wide { system, health, radios, classg } => {
                &&& system.y == 1 && system.y + system.height == height - 1
                &&& health.y == 1
                &&& classg.y + classg.height == height - 1
                &&& system.width + classg.width == width
                &&& classg.x == system.width
            },
        },
{
}

} // verus!
