//! What a pane draws: lines of styled spans, before any terminal is involved.

use vstd::prelude::*;

use crate::text::{repeat, repeated};

verus! {

/// A terminal colour: one of the sixteen named ones, or an entry of the
/// 256-colour palette.
#[derive(Debug, Clone, Copy, PartialEq, Eq, Structural)]
pub enum Color {
    Black,
    Red,
    Green,
    Yellow,
    Blue,
    Magenta,
    Cyan,
    Gray,
    DarkGray,
    LightRed,
    LightGreen,
    LightYellow,
    LightBlue,
    LightMagenta,
    LightCyan,
    White,
    Indexed(u8),
}

/// How a span is drawn. No colour means the one the terminal has by itself.
#[derive(Debug, Clone, Copy, PartialEq, Eq, Structural)]
pub struct Style {
    pub fg: Option<Color>,
    pub bg: Option<Color>,
    pub bold: bool,
}

pub open spec fn plain_style() -> Style {
    Style { fg: None, bg: None, bold: false }
}

pub open spec fn fg_style(color: Color) -> Style {
    Style { fg: Some(color), bg: None, bold: false }
}

pub open spec fn bold_style(color: Color) -> Style {
    Style { fg: Some(color), bg: None, bold: true }
}

/// Bold, in the colour the terminal has by itself.
pub open spec fn strong_style() -> Style {
    Style { fg: None, bg: None, bold: true }
}

impl Style {
    pub fn strong() -> (r: Style)
        ensures
            r == strong_style(),
    {
        Style { fg: None, bg: None, bold: true }
    }

    pub fn plain() -> (r: Style)
        ensures
            r == plain_style(),
    {
        Style { fg: None, bg: None, bold: false }
    }

    pub fn fg(color: Color) -> (r: Style)
        ensures
            r == fg_style(color),
    {
        Style { fg: Some(color), bg: None, bold: false }
    }

    pub fn bold(color: Color) -> (r: Style)
        ensures
            r == bold_style(color),
    {
        Style { fg: Some(color), bg: None, bold: true }
    }
}

/// Green, amber and red, used identically by every pane, and the colour of
/// what matters less.
pub const OK: Color = Color::Green;

pub const WARN: Color = Color::Yellow;

pub const BAD: Color = Color::Red;

pub const DIM: Color = Color::DarkGray;

/// The content of a span.
pub struct Run {
    pub text: Seq<char>,
    pub style: Style,
}

/// A run of `text` in one style.
pub open spec fn run(text: Seq<char>, style: Style) -> Run {
    Run { text, style }
}

/// Characters that share a style.
#[derive(Debug)]
pub struct Span {
    pub text: String,
    pub style: Style,
}

impl View for Span {
    type V = Run;

    open spec fn view(&self) -> Run {
        Run { text: self.text@, style: self.style }
    }
}

/// One line of a pane.
#[derive(Debug)]
pub struct Line {
    pub spans: Vec<Span>,
}

/// What a list of spans shows.
pub open spec fn runs(spans: Seq<Span>) -> Seq<Run> {
    Seq::new(spans.len(), |i: int| spans[i]@)
}

impl View for Line {
    type V = Seq<Run>;

    open spec fn view(&self) -> Seq<Run> {
        runs(self.spans@)
    }
}

/// The number of columns that a list of runs takes.
pub open spec fn columns(line: Seq<Run>) -> nat
    decreases line.len(),
{
    if line.len() == 0 {
        0
    } else {
        columns(line.drop_last()) + line.last().text.len()
    }
}

pub proof fn lemma_columns_push(line: Seq<Run>, r: Run)
    ensures
        columns(line.push(r)) == columns(line) + r.text.len(),
{
    assert(line.push(r).drop_last() == line);
}

pub proof fn lemma_columns_add(a: Seq<Run>, b: Seq<Run>)
    ensures
        columns(a + b) == columns(a) + columns(b),
    decreases b.len(),
{
    if b.len() == 0 {
        assert(a + b == a);
    } else {
        assert((a + b).drop_last() == a + b.drop_last());
        lemma_columns_add(a, b.drop_last());
    }
}

impl Line {
    pub fn new() -> (r: Line)
        ensures
            r@ == Seq::<Run>::empty(),
    {
        let r = Line { spans: Vec::new() };
        assert(r@ == Seq::<Run>::empty());
        r
    }

    /// A line of one span.
    pub fn of(text: String, style: Style) -> (r: Line)
        ensures
            r@ == seq![run(text@, style)],
    {
        let mut r = Line::new();
        r.push(text, style);
        assert(r@ == seq![run(text@, style)]);
        r
    }

    /// Appends one span.
    pub fn push(&mut self, text: String, style: Style)
        ensures
            final(self)@ == old(self)@.push(run(text@, style)),
    {
        let ghost before = self.spans@;
        let span = Span { text, style };
        self.spans.push(span);
        assert(runs(self.spans@) == runs(before).push(span@));
    }

    /// Appends one span that holds `text`.
    pub fn push_str(&mut self, text: &str, style: Style)
        ensures
            final(self)@ == old(self)@.push(run(text@, style)),
    {
        self.push(text.to_owned(), style);
    }

    /// Appends the spans of another line.
    pub fn extend(&mut self, other: Line)
        ensures
            final(self)@ == old(self)@ + other@,
    {
        let ghost before = self.spans@;
        let ghost added = other.spans@;
        let mut rest = other.spans;
        self.spans.append(&mut rest);
        assert(self.spans@ == before + added);
        assert(runs(before + added) == runs(before) + runs(added));
    }

    /// The columns the line takes, as far as they can be counted.
    pub fn width(&self) -> (r: usize)
        ensures
            r == counted_columns(self@),
    {
        let mut total: usize = 0;
        let mut i: usize = 0;
        assert(self@.take(0) == Seq::<Run>::empty());
        while i < self.spans.len()
            invariant
                i <= self.spans@.len(),
                total == counted_columns(self@.take(i as int)),
            decreases self.spans@.len() - i,
        {
            proof {
                let here = self@.take(i + 1);
                assert(here.drop_last() == self@.take(i as int));
                assert(here.last() == self@[i as int]);
            }
            total = total.saturating_add(self.spans[i].text.as_str().unicode_len());
            i = i + 1;
        }
        assert(self@.take(i as int) == self@);
        total
    }

    /// Fills the line with blanks up to a width.
    pub fn pad_to(&mut self, width: usize)
        ensures
            final(self)@ == filled(old(self)@, width as nat),
    {
        let drawn: usize = self.width();
        if drawn < width {
            self.push(repeat(' ', width - drawn), Style::plain());
        }
    }
}

/// The columns of a line, or the most that can be counted.
pub open spec fn counted_columns(line: Seq<Run>) -> nat {
    if columns(line) > usize::MAX {
        usize::MAX as nat
    } else {
        columns(line)
    }
}

/// A line with blanks after it, up to a width.
pub open spec fn filled(line: Seq<Run>, width: nat) -> Seq<Run> {
    if columns(line) < width {
        line.push(run(repeated(' ', (width - columns(line)) as nat), plain_style()))
    } else {
        line
    }
}

/// What a list of lines shows.
pub open spec fn shows(lines: Seq<Line>) -> Seq<Seq<Run>> {
    Seq::new(lines.len(), |i: int| lines[i]@)
}

/// Appends one line to a list.
pub fn add_line(lines: &mut Vec<Line>, line: Line)
    ensures
        final(lines)@ == old(lines)@.push(line),
        shows(final(lines)@) == shows(old(lines)@).push(line@),
{
    let ghost before = lines@;
    lines.push(line);
    assert(shows(lines@) == shows(before).push(line@));
}

/// Appends the lines of one list to another.
pub fn add_lines(lines: &mut Vec<Line>, more: Vec<Line>)
    ensures
        final(lines)@ == old(lines)@ + more@,
        shows(final(lines)@) == shows(old(lines)@) + shows(more@),
{
    let ghost before = lines@;
    let ghost added = more@;
    let mut rest = more;
    lines.append(&mut rest);
    assert(lines@ == before + added);
    assert(shows(before + added) == shows(before) + shows(added));
}

/// A list of no lines.
pub fn no_lines() -> (r: Vec<Line>)
    ensures
        r@ == Seq::<Line>::empty(),
        shows(r@) == Seq::<Seq<Run>>::empty(),
{
    let r: Vec<Line> = Vec::new();
    assert(shows(r@) == Seq::<Seq<Run>>::empty());
    r
}

/// A run on a background.
pub open spec fn shaded_run(r: Run, shade: Color) -> Run {
    run(r.text, Style { bg: Some(shade), ..r.style })
}

/// A line with a background under all of it.
pub open spec fn shaded(line: Seq<Run>, shade: Color) -> Seq<Run> {
    Seq::new(line.len(), |i: int| shaded_run(line[i], shade))
}

impl Line {
    /// Puts a background under all of the line.
    pub fn shade(&mut self, color: Color)
        ensures
            final(self)@ == shaded(old(self)@, color),
    {
        let ghost before = self@;
        let mut rest: Vec<Span> = Vec::new();
        std::mem::swap(&mut rest, &mut self.spans);
        let n: usize = rest.len();
        let mut out = Line::new();
        let mut i: usize = 0;
        assert(runs(rest@) == before.skip(0));
        while i < n
            invariant
                i <= n == before.len(),
                rest@.len() == n - i,
                runs(rest@) == before.skip(i as int),
                out@ == shaded(before, color).take(i as int),
            decreases n - i,
        {
            let ghost left = rest@;
            let span = rest.remove(0);
            assert(span@ == runs(left)[0]);
            assert(runs(rest@) == runs(left).skip(1));
            assert(before.skip(i as int).skip(1) == before.skip(i + 1));
            out.push(span.text, Style { bg: Some(color), ..span.style });
            i = i + 1;
            assert(shaded(before, color).take(i as int) == shaded(before, color).take(
                i - 1,
            ).push(shaded(before, color)[i - 1]));
        }
        assert(shaded(before, color).take(i as int) == shaded(before, color));
        self.spans = out.spans;
    }
}

/// Nothing is cut from a line that is filled: it is as wide as asked or as it
/// was, and begins as it did.
pub proof fn filling_cuts_nothing(line: Seq<Run>, width: nat)
    ensures
        columns(filled(line, width)) == (if columns(line) < width {
            width
        } else {
            columns(line)
        }),
        filled(line, width).take(line.len() as int) == line,
{
    if columns(line) < width {
        lemma_columns_push(
            line,
            run(repeated(' ', (width - columns(line)) as nat), plain_style()),
        );
    }
    assert(filled(line, width).take(line.len() as int) == line);
}

/// A shade changes the background of a line and nothing else of it.
pub proof fn shading_changes_the_background(line: Seq<Run>, shade: Color, i: int)
    requires
        0 <= i < line.len(),
    ensures
        shaded(line, shade).len() == line.len(),
        shaded(line, shade)[i].text == line[i].text,
        shaded(line, shade)[i].style.bg == Some(shade),
        shaded(line, shade)[i].style.fg == line[i].style.fg,
        shaded(line, shade)[i].style.bold == line[i].style.bold,
{
}

/// What is well, what to watch and what is wrong each have their colour.
pub proof fn colours_mean_one_thing()
    ensures
        OK == Color::Green,
        WARN == Color::Yellow,
        BAD == Color::Red,
        DIM == Color::DarkGray,
{
}

} // verus!
