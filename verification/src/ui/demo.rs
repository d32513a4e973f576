//! A frame as a picture: the rows of a screen as SVG, as plain text, and that
//! text put into a document that shows it.

use vstd::prelude::*;

use crate::numeric::{fixed_point, nearest_even, round_even, wide_decimal, write_hundredths};
use crate::paint::{columns, runs, shows, Color, Line, Run, Span};
use crate::text::{
    chars_of, dec, find, found_at, found_where_it_first_stands, hex, hexadecimal, lemma_part_of_sum,
    occurs_in, opt_view, skip, take, text_or, trim, trim_end, trimmed, trimmed_end,
};

verus! {

/// What a terminal with a dark theme leaves to it.
pub open spec fn background() -> Seq<char> {
    "#0d1017"@
}

pub open spec fn foreground() -> Seq<char> {
    "#c8d0da"@
}

/// The sixteen named slots, as a terminal with a dark theme draws them.
pub open spec fn ansi_slot(n: int) -> Seq<char> {
    if n == 0 {
        "#0d1017"@
    } else if n == 1 {
        "#e05561"@
    } else if n == 2 {
        "#3fca7c"@
    } else if n == 3 {
        "#e0b755"@
    } else if n == 4 {
        "#4b9fea"@
    } else if n == 5 {
        "#c678dd"@
    } else if n == 6 {
        "#3fb6cf"@
    } else if n == 7 {
        "#c8d0da"@
    } else if n == 8 {
        "#6e7787"@
    } else if n == 9 {
        "#ff7b86"@
    } else if n == 10 {
        "#6ee79b"@
    } else if n == 11 {
        "#f2d17b"@
    } else if n == 12 {
        "#79bdff"@
    } else if n == 13 {
        "#e0a3f0"@
    } else if n == 14 {
        "#6fd7ea"@
    } else {
        "#eef2f7"@
    }
}

fn ansi(n: u8) -> (r: &'static str)
    ensures
        r@ == ansi_slot(n as int),
{
    match n {
        0 => "#0d1017",
        1 => "#e05561",
        2 => "#3fca7c",
        3 => "#e0b755",
        4 => "#4b9fea",
        5 => "#c678dd",
        6 => "#3fb6cf",
        7 => "#c8d0da",
        8 => "#6e7787",
        9 => "#ff7b86",
        10 => "#6ee79b",
        11 => "#f2d17b",
        12 => "#79bdff",
        13 => "#e0a3f0",
        14 => "#6fd7ea",
        _ => "#eef2f7",
    }
}

/// A byte in two hexadecimal digits.
pub open spec fn hex_byte(n: nat) -> Seq<char> {
    if n < 16 {
        "0"@ + hex(n)
    } else {
        hex(n)
    }
}

fn push_hex_byte(out: &mut String, n: u8)
    ensures
        final(out)@ == old(out)@ + hex_byte(n as nat),
{
    if n < 16 {
        out.append("0");
    }
    out.append(hexadecimal(n as u64).as_str());
}

/// One of the six levels of the colour cube.
pub open spec fn cube_level(k: int) -> int {
    if k == 0 {
        0
    } else {
        55 + 40 * k
    }
}

fn level(k: u8) -> (r: u8)
    requires
        k < 6,
    ensures
        r == cube_level(k as int),
{
    if k == 0 {
        0
    } else {
        55 + 40 * k
    }
}

/// An entry of the 256-colour palette: the named slots, then the cube, then the
/// greys.
pub open spec fn indexed_color(n: u8) -> Seq<char> {
    if n < 16 {
        ansi_slot(n as int)
    } else if n < 232 {
        let k = n - 16;
        "#"@ + hex_byte(cube_level(k / 36) as nat) + hex_byte(cube_level(k / 6 % 6) as nat)
            + hex_byte(cube_level(k % 6) as nat)
    } else {
        let grey = hex_byte((8 + (n - 232) * 10) as nat);
        "#"@ + grey + grey + grey
    }
}

pub fn indexed(n: u8) -> (r: String)
    ensures
        r@ == indexed_color(n),
{
    if n < 16 {
        ansi(n).to_owned()
    } else if n < 232 {
        let k: u8 = n - 16;
        let mut out = "#".to_owned();
        push_hex_byte(&mut out, level(k / 36));
        push_hex_byte(&mut out, level(k / 6 % 6));
        push_hex_byte(&mut out, level(k % 6));
        out
    } else {
        let grey: u8 = 8 + (n - 232) * 10;
        let mut out = "#".to_owned();
        push_hex_byte(&mut out, grey);
        push_hex_byte(&mut out, grey);
        push_hex_byte(&mut out, grey);
        out
    }
}

/// A colour as it is written, or nothing where the terminal would leave the
/// cell to the theme underneath.
pub open spec fn color_text(color: Option<Color>) -> Option<Seq<char>> {
    match color {
        None => None,
        Some(Color::Black) => Some(ansi_slot(0)),
        Some(Color::Red) => Some(ansi_slot(1)),
        Some(Color::Green) => Some(ansi_slot(2)),
        Some(Color::Yellow) => Some(ansi_slot(3)),
        Some(Color::Blue) => Some(ansi_slot(4)),
        Some(Color::Magenta) => Some(ansi_slot(5)),
        Some(Color::Cyan) => Some(ansi_slot(6)),
        Some(Color::Gray) => Some(ansi_slot(7)),
        Some(Color::DarkGray) => Some(ansi_slot(8)),
        Some(Color::LightRed) => Some(ansi_slot(9)),
        Some(Color::LightGreen) => Some(ansi_slot(10)),
        Some(Color::LightYellow) => Some(ansi_slot(11)),
        Some(Color::LightBlue) => Some(ansi_slot(12)),
        Some(Color::LightMagenta) => Some(ansi_slot(13)),
        Some(Color::LightCyan) => Some(ansi_slot(14)),
        Some(Color::White) => Some(ansi_slot(15)),
        Some(Color::Indexed(n)) => Some(indexed_color(n)),
    }
}

pub fn colour(color: Option<Color>) -> (r: Option<String>)
    ensures
        opt_view(r) == color_text(color),
{
    let slot: u8 = match color {
        None => {
            return None;
        },
        Some(Color::Black) => 0,
        Some(Color::Red) => 1,
        Some(Color::Green) => 2,
        Some(Color::Yellow) => 3,
        Some(Color::Blue) => 4,
        Some(Color::Magenta) => 5,
        Some(Color::Cyan) => 6,
        Some(Color::Gray) => 7,
        Some(Color::DarkGray) => 8,
        Some(Color::LightRed) => 9,
        Some(Color::LightGreen) => 10,
        Some(Color::LightYellow) => 11,
        Some(Color::LightBlue) => 12,
        Some(Color::LightMagenta) => 13,
        Some(Color::LightCyan) => 14,
        Some(Color::White) => 15,
        Some(Color::Indexed(n)) => {
            return Some(indexed(n));
        },
    };
    Some(ansi(slot).to_owned())
}

/// How a character is written in markup.
pub open spec fn escaped_char(c: char) -> Seq<char> {
    if c == '&' {
        "&amp;"@
    } else if c == '<' {
        "&lt;"@
    } else if c == '>' {
        "&gt;"@
    } else {
        seq![c]
    }
}

pub open spec fn escaped(s: Seq<char>) -> Seq<char>
    decreases s.len(),
{
    if s.len() == 0 {
        Seq::empty()
    } else {
        escaped(s.drop_last()) + escaped_char(s.last())
    }
}

pub fn escape(text: &str) -> (r: String)
    ensures
        r@ == escaped(text@),
{
    let v = chars_of(text);
    let mut out = String::new();
    let mut i: usize = 0;
    assert(v@.take(0) == Seq::<char>::empty());
    while i < v.len()
        invariant
            i <= v@.len(),
            v@ == text@,
            out@ == escaped(v@.take(i as int)),
        decreases v@.len() - i,
    {
        assert(v@.take(i + 1).drop_last() == v@.take(i as int));
        assert(v@.take(i + 1).last() == v@[i as int]);
        let c = v[i];
        let ghost before = out@;
        if c == '&' {
            out.append("&amp;");
        } else if c == '<' {
            out.append("&lt;");
        } else if c == '>' {
            out.append("&gt;");
        } else {
            out.push(c);
            assert(out@ == before + seq![c]);
        }
        i = i + 1;
    }
    assert(v@.take(i as int) == v@);
    out
}

/// The text of a row.
pub open spec fn row_text(row: Seq<Run>) -> Seq<char>
    decreases row.len(),
{
    if row.len() == 0 {
        Seq::empty()
    } else {
        row_text(row.drop_last()) + row.last().text
    }
}

/// Rows as plain text, without the blanks at their ends.
pub open spec fn rows_text(rows: Seq<Seq<Run>>) -> Seq<char>
    decreases rows.len(),
{
    if rows.len() == 0 {
        Seq::empty()
    } else {
        rows_text(rows.drop_last()) + trimmed_end(row_text(rows.last())) + "\n"@
    }
}

pub fn plain_text(rows: &Vec<Line>) -> (r: String)
    ensures
        r@ == rows_text(shows(rows@)),
{
    let ghost all = shows(rows@);
    let mut out = String::new();
    let mut y: usize = 0;
    assert(all.take(0) == Seq::<Seq<Run>>::empty());
    while y < rows.len()
        invariant
            y <= rows@.len(),
            all == shows(rows@),
            out@ == rows_text(all.take(y as int)),
        decreases rows@.len() - y,
    {
        assert(all.take(y + 1).drop_last() == all.take(y as int));
        assert(all.take(y + 1).last() == rows@[y as int]@);
        let spans = &rows[y].spans;
        let ghost row = rows@[y as int]@;
        let mut line = String::new();
        let mut i: usize = 0;
        assert(row.take(0) == Seq::<Run>::empty());
        while i < spans.len()
            invariant
                i <= spans@.len(),
                row == runs(spans@),
                line@ == row_text(row.take(i as int)),
            decreases spans@.len() - i,
        {
            assert(row.take(i + 1).drop_last() == row.take(i as int));
            assert(row.take(i + 1).last() == spans@[i as int]@);
            line.append(spans[i].text.as_str());
            i = i + 1;
        }
        assert(row.take(i as int) == row);
        out.append(trim_end(line.as_str()).as_str());
        out.append("\n");
        y = y + 1;
    }
    assert(all.take(y as int) == all);
    out
}

/// The geometry of a cell, in hundredths: its width, its height, and what is
/// left free around all of them. Every run is placed at its own column and
/// given its length, so that no font can walk a row out of alignment.
pub const ADVANCE: u128 = 840;

pub const LINE_HEIGHT: u128 = 1610;

pub const PAD_X: u128 = 1800;

pub const PAD_Y: u128 = 1500;

/// From the top of a row to the line its text stands on.
pub const BASELINE: u128 = 1292;

/// Hundredths, as they are written in the picture.
pub open spec fn coordinate(units: nat) -> Seq<char> {
    fixed_point(units, 2)
}

/// The background of a run.
pub open spec fn rect_text(x: nat, y: nat, cells: nat, fill: Seq<char>) -> Seq<char> {
    "<rect x=\""@ + coordinate(PAD_X as nat + x * ADVANCE as nat) + "\" y=\""@ + coordinate(
        PAD_Y as nat + y * LINE_HEIGHT as nat + 100,
    ) + "\" width=\""@ + coordinate(cells * ADVANCE as nat) + "\" height=\""@ + coordinate(
        LINE_HEIGHT as nat,
    ) + "\" fill=\""@ + fill + "\"/>\n"@
}

fn write_rect(x: u16, y: u16, cells: u16, fill: &str) -> (r: String)
    ensures
        r@ == rect_text(x as nat, y as nat, cells as nat, fill@),
{
    let mut out = "<rect x=\"".to_owned();
    out.append(write_hundredths(PAD_X + x as u128 * ADVANCE).as_str());
    out.append("\" y=\"");
    out.append(write_hundredths(PAD_Y + y as u128 * LINE_HEIGHT + 100).as_str());
    out.append("\" width=\"");
    out.append(write_hundredths(cells as u128 * ADVANCE).as_str());
    out.append("\" height=\"");
    out.append(write_hundredths(LINE_HEIGHT).as_str());
    out.append("\" fill=\"");
    out.append(fill);
    out.append("\"/>\n");
    out
}

/// The text of a run.
pub open spec fn span_text(x: nat, y: nat, r: Run) -> Seq<char> {
    "<text x=\""@ + coordinate(PAD_X as nat + x * ADVANCE as nat) + "\" y=\""@ + coordinate(
        PAD_Y as nat + y * LINE_HEIGHT as nat + BASELINE as nat,
    ) + "\" fill=\""@ + text_or(color_text(r.style.fg), foreground()) + "\""@ + (if r.style.bold {
        " font-weight=\"bold\""@
    } else {
        ""@
    }) + " textLength=\""@ + coordinate(r.text.len() * ADVANCE as nat)
        + "\" lengthAdjust=\"spacing\" xml:space=\"preserve\">"@ + escaped(r.text) + "</text>\n"@
}

fn write_span(x: u16, y: u16, cells: u16, span: &Span) -> (r: String)
    requires
        cells == span.text@.len(),
    ensures
        r@ == span_text(x as nat, y as nat, span@),
{
    let mut out = "<text x=\"".to_owned();
    out.append(write_hundredths(PAD_X + x as u128 * ADVANCE).as_str());
    out.append("\" y=\"");
    out.append(write_hundredths(PAD_Y + y as u128 * LINE_HEIGHT + BASELINE).as_str());
    out.append("\" fill=\"");
    match colour(span.style.fg) {
        Some(fill) => out.append(fill.as_str()),
        None => out.append("#c8d0da"),
    }
    out.append("\"");
    let weight = if span.style.bold {
        " font-weight=\"bold\""
    } else {
        ""
    };
    out.append(weight);
    out.append(" textLength=\"");
    out.append(write_hundredths(cells as u128 * ADVANCE).as_str());
    out.append("\" lengthAdjust=\"spacing\" xml:space=\"preserve\">");
    out.append(escape(span.text.as_str()).as_str());
    out.append("</text>\n");
    out
}

/// The background of the first `n` runs of a row. There is none where the
/// theme shows through.
pub open spec fn row_rects(row: Seq<Run>, y: nat, n: nat) -> Seq<char>
    decreases n,
{
    if n == 0 {
        Seq::empty()
    } else {
        let r = row[n - 1];
        row_rects(row, y, (n - 1) as nat) + match color_text(r.style.bg) {
            Some(fill) => rect_text(columns(row.take(n - 1)), y, r.text.len(), fill),
            None => Seq::empty(),
        }
    }
}

/// The text of the first `n` runs of a row. Blanks are not drawn.
pub open spec fn row_spans(row: Seq<Run>, y: nat, n: nat) -> Seq<char>
    decreases n,
{
    if n == 0 {
        Seq::empty()
    } else {
        let r = row[n - 1];
        row_spans(row, y, (n - 1) as nat) + if trimmed(r.text).len() > 0 {
            span_text(columns(row.take(n - 1)), y, r)
        } else {
            Seq::empty()
        }
    }
}

pub open spec fn all_rects(rows: Seq<Seq<Run>>, n: nat) -> Seq<char>
    decreases n,
{
    if n == 0 {
        Seq::empty()
    } else {
        all_rects(rows, (n - 1) as nat) + row_rects(rows[n - 1], (n - 1) as nat, rows[n - 1].len())
    }
}

pub open spec fn all_spans(rows: Seq<Seq<Run>>, n: nat) -> Seq<char>
    decreases n,
{
    if n == 0 {
        Seq::empty()
    } else {
        all_spans(rows, (n - 1) as nat) + row_spans(rows[n - 1], (n - 1) as nat, rows[n - 1].len())
    }
}

proof fn lemma_columns_take(row: Seq<Run>, i: int)
    requires
        0 <= i < row.len(),
    ensures
        columns(row.take(i + 1)) == columns(row.take(i)) + row[i].text.len(),
        columns(row.take(i + 1)) <= columns(row),
    decreases row.len() - i,
{
    assert(row.take(i + 1).drop_last() == row.take(i));
    if i + 1 < row.len() {
        lemma_columns_take(row, i + 1);
    } else {
        assert(row.take(i + 1) == row);
    }
}

fn push_row(out: &mut String, line: &Line, y: u16, texts: bool)
    requires
        columns(line@) <= u16::MAX,
    ensures
        final(out)@ == old(out)@ + if texts {
            row_spans(line@, y as nat, line@.len())
        } else {
            row_rects(line@, y as nat, line@.len())
        },
{
    let ghost row = line@;
    let ghost before = out@;
    let spans = &line.spans;
    let mut x: u16 = 0;
    let mut i: usize = 0;
    assert(row.take(0) == Seq::<Run>::empty());
    assert(before + Seq::<char>::empty() == before);
    while i < spans.len()
        invariant
            i <= spans@.len(),
            row == runs(spans@),
            columns(row) <= u16::MAX,
            x == columns(row.take(i as int)),
            texts ==> out@ == before + row_spans(row, y as nat, i as nat),
            !texts ==> out@ == before + row_rects(row, y as nat, i as nat),
        decreases spans@.len() - i,
    {
        proof {
            lemma_columns_take(row, i as int);
        }
        let span = &spans[i];
        assert(row[i as int] == span@);
        let cells: u16 = span.text.as_str().unicode_len() as u16;
        if texts {
            if trim(span.text.as_str()).as_str().unicode_len() > 0 {
                out.append(write_span(x, y, cells, span).as_str());
            }
            assert(out@ == before + row_spans(row, y as nat, (i + 1) as nat));
        } else {
            if let Some(fill) = colour(span.style.bg) {
                out.append(write_rect(x, y, cells, fill.as_str()).as_str());
            }
            assert(out@ == before + row_rects(row, y as nat, (i + 1) as nat));
        }
        x = x + cells;
        i = i + 1;
    }
}

/// The opening of the picture, with its size in whole units.
pub open spec fn svg_head(width: nat, rows: nat) -> Seq<char> {
    let w = dec(nearest_even(width * ADVANCE as nat + 2 * PAD_X as nat, 100));
    let h = dec(nearest_even(rows * LINE_HEIGHT as nat + 2 * PAD_Y as nat, 100));
    "<svg xmlns=\"http://www.w3.org/2000/svg\" viewBox=\"0 0 "@ + w + " "@ + h + "\" width=\""@ + w
        + "\" height=\""@ + h
        + "\" font-family=\"ui-monospace, SFMono-Regular, Menlo, Consolas, 'DejaVu Sans Mono', monospace\" font-size=\"14\" role=\"img\" aria-label=\"pi-dash running on a Raspberry Pi: the System pane with a CPU history graph, per-core meters and the process table, beside the Pi health, Radios and ClassG panes\">\n<rect width=\"100%\" height=\"100%\" rx=\"10\" fill=\""@
        + background() + "\"/>\n"@
}

fn write_head(width: u16, rows: u16) -> (r: String)
    ensures
        r@ == svg_head(width as nat, rows as nat),
{
    let w = wide_decimal(round_even(width as u128 * ADVANCE + 2 * PAD_X, 100));
    let h = wide_decimal(round_even(rows as u128 * LINE_HEIGHT + 2 * PAD_Y, 100));
    let mut out = "<svg xmlns=\"http://www.w3.org/2000/svg\" viewBox=\"0 0 ".to_owned();
    out.append(w.as_str());
    out.append(" ");
    out.append(h.as_str());
    out.append("\" width=\"");
    out.append(w.as_str());
    out.append("\" height=\"");
    out.append(h.as_str());
    out.append(
        "\" font-family=\"ui-monospace, SFMono-Regular, Menlo, Consolas, 'DejaVu Sans Mono', monospace\" font-size=\"14\" role=\"img\" aria-label=\"pi-dash running on a Raspberry Pi: the System pane with a CPU history graph, per-core meters and the process table, beside the Pi health, Radios and ClassG panes\">\n<rect width=\"100%\" height=\"100%\" rx=\"10\" fill=\"",
    );
    out.append("#0d1017");
    out.append("\"/>\n");
    out
}

/// The whole picture of a screen of some width. The backgrounds come first, so
/// that a striped row lies under its own text.
pub open spec fn svg_text(rows: Seq<Seq<Run>>, width: nat) -> Seq<char> {
    svg_head(width, rows.len()) + all_rects(rows, rows.len()) + all_spans(rows, rows.len())
        + "</svg>\n"@
}

pub fn svg(rows: &Vec<Line>, width: u16) -> (r: String)
    requires
        rows@.len() <= u16::MAX,
        forall|i: int| 0 <= i < rows@.len() ==> columns((#[trigger] rows@[i])@) <= u16::MAX,
    ensures
        r@ == svg_text(shows(rows@), width as nat),
{
    let ghost all = shows(rows@);
    let mut out = write_head(width, rows.len() as u16);
    let ghost head = out@;
    let mut y: usize = 0;
    assert(head + Seq::<char>::empty() == head);
    while y < rows.len()
        invariant
            y <= rows@.len() <= u16::MAX,
            all == shows(rows@),
            forall|i: int| 0 <= i < rows@.len() ==> columns((#[trigger] rows@[i])@) <= u16::MAX,
            out@ == head + all_rects(all, y as nat),
        decreases rows@.len() - y,
    {
        push_row(&mut out, &rows[y], y as u16, false);
        assert(all[y as int] == rows@[y as int]@);
        y = y + 1;
        assert(out@ == head + all_rects(all, y as nat));
    }
    let ghost under = out@;
    let mut t: usize = 0;
    assert(under + Seq::<char>::empty() == under);
    while t < rows.len()
        invariant
            t <= rows@.len() <= u16::MAX,
            all == shows(rows@),
            forall|i: int| 0 <= i < rows@.len() ==> columns((#[trigger] rows@[i])@) <= u16::MAX,
            out@ == under + all_spans(all, t as nat),
        decreases rows@.len() - t,
    {
        push_row(&mut out, &rows[t], t as u16, true);
        assert(all[t as int] == rows@[t as int]@);
        t = t + 1;
        assert(out@ == under + all_spans(all, t as nat));
    }
    out.append("</svg>\n");
    out
}

/// Where the text of the frame starts and ends in a document: behind the fence
/// that follows its summary, and before the next one.
pub open spec fn frame_span(readme: Seq<char>) -> Option<(int, int)> {
    match found_at(readme, "<summary>The same frame as text</summary>"@) {
        None => None,
        Some(summary) => match found_at(readme.skip(summary), "```"@) {
            None => None,
            Some(open) => {
                let body = summary + open + 4;
                match found_at(readme.skip(body), "```"@) {
                    None => None,
                    Some(close) => Some((body, body + close)),
                }
            },
        },
    }
}

/// Where the fence behind the summary ends, if there is one.
pub open spec fn fence_end(readme: Seq<char>) -> Option<int> {
    match found_at(readme, "<summary>The same frame as text</summary>"@) {
        None => None,
        Some(summary) => match found_at(readme.skip(summary), "```"@) {
            None => None,
            Some(open) => Some(summary + open + 3),
        },
    }
}

/// The document with the frame in it replaced, and everything around it left
/// alone.
pub open spec fn spliced(readme: Seq<char>, frame: Seq<char>) -> Option<Seq<char>> {
    match frame_span(readme) {
        Some((body, close)) => Some(readme.take(body) + frame + readme.skip(close)),
        None => None,
    }
}

/// Replaces the frame in a document. Nothing is replaced where the marks are
/// not where they were. The fence is one that something of a single byte, such
/// as the end of its line, follows.
pub fn splice_readme(readme: &str, frame: &str) -> (r: Option<String>)
    requires
        fence_end(readme@) matches Some(end) ==> end < readme@.len() && readme@[end] < '\u{80}',
    ensures
        opt_view(r) == spliced(readme@, frame@),
{
    let summary: usize = match find(readme, "<summary>The same frame as text</summary>") {
        Some(at) => at,
        None => {
            return None;
        },
    };
    let after = skip(readme, summary);
    let open: usize = match find(after.as_str(), "```") {
        Some(at) => at,
        None => {
            return None;
        },
    };
    let len: usize = readme.unicode_len();
    assert(summary + open + 3 < len);
    let body: usize = summary + open + 4;
    let inside = skip(readme, body);
    let close: usize = match find(inside.as_str(), "```") {
        Some(at) => at,
        None => {
            return None;
        },
    };
    let mut out = take(readme, body);
    out.append(frame);
    out.append(skip(readme, body + close).as_str());
    Some(out)
}

/// A byte is two digits, so that a colour is a hash and six of them.
pub proof fn colours_have_six_digits(n: u8)
    ensures
        hex_byte(n as nat).len() == 2,
        n >= 16 ==> indexed_color(n).len() == 7 && indexed_color(n)[0] == '#',
{
    lemma_hex_byte(n as nat);
    reveal_strlit("#");
    if 16 <= n < 232 {
        let k = n - 16;
        lemma_hex_byte(cube_level(k / 36) as nat);
        lemma_hex_byte(cube_level(k / 6 % 6) as nat);
        lemma_hex_byte(cube_level(k % 6) as nat);
    } else if n >= 232 {
        lemma_hex_byte((8 + (n - 232) * 10) as nat);
    }
}

proof fn lemma_hex_byte(n: nat)
    requires
        n < 256,
    ensures
        hex_byte(n).len() == 2,
{
    reveal_strlit("0");
    reveal_with_fuel(hex, 3);
}

/// The cube runs over red, then green, then blue, in six steps each from none to
/// all.
pub proof fn cube_runs_over_three_colours(r: nat, g: nat, b: nat)
    requires
        r < 6,
        g < 6,
        b < 6,
    ensures
        indexed_color((16 + 36 * r + 6 * g + b) as u8) == "#"@ + hex_byte(
            cube_level(r as int) as nat,
        ) + hex_byte(cube_level(g as int) as nat) + hex_byte(cube_level(b as int) as nat),
        cube_level(0) == 0,
        cube_level(5) == 255,
        r > 0 ==> cube_level(r as int) > cube_level(r - 1),
{
    let k = 36 * r + 6 * g + b;
    assert(k / 36 == r);
    assert(k / 6 % 6 == g);
    assert(k % 6 == b);
}

/// The greys run from nearly black upwards in equal steps.
pub proof fn greys_run_upwards(n: u8)
    requires
        n >= 232,
    ensures
        ({
            let grey = hex_byte((8 + 10 * (n - 232)) as nat);
            indexed_color(n) == "#"@ + grey + grey + grey
        }),
{
}

/// A colour that has a name is the one in its slot, and where none is set none
/// is drawn.
pub proof fn named_colours_have_their_slots()
    ensures
        color_text(None) is None,
        color_text(Some(Color::Black)) == color_text(Some(Color::Indexed(0))),
        color_text(Some(Color::Red)) == color_text(Some(Color::Indexed(1))),
        color_text(Some(Color::Green)) == color_text(Some(Color::Indexed(2))),
        color_text(Some(Color::Yellow)) == color_text(Some(Color::Indexed(3))),
        color_text(Some(Color::Blue)) == color_text(Some(Color::Indexed(4))),
        color_text(Some(Color::Magenta)) == color_text(Some(Color::Indexed(5))),
        color_text(Some(Color::Cyan)) == color_text(Some(Color::Indexed(6))),
        color_text(Some(Color::Gray)) == color_text(Some(Color::Indexed(7))),
        color_text(Some(Color::DarkGray)) == color_text(Some(Color::Indexed(8))),
        color_text(Some(Color::LightRed)) == color_text(Some(Color::Indexed(9))),
        color_text(Some(Color::LightGreen)) == color_text(Some(Color::Indexed(10))),
        color_text(Some(Color::LightYellow)) == color_text(Some(Color::Indexed(11))),
        color_text(Some(Color::LightBlue)) == color_text(Some(Color::Indexed(12))),
        color_text(Some(Color::LightMagenta)) == color_text(Some(Color::Indexed(13))),
        color_text(Some(Color::LightCyan)) == color_text(Some(Color::Indexed(14))),
        color_text(Some(Color::White)) == color_text(Some(Color::Indexed(15))),
        ansi_slot(0) == background(),
        ansi_slot(7) == foreground(),
{
}

/// What is escaped opens and closes no tag, and a text without anything to
/// escape stays as it is; piece by piece or at once makes no difference.
pub proof fn escaping_leaves_no_tag(s: Seq<char>)
    ensures
        !escaped(s).contains('<'),
        !escaped(s).contains('>'),
        !s.contains('<') && !s.contains('>') && !s.contains('&') ==> escaped(s) == s,
        escaped_char('<') == "&lt;"@,
        escaped_char('>') == "&gt;"@,
        escaped_char('&') == "&amp;"@,
    decreases s.len(),
{
    if s.len() > 0 {
        let rest = s.drop_last();
        escaping_leaves_no_tag(rest);
        reveal_strlit("&lt;");
        reveal_strlit("&gt;");
        reveal_strlit("&amp;");
        let tail = escaped_char(s.last());
        let all = escaped(s);
        assert forall|i: int| 0 <= i < all.len() implies all[i] != '<' && all[i] != '>' by {
            if i < escaped(rest).len() {
                assert(all[i] == escaped(rest)[i]);
                assert(escaped(rest).contains(escaped(rest)[i]));
            } else {
                assert(all[i] == tail[i - escaped(rest).len()]);
            }
        }
        if !s.contains('<') && !s.contains('>') && !s.contains('&') {
            assert(s.contains(s[s.len() - 1]));
            assert forall|i: int| 0 <= i < rest.len() implies rest[i] != '<' && rest[i] != '>'
                && rest[i] != '&' by {
                assert(rest[i] == s[i]);
                assert(s.contains(s[i]));
            }
            assert(escaped(s) == s);
        }
    } else {
        assert(escaped(s) == s);
    }
}

/// The text of a frame is its rows, one below the other, without the blanks at
/// their ends.
pub proof fn frame_is_its_rows(rows: Seq<Seq<Run>>, row: Seq<Run>)
    ensures
        rows_text(Seq::empty()).len() == 0,
        rows_text(rows.push(row)) == rows_text(rows) + trimmed_end(row_text(row)) + "\n"@,
{
    assert(rows.push(row).drop_last() == rows);
}

/// A new frame replaces what stood in its place and nothing before or behind it.
pub proof fn splicing_changes_only_the_frame(readme: Seq<char>, frame: Seq<char>)
    ensures
        spliced(readme, frame) is Some <==> frame_span(readme) is Some,
        frame_span(readme) matches Some((from, to)) ==> 0 <= from <= to <= readme.len() ==> spliced(
            readme,
            frame,
        ) == Some(readme.take(from) + frame + readme.skip(to)) && spliced(
            readme,
            readme.subrange(from, to),
        ) == Some(readme),
        !occurs_in(readme, "<summary>The same frame as text</summary>"@) ==> spliced(
            readme,
            frame,
        ) is None,
{
    found_where_it_first_stands(readme, "<summary>The same frame as text</summary>"@);
    if let Some((from, to)) = frame_span(readme) {
        if 0 <= from <= to <= readme.len() {
            assert(readme.take(from) + readme.subrange(from, to) + readme.skip(to) == readme);
        }
    }
}

/// Each run is drawn where its column is, in its own colour and weight; one that
/// is blank draws no text, and one without a background no rectangle.
pub proof fn runs_are_drawn_where_they_stand(row: Seq<Run>, y: nat, r: Run)
    ensures
        row_spans(row.push(r), y, row.len() + 1) == row_spans(row, y, row.len()) + (if trimmed(
            r.text,
        ).len() > 0 {
            span_text(columns(row), y, r)
        } else {
            Seq::empty()
        }),
        r.style.bg is None ==> row_rects(row.push(r), y, row.len() + 1) == row_rects(
            row,
            y,
            row.len(),
        ),
        r.style.bg is Some ==> row_rects(row.push(r), y, row.len() + 1) == row_rects(
            row,
            y,
            row.len(),
        ) + rect_text(columns(row), y, r.text.len(), color_text(r.style.bg)->0),
        occurs_in(span_text(columns(row), y, r), escaped(r.text)),
{
    let all = row.push(r);
    assert(all.take(row.len() as int) == row);
    lemma_same_rows(row, all, y, row.len());
    let head = "<text x=\""@ + coordinate(PAD_X as nat + columns(row) * ADVANCE as nat)
        + "\" y=\""@ + coordinate(PAD_Y as nat + y * LINE_HEIGHT as nat + BASELINE as nat)
        + "\" fill=\""@ + text_or(color_text(r.style.fg), foreground()) + "\""@ + (
    if r.style.bold {
        " font-weight=\"bold\""@
    } else {
        ""@
    }) + " textLength=\""@ + coordinate(r.text.len() * ADVANCE as nat)
        + "\" lengthAdjust=\"spacing\" xml:space=\"preserve\">"@;
    lemma_part_of_sum(head, escaped(r.text), "</text>\n"@);
}

proof fn lemma_same_rows(a: Seq<Run>, b: Seq<Run>, y: nat, n: nat)
    requires
        n <= a.len() <= b.len(),
        forall|i: int| 0 <= i < a.len() ==> #[trigger] a[i] == b[i],
    ensures
        row_spans(a, y, n) == row_spans(b, y, n),
        row_rects(a, y, n) == row_rects(b, y, n),
    decreases n,
{
    if n > 0 {
        lemma_same_rows(a, b, y, (n - 1) as nat);
        assert(a.take(n - 1) == b.take(n - 1));
    }
}

} // verus!
