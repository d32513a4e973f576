//! The whole screen: header, panes, footer and the help card.

use vstd::prelude::*;

use super::Look;
use super::classg::{classg_hints, classg_lines, draw_classg};
use super::health::{draw_health, health_lines, CONTENT_ROWS};
use super::layout::{arrange, arranged, Body, Places, Rect};
use super::radios::{draw_radios, radios_lines};
use super::system::{draw_system, least_of, system_lines};
use crate::app::{App, Mode, Pane};
use crate::check::{first_note, judge, judged, note_for, verdict_of, worst, Verdict};
use crate::config::Config;
use crate::format::{uptime, uptime_text};
use crate::numeric::{quotient_text, write_quotient};
use crate::paint::{
    add_line, add_lines, bold_style, columns, fg_style, lemma_columns_push, no_lines, plain_style,
    run, shows, Color, Line, Run, Style, BAD, DIM, OK, WARN,
};
use crate::panes::classg::{ClassgPane, FlexTime, RowHints};
use crate::panes::system::SortBy;
use crate::text::{
    dec, decimal, has_prefix, lemma_part_of_sum, lowercase, lowered, occurs_at, occurs_in,
    strip_start, stripped_start, stripping_takes_every_beginning,
};

verus! {

/// Where the text of a widget stands.
#[derive(Debug, Clone, Copy, PartialEq, Eq, Structural)]
pub enum Align {
    Left,
    Center,
    Right,
}

/// The frame around a widget, with its title and what stands in its other
/// corner.
#[derive(Debug)]
pub struct Frame {
    pub border: Color,
    pub title: Line,
    pub corner: Option<Line>,
}

/// What a frame shows.
pub struct Framed {
    pub border: Color,
    pub title: Seq<Run>,
    pub corner: Option<Seq<Run>>,
}

impl View for Frame {
    type V = Framed;

    open spec fn view(&self) -> Framed {
        Framed {
            border: self.border,
            title: self.title@,
            corner: match self.corner {
                Some(line) => Some(line@),
                None => None,
            },
        }
    }
}

/// Lines to draw at a place, in a frame or without one.
#[derive(Debug)]
pub struct Widget {
    pub area: Rect,
    /// Whether what is there already is cleared first.
    pub clear: bool,
    pub frame: Option<Frame>,
    pub align: Align,
    /// Whether a line too long is wrapped rather than cut.
    pub wrap: bool,
    pub lines: Vec<Line>,
}

/// What a widget shows.
pub struct Shown {
    pub area: Rect,
    pub clear: bool,
    pub frame: Option<Framed>,
    pub align: Align,
    pub wrap: bool,
    pub lines: Seq<Seq<Run>>,
}

impl View for Widget {
    type V = Shown;

    open spec fn view(&self) -> Shown {
        Shown {
            area: self.area,
            clear: self.clear,
            frame: match self.frame {
                Some(f) => Some(f@),
                None => None,
            },
            align: self.align,
            wrap: self.wrap,
            lines: shows(self.lines@),
        }
    }
}

pub open spec fn widgets(v: Seq<Widget>) -> Seq<Shown> {
    Seq::new(v.len(), |i: int| v[i]@)
}

/// The moment a screen is drawn at: on the clock on the wall, as a point in
/// time, and on the clock that intervals are measured by, in nanoseconds.
#[derive(Debug)]
pub struct Moment {
    pub clock: String,
    pub now: FlexTime,
    pub nanos: u64,
}

impl App {
    pub open spec fn look(self) -> Look {
        Look { depth: self.depth, glyphs: self.glyphs, accent: self.accent }
    }

    fn get_look(&self) -> (r: Look)
        ensures
            r == self.look(),
    {
        Look { depth: self.depth, glyphs: self.glyphs, accent: self.accent }
    }
}

/// The address of the API as it is shown.
pub open spec fn address(api: Seq<char>) -> Seq<char> {
    stripped_start(api, "http://"@)
}

/// The left part of the header.
pub open spec fn banner(host: Seq<char>, api: Seq<char>, accent: Color) -> Seq<Run> {
    seq![
        run(" pi-dash "@, Style { fg: Some(Color::Black), bg: Some(accent), bold: true }),
        run(" "@, plain_style()),
        run(host, fg_style(Color::White)),
        run("  "@, plain_style()),
        run(address(api), fg_style(DIM)),
    ]
}

fn draw_banner(host: &str, api: &str, accent: Color) -> (r: Line)
    ensures
        r@ == banner(host@, api@, accent),
{
    let mut line = Line::of(
        " pi-dash ".to_owned(),
        Style { fg: Some(Color::Black), bg: Some(accent), bold: true },
    );
    line.push_str(" ", Style::plain());
    line.push_str(host, Style::fg(Color::White));
    line.push_str("  ", Style::plain());
    line.push(strip_start(api, "http://"), Style::fg(DIM));
    assert(line@ == banner(host@, api@, accent));
    line
}

pub open spec fn verdict_color(verdict: Verdict) -> Color {
    match verdict {
        Verdict::Fine => OK,
        Verdict::Degraded => WARN,
        Verdict::Down => BAD,
    }
}

fn color_of(verdict: Verdict) -> (r: Color)
    ensures
        r == verdict_color(verdict),
{
    match verdict {
        Verdict::Fine => OK,
        Verdict::Degraded => WARN,
        Verdict::Down => BAD,
    }
}

/// Blanks before and after the verdict in the header.
pub const CHIP_GAP: usize = 4;

/// Columns that the clock takes.
pub const CLOCK_W: usize = 9;

/// The verdict with what is behind it, or alone, or nothing at all: whichever
/// fits whole. A verdict that is cut could be read as another.
pub open spec fn chip_text(verdict: Verdict, note: Option<Seq<char>>, room: int) -> Option<
    Seq<char>,
> {
    let word = verdict.word();
    let full = match note {
        Some(n) => word + " - "@ + n,
        None => word,
    };
    if full.len() + CHIP_GAP <= room {
        Some(full)
    } else if word.len() + CHIP_GAP <= room {
        Some(word)
    } else {
        None
    }
}

fn chip(verdict: Verdict, note: Option<&str>, room: usize) -> (r: Option<String>)
    ensures
        match r {
            Some(s) => chip_text(
                verdict,
                match note {
                    Some(n) => Some(n@),
                    None => None,
                },
                room as int,
            ) == Some(s@),
            None => chip_text(
                verdict,
                match note {
                    Some(n) => Some(n@),
                    None => None,
                },
                room as int,
            ) is None,
        },
{
    let word = verdict.label();
    let mut full = word.to_owned();
    if let Some(n) = note {
        full.append(" - ");
        full.append(n);
    }
    let wide: usize = full.as_str().unicode_len();
    let narrow: usize = word.unicode_len();
    if room >= CHIP_GAP && wide <= room - CHIP_GAP {
        Some(full)
    } else if room >= CHIP_GAP && narrow <= room - CHIP_GAP {
        Some(word.to_owned())
    } else {
        None
    }
}

/// The header of a screen of some width: who and where, and the verdict that
/// the check would give.
#[verifier::opaque]
pub open spec fn header_runs(app: App, width: int) -> Seq<Run> {
    let left = banner(app.host@, app.config.api@, app.accent);
    let findings = judged(app.health, app.classg.snapshot);
    let verdict = worst(findings);
    match chip_text(
        verdict,
        first_note(findings, verdict),
        width - CLOCK_W - columns(left),
    ) {
        Some(text) => left.push(run("  "@, plain_style())).push(
            run(text, bold_style(verdict_color(verdict))),
        ),
        None => left,
    }
}

fn draw_header(app: &App, width: u16) -> (r: Line)
    ensures
        r@ == header_runs(*app, width as int),
{
    proof {
        reveal(header_runs);
    }
    let mut line = draw_banner(app.host.as_str(), app.config.api.as_str(), app.accent);
    let findings = judge(&app.health, &app.classg.snapshot);
    let verdict = verdict_of(&findings);
    let left: usize = line.width();
    let used: usize = left.saturating_add(CLOCK_W);
    let room: usize = (width as usize).saturating_sub(used);
    if let Some(text) = chip(verdict, note_for(&findings, verdict), room) {
        line.push_str("  ", Style::plain());
        line.push(text, Style::bold(color_of(verdict)));
    }
    line
}

/// The clock, in the right corner of the header. It is the one thing that says
/// that the dashboard is still running.
pub open spec fn clock_runs(clock: Seq<char>) -> Seq<Run> {
    seq![run(clock + " "@, fg_style(DIM))]
}

/// What the footer says of the keys. While a filter is typed it says so: every
/// other key on it would be untrue.
pub open spec fn footer_text(app: App, wide: bool) -> Seq<char> {
    if wide {
        if app.system.filter_editing {
            " typing a filter · enter keep · esc clear "@
        } else {
            " q quit · r refresh · s sort by "@ + lowered(app.system.sort.other().heading())
                + " · f filter · ? help "@
        }
    } else {
        " tab/1-4 pane ("@ + app.focus.name()
            + ") · q quit · r refresh · s sort · f filter · ? help "@
    }
}

fn write_footer(app: &App, wide: bool) -> (r: String)
    ensures
        r@ == footer_text(*app, wide),
{
    if wide {
        if app.system.filter_editing {
            " typing a filter · enter keep · esc clear ".to_owned()
        } else {
            let mut out = " q quit · r refresh · s sort by ".to_owned();
            out.append(lowercase(app.system.sort.next().label()).as_str());
            out.append(" · f filter · ? help ");
            out
        }
    } else {
        let mut out = " tab/1-4 pane (".to_owned();
        out.append(app.focus.title());
        out.append(") · q quit · r refresh · s sort · f filter · ? help ");
        out
    }
}

/// The title of a pane: the number that selects it, then its name. The pane in
/// focus keeps the accent and the others recede.
pub open spec fn numbered_title(pane: Pane, title: Seq<char>, accent: Color, focused: bool) -> Seq<
    Run,
> {
    seq![
        run(" "@, plain_style()),
        run(
            dec((pane.position() + 1) as nat),
            bold_style(
                if focused {
                    accent
                } else {
                    DIM
                },
            ),
        ),
        run(
            " "@ + title + " "@,
            bold_style(
                if focused {
                    Color::Gray
                } else {
                    DIM
                },
            ),
        ),
    ]
}

pub open spec fn pane_title(app: App, pane: Pane) -> Seq<char> {
    match pane {
        Pane::Classg => "ClassG  "@ + address(app.config.api@),
        _ => pane.name(),
    }
}

fn write_pane_title(app: &App, pane: Pane) -> (r: String)
    ensures
        r@ == pane_title(*app, pane),
{
    match pane {
        Pane::Classg => {
            let mut out = "ClassG  ".to_owned();
            out.append(strip_start(app.config.api.as_str(), "http://").as_str());
            out
        },
        _ => pane.title().to_owned(),
    }
}

/// What stands in the other corner of a pane's frame: for the system pane the
/// uptime, where it cannot run into the title.
pub open spec fn pane_corner(app: App, pane: Pane, area: Rect) -> Option<Seq<Run>> {
    if pane == Pane::System && area.width >= 44 && app.system.unavailable is None {
        Some(
            seq![
                run(
                    " up "@ + uptime_text(app.system.uptime_secs as nat) + " "@,
                    fg_style(DIM),
                ),
            ],
        )
    } else {
        None
    }
}

/// The frame of a pane.
pub open spec fn pane_frame(app: App, pane: Pane, area: Rect) -> Framed {
    let focused = app.focus == pane;
    Framed {
        border: if focused {
            app.accent
        } else {
            DIM
        },
        title: numbered_title(pane, pane_title(app, pane), app.accent, focused),
        corner: pane_corner(app, pane, area),
    }
}

fn numbered_pane_block(app: &App, pane: Pane, area: Rect) -> (r: Frame)
    ensures
        r@ == pane_frame(*app, pane, area),
{
    let focused = app.focus == pane;
    let border = if focused {
        app.accent
    } else {
        DIM
    };
    let mut title = Line::of(" ".to_owned(), Style::plain());
    title.push(decimal(pane.index() as u64 + 1), Style::bold(border));
    let mut name = " ".to_owned();
    name.append(write_pane_title(app, pane).as_str());
    name.append(" ");
    title.push(
        name,
        Style::bold(
            if focused {
                Color::Gray
            } else {
                DIM
            },
        ),
    );
    assert(title@ == numbered_title(pane, pane_title(*app, pane), app.accent, focused));
    let corner = if pane == Pane::System && area.width >= 44 && app.system.unavailable.is_none() {
        let mut text = " up ".to_owned();
        text.append(uptime(app.system.uptime_secs).as_str());
        text.append(" ");
        Some(Line::of(text, Style::fg(DIM)))
    } else {
        None
    };
    Frame { border, title, corner }
}

/// What a pane draws inside its frame.
pub open spec fn pane_lines(app: App, pane: Pane, area: Rect, at: Moment) -> Seq<Seq<Run>> {
    let width = area.inside().0 as nat;
    let height = area.inside().1 as nat;
    if height == 0 {
        Seq::empty()
    } else {
        match pane {
            Pane::System => if width == 0 {
                Seq::empty()
            } else {
                system_lines(
                    app.system,
                    app.health,
                    app.radios,
                    app.look(),
                    width,
                    height,
                    app.config.processes,
                )
            },
            Pane::Health => health_lines(
                app.health,
                app.classg.last_ok,
                at.nanos,
                app.look(),
                width,
            ),
            Pane::Radios => radios_lines(app.radios, width),
            Pane::Classg => classg_lines(app.classg, at.now, app.look(), width, height),
        }
    }
}

/// A pane at its place. Only a transport error is wrapped: its length is not
/// ours to control, and its end says why.
#[verifier::opaque]
pub open spec fn pane_shown(app: App, pane: Pane, area: Rect, at: Moment) -> Shown {
    Shown {
        area,
        clear: false,
        frame: Some(pane_frame(app, pane, area)),
        align: Align::Left,
        wrap: pane == Pane::Classg && app.classg.snapshot.health is None,
        lines: pane_lines(app, pane, area, at),
    }
}

/// The rows to ask the API for after a pane is drawn at a place: none are
/// asked for where the pane that shows them has no room at all.
#[verifier::opaque]
pub open spec fn hints_after(app: App, pane: Pane, area: Rect, at: Moment) -> (int, int) {
    if pane == Pane::Classg && area.inside().1 > 0 {
        classg_hints(
            app.classg,
            at.now,
            app.look(),
            area.inside().0 as nat,
            area.inside().1 as nat,
        )
    } else {
        (app.classg.hints.tracks as int, app.classg.hints.detections as int)
    }
}

pub open spec fn hint_pair(h: RowHints) -> (int, int) {
    (h.tracks as int, h.detections as int)
}

fn draw_pane(app: &App, pane: Pane, area: Rect, at: &Moment) -> (r: (Widget, RowHints))
    ensures
        r.0@ == pane_shown(*app, pane, area, *at),
        hint_pair(r.1) == hints_after(*app, pane, area, *at),
{
    proof {
        reveal(pane_shown);
        reveal(hints_after);
    }
    let frame = numbered_pane_block(app, pane, area);
    let (width, height) = area.inner();
    let look = app.get_look();
    let mut hints = RowHints {
        tracks: app.classg.hints.tracks,
        detections: app.classg.hints.detections,
    };
    let lines = if height == 0 {
        no_lines()
    } else {
        match pane {
            Pane::System => if width == 0 {
                no_lines()
            } else {
                draw_system(
                    &app.system,
                    &app.health,
                    &app.radios,
                    look,
                    width,
                    height,
                    app.config.processes,
                )
            },
            Pane::Health => draw_health(
                &app.health,
                app.classg.last_ok,
                at.nanos,
                look,
                width,
            ),
            Pane::Radios => draw_radios(&app.radios, width),
            Pane::Classg => {
                let (lines, wanted) = draw_classg(&app.classg, at.now, look, width, height);
                hints = wanted;
                lines
            },
        }
    };
    let wrap = pane == Pane::Classg && app.classg.snapshot.health.is_none();
    let widget = Widget {
        area,
        clear: false,
        frame: Some(frame),
        align: Align::Left,
        wrap,
        lines,
    };
    (widget, hints)
}

/// A widget of one line, without a frame.
#[verifier::opaque]
pub open spec fn plain_widget(area: Rect, align: Align, line: Seq<Run>) -> Shown {
    Shown { area, clear: false, frame: None, align, wrap: false, lines: seq![line] }
}

fn draw_plain(area: Rect, align: Align, line: Line) -> (r: Widget)
    ensures
        r@ == plain_widget(area, align, line@),
{
    proof {
        reveal(plain_widget);
    }
    let mut lines = no_lines();
    add_line(&mut lines, line);
    assert(shows(lines@) == seq![line@]);
    Widget { area, clear: false, frame: None, align, wrap: false, lines }
}

/// The place of the help card: in the middle of the screen, as large as it
/// needs to be and fits.
pub open spec fn card_area(width: u16, height: u16) -> Rect {
    let w = least_of(width as int, 64);
    let h = least_of(height as int, 23);
    Rect {
        x: ((width - w) / 2) as u16,
        y: ((height - h) / 2) as u16,
        width: w as u16,
        height: h as u16,
    }
}

/// Which credential is in use, and never what it is.
pub open spec fn credential_words(session: bool, local: bool) -> Seq<char> {
    if session {
        "set — sent as the classg_session cookie"@
    } else if local {
        "this unit's own local agent token — sent as Authorization: Bearer"@
    } else {
        "none — only /health and /auth/me are public"@
    }
}

/// The lines of the help card that say where the settings came from.
pub open spec fn settings_lines(config: Config) -> Seq<Seq<Run>> {
    seq![
        seq![
            run(
                "  from      "@ + match config.source {
                    Some(path) => path@,
                    None => "built-in defaults"@,
                },
                plain_style(),
            ),
        ],
        seq![run("  api       "@ + config.api@, plain_style())],
        seq![
            run(
                "  interval  "@ + quotient_text(config.interval as nat, 1_000_000, 1)
                    + "s local, "@ + quotient_text(config.api_interval as nat, 1_000_000, 1)
                    + "s api"@,
                plain_style(),
            ),
        ],
        seq![
            run(
                "  credential "@ + credential_words(
                    config.session is Some,
                    config.local_token is Some,
                ),
                plain_style(),
            ),
        ],
    ]
}

fn draw_settings(config: &Config) -> (r: Vec<Line>)
    ensures
        shows(r@) == settings_lines(*config),
{
    let mut lines = no_lines();
    let mut from = "  from      ".to_owned();
    match &config.source {
        Some(path) => from.append(path.as_str()),
        None => from.append("built-in defaults"),
    }
    add_line(&mut lines, Line::of(from, Style::plain()));
    let mut api = "  api       ".to_owned();
    api.append(config.api.as_str());
    add_line(&mut lines, Line::of(api, Style::plain()));
    let mut interval = "  interval  ".to_owned();
    interval.append(write_quotient(config.interval as u128, 1_000_000, 1).as_str());
    interval.append("s local, ");
    interval.append(write_quotient(config.api_interval as u128, 1_000_000, 1).as_str());
    interval.append("s api");
    add_line(&mut lines, Line::of(interval, Style::plain()));
    let mut credential = "  credential ".to_owned();
    if config.session.is_some() {
        credential.append("set — sent as the classg_session cookie");
    } else if config.local_token.is_some() {
        credential.append("this unit's own local agent token — sent as Authorization: Bearer");
    } else {
        credential.append("none — only /health and /auth/me are public");
    }
    add_line(&mut lines, Line::of(credential, Style::plain()));
    assert(shows(lines@) == settings_lines(*config));
    lines
}

/// A line of the help card that is the same on every machine.
pub open spec fn fixed(text: Seq<char>) -> Seq<Run> {
    seq![run(text, plain_style())]
}

/// The lines of the help card that name the keys.
pub open spec fn key_lines(accent: Color) -> Seq<Seq<Run>> {
    seq![
        seq![run(" Keys"@, bold_style(accent))],
        fixed("  q / Esc / Ctrl-C   quit"@),
        fixed("  r                  sample now, don't wait for the tick"@),
        fixed("  s                  sort processes by CPU or by memory"@),
        fixed("  f                  filter processes by name or command line"@),
        fixed("  up/down/pgup/pgdn  scroll the process table, home for the top"@),
        fixed("  tab / 1-4          focus a pane; its number is in its title"@),
        fixed("  Ctrl-L             force a full repaint"@),
        fixed("  ?                  close this"@),
    ]
}

fn add_fixed(lines: &mut Vec<Line>, text: &str)
    ensures
        shows(final(lines)@) == shows(old(lines)@).push(fixed(text@)),
{
    add_line(lines, Line::of(text.to_owned(), Style::plain()));
}

fn draw_keys(accent: Color) -> (r: Vec<Line>)
    ensures
        shows(r@) == key_lines(accent),
{
    let mut lines = no_lines();
    add_line(&mut lines, Line::of(" Keys".to_owned(), Style::bold(accent)));
    add_fixed(&mut lines, "  q / Esc / Ctrl-C   quit");
    add_fixed(&mut lines, "  r                  sample now, don't wait for the tick");
    add_fixed(&mut lines, "  s                  sort processes by CPU or by memory");
    add_fixed(&mut lines, "  f                  filter processes by name or command line");
    add_fixed(&mut lines, "  up/down/pgup/pgdn  scroll the process table, home for the top");
    add_fixed(&mut lines, "  tab / 1-4          focus a pane; its number is in its title");
    add_fixed(&mut lines, "  Ctrl-L             force a full repaint");
    add_fixed(&mut lines, "  ?                  close this");
    assert(shows(lines@) == key_lines(accent));
    lines
}

/// All of the help card.
pub open spec fn help_lines(app: App) -> Seq<Seq<Run>> {
    key_lines(app.accent).push(Seq::empty()).push(
        seq![run(" Config"@, bold_style(app.accent))],
    ) + settings_lines(app.config) + seq![
        Seq::empty(),
        seq![
            run(
                "  env CLASSG_API, CLASSG_SESSION and CLASSG_DASH_INTERVAL"@,
                fg_style(DIM),
            ),
        ],
        seq![
            run(
                "  override the file.  pi-dash --print-config says which won."@,
                fg_style(DIM),
            ),
        ],
    ]
}

fn draw_help_lines(app: &App) -> (r: Vec<Line>)
    ensures
        shows(r@) == help_lines(*app),
{
    let mut lines = draw_keys(app.accent);
    add_line(&mut lines, Line::new());
    add_line(&mut lines, Line::of(" Config".to_owned(), Style::bold(app.accent)));
    let mut settings = draw_settings(&app.config);
    add_line(&mut settings, Line::new());
    add_line(
        &mut settings,
        Line::of(
            "  env CLASSG_API, CLASSG_SESSION and CLASSG_DASH_INTERVAL".to_owned(),
            Style::fg(DIM),
        ),
    );
    add_line(
        &mut settings,
        Line::of(
            "  override the file.  pi-dash --print-config says which won.".to_owned(),
            Style::fg(DIM),
        ),
    );
    add_lines(&mut lines, settings);
    assert(shows(lines@) == help_lines(*app));
    lines
}

/// The help card over everything else.
#[verifier::opaque]
pub open spec fn help_shown(app: App, width: u16, height: u16) -> Shown {
    Shown {
        area: card_area(width, height),
        clear: true,
        frame: Some(
            Framed {
                border: app.accent,
                title: seq![run(" Help "@, bold_style(Color::Gray))],
                corner: None,
            },
        ),
        align: Align::Left,
        wrap: true,
        lines: help_lines(app),
    }
}

fn draw_help(app: &App, width: u16, height: u16) -> (r: Widget)
    ensures
        r@ == help_shown(*app, width, height),
{
    proof {
        reveal(help_shown);
    }
    let w: u16 = if width < 64 {
        width
    } else {
        64
    };
    let h: u16 = if height < 23 {
        height
    } else {
        23
    };
    let area = Rect { x: (width - w) / 2, y: (height - h) / 2, width: w, height: h };
    let title = Line::of(" Help ".to_owned(), Style::bold(Color::Gray));
    Widget {
        area,
        clear: true,
        frame: Some(Frame { border: app.accent, title, corner: None }),
        align: Align::Left,
        wrap: true,
        lines: draw_help_lines(app),
    }
}

/// The panes at their places.
pub open spec fn body_shown(app: App, body: Body, at: Moment) -> Seq<Shown> {
    match body {
        Body::Wide { system, health, radios, classg } => seq![
            pane_shown(app, Pane::System, system, at),
            pane_shown(app, Pane::Health, health, at),
            pane_shown(app, Pane::Radios, radios, at),
            pane_shown(app, Pane::Classg, classg, at),
        ],
        Body::Narrow { focused } => seq![pane_shown(app, app.focus, focused, at)],
    }
}

/// The whole screen with everything at its place.
pub open spec fn screen_shown(
    app: App,
    places: Places,
    width: u16,
    height: u16,
    at: Moment,
) -> Seq<Shown> {
    let frame = (seq![
        plain_widget(places.header, Align::Left, header_runs(app, places.header.width as int)),
        plain_widget(places.header, Align::Right, clock_runs(at.clock@)),
    ] + body_shown(app, places.body, at)).push(
        plain_widget(
            places.footer,
            Align::Center,
            seq![run(footer_text(app, places.body is Wide), fg_style(DIM))],
        ),
    );
    if app.mode == Mode::Help {
        frame.push(help_shown(app, width, height))
    } else {
        frame
    }
}

/// The rows to ask the API for after the whole screen is drawn.
pub open spec fn body_hints(app: App, body: Body, at: Moment) -> (int, int) {
    match body {
        Body::Wide { classg, .. } => hints_after(app, Pane::Classg, classg, at),
        Body::Narrow { focused } => hints_after(app, app.focus, focused, at),
    }
}

fn add_widget(v: &mut Vec<Widget>, w: Widget)
    ensures
        widgets(final(v)@) == widgets(old(v)@).push(w@),
{
    let ghost before = v@;
    v.push(w);
    assert(widgets(v@) == widgets(before).push(w@));
}

fn draw_body(app: &App, body: Body, at: &Moment, out: &mut Vec<Widget>) -> (r: RowHints)
    ensures
        widgets(final(out)@) == widgets(old(out)@) + body_shown(*app, body, *at),
        hint_pair(r) == body_hints(*app, body, *at),
{
    let ghost head = widgets(out@);
    let hints = match body {
        Body::Wide { system, health, radios, classg } => {
            add_widget(out, draw_pane(app, Pane::System, system, at).0);
            add_widget(out, draw_pane(app, Pane::Health, health, at).0);
            add_widget(out, draw_pane(app, Pane::Radios, radios, at).0);
            let (pane, hints) = draw_pane(app, Pane::Classg, classg, at);
            add_widget(out, pane);
            hints
        },
        Body::Narrow { focused } => {
            let (pane, hints) = draw_pane(app, app.focus, focused, at);
            add_widget(out, pane);
            hints
        },
    };
    assert(widgets(out@) == head + body_shown(*app, body, *at));
    hints
}

/// Draws everything at given places, and says how many rows of each of the
/// API's lists to ask for next.
pub fn draw_at(app: &App, places: Places, width: u16, height: u16, at: &Moment) -> (r: (
    Vec<Widget>,
    RowHints,
))
    ensures
        widgets(r.0@) == screen_shown(*app, places, width, height, *at),
        hint_pair(r.1) == body_hints(*app, places.body, *at),
{
    let mut out: Vec<Widget> = Vec::new();
    assert(widgets(out@) == Seq::<Shown>::empty());
    add_widget(
        &mut out,
        draw_plain(places.header, Align::Left, draw_header(app, places.header.width)),
    );
    let mut clock = at.clock.clone();
    clock.append(" ");
    add_widget(
        &mut out,
        draw_plain(places.header, Align::Right, Line::of(clock, Style::fg(DIM))),
    );
    let ghost head = widgets(out@);
    let wide = match places.body {
        Body::Wide { .. } => true,
        Body::Narrow { .. } => false,
    };
    let hints = draw_body(app, places.body, at, &mut out);
    add_widget(
        &mut out,
        draw_plain(
            places.footer,
            Align::Center,
            Line::of(write_footer(app, wide), Style::fg(DIM)),
        ),
    );
    if app.mode == Mode::Help {
        add_widget(&mut out, draw_help(app, width, height));
    }
    assert(widgets(out@) == screen_shown(*app, places, width, height, *at));
    (out, hints)
}

/// The rows that the two panes of fixed height take with their frames.
pub open spec fn health_height() -> u16 {
    (CONTENT_ROWS + 2) as u16
}

pub open spec fn radios_height(app: App) -> u16 {
    let rows = app.radios.rows() + 2;
    if rows > u16::MAX {
        u16::MAX
    } else {
        rows as u16
    }
}

/// Draws the dashboard on a screen of `width` by `height`.
///
/// The header is on the first row and the footer on the last, and on a wide
/// screen the system pane is on the left and the readers are in their column on
/// the right, one under the other. Where there are too few rows for all of the
/// readers, the last of them gets the least it can do with and the other two
/// share the rest. Only on fewer than five rows is it the layout's to choose what
/// goes without. What stands there is what the state says. Nothing of the state
/// changes but how many rows the API is asked for next.
pub fn draw(app: &mut App, width: u16, height: u16, at: &Moment) -> (r: Vec<Widget>)
    ensures
        exists|places: Places|
            {
                &&& #[trigger] arranged(
                    places,
                    width,
                    height,
                    health_height(),
                    radios_height(*old(app)),
                )
                &&& widgets(r@) == screen_shown(*old(app), places, width, height, *at)
                &&& hint_pair(final(app).classg.hints) == body_hints(*old(app), places.body, *at)
            },
        *final(app) == (App {
            classg: ClassgPane { hints: final(app).classg.hints, ..old(app).classg },
            ..*old(app)
        }),
{
    let radio_rows: u16 = app.radios.content_rows().saturating_add(2);
    let places = arrange(width, height, CONTENT_ROWS + 2, radio_rows);
    let (out, hints) = draw_at(app, places, width, height, at);
    app.classg.set_hints(hints.tracks, hints.detections);
    proof {
        assert(radio_rows == radios_height(*old(app)));
        assert(arranged(places, width, height, health_height(), radios_height(*old(app))));
    }
    out
}

/// The header never says another verdict than the check would give, never a cut
/// one, and always leaves the clock its columns.
pub proof fn header_agrees_with_the_check(app: App, width: int)
    ensures
        ({
            let left = banner(app.host@, app.config.api@, app.accent);
            let line = header_runs(app, width);
            let verdict = worst(judged(app.health, app.classg.snapshot));
            ||| line == left
            ||| {
                &&& line.take(left.len() as int) == left
                &&& has_prefix(line.last().text, verdict.word())
                &&& columns(line) + CLOCK_W + 2 <= width
            }
        }),
{
    reveal(header_runs);
    reveal_strlit("  ");
    let left = banner(app.host@, app.config.api@, app.accent);
    let findings = judged(app.health, app.classg.snapshot);
    let verdict = worst(findings);
    let room = width - CLOCK_W - columns(left);
    if let Some(text) = chip_text(verdict, first_note(findings, verdict), room) {
        let gap = run("  "@, plain_style());
        let said = run(text, bold_style(verdict_color(verdict)));
        lemma_columns_push(left, gap);
        lemma_columns_push(left.push(gap), said);
        let line = header_runs(app, width);
        assert(line == left.push(gap).push(said));
        assert(line.take(left.len() as int) == left);
        assert(text.take(verdict.word().len() as int) == verdict.word());
    }
}

/// On a screen wide enough for the verdict's word, it is there.
pub proof fn verdict_shows_where_it_fits(app: App, width: int)
    requires
        ({
            let verdict = worst(judged(app.health, app.classg.snapshot));
            columns(banner(app.host@, app.config.api@, app.accent)) + verdict.word().len()
                + CHIP_GAP + CLOCK_W <= width
        }),
    ensures
        header_runs(app, width) != banner(app.host@, app.config.api@, app.accent),
{
    reveal(header_runs);
    let left = banner(app.host@, app.config.api@, app.accent);
    assert(header_runs(app, width).len() == left.len() + 2);
}

/// The help card says which credential is in use and never what it is: two
/// dashboards that differ only in the secret show the same card.
pub proof fn help_hides_the_credential(a: App, b: App)
    requires
        a.accent == b.accent,
        a.config.source == b.config.source,
        a.config.api == b.config.api,
        a.config.interval == b.config.interval,
        a.config.api_interval == b.config.api_interval,
        a.config.session is Some <==> b.config.session is Some,
        a.config.local_token is Some <==> b.config.local_token is Some,
    ensures
        help_lines(a) == help_lines(b),
{
}

/// Only the pane in focus keeps the accent; every other recedes.
pub proof fn only_the_focused_pane_keeps_the_accent(app: App, pane: Pane, area: Rect)
    ensures
        pane_frame(app, pane, area).border == if pane == app.focus {
            app.accent
        } else {
            DIM
        },
        pane_frame(app, pane, area).title[1] == run(
            dec((pane.position() + 1) as nat),
            bold_style(
                if pane == app.focus {
                    app.accent
                } else {
                    DIM
                },
            ),
        ),
{
}

/// The verdict is green where the unit is fine, amber where it is degraded and
/// red where it is down.
pub proof fn verdict_has_its_colour(verdict: Verdict)
    ensures
        verdict_color(verdict) == Color::Green <==> verdict == Verdict::Fine,
        verdict_color(verdict) == Color::Yellow <==> verdict == Verdict::Degraded,
        verdict_color(verdict) == Color::Red <==> verdict == Verdict::Down,
{
}

/// The verdict is shown with its note where both fit, alone where only it does,
/// and never in part.
pub proof fn verdict_is_shown_whole_or_not_at_all(
    verdict: Verdict,
    note: Seq<char>,
    room: int,
)
    ensures
        (verdict.word() + " - "@ + note).len() + 4 <= room ==> chip_text(
            verdict,
            Some(note),
            room,
        ) == Some(verdict.word() + " - "@ + note),
        (verdict.word() + " - "@ + note).len() + 4 > room && verdict.word().len() + 4 <= room
            ==> chip_text(verdict, Some(note), room) == Some(verdict.word()),
        verdict.word().len() + 4 > room ==> chip_text(verdict, Some(note), room) is None,
        chip_text(verdict, Some(note), room) matches Some(text) ==> text.len() + 4 <= room
            && has_prefix(text, verdict.word()),
{
    let word = verdict.word();
    let full = word + " - "@ + note;
    assert(full.take(word.len() as int) == word);
    assert(word.take(word.len() as int) == word);
}

/// A pane is numbered by the key that goes to it.
pub proof fn panes_are_numbered_by_their_keys(pane: Pane, title: Seq<char>, accent: Color)
    ensures
        numbered_title(pane, title, accent, true)[1] == run(
            dec(
                match pane {
                    Pane::System => 1,
                    Pane::Health => 2,
                    Pane::Radios => 3,
                    Pane::Classg => 4,
                },
            ),
            bold_style(accent),
        ),
        numbered_title(pane, title, accent, false)[1].style == bold_style(DIM),
        numbered_title(pane, title, accent, true)[2].text == " "@ + title + " "@,
{
}

/// The footer offers the order that the processes are not in, and while a filter
/// is typed only what ends the typing.
pub proof fn footer_offers_what_can_be_done(app: App)
    ensures
        !app.system.filter_editing && app.system.sort == SortBy::Cpu ==> occurs_in(
            footer_text(app, true),
            "sort by "@ + lowered("MEM"@),
        ),
        !app.system.filter_editing && app.system.sort == SortBy::Memory ==> occurs_in(
            footer_text(app, true),
            "sort by "@ + lowered("CPU%"@),
        ),
        app.system.filter_editing ==> footer_text(app, true)
            == " typing a filter · enter keep · esc clear "@,
        occurs_in(footer_text(app, false), app.focus.name()),
{
    let other = lowered(app.system.sort.other().heading());
    let text = footer_text(app, true);
    if !app.system.filter_editing {
        reveal_strlit(" q quit · r refresh · s sort by ");
        reveal_strlit("sort by ");
        let lead = " q quit · r refresh · s sort by "@;
        let from = lead.len() - 8;
        assert(lead.subrange(from, lead.len() as int) == "sort by "@);
        let part = "sort by "@ + other;
        assert(text.subrange(from, from + part.len()) == part);
        assert(occurs_at(text, part, from));
    }
    let narrow = footer_text(app, false);
    lemma_part_of_sum(
        " tab/1-4 pane ("@,
        app.focus.name(),
        ") · q quit · r refresh · s sort · f filter · ? help "@,
    );
}

/// The help card stands in the middle of the terminal and within it.
pub proof fn help_stands_in_the_middle(width: u16, height: u16)
    ensures
        ({
            let card = card_area(width, height);
            &&& card.x + card.width <= width
            &&& card.y + card.height <= height
            &&& card.width <= 64 && card.height <= 23
            &&& width >= 64 ==> card.width == 64
            &&& height >= 23 ==> card.height == 23
            &&& -1 <= (width - card.x - card.width) - card.x <= 1
            &&& -1 <= (height - card.y - card.height) - card.y <= 1
        }),
{
}

/// Help is drawn over the panes exactly while it is asked for, and last of all.
pub proof fn help_is_drawn_last(
    app: App,
    places: Places,
    width: u16,
    height: u16,
    at: Moment,
)
    ensures
        app.mode == Mode::Help ==> screen_shown(app, places, width, height, at).last()
            == help_shown(app, width, height),
        app.mode != Mode::Help ==> screen_shown(app, places, width, height, at).len() == (
        match places.body {
            Body::Wide { .. } => 7int,
            Body::Narrow { .. } => 4,
        }),
        app.mode == Mode::Help ==> screen_shown(app, places, width, height, at).len() == (
        match places.body {
            Body::Wide { .. } => 8int,
            Body::Narrow { .. } => 5,
        }),
{
}

/// Each pane is drawn in its own place, and on a narrow terminal the one in
/// focus.
pub proof fn panes_are_drawn_in_their_places(app: App, body: Body, at: Moment)
    ensures
        body matches Body::Wide { system, health, radios, classg } ==> body_shown(app, body, at)
            == seq![
            pane_shown(app, Pane::System, system, at),
            pane_shown(app, Pane::Health, health, at),
            pane_shown(app, Pane::Radios, radios, at),
            pane_shown(app, Pane::Classg, classg, at),
        ],
        body matches Body::Narrow { focused } ==> body_shown(app, body, at) == seq![
            pane_shown(app, app.focus, focused, at),
        ],
{
}

/// The help says which credential is sent and how, a session before a token.
pub proof fn help_tells_the_credential_by_its_kind(session: bool, local: bool)
    ensures
        session ==> credential_words(session, local) == credential_words(true, false),
        credential_words(true, local) != credential_words(false, true),
        credential_words(false, true) != credential_words(false, false),
        credential_words(true, local) != credential_words(false, false),
        credential_words(false, true)
            == "this unit's own local agent token — sent as Authorization: Bearer"@,
        credential_words(false, false) == "none — only /health and /auth/me are public"@,
{
    reveal_strlit("set — sent as the classg_session cookie");
    reveal_strlit("this unit's own local agent token — sent as Authorization: Bearer");
    reveal_strlit("none — only /health and /auth/me are public");
    assert("set — sent as the classg_session cookie"@[0] == 's');
    assert("this unit's own local agent token — sent as Authorization: Bearer"@[0] == 't');
    assert("none — only /health and /auth/me are public"@[0] == 'n');
}

/// The uptime stands in the corner of the first pane where there is room for it
/// and the system could be read.
pub proof fn uptime_stands_in_the_corner(app: App, pane: Pane, area: Rect)
    ensures
        pane_corner(app, pane, area) is Some <==> pane == Pane::System && area.width >= 44
            && app.system.unavailable is None,
        pane_corner(app, pane, area) matches Some(line) ==> line[0].text == " up "@ + uptime_text(
            app.system.uptime_secs as nat,
        ) + " "@,
{
}

/// The address is shown without the scheme that goes without saying, and any
/// other stays.
pub proof fn plain_scheme_is_left_out(rest: Seq<char>)
    ensures
        !has_prefix(address(rest), "http://"@),
        address("http://"@ + rest) == address(rest),
        !has_prefix(rest, "http://"@) ==> address(rest) == rest && address("http://"@ + rest)
            == rest,
{
    reveal_strlit("http://");
    stripping_takes_every_beginning("http://"@, rest);
}

} // verus!
