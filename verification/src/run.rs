//! What the event loop decides: which key does what, and when the next sample
//! and the next frame are due.

use vstd::prelude::*;

use crate::app::{App, Mode, Pane};
use crate::config::MAX_INTERVAL;
use crate::panes::system::{SortBy, SystemPane};
use crate::text::{chars_of, string_of};

verus! {

/// A key that something is bound to, or that types a character.
#[derive(Debug, Clone, Copy, PartialEq, Eq, Structural)]
pub enum Key {
    Char(char),
    Esc,
    Enter,
    Backspace,
    Tab,
    BackTab,
    Left,
    Right,
    Up,
    Down,
    PageUp,
    PageDown,
    Home,
    Other,
}

/// A key, and whether the control key was held with it.
#[derive(Debug, Clone, Copy, PartialEq, Eq, Structural)]
pub struct KeyPress {
    pub key: Key,
    pub ctrl: bool,
}

/// What the loop does about a key.
#[derive(Debug, Clone, Copy, PartialEq, Eq, Structural)]
pub enum Action {
    Ignore,
    Redraw,
    Repaint,
    SampleNow,
    Quit,
}

/// What keys can change.
pub struct Controls {
    pub mode: Mode,
    pub focus: Pane,
    pub sort: SortBy,
    pub filter: Seq<char>,
    pub editing: bool,
    pub scroll: int,
}

pub open spec fn controls(app: App) -> Controls {
    Controls {
        mode: app.mode,
        focus: app.focus,
        sort: app.system.sort,
        filter: app.system.filter@,
        editing: app.system.filter_editing,
        scroll: app.system.scroll as int,
    }
}

/// Rows that a page key scrolls by.
pub const PAGE_ROWS: usize = 10;

/// A scroll position moved down, as far as it can be counted.
pub open spec fn scrolled_down(scroll: int, rows: int) -> int {
    if scroll + rows > usize::MAX {
        usize::MAX as int
    } else {
        scroll + rows
    }
}

/// A scroll position moved up, as far as the top.
pub open spec fn scrolled_up(scroll: int, rows: int) -> int {
    if scroll < rows {
        0
    } else {
        scroll - rows
    }
}

/// What a key does while a filter is being typed: every character is a letter
/// of it, so `q` types a q rather than quitting.
pub open spec fn while_typing(c: Controls, key: Key) -> (Controls, Action) {
    match key {
        Key::Char(ch) => (Controls { filter: c.filter.push(ch), ..c }, Action::Redraw),
        Key::Backspace => (
            Controls {
                filter: if c.filter.len() > 0 {
                    c.filter.drop_last()
                } else {
                    c.filter
                },
                ..c
            },
            Action::Redraw,
        ),
        Key::Enter => (Controls { editing: false, ..c }, Action::SampleNow),
        Key::Esc => (Controls { editing: false, filter: Seq::empty(), ..c }, Action::SampleNow),
        _ => (c, Action::Ignore),
    }
}

/// What a character does.
pub open spec fn on_char(c: Controls, ch: char) -> (Controls, Action) {
    if ch == 'q' {
        (c, Action::Quit)
    } else if ch == '?' {
        (Controls { mode: Mode::Help, ..c }, Action::Redraw)
    } else if ch == 'r' {
        (c, Action::SampleNow)
    } else if ch == 's' {
        (Controls { sort: c.sort.other(), ..c }, Action::SampleNow)
    } else if ch == 'f' {
        (Controls { editing: true, ..c }, Action::Redraw)
    } else if ch == 'l' {
        (Controls { focus: Pane::at(c.focus.position() + 1), ..c }, Action::Redraw)
    } else if ch == 'h' {
        (Controls { focus: Pane::at(c.focus.position() + 3), ..c }, Action::Redraw)
    } else if '1' <= ch <= '4' {
        (Controls { focus: Pane::at(ch as int - '1' as int), ..c }, Action::Redraw)
    } else {
        (c, Action::Ignore)
    }
}

/// What a key does. Control with `c` quits from anywhere; the help card is
/// closed by any other key.
pub open spec fn after_key(c: Controls, press: KeyPress) -> (Controls, Action) {
    if press.ctrl {
        if press.key == Key::Char('c') {
            (c, Action::Quit)
        } else if press.key == Key::Char('l') {
            (c, Action::Repaint)
        } else {
            (c, Action::Ignore)
        }
    } else if c.mode == Mode::Help {
        (Controls { mode: Mode::Normal, ..c }, Action::Redraw)
    } else if c.editing {
        while_typing(c, press.key)
    } else {
        match press.key {
            Key::Char(ch) => on_char(c, ch),
            Key::Esc => (c, Action::Quit),
            Key::Tab | Key::Right => (
                Controls { focus: Pane::at(c.focus.position() + 1), ..c },
                Action::Redraw,
            ),
            Key::BackTab | Key::Left => (
                Controls { focus: Pane::at(c.focus.position() + 3), ..c },
                Action::Redraw,
            ),
            Key::Up => (Controls { scroll: scrolled_up(c.scroll, 1), ..c }, Action::Redraw),
            Key::Down => (Controls { scroll: scrolled_down(c.scroll, 1), ..c }, Action::Redraw),
            Key::PageUp => (
                Controls { scroll: scrolled_up(c.scroll, PAGE_ROWS as int), ..c },
                Action::Redraw,
            ),
            Key::PageDown => (
                Controls { scroll: scrolled_down(c.scroll, PAGE_ROWS as int), ..c },
                Action::Redraw,
            ),
            Key::Home => (Controls { scroll: 0, ..c }, Action::Redraw),
            Key::Enter | Key::Backspace | Key::Other => (c, Action::Ignore),
        }
    }
}

fn without_last(s: &str) -> (r: String)
    ensures
        r@ == if s@.len() > 0 {
            s@.drop_last()
        } else {
            s@
        },
{
    let v = chars_of(s);
    let n: usize = v.len();
    if n == 0 {
        s.to_owned()
    } else {
        assert(v@.subrange(0, n - 1) == v@.drop_last());
        string_of(&v, 0, n - 1)
    }
}

fn type_key(app: &mut App, key: Key) -> (r: Action)
    ensures
        (controls(*final(app)), r) == while_typing(controls(*old(app)), key),
        *final(app) == (App {
            system: SystemPane {
                filter: final(app).system.filter,
                filter_editing: final(app).system.filter_editing,
                ..old(app).system
            },
            ..*old(app)
        }),
{
    match key {
        Key::Char(ch) => {
            app.system.filter.push(ch);
            Action::Redraw
        },
        Key::Backspace => {
            app.system.filter = without_last(app.system.filter.as_str());
            Action::Redraw
        },
        Key::Enter => {
            app.system.filter_editing = false;
            Action::SampleNow
        },
        Key::Esc => {
            app.system.filter_editing = false;
            app.system.filter = String::new();
            Action::SampleNow
        },
        _ => Action::Ignore,
    }
}

pub fn focus_next(app: &mut App) -> (r: Action)
    ensures
        *final(app) == (App { focus: Pane::at(old(app).focus.position() + 1), ..*old(app) }),
        r == Action::Redraw,
{
    app.focus = app.focus.next();
    Action::Redraw
}

pub fn focus_previous(app: &mut App) -> (r: Action)
    ensures
        *final(app) == (App { focus: Pane::at(old(app).focus.position() + 3), ..*old(app) }),
        r == Action::Redraw,
{
    app.focus = app.focus.previous();
    Action::Redraw
}

fn char_key(app: &mut App, ch: char) -> (r: Action)
    ensures
        (controls(*final(app)), r) == on_char(controls(*old(app)), ch),
        *final(app) == (App {
            mode: final(app).mode,
            focus: final(app).focus,
            system: SystemPane {
                sort: final(app).system.sort,
                filter_editing: final(app).system.filter_editing,
                ..old(app).system
            },
            ..*old(app)
        }),
{
    if ch == 'q' {
        Action::Quit
    } else if ch == '?' {
        app.mode = Mode::Help;
        Action::Redraw
    } else if ch == 'r' {
        Action::SampleNow
    } else if ch == 's' {
        app.system.sort = app.system.sort.next();
        Action::SampleNow
    } else if ch == 'f' {
        app.system.filter_editing = true;
        Action::Redraw
    } else if ch == 'l' {
        focus_next(app)
    } else if ch == 'h' {
        focus_previous(app)
    } else if ch == '1' {
        app.focus = Pane::System;
        Action::Redraw
    } else if ch == '2' {
        app.focus = Pane::Health;
        Action::Redraw
    } else if ch == '3' {
        app.focus = Pane::Radios;
        Action::Redraw
    } else if ch == '4' {
        app.focus = Pane::Classg;
        Action::Redraw
    } else {
        Action::Ignore
    }
}

/// Does what a key is bound to, and says what the loop has to do about it. No
/// key changes anything but what the keys control.
pub fn handle_key(app: &mut App, press: KeyPress) -> (r: Action)
    ensures
        (controls(*final(app)), r) == after_key(controls(*old(app)), press),
        *final(app) == (App {
            mode: final(app).mode,
            focus: final(app).focus,
            system: SystemPane {
                sort: final(app).system.sort,
                filter: final(app).system.filter,
                filter_editing: final(app).system.filter_editing,
                scroll: final(app).system.scroll,
                ..old(app).system
            },
            ..*old(app)
        }),
{
    if press.ctrl {
        return match press.key {
            Key::Char(ch) => if ch == 'c' {
                Action::Quit
            } else if ch == 'l' {
                Action::Repaint
            } else {
                Action::Ignore
            },
            _ => Action::Ignore,
        };
    }
    if app.mode == Mode::Help {
        app.mode = Mode::Normal;
        return Action::Redraw;
    }
    if app.system.filter_editing {
        return type_key(app, press.key);
    }
    match press.key {
        Key::Char(ch) => char_key(app, ch),
        Key::Esc => Action::Quit,
        Key::Tab | Key::Right => focus_next(app),
        Key::BackTab | Key::Left => focus_previous(app),
        Key::Up => {
            app.system.scroll = app.system.scroll.saturating_sub(1);
            Action::Redraw
        },
        Key::Down => {
            app.system.scroll = app.system.scroll.saturating_add(1);
            Action::Redraw
        },
        Key::PageUp => {
            app.system.scroll = app.system.scroll.saturating_sub(PAGE_ROWS);
            Action::Redraw
        },
        Key::PageDown => {
            app.system.scroll = app.system.scroll.saturating_add(PAGE_ROWS);
            Action::Redraw
        },
        Key::Home => {
            app.system.scroll = 0;
            Action::Redraw
        },
        Key::Enter | Key::Backspace | Key::Other => Action::Ignore,
    }
}

/// Control with `c` quits whatever the dashboard is doing, and leaves it as it
/// is.
pub proof fn control_c_always_quits(c: Controls)
    ensures
        after_key(c, KeyPress { key: Key::Char('c'), ctrl: true }) == (c, Action::Quit),
{
}

/// While a filter is being typed no character quits: each one goes into it.
pub proof fn typing_never_quits(c: Controls, ch: char)
    requires
        c.editing,
        c.mode == Mode::Normal,
    ensures
        after_key(c, KeyPress { key: Key::Char(ch), ctrl: false }).0.filter == c.filter.push(ch),
        after_key(c, KeyPress { key: Key::Char(ch), ctrl: false }).1 != Action::Quit,
{
}

/// Any key closes the help card, and does nothing else.
pub proof fn any_key_closes_help(c: Controls, key: Key)
    requires
        c.mode == Mode::Help,
    ensures
        after_key(c, KeyPress { key, ctrl: false }) == (
            Controls { mode: Mode::Normal, ..c },
            Action::Redraw,
        ),
{
}

/// How often the header clock may advance, and the longest the loop blocks for
/// a key, in nanoseconds.
pub const CLOCK_TICK: u64 = 1_000_000_000;

pub const MAX_POLL: u64 = 250_000_000;

/// When the next sample and the next step of the clock are due, in nanoseconds,
/// and whether there is anything new to draw. A dashboard that repaints on
/// every turn keeps the box warm for nothing.
#[derive(Debug, Clone, Copy, PartialEq, Eq, Structural)]
pub struct Schedule {
    pub next_sample: u64,
    pub next_clock: u64,
    pub dirty: bool,
}

pub open spec fn after(now: u64, nanos: int) -> u64 {
    if now + nanos > u64::MAX {
        u64::MAX
    } else {
        (now + nanos) as u64
    }
}

impl Schedule {
    /// The schedule at the start, with an interval in microseconds.
    pub fn new(now: u64, interval: u64) -> (r: Schedule)
        requires
            interval <= MAX_INTERVAL,
        ensures
            r.next_sample == after(now, interval * 1000),
            r.next_clock == after(now, CLOCK_TICK as int),
            r.dirty,
    {
        Schedule {
            next_sample: now.saturating_add(interval * 1000),
            next_clock: now.saturating_add(CLOCK_TICK),
            dirty: true,
        }
    }

    /// How long to wait for a key: until something is due, but never long
    /// enough to make quitting slow.
    pub fn wait(&self, now: u64) -> (r: u64)
        ensures
            ({
                let due = if self.next_sample < self.next_clock {
                    self.next_sample
                } else {
                    self.next_clock
                };
                r == if due <= now {
                    0
                } else if due - now > MAX_POLL {
                    MAX_POLL as int
                } else {
                    due - now
                }
            }),
            r <= 250_000_000,
            self.next_sample >= now && self.next_clock >= now ==> now + r <= self.next_sample && now
                + r <= self.next_clock,
            r == 0 <==> self.next_sample <= now || self.next_clock <= now,
    {
        let due: u64 = if self.next_sample < self.next_clock {
            self.next_sample
        } else {
            self.next_clock
        };
        let left: u64 = due.saturating_sub(now);
        if left > MAX_POLL {
            MAX_POLL
        } else {
            left
        }
    }

    /// Moves on to `now`, and says whether a sample is due. Samples that were
    /// missed are dropped rather than caught up with.
    pub fn advance(&mut self, now: u64, interval: u64) -> (sample: bool)
        requires
            interval <= MAX_INTERVAL,
        ensures
            sample == (now >= old(self).next_sample),
            final(self).next_sample == if sample {
                after(now, interval * 1000)
            } else {
                old(self).next_sample
            },
            final(self).next_clock == if now >= old(self).next_clock {
                after(now, CLOCK_TICK as int)
            } else {
                old(self).next_clock
            },
            final(self).dirty == (old(self).dirty || sample || now >= old(self).next_clock),
            now >= old(self).next_clock && now + 1_000_000_000 <= u64::MAX
                ==> final(self).next_clock == now + 1_000_000_000,
            sample && interval > 0 && now < u64::MAX ==> final(self).next_sample > now,
    {
        let sample = now >= self.next_sample;
        if sample {
            self.next_sample = now.saturating_add(interval * 1000);
            self.dirty = true;
        }
        if now >= self.next_clock {
            self.next_clock = now.saturating_add(CLOCK_TICK);
            self.dirty = true;
        }
        sample
    }
}

/// The dashboard is left only on purpose: with control and `c` at any time, and
/// with `q` or escape where no help is shown and nothing is being typed.
pub proof fn only_these_keys_quit(c: Controls, press: KeyPress)
    ensures
        after_key(c, press).1 == Action::Quit <==> (press.ctrl && press.key == Key::Char('c')) || (
        !press.ctrl && c.mode != Mode::Help && !c.editing && (press.key == Key::Char('q')
            || press.key == Key::Esc)),
{
}

/// A key held with control changes nothing but what is on the screen.
pub proof fn control_keys_change_no_setting(c: Controls, key: Key)
    ensures
        after_key(c, KeyPress { key, ctrl: true }).0 == c,
        after_key(c, KeyPress { key, ctrl: true }).1 == Action::Repaint <==> key == Key::Char('l'),
{
}

/// What a bare key does where no help is shown and nothing is being typed.
pub open spec fn plain_key(c: Controls, key: Key) -> (Controls, Action) {
    after_key(c, KeyPress { key, ctrl: false })
}

/// The order of the processes changes with `s` and no other key, and `s` twice
/// is as if it had not been pressed.
pub proof fn only_s_sorts(c: Controls, key: Key)
    requires
        c.mode == Mode::Normal,
        !c.editing,
    ensures
        plain_key(c, key).0.sort != c.sort <==> key == Key::Char('s'),
        plain_key(plain_key(c, Key::Char('s')).0, Key::Char('s')).0 == c,
        plain_key(c, Key::Char('s')).1 == Action::SampleNow,
        plain_key(c, Key::Char('r')) == (c, Action::SampleNow),
{
}

/// The filter is typed only after `f`, and help is shown only for `?`.
pub proof fn only_f_filters(c: Controls, key: Key)
    requires
        c.mode == Mode::Normal,
        !c.editing,
    ensures
        plain_key(c, key).0.editing <==> key == Key::Char('f'),
        plain_key(c, key).0.mode == Mode::Help <==> key == Key::Char('?'),
        plain_key(c, key).0.filter == c.filter,
{
}

/// Typing goes into the filter and nowhere else: backspace undoes a character,
/// enter keeps what was typed, escape drops it, and either ends the typing.
pub proof fn typing_stays_in_the_filter(c: Controls, ch: char, key: Key)
    requires
        c.mode == Mode::Normal,
        c.editing,
    ensures
        plain_key(plain_key(c, Key::Char(ch)).0, Key::Backspace).0 == c,
        plain_key(c, Key::Enter) == ((Controls { editing: false, ..c }), Action::SampleNow),
        plain_key(c, Key::Esc) == (
            (Controls { editing: false, filter: Seq::empty(), ..c }),
            Action::SampleNow,
        ),
        c.filter.len() == 0 ==> plain_key(c, Key::Backspace).0 == c,
        plain_key(c, key).0 == (Controls {
            filter: plain_key(c, key).0.filter,
            editing: plain_key(c, key).0.editing,
            ..c
        }),
        plain_key(c, key).0.editing <==> key != Key::Enter && key != Key::Esc,
{
    assert(c.filter.push(ch).drop_last() == c.filter);
}

/// The arrows move by a row and the page keys by ten; one up undoes one down,
/// nothing moves above the top, and the first key goes there at once.
pub proof fn scrolling_goes_both_ways(c: Controls)
    requires
        c.mode == Mode::Normal,
        !c.editing,
        0 <= c.scroll <= usize::MAX - 10,
    ensures
        plain_key(c, Key::Down).0 == (Controls { scroll: c.scroll + 1, ..c }),
        plain_key(c, Key::PageDown).0 == (Controls { scroll: c.scroll + 10, ..c }),
        plain_key(plain_key(c, Key::Down).0, Key::Up).0 == c,
        plain_key(plain_key(c, Key::PageDown).0, Key::PageUp).0 == c,
        plain_key(c, Key::Up).0.scroll >= 0,
        c.scroll == 0 ==> plain_key(c, Key::Up).0 == c && plain_key(c, Key::PageUp).0 == c,
        c.scroll > 0 ==> plain_key(c, Key::Up).0.scroll == c.scroll - 1,
        c.scroll >= 10 ==> plain_key(c, Key::PageUp).0.scroll == c.scroll - 10,
        c.scroll < 10 ==> plain_key(c, Key::PageUp).0.scroll == 0,
        plain_key(c, Key::Home).0 == (Controls { scroll: 0, ..c }),
{
}

/// A number goes to the pane of that number, the arrows and their letters to
/// the next or the one before, and no other key moves the focus.
pub proof fn focus_follows_the_keys(c: Controls, key: Key)
    requires
        c.mode == Mode::Normal,
        !c.editing,
    ensures
        plain_key(c, Key::Char('1')).0 == (Controls { focus: Pane::System, ..c }),
        plain_key(c, Key::Char('2')).0 == (Controls { focus: Pane::Health, ..c }),
        plain_key(c, Key::Char('3')).0 == (Controls { focus: Pane::Radios, ..c }),
        plain_key(c, Key::Char('4')).0 == (Controls { focus: Pane::Classg, ..c }),
        plain_key(plain_key(c, Key::Tab).0, Key::BackTab).0 == c,
        plain_key(plain_key(c, Key::Right).0, Key::Left).0 == c,
        plain_key(plain_key(c, Key::Char('l')).0, Key::Char('h')).0 == c,
        plain_key(c, Key::Tab) == plain_key(c, Key::Right),
        plain_key(c, Key::Tab) == plain_key(c, Key::Char('l')),
        c.focus == Pane::System ==> plain_key(c, Key::Tab).0.focus == Pane::Health,
        c.focus == Pane::Health ==> plain_key(c, Key::Tab).0.focus == Pane::Radios,
        c.focus == Pane::Radios ==> plain_key(c, Key::Tab).0.focus == Pane::Classg,
        c.focus == Pane::Classg ==> plain_key(c, Key::Tab).0.focus == Pane::System,
        plain_key(c, key).0.focus != c.focus ==> key == Key::Tab || key == Key::BackTab || key
            == Key::Left || key == Key::Right || key == Key::Char('l') || key == Key::Char('h')
            || key == Key::Char('1') || key == Key::Char('2') || key == Key::Char('3') || key
            == Key::Char('4'),
{
}

/// A time that lies ahead is as far ahead as asked, and never wraps round.
pub proof fn times_ahead_never_wrap(now: u64, nanos: int)
    requires
        nanos >= 0,
    ensures
        now + nanos <= u64::MAX ==> after(now, nanos) == now + nanos,
        after(now, nanos) >= now,
{
}

} // verus!
