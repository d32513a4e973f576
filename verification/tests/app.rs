use pi_dash::app::{color_from_str, App, Mode, Pane};
use pi_dash::config::Config;
use pi_dash::paint::Color;
use pi_dash::panes::system::SortBy;
use pi_dash::run::{handle_key, Action, Key, KeyPress, Schedule};
use pi_dash::ui::gauge::Depth;

fn press(key: Key) -> KeyPress {
    KeyPress { key, ctrl: false }
}

fn control(key: Key) -> KeyPress {
    KeyPress { key, ctrl: true }
}

fn test_app() -> App {
    let config = Config { api: "http://127.0.0.1:1".to_string(), ..Config::default() };
    App::new(config, None, Depth::Cube256, 4096)
}

#[test]
fn tab_cycles_all_four_panes_and_wraps() {
    let mut pane = Pane::System;
    for _ in 0..Pane::all().len() {
        pane = pane.next();
    }
    assert_eq!(pane, Pane::System);
    assert_eq!(Pane::System.previous(), Pane::Classg);
    assert_eq!(Pane::Classg.next(), Pane::System);
}

#[test]
fn an_unknown_theme_name_falls_back_rather_than_failing() {
    assert_eq!(color_from_str("green"), Color::Green);
    assert_eq!(color_from_str("  GREEN "), Color::Green);
    assert_eq!(color_from_str("chartreuse"), Color::Cyan);
    assert_eq!(color_from_str(""), Color::Cyan);
}

#[test]
fn every_theme_name_has_its_colour() {
    for (name, color) in [
        ("red", Color::Red),
        ("yellow", Color::Yellow),
        ("blue", Color::Blue),
        ("magenta", Color::Magenta),
        ("purple", Color::Magenta),
        ("white", Color::White),
        ("grey", Color::Gray),
        ("gray", Color::Gray),
        ("light_red", Color::LightRed),
        ("lightgreen", Color::LightGreen),
        ("light_yellow", Color::LightYellow),
        ("lightblue", Color::LightBlue),
        ("light_magenta", Color::LightMagenta),
        ("lightcyan", Color::LightCyan),
        ("cyan", Color::Cyan),
    ] {
        assert_eq!(color_from_str(name), color, "{name}");
    }
}

#[test]
fn a_fresh_dashboard_is_named_after_its_host_or_pi() {
    assert_eq!(test_app().host, "pi");
    let named = App::new(Config::default(), Some("pisdr".to_string()), Depth::Ansi16, 4096);
    assert_eq!(named.host, "pisdr");
    assert_eq!(named.accent, Color::Cyan);
}

#[test]
fn quit_keys_quit() {
    let mut app = test_app();
    assert_eq!(handle_key(&mut app, press(Key::Char('q'))), Action::Quit);
    assert_eq!(handle_key(&mut app, press(Key::Esc)), Action::Quit);
    assert_eq!(handle_key(&mut app, control(Key::Char('c'))), Action::Quit);
}

#[test]
fn help_opens_and_any_key_closes_it() {
    let mut app = test_app();
    handle_key(&mut app, press(Key::Char('?')));
    assert_eq!(app.mode, Mode::Help);
    // Even 'q' closes help rather than quitting, so a reflexive keypress does
    // not take the dashboard down with it.
    assert_eq!(handle_key(&mut app, press(Key::Char('q'))), Action::Redraw);
    assert_eq!(app.mode, Mode::Normal);
}

#[test]
fn ctrl_c_still_quits_from_the_help_overlay() {
    let mut app = test_app();
    app.mode = Mode::Help;
    assert_eq!(handle_key(&mut app, control(Key::Char('c'))), Action::Quit);
}

#[test]
fn number_keys_and_tab_select_panes() {
    let mut app = test_app();
    handle_key(&mut app, press(Key::Char('3')));
    assert_eq!(app.focus, Pane::Radios);
    handle_key(&mut app, press(Key::Tab));
    assert_eq!(app.focus, Pane::Classg);
    handle_key(&mut app, press(Key::BackTab));
    assert_eq!(app.focus, Pane::Radios);
    // Out of range does nothing rather than panicking on the index.
    handle_key(&mut app, press(Key::Char('9')));
    assert_eq!(app.focus, Pane::Radios);
}

#[test]
fn a_filter_owns_the_keyboard_until_it_is_closed() {
    let mut app = test_app();
    handle_key(&mut app, press(Key::Char('f')));
    assert!(app.system.filter_editing);
    // Every key is a letter now: q types a q rather than quitting.
    assert_eq!(handle_key(&mut app, press(Key::Char('q'))), Action::Redraw);
    handle_key(&mut app, press(Key::Char('x')));
    handle_key(&mut app, press(Key::Backspace));
    assert_eq!(app.system.filter, "q");
    handle_key(&mut app, press(Key::Enter));
    assert!(!app.system.filter_editing);
    assert_eq!(app.system.filter, "q");
    // Esc clears it, and control-C still gets out.
    handle_key(&mut app, press(Key::Char('f')));
    handle_key(&mut app, press(Key::Esc));
    assert_eq!(app.system.filter, "");
    handle_key(&mut app, press(Key::Char('f')));
    assert_eq!(handle_key(&mut app, control(Key::Char('c'))), Action::Quit);
}

#[test]
fn the_table_scrolls_by_rows_and_by_pages_and_not_past_the_top() {
    let mut app = test_app();
    handle_key(&mut app, press(Key::Up));
    assert_eq!(app.system.scroll, 0);
    handle_key(&mut app, press(Key::Down));
    handle_key(&mut app, press(Key::Down));
    assert_eq!(app.system.scroll, 2);
    handle_key(&mut app, press(Key::PageDown));
    assert!(app.system.scroll > 2);
    handle_key(&mut app, press(Key::Home));
    assert_eq!(app.system.scroll, 0);
}

#[test]
fn sampling_and_repainting_have_keys_of_their_own() {
    let mut app = test_app();
    assert_eq!(handle_key(&mut app, press(Key::Char('r'))), Action::SampleNow);
    assert_eq!(handle_key(&mut app, control(Key::Char('l'))), Action::Repaint);
    assert_eq!(handle_key(&mut app, press(Key::Other)), Action::Ignore);
}

#[test]
fn a_schedule_samples_when_it_is_due_and_not_before() {
    let interval = 2_000_000;
    let second = 1_000_000_000;
    let mut schedule = Schedule::new(0, interval);
    assert!(!schedule.advance(second, interval));
    assert!(schedule.advance(2 * second, interval));
    assert!(!schedule.advance(3 * second, interval));
    assert!(schedule.wait(3 * second) <= second);
}

#[test]
fn a_new_dashboard_has_sampled_nothing_and_sorts_by_cpu() {
    let app = test_app();
    assert_eq!(app.system.sort, SortBy::Cpu);
    assert_eq!(app.system.page_bytes, 4096);
    assert!(app.system.filter.is_empty() && app.system.procs.is_empty());
    assert!(app.health.wants_disk() && app.health.throttle.is_none());
    assert!(app.radios.wants_scan() && app.radios.ifaces.is_empty());
    let heard = &app.classg.snapshot;
    assert!(heard.tracks.is_none() && heard.detections.is_none() && heard.monitoring.is_none());
    assert!(heard.slow.auth.is_none() && heard.credential.is_none());
}
