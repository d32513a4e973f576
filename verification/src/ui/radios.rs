//! The radios pane: interfaces, monitor-mode state, and USB radio presence.

use vstd::prelude::*;

use super::{heading_style, table_header};
use super::system::minus;
use crate::format::{clip, clipped, human_rate_compact, rate_short};
use crate::paint::{
    add_line, add_lines, bold_style, fg_style, no_lines, plain_style, run, shows, strong_style,
    Color, Line, Run, Style, BAD, DIM, OK, WARN,
};
use crate::panes::radios::{
    iface_rows, table_rows, usb_views, Iface, IfaceRow, RadiosPane, Usb, UsbRadio, WirelessMode,
};
use crate::text::{
    dec, decimal, has_prefix, pad_right, padded_right, repeat, repeated, same, text_or,
    text_or_default,
};

verus! {

/// Columns of the interface table, sized for the narrow end of what the layout
/// hands this pane. The driver takes the slack of the wide end.
pub const NAME_W: usize = 8;

pub const STATE_W: usize = 6;

pub const RATE_W: usize = 8;

pub const MODE_W: usize = 8;

pub const CH_W: usize = 5;

/// Columns of all of those, with the indent.
pub const IFACE_FIXED: usize = 45;

/// A driver name cut shorter than this looks like a value rather than a cut.
pub const DRIVER_MIN_COLS: usize = 12;

/// The width of the driver column, which is dropped where it would be too
/// narrow to be worth having.
pub open spec fn driver_column(width: int) -> int {
    let slack = minus(width, IFACE_FIXED as int);
    if slack >= DRIVER_MIN_COLS {
        slack
    } else {
        0
    }
}

/// How a link state is written, and in which colour. An interface in monitor
/// mode reports `unknown` for ever, so that is no fault.
pub open spec fn state_words(state: Seq<char>) -> (Seq<char>, Color) {
    if state == "up"@ {
        ("up"@, OK)
    } else if state == "down"@ {
        ("down"@, BAD)
    } else if state == "dormant"@ {
        ("dorm"@, WARN)
    } else if state == "unknown"@ {
        ("unkn"@, DIM)
    } else {
        (state, DIM)
    }
}

fn link_state(state: &str) -> (r: (&str, Color))
    ensures
        r.0@ == state_words(state@).0,
        r.1 == state_words(state@).1,
{
    if same(state, "up") {
        ("up", OK)
    } else if same(state, "down") {
        ("down", BAD)
    } else if same(state, "dormant") {
        ("dorm", WARN)
    } else if same(state, "unknown") {
        ("unkn", DIM)
    } else {
        (state, DIM)
    }
}

/// The mode column. Monitor is the one that has to be right, so it is the only
/// one in colour.
pub open spec fn mode_run(mode: Option<WirelessMode>) -> Run {
    match mode {
        Some(WirelessMode::Monitor) => run(
            padded_right("monitor"@, MODE_W as nat),
            bold_style(OK),
        ),
        Some(WirelessMode::Managed) => run(padded_right("managed"@, MODE_W as nat), fg_style(DIM)),
        None => run(repeated(' ', MODE_W as nat), plain_style()),
    }
}

pub open spec fn channel_run(channel: Option<u32>) -> Run {
    run(
        match channel {
            Some(c) => padded_right(dec(c as nat), CH_W as nat),
            None => repeated(' ', CH_W as nat),
        },
        fg_style(DIM),
    )
}

/// One interface.
#[verifier::opaque]
pub open spec fn iface_runs(i: IfaceRow, driver: nat) -> Seq<Run> {
    let state = state_words(i.state);
    let line = seq![
        run(
            "  "@ + padded_right(clipped(i.name, (NAME_W - 1) as nat), NAME_W as nat),
            strong_style(),
        ),
        run(
            padded_right(clipped(state.0, (STATE_W - 1) as nat), STATE_W as nat),
            fg_style(state.1),
        ),
        run(padded_right(rate_short(i.rx), RATE_W as nat), plain_style()),
        run(padded_right(rate_short(i.tx), RATE_W as nat), plain_style()),
        mode_run(i.mode),
        channel_run(i.channel),
    ];
    if driver > 0 {
        line.push(
            run(
                clipped(
                    text_or(i.driver, "-"@),
                    if driver < 2 {
                        1
                    } else {
                        (driver - 1) as nat
                    },
                ),
                fg_style(DIM),
            ),
        )
    } else {
        line
    }
}

fn iface_row(iface: &Iface, driver: usize) -> (r: Line)
    ensures
        r@ == iface_runs(iface@, driver as nat),
{
    proof {
        reveal(iface_runs);
    }
    let (state, color) = link_state(iface.state.as_str());
    let mut name = "  ".to_owned();
    name.append(pad_right(clip(iface.name.as_str(), NAME_W - 1).as_str(), NAME_W).as_str());
    let mut line = Line::of(name, Style::strong());
    line.push(pad_right(clip(state, STATE_W - 1).as_str(), STATE_W), Style::fg(color));
    line.push(pad_right(human_rate_compact(iface.rx).as_str(), RATE_W), Style::plain());
    line.push(pad_right(human_rate_compact(iface.tx).as_str(), RATE_W), Style::plain());
    match iface.mode {
        Some(WirelessMode::Monitor) => line.push(pad_right("monitor", MODE_W), Style::bold(OK)),
        Some(WirelessMode::Managed) => line.push(pad_right("managed", MODE_W), Style::fg(DIM)),
        None => line.push(repeat(' ', MODE_W), Style::plain()),
    }
    match iface.channel {
        Some(c) => line.push(pad_right(decimal(c as u64).as_str(), CH_W), Style::fg(DIM)),
        None => line.push(repeat(' ', CH_W), Style::fg(DIM)),
    }
    if driver > 0 {
        let most: usize = if driver < 2 {
            1
        } else {
            driver - 1
        };
        line.push(clip(text_or_default(&iface.driver, "-"), most), Style::fg(DIM));
    }
    line
}

/// The headings of the interface table.
pub open spec fn iface_heading(driver: nat) -> Seq<char> {
    "  "@ + padded_right("IFACE"@, NAME_W as nat) + padded_right("LINK"@, STATE_W as nat)
        + padded_right("RX"@, RATE_W as nat) + padded_right("TX"@, RATE_W as nat) + padded_right(
        "MODE"@,
        MODE_W as nat,
    ) + padded_right("CH"@, CH_W as nat) + if driver > 0 {
        "DRIVER"@
    } else {
        ""@
    }
}

fn write_iface_heading(driver: usize) -> (r: String)
    ensures
        r@ == iface_heading(driver as nat),
{
    let mut out = "  ".to_owned();
    out.append(pad_right("IFACE", NAME_W).as_str());
    out.append(pad_right("LINK", STATE_W).as_str());
    out.append(pad_right("RX", RATE_W).as_str());
    out.append(pad_right("TX", RATE_W).as_str());
    out.append(pad_right("MODE", MODE_W).as_str());
    out.append(pad_right("CH", CH_W).as_str());
    if driver > 0 {
        out.append("DRIVER");
    } else {
        out.append("");
    }
    out
}

/// The interface table.
pub open spec fn iface_lines(v: Seq<IfaceRow>, width: nat) -> Seq<Seq<Run>> {
    let driver = driver_column(width as int) as nat;
    if v.len() == 0 {
        seq![seq![run("  no interfaces (is this Linux?)"@, fg_style(DIM))]]
    } else {
        seq![seq![run(iface_heading(driver), heading_style())]] + Seq::new(
            v.len(),
            |i: int| iface_runs(v[i], driver),
        )
    }
}

fn draw_ifaces(v: &Vec<Iface>, width: usize) -> (r: Vec<Line>)
    ensures
        shows(r@) == iface_lines(iface_rows(v@), width as nat),
{
    let slack: usize = width.saturating_sub(IFACE_FIXED);
    let driver: usize = if slack >= DRIVER_MIN_COLS {
        slack
    } else {
        0
    };
    let mut lines = no_lines();
    if v.len() == 0 {
        add_line(
            &mut lines,
            Line::of("  no interfaces (is this Linux?)".to_owned(), Style::fg(DIM)),
        );
        assert(shows(lines@) == iface_lines(iface_rows(v@), width as nat));
        return lines;
    }
    add_line(&mut lines, table_header(write_iface_heading(driver)));
    let ghost all = iface_rows(v@);
    let ghost head = seq![seq![run(iface_heading(driver as nat), heading_style())]];
    let ghost body = Seq::new(all.len(), |i: int| iface_runs(all[i], driver as nat));
    let mut i: usize = 0;
    assert(shows(lines@) == head + body.take(0));
    while i < v.len()
        invariant
            i <= v@.len(),
            all == iface_rows(v@),
            body == Seq::new(all.len(), |i: int| iface_runs(all[i], driver as nat)),
            shows(lines@) == head + body.take(i as int),
        decreases v@.len() - i,
    {
        add_line(&mut lines, iface_row(&v[i], driver));
        i = i + 1;
        assert(body.take(i as int) == body.take(i - 1).push(body[i - 1]));
    }
    assert(body.take(i as int) == body);
    lines
}

/// One USB radio.
pub open spec fn usb_runs(u: Usb, width: nat) -> Seq<Run> {
    let room = minus(width as int, 14);
    seq![
        run("  "@ + padded_right(u.id, 12), fg_style(DIM)),
        run(
            clipped(
                u.description,
                if room < 1 {
                    1
                } else {
                    room as nat
                },
            ),
            plain_style(),
        ),
    ]
}

fn usb_row(u: &UsbRadio, width: usize) -> (r: Line)
    ensures
        r@ == usb_runs(u@, width as nat),
{
    let mut id = "  ".to_owned();
    id.append(pad_right(u.id.as_str(), 12).as_str());
    let mut line = Line::of(id, Style::fg(DIM));
    let room: usize = width.saturating_sub(14);
    let most: usize = if room < 1 {
        1
    } else {
        room
    };
    line.push(clip(u.description.as_str(), most), Style::plain());
    assert(line@ == usb_runs(u@, width as nat));
    line
}

/// The radios on the bus. One that vanishes off it is a fault, and not the same
/// as a list that nobody has looked at.
pub open spec fn usb_lines(v: Seq<Usb>, width: nat) -> Seq<Seq<Run>> {
    if v.len() == 0 {
        seq![
            seq![
                run("  none present"@, fg_style(BAD)),
                run(" - adapters gone from the bus"@, fg_style(DIM)),
            ],
        ]
    } else {
        seq![
            seq![run("  "@ + padded_right("VID:PID"@, 12) + "DEVICE"@, heading_style())],
        ] + Seq::new(v.len(), |i: int| usb_runs(v[i], width))
    }
}

fn draw_usb(v: &Vec<UsbRadio>, width: usize) -> (r: Vec<Line>)
    ensures
        shows(r@) == usb_lines(usb_views(v@), width as nat),
{
    let mut lines = no_lines();
    if v.len() == 0 {
        let mut line = Line::of("  none present".to_owned(), Style::fg(BAD));
        line.push_str(" - adapters gone from the bus", Style::fg(DIM));
        assert(line@ == seq![
            run("  none present"@, fg_style(BAD)),
            run(" - adapters gone from the bus"@, fg_style(DIM)),
        ]);
        add_line(&mut lines, line);
        assert(shows(lines@) == usb_lines(usb_views(v@), width as nat));
        return lines;
    }
    let mut heading = "  ".to_owned();
    heading.append(pad_right("VID:PID", 12).as_str());
    heading.append("DEVICE");
    add_line(&mut lines, table_header(heading));
    let ghost all = usb_views(v@);
    let ghost head = seq![seq![run(heading@, heading_style())]];
    let ghost body = Seq::new(all.len(), |i: int| usb_runs(all[i], width as nat));
    let mut i: usize = 0;
    assert(shows(lines@) == head + body.take(0));
    while i < v.len()
        invariant
            i <= v@.len(),
            all == usb_views(v@),
            body == Seq::new(all.len(), |i: int| usb_runs(all[i], width as nat)),
            shows(lines@) == head + body.take(i as int),
        decreases v@.len() - i,
    {
        add_line(&mut lines, usb_row(&v[i], width));
        i = i + 1;
        assert(body.take(i as int) == body.take(i - 1).push(body[i - 1]));
    }
    assert(body.take(i as int) == body);
    lines
}

/// The whole content of the pane.
pub open spec fn radios_lines(r: RadiosPane, width: nat) -> Seq<Seq<Run>> {
    iface_lines(iface_rows(r.ifaces@), width).push(Seq::empty()).push(
        seq![run("  USB radios"@, strong_style())],
    ) + usb_lines(usb_views(r.usb@), width)
}

pub fn draw_radios(r: &RadiosPane, width: u16) -> (lines: Vec<Line>)
    ensures
        shows(lines@) == radios_lines(*r, width as nat),
{
    let mut lines = draw_ifaces(&r.ifaces, width as usize);
    add_line(&mut lines, Line::new());
    add_line(&mut lines, Line::of("  USB radios".to_owned(), Style::strong()));
    add_lines(&mut lines, draw_usb(&r.usb, width as usize));
    lines
}

/// The pane writes exactly the rows that its layout reserves for it, whatever
/// its width.
pub proof fn radios_fill_their_rows(r: RadiosPane, width: nat)
    ensures
        radios_lines(r, width).len() == table_rows(r.ifaces@.len()) + 2 + table_rows(
            r.usb@.len(),
        ),
{
}

/// A link that is up is green, one that is down red, one that waits amber, and
/// one that says anything else is shown as it says.
pub proof fn links_have_their_colours(state: Seq<char>)
    ensures
        state == "up"@ ==> state_words(state).1 == Color::Green,
        state == "down"@ ==> state_words(state).1 == Color::Red,
        state == "dormant"@ ==> state_words(state).1 == Color::Yellow,
        state != "up"@ && state != "down"@ && state != "dormant"@ ==> state_words(state).1
            == Color::DarkGray,
        state != "dormant"@ && state != "unknown"@ ==> state_words(state).0 == state,
        has_prefix(state, state_words(state).0),
{
    reveal_strlit("up");
    reveal_strlit("down");
    reveal_strlit("dormant");
    reveal_strlit("dorm");
    reveal_strlit("unknown");
    reveal_strlit("unkn");
    assert("up"@.len() == 2 && "down"@.len() == 4 && "dormant"@.len() == 7 && "unknown"@.len()
        == 7);
    assert("dormant"@[0] == 'd' && "unknown"@[0] == 'u');
    assert(state.take(state.len() as int) == state);
    assert("dormant"@.take(4) == "dorm"@);
    assert("unknown"@.take(4) == "unkn"@);
}

/// Monitor mode, and only it, stands out: it is the one in which frames are
/// heard.
pub proof fn monitor_mode_stands_out(mode: Option<WirelessMode>)
    ensures
        mode_run(mode).style == bold_style(Color::Green) <==> mode == Some(WirelessMode::Monitor),
        mode == Some(WirelessMode::Managed) ==> has_prefix(mode_run(mode).text, "managed"@),
        mode == Some(WirelessMode::Monitor) ==> has_prefix(mode_run(mode).text, "monitor"@),
        mode_run(mode).text.len() == 8,
{
    reveal_strlit("monitor");
    reveal_strlit("managed");
    let text = mode_run(mode).text;
    if mode == Some(WirelessMode::Managed) {
        assert(text.take(7) == "managed"@);
    } else if mode == Some(WirelessMode::Monitor) {
        assert(text.take(7) == "monitor"@);
    }
}

/// What is received stands before what is sent.
pub proof fn received_stands_before_sent(i: IfaceRow, driver: nat)
    ensures
        iface_runs(i, driver)[2].text == padded_right(rate_short(i.rx), 8),
        iface_runs(i, driver)[3].text == padded_right(rate_short(i.tx), 8),
        iface_runs(i, driver)[4] == mode_run(i.mode),
        iface_runs(i, driver)[5] == channel_run(i.channel),
        i.channel matches Some(c) ==> has_prefix(channel_run(i.channel).text, dec(c as nat)),
{
    reveal(iface_runs);
    if let Some(c) = i.channel {
        let text = channel_run(i.channel).text;
        assert(text.take(dec(c as nat).len() as int) == dec(c as nat));
    }
}

/// A bus with no radio on it says so, in red; one with any lists every one.
pub proof fn empty_bus_says_so(v: Seq<Usb>, width: nat)
    ensures
        v.len() == 0 ==> usb_lines(v, width).len() == 1 && usb_lines(v, width)[0][0] == run(
            "  none present"@,
            fg_style(Color::Red),
        ),
        v.len() > 0 ==> usb_lines(v, width).len() == v.len() + 1 && forall|i: int|
            0 <= i < v.len() ==> #[trigger] usb_lines(v, width)[i + 1] == usb_runs(v[i], width),
{
}

} // verus!
