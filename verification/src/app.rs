//! Application state: the four panes, what has focus, and how it is drawn.

use vstd::prelude::*;

use crate::config::Config;
use crate::paint::Color;
use crate::panes::classg::{held, picked, ClassgPane, Credential};
use crate::panes::health::HealthPane;
use crate::panes::radios::RadiosPane;
use crate::panes::system::SystemPane;
use crate::text::{is_space, lemma_trimmed_around, lower, lowercase, lowered, same, trim, trimmed};
use crate::ui::gauge::{Depth, Glyphs};

verus! {

#[derive(Debug, Clone, Copy, PartialEq, Eq, Structural)]
pub enum Mode {
    Normal,
    Help,
}

/// The panes, in the order they are cycled through. The one in focus keeps the
/// accent, and is the one that is shown on a terminal too narrow for all.
#[derive(Debug, Clone, Copy, PartialEq, Eq, Structural)]
pub enum Pane {
    System,
    Health,
    Radios,
    Classg,
}

impl Pane {
    /// The position of a pane, counted from zero.
    pub open spec fn position(self) -> int {
        match self {
            Pane::System => 0,
            Pane::Health => 1,
            Pane::Radios => 2,
            Pane::Classg => 3,
        }
    }

    /// The pane at a position, counted round.
    pub open spec fn at(i: int) -> Pane {
        if i % 4 == 0 {
            Pane::System
        } else if i % 4 == 1 {
            Pane::Health
        } else if i % 4 == 2 {
            Pane::Radios
        } else {
            Pane::Classg
        }
    }

    /// All panes, in order.
    pub fn all() -> (r: Vec<Pane>)
        ensures
            r@ == seq![Pane::System, Pane::Health, Pane::Radios, Pane::Classg],
    {
        let mut out: Vec<Pane> = Vec::new();
        out.push(Pane::System);
        out.push(Pane::Health);
        out.push(Pane::Radios);
        out.push(Pane::Classg);
        assert(out@ == seq![Pane::System, Pane::Health, Pane::Radios, Pane::Classg]);
        out
    }

    pub open spec fn name(self) -> Seq<char> {
        match self {
            Pane::System => "System"@,
            Pane::Health => "Pi health"@,
            Pane::Radios => "Radios & network"@,
            Pane::Classg => "ClassG"@,
        }
    }

    pub fn title(self) -> (r: &'static str)
        ensures
            r@ == self.name(),
    {
        match self {
            Pane::System => "System",
            Pane::Health => "Pi health",
            Pane::Radios => "Radios & network",
            Pane::Classg => "ClassG",
        }
    }

    pub fn index(self) -> (r: usize)
        ensures
            r == self.position(),
    {
        match self {
            Pane::System => 0,
            Pane::Health => 1,
            Pane::Radios => 2,
            Pane::Classg => 3,
        }
    }

    pub fn next(self) -> (r: Pane)
        ensures
            r == Pane::at(self.position() + 1),
    {
        match self {
            Pane::System => Pane::Health,
            Pane::Health => Pane::Radios,
            Pane::Radios => Pane::Classg,
            Pane::Classg => Pane::System,
        }
    }

    pub fn previous(self) -> (r: Pane)
        ensures
            r == Pane::at(self.position() + 3),
    {
        match self {
            Pane::System => Pane::Classg,
            Pane::Health => Pane::System,
            Pane::Radios => Pane::Health,
            Pane::Classg => Pane::Radios,
        }
    }
}

/// Going on and going back undo each other, and four steps on lead round to
/// where they started.
pub proof fn panes_go_round(pane: Pane)
    ensures
        Pane::at(Pane::at(pane.position() + 1).position() + 3) == pane,
        Pane::at(Pane::at(pane.position() + 3).position() + 1) == pane,
        Pane::at(
            Pane::at(Pane::at(Pane::at(pane.position() + 1).position() + 1).position() + 1)
                .position() + 1,
        ) == pane,
{
}

/// The colour of a theme's name. A name that is not known is cyan: a typo in
/// the theme should not stop the dashboard.
pub open spec fn theme_color(name: Seq<char>) -> Color {
    let key = lowered(trimmed(name));
    if key == "red"@ {
        Color::Red
    } else if key == "green"@ {
        Color::Green
    } else if key == "yellow"@ {
        Color::Yellow
    } else if key == "blue"@ {
        Color::Blue
    } else if key == "magenta"@ || key == "purple"@ {
        Color::Magenta
    } else if key == "white"@ {
        Color::White
    } else if key == "gray"@ || key == "grey"@ {
        Color::Gray
    } else if key == "lightred"@ || key == "light_red"@ {
        Color::LightRed
    } else if key == "lightgreen"@ || key == "light_green"@ {
        Color::LightGreen
    } else if key == "lightyellow"@ || key == "light_yellow"@ {
        Color::LightYellow
    } else if key == "lightblue"@ || key == "light_blue"@ {
        Color::LightBlue
    } else if key == "lightmagenta"@ || key == "light_magenta"@ {
        Color::LightMagenta
    } else if key == "lightcyan"@ || key == "light_cyan"@ {
        Color::LightCyan
    } else {
        Color::Cyan
    }
}

pub fn color_from_str(name: &str) -> (r: Color)
    ensures
        r == theme_color(name@),
{
    let lowered_name = lowercase(trim(name).as_str());
    let key = lowered_name.as_str();
    if same(key, "red") {
        Color::Red
    } else if same(key, "green") {
        Color::Green
    } else if same(key, "yellow") {
        Color::Yellow
    } else if same(key, "blue") {
        Color::Blue
    } else if same(key, "magenta") || same(key, "purple") {
        Color::Magenta
    } else if same(key, "white") {
        Color::White
    } else if same(key, "gray") || same(key, "grey") {
        Color::Gray
    } else if same(key, "lightred") || same(key, "light_red") {
        Color::LightRed
    } else if same(key, "lightgreen") || same(key, "light_green") {
        Color::LightGreen
    } else if same(key, "lightyellow") || same(key, "light_yellow") {
        Color::LightYellow
    } else if same(key, "lightblue") || same(key, "light_blue") {
        Color::LightBlue
    } else if same(key, "lightmagenta") || same(key, "light_magenta") {
        Color::LightMagenta
    } else if same(key, "lightcyan") || same(key, "light_cyan") {
        Color::LightCyan
    } else {
        Color::Cyan
    }
}

impl Config {
    /// The credential to talk to the API with, of the two that may be set.
    pub fn credential(&self) -> (r: Option<Credential>)
        ensures
            held(r) == picked(self@.session, self@.local_token),
    {
        let session = match &self.session {
            Some(t) => Some(t.clone()),
            None => None,
        };
        let local = match &self.local_token {
            Some(t) => Some(t.clone()),
            None => None,
        };
        Credential::pick(session, local)
    }
}

/// The whole dashboard.
pub struct App {
    pub config: Config,
    pub mode: Mode,
    pub focus: Pane,
    pub host: String,
    pub accent: Color,
    pub glyphs: Glyphs,
    pub depth: Depth,
    pub system: SystemPane,
    pub health: HealthPane,
    pub radios: RadiosPane,
    pub classg: ClassgPane,
}

impl App {
    /// A dashboard that has sampled nothing yet. The host's name is `pi` where
    /// it is not known.
    pub fn new(config: Config, host: Option<String>, depth: Depth, page_bytes: u64) -> (r: App)
        ensures
            r.config == config,
            r.mode == Mode::Normal,
            r.focus == Pane::System,
            r.host@ == match host {
                Some(h) => h@,
                None => "pi"@,
            },
            r.accent == theme_color(config.theme@),
            r.glyphs == Glyphs::named(config.glyphs@),
            r.depth == depth,
            r.system.fresh(page_bytes),
            r.health.fresh(),
            r.radios.fresh(),
            r.classg.fresh(config.api),
    {
        let classg = ClassgPane::new(config.api.clone());
        App {
            accent: color_from_str(config.theme.as_str()),
            glyphs: Glyphs::parse(config.glyphs.as_str()),
            depth,
            host: match host {
                Some(h) => h,
                None => "pi".to_owned(),
            },
            mode: Mode::Normal,
            focus: Pane::System,
            system: SystemPane::new(page_bytes),
            health: HealthPane::new(),
            radios: RadiosPane::new(),
            classg,
            config,
        }
    }
}

/// The panes have their places and their titles, and each its own.
pub proof fn panes_are_told_apart(a: Pane, b: Pane)
    ensures
        a.position() == b.position() <==> a == b,
        a.name() == b.name() <==> a == b,
        0 <= a.position() < 4,
        Pane::at(a.position()) == a,
        Pane::System.position() == 0,
        Pane::Classg.position() == 3,
{
    reveal_strlit("System");
    reveal_strlit("Pi health");
    reveal_strlit("Radios & network");
    reveal_strlit("ClassG");
    assert("System"@.len() == 6 && "Pi health"@.len() == 9 && "Radios & network"@.len() == 16
        && "ClassG"@.len() == 6);
    assert("System"@[0] == 'S' && "ClassG"@[0] == 'C');
}

/// A colour is named in any case and with any white space round it.
pub proof fn colours_are_named_in_any_case(lead: Seq<char>, name: Seq<char>, trail: Seq<char>)
    requires
        forall|i: int| 0 <= i < lead.len() ==> is_space(#[trigger] lead[i]),
        forall|i: int| 0 <= i < trail.len() ==> is_space(#[trigger] trail[i]),
        name.len() > 0,
        !is_space(name[0]),
        !is_space(name.last()),
    ensures
        theme_color(lead + name + trail) == theme_color(name),
        theme_color(lowered(name)) == theme_color(name),
{
    lemma_trimmed_around(lead, name, trail);
    let none = Seq::<char>::empty();
    lemma_trimmed_around(none, name, none);
    assert(none + name + none == name);
    let low = lowered(name);
    assert(low[0] == lower(name[0]));
    assert(low.last() == lower(name.last()));
    lemma_trimmed_around(none, low, none);
    assert(none + low + none == low);
    assert(lowered(low) == low);
}

/// Each colour goes by its name, and by a second one where it has it; whatever
/// else is asked for, the accent is cyan.
pub proof fn colours_go_by_their_names(name: Seq<char>)
    ensures
        ({
            let key = lowered(trimmed(name));
            let colour = theme_color(name);
            &&& colour == Color::Red <==> key == "red"@
            &&& colour == Color::Green <==> key == "green"@
            &&& colour == Color::Yellow <==> key == "yellow"@
            &&& colour == Color::Blue <==> key == "blue"@
            &&& colour == Color::Magenta <==> key == "magenta"@ || key == "purple"@
            &&& colour == Color::White <==> key == "white"@
            &&& colour == Color::Gray <==> key == "gray"@ || key == "grey"@
            &&& colour == Color::LightRed <==> key == "lightred"@ || key == "light_red"@
            &&& colour == Color::LightGreen <==> key == "lightgreen"@ || key == "light_green"@
            &&& colour == Color::LightYellow <==> key == "lightyellow"@ || key == "light_yellow"@
            &&& colour == Color::LightBlue <==> key == "lightblue"@ || key == "light_blue"@
            &&& colour == Color::LightMagenta <==> key == "lightmagenta"@ || key
                == "light_magenta"@
            &&& colour == Color::LightCyan <==> key == "lightcyan"@ || key == "light_cyan"@
        }),
{
    let key = lowered(trimmed(name));
    reveal_strlit("red");
    reveal_strlit("green");
    reveal_strlit("yellow");
    reveal_strlit("blue");
    reveal_strlit("magenta");
    reveal_strlit("purple");
    reveal_strlit("white");
    reveal_strlit("gray");
    reveal_strlit("grey");
    reveal_strlit("lightred");
    reveal_strlit("light_red");
    reveal_strlit("lightgreen");
    reveal_strlit("light_green");
    reveal_strlit("lightyellow");
    reveal_strlit("light_yellow");
    reveal_strlit("lightblue");
    reveal_strlit("light_blue");
    reveal_strlit("lightmagenta");
    reveal_strlit("light_magenta");
    reveal_strlit("lightcyan");
    reveal_strlit("light_cyan");
    assert("red"@.len() == 3);
    assert("green"@.len() == 5);
    assert("yellow"@.len() == 6);
    assert("blue"@.len() == 4);
    assert("magenta"@.len() == 7);
    assert("purple"@.len() == 6);
    assert("white"@.len() == 5);
    assert("gray"@.len() == 4);
    assert("grey"@.len() == 4);
    assert("lightred"@.len() == 8);
    assert("light_red"@.len() == 9);
    assert("lightgreen"@.len() == 10);
    assert("light_green"@.len() == 11);
    assert("lightyellow"@.len() == 11);
    assert("light_yellow"@.len() == 12);
    assert("lightblue"@.len() == 9);
    assert("light_blue"@.len() == 10);
    assert("lightmagenta"@.len() == 12);
    assert("light_magenta"@.len() == 13);
    assert("lightcyan"@.len() == 9);
    assert("light_cyan"@.len() == 10);
    assert(key == "green"@ ==> key[0] == 'g');
    assert(key == "white"@ ==> key[0] == 'w');
    assert(key == "yellow"@ ==> key[0] == 'y');
    assert(key == "purple"@ ==> key[0] == 'p');
    assert(key == "blue"@ ==> key[0] == 'b');
    assert(key == "gray"@ ==> key[0] == 'g');
    assert(key == "grey"@ ==> key[0] == 'g');
    assert(key == "light_red"@ ==> key[5] == '_');
    assert(key == "lightblue"@ ==> key[5] == 'b');
    assert(key == "lightcyan"@ ==> key[5] == 'c');
    assert(key == "lightgreen"@ ==> key[5] == 'g');
    assert(key == "light_blue"@ ==> key[5] == '_' && key[6] == 'b');
    assert(key == "light_cyan"@ ==> key[5] == '_' && key[6] == 'c');
    assert(key == "lightyellow"@ ==> key[5] == 'y');
    assert(key == "light_green"@ ==> key[5] == '_');
    assert(key == "light_yellow"@ ==> key[5] == '_');
    assert(key == "lightmagenta"@ ==> key[5] == 'm');
}

} // verus!
