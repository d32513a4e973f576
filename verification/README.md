# pi-dash

A one-window terminal dashboard for a Raspberry Pi that runs ClassG: the system,
the state of the box, its radios, and what the detector's API says. The logic is
a library verified with [Verus](https://github.com/verus-lang/verus); the program
around it reads the box, talks to the API and paints the terminal.

- `src/` is the library. Every function states in its contract what it returns,
  and Verus proves it.
  - `text`, `numeric`, `format`: characters, rounding, and how numbers are
    written.
  - `config`, `localtoken`: the settings, where each came from, and the
    credential.
  - `panes/`: what `/proc`, `/sys`, a few commands and the API say, parsed and
    kept from sample to sample.
  - `check`, `snapshot`: the verdict line and the plain-text snapshot.
  - `app`, `run`: the state of the dashboard, what each key does, and when the
    next sample and the next frame are due.
  - `paint`, `ui/`: what is drawn, as text in colours at its place.
- `tests/` runs the library on concrete values, and draws whole screens through
  the terminal library.
- `app/` is the program: command line, files, commands, network and terminal.

Quantities that other programs would keep in floating point are exact here: a
share is a numerator and a denominator, a rate is bytes over nanoseconds, and
measurements are integers in millionths. Sizes, rates and quotients of two counts
are shown the way a printed `f64` would be, the time of a rate being held as one
first. The share of a core that a process uses is rounded from its exact value,
which can differ in the last digit where that value lies half-way.

The public proof functions are the promises that span functions, for example:
the two halves of the throttle register never leak into each other
(`panes::health::register_halves_stay_apart`), a unit whose recording is paused
is never drawn as a quiet sky (`ui::classg::pause_is_never_a_quiet_sky`), and no
credential reaches the printed configuration
(`config::printed_config_hides_the_credential`).

What is believed rather than proved is marked where it stands, each with a
comment: `String::push`, `String::from_utf8_lossy` and `char::from_u32` of the
standard library, RFC 3339 parsing and the range of dates of `chrono`, and
ratatui's `Layout::split`.
