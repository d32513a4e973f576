//! Value formatting shared by every pane: byte rates, sizes and ages.
//!
//! Everything here is deliberately narrow: one unit, one decimal at most. The
//! panes live in a narrow body, and a number that grows a character when it
//! crosses a power of 1024 reflows the column next to it.

use vstd::prelude::*;

use crate::numeric::{
    held_below, larger_units_are_written_exactly, lemma_digits, lemma_nothing_held,
    lemma_one_unit_is_held, lemma_seconds_are_some, lemma_shown_in_tenths, per_second,
    quotient_text, quotient_text_over, seconds_bottom, seconds_top, shown,
    whole_numbers_are_held_exactly, whole_numbers_are_written_exactly, write_quotient, Double,
};
use crate::text::{dec, decimal, has_prefix, take};

verus! {

/// A throughput: `bytes` moved in `nanos` nanoseconds. Over no time at all it
/// counts as nothing.
#[derive(Debug, Default, Clone, Copy, PartialEq, Eq, Structural)]
pub struct Rate {
    pub bytes: u64,
    pub nanos: u64,
}

impl Rate {
    /// Bytes per second is `top / bottom`. The seconds are held as a double
    /// before anything is divided by them.
    pub open spec fn top(self) -> nat {
        if self.nanos == 0 {
            0
        } else {
            self.bytes as nat * seconds_bottom(self.nanos as nat)
        }
    }

    pub open spec fn bottom(self) -> nat {
        if self.nanos == 0 {
            1
        } else {
            seconds_top(self.nanos as nat)
        }
    }

    fn held(self) -> (r: Double)
        ensures
            r.holds(self.top(), self.bottom()),
            r.moderate(),
    {
        if self.nanos == 0 {
            proof {
                lemma_nothing_held(1);
            }
            Double { m: 0, up: 1, down: 1 }
        } else {
            per_second(self.bytes, self.nanos)
        }
    }

    /// No throughput.
    pub fn none() -> (r: Rate)
        ensures
            r == (Rate { bytes: 0, nanos: 0 }),
    {
        Rate { bytes: 0, nanos: 0 }
    }
}

/// A rate in bytes, or in units of 1024 or 1024 * 1024 bytes with one decimal
/// once there is one of them.
pub open spec fn rate_text(
    rate: Rate,
    bytes: Seq<char>,
    kilo: Seq<char>,
    mega: Seq<char>,
) -> Seq<char> {
    let n = rate.top();
    let d = rate.bottom();
    if held_below(n, d, 1024) {
        quotient_text(n, d, 0) + bytes
    } else if held_below(n, d, 0x10_0000) {
        quotient_text_over(n, d, 1024, 1) + kilo
    } else {
        quotient_text_over(n, d, 0x10_0000, 1) + mega
    }
}

fn write_rate(rate: Rate, bytes: &str, kilo: &str, mega: &str) -> (r: String)
    ensures
        r@ == rate_text(rate, bytes@, kilo@, mega@),
{
    let held = rate.held();
    if held.below(1024) {
        let mut out = held.write_whole();
        out.append(bytes);
        out
    } else if held.below(0x10_0000) {
        let mut out = held.write_tenths(1024);
        out.append(kilo);
        out
    } else {
        let mut out = held.write_tenths(0x10_0000);
        out.append(mega);
        out
    }
}

/// `1.2 MB/s`. Used where there is room for the full unit.
pub open spec fn rate_long(rate: Rate) -> Seq<char> {
    rate_text(rate, " B/s"@, " KB/s"@, " MB/s"@)
}

/// `1.2M`. Used for the per-interface columns.
pub open spec fn rate_short(rate: Rate) -> Seq<char> {
    rate_text(rate, "B"@, "K"@, "M"@)
}

pub fn human_rate(rate: Rate) -> (r: String)
    ensures
        r@ == rate_long(rate),
{
    write_rate(rate, " B/s", " KB/s", " MB/s")
}

pub fn human_rate_compact(rate: Rate) -> (r: String)
    ensures
        r@ == rate_short(rate),
{
    write_rate(rate, "B", "K", "M")
}

/// A size in kilobytes, in the largest of kilo-, mega- and gigabytes that it
/// fills. Nothing at all is a bare zero: `0K` would read as a small number
/// rounded down.
pub open spec fn size_kb(kb: nat) -> Seq<char> {
    if kb == 0 {
        "0"@
    } else if kb < 1024 {
        dec(kb) + "K"@
    } else if kb < 0x10_0000 {
        quotient_text(kb, 1024, 0) + "M"@
    } else {
        quotient_text(kb, 0x10_0000, 1) + "G"@
    }
}

/// Kilobytes in, `1.2G` out.
pub fn human_kb(kb: u64) -> (r: String)
    ensures
        r@ == size_kb(kb as nat),
{
    if kb == 0 {
        "0".to_owned()
    } else if kb < 1024 {
        let mut out = decimal(kb);
        out.append("K");
        out
    } else if kb < 0x10_0000 {
        let mut out = write_quotient(kb as u128, 1024, 0);
        out.append("M");
        out
    } else {
        let mut out = write_quotient(kb as u128, 0x10_0000, 1);
        out.append("G");
        out
    }
}

/// The age of something in seconds, in one unit. A negative age is clock skew
/// and is shown as a plus sign.
pub open spec fn age_text(secs: int) -> Seq<char> {
    if secs < 0 {
        "+"@
    } else if secs < 60 {
        dec(secs as nat) + "s"@
    } else if secs < 3600 {
        dec((secs / 60) as nat) + "m"@
    } else if secs < 86400 {
        dec((secs / 3600) as nat) + "h"@
    } else {
        dec((secs / 86400) as nat) + "d"@
    }
}

/// `12s` / `4m` / `2h` / `3d`.
pub fn short_age(secs: i64) -> (r: String)
    ensures
        r@ == age_text(secs as int),
{
    if secs < 0 {
        return "+".to_owned();
    }
    let s: u64 = secs as u64;
    if s < 60 {
        let mut out = decimal(s);
        out.append("s");
        out
    } else if s < 3600 {
        let mut out = decimal(s / 60);
        out.append("m");
        out
    } else if s < 86400 {
        let mut out = decimal(s / 3600);
        out.append("h");
        out
    } else {
        let mut out = decimal(s / 86400);
        out.append("d");
        out
    }
}

/// Days, hours and minutes, always all three.
pub open spec fn uptime_text(secs: nat) -> Seq<char> {
    dec(secs / 86400) + "d"@ + dec((secs % 86400) / 3600) + "h"@ + dec((secs % 3600) / 60) + "m"@
}

/// `2d3h41m`: how long the box has been up.
pub fn uptime(secs: u64) -> (r: String)
    ensures
        r@ == uptime_text(secs as nat),
{
    let mut out = decimal(secs / 86400);
    out.append("d");
    out.append(decimal((secs % 86400) / 3600).as_str());
    out.append("h");
    out.append(decimal((secs % 3600) / 60).as_str());
    out.append("m");
    out
}

/// Hours and minutes from an hour on, else minutes.
pub open spec fn coarse_uptime_text(secs: nat) -> Seq<char> {
    if secs >= 3600 {
        dec(secs / 3600) + "h "@ + dec((secs % 3600) / 60) + "m"@
    } else {
        dec(secs / 60) + "m"@
    }
}

/// `1h 5m` / `12m`: a service uptime, where days are rare and seconds noise.
pub fn coarse_uptime(secs: u64) -> (r: String)
    ensures
        r@ == coarse_uptime_text(secs as nat),
{
    if secs >= 3600 {
        let mut out = decimal(secs / 3600);
        out.append("h ");
        out.append(decimal((secs % 3600) / 60).as_str());
        out.append("m");
        out
    } else {
        let mut out = decimal(secs / 60);
        out.append("m");
        out
    }
}

/// `12.4G` from a raw byte count.
pub fn human_bytes(bytes: u64) -> (r: String)
    ensures
        r@ == size_kb(bytes as nat / 1024),
{
    human_kb(bytes / 1024)
}

/// A count in thousands, millions or thousands of millions with one decimal;
/// each unit is left where its figure would round to a thousand of it.
pub open spec fn count_text(n: nat) -> Seq<char> {
    if n < 1000 {
        dec(n)
    } else if n < 999_950 {
        quotient_text(n, 1000, 1) + "k"@
    } else if n < 999_950_000 {
        quotient_text(n, 1_000_000, 1) + "M"@
    } else if n < 999_950_000_000 {
        quotient_text(n, 1_000_000_000, 1) + "G"@
    } else {
        ">999G"@
    }
}

/// `402` / `1.2k` / `3.4M`: a count in at most six characters.
pub fn compact_count(n: u64) -> (r: String)
    ensures
        r@ == count_text(n as nat),
{
    if n < 1000 {
        decimal(n)
    } else if n < 999_950 {
        let mut out = write_quotient(n as u128, 1000, 1);
        out.append("k");
        out
    } else if n < 999_950_000 {
        let mut out = write_quotient(n as u128, 1_000_000, 1);
        out.append("M");
        out
    } else if n < 999_950_000_000 {
        let mut out = write_quotient(n as u128, 1_000_000_000, 1);
        out.append("G");
        out
    } else {
        ">999G".to_owned()
    }
}

/// The first `max` characters, or all of them.
pub open spec fn clipped(s: Seq<char>, max: nat) -> Seq<char> {
    if s.len() <= max {
        s
    } else {
        s.take(max as int)
    }
}

/// Truncates to `max` characters, not bytes.
pub fn clip(s: &str, max: usize) -> (r: String)
    ensures
        r@ == clipped(s@, max as nat),
        r@.len() <= max,
{
    if s.unicode_len() <= max {
        s.to_owned()
    } else {
        take(s, max)
    }
}

proof fn lemma_tenths_len(n: nat, d: nat)
    requires
        1000 <= d <= 1_000_000_000,
        20 * n + 20 <= 19_999 * d,
    ensures
        quotient_text(n, d, 1).len() <= 5,
{
    lemma_shown_in_tenths(n, d);
    reveal_with_fuel(vstd::arithmetic::power::pow, 2);
    let units = shown(n, d, 10);
    assert(vstd::arithmetic::power::pow(10, 1) == 10);
    lemma_digits(units / 10);
    lemma_digits(units % 10);
}

/// A compact count has at most six characters, for every number there is: the
/// columns that it stands in are made for that.
pub proof fn compact_count_fits(n: nat)
    ensures
        count_text(n).len() <= 6,
{
    reveal_strlit("k");
    reveal_strlit("M");
    reveal_strlit("G");
    reveal_strlit(">999G");
    if n < 1000 {
        lemma_digits(n);
    } else if n < 999_950 {
        lemma_tenths_len(n, 1000);
    } else if n < 999_950_000 {
        lemma_tenths_len(n, 1_000_000);
    } else if n < 999_950_000_000 {
        lemma_tenths_len(n, 1_000_000_000);
    }
}

/// An age is shown in the largest unit of which a whole one has passed, rounded
/// down: seconds below a minute, minutes below an hour, hours below a day.
pub proof fn age_is_in_the_largest_unit(secs: int)
    ensures
        secs < 0 ==> age_text(secs) == "+"@,
        0 <= secs < 60 ==> age_text(secs) == dec(secs as nat) + "s"@,
        60 <= secs < 3600 ==> exists|n: nat|
            1 <= n < 60 && 60 * n <= secs < 60 * n + 60 && age_text(secs) == #[trigger] dec(n)
                + "m"@,
        3600 <= secs < 86400 ==> exists|n: nat|
            1 <= n < 24 && 3600 * n <= secs < 3600 * n + 3600 && age_text(secs) == #[trigger] dec(n)
                + "h"@,
        secs >= 86400 ==> exists|n: nat|
            1 <= n && 86400 * n <= secs < 86400 * n + 86400 && age_text(secs) == #[trigger] dec(n)
                + "d"@,
{
    if 60 <= secs < 3600 {
        assert(age_text(secs) == dec((secs / 60) as nat) + "m"@);
    } else if 3600 <= secs < 86400 {
        assert(age_text(secs) == dec((secs / 3600) as nat) + "h"@);
    } else if secs >= 86400 {
        assert(age_text(secs) == dec((secs / 86400) as nat) + "d"@);
    }
}

/// An uptime is its days, hours and minutes, which make it up to within a
/// minute.
pub proof fn uptime_adds_up(secs: nat)
    ensures
        exists|d: nat, h: nat, m: nat|
            {
                &&& h < 24
                &&& m < 60
                &&& 86400 * d + 3600 * h + 60 * m <= secs < 86400 * d + 3600 * h + 60 * m + 60
                &&& uptime_text(secs) == #[trigger] dec(d) + "d"@ + #[trigger] dec(h) + "h"@
                    + #[trigger] dec(m) + "m"@
            },
        exists|h: nat, m: nat|
            {
                &&& m < 60
                &&& 3600 * h + 60 * m <= secs < 3600 * h + 60 * m + 60
                &&& secs >= 3600 ==> coarse_uptime_text(secs) == #[trigger] dec(h) + "h "@
                    + #[trigger] dec(m) + "m"@
                &&& secs < 3600 ==> h == 0 && coarse_uptime_text(secs) == dec(m) + "m"@
            },
{
    let d = secs / 86400;
    let h = (secs % 86400) / 3600;
    let m = (secs % 3600) / 60;
    assert(secs % 86400 % 3600 == secs % 3600);
    assert(86400 * d + 3600 * h + 60 * m <= secs < 86400 * d + 3600 * h + 60 * m + 60);
    assert(uptime_text(secs) == dec(d) + "d"@ + dec(h) + "h"@ + dec(m) + "m"@);
    let hours = secs / 3600;
    assert(3600 * hours + 60 * m <= secs < 3600 * hours + 60 * m + 60);
    if secs < 3600 {
        assert(hours == 0);
        assert(secs % 3600 == secs);
        assert(coarse_uptime_text(secs) == dec(m) + "m"@);
        assert(dec(hours) == dec(0));
    } else {
        assert(coarse_uptime_text(secs) == dec(hours) + "h "@ + dec(m) + "m"@);
    }
}

/// A size is shown in kilobytes below a megabyte, in megabytes below a gigabyte
/// and in gigabytes above, and a whole number of any of them as that number.
pub proof fn size_is_in_its_unit(m: nat)
    ensures
        size_kb(0) == "0"@,
        0 < m < 1024 ==> size_kb(m) == dec(m) + "K"@,
        0 < m < 1024 ==> size_kb(m * 1024) == dec(m) + "M"@,
        0 < m < 0x20_0000_0000_0000 ==> size_kb(m * 0x10_0000) == dec(m) + ".0"@ + "G"@,
{
    if 0 < m < 1024 {
        whole_numbers_are_written_exactly(m, 1024);
    }
    if 0 < m < 0x20_0000_0000_0000 {
        whole_numbers_are_written_exactly(m, 0x10_0000);
    }
}

/// A count below a thousand is shown as it is, and a whole number of thousands,
/// millions or thousands of millions as that many.
pub proof fn count_is_in_its_unit(m: nat)
    ensures
        m < 1000 ==> count_text(m) == dec(m),
        0 < m < 1000 ==> count_text(m * 1000) == dec(m) + ".0"@ + "k"@,
        0 < m < 1000 ==> count_text(m * 1_000_000) == dec(m) + ".0"@ + "M"@,
        0 < m < 1000 ==> count_text(m * 1_000_000_000) == dec(m) + ".0"@ + "G"@,
        m >= 999_950_000_000 ==> count_text(m) == ">999G"@,
{
    if 0 < m < 1000 {
        whole_numbers_are_written_exactly(m, 1000);
        whole_numbers_are_written_exactly(m, 1_000_000);
        whole_numbers_are_written_exactly(m, 1_000_000_000);
    }
}

/// What is clipped is a beginning of the text, and all of it where it fits.
pub proof fn clipping_keeps_the_beginning(s: Seq<char>, max: nat)
    ensures
        clipped(s, max).len() == (if s.len() < max {
            s.len()
        } else {
            max
        }),
        has_prefix(s, clipped(s, max)),
        s.len() <= max ==> clipped(s, max) == s,
{
    assert(s.take(clipped(s, max).len() as int) == clipped(s, max));
}

proof fn lemma_one_second()
    ensures
        seconds_top(1_000_000_000) == seconds_bottom(1_000_000_000),
        seconds_top(1_000_000_000) > 0,
{
    lemma_one_unit_is_held(1_000_000_000);
}

/// A rate over one second is the bytes moved in it: shown in bytes below a
/// kilobyte a second, in kilobytes below a megabyte and in megabytes above.
pub proof fn rate_over_a_second_is_the_bytes(m: u64)
    ensures
        m < 1024 ==> rate_long(Rate { bytes: m, nanos: 1_000_000_000 }) == dec(m as nat)
            + " B/s"@,
        m < 1024 ==> rate_short(Rate { bytes: m, nanos: 1_000_000_000 }) == dec(m as nat)
            + "B"@,
        0 < m < 1024 ==> rate_long(Rate { bytes: (m * 1024) as u64, nanos: 1_000_000_000 })
            == dec(m as nat) + ".0"@ + " KB/s"@,
        0 < m < 1024 ==> rate_short(Rate { bytes: (m * 1024) as u64, nanos: 1_000_000_000 })
            == dec(m as nat) + ".0"@ + "K"@,
        0 < m < 0x1_0000_0000 ==> rate_long(
            Rate { bytes: (m * 0x10_0000) as u64, nanos: 1_000_000_000 },
        ) == dec(m as nat) + ".0"@ + " MB/s"@,
        0 < m < 0x1_0000_0000 ==> rate_short(
            Rate { bytes: (m * 0x10_0000) as u64, nanos: 1_000_000_000 },
        ) == dec(m as nat) + ".0"@ + "M"@,
{
    lemma_one_second();
    let d = seconds_top(1_000_000_000);
    let b = m as nat;
    if m < 1024 {
        whole_numbers_are_held_exactly(b, d, 1024);
        whole_numbers_are_written_exactly(b, d);
        let k = b * 1024;
        assert((m * 1024) as u64 as nat == k);
        whole_numbers_are_held_exactly(k, d, 1024);
        whole_numbers_are_held_exactly(k, d, 0x10_0000);
        larger_units_are_written_exactly(b, d, 1024);
    }
    if 0 < m < 0x1_0000_0000 {
        let k = b * 0x10_0000;
        assert((m * 0x10_0000) as u64 as nat == k);
        whole_numbers_are_held_exactly(k, d, 1024);
        whole_numbers_are_held_exactly(k, d, 0x10_0000);
        larger_units_are_written_exactly(b, d, 0x10_0000);
    }
}

/// Nothing moved is no rate, however long it took.
pub proof fn nothing_moved_is_no_rate(nanos: u64)
    ensures
        rate_long(Rate { bytes: 0, nanos }) == "0 B/s"@,
        rate_long(Rate { bytes: 0, nanos: 0 }) == "0 B/s"@,
        forall|bytes: u64| #[trigger] rate_long(Rate { bytes, nanos: 0 }) == "0 B/s"@,
{
    reveal_strlit(" B/s");
    reveal_strlit("0 B/s");
    assert(dec(0) == seq!['0']);
    assert(seq!['0'] + " B/s"@ == "0 B/s"@);
    whole_numbers_are_held_exactly(0, 1, 1024);
    whole_numbers_are_written_exactly(0, 1);
    if nanos > 0 {
        lemma_seconds_are_some(nanos as nat);
        let d = seconds_top(nanos as nat);
        whole_numbers_are_held_exactly(0, d, 1024);
        whole_numbers_are_written_exactly(0, d);
        assert(0 * d == 0);
        assert(0 * seconds_bottom(nanos as nat) == 0);
    }
}

} // verus!
