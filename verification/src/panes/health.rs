//! Temperature, core voltage, ARM clock, throttle state, disk and I/O.
//!
//! This is the pane the whole dashboard exists for. A browning-out supply
//! drops USB radios long before it shows up as anything a process monitor
//! draws, and the only place the SoC admits it is its throttle register.

use vstd::prelude::*;

use super::{integer_in, read_u64};
use crate::format::Rate;
use crate::numeric::{multiply_up, product_up, Ratio};
use crate::text::{
    add_text, all_digits, chars_of, contains_char, dec, decimals_read_back_in_millionths,
    digits_value, has_prefix, hex, is_space, join, joined, lemma_dec_is_no_space,
    lemma_dec_reads_back, lemma_hex_reads_back, lemma_last_piece, lemma_number_reads_back,
    lemma_signed_reads_back, lemma_trimmed_around, lines, lines_of, micros_in, no_texts, number,
    only_digits, opt_view, parse_i64, parse_micros, parse_number, parse_u64, same, signed_dec,
    signed_number, skip, split_at_char, split_char, starts_with, string_of, texts, trim, trimmed,
    words, words_of,
};

verus! {

/// The four conditions of the throttle register, in one nibble.
///
/// The register carries each of them twice: bits 0-3 are "right now" and bits
/// 16-19 are "has happened since boot".
#[derive(Debug, Default, Clone, Copy, PartialEq, Eq, Structural)]
pub struct ThrottleFlags {
    pub under_voltage: bool,
    pub arm_capped: bool,
    pub throttled: bool,
    pub soft_temp_limit: bool,
}

#[derive(Debug, Clone, Copy, PartialEq, Eq, Structural)]
pub enum Tense {
    Now,
    SinceBoot,
}

/// The conditions a nibble stands for.
pub open spec fn flags_of(nibble: int) -> ThrottleFlags {
    ThrottleFlags {
        under_voltage: nibble % 2 == 1,
        arm_capped: (nibble / 2) % 2 == 1,
        throttled: (nibble / 4) % 2 == 1,
        soft_temp_limit: (nibble / 8) % 2 == 1,
    }
}

impl ThrottleFlags {
    pub fn from_nibble(nibble: u32) -> (r: ThrottleFlags)
        ensures
            r == flags_of(nibble as int),
    {
        assert((nibble & 1 != 0) == (nibble % 2 == 1)) by (bit_vector);
        assert((nibble & 2 != 0) == ((nibble / 2) % 2 == 1)) by (bit_vector);
        assert((nibble & 4 != 0) == ((nibble / 4) % 2 == 1)) by (bit_vector);
        assert((nibble & 8 != 0) == ((nibble / 8) % 2 == 1)) by (bit_vector);
        ThrottleFlags {
            under_voltage: nibble & 1 != 0,
            arm_capped: nibble & 2 != 0,
            throttled: nibble & 4 != 0,
            soft_temp_limit: nibble & 8 != 0,
        }
    }

    pub open spec fn some_set(self) -> bool {
        self.under_voltage || self.arm_capped || self.throttled || self.soft_temp_limit
    }

    pub fn any(&self) -> (r: bool)
        ensures
            r == self.some_set(),
    {
        self.under_voltage || self.arm_capped || self.throttled || self.soft_temp_limit
    }

    /// What is said of the conditions that are set, in the order of their
    /// bits. A live under-voltage is shouted, because the supply is sagging as
    /// you look at it; what is history is stated flatly.
    pub open spec fn said(self, tense: Tense) -> Seq<Seq<char>> {
        let none = Seq::<Seq<char>>::empty();
        let a = if self.under_voltage {
            none.push(
                match tense {
                    Tense::Now => "UNDER-VOLTAGE NOW"@,
                    Tense::SinceBoot => "under-voltage"@,
                },
            )
        } else {
            none
        };
        let b = if self.arm_capped {
            a.push("clock capped"@)
        } else {
            a
        };
        let c = if self.throttled {
            b.push("throttled"@)
        } else {
            b
        };
        if self.soft_temp_limit {
            c.push(
                match tense {
                    Tense::Now => "soft temp limit"@,
                    Tense::SinceBoot => "temp limit"@,
                },
            )
        } else {
            c
        }
    }

    pub fn labels(&self, tense: Tense) -> (r: Vec<String>)
        ensures
            texts(r@) == self.said(tense),
    {
        let mut out = no_texts();
        if self.under_voltage {
            match tense {
                Tense::Now => add_text(&mut out, "UNDER-VOLTAGE NOW"),
                Tense::SinceBoot => add_text(&mut out, "under-voltage"),
            }
        }
        if self.arm_capped {
            add_text(&mut out, "clock capped");
        }
        if self.throttled {
            add_text(&mut out, "throttled");
        }
        if self.soft_temp_limit {
            match tense {
                Tense::Now => add_text(&mut out, "soft temp limit"),
                Tense::SinceBoot => add_text(&mut out, "temp limit"),
            }
        }
        out
    }
}

/// A decoded throttle register.
#[derive(Debug, Clone, Copy, PartialEq, Eq, Structural)]
pub struct Throttle {
    pub raw: u32,
    pub now: ThrottleFlags,
    pub since_boot: ThrottleFlags,
}

impl Throttle {
    pub open spec fn of(raw: u32) -> Throttle {
        Throttle {
            raw,
            now: flags_of(raw as int % 16),
            since_boot: flags_of((raw as int / 0x10000) % 16),
        }
    }

    pub fn decode(raw: u32) -> (r: Throttle)
        ensures
            r == Throttle::of(raw),
    {
        assert(raw & 0xf == raw % 16) by (bit_vector);
        assert((raw >> 16) & 0xf == (raw / 0x10000) % 16) by (bit_vector);
        Throttle {
            raw,
            now: ThrottleFlags::from_nibble(raw & 0xf),
            since_boot: ThrottleFlags::from_nibble((raw >> 16) & 0xf),
        }
    }

    pub open spec fn nothing_set(self) -> bool {
        !self.now.some_set() && !self.since_boot.some_set()
    }

    pub fn clean(&self) -> (r: bool)
        ensures
            r == self.nothing_set(),
    {
        !self.now.any() && !self.since_boot.any()
    }
}

/// What follows the last equals sign, trimmed.
pub open spec fn after_equals(text: Seq<char>) -> Seq<char> {
    trimmed(split_at_char(trimmed(text), '=').last())
}

fn value_after_equals(text: &str) -> (r: String)
    ensures
        r@ == after_equals(text@),
{
    let parts = split_char(trim(text).as_str(), '=');
    let n: usize = parts.len();
    assert(texts(parts@).last() == parts@[n - 1]@);
    trim(parts[n - 1].as_str())
}

/// The register in `throttled=0x50005`, which may also come bare or in
/// decimal.
pub open spec fn throttled_in(text: Seq<char>) -> Option<int> {
    let value = after_equals(text);
    if has_prefix(value, "0x"@) || has_prefix(value, "0X"@) {
        number(value.skip(2), 16, u32::MAX as int)
    } else {
        number(value, 10, u32::MAX as int)
    }
}

pub fn parse_throttled(text: &str) -> (r: Option<u32>)
    ensures
        match r {
            Some(n) => throttled_in(text@) == Some(n as int),
            None => throttled_in(text@) is None,
        },
{
    let value = value_after_equals(text);
    proof {
        reveal_strlit("0x");
        reveal_strlit("0X");
    }
    let parsed = if starts_with(value.as_str(), "0x") || starts_with(value.as_str(), "0X") {
        parse_number(skip(value.as_str(), 2).as_str(), 16, u32::MAX as u64)
    } else {
        parse_number(value.as_str(), 10, u32::MAX as u64)
    };
    match parsed {
        Some(n) => Some(n as u32),
        None => None,
    }
}

/// The core voltage in `volt=0.8563V`, in millionths of a volt.
pub open spec fn volts_in(text: Seq<char>) -> Option<int> {
    micros_in(without_unit(after_equals(text)))
}

/// `s` without the letters `V` and `v` at its end.
pub open spec fn without_unit(s: Seq<char>) -> Seq<char>
    decreases s.len(),
{
    if s.len() > 0 && (s.last() == 'V' || s.last() == 'v') {
        without_unit(s.drop_last())
    } else {
        s
    }
}

fn strip_unit(s: &str) -> (r: String)
    ensures
        r@ == without_unit(s@),
{
    let v = chars_of(s);
    let mut to: usize = v.len();
    assert(v@.take(to as int) == s@);
    while to > 0 && (v[to - 1] == 'V' || v[to - 1] == 'v')
        invariant
            to <= v@.len(),
            without_unit(s@) == without_unit(v@.take(to as int)),
        decreases to,
    {
        assert(v@.take(to as int).drop_last() == v@.take(to - 1));
        to = to - 1;
    }
    assert(v@.take(to as int) == v@.subrange(0, to as int));
    string_of(&v, 0, to)
}

pub fn parse_volts(text: &str) -> (r: Option<i64>)
    ensures
        match r {
            Some(n) => volts_in(text@) == Some(n as int),
            None => volts_in(text@) is None,
        },
{
    parse_micros(strip_unit(value_after_equals(text).as_str()).as_str())
}

/// The clock in `frequency(48)=1500000000`, in MHz.
pub open spec fn clock_mhz_in(text: Seq<char>) -> Option<int> {
    match number(after_equals(text), 10, u64::MAX as int) {
        Some(hz) => Some(hz / 1_000_000),
        None => None,
    }
}

pub fn parse_clock_mhz(text: &str) -> (r: Option<u64>)
    ensures
        match r {
            Some(n) => clock_mhz_in(text@) == Some(n as int),
            None => clock_mhz_in(text@) is None,
        },
{
    match parse_u64(value_after_equals(text).as_str()) {
        Some(hz) => Some(hz / 1_000_000),
        None => None,
    }
}

/// The temperature in a thermal zone's file, in thousandths of a degree. A
/// zone that reads zero is one that is not wired up.
pub open spec fn millidegrees_in(text: Seq<char>) -> Option<int> {
    match signed_number(trimmed(text)) {
        Some(milli) if milli != 0 => Some(milli),
        _ => None,
    }
}

pub fn parse_thermal_millidegrees(text: &str) -> (r: Option<i64>)
    ensures
        match r {
            Some(n) => millidegrees_in(text@) == Some(n as int),
            None => millidegrees_in(text@) is None,
        },
{
    match parse_i64(trim(text).as_str()) {
        Some(milli) => if milli != 0 {
            Some(milli)
        } else {
            None
        },
        None => None,
    }
}

/// How full a filesystem is.
#[derive(Debug, Default, Clone, Copy, PartialEq, Eq, Structural)]
pub struct DiskUsage {
    pub used_kb: u64,
    pub total_kb: u64,
    /// What a normal user can still write. Not `total - used`: a filesystem
    /// may hold some of its space back for root.
    pub avail_kb: u64,
}

impl DiskUsage {
    /// What is used, out of what is usable. This is how `df` defines capacity:
    /// against what can be written, not against the raw size.
    pub open spec fn fullness(self) -> Ratio {
        Ratio {
            num: self.used_kb,
            den: if self.used_kb + self.avail_kb > u64::MAX {
                u64::MAX
            } else {
                (self.used_kb + self.avail_kb) as u64
            },
        }
    }

    pub fn pct(&self) -> (r: Ratio)
        ensures
            r == self.fullness(),
    {
        Ratio::new(self.used_kb, self.used_kb.saturating_add(self.avail_kb))
    }
}

/// Whether a sample runs `df`: every fifth one, and once at startup.
///
/// What counts at startup is whether `df` has run at all, not whether it found
/// a root filesystem: where `/` has no device behind it, it never finds one.
pub fn should_read_disk(sample_count: u64, have_read: bool) -> (r: bool)
    ensures
        r == (sample_count % 5 == 0 || !have_read),
{
    sample_count % 5 == 0 || !have_read
}

/// One mounted filesystem, as `df` reports it.
#[derive(Debug)]
pub struct Filesystem {
    /// The device: `/dev/mmcblk0p2`, `/dev/sda1`.
    pub source: String,
    /// Where it is mounted.
    pub mount: String,
    pub usage: DiskUsage,
}

/// What a filesystem's row says.
pub struct Mounted {
    pub source: Seq<char>,
    pub mount: Seq<char>,
    pub usage: DiskUsage,
}

impl View for Filesystem {
    type V = Mounted;

    open spec fn view(&self) -> Mounted {
        Mounted { source: self.source@, mount: self.mount@, usage: self.usage }
    }
}

/// What a list of filesystems says.
pub open spec fn mounted(v: Seq<Filesystem>) -> Seq<Mounted> {
    Seq::new(v.len(), |i: int| v[i]@)
}

/// The short name of a mount point: its last component, or all of it where
/// that is empty.
pub open spec fn mount_label(mount: Seq<char>) -> Seq<char> {
    let last = split_at_char(mount, '/').last();
    if last.len() == 0 {
        mount
    } else {
        last
    }
}

impl Filesystem {
    pub fn label(&self) -> (r: String)
        ensures
            r@ == mount_label(self.mount@),
    {
        let parts = split_char(self.mount.as_str(), '/');
        let n: usize = parts.len();
        assert(texts(parts@).last() == parts@[n - 1]@);
        if parts[n - 1].as_str().is_empty() {
            self.mount.clone()
        } else {
            parts[n - 1].clone()
        }
    }
}

/// The size columns of a split `df` row.
pub open spec fn df_usage(fields: Seq<Seq<char>>) -> Option<(int, int, int)> {
    let total = number(fields[1], 10, u64::MAX as int);
    let used = number(fields[2], 10, u64::MAX as int);
    let avail = number(fields[3], 10, u64::MAX as int);
    if fields.len() > 3 && total is Some && used is Some && avail is Some {
        Some((total->0, used->0, avail->0))
    } else {
        None
    }
}

pub fn parse_df_fields(fields: &Vec<String>) -> (r: Option<DiskUsage>)
    ensures
        match r {
            Some(u) => df_usage(texts(fields@)) == Some(
                (u.total_kb as int, u.used_kb as int, u.avail_kb as int),
            ),
            None => df_usage(texts(fields@)) is None,
        },
{
    if fields.len() <= 3 {
        return None;
    }
    assert(texts(fields@)[1] == fields@[1]@);
    assert(texts(fields@)[2] == fields@[2]@);
    assert(texts(fields@)[3] == fields@[3]@);
    match (
        parse_u64(fields[1].as_str()),
        parse_u64(fields[2].as_str()),
        parse_u64(fields[3].as_str()),
    ) {
        (Some(total_kb), Some(used_kb), Some(avail_kb)) => Some(
            DiskUsage { used_kb, total_kb, avail_kb },
        ),
        _ => None,
    }
}

/// The filesystem that one row of `df` describes: six fields or more, a source
/// under `/dev/`, and readable sizes. `df` does not escape blanks in the mount
/// point, so every field from the sixth on is part of it.
pub open spec fn df_row(line: Seq<char>) -> Option<Mounted> {
    let f = words_of(line);
    match df_usage(f) {
        Some((total, used, avail)) if f.len() > 5 && has_prefix(f[0], "/dev/"@) => Some(
            Mounted {
                source: f[0],
                mount: joined(f.skip(5), " "@),
                usage: DiskUsage {
                    used_kb: used as u64,
                    total_kb: total as u64,
                    avail_kb: avail as u64,
                },
            },
        ),
        _ => None,
    }
}

pub open spec fn lists_source(rows: Seq<Mounted>, source: Seq<char>) -> bool {
    exists|i: int| 0 <= i < rows.len() && #[trigger] rows[i].source == source
}

/// The filesystems in rows of `df`, each device once: a bind mount presents
/// one device twice.
pub open spec fn df_rows(lines: Seq<Seq<char>>) -> Seq<Mounted>
    decreases lines.len(),
{
    if lines.len() == 0 {
        Seq::empty()
    } else {
        let before = df_rows(lines.drop_last());
        match df_row(lines.last()) {
            Some(row) if !lists_source(before, row.source) => before.push(row),
            _ => before,
        }
    }
}

/// Every real filesystem in the output of `df -P -k`, under its heading, in
/// the order it is listed.
pub open spec fn df_all(text: Seq<char>) -> Seq<Mounted> {
    let all = lines_of(text);
    if all.len() == 0 {
        Seq::empty()
    } else {
        df_rows(all.skip(1))
    }
}

fn read_df_row(line: &str) -> (r: Option<Filesystem>)
    ensures
        match r {
            Some(fs) => df_row(line@) == Some(fs@),
            None => df_row(line@) is None,
        },
{
    let mut fields = words(line);
    let ghost all = texts(fields@);
    if fields.len() <= 5 {
        return None;
    }
    assert(all[0] == fields@[0]@);
    if !starts_with(fields[0].as_str(), "/dev/") {
        return None;
    }
    match parse_df_fields(&fields) {
        None => None,
        Some(usage) => {
            let source = fields[0].clone();
            let rest = fields.split_off(5);
            assert(texts(rest@) == all.skip(5));
            let mount = join(&rest, " ");
            Some(Filesystem { source, mount, usage })
        },
    }
}

pub fn parse_df_all(text: &str) -> (r: Vec<Filesystem>)
    ensures
        mounted(r@) == df_all(text@),
{
    let all = lines(text);
    let ghost seen = lines_of(text@);
    let mut out: Vec<Filesystem> = Vec::new();
    assert(mounted(out@) == Seq::<Mounted>::empty());
    if all.len() == 0 {
        return out;
    }
    let ghost rows = seen.skip(1);
    let mut i: usize = 1;
    assert(rows.take(0) == Seq::<Seq<char>>::empty());
    while i < all.len()
        invariant
            1 <= i <= all@.len(),
            texts(all@) == seen,
            rows == seen.skip(1),
            mounted(out@) == df_rows(rows.take(i - 1)),
        decreases all@.len() - i,
    {
        let ghost here = rows.take(i as int);
        assert(here.drop_last() == rows.take(i - 1));
        assert(here.last() == all@[i as int]@);
        let ghost before = mounted(out@);
        match read_df_row(all[i].as_str()) {
            None => {},
            Some(fs) => {
                let mut known = false;
                let mut j: usize = 0;
                while j < out.len()
                    invariant
                        j <= out@.len(),
                        mounted(out@) == before,
                        known == exists|k: int|
                            0 <= k < j && #[trigger] before[k].source == fs.source@,
                    decreases out@.len() - j,
                {
                    assert(before[j as int].source == out@[j as int].source@);
                    if same(out[j].source.as_str(), fs.source.as_str()) {
                        known = true;
                    }
                    j = j + 1;
                }
                assert(known == lists_source(before, fs@.source));
                if !known {
                    let ghost row = fs@;
                    out.push(fs);
                    assert(mounted(out@) == before.push(row));
                }
            },
        }
        i = i + 1;
    }
    assert(rows.take(i - 1) == rows);
    out
}

/// Whether a block device is a whole disk: `mmcblk0` and not `mmcblk0p1`,
/// `sda` and not `sda1`, `nvme0n1` and not `nvme0n1p1`.
pub open spec fn whole_disk(name: Seq<char>) -> bool {
    if has_prefix(name, "mmcblk"@) {
        let rest = name.skip(6);
        all_digits(rest) && rest.len() > 0
    } else if has_prefix(name, "nvme"@) {
        let rest = name.skip(4);
        rest.contains('n') && !rest.contains('p')
    } else if has_prefix(name, "sd"@) {
        let rest = name.skip(2);
        rest.len() == 1 && ('a' <= rest[0] <= 'z' || 'A' <= rest[0] <= 'Z')
    } else {
        false
    }
}

pub fn is_whole_disk(name: &str) -> (r: bool)
    ensures
        r == whole_disk(name@),
{
    proof {
        reveal_strlit("mmcblk");
        reveal_strlit("nvme");
        reveal_strlit("sd");
    }
    if starts_with(name, "mmcblk") {
        let rest = skip(name, 6);
        only_digits(rest.as_str()) && !rest.as_str().is_empty()
    } else if starts_with(name, "nvme") {
        let rest = skip(name, 4);
        contains_char(rest.as_str(), 'n') && !contains_char(rest.as_str(), 'p')
    } else if starts_with(name, "sd") {
        let rest = chars_of(skip(name, 2).as_str());
        rest.len() == 1 && (('a' <= rest[0] && rest[0] <= 'z') || ('A' <= rest[0] && rest[0]
            <= 'Z'))
    } else {
        false
    }
}

/// A number in a field of a row, or zero where there is none to be read.
pub open spec fn field_or_zero(fields: Seq<Seq<char>>, at: int) -> int {
    if 0 <= at < fields.len() {
        match number(fields[at], 10, u64::MAX as int) {
            Some(n) => n,
            None => 0,
        }
    } else {
        0
    }
}

pub fn number_in(fields: &Vec<String>, at: usize) -> (r: u64)
    ensures
        r == field_or_zero(texts(fields@), at as int),
{
    if at < fields.len() {
        assert(texts(fields@)[at as int] == fields@[at as int]@);
        match parse_u64(fields[at].as_str()) {
            Some(n) => n,
            None => 0,
        }
    } else {
        0
    }
}

/// A sum, or the largest number that fits.
pub open spec fn sum_up(a: int, b: int) -> int {
    if a + b > u64::MAX {
        u64::MAX as int
    } else {
        a + b
    }
}

/// The sectors read and written over whole disks. A partition's are already
/// its disk's.
pub open spec fn sectors(lines: Seq<Seq<char>>) -> (int, int)
    decreases lines.len(),
{
    if lines.len() == 0 {
        (0, 0)
    } else {
        let (read, written) = sectors(lines.drop_last());
        let f = words_of(lines.last());
        if f.len() > 2 && whole_disk(f[2]) {
            (sum_up(read, field_or_zero(f, 5)), sum_up(written, field_or_zero(f, 9)))
        } else {
            (read, written)
        }
    }
}

/// Sectors read and written, summed over whole disks.
pub fn parse_diskstats(text: &str) -> (r: (u64, u64))
    ensures
        (r.0 as int, r.1 as int) == sectors(lines_of(text@)),
{
    let all = lines(text);
    let ghost rows = lines_of(text@);
    let mut read: u64 = 0;
    let mut written: u64 = 0;
    let mut i: usize = 0;
    assert(rows.take(0) == Seq::<Seq<char>>::empty());
    while i < all.len()
        invariant
            i <= all@.len(),
            texts(all@) == rows,
            (read as int, written as int) == sectors(rows.take(i as int)),
        decreases all@.len() - i,
    {
        let ghost here = rows.take(i + 1);
        assert(here.drop_last() == rows.take(i as int));
        assert(here.last() == all@[i as int]@);
        let fields = words(all[i].as_str());
        if fields.len() > 2 {
            assert(texts(fields@)[2] == fields@[2]@);
            if is_whole_disk(fields[2].as_str()) {
                read = read.saturating_add(number_in(&fields, 5));
                written = written.saturating_add(number_in(&fields, 9));
            }
        }
        i = i + 1;
    }
    assert(rows.take(i as int) == rows);
    (read, written)
}

/// Bytes in a sector of `/proc/diskstats`, whatever the device's block size.
pub const SECTOR_BYTES: u64 = 512;

/// Disk throughput.
#[derive(Debug, Default, Clone, Copy, PartialEq, Eq, Structural)]
pub struct IoRates {
    pub read: Rate,
    pub write: Rate,
}

/// What one sample of the health pane read off the box. Each is the contents
/// of a file or the output of a command, and `None` where there was none.
#[derive(Debug, Default)]
pub struct HealthReadings {
    /// `/sys/class/thermal/thermal_zone0/temp`.
    pub temp: Option<String>,
    /// `scaling_cur_freq` and `scaling_max_freq` of the first CPU, in kHz.
    pub cur_freq: Option<String>,
    pub max_freq: Option<String>,
    /// `vcgencmd measure_clock arm`, for a kernel without the two files.
    pub clock: Option<String>,
    /// `vcgencmd measure_volts core`.
    pub volts: Option<String>,
    /// `vcgencmd get_throttled`.
    pub throttled: Option<String>,
    /// `df -P -k`, where [`HealthPane::wants_disk`] asked for it.
    pub df: Option<String>,
    /// `/proc/diskstats`.
    pub diskstats: Option<String>,
}

/// State of the health pane between samples.
pub struct HealthPane {
    pub prev_sectors: Option<(u64, u64)>,
    /// When the last sample was taken, in nanoseconds.
    pub last_sample: Option<u64>,
    pub sample_count: u64,
    /// Thousandths of a degree.
    pub temp_milli: Option<i64>,
    /// Millionths of a volt.
    pub volts_micro: Option<i64>,
    pub arm_mhz: Option<u64>,
    pub max_mhz: Option<u64>,
    /// `None` means that it could not be read, which is not the same as clean.
    pub throttle: Option<Throttle>,
    pub disk: Option<DiskUsage>,
    /// Whether `df` has run at all yet.
    pub disk_read: bool,
    pub filesystems: Vec<Filesystem>,
    pub io: IoRates,
}

pub open spec fn opt_int_u64(n: Option<u64>) -> Option<int> {
    match n {
        Some(v) => Some(v as int),
        None => None,
    }
}

pub open spec fn opt_int_i64(n: Option<i64>) -> Option<int> {
    match n {
        Some(v) => Some(v as int),
        None => None,
    }
}

/// The clock in MHz: from the file, which is in kHz, or else from the command.
pub open spec fn clock_in(freq: Option<Seq<char>>, clock: Option<Seq<char>>) -> Option<int> {
    match integer_in(freq) {
        Some(khz) => Some(khz / 1000),
        None => match clock {
            Some(text) => clock_mhz_in(text),
            None => None,
        },
    }
}

/// The register that a reading holds, decoded.
pub open spec fn throttle_in(text: Option<Seq<char>>) -> Option<Throttle> {
    match text {
        Some(t) => match throttled_in(t) {
            Some(raw) => Some(Throttle::of(raw as u32)),
            None => None,
        },
        None => None,
    }
}

/// The first filesystem mounted at `/`.
pub open spec fn root_usage(rows: Seq<Mounted>) -> Option<DiskUsage>
    decreases rows.len(),
{
    if rows.len() == 0 {
        None
    } else if rows[0].mount == "/"@ {
        Some(rows[0].usage)
    } else {
        root_usage(rows.drop_first())
    }
}

/// The throughput of sectors moved since a previous count. A counter that went
/// backwards moved none.
pub open spec fn sector_rate(now: u64, before: u64, nanos: u64) -> Rate {
    let moved = if now < before {
        0
    } else {
        now - before
    };
    Rate {
        bytes: product_up(moved as int, SECTOR_BYTES as int) as u64,
        nanos,
    }
}

/// The time since an earlier moment, if there was one and it is earlier.
pub open spec fn elapsed(now: u64, then: Option<u64>) -> u64 {
    match then {
        Some(t) if t <= now => (now - t) as u64,
        _ => 0,
    }
}

pub fn elapsed_since(now: u64, then: Option<u64>) -> (r: u64)
    ensures
        r == elapsed(now, then),
{
    match then {
        Some(t) => if t <= now {
            now - t
        } else {
            0
        },
        None => 0,
    }
}

/// The I/O rates after a sample: new ones wherever there is an earlier count
/// and time has passed.
pub open spec fn io_after(
    before: HealthPane,
    diskstats: Option<Seq<char>>,
    now: u64,
) -> (IoRates, Option<(u64, u64)>) {
    match diskstats {
        None => (before.io, before.prev_sectors),
        Some(text) => {
            let (r, w) = sectors(lines_of(trimmed(text)));
            let nanos = elapsed(now, before.last_sample);
            let io = match before.prev_sectors {
                Some((pr, pw)) if nanos > 0 => IoRates {
                    read: sector_rate(r as u64, pr, nanos),
                    write: sector_rate(w as u64, pw, nanos),
                },
                _ => before.io,
            };
            (io, Some((r as u64, w as u64)))
        },
    }
}

fn rate_of_sectors(now: u64, before: u64, nanos: u64) -> (r: Rate)
    ensures
        r == sector_rate(now, before, nanos),
{
    let moved: u64 = now.saturating_sub(before);
    Rate { bytes: multiply_up(moved, SECTOR_BYTES), nanos }
}

fn find_root(rows: &Vec<Filesystem>) -> (r: Option<DiskUsage>)
    ensures
        r == root_usage(mounted(rows@)),
{
    let ghost all = mounted(rows@);
    let mut i: usize = 0;
    assert(all.skip(0) == all);
    while i < rows.len()
        invariant
            i <= rows@.len(),
            all == mounted(rows@),
            root_usage(all) == root_usage(all.skip(i as int)),
        decreases rows@.len() - i,
    {
        assert(all.skip(i as int)[0] == rows@[i as int]@);
        assert(all.skip(i as int).drop_first() == all.skip(i + 1));
        if same(rows[i].mount.as_str(), "/") {
            return Some(rows[i].usage);
        }
        i = i + 1;
    }
    None
}

impl HealthPane {
    /// A pane that has sampled nothing yet.
    pub open spec fn fresh(self) -> bool {
        &&& self.prev_sectors is None
        &&& self.last_sample is None
        &&& self.sample_count == 0
        &&& self.temp_milli is None
        &&& self.volts_micro is None
        &&& self.arm_mhz is None
        &&& self.max_mhz is None
        &&& self.throttle is None
        &&& self.disk is None
        &&& !self.disk_read
        &&& self.filesystems@.len() == 0
        &&& self.io == (IoRates {
            read: Rate { bytes: 0, nanos: 0 },
            write: Rate { bytes: 0, nanos: 0 },
        })
    }

    pub fn new() -> (r: HealthPane)
        ensures
            r.fresh(),
    {
        HealthPane {
            prev_sectors: None,
            last_sample: None,
            sample_count: 0,
            temp_milli: None,
            volts_micro: None,
            arm_mhz: None,
            max_mhz: None,
            throttle: None,
            disk: None,
            disk_read: false,
            filesystems: Vec::new(),
            io: IoRates { read: Rate::none(), write: Rate::none() },
        }
    }

    /// Whether the next sample should carry the output of `df`.
    pub fn wants_disk(&self) -> (r: bool)
        ensures
            r == (self.sample_count % 5 == 0 || !self.disk_read),
    {
        should_read_disk(self.sample_count, self.disk_read)
    }

    /// Takes in one round of readings, made at `now` nanoseconds.
    ///
    /// The disk figures are replaced only where `df` was asked for and
    /// answered; everything else follows the readings of this sample alone.
    pub fn sample(&mut self, readings: HealthReadings, now: u64)
        ensures
            opt_int_i64(final(self).temp_milli) == match readings.temp {
                Some(t) => millidegrees_in(t@),
                None => None,
            },
            opt_int_u64(final(self).arm_mhz) == clock_in(
                opt_view(readings.cur_freq),
                opt_view(readings.clock),
            ),
            opt_int_u64(final(self).max_mhz) == clock_in(opt_view(readings.max_freq), None),
            opt_int_i64(final(self).volts_micro) == match readings.volts {
                Some(t) => volts_in(t@),
                None => None,
            },
            final(self).throttle == throttle_in(opt_view(readings.throttled)),
            match readings.df {
                Some(text) if old(self).sample_count % 5 == 0 || !old(self).disk_read => {
                    &&& final(self).disk_read
                    &&& mounted(final(self).filesystems@) == df_all(text@)
                    &&& final(self).disk == root_usage(df_all(text@))
                },
                _ => {
                    &&& final(self).disk_read == old(self).disk_read
                    &&& final(self).filesystems@ == old(self).filesystems@
                    &&& final(self).disk == old(self).disk
                },
            },
            (final(self).io, final(self).prev_sectors) == io_after(
                *old(self),
                opt_view(readings.diskstats),
                now,
            ),
            final(self).last_sample == Some(now),
            final(self).sample_count == if old(self).sample_count == u64::MAX {
                0
            } else {
                old(self).sample_count + 1
            },
    {
        self.temp_milli = match &readings.temp {
            Some(t) => parse_thermal_millidegrees(t.as_str()),
            None => None,
        };
        let cur: Option<u64> = match &readings.cur_freq {
            Some(t) => read_u64(Some(t.as_str())),
            None => None,
        };
        self.arm_mhz = match cur {
            Some(khz) => Some(khz / 1000),
            None => match &readings.clock {
                Some(t) => parse_clock_mhz(t.as_str()),
                None => None,
            },
        };
        let max: Option<u64> = match &readings.max_freq {
            Some(t) => read_u64(Some(t.as_str())),
            None => None,
        };
        self.max_mhz = match max {
            Some(khz) => Some(khz / 1000),
            None => None,
        };
        self.volts_micro = match &readings.volts {
            Some(t) => parse_volts(t.as_str()),
            None => None,
        };
        self.throttle = match &readings.throttled {
            Some(t) => match parse_throttled(t.as_str()) {
                Some(raw) => Some(Throttle::decode(raw)),
                None => None,
            },
            None => None,
        };
        if should_read_disk(self.sample_count, self.disk_read) {
            if let Some(text) = &readings.df {
                self.disk_read = true;
                self.filesystems = parse_df_all(text.as_str());
                self.disk = find_root(&self.filesystems);
            }
        }
        if let Some(text) = &readings.diskstats {
            let (r, w) = parse_diskstats(trim(text.as_str()).as_str());
            let nanos: u64 = elapsed_since(now, self.last_sample);
            if let Some((pr, pw)) = self.prev_sectors {
                if nanos > 0 {
                    self.io = IoRates {
                        read: rate_of_sectors(r, pr, nanos),
                        write: rate_of_sectors(w, pw, nanos),
                    };
                }
            }
            self.prev_sectors = Some((r, w));
        }
        self.last_sample = Some(now);
        self.sample_count = self.sample_count.wrapping_add(1);
    }
}

/// A filesystem that is mounted twice is listed once: no two rows name the same
/// device.
pub proof fn each_device_is_listed_once(lines: Seq<Seq<char>>)
    ensures
        forall|i: int, j: int|
            0 <= i < j < df_rows(lines).len() ==> (#[trigger] df_rows(lines)[i]).source != (
            #[trigger] df_rows(lines)[j]).source,
    decreases lines.len(),
{
    if lines.len() > 0 {
        each_device_is_listed_once(lines.drop_last());
        let before = df_rows(lines.drop_last());
        let rows = df_rows(lines);
        assert forall|i: int, j: int| 0 <= i < j < rows.len() implies (
        #[trigger] rows[i]).source != (#[trigger] rows[j]).source by {
            assert(rows[i] == before[i]);
            if j < before.len() {
                assert(rows[j] == before[j]);
            } else {
                assert(!lists_source(before, rows[j].source));
            }
        }
    }
}

/// The register reads back from every form it is printed in: with its name or
/// bare, in hexadecimal under either prefix or in decimal, and with any white
/// space around it.
pub proof fn register_reads_back(raw: u32, lead: Seq<char>, trail: Seq<char>)
    requires
        forall|i: int| 0 <= i < lead.len() ==> is_space(#[trigger] lead[i]),
        forall|i: int| 0 <= i < trail.len() ==> is_space(#[trigger] trail[i]),
    ensures
        throttled_in(lead + ("throttled=0x"@ + hex(raw as nat)) + trail) == Some(raw as int),
        throttled_in(lead + ("throttled=0X"@ + hex(raw as nat)) + trail) == Some(raw as int),
        throttled_in(lead + ("0x"@ + hex(raw as nat)) + trail) == Some(raw as int),
        throttled_in(lead + ("0X"@ + hex(raw as nat)) + trail) == Some(raw as int),
        throttled_in(lead + ("throttled="@ + dec(raw as nat)) + trail) == Some(raw as int),
        throttled_in(lead + dec(raw as nat) + trail) == Some(raw as int),
{
    reveal_strlit("throttled=");
    reveal_strlit("throttled=0x");
    reveal_strlit("throttled=0X");
    reveal_strlit("0x");
    reveal_strlit("0X");
    let none = Seq::<char>::empty();
    let name = "throttled="@;
    let low = "0x"@ + hex(raw as nat);
    let high = "0X"@ + hex(raw as nat);
    let plain = dec(raw as nat);
    lemma_hex_reads_back(raw as nat);
    lemma_dec_reads_back(raw as nat);
    assert(hex(raw as nat)[0] != '+');
    assert forall|i: int| 0 <= i < low.len() implies #[trigger] low[i] != '=' && !is_space(
        low[i],
    ) by {
        if i >= 2 {
            assert(low[i] == hex(raw as nat)[i - 2]);
        }
    }
    assert forall|i: int| 0 <= i < high.len() implies #[trigger] high[i] != '=' && !is_space(
        high[i],
    ) by {
        if i >= 2 {
            assert(high[i] == hex(raw as nat)[i - 2]);
        }
    }
    assert forall|i: int| 0 <= i < plain.len() implies #[trigger] plain[i] != '=' && !is_space(
        plain[i],
    ) && '0' <= plain[i] <= '9' by {
    }
    lemma_value_stands(name, low, lead, trail);
    lemma_value_stands(name, high, lead, trail);
    lemma_value_stands(name, plain, lead, trail);
    lemma_value_stands(none, low, lead, trail);
    lemma_value_stands(none, high, lead, trail);
    lemma_value_stands(none, plain, lead, trail);
    assert(name + low == "throttled=0x"@ + hex(raw as nat));
    assert(name + high == "throttled=0X"@ + hex(raw as nat));
    assert(none + low == low);
    assert(none + high == high);
    assert(none + plain == plain);
    assert(low.skip(2) == hex(raw as nat));
    assert(high.skip(2) == hex(raw as nat));
    assert(low.take(2) == "0x"@);
    assert(high.take(2) == "0X"@);
    if plain.len() > 1 {
        assert('0' <= plain[1] <= '9');
        assert(plain.take(2)[1] == plain[1]);
    }
}

/// A value without an equals sign and without white space is what follows the
/// last equals sign, under a name or without one.
proof fn lemma_value_stands(name: Seq<char>, value: Seq<char>, lead: Seq<char>, trail: Seq<char>)
    requires
        name.len() == 0 || (name.last() == '=' && !is_space(name[0])),
        value.len() > 0,
        forall|i: int|
            0 <= i < value.len() ==> #[trigger] value[i] != '=' && !is_space(value[i]),
        forall|i: int| 0 <= i < lead.len() ==> is_space(#[trigger] lead[i]),
        forall|i: int| 0 <= i < trail.len() ==> is_space(#[trigger] trail[i]),
    ensures
        after_equals(lead + (name + value) + trail) == value,
{
    let none = Seq::<char>::empty();
    let text = name + value;
    assert(text.last() == value[value.len() - 1]);
    assert(text[0] == if name.len() > 0 {
        name[0]
    } else {
        value[0]
    });
    lemma_trimmed_around(lead, text, trail);
    lemma_last_piece(name, value, '=');
    lemma_trimmed_around(none, value, none);
    assert(none + value + none == value);
}

/// The live half of the register and the sticky half never run into each other:
/// each says what its own four bits say, and nothing is said of a register with
/// none of them set.
pub proof fn register_halves_stay_apart(raw: u32, other: u32)
    ensures
        raw as int % 16 == other as int % 16 ==> Throttle::of(raw).now == Throttle::of(other).now,
        (raw as int / 0x10000) % 16 == (other as int / 0x10000) % 16 ==> Throttle::of(
            raw,
        ).since_boot == Throttle::of(other).since_boot,
        Throttle::of(raw).now.said(Tense::Now).len() == 0 <==> raw as int % 16 == 0,
        Throttle::of(raw).since_boot.said(Tense::SinceBoot).len() == 0 <==> (raw as int / 0x10000)
            % 16 == 0,
{
}

/// Each condition is told by its own bit of the register: the lowest four say
/// what is the case now, and the same four sixteen places up what has been the
/// case since boot.
pub proof fn each_condition_has_its_bit(raw: u32)
    ensures
        Throttle::of(raw).now.under_voltage <==> raw & 0x1 != 0,
        Throttle::of(raw).now.arm_capped <==> raw & 0x2 != 0,
        Throttle::of(raw).now.throttled <==> raw & 0x4 != 0,
        Throttle::of(raw).now.soft_temp_limit <==> raw & 0x8 != 0,
        Throttle::of(raw).since_boot.under_voltage <==> raw & 0x10000 != 0,
        Throttle::of(raw).since_boot.arm_capped <==> raw & 0x20000 != 0,
        Throttle::of(raw).since_boot.throttled <==> raw & 0x40000 != 0,
        Throttle::of(raw).since_boot.soft_temp_limit <==> raw & 0x80000 != 0,
        Throttle::of(raw).raw == raw,
        Throttle::of(raw).nothing_set() <==> raw & 0xf000f == 0,
{
    assert((raw & 0x1 != 0) == (raw % 16 % 2 == 1)) by (bit_vector);
    assert((raw & 0x2 != 0) == (raw % 16 / 2 % 2 == 1)) by (bit_vector);
    assert((raw & 0x4 != 0) == (raw % 16 / 4 % 2 == 1)) by (bit_vector);
    assert((raw & 0x8 != 0) == (raw % 16 / 8 % 2 == 1)) by (bit_vector);
    assert((raw & 0x10000 != 0) == (raw / 0x10000 % 16 % 2 == 1)) by (bit_vector);
    assert((raw & 0x20000 != 0) == (raw / 0x10000 % 16 / 2 % 2 == 1)) by (bit_vector);
    assert((raw & 0x40000 != 0) == (raw / 0x10000 % 16 / 4 % 2 == 1)) by (bit_vector);
    assert((raw & 0x80000 != 0) == (raw / 0x10000 % 16 / 8 % 2 == 1)) by (bit_vector);
    assert((raw & 0xf000f == 0) == (raw & 0x1 == 0 && raw & 0x2 == 0 && raw & 0x4 == 0 && raw & 0x8
        == 0 && raw & 0x10000 == 0 && raw & 0x20000 == 0 && raw & 0x40000 == 0 && raw & 0x80000
        == 0)) by (bit_vector);
}

/// Each condition is said exactly when it holds, the supply first, and nothing
/// else is; what sags now is said louder than what has sagged.
pub proof fn each_condition_is_said(flags: ThrottleFlags)
    ensures
        flags.said(Tense::Now).contains("UNDER-VOLTAGE NOW"@) <==> flags.under_voltage,
        flags.said(Tense::Now).contains("clock capped"@) <==> flags.arm_capped,
        flags.said(Tense::Now).contains("throttled"@) <==> flags.throttled,
        flags.said(Tense::Now).contains("soft temp limit"@) <==> flags.soft_temp_limit,
        flags.said(Tense::SinceBoot).contains("under-voltage"@) <==> flags.under_voltage,
        flags.said(Tense::SinceBoot).contains("clock capped"@) <==> flags.arm_capped,
        flags.said(Tense::SinceBoot).contains("throttled"@) <==> flags.throttled,
        flags.said(Tense::SinceBoot).contains("temp limit"@) <==> flags.soft_temp_limit,
        flags.under_voltage ==> flags.said(Tense::Now)[0] == "UNDER-VOLTAGE NOW"@,
        flags.said(Tense::Now).len() == flags.said(Tense::SinceBoot).len() == (
        if flags.under_voltage {
            1int
        } else {
            0
        }) + (if flags.arm_capped {
            1int
        } else {
            0
        }) + (if flags.throttled {
            1int
        } else {
            0
        }) + (if flags.soft_temp_limit {
            1int
        } else {
            0
        }),
        flags.some_set() <==> flags.said(Tense::Now).len() > 0,
{
    reveal_strlit("UNDER-VOLTAGE NOW");
    reveal_strlit("under-voltage");
    reveal_strlit("clock capped");
    reveal_strlit("throttled");
    reveal_strlit("soft temp limit");
    reveal_strlit("temp limit");
    let a = "UNDER-VOLTAGE NOW"@;
    let b = "under-voltage"@;
    let c = "clock capped"@;
    let d = "throttled"@;
    let e = "soft temp limit"@;
    let f = "temp limit"@;
    assert(a.len() == 17 && b.len() == 13 && c.len() == 12 && d.len() == 9 && e.len() == 15
        && f.len() == 10);
    lemma_said_holds(flags, Tense::Now, a, c, d, e);
    lemma_said_holds(flags, Tense::SinceBoot, b, c, d, f);
}

proof fn lemma_said_holds(
    flags: ThrottleFlags,
    tense: Tense,
    a: Seq<char>,
    c: Seq<char>,
    d: Seq<char>,
    e: Seq<char>,
)
    requires
        a != c && a != d && a != e && c != d && c != e && d != e,
        a == match tense {
            Tense::Now => "UNDER-VOLTAGE NOW"@,
            Tense::SinceBoot => "under-voltage"@,
        },
        c == "clock capped"@,
        d == "throttled"@,
        e == match tense {
            Tense::Now => "soft temp limit"@,
            Tense::SinceBoot => "temp limit"@,
        },
    ensures
        flags.said(tense).contains(a) <==> flags.under_voltage,
        flags.said(tense).contains(c) <==> flags.arm_capped,
        flags.said(tense).contains(d) <==> flags.throttled,
        flags.said(tense).contains(e) <==> flags.soft_temp_limit,
{
    let s = flags.said(tense);
    let at_c = if flags.under_voltage {
        1int
    } else {
        0
    };
    let at_d = at_c + if flags.arm_capped {
        1int
    } else {
        0
    };
    let at_e = at_d + if flags.throttled {
        1int
    } else {
        0
    };
    if flags.under_voltage {
        assert(s[0] == a);
    }
    if flags.arm_capped {
        assert(s[at_c] == c);
    }
    if flags.throttled {
        assert(s[at_d] == d);
    }
    if flags.soft_temp_limit {
        assert(s[at_e] == e);
    }
}

/// A temperature reads back in thousandths of a degree, above or below freezing
/// and whatever the white space; a zero means that the sensor is not there.
pub proof fn temperature_reads_back(milli: i64, lead: Seq<char>, trail: Seq<char>)
    requires
        milli > i64::MIN,
        forall|i: int| 0 <= i < lead.len() ==> is_space(#[trigger] lead[i]),
        forall|i: int| 0 <= i < trail.len() ==> is_space(#[trigger] trail[i]),
    ensures
        millidegrees_in(lead + signed_dec(milli as int) + trail) == if milli == 0 {
            None
        } else {
            Some(milli as int)
        },
{
    lemma_signed_reads_back(milli as int);
    lemma_trimmed_around(lead, signed_dec(milli as int), trail);
}

/// The clock is shown in megahertz, from the kernel's kilohertz where it gives
/// them and from the firmware's hertz where it does not.
pub proof fn clock_is_in_megahertz(
    khz: u64,
    hz: u64,
    name: Seq<char>,
    lead: Seq<char>,
    trail: Seq<char>,
    clock: Option<Seq<char>>,
)
    requires
        name.len() == 0 || (name.last() == '=' && !is_space(name[0])),
        forall|i: int| 0 <= i < lead.len() ==> is_space(#[trigger] lead[i]),
        forall|i: int| 0 <= i < trail.len() ==> is_space(#[trigger] trail[i]),
    ensures
        clock_in(Some(lead + dec(khz as nat) + trail), clock) == Some(khz as int / 1000),
        clock_in(None, Some(lead + (name + dec(hz as nat)) + trail)) == Some(hz as int / 1_000_000),
        clock_in(None, None) is None,
{
    lemma_dec_is_no_space(khz as nat);
    lemma_dec_is_no_space(hz as nat);
    lemma_dec_reads_back(hz as nat);
    lemma_trimmed_around(lead, dec(khz as nat), trail);
    lemma_number_reads_back(khz as nat, u64::MAX as int);
    lemma_number_reads_back(hz as nat, u64::MAX as int);
    let plain = dec(hz as nat);
    assert forall|i: int| 0 <= i < plain.len() implies #[trigger] plain[i] != '=' && !is_space(
        plain[i],
    ) by {
        assert('0' <= plain[i] <= '9');
    }
    lemma_value_stands(name, plain, lead, trail);
}

/// The fullness of a filesystem is what is used of what is used or can still be
/// written; what is held back for root counts as neither.
pub proof fn fullness_leaves_out_what_is_held_back(usage: DiskUsage, other: DiskUsage)
    requires
        usage.used_kb + usage.avail_kb <= u64::MAX,
    ensures
        usage.fullness().num == usage.used_kb,
        usage.fullness().den == usage.used_kb + usage.avail_kb,
        usage.used_kb == other.used_kb && usage.avail_kb == other.avail_kb ==> usage.fullness()
            == other.fullness(),
{
}

/// A row of `df` gives the total, the used and the available blocks in that
/// order, and all that stands behind the percentage is where it is mounted.
/// What is not a device of its own is left out.
pub proof fn filesystem_reads_back(line: Seq<char>, usage: DiskUsage)
    requires
        words_of(line).len() > 5,
        words_of(line)[1] == dec(usage.total_kb as nat),
        words_of(line)[2] == dec(usage.used_kb as nat),
        words_of(line)[3] == dec(usage.avail_kb as nat),
    ensures
        has_prefix(words_of(line)[0], "/dev/"@) ==> df_row(line) == Some(
            (Mounted {
                source: words_of(line)[0],
                mount: joined(words_of(line).skip(5), " "@),
                usage,
            }),
        ),
        !has_prefix(words_of(line)[0], "/dev/"@) ==> df_row(line) is None,
{
    lemma_number_reads_back(usage.total_kb as nat, u64::MAX as int);
    lemma_number_reads_back(usage.used_kb as nat, u64::MAX as int);
    lemma_number_reads_back(usage.avail_kb as nat, u64::MAX as int);
}

/// The first line of `df` is its heading, and of the rest each device is taken
/// where it is first listed.
pub proof fn devices_are_taken_where_first_listed(rows: Seq<Seq<char>>, line: Seq<char>)
    ensures
        match df_row(line) {
            Some(row) => if exists|i: int|
                0 <= i < df_rows(rows).len() && (#[trigger] df_rows(rows)[i]).source == row.source {
                df_rows(rows.push(line)) == df_rows(rows)
            } else {
                df_rows(rows.push(line)) == df_rows(rows).push(row)
            },
            None => df_rows(rows.push(line)) == df_rows(rows),
        },
{
    assert(rows.push(line).drop_last() == rows);
    if let Some(row) = df_row(line) {
        if exists|i: int|
            0 <= i < df_rows(rows).len() && (#[trigger] df_rows(rows)[i]).source == row.source {
            let i = choose|i: int|
                0 <= i < df_rows(rows).len() && (#[trigger] df_rows(rows)[i]).source == row.source;
            assert(df_rows(rows)[i].source == row.source);
            assert(lists_source(df_rows(rows), row.source));
        } else {
            assert(!lists_source(df_rows(rows), row.source));
        }
    }
}

/// The pane's own disk is the first that is mounted at `/`, and there is none
/// where nothing is.
pub proof fn own_disk_is_the_root(rows: Seq<Mounted>)
    ensures
        root_usage(rows) is None <==> forall|i: int|
            0 <= i < rows.len() ==> (#[trigger] rows[i]).mount != "/"@,
        root_usage(rows) matches Some(usage) ==> exists|k: int|
            0 <= k < rows.len() && (#[trigger] rows[k]).mount == "/"@ && rows[k].usage == usage
                && forall|j: int| 0 <= j < k ==> (#[trigger] rows[j]).mount != "/"@,
    decreases rows.len(),
{
    if rows.len() > 0 {
        if rows[0].mount == "/"@ {
            assert(rows[0].usage == root_usage(rows)->0);
        } else {
            let rest = rows.drop_first();
            own_disk_is_the_root(rest);
            assert(forall|i: int| 0 <= i < rest.len() ==> #[trigger] rest[i] == rows[i + 1]);
            if let Some(usage) = root_usage(rest) {
                let k = choose|k: int|
                    0 <= k < rest.len() && (#[trigger] rest[k]).mount == "/"@ && rest[k].usage
                        == usage && forall|j: int|
                        0 <= j < k ==> (#[trigger] rest[j]).mount != "/"@;
                assert(rows[k + 1] == rest[k]);
                assert forall|j: int| 0 <= j < k + 1 implies (#[trigger] rows[j]).mount
                    != "/"@ by {
                    if j > 0 {
                        assert(rows[j] == rest[j - 1]);
                    }
                }
            } else {
                assert forall|i: int| 0 <= i < rows.len() implies (#[trigger] rows[i]).mount
                    != "/"@ by {
                    if i > 0 {
                        assert(rows[i] == rest[i - 1]);
                    }
                }
            }
        }
    }
}

/// A card or a drive is counted whole and never again by its partitions.
pub proof fn partitions_are_not_counted_again(n: nat, m: nat, letter: char)
    requires
        'a' <= letter <= 'z',
    ensures
        whole_disk("mmcblk"@ + dec(n)),
        !whole_disk("mmcblk"@ + dec(n) + seq!['p'] + dec(m)),
        whole_disk("sd"@ + seq![letter]),
        !whole_disk("sd"@ + seq![letter] + dec(m)),
        whole_disk("nvme"@ + dec(n) + seq!['n'] + dec(m)),
        !whole_disk("nvme"@ + dec(n) + seq!['n'] + dec(m) + seq!['p'] + dec(m)),
        !whole_disk("loop"@ + dec(n)),
{
    reveal_strlit("mmcblk");
    reveal_strlit("sd");
    reveal_strlit("nvme");
    reveal_strlit("loop");
    lemma_dec_reads_back(n);
    lemma_dec_reads_back(m);
    let card = "mmcblk"@ + dec(n);
    assert(card.take(6) == "mmcblk"@);
    assert(card.skip(6) == dec(n));
    let part = "mmcblk"@ + dec(n) + seq!['p'] + dec(m);
    assert(part.take(6) == "mmcblk"@);
    assert(part.skip(6)[dec(n).len() as int] == 'p');
    let drive = "sd"@ + seq![letter];
    assert(drive.take(2) == "sd"@);
    assert(drive.skip(2) == seq![letter]);
    assert(!has_prefix(drive, "mmcblk"@) && !has_prefix(drive, "nvme"@));
    let sub = "sd"@ + seq![letter] + dec(m);
    assert(sub.take(2) == "sd"@);
    assert(sub[0] == 's');
    lemma_other_start(sub, "mmcblk"@);
    lemma_other_start(sub, "nvme"@);
    assert(sub.skip(2).len() > 1);
    let stick = "nvme"@ + dec(n) + seq!['n'] + dec(m);
    assert(stick.take(4) == "nvme"@);
    assert(stick[0] == 'n');
    lemma_other_start(stick, "mmcblk"@);
    let rest = stick.skip(4);
    assert(rest[dec(n).len() as int] == 'n');
    assert(rest == dec(n) + seq!['n'] + dec(m));
    assert forall|i: int| 0 <= i < rest.len() implies rest[i] != 'p' by {
        if i < dec(n).len() {
            assert('0' <= dec(n)[i] <= '9');
        } else if i > dec(n).len() {
            assert(rest[i] == dec(m)[i - dec(n).len() - 1]);
            assert('0' <= dec(m)[i - dec(n).len() - 1] <= '9');
        }
    }
    let piece = stick + seq!['p'] + dec(m);
    assert(piece == "nvme"@ + dec(n) + seq!['n'] + dec(m) + seq!['p'] + dec(m));
    assert(piece.take(4) == "nvme"@);
    assert(piece[0] == 'n');
    lemma_other_start(piece, "mmcblk"@);
    assert(piece.skip(4)[rest.len() as int] == 'p');
    let image = "loop"@ + dec(n);
    assert(image[0] == 'l');
    lemma_other_start(image, "mmcblk"@);
    lemma_other_start(image, "nvme"@);
    lemma_other_start(image, "sd"@);
}

proof fn lemma_other_start(s: Seq<char>, prefix: Seq<char>)
    requires
        s.len() > 0,
        prefix.len() > 0,
        s[0] != prefix[0],
    ensures
        !has_prefix(s, prefix),
{
    if has_prefix(s, prefix) {
        assert(s.take(prefix.len() as int)[0] == s[0]);
    }
}

/// The sectors of every whole disk are added up, those read from the sixth
/// field and those written from the tenth; nothing else is.
pub proof fn sectors_of_whole_disks_are_added(rows: Seq<Seq<char>>, line: Seq<char>)
    ensures
        ({
            let f = words_of(line);
            let (read, written) = sectors(rows);
            let (read_all, written_all) = sectors(rows.push(line));
            &&& f.len() > 2 && whole_disk(f[2]) && read + field_or_zero(f, 5) <= u64::MAX
                && written + field_or_zero(f, 9) <= u64::MAX ==> read_all == read + field_or_zero(
                f,
                5,
            ) && written_all == written + field_or_zero(f, 9)
            &&& f.len() <= 2 || !whole_disk(f[2]) ==> read_all == read && written_all == written
        }),
{
    assert(rows.push(line).drop_last() == rows);
}

/// A missing field counts as nothing and a written one as itself.
pub proof fn fields_count_as_written(fields: Seq<Seq<char>>, at: int, n: u64)
    ensures
        at >= fields.len() || at < 0 ==> field_or_zero(fields, at) == 0,
        0 <= at < fields.len() && fields[at] == dec(n as nat) ==> field_or_zero(fields, at) == n,
{
    lemma_number_reads_back(n as nat, u64::MAX as int);
}

/// A rate is the sectors moved since the last sample, at half a kilobyte each,
/// over the time since then; a counter that went backwards moved nothing.
pub proof fn disk_rate_is_sectors_moved(now: u64, before: u64, nanos: u64)
    ensures
        now < before ==> sector_rate(now, before, nanos).bytes == 0,
        now >= before && (now - before) * 512 <= u64::MAX ==> sector_rate(now, before, nanos).bytes
            == (now - before) * 512,
        sector_rate(now, before, nanos).nanos == nanos,
{
}

/// Reading and writing keep to their own counters, and without a reading to
/// compare with, or without the file, the rates stay as they were.
pub proof fn disk_rates_keep_apart(before: HealthPane, text: Seq<char>, now: u64)
    requires
        before.last_sample is Some,
        before.last_sample->0 < now,
    ensures
        io_after(before, None, now).0 == before.io,
        io_after(before, None, now).1 == before.prev_sectors,
        before.prev_sectors is None ==> io_after(before, Some(text), now).0 == before.io,
        before.prev_sectors matches Some((r, w)) ==> io_after(before, Some(text), now).0.read
            == sector_rate(
            sectors(lines_of(trimmed(text))).0 as u64,
            r,
            (now - before.last_sample->0) as u64,
        ) && io_after(before, Some(text), now).0.write == sector_rate(
            sectors(lines_of(trimmed(text))).1 as u64,
            w,
            (now - before.last_sample->0) as u64,
        ),
{
}

/// Time never runs backwards, and none has passed before the first sample.
pub proof fn time_since_the_last_sample(now: u64, then: Option<u64>)
    ensures
        then is None ==> elapsed(now, then) == 0,
        then matches Some(t) ==> t > now ==> elapsed(now, then) == 0,
        then matches Some(t) ==> t <= now ==> t + elapsed(now, then) == now,
{
}

/// A mount is called by the last part of its path; the root, which has none, by
/// its whole path.
pub proof fn mount_goes_by_its_last_part(head: Seq<char>, last: Seq<char>)
    requires
        last.len() > 0,
        !last.contains('/'),
        head.len() > 0,
        head.last() == '/',
    ensures
        mount_label(head + last) == last,
        mount_label("/"@) == "/"@,
        mount_label(head) == head,
{
    assert forall|i: int| 0 <= i < last.len() implies #[trigger] last[i] != '/' by {
        assert(last.contains(last[i]));
    }
    lemma_last_piece(head, last, '/');
    reveal_strlit("/");
    let none = Seq::<char>::empty();
    lemma_last_piece(head, none, '/');
    assert(head + none == head);
    lemma_last_piece("/"@, none, '/');
    assert("/"@ + none == "/"@);
}

/// A voltage reads back in millionths, with its unit or without, whatever name
/// stands before it.
pub proof fn voltage_reads_back(
    whole: nat,
    part: Seq<char>,
    millionths: nat,
    name: Seq<char>,
    lead: Seq<char>,
    trail: Seq<char>,
)
    requires
        part.len() == 6,
        all_digits(part),
        digits_value(part, 10) == Some(millionths as int),
        whole * 1_000_000 + millionths <= i64::MAX,
        name.len() == 0 || (name.last() == '=' && !is_space(name[0])),
        forall|i: int| 0 <= i < lead.len() ==> is_space(#[trigger] lead[i]),
        forall|i: int| 0 <= i < trail.len() ==> is_space(#[trigger] trail[i]),
    ensures
        ({
            let figure = dec(whole) + seq!['.'] + part;
            let value = Some((whole * 1_000_000 + millionths) as int);
            &&& volts_in(lead + (name + figure) + trail) == value
            &&& volts_in(lead + (name + figure.push('V')) + trail) == value
        }),
{
    let figure = dec(whole) + seq!['.'] + part;
    let with_unit = figure.push('V');
    lemma_dec_reads_back(whole);
    lemma_dec_is_no_space(whole);
    assert forall|i: int| 0 <= i < figure.len() implies #[trigger] figure[i] != '=' && !is_space(
        figure[i],
    ) by {
        let n = dec(whole).len();
        if i < n {
            assert(figure[i] == dec(whole)[i]);
            assert('0' <= dec(whole)[i] <= '9');
        } else if i > n {
            assert(figure[i] == part[i - n - 1]);
        }
    }
    assert forall|i: int| 0 <= i < with_unit.len() implies #[trigger] with_unit[i] != '='
        && !is_space(with_unit[i]) by {
        if i < figure.len() {
            assert(with_unit[i] == figure[i]);
        }
    }
    assert(figure.last() == part[5]);
    assert(with_unit.drop_last() == figure);
    assert(without_unit(figure) == figure);
    assert(without_unit(with_unit) == figure);
    lemma_value_stands(name, figure, lead, trail);
    lemma_value_stands(name, with_unit, lead, trail);
    decimals_read_back_in_millionths(whole, part, millionths);
}

} // verus!
