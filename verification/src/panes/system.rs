//! CPU, memory and processes.
//!
//! A CPU meter per core, one aggregate history graph, the memory split and the
//! top consumers: the summary you read when something is wrong.

use std::collections::HashMap;

use vstd::prelude::*;

use super::health::{elapsed, elapsed_since, field_or_zero, number_in, sum_up};
use crate::numeric::{multiply_up, product_up, Ratio};
use crate::text::{
    chars_of, count, dec, decimal, find_char, find_last_char, first_of, from_utf8_lossy, has_prefix,
    is_space, join, joined, last_of, lemma_dec_is_no_space, lemma_dec_reads_back,
    lemma_digits_are_not_negative, lemma_first_of, lemma_joined_shows, lemma_last_of,
    lemma_number_is_not_negative, lemma_number_reads_back, lemma_trimmed_around,
    lemma_words_nonempty, lines, lines_of, lossy_text, micros_in, no_texts, number, parse_i64,
    parse_micros, parse_u64, parse_whole, point_moved, push_text, same, signed_number, skip,
    split_at_char, split_char, starts_with, string_of, take, texts, trim, trimmed, whole_in,
    whole_part_reads_back, words, words_of, words_read_back, written,
};

verus! {

/// Aggregate CPU samples kept for the history graph.
pub const HISTORY_LEN: usize = 480;

/// Per-core samples kept for the sparkline beside each core meter.
pub const CORE_HISTORY_LEN: usize = 64;

/// Rows deep enough to cover any pane, and no deeper: only these get their
/// command line read.
pub const CMDLINE_ROWS: usize = 80;

/// One `cpu`/`cpuN` row of `/proc/stat`.
#[derive(Debug, Clone, Copy, PartialEq, Eq, Structural)]
pub struct CpuTimes {
    pub user: u64,
    pub nice: u64,
    pub system: u64,
    pub idle: u64,
    pub iowait: u64,
    pub irq: u64,
    pub softirq: u64,
    pub steal: u64,
}

impl Default for CpuTimes {
    fn default() -> (r: CpuTimes)
        ensures
            r == no_times(),
    {
        CpuTimes {
            user: 0,
            nice: 0,
            system: 0,
            idle: 0,
            iowait: 0,
            irq: 0,
            softirq: 0,
            steal: 0,
        }
    }
}

pub open spec fn no_times() -> CpuTimes {
    CpuTimes { user: 0, nice: 0, system: 0, idle: 0, iowait: 0, irq: 0, softirq: 0, steal: 0 }
}

impl CpuTimes {
    /// All ticks, or the largest count that fits.
    pub open spec fn all_ticks(self) -> int {
        sum_up(
            self.user + self.nice + self.system + self.idle + self.iowait + self.irq
                + self.softirq,
            self.steal as int,
        )
    }

    pub fn total(&self) -> (r: u64)
        ensures
            r == self.all_ticks(),
    {
        let sum: u128 = self.user as u128 + self.nice as u128 + self.system as u128
            + self.idle as u128 + self.iowait as u128 + self.irq as u128 + self.softirq as u128
            + self.steal as u128;
        if sum > u64::MAX as u128 {
            u64::MAX
        } else {
            sum as u64
        }
    }

    /// Idle and waiting for I/O: a box waiting on a slow card is not busy.
    pub open spec fn idle_ticks(self) -> int {
        sum_up(self.idle as int, self.iowait as int)
    }

    pub fn idle_all(&self) -> (r: u64)
        ensures
            r == self.idle_ticks(),
    {
        self.idle.saturating_add(self.iowait)
    }

    /// The busy share of the ticks between `prev` and this. `None` where there
    /// is no usable delta: no ticks, or counters that went backwards.
    pub open spec fn busy_since(self, prev: CpuTimes) -> Option<Ratio> {
        let total = self.all_ticks() - prev.all_ticks();
        let idle = self.idle_ticks() - prev.idle_ticks();
        if total <= 0 {
            None
        } else {
            let busy = if idle <= 0 {
                total
            } else if idle >= total {
                0
            } else {
                total - idle
            };
            Some(Ratio { num: busy as u64, den: total as u64 })
        }
    }

    pub fn usage_since(&self, prev: &CpuTimes) -> (r: Option<Ratio>)
        ensures
            r == self.busy_since(*prev),
    {
        let now: u64 = self.total();
        let before: u64 = prev.total();
        if now <= before {
            return None;
        }
        let total: u64 = now - before;
        let idle: u64 = self.idle_all().saturating_sub(prev.idle_all());
        Some(Ratio::new(total.saturating_sub(idle), total))
    }
}

/// The numbers among some fields, in order; what is not one is passed over.
pub open spec fn numbers_among(fields: Seq<Seq<char>>) -> Seq<int>
    decreases fields.len(),
{
    if fields.len() == 0 {
        Seq::empty()
    } else {
        let before = numbers_among(fields.drop_last());
        match number(fields.last(), 10, u64::MAX as int) {
            Some(n) => before.push(n),
            None => before,
        }
    }
}

pub open spec fn number_or_zero(nums: Seq<int>, at: int) -> u64 {
    if 0 <= at < nums.len() {
        nums[at] as u64
    } else {
        0
    }
}

/// The label and the ticks of a `cpu`/`cpuN` line. The columns past the
/// eighth, guest time, are already counted in the first two.
pub open spec fn cpu_line(line: Seq<char>) -> Option<(Seq<char>, CpuTimes)> {
    let f = words_of(line);
    let nums = numbers_among(f.skip(1));
    if f.len() > 0 && has_prefix(f[0], "cpu"@) && nums.len() >= 4 {
        Some(
            (
                f[0],
                CpuTimes {
                    user: number_or_zero(nums, 0),
                    nice: number_or_zero(nums, 1),
                    system: number_or_zero(nums, 2),
                    idle: number_or_zero(nums, 3),
                    iowait: number_or_zero(nums, 4),
                    irq: number_or_zero(nums, 5),
                    softirq: number_or_zero(nums, 6),
                    steal: number_or_zero(nums, 7),
                },
            ),
        )
    } else {
        None
    }
}

pub open spec fn ints(v: Seq<u64>) -> Seq<int> {
    Seq::new(v.len(), |i: int| v[i] as int)
}

fn at_or_zero(nums: &Vec<u64>, at: usize) -> (r: u64)
    ensures
        r == number_or_zero(ints(nums@), at as int),
{
    if at < nums.len() {
        nums[at]
    } else {
        0
    }
}

pub fn parse_cpu_line(line: &str) -> (r: Option<(String, CpuTimes)>)
    ensures
        match r {
            Some((label, times)) => cpu_line(line@) == Some((label@, times)),
            None => cpu_line(line@) is None,
        },
{
    let fields = words(line);
    let ghost f = texts(fields@);
    if fields.len() == 0 {
        return None;
    }
    assert(f[0] == fields@[0]@);
    if !starts_with(fields[0].as_str(), "cpu") {
        return None;
    }
    let mut nums: Vec<u64> = Vec::new();
    let mut i: usize = 1;
    assert(f.skip(1).take(0) == Seq::<Seq<char>>::empty());
    assert(ints(nums@) == Seq::<int>::empty());
    while i < fields.len()
        invariant
            1 <= i <= fields@.len(),
            f == texts(fields@),
            ints(nums@) == numbers_among(f.skip(1).take(i - 1)),
        decreases fields@.len() - i,
    {
        let ghost here = f.skip(1).take(i as int);
        assert(here.drop_last() == f.skip(1).take(i - 1));
        assert(here.last() == fields@[i as int]@);
        if let Some(n) = parse_u64(fields[i].as_str()) {
            let ghost before = ints(nums@);
            nums.push(n);
            assert(ints(nums@) == before.push(n as int));
        }
        i = i + 1;
    }
    assert(f.skip(1).take(i - 1) == f.skip(1));
    if nums.len() < 4 {
        return None;
    }
    Some(
        (
            fields[0].clone(),
            CpuTimes {
                user: at_or_zero(&nums, 0),
                nice: at_or_zero(&nums, 1),
                system: at_or_zero(&nums, 2),
                idle: at_or_zero(&nums, 3),
                iowait: at_or_zero(&nums, 4),
                irq: at_or_zero(&nums, 5),
                softirq: at_or_zero(&nums, 6),
                steal: at_or_zero(&nums, 7),
            },
        ),
    )
}

/// The aggregate ticks and those of each core, in core order. Were there
/// several aggregate lines, the last would count.
pub open spec fn stat_rows(rows: Seq<Seq<char>>) -> (Option<CpuTimes>, Seq<CpuTimes>)
    decreases rows.len(),
{
    if rows.len() == 0 {
        (None, Seq::empty())
    } else {
        let (aggregate, cores) = stat_rows(rows.drop_last());
        match cpu_line(rows.last()) {
            Some((label, times)) => if label == "cpu"@ {
                (Some(times), cores)
            } else {
                (aggregate, cores.push(times))
            },
            None => (aggregate, cores),
        }
    }
}

/// Splits `/proc/stat` into the aggregate line and the per-core lines.
pub fn parse_stat(text: &str) -> (r: (Option<CpuTimes>, Vec<CpuTimes>))
    ensures
        (r.0, r.1@) == stat_rows(lines_of(text@)),
{
    let all = lines(text);
    let ghost rows = lines_of(text@);
    let mut aggregate: Option<CpuTimes> = None;
    let mut cores: Vec<CpuTimes> = Vec::new();
    let mut i: usize = 0;
    assert(rows.take(0) == Seq::<Seq<char>>::empty());
    while i < all.len()
        invariant
            i <= all@.len(),
            texts(all@) == rows,
            (aggregate, cores@) == stat_rows(rows.take(i as int)),
        decreases all@.len() - i,
    {
        let ghost here = rows.take(i + 1);
        assert(here.drop_last() == rows.take(i as int));
        assert(here.last() == all@[i as int]@);
        match parse_cpu_line(all[i].as_str()) {
            None => {},
            Some((label, times)) => {
                if same(label.as_str(), "cpu") {
                    aggregate = Some(times);
                } else {
                    cores.push(times);
                }
            },
        }
        i = i + 1;
    }
    assert(rows.take(i as int) == rows);
    (aggregate, cores)
}

#[derive(Debug, Clone, Copy, PartialEq, Eq, Structural)]
pub struct MemInfo {
    pub total_kb: u64,
    pub available_kb: u64,
    pub swap_total_kb: u64,
    pub swap_free_kb: u64,
    pub buffers_kb: u64,
    pub cached_kb: u64,
}

pub open spec fn no_memory() -> MemInfo {
    MemInfo {
        total_kb: 0,
        available_kb: 0,
        swap_total_kb: 0,
        swap_free_kb: 0,
        buffers_kb: 0,
        cached_kb: 0,
    }
}

impl Default for MemInfo {
    fn default() -> (r: MemInfo)
        ensures
            r == no_memory(),
    {
        MemInfo {
            total_kb: 0,
            available_kb: 0,
            swap_total_kb: 0,
            swap_free_kb: 0,
            buffers_kb: 0,
            cached_kb: 0,
        }
    }
}

/// A difference, or zero where it would be negative.
pub open spec fn less(a: u64, b: u64) -> u64 {
    if a < b {
        0
    } else {
        (a - b) as u64
    }
}

impl MemInfo {
    pub fn used_kb(&self) -> (r: u64)
        ensures
            r == less(self.total_kb, self.available_kb),
    {
        self.total_kb.saturating_sub(self.available_kb)
    }

    /// The used share of all memory.
    pub fn used_pct(&self) -> (r: Ratio)
        ensures
            r == (Ratio {
                num: less(self.total_kb, self.available_kb),
                den: self.total_kb,
            }),
    {
        Ratio::new(self.used_kb(), self.total_kb)
    }

    pub fn swap_used_kb(&self) -> (r: u64)
        ensures
            r == less(self.swap_total_kb, self.swap_free_kb),
    {
        self.swap_total_kb.saturating_sub(self.swap_free_kb)
    }
}

/// The name and the value of a `/proc/meminfo` line: what stands before the
/// first colon, and the number that begins the rest.
pub open spec fn meminfo_line(line: Seq<char>) -> Option<(Seq<char>, int)> {
    match first_of(line, ':') {
        Some(at) => {
            let f = words_of(line.skip(at + 1));
            match number(f[0], 10, u64::MAX as int) {
                Some(n) if f.len() > 0 => Some((line.take(at), n)),
                _ => None,
            }
        },
        None => None,
    }
}

/// `mem` with the figure of that name replaced, if it is one that is kept.
pub open spec fn with_figure(mem: MemInfo, key: Seq<char>, value: u64) -> MemInfo {
    if key == "MemTotal"@ {
        MemInfo { total_kb: value, ..mem }
    } else if key == "MemAvailable"@ {
        MemInfo { available_kb: value, ..mem }
    } else if key == "SwapTotal"@ {
        MemInfo { swap_total_kb: value, ..mem }
    } else if key == "SwapFree"@ {
        MemInfo { swap_free_kb: value, ..mem }
    } else if key == "Buffers"@ {
        MemInfo { buffers_kb: value, ..mem }
    } else if key == "Cached"@ {
        MemInfo { cached_kb: value, ..mem }
    } else {
        mem
    }
}

/// The memory figures in the lines of `/proc/meminfo`.
pub open spec fn meminfo_rows(rows: Seq<Seq<char>>) -> MemInfo
    decreases rows.len(),
{
    if rows.len() == 0 {
        no_memory()
    } else {
        let before = meminfo_rows(rows.drop_last());
        match meminfo_line(rows.last()) {
            Some((key, value)) => with_figure(before, key, value as u64),
            None => before,
        }
    }
}

fn read_meminfo_line(line: &str) -> (r: Option<(String, u64)>)
    ensures
        match r {
            Some((key, value)) => meminfo_line(line@) == Some((key@, value as int)),
            None => meminfo_line(line@) is None,
        },
{
    let _: usize = count(line);
    match find_char(line, ':') {
        None => None,
        Some(at) => {
            let fields = words(skip(line, at + 1).as_str());
            if fields.len() == 0 {
                return None;
            }
            assert(texts(fields@)[0] == fields@[0]@);
            match parse_u64(fields[0].as_str()) {
                Some(n) => Some((take(line, at), n)),
                None => None,
            }
        },
    }
}

pub fn parse_meminfo(text: &str) -> (r: MemInfo)
    ensures
        r == meminfo_rows(lines_of(text@)),
{
    let all = lines(text);
    let ghost rows = lines_of(text@);
    let mut mem = MemInfo::default();
    let mut i: usize = 0;
    assert(rows.take(0) == Seq::<Seq<char>>::empty());
    while i < all.len()
        invariant
            i <= all@.len(),
            texts(all@) == rows,
            mem == meminfo_rows(rows.take(i as int)),
        decreases all@.len() - i,
    {
        let ghost here = rows.take(i + 1);
        assert(here.drop_last() == rows.take(i as int));
        assert(here.last() == all@[i as int]@);
        if let Some((key, value)) = read_meminfo_line(all[i].as_str()) {
            let k = key.as_str();
            if same(k, "MemTotal") {
                mem.total_kb = value;
            } else if same(k, "MemAvailable") {
                mem.available_kb = value;
            } else if same(k, "SwapTotal") {
                mem.swap_total_kb = value;
            } else if same(k, "SwapFree") {
                mem.swap_free_kb = value;
            } else if same(k, "Buffers") {
                mem.buffers_kb = value;
            } else if same(k, "Cached") {
                mem.cached_kb = value;
            }
        }
        i = i + 1;
    }
    assert(rows.take(i as int) == rows);
    mem
}

/// The load averages, in millionths, and the tasks in `/proc/loadavg`.
#[derive(Debug, Default, Clone, Copy, PartialEq, Eq, Structural)]
pub struct LoadAvg {
    pub one: i64,
    pub five: i64,
    pub fifteen: i64,
    pub runnable: u64,
    pub tasks: u64,
}

/// The runnable and the total tasks in a field such as `2/345`.
pub open spec fn tasks_in(field: Seq<char>) -> Option<(int, int)> {
    match first_of(field, '/') {
        Some(at) => {
            let r = number(field.take(at), 10, u64::MAX as int);
            let t = number(field.skip(at + 1), 10, u64::MAX as int);
            if r is Some && t is Some {
                Some((r->0, t->0))
            } else {
                None
            }
        },
        None => None,
    }
}

/// What `/proc/loadavg` says: three loads, and the tasks where they can be
/// read.
pub open spec fn loadavg_in(text: Seq<char>) -> Option<LoadAvg> {
    let f = words_of(text);
    let one = micros_in(f[0]);
    let five = micros_in(f[1]);
    let fifteen = micros_in(f[2]);
    if f.len() >= 3 && one is Some && five is Some && fifteen is Some {
        let (runnable, tasks) = if f.len() > 3 && tasks_in(f[3]) is Some {
            tasks_in(f[3])->0
        } else {
            (0, 0)
        };
        Some(
            LoadAvg {
                one: one->0 as i64,
                five: five->0 as i64,
                fifteen: fifteen->0 as i64,
                runnable: runnable as u64,
                tasks: tasks as u64,
            },
        )
    } else {
        None
    }
}

fn read_tasks(field: &str) -> (r: Option<(u64, u64)>)
    ensures
        match r {
            Some((a, b)) => tasks_in(field@) == Some((a as int, b as int)),
            None => tasks_in(field@) is None,
        },
{
    let _: usize = count(field);
    match find_char(field, '/') {
        None => None,
        Some(at) => {
            let left: Option<u64> = parse_u64(take(field, at).as_str());
            let right: Option<u64> = parse_u64(skip(field, at + 1).as_str());
            match (left, right) {
                (Some(a), Some(b)) => Some((a, b)),
                _ => None,
            }
        },
    }
}

pub fn parse_loadavg(text: &str) -> (r: Option<LoadAvg>)
    ensures
        r == loadavg_in(text@),
{
    let f = words(text);
    let n: usize = f.len();
    if n < 3 {
        return None;
    }
    assert(texts(f@)[0] == f@[0]@);
    assert(texts(f@)[1] == f@[1]@);
    assert(texts(f@)[2] == f@[2]@);
    match (
        parse_micros(f[0].as_str()),
        parse_micros(f[1].as_str()),
        parse_micros(f[2].as_str()),
    ) {
        (Some(one), Some(five), Some(fifteen)) => {
            let (runnable, tasks) = if n > 3 {
                assert(texts(f@)[3] == f@[3]@);
                match read_tasks(f[3].as_str()) {
                    Some(pair) => pair,
                    None => (0, 0),
                }
            } else {
                (0, 0)
            };
            Some(LoadAvg { one, five, fifteen, runnable, tasks })
        },
        _ => None,
    }
}

/// Whole seconds since boot, from the first field of `/proc/uptime`.
pub open spec fn uptime_in(text: Seq<char>) -> Option<int> {
    let f = words_of(text);
    if f.len() > 0 {
        whole_in(f[0])
    } else {
        None
    }
}

pub fn parse_uptime(text: &str) -> (r: Option<u64>)
    ensures
        match r {
            Some(n) => uptime_in(text@) == Some(n as int),
            None => uptime_in(text@) is None,
        },
{
    let f = words(text);
    if f.len() == 0 {
        return None;
    }
    assert(texts(f@)[0] == f@[0]@);
    parse_whole(f[0].as_str())
}

/// The fields of `/proc/<pid>/stat` that the pane uses.
#[derive(Debug, PartialEq, Eq)]
pub struct PidStat {
    pub pid: i32,
    pub comm: String,
    pub state: char,
    /// User and system time, in clock ticks.
    pub cpu_ticks: u64,
    pub rss_pages: u64,
    pub threads: u64,
    /// Clock ticks after boot at which the process started. With the pid it
    /// tells a process from a later one that got the same pid.
    pub start_ticks: u64,
}

/// What a process's stat line says.
pub struct Process {
    pub pid: i32,
    pub comm: Seq<char>,
    pub state: char,
    pub cpu_ticks: u64,
    pub rss_pages: u64,
    pub threads: u64,
    pub start_ticks: u64,
}

impl View for PidStat {
    type V = Process;

    open spec fn view(&self) -> Process {
        Process {
            pid: self.pid,
            comm: self.comm@,
            state: self.state,
            cpu_ticks: self.cpu_ticks,
            rss_pages: self.rss_pages,
            threads: self.threads,
            start_ticks: self.start_ticks,
        }
    }
}

/// The process that a stat line describes.
///
/// The command stands between the first opening and the last closing
/// parenthesis and may itself hold blanks and parentheses. Of the fields after
/// it, which are numbered from three, the state is the third, user and system
/// time the fourteenth and fifteenth, the threads the twentieth, the start the
/// twenty-second and the resident pages the twenty-fourth. The last three may
/// be missing.
pub open spec fn process_in(text: Seq<char>) -> Option<Process> {
    match (first_of(text, '('), last_of(text, ')')) {
        (Some(open), Some(close)) if open <= close => {
            let pid = signed_number(trimmed(text.take(open)));
            let f = words_of(text.skip(close + 1));
            let utime = number(f[11], 10, u64::MAX as int);
            let stime = number(f[12], 10, u64::MAX as int);
            if pid is Some && i32::MIN <= pid->0 <= i32::MAX && f.len() > 12 && utime is Some
                && stime is Some {
                Some(
                    Process {
                        pid: pid->0 as i32,
                        comm: text.subrange(open + 1, close),
                        state: f[0][0],
                        cpu_ticks: sum_up(utime->0, stime->0) as u64,
                        rss_pages: field_or_zero(f, 21) as u64,
                        threads: field_or_zero(f, 17) as u64,
                        start_ticks: field_or_zero(f, 19) as u64,
                    },
                )
            } else {
                None
            }
        },
        _ => None,
    }
}

pub fn parse_pid_stat(text: &str) -> (r: Option<PidStat>)
    ensures
        match r {
            Some(p) => process_in(text@) == Some(p@),
            None => process_in(text@) is None,
        },
{
    let n: usize = count(text);
    let (open, close) = match (find_char(text, '('), find_last_char(text, ')')) {
        (Some(open), Some(close)) => (open, close),
        _ => {
            return None;
        },
    };
    if close < open {
        return None;
    }
    let pid: i32 = match parse_i64(trim(take(text, open).as_str()).as_str()) {
        Some(p) => if -0x8000_0000 <= p && p <= 0x7fff_ffff {
            p as i32
        } else {
            return None;
        },
        None => {
            return None;
        },
    };
    assert(open < close);
    let comm = string_of(&chars_of(text), open + 1, close);
    let fields = words(skip(text, close + 1).as_str());
    let ghost f = texts(fields@);
    if fields.len() <= 12 {
        return None;
    }
    assert(f[11] == fields@[11]@);
    assert(f[12] == fields@[12]@);
    match (parse_u64(fields[11].as_str()), parse_u64(fields[12].as_str())) {
        (Some(utime), Some(stime)) => {
            proof {
                lemma_words_nonempty(text@.skip(close + 1));
                assert(f[0] == fields@[0]@);
            }
            let state = fields[0].as_str().get_char(0);
            Some(
                PidStat {
                    pid,
                    comm,
                    state,
                    cpu_ticks: utime.saturating_add(stime),
                    rss_pages: number_in(&fields, 21),
                    threads: number_in(&fields, 17),
                    start_ticks: number_in(&fields, 19),
                },
            )
        },
        _ => None,
    }
}

/// What the process table is ordered by.
#[derive(Debug, Default, Clone, Copy, PartialEq, Eq, Structural)]
pub enum SortBy {
    #[default]
    Cpu,
    Memory,
}

impl SortBy {
    pub open spec fn other(self) -> SortBy {
        match self {
            SortBy::Cpu => SortBy::Memory,
            SortBy::Memory => SortBy::Cpu,
        }
    }

    pub fn next(self) -> (r: SortBy)
        ensures
            r == self.other(),
            r.other() == self,
    {
        match self {
            SortBy::Cpu => SortBy::Memory,
            SortBy::Memory => SortBy::Cpu,
        }
    }

    pub open spec fn heading(self) -> Seq<char> {
        match self {
            SortBy::Cpu => "CPU%"@,
            SortBy::Memory => "MEM"@,
        }
    }

    pub fn label(self) -> (r: &'static str)
        ensures
            r@ == self.heading(),
    {
        match self {
            SortBy::Cpu => "CPU%",
            SortBy::Memory => "MEM",
        }
    }
}

/// One row of the process table.
#[derive(Debug)]
pub struct ProcRow {
    pub pid: i32,
    pub name: String,
    pub state: char,
    /// The share of one core. A process with four busy threads is at four.
    pub cpu: Ratio,
    pub rss_kb: u64,
    pub threads: u64,
    /// The account that owns the process. Empty where it was not asked for.
    pub user: String,
    /// The arguments, with blanks between them. Empty for a kernel thread, and
    /// for every row too deep in the table to be shown.
    pub cmdline: String,
}

/// What a process row says.
pub struct Row {
    pub pid: i32,
    pub name: Seq<char>,
    pub state: char,
    pub cpu: Ratio,
    pub rss_kb: u64,
    pub threads: u64,
    pub user: Seq<char>,
    pub cmdline: Seq<char>,
}

impl View for ProcRow {
    type V = Row;

    open spec fn view(&self) -> Row {
        Row {
            pid: self.pid,
            name: self.name@,
            state: self.state,
            cpu: self.cpu,
            rss_kb: self.rss_kb,
            threads: self.threads,
            user: self.user@,
            cmdline: self.cmdline@,
        }
    }
}

pub open spec fn rows_of(v: Seq<ProcRow>) -> Seq<Row> {
    Seq::new(v.len(), |i: int| v[i]@)
}

pub open spec fn processes(v: Seq<PidStat>) -> Seq<Process> {
    Seq::new(v.len(), |i: int| v[i]@)
}

/// The share of one core that a process used in `nanos` nanoseconds, of which
/// ten million are a tick. A process that was not there before is at nothing,
/// not credited with its whole lifetime in one interval.
pub open spec fn core_share(ticks: u64, before: Option<u64>, nanos: u64) -> Ratio {
    match before {
        Some(b) if nanos > 0 => Ratio {
            num: product_up(less(ticks, b) as int, 10_000_000) as u64,
            den: nanos,
        },
        _ => Ratio { num: 0, den: 1 },
    }
}

/// The row for a process, before its account and command line are known.
pub open spec fn row_for(
    p: Process,
    prev: Map<i32, u64>,
    nanos: u64,
    page_bytes: u64,
) -> Row {
    Row {
        pid: p.pid,
        name: p.comm,
        state: p.state,
        cpu: core_share(
            p.cpu_ticks,
            if prev.contains_key(p.pid) {
                Some(prev[p.pid])
            } else {
                None
            },
            nanos,
        ),
        rss_kb: (product_up(p.rss_pages as int, page_bytes as int) / 1024) as u64,
        threads: p.threads,
        user: Seq::empty(),
        cmdline: Seq::empty(),
    }
}

/// Whether row `a` goes above row `b`. Whichever column was chosen, the other
/// one breaks its ties and the pid breaks those, so the order is stable between
/// frames while everything is idle.
pub open spec fn goes_above(a: Row, b: Row, sort: SortBy) -> bool {
    match sort {
        SortBy::Cpu => {
            ||| b.cpu.below(a.cpu)
            ||| !a.cpu.below(b.cpu) && (b.rss_kb < a.rss_kb || (b.rss_kb == a.rss_kb && a.pid
                < b.pid))
        },
        SortBy::Memory => {
            ||| b.rss_kb < a.rss_kb
            ||| b.rss_kb == a.rss_kb && (b.cpu.below(a.cpu) || (!a.cpu.below(b.cpu) && a.pid
                < b.pid))
        },
    }
}

/// A table with one more row, under every row that it does not go above.
pub open spec fn with_row(table: Seq<Row>, row: Row, sort: SortBy) -> Seq<Row>
    decreases table.len(),
{
    if table.len() == 0 || !goes_above(row, table.last(), sort) {
        table.push(row)
    } else {
        with_row(table.drop_last(), row, sort).push(table.last())
    }
}

/// The rows of some processes, in the chosen order.
pub open spec fn table_of(
    current: Seq<Process>,
    prev: Map<i32, u64>,
    nanos: u64,
    page_bytes: u64,
    sort: SortBy,
) -> Seq<Row>
    decreases current.len(),
{
    if current.len() == 0 {
        Seq::empty()
    } else {
        with_row(
            table_of(current.drop_last(), prev, nanos, page_bytes, sort),
            row_for(current.last(), prev, nanos, page_bytes),
            sort,
        )
    }
}

fn above(a: &ProcRow, b: &ProcRow, sort: SortBy) -> (r: bool)
    ensures
        r == goes_above(a@, b@, sort),
{
    match sort {
        SortBy::Cpu => b.cpu.less_than(a.cpu) || (!a.cpu.less_than(b.cpu) && (b.rss_kb < a.rss_kb
            || (b.rss_kb == a.rss_kb && a.pid < b.pid))),
        SortBy::Memory => b.rss_kb < a.rss_kb || (b.rss_kb == a.rss_kb && (b.cpu.less_than(a.cpu)
            || (!a.cpu.less_than(b.cpu) && a.pid < b.pid))),
    }
}

proof fn lemma_with_row(table: Seq<Row>, row: Row, sort: SortBy, at: int)
    requires
        0 <= at <= table.len(),
        at == 0 || !goes_above(row, table[at - 1], sort),
        forall|i: int| at <= i < table.len() ==> goes_above(row, #[trigger] table[i], sort),
    ensures
        with_row(table, row, sort) == table.insert(at, row),
    decreases table.len(),
{
    if at == table.len() {
        assert(table.insert(at, row) == table.push(row));
    } else {
        assert(goes_above(row, table[table.len() - 1], sort));
        lemma_with_row(table.drop_last(), row, sort, at);
        assert(table.insert(at, row) == table.drop_last().insert(at, row).push(table.last()));
    }
}

fn insert_row(table: &mut Vec<ProcRow>, row: ProcRow, sort: SortBy)
    ensures
        rows_of(final(table)@) == with_row(rows_of(old(table)@), row@, sort),
{
    let ghost before = rows_of(table@);
    let mut at: usize = table.len();
    while at > 0 && above(&row, &table[at - 1], sort)
        invariant
            at <= table@.len(),
            before == rows_of(table@),
            forall|i: int| at <= i < before.len() ==> goes_above(row@, #[trigger] before[i], sort),
        decreases at,
    {
        at = at - 1;
    }
    proof {
        lemma_with_row(before, row@, sort, at as int);
    }
    let ghost added = row@;
    table.insert(at, row);
    assert(rows_of(table@) == before.insert(at as int, added));
}

/// Turns two readings of the processes into a sorted table.
pub fn process_rows(
    current: &Vec<PidStat>,
    prev: &HashMap<i32, u64>,
    nanos: u64,
    page_bytes: u64,
    sort: SortBy,
) -> (r: Vec<ProcRow>)
    ensures
        rows_of(r@) == table_of(processes(current@), prev@, nanos, page_bytes, sort),
{
    broadcast use vstd::std_specs::hash::group_hash_axioms;

    let ghost all = processes(current@);
    let mut rows: Vec<ProcRow> = Vec::new();
    let mut i: usize = 0;
    assert(all.take(0) == Seq::<Process>::empty());
    assert(rows_of(rows@) == Seq::<Row>::empty());
    while i < current.len()
        invariant
            i <= current@.len(),
            all == processes(current@),
            rows_of(rows@) == table_of(all.take(i as int), prev@, nanos, page_bytes, sort),
        decreases current@.len() - i,
    {
        let stat = &current[i];
        let ghost here = all.take(i + 1);
        assert(here.drop_last() == all.take(i as int));
        assert(here.last() == stat@);
        let cpu = match prev.get(&stat.pid) {
            Some(before) => if nanos > 0 {
                Ratio::new(
                    multiply_up(stat.cpu_ticks.saturating_sub(*before), 10_000_000),
                    nanos,
                )
            } else {
                Ratio::new(0, 1)
            },
            None => Ratio::new(0, 1),
        };
        let row = ProcRow {
            pid: stat.pid,
            name: stat.comm.clone(),
            state: stat.state,
            cpu,
            rss_kb: multiply_up(stat.rss_pages, page_bytes) / 1024,
            threads: stat.threads,
            user: String::new(),
            cmdline: String::new(),
        };
        assert(row@ == row_for(stat@, prev@, nanos, page_bytes));
        insert_row(&mut rows, row, sort);
        i = i + 1;
    }
    assert(all.take(i as int) == all);
    rows
}

/// A history with one more reading, the oldest dropped once it is full.
pub open spec fn bounded_push(history: Seq<Ratio>, frac: Ratio, cap: nat) -> Seq<Ratio> {
    let all = history.push(frac.capped());
    if all.len() > cap {
        all.skip(all.len() - cap)
    } else {
        all
    }
}

/// Appends one reading, dropping the oldest once the window is full.
pub fn push_bounded(history: &mut Vec<Ratio>, frac: Ratio, cap: usize)
    requires
        cap > 0,
    ensures
        final(history)@ == bounded_push(old(history)@, frac, cap as nat),
        final(history)@.len() <= cap,
{
    let ghost before = history@;
    let n: usize = history.len();
    if n >= cap {
        let mut kept = history.split_off(n - (cap - 1));
        std::mem::swap(history, &mut kept);
    }
    history.push(frac.at_most_one());
    assert(history@ == bounded_push(before, frac, cap as nat));
}

/// The pieces of a byte string between its zero bytes.
pub open spec fn nul_pieces(raw: Seq<u8>) -> Seq<Seq<u8>>
    decreases raw.len(),
{
    if raw.len() == 0 {
        seq![Seq::empty()]
    } else {
        let before = nul_pieces(raw.drop_last());
        if raw.last() == 0 {
            before.push(Seq::empty())
        } else {
            before.drop_last().push(before.last().push(raw.last()))
        }
    }
}

/// The text of each piece that is not empty, in order.
pub open spec fn argument_texts(parts: Seq<Seq<u8>>) -> Seq<Seq<char>>
    decreases parts.len(),
{
    if parts.len() == 0 {
        Seq::empty()
    } else {
        let before = argument_texts(parts.drop_last());
        if parts.last().len() == 0 {
            before
        } else {
            before.push(lossy_text(parts.last()))
        }
    }
}

/// The arguments in `/proc/<pid>/cmdline`, each ended by a zero byte, with
/// blanks between them.
pub open spec fn cmdline_in(raw: Seq<u8>) -> Seq<char> {
    joined(argument_texts(nul_pieces(raw)), " "@)
}

/// Splits the raw file on its zero bytes. `None` for a kernel thread, whose
/// file is empty.
pub fn parse_cmdline(raw: &[u8]) -> (r: Option<String>)
    ensures
        match r {
            Some(t) => t@ == cmdline_in(raw@) && t@.len() > 0,
            None => cmdline_in(raw@).len() == 0,
        },
        r is None <==> forall|i: int| 0 <= i < raw@.len() ==> #[trigger] raw@[i] == 0,
{
    let n: usize = raw.len();
    let mut args = no_texts();
    let mut current: Vec<u8> = Vec::new();
    let mut i: usize = 0;
    assert(raw@.take(0) == Seq::<u8>::empty());
    assert(nul_pieces(raw@.take(0)).drop_last() == Seq::<Seq<u8>>::empty());
    while i < n
        invariant
            i <= n == raw@.len(),
            nul_pieces(raw@.take(i as int)).len() > 0,
            current@ == nul_pieces(raw@.take(i as int)).last(),
            texts(args@) == argument_texts(nul_pieces(raw@.take(i as int)).drop_last()),
            forall|k: int| 0 <= k < args@.len() ==> (#[trigger] args@[k])@.len() > 0,
            args@.len() == 0 && current@.len() == 0 <==> forall|k: int|
                0 <= k < i ==> #[trigger] raw@[k] == 0,
        decreases n - i,
    {
        let b: u8 = raw[i];
        let ghost before = nul_pieces(raw@.take(i as int));
        let ghost after = nul_pieces(raw@.take(i + 1));
        proof {
            assert(raw@.take(i + 1).drop_last() == raw@.take(i as int));
            assert(raw@.take(i + 1).last() == b);
        }
        if b == 0 {
            assert(after.drop_last() == before);
            if current.len() > 0 {
                push_text(&mut args, from_utf8_lossy(current.as_slice()));
            }
            current = Vec::new();
        } else {
            current.push(b);
            assert(after.drop_last() == before.drop_last());
        }
        i = i + 1;
    }
    assert(raw@.take(i as int) == raw@);
    if current.len() > 0 {
        push_text(&mut args, from_utf8_lossy(current.as_slice()));
    }
    let text = join(&args, " ");
    proof {
        if args@.len() > 0 {
            assert forall|k: int| 0 <= k < texts(args@).len() implies (#[trigger] texts(
                args@,
            )[k]).len() > 0 by {
                assert(args@[k]@.len() > 0);
            }
            lemma_joined_shows(texts(args@), " "@);
        }
    }
    if text.as_str().is_empty() {
        None
    } else {
        Some(text)
    }
}

/// The name in a line of `/etc/passwd`, if the line is that of a user ID.
pub open spec fn account_in(line: Seq<char>, uid: int) -> Option<Seq<char>> {
    let fields = split_at_char(line, ':');
    if fields.len() > 2 && number(fields[2], 10, u64::MAX as int) == Some(uid) {
        Some(fields[0])
    } else {
        None
    }
}

/// The account of a user ID: the name of the first line for it, or the bare
/// number where no line has one.
pub open spec fn account_among(rows: Seq<Seq<char>>, uid: u64) -> Seq<char>
    decreases rows.len(),
{
    if rows.len() == 0 {
        dec(uid as nat)
    } else {
        match account_in(rows[0], uid as int) {
            Some(name) => name,
            None => account_among(rows.drop_first(), uid),
        }
    }
}

/// The account of a user ID, from the contents of `/etc/passwd`.
pub fn account_of(passwd: &str, uid: u64) -> (r: String)
    ensures
        r@ == account_among(lines_of(passwd@), uid),
{
    let all = lines(passwd);
    let ghost rows = lines_of(passwd@);
    let mut i: usize = 0;
    assert(rows.skip(0) == rows);
    while i < all.len()
        invariant
            i <= all@.len(),
            rows == lines_of(passwd@),
            texts(all@) == rows,
            account_among(rows, uid) == account_among(rows.skip(i as int), uid),
        decreases all@.len() - i,
    {
        assert(rows.skip(i as int)[0] == all@[i as int]@);
        assert(rows.skip(i as int).drop_first() == rows.skip(i + 1));
        let fields = split_char(all[i].as_str(), ':');
        assert(texts(fields@) == split_at_char(all@[i as int]@, ':'));
        if fields.len() > 2 {
            assert(texts(fields@)[2] == fields@[2]@);
            assert(texts(fields@)[0] == fields@[0]@);
            if let Some(n) = parse_u64(fields[2].as_str()) {
                if n == uid {
                    return fields[0].clone();
                }
            }
        }
        i = i + 1;
    }
    decimal(uid)
}

/// What was read about a process once, and when that process started: its
/// arguments do not change after that.
#[derive(Debug)]
pub struct Details {
    pub start_ticks: u64,
    pub user: String,
    pub cmdline: String,
}

/// What a look at one process found.
#[derive(Debug)]
pub struct Found {
    pub pid: i32,
    pub user: String,
    pub cmdline: String,
}

/// What one sample of the system pane read off the box.
#[derive(Debug, Default)]
pub struct SystemReadings {
    /// `/proc/stat`, `/proc/meminfo`, `/proc/loadavg` and `/proc/uptime`.
    pub stat: Option<String>,
    pub meminfo: Option<String>,
    pub loadavg: Option<String>,
    pub uptime: Option<String>,
    /// Every `/proc/<pid>/stat` that could be read.
    pub processes: Vec<PidStat>,
}

/// State of the system pane between samples.
pub struct SystemPane {
    pub page_bytes: u64,
    pub prev_aggregate: Option<CpuTimes>,
    pub prev_cores: Vec<CpuTimes>,
    pub prev_proc_ticks: HashMap<i32, u64>,
    /// When the last sample was taken, in nanoseconds.
    pub last_sample: Option<u64>,
    /// When each process of the last sample started.
    pub starts: HashMap<i32, u64>,
    pub details: HashMap<i32, Details>,
    pub sort: SortBy,
    /// Only processes whose name or command line holds this are listed.
    pub filter: String,
    /// Whether the keyboard is typing the filter.
    pub filter_editing: bool,
    /// Rows scrolled off the top of the process table.
    pub scroll: usize,
    /// `None` until there are two readings to difference.
    pub cpu: Option<Ratio>,
    /// The aggregate, oldest first. Only real readings land here.
    pub cpu_history: Vec<Ratio>,
    pub cores: Vec<Option<Ratio>>,
    pub core_history: Vec<Vec<Ratio>>,
    pub mem: MemInfo,
    pub load: LoadAvg,
    pub uptime_secs: u64,
    pub procs: Vec<ProcRow>,
    /// How many processes there are, listed or not.
    pub total_procs: usize,
    /// Set when `/proc` is not readable at all.
    pub unavailable: Option<String>,
}

/// The pid and the ticks of each process; of two with one pid, the last.
pub open spec fn ticks_by_pid(v: Seq<Process>) -> Map<i32, u64>
    decreases v.len(),
{
    if v.len() == 0 {
        Map::empty()
    } else {
        ticks_by_pid(v.drop_last()).insert(v.last().pid, v.last().cpu_ticks)
    }
}

/// The pid and the start of each process; of two with one pid, the last.
pub open spec fn starts_by_pid(v: Seq<Process>) -> Map<i32, u64>
    decreases v.len(),
{
    if v.len() == 0 {
        Map::empty()
    } else {
        starts_by_pid(v.drop_last()).insert(v.last().pid, v.last().start_ticks)
    }
}

fn collect_ticks(v: &Vec<PidStat>) -> (r: HashMap<i32, u64>)
    ensures
        r@ == ticks_by_pid(processes(v@)),
{
    broadcast use vstd::std_specs::hash::group_hash_axioms;

    let ghost all = processes(v@);
    let mut out: HashMap<i32, u64> = HashMap::new();
    let mut i: usize = 0;
    assert(all.take(0) == Seq::<Process>::empty());
    while i < v.len()
        invariant
            i <= v@.len(),
            all == processes(v@),
            out@ == ticks_by_pid(all.take(i as int)),
        decreases v@.len() - i,
    {
        assert(all.take(i + 1).drop_last() == all.take(i as int));
        assert(all.take(i + 1).last() == v@[i as int]@);
        out.insert(v[i].pid, v[i].cpu_ticks);
        i = i + 1;
    }
    assert(all.take(i as int) == all);
    out
}

fn collect_starts(v: &Vec<PidStat>) -> (r: HashMap<i32, u64>)
    ensures
        r@ == starts_by_pid(processes(v@)),
{
    broadcast use vstd::std_specs::hash::group_hash_axioms;

    let ghost all = processes(v@);
    let mut out: HashMap<i32, u64> = HashMap::new();
    let mut i: usize = 0;
    assert(all.take(0) == Seq::<Process>::empty());
    while i < v.len()
        invariant
            i <= v@.len(),
            all == processes(v@),
            out@ == starts_by_pid(all.take(i as int)),
        decreases v@.len() - i,
    {
        assert(all.take(i + 1).drop_last() == all.take(i as int));
        assert(all.take(i + 1).last() == v@[i as int]@);
        out.insert(v[i].pid, v[i].start_ticks);
        i = i + 1;
    }
    assert(all.take(i as int) == all);
    out
}

/// The busy share of each core, where there is an earlier reading of it.
pub open spec fn core_shares(now: Seq<CpuTimes>, before: Seq<CpuTimes>) -> Seq<Option<Ratio>> {
    Seq::new(
        now.len(),
        |i: int|
            if i < before.len() {
                now[i].busy_since(before[i])
            } else {
                None
            },
    )
}

fn share_cores(now: &Vec<CpuTimes>, before: &Vec<CpuTimes>) -> (r: Vec<Option<Ratio>>)
    ensures
        r@ == core_shares(now@, before@),
{
    let mut out: Vec<Option<Ratio>> = Vec::new();
    let mut i: usize = 0;
    while i < now.len()
        invariant
            i <= now@.len(),
            out@ == core_shares(now@, before@).take(i as int),
        decreases now@.len() - i,
    {
        let share = if i < before.len() {
            now[i].usage_since(&before[i])
        } else {
            None
        };
        out.push(share);
        i = i + 1;
        assert(core_shares(now@, before@).take(i as int) == core_shares(now@, before@).take(
            i - 1,
        ).push(share));
    }
    assert(core_shares(now@, before@).take(i as int) == core_shares(now@, before@));
    out
}

/// What each of some histories holds.
pub open spec fn histories(v: Seq<Vec<Ratio>>) -> Seq<Seq<Ratio>> {
    Seq::new(v.len(), |i: int| v[i]@)
}

/// One history per core, each with its reading appended where there is one. A
/// core that was not there before starts empty; one that is gone loses its own.
pub open spec fn core_histories(
    before: Seq<Seq<Ratio>>,
    shares: Seq<Option<Ratio>>,
) -> Seq<Seq<Ratio>> {
    Seq::new(
        shares.len(),
        |i: int|
            {
                let history = if i < before.len() {
                    before[i]
                } else {
                    Seq::empty()
                };
                match shares[i] {
                    Some(share) => bounded_push(history, share, CORE_HISTORY_LEN as nat),
                    None => history,
                }
            },
    )
}

fn extend_histories(before: Vec<Vec<Ratio>>, shares: &Vec<Option<Ratio>>) -> (r: Vec<Vec<Ratio>>)
    ensures
        histories(r@) == core_histories(histories(before@), shares@),
{
    let ghost orig = histories(before@);
    let ghost want = core_histories(orig, shares@);
    let mut rest = before;
    let mut out: Vec<Vec<Ratio>> = Vec::new();
    let mut i: usize = 0;
    assert(histories(out@) == want.take(0));
    while i < shares.len()
        invariant
            i <= shares@.len(),
            want == core_histories(orig, shares@),
            histories(rest@) == if i <= orig.len() {
                orig.skip(i as int)
            } else {
                Seq::empty()
            },
            histories(out@) == want.take(i as int),
        decreases shares@.len() - i,
    {
        let ghost left = histories(rest@);
        let mut history: Vec<Ratio> = Vec::new();
        if rest.len() > 0 {
            history = rest.remove(0);
            assert(history@ == left[0]);
            assert(histories(rest@) == left.skip(1));
            assert(left.skip(1) == orig.skip(i + 1));
        } else {
            assert(left.len() == 0);
            assert(i >= orig.len()) by {
                if i < orig.len() {
                    assert(orig.skip(i as int).len() == orig.len() - i);
                }
            }
            assert(histories(rest@) == Seq::<Seq<Ratio>>::empty());
        }
        match shares[i] {
            Some(share) => push_bounded(&mut history, share, CORE_HISTORY_LEN),
            None => {},
        }
        let ghost added = history@;
        let ghost done = histories(out@);
        out.push(history);
        assert(histories(out@) == done.push(added));
        i = i + 1;
        assert(want.take(i as int) == want.take(i - 1).push(want[i - 1]));
    }
    assert(want.take(i as int) == want);
    out
}

/// Whether what is known of a process was read of this very process.
pub open spec fn known_for(
    details: Map<i32, Details>,
    starts: Map<i32, u64>,
    pid: i32,
) -> bool {
    details.contains_key(pid) && details[pid].start_ticks == (if starts.contains_key(pid) {
        starts[pid]
    } else {
        0
    })
}

/// The first `depth` rows of a table, and of those the ones about which nothing
/// is known yet.
pub open spec fn unknown_pids(
    table: Seq<Row>,
    depth: nat,
    details: Map<i32, Details>,
    starts: Map<i32, u64>,
) -> Seq<i32>
    decreases table.len(),
{
    if table.len() == 0 {
        Seq::empty()
    } else {
        let before = unknown_pids(table.drop_last(), depth, details, starts);
        if table.len() <= depth && !known_for(details, starts, table.last().pid) {
            before.push(table.last().pid)
        } else {
            before
        }
    }
}

/// A row with what is known of its process written in.
pub open spec fn row_with(
    row: Row,
    details: Map<i32, Details>,
    starts: Map<i32, u64>,
) -> Row {
    if known_for(details, starts, row.pid) {
        Row { user: details[row.pid].user@, cmdline: details[row.pid].cmdline@, ..row }
    } else {
        row
    }
}

/// A table with what is known written into its first `depth` rows.
pub open spec fn table_with(
    table: Seq<Row>,
    depth: nat,
    details: Map<i32, Details>,
    starts: Map<i32, u64>,
) -> Seq<Row> {
    Seq::new(
        table.len(),
        |i: int|
            if i < depth {
                row_with(table[i], details, starts)
            } else {
                table[i]
            },
    )
}

/// What was found, added to what is known. A find counts for the process that
/// has the pid now.
pub open spec fn learned(
    details: Map<i32, Details>,
    starts: Map<i32, u64>,
    found: Seq<Found>,
) -> Map<i32, Details>
    decreases found.len(),
{
    if found.len() == 0 {
        details
    } else {
        let f = found.last();
        learned(details, starts, found.drop_last()).insert(
            f.pid,
            Details {
                start_ticks: if starts.contains_key(f.pid) {
                    starts[f.pid]
                } else {
                    0
                },
                user: f.user,
                cmdline: f.cmdline,
            },
        )
    }
}

/// What is known of the processes that are still there.
pub open spec fn still_known(details: Map<i32, Details>, starts: Map<i32, u64>) -> Map<
    i32,
    Details,
> {
    details.restrict(starts.dom())
}

fn keep_known(details: HashMap<i32, Details>, current: &Vec<PidStat>) -> (r: HashMap<i32, Details>)
    ensures
        r@ == still_known(details@, starts_by_pid(processes(current@))),
{
    broadcast use vstd::std_specs::hash::group_hash_axioms;

    let ghost all = processes(current@);
    let ghost orig = details@;
    let mut rest = details;
    let mut out: HashMap<i32, Details> = HashMap::new();
    let mut i: usize = 0;
    assert(all.take(0) == Seq::<Process>::empty());
    assert(out@ == still_known(orig, starts_by_pid(all.take(0))));
    while i < current.len()
        invariant
            i <= current@.len(),
            all == processes(current@),
            out@ == still_known(orig, starts_by_pid(all.take(i as int))),
            rest@ == orig.remove_keys(starts_by_pid(all.take(i as int)).dom()),
        decreases current@.len() - i,
    {
        let pid: i32 = current[i].pid;
        let ghost before = starts_by_pid(all.take(i as int));
        let ghost after = starts_by_pid(all.take(i + 1));
        assert(all.take(i + 1).drop_last() == all.take(i as int));
        assert(all.take(i + 1).last() == current@[i as int]@);
        assert(after.dom() == before.dom().insert(pid));
        match rest.remove(&pid) {
            Some(d) => {
                assert(orig.contains_key(pid) && orig[pid] == d);
                out.insert(pid, d);
            },
            None => {},
        }
        assert(out@ == still_known(orig, after));
        assert(rest@ == orig.remove_keys(after.dom()));
        i = i + 1;
    }
    assert(all.take(i as int) == all);
    out
}

fn is_known(details: &HashMap<i32, Details>, starts: &HashMap<i32, u64>, pid: i32) -> (r: bool)
    ensures
        r == known_for(details@, starts@, pid),
{
    broadcast use vstd::std_specs::hash::group_hash_axioms;

    let start: u64 = match starts.get(&pid) {
        Some(s) => *s,
        None => 0,
    };
    match details.get(&pid) {
        Some(d) => d.start_ticks == start,
        None => false,
    }
}

fn find_unknown(
    table: &Vec<ProcRow>,
    depth: usize,
    details: &HashMap<i32, Details>,
    starts: &HashMap<i32, u64>,
) -> (r: Vec<i32>)
    ensures
        r@ == unknown_pids(rows_of(table@), depth as nat, details@, starts@),
{
    let ghost rows = rows_of(table@);
    let mut out: Vec<i32> = Vec::new();
    let mut i: usize = 0;
    assert(rows.take(0) == Seq::<Row>::empty());
    while i < table.len()
        invariant
            i <= table@.len(),
            rows == rows_of(table@),
            out@ == unknown_pids(rows.take(i as int), depth as nat, details@, starts@),
        decreases table@.len() - i,
    {
        assert(rows.take(i + 1).drop_last() == rows.take(i as int));
        assert(rows.take(i + 1).last() == table@[i as int]@);
        if i < depth && !is_known(details, starts, table[i].pid) {
            out.push(table[i].pid);
        }
        i = i + 1;
    }
    assert(rows.take(i as int) == rows);
    out
}

fn write_known(
    table: Vec<ProcRow>,
    depth: usize,
    details: &HashMap<i32, Details>,
    starts: &HashMap<i32, u64>,
) -> (r: Vec<ProcRow>)
    ensures
        rows_of(r@) == table_with(rows_of(table@), depth as nat, details@, starts@),
{
    broadcast use vstd::std_specs::hash::group_hash_axioms;

    let ghost rows = rows_of(table@);
    let ghost want = table_with(rows, depth as nat, details@, starts@);
    let n: usize = table.len();
    let mut rest = table;
    let mut out: Vec<ProcRow> = Vec::new();
    let mut i: usize = 0;
    assert(rows_of(rest@) == rows.skip(0));
    assert(rows_of(out@) == want.take(0));
    while i < n
        invariant
            i <= n == rows.len(),
            rest@.len() == rows.len() - i,
            want == table_with(rows, depth as nat, details@, starts@),
            rows_of(rest@) == rows.skip(i as int),
            rows_of(out@) == want.take(i as int),
        decreases n - i,
    {
        let ghost left = rows_of(rest@);
        let mut row = rest.remove(0);
        assert(row@ == left[0]);
        assert(rows_of(rest@) == left.skip(1));
        assert(left.skip(1) == rows.skip(i + 1));
        if i < depth && is_known(details, starts, row.pid) {
            if let Some(d) = details.get(&row.pid) {
                row.user = d.user.clone();
                row.cmdline = d.cmdline.clone();
            }
        }
        assert(row@ == want[i as int]);
        let ghost added = row@;
        let ghost done = rows_of(out@);
        out.push(row);
        assert(rows_of(out@) == done.push(added));
        assert(want.take(i + 1) == want.take(i as int).push(want[i as int]));
        i = i + 1;
    }
    assert(want.take(i as int) == want);
    out
}

fn learn(
    details: HashMap<i32, Details>,
    starts: &HashMap<i32, u64>,
    found: Vec<Found>,
) -> (r: HashMap<i32, Details>)
    ensures
        r@ == learned(details@, starts@, found@),
{
    broadcast use vstd::std_specs::hash::group_hash_axioms;

    let ghost all = found@;
    let ghost orig = details@;
    let mut rest = found;
    let mut out = details;
    let ghost mut k: int = 0;
    assert(all.take(0) == Seq::<Found>::empty());
    assert(all.skip(0) == all);
    while rest.len() > 0
        invariant
            0 <= k <= all.len(),
            rest@ == all.skip(k),
            out@ == learned(orig, starts@, all.take(k)),
        decreases rest@.len(),
    {
        let f = rest.remove(0);
        proof {
            assert(f == all[k]);
            assert(rest@ == all.skip(k + 1));
            assert(all.take(k + 1).drop_last() == all.take(k));
            k = k + 1;
        }
        let start_ticks: u64 = match starts.get(&f.pid) {
            Some(s) => *s,
            None => 0,
        };
        out.insert(f.pid, Details { start_ticks, user: f.user, cmdline: f.cmdline });
    }
    assert(all.take(k) == all);
    out
}

/// How deep into the table the details of a process are wanted: to the end
/// while a filter has to look at them, else as far as a pane can show.
pub open spec fn detail_depth(filter: Seq<char>, rows: nat) -> nat {
    if filter.len() > 0 {
        rows
    } else {
        CMDLINE_ROWS as nat
    }
}

impl SystemPane {
    /// A pane that has sampled nothing yet, on a box with pages of that size.
    pub open spec fn fresh(self, page_bytes: u64) -> bool {
        &&& self.page_bytes == page_bytes
        &&& self.prev_aggregate is None
        &&& self.prev_cores@.len() == 0
        &&& self.prev_proc_ticks@ == Map::<i32, u64>::empty()
        &&& self.last_sample is None
        &&& self.starts@ == Map::<i32, u64>::empty()
        &&& self.details@ == Map::<i32, Details>::empty()
        &&& self.sort == SortBy::Cpu
        &&& self.filter@.len() == 0
        &&& !self.filter_editing
        &&& self.scroll == 0
        &&& self.cpu is None
        &&& self.cpu_history@.len() == 0
        &&& self.cores@.len() == 0
        &&& self.core_history@.len() == 0
        &&& self.mem == no_memory()
        &&& self.load == (LoadAvg { one: 0, five: 0, fifteen: 0, runnable: 0, tasks: 0 })
        &&& self.uptime_secs == 0
        &&& self.procs@.len() == 0
        &&& self.total_procs == 0
        &&& self.unavailable is None
    }

    pub fn new(page_bytes: u64) -> (r: SystemPane)
        ensures
            r.fresh(page_bytes),
    {
        broadcast use vstd::std_specs::hash::group_hash_axioms;

        SystemPane {
            page_bytes,
            prev_aggregate: None,
            prev_cores: Vec::new(),
            prev_proc_ticks: HashMap::new(),
            last_sample: None,
            starts: HashMap::new(),
            details: HashMap::new(),
            sort: SortBy::Cpu,
            filter: String::new(),
            filter_editing: false,
            scroll: 0,
            cpu: None,
            cpu_history: Vec::new(),
            cores: Vec::new(),
            core_history: Vec::new(),
            mem: MemInfo::default(),
            load: LoadAvg { one: 0, five: 0, fifteen: 0, runnable: 0, tasks: 0 },
            uptime_secs: 0,
            procs: Vec::new(),
            total_procs: 0,
            unavailable: None,
        }
    }

    /// Takes in the CPU lines of `/proc/stat`.
    fn take_cpu(&mut self, text: &str)
        ensures
            ({
                let (aggregate, cores) = stat_rows(lines_of(trimmed(text@)));
                let share = match (aggregate, old(self).prev_aggregate) {
                    (Some(now), Some(before)) => now.busy_since(before),
                    _ => old(self).cpu,
                };
                &&& final(self).cpu == share
                &&& final(self).cpu_history@ == match (aggregate, old(self).prev_aggregate, share) {
                    (Some(_), Some(_), Some(s)) => bounded_push(
                        old(self).cpu_history@,
                        s,
                        HISTORY_LEN as nat,
                    ),
                    _ => old(self).cpu_history@,
                }
                &&& final(self).cores@ == core_shares(cores, old(self).prev_cores@)
                &&& histories(final(self).core_history@) == core_histories(
                    histories(old(self).core_history@),
                    core_shares(cores, old(self).prev_cores@),
                )
                &&& final(self).prev_aggregate == aggregate
                &&& final(self).prev_cores@ == cores
            }),
            *final(self) == (SystemPane {
                cpu: final(self).cpu,
                cpu_history: final(self).cpu_history,
                cores: final(self).cores,
                core_history: final(self).core_history,
                prev_aggregate: final(self).prev_aggregate,
                prev_cores: final(self).prev_cores,
                ..*old(self)
            }),
    {
        let (aggregate, cores) = parse_stat(trim(text).as_str());
        if let (Some(now), Some(before)) = (aggregate, self.prev_aggregate) {
            self.cpu = now.usage_since(&before);
            if let Some(share) = self.cpu {
                push_bounded(&mut self.cpu_history, share, HISTORY_LEN);
            }
        }
        self.cores = share_cores(&cores, &self.prev_cores);
        let mut histories_before: Vec<Vec<Ratio>> = Vec::new();
        std::mem::swap(&mut self.core_history, &mut histories_before);
        self.core_history = extend_histories(histories_before, &self.cores);
        self.prev_aggregate = aggregate;
        self.prev_cores = cores;
    }

    /// Takes in the memory, load and uptime files; each leaves what it feeds
    /// as it was where it could not be read.
    fn take_figures(&mut self, readings: &SystemReadings)
        ensures
            final(self).mem == match readings.meminfo {
                Some(text) => meminfo_rows(lines_of(trimmed(text@))),
                None => old(self).mem,
            },
            final(self).load == match readings.loadavg {
                Some(text) => match loadavg_in(trimmed(text@)) {
                    Some(load) => load,
                    None => old(self).load,
                },
                None => old(self).load,
            },
            final(self).uptime_secs == match readings.uptime {
                Some(text) => match uptime_in(trimmed(text@)) {
                    Some(secs) => secs as u64,
                    None => old(self).uptime_secs,
                },
                None => old(self).uptime_secs,
            },
            *final(self) == (SystemPane {
                mem: final(self).mem,
                load: final(self).load,
                uptime_secs: final(self).uptime_secs,
                ..*old(self)
            }),
    {
        if let Some(text) = &readings.meminfo {
            self.mem = parse_meminfo(trim(text.as_str()).as_str());
        }
        if let Some(text) = &readings.loadavg {
            if let Some(load) = parse_loadavg(trim(text.as_str()).as_str()) {
                self.load = load;
            }
        }
        if let Some(text) = &readings.uptime {
            if let Some(secs) = parse_uptime(trim(text.as_str()).as_str()) {
                self.uptime_secs = secs;
            }
        }
    }

    /// Takes in one round of readings, made at `now` nanoseconds, and returns
    /// the pids whose account and command line are wanted: of the processes
    /// near the top of the table, those not looked at before.
    ///
    /// Without `/proc/stat` this is not a Linux box: the pane says so and keeps
    /// everything else as it was.
    pub fn sample(&mut self, readings: SystemReadings, now: u64) -> (wanted: Vec<i32>)
        ensures
            old(self).cpu_history@.len() <= 480 ==> old(self).cpu_history@.len()
                <= final(self).cpu_history@.len() <= 480,
            match readings.stat {
                None => {
                    &&& final(self).unavailable is Some
                    &&& final(self).unavailable->0@
                        == "/proc/stat is not readable — not a Linux box?"@
                    &&& *final(self) == (SystemPane {
                        unavailable: final(self).unavailable,
                        ..*old(self)
                    })
                    &&& wanted@.len() == 0
                },
                Some(stat) => {
                    let (aggregate, cores) = stat_rows(lines_of(trimmed(stat@)));
                    let share = match (aggregate, old(self).prev_aggregate) {
                        (Some(after), Some(before)) => after.busy_since(before),
                        _ => old(self).cpu,
                    };
                    let current = processes(readings.processes@);
                    let starts = starts_by_pid(current);
                    let nanos = elapsed(now, old(self).last_sample);
                    let table = table_of(
                        current,
                        old(self).prev_proc_ticks@,
                        nanos,
                        old(self).page_bytes,
                        old(self).sort,
                    );
                    let known = still_known(old(self).details@, starts);
                    let depth = detail_depth(old(self).filter@, table.len());
                    &&& final(self).unavailable is None
                    &&& final(self).cpu == share
                    &&& final(self).cpu_history@ == match (
                        aggregate,
                        old(self).prev_aggregate,
                        share,
                    ) {
                        (Some(_), Some(_), Some(s)) => bounded_push(
                            old(self).cpu_history@,
                            s,
                            HISTORY_LEN as nat,
                        ),
                        _ => old(self).cpu_history@,
                    }
                    &&& final(self).cores@ == core_shares(cores, old(self).prev_cores@)
                    &&& histories(final(self).core_history@) == core_histories(
                        histories(old(self).core_history@),
                        core_shares(cores, old(self).prev_cores@),
                    )
                    &&& final(self).prev_aggregate == aggregate
                    &&& final(self).prev_cores@ == cores
                    &&& final(self).mem == match readings.meminfo {
                        Some(text) => meminfo_rows(lines_of(trimmed(text@))),
                        None => old(self).mem,
                    }
                    &&& final(self).load == match readings.loadavg {
                        Some(text) => match loadavg_in(trimmed(text@)) {
                            Some(load) => load,
                            None => old(self).load,
                        },
                        None => old(self).load,
                    }
                    &&& final(self).uptime_secs == match readings.uptime {
                        Some(text) => match uptime_in(trimmed(text@)) {
                            Some(secs) => secs as u64,
                            None => old(self).uptime_secs,
                        },
                        None => old(self).uptime_secs,
                    }
                    &&& final(self).last_sample == Some(now)
                    &&& final(self).prev_proc_ticks@ == ticks_by_pid(current)
                    &&& if nanos > 0 {
                        &&& final(self).starts@ == starts
                        &&& final(self).details@ == known
                        &&& rows_of(final(self).procs@) == table_with(table, depth, known, starts)
                        &&& final(self).total_procs == table.len()
                        &&& wanted@ == unknown_pids(table, depth, known, starts)
                    } else {
                        &&& final(self).starts == old(self).starts
                        &&& final(self).details == old(self).details
                        &&& final(self).procs == old(self).procs
                        &&& final(self).total_procs == old(self).total_procs
                        &&& wanted@.len() == 0
                    }
                    &&& final(self).page_bytes == old(self).page_bytes
                    &&& final(self).sort == old(self).sort
                    &&& final(self).filter == old(self).filter
                    &&& final(self).filter_editing == old(self).filter_editing
                    &&& final(self).scroll == old(self).scroll
                },
            },
    {
        let mut wanted: Vec<i32> = Vec::new();
        match &readings.stat {
            None => {
                self.unavailable = Some(
                    "/proc/stat is not readable — not a Linux box?".to_owned(),
                );
                return wanted;
            },
            Some(text) => {
                self.unavailable = None;
                self.take_cpu(text.as_str());
            },
        }
        self.take_figures(&readings);
        let nanos: u64 = elapsed_since(now, self.last_sample);
        self.last_sample = Some(now);
        let current = readings.processes;
        if nanos > 0 {
            let table = process_rows(
                &current,
                &self.prev_proc_ticks,
                nanos,
                self.page_bytes,
                self.sort,
            );
            let rows: usize = table.len();
            let depth: usize = if self.filter.as_str().is_empty() {
                CMDLINE_ROWS
            } else {
                rows
            };
            self.starts = collect_starts(&current);
            let mut known: HashMap<i32, Details> = HashMap::new();
            std::mem::swap(&mut self.details, &mut known);
            self.details = keep_known(known, &current);
            wanted = find_unknown(&table, depth, &self.details, &self.starts);
            self.procs = write_known(table, depth, &self.details, &self.starts);
            self.total_procs = rows;
        }
        self.prev_proc_ticks = collect_ticks(&current);
        wanted
    }

    /// Takes in what was found about the processes that a sample asked for.
    pub fn describe(&mut self, found: Vec<Found>)
        ensures
            final(self).details@ == learned(old(self).details@, old(self).starts@, found@),
            rows_of(final(self).procs@) == table_with(
                rows_of(old(self).procs@),
                detail_depth(old(self).filter@, old(self).procs@.len()),
                final(self).details@,
                old(self).starts@,
            ),
            *final(self) == (SystemPane {
                details: final(self).details,
                procs: final(self).procs,
                ..*old(self)
            }),
    {
        let mut known: HashMap<i32, Details> = HashMap::new();
        std::mem::swap(&mut self.details, &mut known);
        self.details = learn(known, &self.starts, found);
        let mut table: Vec<ProcRow> = Vec::new();
        std::mem::swap(&mut self.procs, &mut table);
        let depth: usize = if self.filter.as_str().is_empty() {
            CMDLINE_ROWS
        } else {
            table.len()
        };
        self.procs = write_known(table, depth, &self.details, &self.starts);
    }
}

proof fn lemma_not_below(a: Ratio, b: Ratio, c: Ratio)
    requires
        !a.below(b),
        !b.below(c),
    ensures
        !a.below(c),
{
    let (x, p) = (a.top() as int, a.bottom() as int);
    let (y, q) = (b.top() as int, b.bottom() as int);
    let (z, r) = (c.top() as int, c.bottom() as int);
    assert(x * q >= y * p && y * r >= z * q);
    assert(x * q * r >= y * p * r) by (nonlinear_arith)
        requires
            x * q >= y * p,
            r > 0,
    ;
    assert(y * r * p >= z * q * p) by (nonlinear_arith)
        requires
            y * r >= z * q,
            p > 0,
    ;
    assert(x * r >= z * p) by (nonlinear_arith)
        requires
            x * q * r >= y * p * r,
            y * r * p >= z * q * p,
            q > 0,
    ;
}

/// If `a` does not go above `b`, nor `b` above `c`, then `a` does not go above
/// `c`.
proof fn lemma_order_carries(a: Row, b: Row, c: Row, sort: SortBy)
    requires
        !goes_above(a, b, sort),
        !goes_above(b, c, sort),
    ensures
        !goes_above(a, c, sort),
{
    // No row is above another by its share unless that is below in turn.
    if !b.cpu.below(a.cpu) && !c.cpu.below(b.cpu) {
        lemma_not_below(c.cpu, b.cpu, a.cpu);
        if a.cpu.below(b.cpu) {
            if !a.cpu.below(c.cpu) {
                lemma_not_below(a.cpu, c.cpu, b.cpu);
            }
        }
        if b.cpu.below(c.cpu) {
            if !a.cpu.below(c.cpu) {
                lemma_not_below(b.cpu, a.cpu, c.cpu);
            }
        }
    }
}

proof fn lemma_order_one_way(a: Row, b: Row, sort: SortBy)
    requires
        goes_above(a, b, sort),
    ensures
        !goes_above(b, a, sort),
{
}

/// Whether no row stands above one that should be above it.
pub open spec fn in_order(table: Seq<Row>, sort: SortBy) -> bool {
    forall|i: int, j: int|
        0 <= i < j < table.len() ==> !goes_above(#[trigger] table[j], #[trigger] table[i], sort)
}

proof fn lemma_with_row_holds(table: Seq<Row>, row: Row, sort: SortBy)
    ensures
        with_row(table, row, sort).len() == table.len() + 1,
        forall|i: int|
            0 <= i <= table.len() ==> {
                ||| #[trigger] with_row(table, row, sort)[i] == row
                ||| exists|k: int| 0 <= k < table.len() && table[k] == with_row(table, row, sort)[i]
            },
        with_row(table, row, sort).to_multiset() == table.to_multiset().insert(row),
    decreases table.len(),
{
    let out = with_row(table, row, sort);
    if table.len() == 0 || !goes_above(row, table.last(), sort) {
        table.to_multiset_ensures();
        assert forall|i: int| 0 <= i <= table.len() implies {
            ||| #[trigger] out[i] == row
            ||| exists|k: int| 0 <= k < table.len() && table[k] == out[i]
        } by {
            if i < table.len() {
                assert(table[i] == out[i]);
            }
        }
    } else {
        let rest = table.drop_last();
        lemma_with_row_holds(rest, row, sort);
        let inner = with_row(rest, row, sort);
        assert forall|i: int| 0 <= i <= table.len() implies {
            ||| #[trigger] out[i] == row
            ||| exists|k: int| 0 <= k < table.len() && table[k] == out[i]
        } by {
            if i < rest.len() + 1 {
                assert(out[i] == inner[i]);
                if inner[i] != row {
                    let k = choose|k: int| 0 <= k < rest.len() && rest[k] == inner[i];
                    assert(table[k] == out[i]);
                }
            } else {
                assert(table[table.len() - 1] == out[i]);
            }
        }
        inner.to_multiset_ensures();
        rest.to_multiset_ensures();
        assert(table == rest.push(table.last()));
        assert(out.to_multiset() =~= table.to_multiset().insert(row));
    }
}

proof fn lemma_with_row_in_order(table: Seq<Row>, row: Row, sort: SortBy)
    requires
        in_order(table, sort),
    ensures
        in_order(with_row(table, row, sort), sort),
    decreases table.len(),
{
    let out = with_row(table, row, sort);
    if table.len() == 0 || !goes_above(row, table.last(), sort) {
        assert forall|i: int, j: int| 0 <= i < j < out.len() implies !goes_above(
            #[trigger] out[j],
            #[trigger] out[i],
            sort,
        ) by {
            if j == table.len() {
                if i < table.len() - 1 {
                    assert(!goes_above(table[table.len() - 1], table[i], sort));
                    lemma_order_carries(row, table.last(), table[i], sort);
                }
            } else {
                assert(!goes_above(table[j], table[i], sort));
            }
        }
    } else {
        let rest = table.drop_last();
        let last = table.last();
        assert forall|i: int, j: int| 0 <= i < j < rest.len() implies !goes_above(
            #[trigger] rest[j],
            #[trigger] rest[i],
            sort,
        ) by {
            assert(!goes_above(table[j], table[i], sort));
        }
        lemma_with_row_in_order(rest, row, sort);
        lemma_with_row_holds(rest, row, sort);
        let inner = with_row(rest, row, sort);
        assert forall|i: int, j: int| 0 <= i < j < out.len() implies !goes_above(
            #[trigger] out[j],
            #[trigger] out[i],
            sort,
        ) by {
            assert(out[i] == inner[i]);
            if j == inner.len() {
                if inner[i] == row {
                    lemma_order_one_way(row, last, sort);
                } else {
                    let k = choose|k: int| 0 <= k < rest.len() && rest[k] == inner[i];
                    assert(!goes_above(table[table.len() - 1], table[k], sort));
                }
            } else {
                assert(!goes_above(inner[j], inner[i], sort));
            }
        }
    }
}

/// The rows of processes, in the order in which they were read.
pub open spec fn rows_for(
    current: Seq<Process>,
    prev: Map<i32, u64>,
    nanos: u64,
    page_bytes: u64,
) -> Seq<Row> {
    Seq::new(current.len(), |i: int| row_for(current[i], prev, nanos, page_bytes))
}

/// The process table is in order, whichever column it is sorted by: no row
/// stands above one that should be above it.
pub proof fn process_table_is_in_order(
    current: Seq<Process>,
    prev: Map<i32, u64>,
    nanos: u64,
    page_bytes: u64,
    sort: SortBy,
)
    ensures
        in_order(table_of(current, prev, nanos, page_bytes, sort), sort),
    decreases current.len(),
{
    if current.len() > 0 {
        process_table_is_in_order(current.drop_last(), prev, nanos, page_bytes, sort);
        lemma_with_row_in_order(
            table_of(current.drop_last(), prev, nanos, page_bytes, sort),
            row_for(current.last(), prev, nanos, page_bytes),
            sort,
        );
    }
}

/// Every process that was read has its row in the table, exactly once, and
/// nothing else is in it.
pub proof fn process_table_lists_everyone(
    current: Seq<Process>,
    prev: Map<i32, u64>,
    nanos: u64,
    page_bytes: u64,
    sort: SortBy,
)
    ensures
        table_of(current, prev, nanos, page_bytes, sort).to_multiset() == rows_for(
            current,
            prev,
            nanos,
            page_bytes,
        ).to_multiset(),
    decreases current.len(),
{
    let rows = rows_for(current, prev, nanos, page_bytes);
    if current.len() > 0 {
        let before = rows_for(current.drop_last(), prev, nanos, page_bytes);
        process_table_lists_everyone(current.drop_last(), prev, nanos, page_bytes, sort);
        lemma_with_row_holds(
            table_of(current.drop_last(), prev, nanos, page_bytes, sort),
            row_for(current.last(), prev, nanos, page_bytes),
            sort,
        );
        before.to_multiset_ensures();
        assert(rows == before.push(rows.last()));
    } else {
        assert(rows == Seq::<Row>::empty());
    }
}

/// Sorting by one column or by the other lists the same processes.
pub proof fn sorting_changes_only_the_order(
    current: Seq<Process>,
    prev: Map<i32, u64>,
    nanos: u64,
    page_bytes: u64,
    a: SortBy,
    b: SortBy,
)
    ensures
        table_of(current, prev, nanos, page_bytes, a).to_multiset() == table_of(
            current,
            prev,
            nanos,
            page_bytes,
            b,
        ).to_multiset(),
{
    process_table_lists_everyone(current, prev, nanos, page_bytes, a);
    process_table_lists_everyone(current, prev, nanos, page_bytes, b);
}

/// A history never holds more than it is made for, and what came last stays.
pub proof fn history_is_bounded(history: Seq<Ratio>, frac: Ratio, cap: nat)
    requires
        cap > 0,
    ensures
        bounded_push(history, frac, cap).len() <= cap,
        bounded_push(history, frac, cap).last() == frac.capped(),
{
}

/// A load is a part of the time that passed: never more than all of it.
pub proof fn load_is_a_share(now: CpuTimes, before: CpuTimes)
    ensures
        now.busy_since(before) matches Some(share) ==> 0 < share.den && share.num <= share.den,
{
}

/// While no counter goes backwards, the busy share between two readings is the
/// growth of the six busy counters over the growth of all eight: time spent
/// idle or waiting for a disk is not busy. Nothing is said where no time passed.
pub proof fn busy_share_is_growth(now: CpuTimes, before: CpuTimes)
    requires
        before.user <= now.user,
        before.nice <= now.nice,
        before.system <= now.system,
        before.idle <= now.idle,
        before.iowait <= now.iowait,
        before.irq <= now.irq,
        before.softirq <= now.softirq,
        before.steal <= now.steal,
        now.user + now.nice + now.system + now.idle + now.iowait + now.irq + now.softirq + now.steal
            <= u64::MAX,
    ensures
        ({
            let busy = (now.user - before.user) + (now.nice - before.nice) + (now.system
                - before.system) + (now.irq - before.irq) + (now.softirq - before.softirq) + (
            now.steal - before.steal);
            let all = busy + (now.idle - before.idle) + (now.iowait - before.iowait);
            match now.busy_since(before) {
                Some(share) => all > 0 && share.num == busy && share.den == all,
                None => all == 0,
            }
        }),
{
}

/// Of two readings taken at one time after the same one before, that with more
/// ticks spent busy has the larger share: a tick moved from idle or waiting to
/// any of the six busy counters raises it.
pub proof fn busy_tick_raises_the_share(a: CpuTimes, b: CpuTimes, before: CpuTimes)
    requires
        before.user <= a.user <= b.user,
        before.nice <= a.nice <= b.nice,
        before.system <= a.system <= b.system,
        before.irq <= a.irq <= b.irq,
        before.softirq <= a.softirq <= b.softirq,
        before.steal <= a.steal <= b.steal,
        before.idle <= b.idle <= a.idle,
        before.iowait <= b.iowait <= a.iowait,
        a != b,
        a.user + a.nice + a.system + a.idle + a.iowait + a.irq + a.softirq + a.steal <= u64::MAX,
        b.user + b.nice + b.system + b.idle + b.iowait + b.irq + b.softirq + b.steal == a.user
            + a.nice + a.system + a.idle + a.iowait + a.irq + a.softirq + a.steal,
    ensures
        a.busy_since(before) is Some,
        b.busy_since(before) is Some,
        a.busy_since(before)->0.below(b.busy_since(before)->0),
{
    busy_share_is_growth(a, before);
    busy_share_is_growth(b, before);
    let x = a.busy_since(before)->0;
    let y = b.busy_since(before)->0;
    assert(x.den == y.den);
    assert(x.num < y.num);
    assert(x.num * y.den < y.num * x.den) by (nonlinear_arith)
        requires
            x.num < y.num,
            x.den == y.den,
            x.den > 0,
    ;
}

/// The counters of a line are taken in the order the kernel writes them.
pub proof fn counters_keep_their_order(line: Seq<char>, t: CpuTimes)
    requires
        words_of(line).len() == 9,
        has_prefix(words_of(line)[0], "cpu"@),
        words_of(line)[1] == dec(t.user as nat),
        words_of(line)[2] == dec(t.nice as nat),
        words_of(line)[3] == dec(t.system as nat),
        words_of(line)[4] == dec(t.idle as nat),
        words_of(line)[5] == dec(t.iowait as nat),
        words_of(line)[6] == dec(t.irq as nat),
        words_of(line)[7] == dec(t.softirq as nat),
        words_of(line)[8] == dec(t.steal as nat),
    ensures
        cpu_line(line) == Some((words_of(line)[0], t)),
{
    let f = words_of(line).skip(1);
    let written = seq![
        t.user,
        t.nice,
        t.system,
        t.idle,
        t.iowait,
        t.irq,
        t.softirq,
        t.steal,
    ];
    assert forall|i: int| 0 <= i < f.len() implies #[trigger] f[i] == dec(written[i] as nat) by {
        assert(f[i] == words_of(line)[i + 1]);
    }
    lemma_numbers_read_back(f, written);
}

proof fn lemma_numbers_read_back(fields: Seq<Seq<char>>, written: Seq<u64>)
    requires
        fields.len() == written.len(),
        forall|i: int| 0 <= i < fields.len() ==> #[trigger] fields[i] == dec(written[i] as nat),
    ensures
        numbers_among(fields) == ints(written),
    decreases fields.len(),
{
    if fields.len() > 0 {
        let rest = fields.drop_last();
        assert forall|i: int| 0 <= i < rest.len() implies #[trigger] rest[i] == dec(
            written.drop_last()[i] as nat,
        ) by {
            assert(rest[i] == fields[i]);
        }
        lemma_numbers_read_back(rest, written.drop_last());
        lemma_number_reads_back(written.last() as nat, u64::MAX as int);
        assert(fields.last() == dec(written.last() as nat));
        assert(numbers_among(fields) == ints(written));
    } else {
        assert(numbers_among(fields) == ints(written));
    }
}

/// A line labelled `cpu` alone speaks for the whole machine and for no core;
/// one for a core adds that core and leaves the total alone; any other line
/// changes nothing.
pub proof fn cores_and_total_stay_apart(rows: Seq<Seq<char>>, line: Seq<char>)
    ensures
        match cpu_line(line) {
            Some((label, times)) => if label == "cpu"@ {
                stat_rows(rows.push(line)).0 == Some(times) && stat_rows(rows.push(line)).1
                    == stat_rows(rows).1
            } else {
                stat_rows(rows.push(line)).0 == stat_rows(rows).0 && stat_rows(rows.push(line)).1
                    == stat_rows(rows).1.push(times)
            },
            None => stat_rows(rows.push(line)) == stat_rows(rows),
        },
        cpu_line(line) matches Some((label, _)) ==> has_prefix(label, "cpu"@),
{
    assert(rows.push(line).drop_last() == rows);
}

/// Each figure of memory is that of the last line that bears its key, and no
/// other line touches it.
pub proof fn memory_figures_keep_to_their_keys(rows: Seq<Seq<char>>, line: Seq<char>)
    ensures
        ({
            let before = meminfo_rows(rows);
            let after = meminfo_rows(rows.push(line));
            match meminfo_line(line) {
                Some((key, value)) => {
                    &&& after.total_kb == (if key == "MemTotal"@ {
                        value as u64
                    } else {
                        before.total_kb
                    })
                    &&& after.available_kb == (if key == "MemAvailable"@ {
                        value as u64
                    } else {
                        before.available_kb
                    })
                    &&& after.swap_total_kb == (if key == "SwapTotal"@ {
                        value as u64
                    } else {
                        before.swap_total_kb
                    })
                    &&& after.swap_free_kb == (if key == "SwapFree"@ {
                        value as u64
                    } else {
                        before.swap_free_kb
                    })
                    &&& after.buffers_kb == (if key == "Buffers"@ {
                        value as u64
                    } else {
                        before.buffers_kb
                    })
                    &&& after.cached_kb == (if key == "Cached"@ {
                        value as u64
                    } else {
                        before.cached_kb
                    })
                },
                None => after == before,
            }
        }),
{
    assert(rows.push(line).drop_last() == rows);
    reveal_strlit("MemTotal");
    reveal_strlit("MemAvailable");
    reveal_strlit("SwapTotal");
    reveal_strlit("SwapFree");
    reveal_strlit("Buffers");
    reveal_strlit("Cached");
    assert("MemTotal"@.len() == 8 && "MemAvailable"@.len() == 12 && "SwapTotal"@.len() == 9
        && "SwapFree"@.len() == 8 && "Buffers"@.len() == 7 && "Cached"@.len() == 6);
    assert("MemTotal"@[0] == 'M' && "SwapFree"@[0] == 'S');
}

/// A line of memory figures is its key, a colon and the first number behind it.
pub proof fn memory_line_reads_back(key: Seq<char>, rest: Seq<char>, value: u64)
    requires
        !key.contains(':'),
        words_of(rest).len() > 0,
        words_of(rest)[0] == dec(value as nat),
    ensures
        meminfo_line(key + seq![':'] + rest) == Some((key, value as int)),
{
    let line = key + seq![':'] + rest;
    assert(line[key.len() as int] == ':');
    assert forall|i: int| 0 <= i < key.len() implies #[trigger] line[i] != ':' by {
        assert(line[i] == key[i]);
        assert(key.contains(key[i]));
    }
    lemma_first_of(line, ':', key.len() as int);
    assert(line.take(key.len() as int) == key);
    assert(line.skip(key.len() as int + 1) == rest);
    lemma_number_reads_back(value as nat, u64::MAX as int);
}

/// What is used and what is left make up the whole, of memory and of swap
/// alike; where more is left than there is, nothing is used.
pub proof fn used_and_left_make_the_whole(total: u64, left: u64)
    ensures
        left <= total ==> less(total, left) + left == total,
        left > total ==> less(total, left) == 0,
{
}

/// Running and existing tasks stand on their own sides of the slash.
pub proof fn tasks_read_back(runnable: u64, tasks: u64)
    ensures
        tasks_in(dec(runnable as nat) + seq!['/'] + dec(tasks as nat)) == Some(
            (runnable as int, tasks as int),
        ),
{
    let a = dec(runnable as nat);
    let b = dec(tasks as nat);
    let field = a + seq!['/'] + b;
    lemma_dec_reads_back(runnable as nat);
    assert(field[a.len() as int] == '/');
    assert forall|i: int| 0 <= i < a.len() implies #[trigger] field[i] != '/' by {
        assert(field[i] == a[i]);
        assert('0' <= a[i] <= '9');
    }
    lemma_first_of(field, '/', a.len() as int);
    assert(field.take(a.len() as int) == a);
    assert(field.skip(a.len() as int + 1) == b);
    lemma_number_reads_back(runnable as nat, u64::MAX as int);
    lemma_number_reads_back(tasks as nat, u64::MAX as int);
}

/// The three load averages are those of one, five and fifteen minutes, in that
/// order, and the tasks are those of the fourth field.
pub proof fn load_keeps_its_order(text: Seq<char>)
    ensures
        match loadavg_in(text) {
            Some(load) => {
                &&& words_of(text).len() >= 3
                &&& micros_in(words_of(text)[0]) == Some(load.one as int)
                &&& micros_in(words_of(text)[1]) == Some(load.five as int)
                &&& micros_in(words_of(text)[2]) == Some(load.fifteen as int)
                &&& words_of(text).len() == 3 ==> load.runnable == 0 && load.tasks == 0
                &&& words_of(text).len() > 3 ==> match tasks_in(words_of(text)[3]) {
                    Some((r, t)) => load.runnable == r && load.tasks == t,
                    None => load.runnable == 0 && load.tasks == 0,
                }
            },
            None => words_of(text).len() < 3 || micros_in(words_of(text)[0]) is None || micros_in(
                words_of(text)[1],
            ) is None || micros_in(words_of(text)[2]) is None,
        },
{
    if words_of(text).len() >= 3 {
        lemma_micros_fit(words_of(text)[0]);
        lemma_micros_fit(words_of(text)[1]);
        lemma_micros_fit(words_of(text)[2]);
    }
    if words_of(text).len() > 3 {
        lemma_tasks_fit(words_of(text)[3]);
    }
}

proof fn lemma_micros_fit(s: Seq<char>)
    ensures
        micros_in(s) matches Some(n) ==> i64::MIN <= n <= i64::MAX,
{
    if let Some(w) = written(s) {
        lemma_digits_are_not_negative(point_moved(w.digits, w.shift + 6));
    }
}

proof fn lemma_tasks_fit(field: Seq<char>)
    ensures
        tasks_in(field) matches Some((r, t)) ==> 0 <= r <= u64::MAX && 0 <= t <= u64::MAX,
{
    if let Some(at) = first_of(field, '/') {
        lemma_number_is_not_negative(field.take(at), 10, u64::MAX as int);
        lemma_number_is_not_negative(field.skip(at + 1), 10, u64::MAX as int);
    }
}

/// A process that was on a core for the whole interval is shown at one core,
/// one that was on it for none of it, or whose clock went backwards, or that was
/// not there before, at nothing; in between the share grows with the ticks.
pub proof fn process_share_is_time_on_a_core(ticks: u64, before: u64, nanos: u64)
    requires
        nanos > 0,
        (ticks - before) * 10_000_000 <= u64::MAX,
    ensures
        core_share(ticks, None, nanos).num == 0,
        ticks <= before ==> core_share(ticks, Some(before), nanos).num == 0,
        core_share(ticks, Some(before), nanos).den == nanos,
        ticks >= before ==> core_share(ticks, Some(before), nanos).num == (ticks - before)
            * 10_000_000,
        (ticks - before) * 10_000_000 == nanos ==> core_share(ticks, Some(before), nanos).num
            == core_share(ticks, Some(before), nanos).den,
{
}

/// The resident size of a process is its pages times the size of a page.
pub proof fn resident_size_is_pages(p: Process, prev: Map<i32, u64>, nanos: u64, page_kb: u64)
    requires
        page_kb > 0,
        page_kb * 1024 <= u64::MAX,
        p.rss_pages * (page_kb * 1024) <= u64::MAX,
    ensures
        row_for(p, prev, nanos, (page_kb * 1024) as u64).rss_kb == p.rss_pages * page_kb,
        row_for(p, prev, nanos, (page_kb * 1024) as u64).pid == p.pid,
        row_for(p, prev, nanos, (page_kb * 1024) as u64).name == p.comm,
        row_for(p, prev, nanos, (page_kb * 1024) as u64).state == p.state,
        row_for(p, prev, nanos, (page_kb * 1024) as u64).threads == p.threads,
        prev.contains_key(p.pid) ==> row_for(p, prev, nanos, (page_kb * 1024) as u64).cpu
            == core_share(p.cpu_ticks, Some(prev[p.pid]), nanos),
        !prev.contains_key(p.pid) ==> row_for(p, prev, nanos, (page_kb * 1024) as u64).cpu.num
            == 0,
{
    let pages = p.rss_pages as int;
    let kb = page_kb as int;
    assert(pages * (kb * 1024) == (pages * kb) * 1024) by (nonlinear_arith);
    assert(((pages * kb) * 1024) / 1024 == pages * kb) by (nonlinear_arith);
    assert(pages * kb <= pages * (kb * 1024)) by (nonlinear_arith)
        requires
            pages >= 0,
            kb > 0,
    ;
    assert(pages * kb >= 0) by (nonlinear_arith)
        requires
            pages >= 0,
            kb > 0,
    ;
}

/// Sorted by CPU, no row stands below one with a smaller share; of equal shares
/// the larger stands above, and of equally large the older pid. Sorted by
/// memory, size comes first and the share decides between equals.
pub proof fn process_table_reads_downwards(
    current: Seq<Process>,
    prev: Map<i32, u64>,
    nanos: u64,
    page_bytes: u64,
    i: int,
    j: int,
)
    requires
        0 <= i < j < current.len(),
    ensures
        ({
            let by_cpu = table_of(current, prev, nanos, page_bytes, SortBy::Cpu);
            let by_memory = table_of(current, prev, nanos, page_bytes, SortBy::Memory);
            &&& by_cpu.len() == current.len()
            &&& by_memory.len() == current.len()
            &&& !by_cpu[i].cpu.below(by_cpu[j].cpu)
            &&& !by_cpu[j].cpu.below(by_cpu[i].cpu) ==> by_cpu[i].rss_kb >= by_cpu[j].rss_kb && (
            by_cpu[i].rss_kb == by_cpu[j].rss_kb ==> by_cpu[i].pid <= by_cpu[j].pid)
            &&& by_memory[i].rss_kb >= by_memory[j].rss_kb
            &&& by_memory[i].rss_kb == by_memory[j].rss_kb ==> !by_memory[i].cpu.below(
                by_memory[j].cpu,
            ) && (!by_memory[j].cpu.below(by_memory[i].cpu) ==> by_memory[i].pid
                <= by_memory[j].pid)
        }),
{
    process_table_is_in_order(current, prev, nanos, page_bytes, SortBy::Cpu);
    process_table_is_in_order(current, prev, nanos, page_bytes, SortBy::Memory);
    lemma_table_is_as_long(current, prev, nanos, page_bytes, SortBy::Cpu);
    lemma_table_is_as_long(current, prev, nanos, page_bytes, SortBy::Memory);
    let by_cpu = table_of(current, prev, nanos, page_bytes, SortBy::Cpu);
    let by_memory = table_of(current, prev, nanos, page_bytes, SortBy::Memory);
    assert(!goes_above(by_cpu[j], by_cpu[i], SortBy::Cpu));
    assert(!goes_above(by_memory[j], by_memory[i], SortBy::Memory));
}

proof fn lemma_table_is_as_long(
    current: Seq<Process>,
    prev: Map<i32, u64>,
    nanos: u64,
    page_bytes: u64,
    sort: SortBy,
)
    ensures
        table_of(current, prev, nanos, page_bytes, sort).len() == current.len(),
    decreases current.len(),
{
    if current.len() > 0 {
        lemma_table_is_as_long(current.drop_last(), prev, nanos, page_bytes, sort);
        lemma_with_row_length(
            table_of(current.drop_last(), prev, nanos, page_bytes, sort),
            row_for(current.last(), prev, nanos, page_bytes),
            sort,
        );
    }
}

proof fn lemma_with_row_length(table: Seq<Row>, row: Row, sort: SortBy)
    ensures
        with_row(table, row, sort).len() == table.len() + 1,
    decreases table.len(),
{
    if table.len() > 0 && goes_above(row, table.last(), sort) {
        lemma_with_row_length(table.drop_last(), row, sort);
    }
}

/// The name of a process is all that stands between the first opening bracket
/// and the last closing one, brackets and blanks of its own included; its times
/// are the sum of those spent for it and by the kernel on its behalf.
pub proof fn process_reads_back(p: Process, name: Seq<char>, rest: Seq<char>, user: u64, system: u64)
    requires
        !rest.contains(')'),
        user + system <= u64::MAX,
        words_of(rest).len() > 21,
        words_of(rest)[0].len() > 0,
        words_of(rest)[0][0] == p.state,
        words_of(rest)[11] == dec(user as nat),
        words_of(rest)[12] == dec(system as nat),
        words_of(rest)[17] == dec(p.threads as nat),
        words_of(rest)[19] == dec(p.start_ticks as nat),
        words_of(rest)[21] == dec(p.rss_pages as nat),
        p.comm == name,
        p.cpu_ticks == user + system,
        p.pid >= 0,
    ensures
        process_in(dec(p.pid as nat) + seq![' ', '('] + name + seq![')'] + rest) == Some(p),
{
    let id = dec(p.pid as nat);
    let text = id + seq![' ', '('] + name + seq![')'] + rest;
    lemma_dec_reads_back(p.pid as nat);
    lemma_dec_is_no_space(p.pid as nat);
    let open = id.len() as int + 1;
    let close = id.len() as int + 2 + name.len();
    assert forall|i: int| 0 <= i < open implies #[trigger] text[i] != '(' by {
        if i < id.len() {
            assert(text[i] == id[i]);
            assert('0' <= id[i] <= '9');
        }
    }
    lemma_first_of(text, '(', open);
    assert(text[close] == ')');
    assert forall|i: int| close < i < text.len() implies #[trigger] text[i] != ')' by {
        assert(text[i] == rest[i - close - 1]);
        assert(rest.contains(rest[i - close - 1]));
    }
    lemma_last_of(text, ')', close);
    assert(text.take(open) == Seq::<char>::empty() + id + seq![' ']);
    lemma_trimmed_around(Seq::empty(), id, seq![' ']);
    lemma_number_reads_back(p.pid as nat, i64::MAX as int);
    assert('0' <= id[0] <= '9');
    assert(signed_number(id) == Some(p.pid as int));
    assert(text.skip(close + 1) == rest);
    assert(text.subrange(open + 1, close) == name);
    lemma_number_reads_back(user as nat, u64::MAX as int);
    lemma_number_reads_back(system as nat, u64::MAX as int);
    lemma_number_reads_back(p.threads as nat, u64::MAX as int);
    lemma_number_reads_back(p.start_ticks as nat, u64::MAX as int);
    lemma_number_reads_back(p.rss_pages as nat, u64::MAX as int);
}

/// A history holds the newest readings in their order: it loses one only when
/// it is full, and then the oldest.
pub proof fn history_keeps_the_newest(history: Seq<Ratio>, frac: Ratio, cap: nat)
    requires
        cap > 0,
        history.len() <= cap,
    ensures
        history.len() < cap ==> bounded_push(history, frac, cap) == history.push(frac.capped()),
        history.len() == cap ==> bounded_push(history, frac, cap) == history.drop_first().push(
            frac.capped(),
        ),
{
    if history.len() == cap {
        assert(history.push(frac.capped()).skip(1) == history.drop_first().push(frac.capped()));
    }
}

/// What is known of a process is used only for that process: not for a later
/// one that was given its pid.
pub proof fn reused_pid_is_a_stranger(
    row: Row,
    details: Map<i32, Details>,
    starts: Map<i32, u64>,
)
    requires
        starts.contains_key(row.pid),
        details.contains_key(row.pid) ==> details[row.pid].start_ticks != starts[row.pid],
    ensures
        row_with(row, details, starts) == row,
        !known_for(details, starts, row.pid),
{
}

/// A process is asked about exactly when it is in the rows that are shown with
/// their details and nothing is known of it yet.
pub proof fn only_strangers_are_asked_about(
    table: Seq<Row>,
    depth: nat,
    details: Map<i32, Details>,
    starts: Map<i32, u64>,
    pid: i32,
)
    ensures
        unknown_pids(table, depth, details, starts).contains(pid) <==> exists|i: int|
            0 <= i < table.len() && i < depth && (#[trigger] table[i]).pid == pid && !(
            details.contains_key(pid) && details[pid].start_ticks == (if starts.contains_key(pid) {
                starts[pid]
            } else {
                0
            })),
    decreases table.len(),
{
    if table.len() > 0 {
        let rest = table.drop_last();
        let before = unknown_pids(rest, depth, details, starts);
        let all = unknown_pids(table, depth, details, starts);
        only_strangers_are_asked_about(rest, depth, details, starts, pid);
        if before.contains(pid) {
            let k = choose|k: int| 0 <= k < before.len() && before[k] == pid;
            assert(all[k] == pid);
            let i = choose|i: int|
                0 <= i < rest.len() && i < depth && (#[trigger] rest[i]).pid == pid && !known_for(
                    details,
                    starts,
                    pid,
                );
            assert(table[i] == rest[i]);
        }
        if all.contains(pid) && !before.contains(pid) {
            let k = choose|k: int| 0 <= k < all.len() && all[k] == pid;
            assert(k == before.len());
            assert(table[table.len() - 1].pid == pid);
        }
        if table.len() <= depth && table.last().pid == pid && !known_for(details, starts, pid) {
            assert(all[before.len() as int] == pid);
        }
        assert forall|i: int|
            0 <= i < table.len() && i < depth && (#[trigger] table[i]).pid == pid && !known_for(
                details,
                starts,
                pid,
            ) implies all.contains(pid) by {
            if i < rest.len() {
                assert(rest[i] == table[i]);
                assert(before.contains(pid));
            }
        }
    }
}

/// What was found out about a running process is known from then on, and what
/// was known of the others stays known.
pub proof fn what_is_found_is_known(
    details: Map<i32, Details>,
    starts: Map<i32, u64>,
    found: Seq<Found>,
    pid: i32,
)
    ensures
        (exists|i: int| 0 <= i < found.len() && (#[trigger] found[i]).pid == pid) ==> known_for(
            learned(details, starts, found),
            starts,
            pid,
        ),
        (forall|i: int| 0 <= i < found.len() ==> (#[trigger] found[i]).pid != pid) ==> (known_for(
            learned(details, starts, found),
            starts,
            pid,
        ) <==> known_for(details, starts, pid)),
        (forall|i: int, j: int| 0 <= i < j < found.len() ==> found[i].pid != found[j].pid)
            ==> forall|i: int|
            0 <= i < found.len() ==> learned(details, starts, found)[(
            #[trigger] found[i]).pid].user == found[i].user && learned(
                details,
                starts,
                found,
            )[found[i].pid].cmdline == found[i].cmdline,
    decreases found.len(),
{
    if found.len() > 0 {
        let rest = found.drop_last();
        what_is_found_is_known(details, starts, rest, pid);
        assert forall|i: int| 0 <= i < rest.len() implies #[trigger] rest[i] == found[i] by {}
        if exists|i: int| 0 <= i < found.len() && (#[trigger] found[i]).pid == pid {
            let i = choose|i: int| 0 <= i < found.len() && (#[trigger] found[i]).pid == pid;
            if i < rest.len() {
                assert(rest[i].pid == pid);
            }
        }
        if forall|i: int| 0 <= i < found.len() ==> (#[trigger] found[i]).pid != pid {
            assert(found[found.len() - 1].pid != pid);
            assert(forall|i: int| 0 <= i < rest.len() ==> (#[trigger] rest[i]).pid != pid);
        }
        if forall|i: int, j: int| 0 <= i < j < found.len() ==> found[i].pid != found[j].pid {
            assert(forall|i: int, j: int|
                0 <= i < j < rest.len() ==> rest[i].pid != rest[j].pid);
            assert forall|i: int| 0 <= i < found.len() implies learned(details, starts, found)[(
            #[trigger] found[i]).pid].user == found[i].user && learned(
                details,
                starts,
                found,
            )[found[i].pid].cmdline == found[i].cmdline by {
                if i < rest.len() {
                    assert(rest[i] == found[i]);
                    assert(found[i].pid != found[found.len() - 1].pid);
                }
            }
        }
    }
}

/// Only the rows that are shown with their details get them, in their place,
/// and nothing else of any row changes.
pub proof fn details_reach_only_the_rows_shown(
    table: Seq<Row>,
    depth: nat,
    details: Map<i32, Details>,
    starts: Map<i32, u64>,
    i: int,
)
    requires
        0 <= i < table.len(),
    ensures
        ({
            let after = table_with(table, depth, details, starts);
            &&& after.len() == table.len()
            &&& after[i] == (Row { user: after[i].user, cmdline: after[i].cmdline, ..table[i] })
            &&& i >= depth ==> after[i] == table[i]
            &&& i < depth && known_for(details, starts, table[i].pid) ==> after[i].user
                == details[table[i].pid].user@ && after[i].cmdline
                == details[table[i].pid].cmdline@
        }),
{
}

/// Details are kept for the processes that are still there and for no others.
pub proof fn the_gone_are_forgotten(details: Map<i32, Details>, starts: Map<i32, u64>, pid: i32)
    ensures
        still_known(details, starts).contains_key(pid) <==> details.contains_key(pid)
            && starts.contains_key(pid),
        still_known(details, starts).contains_key(pid) ==> still_known(details, starts)[pid]
            == details[pid],
{
}

/// An account is the first that has the number, and a number that nobody has is
/// shown as it is.
pub proof fn account_is_the_first_with_the_number(rows: Seq<Seq<char>>, uid: u64)
    ensures
        (forall|i: int| 0 <= i < rows.len() ==> account_in(#[trigger] rows[i], uid as int) is None)
            ==> account_among(rows, uid) == dec(uid as nat),
        (exists|i: int| 0 <= i < rows.len() && account_in(#[trigger] rows[i], uid as int) is Some)
            ==> exists|i: int|
            {
                &&& 0 <= i < rows.len()
                &&& account_in(#[trigger] rows[i], uid as int) == Some(account_among(rows, uid))
                &&& forall|j: int|
                    0 <= j < i ==> account_in(#[trigger] rows[j], uid as int) is None
            },
    decreases rows.len(),
{
    if rows.len() > 0 {
        if account_in(rows[0], uid as int) is None {
            let rest = rows.drop_first();
            account_is_the_first_with_the_number(rest, uid);
            if exists|i: int|
                0 <= i < rows.len() && account_in(#[trigger] rows[i], uid as int) is Some {
                let i = choose|i: int|
                    0 <= i < rows.len() && account_in(#[trigger] rows[i], uid as int) is Some;
                assert(rest[i - 1] == rows[i]);
                let k = choose|k: int|
                    {
                        &&& 0 <= k < rest.len()
                        &&& account_in(#[trigger] rest[k], uid as int) == Some(
                            account_among(rest, uid),
                        )
                        &&& forall|j: int|
                            0 <= j < k ==> account_in(#[trigger] rest[j], uid as int) is None
                    };
                assert(rows[k + 1] == rest[k]);
                assert forall|j: int| 0 <= j < k + 1 implies account_in(
                    #[trigger] rows[j],
                    uid as int,
                ) is None by {
                    if j > 0 {
                        assert(rows[j] == rest[j - 1]);
                    }
                }
            } else {
                assert forall|i: int| 0 <= i < rest.len() implies account_in(
                    #[trigger] rest[i],
                    uid as int,
                ) is None by {
                    assert(rest[i] == rows[i + 1]);
                }
            }
        } else {
            assert(account_in(rows[0], uid as int) is Some);
        }
    }
}

/// A line of accounts has the name first and the number third, between colons.
pub proof fn account_line_reads_back(line: Seq<char>, uid: u64, other: u64)
    requires
        split_at_char(line, ':').len() > 2,
        split_at_char(line, ':')[2] == dec(uid as nat),
        other != uid,
    ensures
        account_in(line, uid as int) == Some(split_at_char(line, ':')[0]),
        account_in(line, other as int) is None,
{
    lemma_number_reads_back(uid as nat, u64::MAX as int);
}

/// A closing NUL, which a well-behaved process leaves behind its last argument,
/// adds no argument.
pub proof fn closing_nul_is_no_argument(raw: Seq<u8>)
    ensures
        cmdline_in(raw.push(0)) == cmdline_in(raw),
{
    assert(raw.push(0).drop_last() == raw);
    let before = nul_pieces(raw);
    assert(nul_pieces(raw.push(0)) == before.push(Seq::empty()));
    assert(before.push(Seq::<u8>::empty()).drop_last() == before);
}

/// The share of a core is taken between two readings of that very core; one
/// that has only just appeared has none.
pub proof fn each_core_is_measured_against_itself(
    now: Seq<CpuTimes>,
    before: Seq<CpuTimes>,
    i: int,
)
    requires
        0 <= i < now.len(),
    ensures
        core_shares(now, before).len() == now.len(),
        i < before.len() ==> core_shares(now, before)[i] == now[i].busy_since(before[i]),
        i >= before.len() ==> core_shares(now, before)[i] is None,
{
}

/// The history of a core grows only by readings of that core, and a core with
/// no reading keeps the history it had.
pub proof fn each_core_keeps_its_own_history(
    before: Seq<Seq<Ratio>>,
    shares: Seq<Option<Ratio>>,
    i: int,
)
    requires
        0 <= i < shares.len(),
        i < before.len(),
        before[i].len() <= 64,
    ensures
        core_histories(before, shares).len() == shares.len(),
        shares[i] is None ==> core_histories(before, shares)[i] == before[i],
        shares[i] matches Some(share) ==> core_histories(before, shares)[i].last()
            == share.capped() && core_histories(before, shares)[i].len() <= 64
            && core_histories(before, shares)[i].len() >= before[i].len(),
{
}

/// The details of the first eighty rows are looked up, and with a filter set
/// those of all of them, since the filter looks at them.
pub proof fn details_are_looked_up_where_needed(filter: Seq<char>, rows: nat)
    ensures
        filter.len() == 0 ==> detail_depth(filter, rows) == 80,
        filter.len() > 0 ==> detail_depth(filter, rows) == rows,
{
}

/// The uptime is the first figure, in whole seconds, and the second figure has
/// no say in it.
pub proof fn uptime_reads_back(seconds: u64, part: Seq<char>, idle: Seq<char>)
    requires
        part.len() > 0,
        forall|i: int| 0 <= i < part.len() ==> '0' <= #[trigger] part[i] <= '9',
        idle.len() > 0,
        forall|i: int| 0 <= i < idle.len() ==> !is_space(#[trigger] idle[i]),
    ensures
        uptime_in(dec(seconds as nat) + seq!['.'] + part + seq![' '] + idle) == Some(
            seconds as int,
        ),
        uptime_in(Seq::empty()) is None,
{
    let first = dec(seconds as nat) + seq!['.'] + part;
    lemma_dec_is_no_space(seconds as nat);
    assert forall|i: int| 0 <= i < first.len() implies !is_space(#[trigger] first[i]) by {
        let n = dec(seconds as nat).len();
        if i < n {
            assert(first[i] == dec(seconds as nat)[i]);
        } else if i > n {
            assert(first[i] == part[i - n - 1]);
        }
    }
    whole_part_reads_back(seconds, part);
    words_read_back(first, ' ', first);
    words_read_back(first, ' ', idle);
}

/// A process is known by its number: by the last line that has it, with what
/// that line says of its time and of its start.
pub proof fn processes_are_known_by_number(v: Seq<Process>, i: int)
    requires
        0 <= i < v.len(),
        forall|j: int| i < j < v.len() ==> #[trigger] v[j].pid != v[i].pid,
    ensures
        ticks_by_pid(v).dom().contains(v[i].pid),
        ticks_by_pid(v)[v[i].pid] == v[i].cpu_ticks,
        starts_by_pid(v).dom().contains(v[i].pid),
        starts_by_pid(v)[v[i].pid] == v[i].start_ticks,
    decreases v.len(),
{
    if i < v.len() - 1 {
        let before = v.drop_last();
        assert forall|j: int| i < j < before.len() implies #[trigger] before[j].pid
            != before[i].pid by {
            assert(v[j].pid != v[i].pid);
        }
        processes_are_known_by_number(before, i);
        assert(v[v.len() - 1].pid != v[i].pid);
    }
}

/// A number that no line has is not known.
pub proof fn strange_numbers_are_not_known(v: Seq<Process>, pid: i32)
    requires
        forall|j: int| 0 <= j < v.len() ==> #[trigger] v[j].pid != pid,
    ensures
        !ticks_by_pid(v).dom().contains(pid),
        !starts_by_pid(v).dom().contains(pid),
    decreases v.len(),
{
    if v.len() > 0 {
        let before = v.drop_last();
        assert forall|j: int| 0 <= j < before.len() implies #[trigger] before[j].pid != pid by {
            assert(v[j].pid != pid);
        }
        strange_numbers_are_not_known(before, pid);
        assert(v[v.len() - 1].pid != pid);
    }
}

} // verus!
