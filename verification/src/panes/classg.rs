//! The ClassG pane: what the API on this box says about itself.
//!
//! Degraded, never fatal. An API that is not up is a normal state on a bare
//! unit, so a failed poll produces a line saying where it looked and how to
//! start it, and every other pane carries on at its own rate.
//!
//! What is carried follows the API's own rule: an option over a default that
//! lies. A disk with nothing free reads as an emergency; "unknown" is the truth.
//! Measurements that the API reports as fractions are kept in millionths.

use vstd::prelude::*;

use super::radios::{push_window, window_push};
use crate::config::{clean_text, set_text};
use crate::format::{clip, clipped, compact_count, count_text};
use crate::numeric::{signed_quotient_text, write_signed_quotient};
use crate::text::{
    chars_of, comes_before, dec, decimal, has_prefix, has_suffix, join, joined,
    lemma_text_order_carries, lemma_text_order_is_strict, lemma_trimmed_twice, no_texts, opt_view,
    push_text, same, starts_with, strip_end, stripped_end, take, text_before, text_or, texts, trim,
    trimmed,
};

verus! {

/// The most tracks that are asked for.
pub const MAX_ROWS: usize = 40;

/// The most detections that are asked for: the API's own cap.
pub const MAX_DETECTION_ROWS: usize = 200;

/// Polls between refreshes of what moves slowly.
pub const SLOW_EVERY: u64 = 10;

/// The point in time that an RFC 3339 text names: seconds since the epoch, and
/// nanoseconds.
pub uninterp spec fn rfc3339_instant(text: Seq<char>) -> Option<(int, int)>;

/// `chrono::DateTime::parse_from_rfc3339`, as seconds since the epoch and
/// nanoseconds into the second: a function of the text alone. In a leap second
/// the nanoseconds go up to two seconds' worth.
#[verifier::external_body]
fn parse_rfc3339(text: &str) -> (r: Option<(i64, u32)>)
    ensures
        match r {
            Some((secs, nanos)) => rfc3339_instant(text@) == Some((secs as int, nanos as int))
                && nanos < 2_000_000_000,
            None => rfc3339_instant(text@) is None,
        },
{
    chrono::DateTime::parse_from_rfc3339(text).ok().map(
        |t| (t.timestamp(), t.timestamp_subsec_nanos()),
    )
}

/// Whether a number of seconds since the epoch falls in the years that dates
/// are reckoned in, from -262143 to 262142.
pub open spec fn epoch_representable(secs: int) -> bool {
    -8_334_601_228_800 <= secs <= 8_210_266_876_799
}

/// `chrono::DateTime::from_timestamp`: it gives a date for any second of the
/// years that `NaiveDate` spans, and `None` outside them.
#[verifier::external_body]
fn epoch_in_range(secs: i64, nanos: u32) -> (r: bool)
    requires
        nanos <= 999_999_999,
    ensures
        r == epoch_representable(secs as int),
{
    chrono::DateTime::from_timestamp(secs, nanos).is_some()
}

/// A timestamp: seconds since the epoch, and nanoseconds.
///
/// Two encodings of it are on the bus, a text and a fractional number of
/// seconds, and anything reading detections has to accept both.
#[derive(Debug, Clone, Copy, PartialEq, Eq, Structural)]
pub struct FlexTime {
    pub secs: i64,
    pub nanos: u32,
}

/// Whole seconds in a number of nanoseconds, rounded towards zero.
pub open spec fn whole_seconds(nanos: int) -> int {
    if nanos < 0 {
        -((-nanos) / 1_000_000_000)
    } else {
        nanos / 1_000_000_000
    }
}

/// A number within an `i64`, or its nearest bound.
pub open spec fn within_i64(n: int) -> int {
    if n > i64::MAX {
        i64::MAX as int
    } else if n < i64::MIN {
        i64::MIN as int
    } else {
        n
    }
}

impl FlexTime {
    /// The time of an RFC 3339 text.
    pub fn from_text(text: &str) -> (r: Option<FlexTime>)
        ensures
            match r {
                Some(t) => rfc3339_instant(text@) == Some((t.secs as int, t.nanos as int)),
                None => rfc3339_instant(text@) is None,
            },
    {
        match parse_rfc3339(text) {
            Some((secs, nanos)) => Some(FlexTime { secs, nanos }),
            None => None,
        }
    }

    /// The time of a number of seconds, with nanoseconds.
    pub fn from_epoch(secs: i64, nanos: u32) -> (r: Option<FlexTime>)
        ensures
            ({
                let n: u32 = if nanos > 999_999_999 {
                    999_999_999
                } else {
                    nanos
                };
                r == if epoch_representable(secs as int) {
                    Some(FlexTime { secs, nanos: n })
                } else {
                    None
                }
            }),
    {
        let n: u32 = if nanos > 999_999_999 {
            999_999_999
        } else {
            nanos
        };
        if epoch_in_range(secs, n) {
            Some(FlexTime { secs, nanos: n })
        } else {
            None
        }
    }

    /// The second of its day.
    pub open spec fn second_of_day(self) -> int {
        self.secs as int % 86_400
    }

    /// Whether it falls in a leap second, which is kept as more nanoseconds than
    /// a second has.
    pub open spec fn leaps(self) -> bool {
        self.nanos >= 1_000_000_000
    }

    /// The leap second to count between this time and `now`: the one that
    /// whichever comes first on the clock falls in. It is the times of day that
    /// are compared, whatever the days.
    pub open spec fn leap_between(self, now: FlexTime) -> int {
        if now.second_of_day() > self.second_of_day() && self.leaps() {
            1
        } else if now.second_of_day() < self.second_of_day() && now.leaps() {
            -1
        } else {
            0
        }
    }

    /// Whole seconds from this time to `now`. Negative when it is stamped in
    /// the future.
    pub open spec fn age(self, now: FlexTime) -> int {
        within_i64(
            whole_seconds(
                (now.secs - self.secs + self.leap_between(now)) * 1_000_000_000 + (now.nanos
                    - self.nanos),
            ),
        )
    }

    fn day_second(&self) -> (r: u32)
        ensures
            r == self.second_of_day(),
    {
        let shifted: i128 = self.secs as i128 + 86_400 * 200_000_000_000_000;
        (shifted as u128 % 86_400) as u32
    }

    pub fn age_secs(&self, now: FlexTime) -> (r: i64)
        ensures
            r == self.age(now),
    {
        let then_second: u32 = self.day_second();
        let now_second: u32 = now.day_second();
        let leap: i128 = if now_second > then_second && self.nanos >= 1_000_000_000 {
            1
        } else if now_second < then_second && now.nanos >= 1_000_000_000 {
            -1
        } else {
            0
        };
        let nanos: i128 = (now.secs as i128 - self.secs as i128 + leap) * 1_000_000_000 + (now.nanos
            as i128 - self.nanos as i128);
        let size: u128 = if nanos < 0 {
            (-nanos) as u128
        } else {
            nanos as u128
        };
        let whole: u128 = size / 1_000_000_000;
        if nanos < 0 {
            if whole > 0x8000_0000_0000_0000 {
                i64::MIN
            } else {
                (-(whole as i128)) as i64
            }
        } else {
            if whole > 0x7fff_ffff_ffff_ffff {
                i64::MAX
            } else {
                whole as i64
            }
        }
    }

    /// Whether this is before `other`.
    pub open spec fn earlier(self, other: FlexTime) -> bool {
        self.secs < other.secs || (self.secs == other.secs && self.nanos < other.nanos)
    }
}

/// The name of a detection class. The letter alone is not a fact anyone can
/// check; a class this build does not know has no name.
pub open spec fn class_name(code: Seq<char>) -> Seq<char> {
    if code == "A"@ {
        "Remote ID"@
    } else if code == "B"@ {
        "DJI DroneID"@
    } else if code == "C"@ {
        "OUI/SSID"@
    } else if code == "D"@ {
        "ADS-B"@
    } else if code == "E"@ {
        "Control link"@
    } else if code == "F"@ {
        "Analog FPV"@
    } else if code == "G"@ {
        "BLE RemoteID"@
    } else if code == "H"@ {
        "GNSS"@
    } else {
        ""@
    }
}

pub fn detection_class_label(code: &str) -> (r: &'static str)
    ensures
        r@ == class_name(code@),
{
    if same(code, "A") {
        "Remote ID"
    } else if same(code, "B") {
        "DJI DroneID"
    } else if same(code, "C") {
        "OUI/SSID"
    } else if same(code, "D") {
        "ADS-B"
    } else if same(code, "E") {
        "Control link"
    } else if same(code, "F") {
        "Analog FPV"
    } else if same(code, "G") {
        "BLE RemoteID"
    } else if same(code, "H") {
        "GNSS"
    } else {
        ""
    }
}

/// Evidence classes that corroborate an identification but never make one: an
/// OUI names whoever built the radio, manned traffic is there to be left out,
/// and the last is a noise floor.
pub open spec fn corroborates_only(class: Seq<char>) -> bool {
    class == "C"@ || class == "D"@ || class == "H"@
}

pub fn is_corroborating_only(class: &str) -> (r: bool)
    ensures
        r == corroborates_only(class@),
{
    same(class, "C") || same(class, "D") || same(class, "H")
}

/// One sensor, as the API's health reports it.
#[derive(Debug, Default)]
pub struct SensorHealth {
    pub sensor_id: String,
    pub sensor_kind: String,
    pub healthy: bool,
    /// Hardware this unit may not have fitted.
    pub optional: bool,
    pub seconds_since_heartbeat: Option<i64>,
    pub detections_5m: u64,
    pub reason: Option<String>,
}

#[derive(Debug, Default)]
pub struct FusionHealth {
    pub connected: bool,
    pub configured: bool,
    pub last_message: Option<FlexTime>,
    pub reason: Option<String>,
}

#[derive(Debug, Default)]
pub struct HealthResponse {
    pub status: String,
    pub uptime_s: u64,
    pub version: String,
    pub sensors: Vec<SensorHealth>,
    pub fusion: Option<FusionHealth>,
}

/// The recording switch. A paused unit is indistinguishable from a quiet sky
/// everywhere else.
#[derive(Debug, Default)]
pub struct MonitoringState {
    pub enabled: bool,
    pub since: Option<FlexTime>,
    /// What the operator gave as the reason for pausing.
    pub reason: Option<String>,
    /// Detections discarded while paused.
    pub discarded: u64,
}

#[derive(Debug, Default)]
pub struct AuthUser {
    pub username: String,
    pub role: String,
}

#[derive(Debug, Default)]
pub struct AuthState {
    pub authenticated: bool,
    pub auth_enabled: bool,
    pub setup_required: bool,
    pub user: Option<AuthUser>,
}

#[derive(Debug, Default)]
pub struct SystemBuild {
    pub version: String,
    pub revision: Option<String>,
    pub revision_dirty: bool,
}

#[derive(Debug, Default)]
pub struct SystemRuntime {
    pub store: String,
    pub turso_sync_configured: bool,
    pub containerised: bool,
}

/// Every figure is an option: a value that could not be read is never a zero.
#[derive(Debug, Default)]
pub struct SystemHost {
    pub disk_path: String,
    pub disk_total_bytes: Option<u64>,
    pub disk_free_bytes: Option<u64>,
}

#[derive(Debug, Default)]
pub struct SystemInfo {
    pub build: SystemBuild,
    pub runtime: SystemRuntime,
    pub host: SystemHost,
}

impl SystemInfo {
    /// The version, and seven characters of the revision where there is one:
    /// what tells whether the binary running here is the one last deployed.
    pub open spec fn build_words(self) -> Seq<char> {
        match self.build.revision {
            Some(revision) if revision@.len() > 0 => {
                let base = self.build.version@ + "+"@ + clipped(revision@, 7);
                if self.build.revision_dirty {
                    base + "-dirty"@
                } else {
                    base
                }
            },
            _ => self.build.version@,
        }
    }

    pub fn build_label(&self) -> (r: String)
        ensures
            r@ == self.build_words(),
    {
        let mut label = self.build.version.clone();
        if let Some(revision) = &self.build.revision {
            if !revision.as_str().is_empty() {
                label.append("+");
                label.append(clip(revision.as_str(), 7).as_str());
                if self.build.revision_dirty {
                    label.append("-dirty");
                }
            }
        }
        label
    }
}

#[derive(Debug, Default)]
pub struct CaptureAnalysis {
    pub analyzed: bool,
    pub drone_transmitters: u64,
}

/// One packet capture. It takes the monitor interface exclusively, so a running
/// one explains a sensor that has gone quiet.
#[derive(Debug, Default)]
pub struct Capture {
    pub state: String,
    pub started_at: Option<FlexTime>,
    pub iface: String,
    pub channel: u32,
    pub duration_s: u64,
    pub frame_count: u64,
    pub label: Option<String>,
    pub error: Option<String>,
    pub analysis: Option<CaptureAnalysis>,
}

#[derive(Debug, Default)]
pub struct CapturePage {
    pub captures: Vec<Capture>,
}

/// One band, measured once. A sweep borrows the SDR for its duration.
#[derive(Debug, Default)]
pub struct SpectrumSweep {
    pub band: String,
    pub state: String,
    pub started_at: Option<FlexTime>,
    /// In millionths of a decibel.
    pub peak_dbfs: Option<i64>,
    /// Steps that read short.
    pub short_reads: u64,
    pub error: Option<String>,
}

#[derive(Debug, Default)]
pub struct SweepPage {
    pub sweeps: Vec<SpectrumSweep>,
}

#[derive(Debug, Default)]
pub struct Identity {
    pub serial: Option<String>,
    pub vendor: Option<String>,
    pub model_hint: Option<String>,
    pub vendor_hint: Option<String>,
    /// Detections carry one MAC; tracks carry those they have merged.
    pub mac: Option<String>,
    pub macs: Option<Vec<String>>,
}

impl Identity {
    /// The first of the merged MACs, or else the one.
    pub open spec fn first_mac(self) -> Option<Seq<char>> {
        match self.macs {
            Some(macs) if macs@.len() > 0 => Some(macs@[0]@),
            _ => opt_view(self.mac),
        }
    }

    /// The most specific name that the identity carries, blanks left out: a
    /// model, a vendor, a hint of one, a serial, and a MAC last of all, which
    /// names a radio rather than an aircraft.
    pub open spec fn name(self) -> Seq<char> {
        if set_text(opt_view(self.model_hint)) is Some {
            set_text(opt_view(self.model_hint))->0
        } else if set_text(opt_view(self.vendor)) is Some {
            set_text(opt_view(self.vendor))->0
        } else if set_text(opt_view(self.vendor_hint)) is Some {
            set_text(opt_view(self.vendor_hint))->0
        } else if set_text(opt_view(self.serial)) is Some {
            set_text(opt_view(self.serial))->0
        } else if set_text(self.first_mac()) is Some {
            set_text(self.first_mac())->0
        } else {
            "unknown"@
        }
    }

    pub fn label(&self) -> (r: String)
        ensures
            r@ == self.name(),
    {
        if let Some(t) = clean_text(&self.model_hint) {
            return t;
        }
        if let Some(t) = clean_text(&self.vendor) {
            return t;
        }
        if let Some(t) = clean_text(&self.vendor_hint) {
            return t;
        }
        if let Some(t) = clean_text(&self.serial) {
            return t;
        }
        let mac = match &self.macs {
            Some(macs) => if macs.len() > 0 {
                let first = trim(macs[0].as_str());
                if first.as_str().is_empty() {
                    None
                } else {
                    Some(first)
                }
            } else {
                clean_text(&self.mac)
            },
            None => clean_text(&self.mac),
        };
        match mac {
            Some(t) => t,
            None => "unknown".to_owned(),
        }
    }
}

#[derive(Debug, Default)]
pub struct Evidence {
    pub class: String,
    pub count: u64,
}

/// Millionths of a metre, and of a metre a second.
#[derive(Debug, Default)]
pub struct Position {
    pub height_agl_m: Option<i64>,
    pub alt_geodetic_m: Option<i64>,
    pub speed_mps: Option<i64>,
}

impl Position {
    /// Height above ground if it was reported, geodetic altitude otherwise, and
    /// which of the two it is: they are not interchangeable.
    pub open spec fn height(self) -> Option<(i64, Seq<char>)> {
        match (self.height_agl_m, self.alt_geodetic_m) {
            (Some(agl), _) => Some((agl, "agl"@)),
            (None, Some(alt)) => Some((alt, "alt"@)),
            (None, None) => None,
        }
    }

    pub fn altitude(&self) -> (r: Option<(i64, &'static str)>)
        ensures
            match r {
                Some((n, unit)) => self.height() == Some((n, unit@)),
                None => self.height() is None,
            },
    {
        match (self.height_agl_m, self.alt_geodetic_m) {
            (Some(agl), _) => Some((agl, "agl")),
            (None, Some(alt)) => Some((alt, "alt")),
            (None, None) => None,
        }
    }
}

#[derive(Debug, Default)]
pub struct Track {
    pub state: String,
    /// In millionths.
    pub confidence: i64,
    pub first_seen: Option<FlexTime>,
    pub last_seen: Option<FlexTime>,
    pub detection_count: u64,
    pub identity: Option<Identity>,
    pub evidence: Vec<Evidence>,
    pub current: Option<Position>,
    /// In millionths of a decibel.
    pub rssi_dbm: Option<i64>,
    pub adsb_correlated: bool,
}

/// The stronger of two pieces of evidence: an identifying class over a
/// corroborating one however often that repeated, then the higher count, then
/// the later in the list.
pub open spec fn stronger(a: Evidence, b: Evidence) -> Evidence {
    let a_names = !corroborates_only(a.class@);
    let b_names = !corroborates_only(b.class@);
    if a_names && !b_names {
        a
    } else if !a_names && b_names {
        b
    } else if b.count >= a.count {
        b
    } else {
        a
    }
}

/// The strongest piece of evidence that names its class.
pub open spec fn strongest(evidence: Seq<Evidence>) -> Option<Evidence>
    decreases evidence.len(),
{
    if evidence.len() == 0 {
        None
    } else {
        let before = strongest(evidence.drop_last());
        let e = evidence.last();
        if e.class@.len() == 0 {
            before
        } else {
            match before {
                Some(b) => Some(stronger(b, e)),
                None => Some(e),
            }
        }
    }
}

/// A sorted list of distinct strings with one more in it.
pub open spec fn with_word(list: Seq<Seq<char>>, word: Seq<char>) -> Seq<Seq<char>>
    decreases list.len(),
{
    if list.len() == 0 {
        seq![word]
    } else if list.last() == word {
        list
    } else if text_before(word, list.last()) {
        with_word(list.drop_last(), word).push(list.last())
    } else {
        list.push(word)
    }
}

/// The classes behind a track, each once and in order.
pub open spec fn classes_of(evidence: Seq<Evidence>) -> Seq<Seq<char>>
    decreases evidence.len(),
{
    if evidence.len() == 0 {
        Seq::empty()
    } else {
        let before = classes_of(evidence.drop_last());
        if evidence.last().class@.len() == 0 {
            before
        } else {
            with_word(before, evidence.last().class@)
        }
    }
}

fn insert_word(list: &mut Vec<String>, word: &str)
    ensures
        texts(final(list)@) == with_word(texts(old(list)@), word@),
    decreases old(list)@.len(),
{
    let ghost before = texts(list@);
    let n: usize = list.len();
    if n == 0 {
        push_text(list, word.to_owned());
        assert(texts(list@) == seq![word@]);
        return;
    }
    assert(before.last() == list@[n - 1]@);
    if same(list[n - 1].as_str(), word) {
        return;
    }
    let a = chars_of(word);
    let b = chars_of(list[n - 1].as_str());
    if comes_before(&a, &b) {
        if let Some(last) = list.pop() {
            assert(texts(list@) == before.drop_last());
            insert_word(list, word);
            push_text(list, last);
        }
    } else {
        push_text(list, word.to_owned());
    }
}

impl Track {
    /// Whether anything has identified this contact as an aircraft, as opposed
    /// to merely being consistent with one. No evidence at all is missing data,
    /// not weak data, and does not demote it.
    pub open spec fn is_identified(self) -> bool {
        self.evidence@.len() == 0 || exists|i: int|
            0 <= i < self.evidence@.len() && !corroborates_only(#[trigger] self.evidence@[i].class@)
    }

    pub fn identified(&self) -> (r: bool)
        ensures
            r == self.is_identified(),
    {
        if self.evidence.len() == 0 {
            return true;
        }
        let mut i: usize = 0;
        while i < self.evidence.len()
            invariant
                i <= self.evidence@.len(),
                forall|j: int|
                    0 <= j < i ==> corroborates_only(#[trigger] self.evidence@[j].class@),
            decreases self.evidence@.len() - i,
        {
            if !is_corroborating_only(self.evidence[i].class.as_str()) {
                assert(!corroborates_only(self.evidence@[i as int].class@));
                return true;
            }
            i = i + 1;
        }
        false
    }

    /// The strongest piece of evidence, with how many times it was seen.
    pub open spec fn evidence_words(self) -> Seq<char> {
        match strongest(self.evidence@) {
            Some(e) => e.class@ + "x"@ + count_text(e.count as nat),
            None => Seq::empty(),
        }
    }

    pub fn evidence_summary(&self) -> (r: String)
        ensures
            r@ == self.evidence_words(),
    {
        let mut best: Option<usize> = None;
        let mut i: usize = 0;
        assert(self.evidence@.take(0) == Seq::<Evidence>::empty());
        while i < self.evidence.len()
            invariant
                i <= self.evidence@.len(),
                match best {
                    Some(b) => b < i && strongest(self.evidence@.take(i as int)) == Some(
                        self.evidence@[b as int],
                    ),
                    None => strongest(self.evidence@.take(i as int)) is None,
                },
            decreases self.evidence@.len() - i,
        {
            assert(self.evidence@.take(i + 1).drop_last() == self.evidence@.take(i as int));
            assert(self.evidence@.take(i + 1).last() == self.evidence@[i as int]);
            let e = &self.evidence[i];
            if !e.class.as_str().is_empty() {
                match best {
                    None => {
                        best = Some(i);
                    },
                    Some(b) => {
                        let names = !is_corroborating_only(e.class.as_str());
                        let best_names = !is_corroborating_only(self.evidence[b].class.as_str());
                        if (names && !best_names) || (names == best_names && e.count
                            >= self.evidence[b].count) {
                            best = Some(i);
                        }
                    },
                }
            }
            i = i + 1;
        }
        assert(self.evidence@.take(i as int) == self.evidence@);
        match best {
            Some(b) => {
                let mut out = self.evidence[b].class.clone();
                out.append("x");
                out.append(compact_count(self.evidence[b].count).as_str());
                out
            },
            None => String::new(),
        }
    }

    /// The evidence classes behind this track, as sorted letters.
    pub fn evidence_classes(&self) -> (r: String)
        ensures
            r@ == joined(classes_of(self.evidence@), Seq::empty()),
    {
        let mut list = no_texts();
        let mut i: usize = 0;
        assert(self.evidence@.take(0) == Seq::<Evidence>::empty());
        while i < self.evidence.len()
            invariant
                i <= self.evidence@.len(),
                texts(list@) == classes_of(self.evidence@.take(i as int)),
            decreases self.evidence@.len() - i,
        {
            assert(self.evidence@.take(i + 1).drop_last() == self.evidence@.take(i as int));
            assert(self.evidence@.take(i + 1).last() == self.evidence@[i as int]);
            if !self.evidence[i].class.as_str().is_empty() {
                insert_word(&mut list, self.evidence[i].class.as_str());
            }
            i = i + 1;
        }
        assert(self.evidence@.take(i as int) == self.evidence@);
        proof {
            reveal_strlit("");
            assert(""@ == Seq::<char>::empty());
        }
        join(&list, "")
    }
}

#[derive(Debug, Default)]
pub struct TrackPage {
    pub tracks: Vec<Track>,
    pub total: u64,
}

#[derive(Debug, Default)]
pub struct Rf {
    pub freq_hz: Option<i64>,
    pub channel: Option<u32>,
    /// In millionths of a decibel.
    pub rssi_dbm: Option<i64>,
}

impl Rf {
    /// `ch6` for what is named by channel, `915M` for what is only known by
    /// frequency. Always megahertz: one decimal of gigahertz would give two
    /// bands the same name.
    pub open spec fn tuned(self) -> Option<Seq<char>> {
        match (self.channel, self.freq_hz) {
            (Some(channel), _) => Some("ch"@ + dec(channel as nat)),
            (None, Some(hz)) => Some(signed_quotient_text(hz as int, 1_000_000, 0) + "M"@),
            (None, None) => None,
        }
    }

    pub fn tuning(&self) -> (r: Option<String>)
        ensures
            opt_view(r) == self.tuned(),
    {
        match (self.channel, self.freq_hz) {
            (Some(channel), _) => {
                let mut out = "ch".to_owned();
                out.append(decimal(channel as u64).as_str());
                Some(out)
            },
            (None, Some(hz)) => {
                let mut out = write_signed_quotient(hz, 1_000_000, 0);
                out.append("M");
                Some(out)
            },
            (None, None) => None,
        }
    }
}

#[derive(Debug, Default)]
pub struct Adsb {
    pub icao: String,
    pub callsign: Option<String>,
}

impl Adsb {
    /// A callsign if the aircraft broadcast one, the ICAO address otherwise.
    pub open spec fn name(self) -> Seq<char> {
        match set_text(opt_view(self.callsign)) {
            Some(t) => t,
            None => self.icao@,
        }
    }

    pub fn label(&self) -> (r: String)
        ensures
            r@ == self.name(),
    {
        match clean_text(&self.callsign) {
            Some(t) => t,
            None => self.icao.clone(),
        }
    }
}

#[derive(Debug, Default)]
pub struct SignalFeatures {
    pub protocol_hint: Option<String>,
}

#[derive(Debug, Default)]
pub struct Detection {
    pub ts: Option<FlexTime>,
    /// `ts` as a wall clock where the dashboard runs.
    pub clock: Option<String>,
    pub sensor_id: String,
    pub sensor_kind: String,
    pub detection_class: String,
    pub rf: Option<Rf>,
    pub identity: Option<Identity>,
    pub adsb: Option<Adsb>,
    pub signal_features: Option<SignalFeatures>,
}

impl Detection {
    /// The best short name for what was heard: a callsign for manned traffic,
    /// an identity for a drone, a protocol for a bare control link.
    pub open spec fn name(self) -> Seq<char> {
        if self.adsb is Some && self.adsb->0.name().len() > 0 {
            self.adsb->0.name()
        } else if self.identity is Some && self.identity->0.name() != "unknown"@ {
            self.identity->0.name()
        } else {
            match self.signal_features {
                Some(f) => match f.protocol_hint {
                    Some(hint) => hint@,
                    None => Seq::empty(),
                },
                None => Seq::empty(),
            }
        }
    }

    pub fn label(&self) -> (r: String)
        ensures
            r@ == self.name(),
    {
        if let Some(adsb) = &self.adsb {
            let label = adsb.label();
            if !label.as_str().is_empty() {
                return label;
            }
        }
        if let Some(identity) = &self.identity {
            let label = identity.label();
            if !same(label.as_str(), "unknown") {
                return label;
            }
        }
        match &self.signal_features {
            Some(f) => match &f.protocol_hint {
                Some(hint) => hint.clone(),
                None => String::new(),
            },
            None => String::new(),
        }
    }
}

#[derive(Debug, Default)]
pub struct DetectionPage {
    pub detections: Vec<Detection>,
    pub total: u64,
}

/// Whether two detections are of one contact, heard the same way. What has no
/// name is not known to be the same as anything.
pub open spec fn same_contact(a: Detection, b: Detection) -> bool {
    &&& a.name().len() > 0
    &&& a.name() == b.name()
    &&& a.detection_class@ == b.detection_class@
    &&& a.sensor_id@ == b.sensor_id@
}

/// A run of detections: the position of its first, and how many there are.
#[derive(Debug, Clone, Copy, PartialEq, Eq, Structural)]
pub struct Repeats {
    pub first: usize,
    pub count: usize,
}

/// Consecutive repeats of one contact folded into runs.
pub open spec fn folded(v: Seq<Detection>) -> Seq<Repeats>
    decreases v.len(),
{
    if v.len() == 0 {
        Seq::empty()
    } else {
        let before = folded(v.drop_last());
        if before.len() > 0 && same_contact(v[before.last().first as int], v.last()) {
            before.drop_last().push(
                Repeats { first: before.last().first, count: (before.last().count + 1) as usize },
            )
        } else {
            before.push(Repeats { first: (v.len() - 1) as usize, count: 1 })
        }
    }
}

fn is_same_contact(a: &Detection, b: &Detection) -> (r: bool)
    ensures
        r == same_contact(*a, *b),
{
    let name = a.label();
    !name.as_str().is_empty() && same(name.as_str(), b.label().as_str()) && same(
        a.detection_class.as_str(),
        b.detection_class.as_str(),
    ) && same(a.sensor_id.as_str(), b.sensor_id.as_str())
}

/// Folds consecutive repeats of one contact, so that one aeroplane overhead
/// does not fill the list.
pub fn collapse_runs(v: &Vec<Detection>) -> (r: Vec<Repeats>)
    ensures
        r@ == folded(v@),
        r@.len() <= v@.len(),
        v@.len() > 0 ==> r@.len() > 0,
        forall|i: int|
            0 <= i < r@.len() ==> (#[trigger] r@[i]).first < v@.len() && 1 <= r@[i].count
                <= v@.len(),
{
    let mut out: Vec<Repeats> = Vec::new();
    let mut i: usize = 0;
    let n: usize = v.len();
    assert(v@.take(0) == Seq::<Detection>::empty());
    while i < n
        invariant
            i <= n == v@.len(),
            out@ == folded(v@.take(i as int)),
            out@.len() <= i,
            i > 0 ==> out@.len() > 0,
            forall|j: int|
                0 <= j < out@.len() ==> (#[trigger] out@[j]).first < i && 1 <= out@[j].count <= i,
        decreases n - i,
    {
        let ghost here = v@.take(i + 1);
        assert(here.drop_last() == v@.take(i as int));
        assert(here.last() == v@[i as int]);
        let runs: usize = out.len();
        if runs > 0 {
            let last = out[runs - 1];
            assert(here[last.first as int] == v@[last.first as int]);
            if is_same_contact(&v[last.first], &v[i]) {
                out.pop();
                out.push(Repeats { first: last.first, count: last.count + 1 });
            } else {
                out.push(Repeats { first: i, count: 1 });
            }
        } else {
            out.push(Repeats { first: i, count: 1 });
        }
        i = i + 1;
    }
    assert(v@.take(i as int) == v@);
    out
}

/// The error that the API answers with, in its own words.
#[derive(Debug, Default)]
pub struct ApiError {
    pub code: String,
    pub message: String,
}

/// Why an endpoint gave nothing.
#[derive(Debug)]
pub struct FetchError {
    pub message: String,
    /// The API's code when it answered in its own words; `None` where nothing
    /// answered at all.
    pub code: Option<String>,
}

/// Whether a code means that the endpoint is fine and we are not logged in.
pub open spec fn refusal_code(code: Option<Seq<char>>) -> bool {
    code == Some("unauthenticated"@) || code == Some("forbidden"@) || code == Some(
        "privileges_required"@,
    ) || code == Some("setup_required"@)
}

impl FetchError {
    pub fn transport(message: String) -> (r: FetchError)
        ensures
            r.message == message,
            r.code is None,
    {
        FetchError { message, code: None }
    }

    /// Whether this is the API refusing us rather than failing.
    pub fn is_refusal(&self) -> (r: bool)
        ensures
            r == refusal_code(opt_view(self.code)),
    {
        match &self.code {
            Some(code) => same(code.as_str(), "unauthenticated") || same(
                code.as_str(),
                "forbidden",
            ) || same(code.as_str(), "privileges_required") || same(
                code.as_str(),
                "setup_required",
            ),
            None => false,
        }
    }
}

/// How this process proves who it is to the API.
#[derive(Debug, PartialEq, Eq)]
pub enum Credential {
    /// A session cookie. Can do whatever the person it belongs to can.
    Session(String),
    /// The local-agent token of this unit. Viewer only.
    Local(String),
}

/// Which of the two it was.
#[derive(Debug, Clone, Copy, PartialEq, Eq, Structural)]
pub enum CredentialKind {
    Session,
    Local,
}

/// The credential to use: a session before a local token, and blanks are none.
pub open spec fn picked(session: Option<Seq<char>>, local: Option<Seq<char>>) -> Option<
    (CredentialKind, Seq<char>),
> {
    match (set_text(session), set_text(local)) {
        (Some(t), _) => Some((CredentialKind::Session, t)),
        (None, Some(t)) => Some((CredentialKind::Local, t)),
        (None, None) => None,
    }
}

/// What an optional credential holds.
pub open spec fn held(c: Option<Credential>) -> Option<(CredentialKind, Seq<char>)> {
    match c {
        Some(Credential::Session(t)) => Some((CredentialKind::Session, t@)),
        Some(Credential::Local(t)) => Some((CredentialKind::Local, t@)),
        None => None,
    }
}

impl Credential {
    /// Picks the credential to use, discarding blanks. An empty string in a
    /// file means that it is not set, not that an empty cookie should be sent.
    pub fn pick(session: Option<String>, local: Option<String>) -> (r: Option<Credential>)
        ensures
            held(r) == picked(opt_view(session), opt_view(local)),
    {
        if let Some(token) = clean_text(&session) {
            return Some(Credential::Session(token));
        }
        match clean_text(&local) {
            Some(token) => Some(Credential::Local(token)),
            None => None,
        }
    }

    pub fn kind(&self) -> (r: CredentialKind)
        ensures
            r == match *self {
                Credential::Session(_) => CredentialKind::Session,
                Credential::Local(_) => CredentialKind::Local,
            },
    {
        match self {
            Credential::Session(_) => CredentialKind::Session,
            Credential::Local(_) => CredentialKind::Local,
        }
    }
}

/// The credential after a token was read off this host again: the new token in
/// place of an old one. Nothing else gives way to it.
pub open spec fn renewed(
    c: Option<(CredentialKind, Seq<char>)>,
    token: Option<Seq<char>>,
) -> Option<(CredentialKind, Seq<char>)> {
    match (c, set_text(token)) {
        (Some((CredentialKind::Local, _)), Some(t)) => Some((CredentialKind::Local, t)),
        _ => c,
    }
}

/// Takes up a token that was read again. The API writes a new one whenever it
/// starts.
pub fn renew(credential: Option<Credential>, token: Option<String>) -> (r: Option<Credential>)
    ensures
        held(r) == renewed(held(credential), opt_view(token)),
{
    match credential {
        Some(Credential::Local(before)) => match clean_text(&token) {
            Some(t) => Some(Credential::Local(t)),
            None => Some(Credential::Local(before)),
        },
        other => other,
    }
}

/// Reading the token again never changes what kind of credential is sent, and
/// never touches a session.
pub proof fn renewal_keeps_the_kind(
    c: Option<(CredentialKind, Seq<char>)>,
    token: Option<Seq<char>>,
)
    ensures
        match (c, renewed(c, token)) {
            (Some((before, _)), Some((after, _))) => before == after,
            (None, None) => true,
            _ => false,
        },
        c matches Some((CredentialKind::Session, _)) ==> renewed(c, token) == c,
{
}

/// A request to the API: where to, and the header that goes with it.
#[derive(Debug)]
pub struct Request {
    pub url: String,
    pub header: Option<(String, String)>,
}

/// The header for a credential. A session travels as the API's cookie, the
/// token of this machine as a bearer.
pub open spec fn header_for(c: Option<(CredentialKind, Seq<char>)>) -> Option<
    (Seq<char>, Seq<char>),
> {
    match c {
        Some((CredentialKind::Session, t)) => Some(("Cookie"@, "classg_session="@ + t)),
        Some((CredentialKind::Local, t)) => Some(("Authorization"@, "Bearer "@ + t)),
        None => None,
    }
}

pub open spec fn header_view(h: Option<(String, String)>) -> Option<(Seq<char>, Seq<char>)> {
    match h {
        Some((name, value)) => Some((name@, value@)),
        None => None,
    }
}

/// What is said of a base address with TLS, which is not supported.
pub open spec fn https_words(base: Seq<char>) -> Seq<char> {
    "https is not supported by this build — point CLASSG_API at http:// ("@ + base + ")"@
}

/// The request for a path of the API. An `https` address is refused in plain
/// words rather than left to fail obscurely.
pub fn request_for(base: &str, credential: &Option<Credential>, path: &str) -> (r: Result<
    Request,
    FetchError,
>)
    ensures
        match r {
            Ok(q) => {
                &&& !has_prefix(base@, "https://"@)
                &&& q.url@ == stripped_end(base@, '/') + path@
                &&& header_view(q.header) == header_for(held(*credential))
            },
            Err(e) => {
                &&& has_prefix(base@, "https://"@)
                &&& e.message@ == https_words(base@)
                &&& e.code is None
            },
        },
{
    if starts_with(base, "https://") {
        let mut message =
            "https is not supported by this build — point CLASSG_API at http:// (".to_owned();
        message.append(base);
        message.append(")");
        return Err(FetchError::transport(message));
    }
    let mut url = strip_end(base, '/');
    url.append(path);
    let header = match credential {
        Some(Credential::Session(token)) => {
            let mut value = "classg_session=".to_owned();
            value.append(token.as_str());
            Some(("Cookie".to_owned(), value))
        },
        Some(Credential::Local(token)) => {
            let mut value = "Bearer ".to_owned();
            value.append(token.as_str());
            Some(("Authorization".to_owned(), value))
        },
        None => None,
    };
    Ok(Request { url, header })
}

/// The error for an answer that was not a success. The API's own sentence is
/// preferred over a bare status number.
pub fn status_error(status: u16, path: &str, answer: Option<ApiError>) -> (r: FetchError)
    ensures
        match answer {
            Some(e) => r.message == e.message && r.code == Some(e.code),
            None => r.message@ == "HTTP "@ + dec(status as nat) + " from "@ + path@ && r.code is None,
        },
{
    match answer {
        Some(e) => FetchError { message: e.message, code: Some(e.code) },
        None => {
            let mut message = "HTTP ".to_owned();
            message.append(decimal(status as u64).as_str());
            message.append(" from ");
            message.append(path);
            FetchError::transport(message)
        },
    }
}

/// The error for an answer whose body could not be read.
pub fn body_error(path: &str, why: &str) -> (r: FetchError)
    ensures
        r.message@ == "could not read "@ + path@ + ": "@ + why@,
        r.code is None,
{
    let mut message = "could not read ".to_owned();
    message.append(path);
    message.append(": ");
    message.append(why);
    FetchError::transport(message)
}

/// The error for an answer that could not be decoded.
pub fn json_error(path: &str, why: &str) -> (r: FetchError)
    ensures
        r.message@ == "bad JSON from "@ + path@ + ": "@ + why@,
        r.code is None,
{
    let mut message = "bad JSON from ".to_owned();
    message.append(path);
    message.append(": ");
    message.append(why);
    FetchError::transport(message)
}

/// A number of rows that the API accepts.
pub open spec fn row_limit(n: nat, most: nat) -> nat {
    if n < 1 {
        1
    } else if n > most {
        most
    } else {
        n
    }
}

/// How many rows each list can show, as the drawing code last said.
#[derive(Debug, Clone, Copy, PartialEq, Eq, Structural)]
pub struct RowHints {
    pub tracks: usize,
    pub detections: usize,
}

impl RowHints {
    /// A hint, within what is ever asked for of tracks.
    pub fn limit(rows: usize) -> (r: usize)
        ensures
            r == row_limit(rows as nat, MAX_ROWS as nat),
    {
        if rows < 1 {
            1
        } else if rows > MAX_ROWS {
            MAX_ROWS
        } else {
            rows
        }
    }

    /// A hint, within what is ever asked for of detections.
    pub fn detection_limit(rows: usize) -> (r: usize)
        ensures
            r == row_limit(rows as nat, MAX_DETECTION_ROWS as nat),
    {
        if rows < 1 {
            1
        } else if rows > MAX_DETECTION_ROWS {
            MAX_DETECTION_ROWS
        } else {
            rows
        }
    }
}

/// The path of the live tracks. Closed ones are history, and would push every
/// live contact off a short list.
pub open spec fn tracks_address(rows: nat) -> Seq<char> {
    "/api/v1/tracks?state=TENTATIVE,CONFIRMED,COASTING&limit="@ + dec(
        row_limit(rows, MAX_ROWS as nat),
    )
}

pub fn tracks_path(rows: usize) -> (r: String)
    ensures
        r@ == tracks_address(rows as nat),
{
    let mut out = "/api/v1/tracks?state=TENTATIVE,CONFIRMED,COASTING&limit=".to_owned();
    out.append(decimal(RowHints::limit(rows) as u64).as_str());
    out
}

/// The path of the newest detections.
pub open spec fn detections_address(rows: nat) -> Seq<char> {
    "/api/v1/detections?limit="@ + dec(row_limit(rows, MAX_DETECTION_ROWS as nat))
}

pub fn detections_path(rows: usize) -> (r: String)
    ensures
        r@ == detections_address(rows as nat),
{
    let mut out = "/api/v1/detections?limit=".to_owned();
    out.append(decimal(RowHints::detection_limit(rows) as u64).as_str());
    out
}

/// What a poll can ask the API for.
#[derive(Debug, Clone, Copy, PartialEq, Eq, Structural)]
pub enum Endpoint {
    Health,
    Tracks,
    Detections,
    Monitoring,
    Auth,
    System,
    Captures,
    Sweeps,
}

impl Endpoint {
    /// Its path, with as many rows of each list as the drawing code can show.
    pub open spec fn address(self, hints: RowHints) -> Seq<char> {
        match self {
            Endpoint::Health => "/api/v1/health"@,
            Endpoint::Tracks => tracks_address(hints.tracks as nat),
            Endpoint::Detections => detections_address(hints.detections as nat),
            Endpoint::Monitoring => "/api/v1/monitoring"@,
            Endpoint::Auth => "/api/v1/auth/me"@,
            Endpoint::System => "/api/v1/system"@,
            Endpoint::Captures => "/api/v1/captures"@,
            Endpoint::Sweeps => "/api/v1/spectrum/sweeps?limit=5"@,
        }
    }

    pub fn path(self, hints: RowHints) -> (r: String)
        ensures
            r@ == self.address(hints),
    {
        match self {
            Endpoint::Health => "/api/v1/health".to_owned(),
            Endpoint::Tracks => tracks_path(hints.tracks),
            Endpoint::Detections => detections_path(hints.detections),
            Endpoint::Monitoring => "/api/v1/monitoring".to_owned(),
            Endpoint::Auth => "/api/v1/auth/me".to_owned(),
            Endpoint::System => "/api/v1/system".to_owned(),
            Endpoint::Captures => "/api/v1/captures".to_owned(),
            Endpoint::Sweeps => "/api/v1/spectrum/sweeps?limit=5".to_owned(),
        }
    }

    /// What a poll asks after this, told whether this answered. Health is open
    /// to anybody, so where it fails the whole service is out of reach and there
    /// is nothing else worth asking; any other failure costs only its own
    /// section. What moves slowly is asked where it is to be refreshed.
    pub open spec fn then_ask(self, answered: bool, refresh_slow: bool) -> Option<Endpoint> {
        match self {
            Endpoint::Health => if answered {
                Some(Endpoint::Tracks)
            } else {
                None
            },
            Endpoint::Tracks => Some(Endpoint::Detections),
            Endpoint::Detections => Some(Endpoint::Monitoring),
            Endpoint::Monitoring => if refresh_slow {
                Some(Endpoint::Auth)
            } else {
                None
            },
            Endpoint::Auth => Some(Endpoint::System),
            Endpoint::System => Some(Endpoint::Captures),
            Endpoint::Captures => Some(Endpoint::Sweeps),
            Endpoint::Sweeps => None,
        }
    }

    pub fn next(self, answered: bool, refresh_slow: bool) -> (r: Option<Endpoint>)
        ensures
            r == self.then_ask(answered, refresh_slow),
    {
        match self {
            Endpoint::Health => if answered {
                Some(Endpoint::Tracks)
            } else {
                None
            },
            Endpoint::Tracks => Some(Endpoint::Detections),
            Endpoint::Detections => Some(Endpoint::Monitoring),
            Endpoint::Monitoring => if refresh_slow {
                Some(Endpoint::Auth)
            } else {
                None
            },
            Endpoint::Auth => Some(Endpoint::System),
            Endpoint::System => Some(Endpoint::Captures),
            Endpoint::Captures => Some(Endpoint::Sweeps),
            Endpoint::Sweeps => None,
        }
    }
}

/// What a poll goes on to ask from an endpoint on, that endpoint first, where
/// `up` says which of them answer.
pub open spec fn asked_from(
    from: Option<Endpoint>,
    up: spec_fn(Endpoint) -> bool,
    refresh_slow: bool,
    most: nat,
) -> Seq<Endpoint>
    decreases most,
{
    match from {
        Some(e) if most > 0 => seq![e] + asked_from(
            e.then_ask(up(e), refresh_slow),
            up,
            refresh_slow,
            (most - 1) as nat,
        ),
        _ => Seq::empty(),
    }
}

/// A poll that starts with health asks every endpoint once where health
/// answers, but those that move slowly only when they are due, and whatever
/// else fails on the way. Where health does not answer it asks nothing more.
pub proof fn poll_asks_each_once(up: spec_fn(Endpoint) -> bool, refresh_slow: bool, most: nat)
    requires
        most >= 8,
    ensures
        asked_from(Some(Endpoint::Health), up, refresh_slow, most) == if !up(Endpoint::Health) {
            seq![Endpoint::Health]
        } else if refresh_slow {
            seq![
                Endpoint::Health,
                Endpoint::Tracks,
                Endpoint::Detections,
                Endpoint::Monitoring,
                Endpoint::Auth,
                Endpoint::System,
                Endpoint::Captures,
                Endpoint::Sweeps,
            ]
        } else {
            seq![
                Endpoint::Health,
                Endpoint::Tracks,
                Endpoint::Detections,
                Endpoint::Monitoring,
            ]
        },
{
    reveal_with_fuel(asked_from, 9);
}

/// What moves slowly, kept between polls.
#[derive(Debug, Default)]
pub struct Slow {
    pub auth: Option<AuthState>,
    pub system: Option<SystemInfo>,
    pub captures: Option<CapturePage>,
    pub sweeps: Option<SweepPage>,
}

/// One poll's worth of results. Failing health is what makes the pane degraded;
/// every other endpoint failing costs only its own section.
#[derive(Debug, Default)]
pub struct Snapshot {
    pub health: Option<HealthResponse>,
    pub error: Option<String>,
    pub monitoring: Option<MonitoringState>,
    pub tracks: Option<TrackPage>,
    pub detections: Option<DetectionPage>,
    pub slow: Slow,
    /// Set when an endpoint refused the poller. A list that is empty because
    /// nothing is flying and one that is empty because every request is
    /// refused are the same picture; this is the caption that tells them apart.
    pub denied: Option<String>,
    /// Which credential was sent.
    pub credential: Option<CredentialKind>,
}

/// The answers of the slow endpoints.
pub struct SlowAnswers {
    pub auth: Result<AuthState, FetchError>,
    pub system: Result<SystemInfo, FetchError>,
    pub captures: Result<CapturePage, FetchError>,
    pub sweeps: Result<SweepPage, FetchError>,
}

/// Either a refresh of what moves slowly, or what was known of it before.
pub enum SlowTier {
    Asked(SlowAnswers),
    Kept(Slow),
}

/// The answers of a poll whose health answered.
pub struct Answers {
    pub health: HealthResponse,
    pub tracks: Result<TrackPage, FetchError>,
    pub detections: Result<DetectionPage, FetchError>,
    pub monitoring: Result<MonitoringState, FetchError>,
    pub slow: SlowTier,
}

/// What a result refused with, if it did.
pub open spec fn refused<T>(r: Result<T, FetchError>) -> Option<Seq<char>> {
    match r {
        Err(e) if refusal_code(opt_view(e.code)) => Some(e.message@),
        _ => None,
    }
}

pub open spec fn or_else(a: Option<Seq<char>>, b: Option<Seq<char>>) -> Option<Seq<char>> {
    match a {
        Some(_) => a,
        None => b,
    }
}

/// The first refusal of a poll. Whether one is logged in is an open question
/// and counts for none.
pub open spec fn first_refusal(a: Answers) -> Option<Seq<char>> {
    let fast = or_else(or_else(refused(a.tracks), refused(a.detections)), refused(a.monitoring));
    match a.slow {
        SlowTier::Asked(s) => or_else(
            or_else(or_else(fast, refused(s.system)), refused(s.captures)),
            refused(s.sweeps),
        ),
        SlowTier::Kept(_) => fast,
    }
}

pub open spec fn answer<T>(r: Result<T, FetchError>) -> Option<T> {
    match r {
        Ok(v) => Some(v),
        Err(_) => None,
    }
}

/// Takes the value out of a result, and notes a refusal unless one was noted
/// before.
fn note<T>(r: Result<T, FetchError>, denied: &mut Option<String>) -> (v: Option<T>)
    ensures
        v == answer(r),
        opt_view(*final(denied)) == or_else(opt_view(*old(denied)), refused(r)),
{
    match r {
        Ok(v) => Some(v),
        Err(e) => {
            if e.is_refusal() && denied.is_none() {
                *denied = Some(e.message);
            }
            None
        },
    }
}

impl Snapshot {
    /// The snapshot of an API that did not answer: there is nothing else worth
    /// asking it.
    pub fn unreachable(error: FetchError, credential: Option<CredentialKind>) -> (r: Snapshot)
        ensures
            r.health is None,
            r.error == Some(error.message),
            r.monitoring is None,
            r.tracks is None,
            r.detections is None,
            r.slow == (Slow { auth: None, system: None, captures: None, sweeps: None }),
            r.denied is None,
            r.credential == credential,
    {
        Snapshot {
            health: None,
            error: Some(error.message),
            monitoring: None,
            tracks: None,
            detections: None,
            slow: Slow { auth: None, system: None, captures: None, sweeps: None },
            denied: None,
            credential,
        }
    }

    /// Whether the token of this host was refused, and so should be read again
    /// before the next poll: it has almost certainly just been replaced.
    pub fn wants_token(&self) -> (r: bool)
        ensures
            r == (self.denied is Some && self.credential == Some(CredentialKind::Local)),
    {
        if self.denied.is_none() {
            return false;
        }
        match self.credential {
            Some(CredentialKind::Local) => true,
            _ => false,
        }
    }

    /// The snapshot of an API that answered.
    pub fn assemble(answers: Answers, credential: Option<CredentialKind>) -> (r: Snapshot)
        ensures
            r.health == Some(answers.health),
            r.error is None,
            r.monitoring == answer(answers.monitoring),
            r.tracks == answer(answers.tracks),
            r.detections == answer(answers.detections),
            r.slow == match answers.slow {
                SlowTier::Asked(s) => Slow {
                    auth: answer(s.auth),
                    system: answer(s.system),
                    captures: answer(s.captures),
                    sweeps: answer(s.sweeps),
                },
                SlowTier::Kept(before) => before,
            },
            opt_view(r.denied) == first_refusal(answers),
            r.credential == credential,
    {
        let mut denied: Option<String> = None;
        let tracks = note(answers.tracks, &mut denied);
        let detections = note(answers.detections, &mut denied);
        let monitoring = note(answers.monitoring, &mut denied);
        let slow = match answers.slow {
            SlowTier::Asked(s) => {
                let auth = match s.auth {
                    Ok(v) => Some(v),
                    Err(_) => None,
                };
                let system = note(s.system, &mut denied);
                let captures = note(s.captures, &mut denied);
                let sweeps = note(s.sweeps, &mut denied);
                Slow { auth, system, captures, sweeps }
            },
            SlowTier::Kept(before) => before,
        };
        Snapshot {
            health: Some(answers.health),
            error: None,
            monitoring,
            tracks,
            detections,
            slow,
            denied,
            credential,
        }
    }
}

/// Whether a time is at least another. Nothing is before every time.
pub open spec fn at_least_as_new(a: Option<FlexTime>, b: Option<FlexTime>) -> bool {
    match (a, b) {
        (_, None) => true,
        (None, Some(_)) => false,
        (Some(x), Some(y)) => !x.earlier(y),
    }
}

fn is_as_new(a: Option<FlexTime>, b: Option<FlexTime>) -> (r: bool)
    ensures
        r == at_least_as_new(a, b),
{
    match (a, b) {
        (_, None) => true,
        (None, Some(_)) => false,
        (Some(x), Some(y)) => !(x.secs < y.secs || (x.secs == y.secs && x.nanos < y.nanos)),
    }
}

/// The position of the newest of some times; of several, the last.
pub open spec fn newest(times: Seq<Option<FlexTime>>) -> Option<int>
    decreases times.len(),
{
    if times.len() == 0 {
        None
    } else {
        match newest(times.drop_last()) {
            None => Some(times.len() - 1),
            Some(i) => if at_least_as_new(times.last(), times[i]) {
                Some(times.len() - 1)
            } else {
                Some(i)
            },
        }
    }
}

pub open spec fn capture_times(v: Seq<Capture>) -> Seq<Option<FlexTime>> {
    Seq::new(v.len(), |i: int| v[i].started_at)
}

pub open spec fn sweep_times(v: Seq<SpectrumSweep>) -> Seq<Option<FlexTime>> {
    Seq::new(v.len(), |i: int| v[i].started_at)
}

/// The first capture that is running.
pub open spec fn running_among(v: Seq<Capture>) -> Option<Capture>
    decreases v.len(),
{
    if v.len() == 0 {
        None
    } else if v[0].state@ == "running"@ {
        Some(v[0])
    } else {
        running_among(v.drop_first())
    }
}

/// The first sweep that is running.
pub open spec fn sweeping_among(v: Seq<SpectrumSweep>) -> Option<SpectrumSweep>
    decreases v.len(),
{
    if v.len() == 0 {
        None
    } else if v[0].state@ == "running"@ {
        Some(v[0])
    } else {
        sweeping_among(v.drop_first())
    }
}

pub open spec fn newest_capture(v: Seq<Capture>) -> Option<Capture> {
    match newest(capture_times(v)) {
        Some(i) => Some(v[i]),
        None => None,
    }
}

pub open spec fn newest_sweep(v: Seq<SpectrumSweep>) -> Option<SpectrumSweep> {
    match newest(sweep_times(v)) {
        Some(i) => Some(v[i]),
        None => None,
    }
}

pub open spec fn deref<T>(r: Option<&T>) -> Option<T> {
    match r {
        Some(v) => Some(*v),
        None => None,
    }
}

impl Snapshot {
    pub open spec fn captures(self) -> Seq<Capture> {
        match self.slow.captures {
            Some(page) => page.captures@,
            None => Seq::empty(),
        }
    }

    pub open spec fn sweeps(self) -> Seq<SpectrumSweep> {
        match self.slow.sweeps {
            Some(page) => page.sweeps@,
            None => Seq::empty(),
        }
    }

    /// The running capture, if one is. At most one can be.
    pub fn running_capture(&self) -> (r: Option<&Capture>)
        ensures
            deref(r) == running_among(self.captures()),
    {
        if let Some(page) = &self.slow.captures {
            let mut i: usize = 0;
            assert(page.captures@.skip(0) == page.captures@);
            while i < page.captures.len()
                invariant
                    i <= page.captures@.len(),
                    self.captures() == page.captures@,
                    running_among(page.captures@) == running_among(page.captures@.skip(i as int)),
                decreases page.captures@.len() - i,
            {
                assert(page.captures@.skip(i as int)[0] == page.captures@[i as int]);
                assert(page.captures@.skip(i as int).drop_first() == page.captures@.skip(i + 1));
                if same(page.captures[i].state.as_str(), "running") {
                    return Some(&page.captures[i]);
                }
                i = i + 1;
            }
        }
        None
    }

    /// The most recent capture, running or not. Picked by its start and not by
    /// its position: the API promises no order.
    pub fn latest_capture(&self) -> (r: Option<&Capture>)
        ensures
            deref(r) == newest_capture(self.captures()),
    {
        if let Some(page) = &self.slow.captures {
            let ghost times = capture_times(page.captures@);
            let mut best: Option<usize> = None;
            let mut i: usize = 0;
            assert(times.take(0) == Seq::<Option<FlexTime>>::empty());
            while i < page.captures.len()
                invariant
                    i <= page.captures@.len(),
                    times == capture_times(page.captures@),
                    match best {
                        Some(b) => b < i && newest(times.take(i as int)) == Some(b as int),
                        None => newest(times.take(i as int)) is None,
                    },
                decreases page.captures@.len() - i,
            {
                assert(times.take(i + 1).drop_last() == times.take(i as int));
                assert(times.take(i + 1).last() == page.captures@[i as int].started_at);
                match best {
                    None => {
                        best = Some(i);
                    },
                    Some(b) => {
                        if is_as_new(page.captures[i].started_at, page.captures[b].started_at) {
                            best = Some(i);
                        }
                    },
                }
                i = i + 1;
            }
            assert(times.take(i as int) == times);
            if let Some(b) = best {
                return Some(&page.captures[b]);
            }
        }
        None
    }

    pub fn running_sweep(&self) -> (r: Option<&SpectrumSweep>)
        ensures
            deref(r) == sweeping_among(self.sweeps()),
    {
        if let Some(page) = &self.slow.sweeps {
            let mut i: usize = 0;
            assert(page.sweeps@.skip(0) == page.sweeps@);
            while i < page.sweeps.len()
                invariant
                    i <= page.sweeps@.len(),
                    self.sweeps() == page.sweeps@,
                    sweeping_among(page.sweeps@) == sweeping_among(page.sweeps@.skip(i as int)),
                decreases page.sweeps@.len() - i,
            {
                assert(page.sweeps@.skip(i as int)[0] == page.sweeps@[i as int]);
                assert(page.sweeps@.skip(i as int).drop_first() == page.sweeps@.skip(i + 1));
                if same(page.sweeps[i].state.as_str(), "running") {
                    return Some(&page.sweeps[i]);
                }
                i = i + 1;
            }
        }
        None
    }

    pub fn latest_sweep(&self) -> (r: Option<&SpectrumSweep>)
        ensures
            deref(r) == newest_sweep(self.sweeps()),
    {
        if let Some(page) = &self.slow.sweeps {
            let ghost times = sweep_times(page.sweeps@);
            let mut best: Option<usize> = None;
            let mut i: usize = 0;
            assert(times.take(0) == Seq::<Option<FlexTime>>::empty());
            while i < page.sweeps.len()
                invariant
                    i <= page.sweeps@.len(),
                    times == sweep_times(page.sweeps@),
                    match best {
                        Some(b) => b < i && newest(times.take(i as int)) == Some(b as int),
                        None => newest(times.take(i as int)) is None,
                    },
                decreases page.sweeps@.len() - i,
            {
                assert(times.take(i + 1).drop_last() == times.take(i as int));
                assert(times.take(i + 1).last() == page.sweeps@[i as int].started_at);
                match best {
                    None => {
                        best = Some(i);
                    },
                    Some(b) => {
                        if is_as_new(page.sweeps[i].started_at, page.sweeps[b].started_at) {
                            best = Some(i);
                        }
                    },
                }
                i = i + 1;
            }
            assert(times.take(i as int) == times);
            if let Some(b) = best {
                return Some(&page.sweeps[b]);
            }
        }
        None
    }
}

/// Whether a poll, counted from zero, also refreshes what moves slowly. The
/// first one does.
pub fn refreshes_slow(polls: u64) -> (r: bool)
    ensures
        r == (polls % SLOW_EVERY == 0),
        r == (polls % 10 == 0),
{
    polls % SLOW_EVERY == 0
}

/// How long to sleep next on the way through an interval, in microseconds: a
/// tenth of a second at a time, so that quitting does not wait one out.
pub fn next_slice(slept: u64, interval: u64) -> (r: u64)
    ensures
        r == if slept >= interval {
            0
        } else if interval - slept < 100_000 {
            interval - slept
        } else {
            100_000
        },
        r <= 100_000,
        slept <= interval ==> slept + r <= interval,
        r == 0 <==> slept >= interval,
{
    if slept >= interval {
        0
    } else if interval - slept < 100_000 {
        interval - slept
    } else {
        100_000
    }
}

/// Readings kept of each sensor's five-minute count, and the time between two:
/// a quarter of an hour in all.
pub const TRACE_LEN: usize = 30;

pub const TRACE_NANOS: u64 = 30_000_000_000;

/// The counts of one sensor over time, oldest first.
#[derive(Debug)]
pub struct Trace {
    pub sensor_id: String,
    pub counts: Vec<u64>,
}

/// What a trace holds.
pub struct Traced {
    pub sensor_id: Seq<char>,
    pub counts: Seq<u64>,
}

impl View for Trace {
    type V = Traced;

    open spec fn view(&self) -> Traced {
        Traced { sensor_id: self.sensor_id@, counts: self.counts@ }
    }
}

pub open spec fn traced(v: Seq<Trace>) -> Seq<Traced> {
    Seq::new(v.len(), |i: int| v[i]@)
}

/// The counts traced for a sensor, or none.
pub open spec fn counts_of(traces: Seq<Traced>, id: Seq<char>) -> Seq<u64>
    decreases traces.len(),
{
    if traces.len() == 0 {
        Seq::empty()
    } else if traces[0].sensor_id == id {
        traces[0].counts
    } else {
        counts_of(traces.drop_first(), id)
    }
}

/// The traces after a reading: one for each sensor that reports, with its count
/// appended and the oldest dropped once it is full. A sensor that is gone takes
/// its trace with it.
pub open spec fn traces_after(before: Seq<Traced>, sensors: Seq<SensorHealth>) -> Seq<Traced> {
    Seq::new(
        sensors.len(),
        |i: int|
            Traced {
                sensor_id: sensors[i].sensor_id@,
                counts: window_push(
                    counts_of(before, sensors[i].sensor_id@),
                    sensors[i].detections_5m,
                    TRACE_LEN as nat,
                ),
            },
    )
}

/// State of the ClassG pane.
pub struct ClassgPane {
    pub base: String,
    pub snapshot: Snapshot,
    /// When the last health poll that succeeded landed, in nanoseconds.
    pub last_ok: Option<u64>,
    pub polls: u64,
    pub hints: RowHints,
    pub traces: Vec<Trace>,
    /// When the traces were last extended.
    pub last_trace: Option<u64>,
}

pub fn copy_counts(traces: &Vec<Trace>, id: &str) -> (r: Vec<u64>)
    ensures
        r@ == counts_of(traced(traces@), id@),
{
    let ghost all = traced(traces@);
    let mut i: usize = 0;
    assert(all.skip(0) == all);
    while i < traces.len()
        invariant
            i <= traces@.len(),
            all == traced(traces@),
            counts_of(all, id@) == counts_of(all.skip(i as int), id@),
        decreases traces@.len() - i,
    {
        assert(all.skip(i as int)[0] == traces@[i as int]@);
        assert(all.skip(i as int).drop_first() == all.skip(i + 1));
        if same(traces[i].sensor_id.as_str(), id) {
            let from = &traces[i].counts;
            let mut out: Vec<u64> = Vec::new();
            let mut j: usize = 0;
            while j < from.len()
                invariant
                    j <= from@.len(),
                    out@ == from@.take(j as int),
                decreases from@.len() - j,
            {
                out.push(from[j]);
                j = j + 1;
            }
            assert(out@ == from@);
            return out;
        }
        i = i + 1;
    }
    Vec::new()
}

impl ClassgPane {
    /// A pane that has heard nothing yet, of the API at that address.
    pub open spec fn fresh(self, base: String) -> bool {
        &&& self.base == base
        &&& self.snapshot.health is None
        &&& self.snapshot.error is None
        &&& self.snapshot.monitoring is None
        &&& self.snapshot.tracks is None
        &&& self.snapshot.detections is None
        &&& self.snapshot.slow == (Slow { auth: None, system: None, captures: None, sweeps: None })
        &&& self.snapshot.denied is None
        &&& self.snapshot.credential is None
        &&& self.last_ok is None
        &&& self.polls == 0
        &&& self.hints == (RowHints { tracks: 0, detections: 0 })
        &&& self.traces@.len() == 0
        &&& self.last_trace is None
    }

    pub fn new(base: String) -> (r: ClassgPane)
        ensures
            r.fresh(base),
    {
        ClassgPane {
            base,
            snapshot: Snapshot {
                health: None,
                error: None,
                monitoring: None,
                tracks: None,
                detections: None,
                slow: Slow { auth: None, system: None, captures: None, sweeps: None },
                denied: None,
                credential: None,
            },
            last_ok: None,
            polls: 0,
            hints: RowHints { tracks: 0, detections: 0 },
            traces: Vec::new(),
            last_trace: None,
        }
    }

    /// Takes in a snapshot that the poller posted at `now` nanoseconds.
    pub fn accept(&mut self, snapshot: Snapshot, now: u64)
        ensures
            final(self).snapshot == snapshot,
            final(self).last_ok == if snapshot.health is Some {
                Some(now)
            } else {
                old(self).last_ok
            },
            final(self).polls == if old(self).polls == u64::MAX {
                0
            } else {
                old(self).polls + 1
            },
            *final(self) == (ClassgPane {
                snapshot: final(self).snapshot,
                last_ok: final(self).last_ok,
                polls: final(self).polls,
                ..*old(self)
            }),
    {
        if snapshot.health.is_some() {
            self.last_ok = Some(now);
        }
        self.snapshot = snapshot;
        self.polls = self.polls.wrapping_add(1);
    }

    pub fn set_hints(&mut self, tracks: usize, detections: usize)
        ensures
            *final(self) == (ClassgPane {
                hints: RowHints { tracks, detections },
                ..*old(self)
            }),
    {
        self.hints = RowHints { tracks, detections };
    }

    /// Whether it is time for another reading of the sensors' counts.
    pub open spec fn trace_due(self, now: u64) -> bool {
        match self.last_trace {
            None => true,
            Some(then) => now >= then && now - then >= TRACE_NANOS,
        }
    }

    /// Extends the traces of the sensors' five-minute counts, at `now`
    /// nanoseconds. On a clock and not on every poll: a rolling count hardly
    /// moves between polls, and a trace of it would be flat whatever the radio
    /// was doing.
    pub fn record_sensor_rates(&mut self, now: u64)
        ensures
            match old(self).snapshot.health {
                Some(health) if old(self).trace_due(now) => {
                    &&& traced(final(self).traces@) == traces_after(
                        traced(old(self).traces@),
                        health.sensors@,
                    )
                    &&& final(self).last_trace == Some(now)
                },
                _ => {
                    &&& final(self).traces == old(self).traces
                    &&& final(self).last_trace == old(self).last_trace
                },
            },
            *final(self) == (ClassgPane {
                traces: final(self).traces,
                last_trace: final(self).last_trace,
                ..*old(self)
            }),
    {
        let due = match self.last_trace {
            None => true,
            Some(then) => now >= then && now - then >= TRACE_NANOS,
        };
        if !due {
            return;
        }
        if let Some(health) = &self.snapshot.health {
            let ghost want = traces_after(traced(self.traces@), health.sensors@);
            let mut out: Vec<Trace> = Vec::new();
            let mut i: usize = 0;
            assert(traced(out@) == want.take(0));
            while i < health.sensors.len()
                invariant
                    i <= health.sensors@.len(),
                    want == traces_after(traced(self.traces@), health.sensors@),
                    traced(out@) == want.take(i as int),
                decreases health.sensors@.len() - i,
            {
                let id = health.sensors[i].sensor_id.as_str();
                let mut counts = copy_counts(&self.traces, id);
                push_window(&mut counts, health.sensors[i].detections_5m, TRACE_LEN);
                let trace = Trace { sensor_id: id.to_owned(), counts };
                let ghost before = traced(out@);
                let ghost added = trace@;
                out.push(trace);
                assert(traced(out@) == before.push(added));
                i = i + 1;
                assert(want.take(i as int) == want.take(i - 1).push(want[i - 1]));
            }
            assert(want.take(i as int) == want);
            self.traces = out;
            self.last_trace = Some(now);
        }
    }
}

/// How many detections some runs stand for.
pub open spec fn folded_total(runs: Seq<Repeats>) -> int
    decreases runs.len(),
{
    if runs.len() == 0 {
        0
    } else {
        folded_total(runs.drop_last()) + runs.last().count
    }
}

/// Folding repeats loses nothing: the runs stand for as many detections as
/// there were, each for at least one.
pub proof fn folding_keeps_every_detection(v: Seq<Detection>)
    requires
        v.len() <= usize::MAX,
    ensures
        folded_total(folded(v)) == v.len(),
        folded(v).len() <= v.len(),
        forall|i: int| 0 <= i < folded(v).len() ==> 1 <= (#[trigger] folded(v)[i]).count <= v.len(),
    decreases v.len(),
{
    if v.len() > 0 {
        let rest = v.drop_last();
        let before = folded(rest);
        folding_keeps_every_detection(rest);
        let runs = folded(v);
        if before.len() > 0 && same_contact(v[before.last().first as int], v.last()) {
            assert(1 <= before[before.len() - 1].count <= rest.len());
            assert(runs.drop_last() == before.drop_last());
            assert forall|i: int| 0 <= i < runs.len() implies 1 <= (#[trigger] runs[i]).count
                <= v.len() by {
                if i < runs.len() - 1 {
                    assert(runs[i] == before[i]);
                }
            }
        } else {
            assert(runs.drop_last() == before);
            assert forall|i: int| 0 <= i < runs.len() implies 1 <= (#[trigger] runs[i]).count
                <= v.len() by {
                if i < runs.len() - 1 {
                    assert(runs[i] == before[i]);
                }
            }
        }
    }
}

/// A detection without an identity is never folded into another: two bursts
/// that nobody has identified are not known to be the same transmitter.
pub proof fn anonymous_detections_stay_apart(a: Detection, b: Detection)
    requires
        a.name().len() == 0 || b.name().len() == 0,
    ensures
        !same_contact(a, b),
{
}

/// A session that somebody set wins over the token of this unit, and a blank
/// one counts as none.
pub proof fn session_wins(session: Seq<char>, local: Option<Seq<char>>)
    ensures
        set_text(Some(session)) matches Some(t) ==> picked(Some(session), local) == Some(
            (CredentialKind::Session, t),
        ),
        set_text(Some(session)) is None ==> picked(Some(session), local) == picked(None, local),
{
}

/// Evidence that only corroborates never identifies a contact, however much of
/// it there is, and one piece that does is enough.
pub proof fn corroboration_never_identifies(track: Track)
    requires
        track.evidence@.len() > 0,
    ensures
        track.is_identified() <==> exists|i: int|
            0 <= i < track.evidence@.len() && !corroborates_only(
                #[trigger] track.evidence@[i].class@,
            ),
{
}

/// There is one trace for each sensor that reports and none for any other, and
/// no trace grows without bound.
pub proof fn traces_follow_the_sensors(before: Seq<Traced>, sensors: Seq<SensorHealth>)
    ensures
        traces_after(before, sensors).len() == sensors.len(),
        forall|i: int|
            0 <= i < sensors.len() ==> {
                &&& (#[trigger] traces_after(before, sensors)[i]).sensor_id == sensors[i].sensor_id@
                &&& traces_after(before, sensors)[i].counts.len() <= TRACE_LEN
                &&& traces_after(before, sensors)[i].counts.last() == sensors[i].detections_5m
            },
{
}

/// What is asked for is never nothing and never more than the API gives.
pub proof fn requests_stay_in_bounds(n: nat, most: nat)
    requires
        most >= 1,
    ensures
        1 <= row_limit(n, most) <= most,
{
}

/// Only the classes `C`, `D` and `H` merely corroborate: a contact is identified
/// exactly when it has a piece of evidence of some other class, or none at all.
pub proof fn only_other_classes_identify(track: Track)
    ensures
        track.is_identified() <==> track.evidence@.len() == 0 || exists|i: int|
            0 <= i < track.evidence@.len() && (#[trigger] track.evidence@[i]).class@ != "C"@
                && track.evidence@[i].class@ != "D"@ && track.evidence@[i].class@ != "H"@,
{
    if track.evidence@.len() > 0 && track.is_identified() {
        let i = choose|i: int|
            0 <= i < track.evidence@.len() && !corroborates_only(
                #[trigger] track.evidence@[i].class@,
            );
        assert(track.evidence@[i].class@ != "C"@);
    } else if track.evidence@.len() > 0 {
        assert forall|i: int| 0 <= i < track.evidence@.len() implies (
        #[trigger] track.evidence@[i]).class@ == "C"@ || track.evidence@[i].class@ == "D"@
            || track.evidence@[i].class@ == "H"@ by {
            assert(corroborates_only(track.evidence@[i].class@));
        }
    }
}

/// Whether two classes are alike in what they can say of a contact.
pub open spec fn same_kind(a: Seq<char>, b: Seq<char>) -> bool {
    (a == "C"@ || a == "D"@ || a == "H"@) <==> (b == "C"@ || b == "D"@ || b == "H"@)
}

proof fn lemma_strongest(evidence: Seq<Evidence>)
    ensures
        match strongest(evidence) {
            None => forall|i: int|
                0 <= i < evidence.len() ==> (#[trigger] evidence[i]).class@.len() == 0,
            Some(e) => exists|k: int|
                {
                    &&& 0 <= k < evidence.len()
                    &&& #[trigger] evidence[k] == e
                    &&& e.class@.len() > 0
                    &&& forall|j: int|
                        0 <= j < evidence.len() && (#[trigger] evidence[j]).class@.len() > 0
                            && same_kind(evidence[j].class@, e.class@) ==> evidence[j].count
                            <= e.count && (j > k ==> evidence[j].count < e.count)
                    &&& corroborates_only(e.class@) ==> forall|j: int|
                        0 <= j < evidence.len() && (#[trigger] evidence[j]).class@.len() > 0
                            ==> corroborates_only(evidence[j].class@)
                },
        },
    decreases evidence.len(),
{
    if evidence.len() > 0 {
        let rest = evidence.drop_last();
        let e = evidence.last();
        lemma_strongest(rest);
        assert(evidence[evidence.len() - 1] == e);
        match strongest(rest) {
            None => {
                assert forall|i: int| 0 <= i < rest.len() implies (
                #[trigger] evidence[i]).class@.len() == 0 by {
                    assert(evidence[i] == rest[i]);
                }
                if e.class@.len() > 0 {
                    let k = evidence.len() - 1;
                    assert(evidence[k] == e);
                }
            },
            Some(b) => {
                let k = choose|k: int|
                    {
                        &&& 0 <= k < rest.len()
                        &&& #[trigger] rest[k] == b
                        &&& b.class@.len() > 0
                        &&& forall|j: int|
                            0 <= j < rest.len() && (#[trigger] rest[j]).class@.len() > 0
                                && same_kind(rest[j].class@, b.class@) ==> rest[j].count <= b.count
                                && (j > k ==> rest[j].count < b.count)
                        &&& corroborates_only(b.class@) ==> forall|j: int|
                            0 <= j < rest.len() && (#[trigger] rest[j]).class@.len() > 0
                                ==> corroborates_only(rest[j].class@)
                    };
                assert(evidence[k] == rest[k]);
                assert(forall|j: int| 0 <= j < rest.len() ==> #[trigger] evidence[j] == rest[j]);
                let w = strongest(evidence)->0;
                if e.class@.len() == 0 || w == b && evidence[k] == w && !(e.class@.len() > 0
                    && same_kind(e.class@, b.class@) && e.count >= b.count) {
                    assert(w == b);
                    assert(evidence[k] == w);
                } else {
                    let last = evidence.len() - 1;
                    assert(w == e);
                    assert(evidence[last] == w);
                }
            },
        }
    }
}

/// The evidence shown is a piece of the track's own that names its class. No
/// piece of the same kind was seen more often, the later of two seen equally
/// often is taken, and it identifies whenever any piece does.
pub proof fn evidence_shown_is_the_strongest(track: Track)
    ensures
        (forall|i: int|
            0 <= i < track.evidence@.len() ==> (#[trigger] track.evidence@[i]).class@.len() == 0)
            ==> track.evidence_words().len() == 0,
        (exists|i: int|
            0 <= i < track.evidence@.len() && (#[trigger] track.evidence@[i]).class@.len() > 0)
            ==> exists|k: int|
            {
                &&& 0 <= k < track.evidence@.len()
                &&& (#[trigger] track.evidence@[k]).class@.len() > 0
                &&& track.evidence_words() == track.evidence@[k].class@ + "x"@ + count_text(
                    track.evidence@[k].count as nat,
                )
                &&& forall|j: int|
                    0 <= j < track.evidence@.len() && (#[trigger] track.evidence@[j]).class@.len()
                        > 0 && same_kind(track.evidence@[j].class@, track.evidence@[k].class@)
                        ==> track.evidence@[j].count <= track.evidence@[k].count && (j > k
                        ==> track.evidence@[j].count < track.evidence@[k].count)
                &&& (track.evidence@[k].class@ == "C"@ || track.evidence@[k].class@ == "D"@
                    || track.evidence@[k].class@ == "H"@) ==> forall|j: int|
                    0 <= j < track.evidence@.len() && (#[trigger] track.evidence@[j]).class@.len()
                        > 0 ==> track.evidence@[j].class@ == "C"@ || track.evidence@[j].class@
                        == "D"@ || track.evidence@[j].class@ == "H"@
            },
{
    lemma_strongest(track.evidence@);
    match strongest(track.evidence@) {
        None => {},
        Some(e) => {
            let evidence = track.evidence@;
            let k = choose|k: int|
                {
                    &&& 0 <= k < evidence.len()
                    &&& #[trigger] evidence[k] == e
                    &&& e.class@.len() > 0
                    &&& forall|j: int|
                        0 <= j < evidence.len() && (#[trigger] evidence[j]).class@.len() > 0
                            && same_kind(evidence[j].class@, e.class@) ==> evidence[j].count
                            <= e.count && (j > k ==> evidence[j].count < e.count)
                    &&& corroborates_only(e.class@) ==> forall|j: int|
                        0 <= j < evidence.len() && (#[trigger] evidence[j]).class@.len() > 0
                            ==> corroborates_only(evidence[j].class@)
                };
            assert(track.evidence@[k].class@.len() > 0);
        },
    }
}

/// The age of an instant seen from another is that of the other seen from it,
/// the other way round.
pub proof fn age_turns_round(a: FlexTime, b: FlexTime)
    requires
        -0x4000_0000_0000_0000 < a.secs - b.secs < 0x4000_0000_0000_0000,
        a.nanos < 2_000_000_000,
        b.nanos < 2_000_000_000,
    ensures
        a.age(b) == -b.age(a),
        a.age(a) == 0,
{
    let d = (b.secs - a.secs + a.leap_between(b)) * 1_000_000_000 + (b.nanos - a.nanos);
    let e = (a.secs - b.secs + b.leap_between(a)) * 1_000_000_000 + (a.nanos - b.nanos);
    assert(a.leap_between(b) == -b.leap_between(a));
    assert(d == -e);
}

/// The age is the whole seconds between two instants, and what is left over is
/// less than one.
pub proof fn age_is_the_time_between(then: FlexTime, now: FlexTime)
    requires
        then.nanos < 1_000_000_000,
        now.nanos < 1_000_000_000,
        -0x4000_0000_0000_0000 < now.secs - then.secs < 0x4000_0000_0000_0000,
    ensures
        ({
            let between = (now.secs * 1_000_000_000 + now.nanos) - (then.secs * 1_000_000_000
                + then.nanos);
            &&& between >= 0 ==> 0 <= between - then.age(now) * 1_000_000_000 < 1_000_000_000
            &&& between <= 0 ==> 0 <= then.age(now) * 1_000_000_000 - between < 1_000_000_000
        }),
{
}

/// Instants are ordered one way.
pub proof fn instants_are_in_order(a: FlexTime, b: FlexTime, c: FlexTime)
    ensures
        !a.earlier(a),
        a.earlier(b) ==> !b.earlier(a),
        a != b ==> a.earlier(b) || b.earlier(a),
        a.earlier(b) && b.earlier(c) ==> a.earlier(c),
        a.secs < b.secs ==> a.earlier(b),
{
}

/// Each class of detection has its own name, and a class nobody has heard of has
/// none.
pub proof fn class_names_tell_classes_apart(a: Seq<char>, b: Seq<char>)
    ensures
        class_name(a).len() > 0 && class_name(a) == class_name(b) ==> a == b,
        class_name(a).len() > 0 <==> a == "A"@ || a == "B"@ || a == "C"@ || a == "D"@ || a == "E"@
            || a == "F"@ || a == "G"@ || a == "H"@,
        class_name("A"@) == "Remote ID"@,
        class_name("B"@) == "DJI DroneID"@,
        class_name("C"@) == "OUI/SSID"@,
        class_name("D"@) == "ADS-B"@,
        class_name("E"@) == "Control link"@,
        class_name("F"@) == "Analog FPV"@,
        class_name("G"@) == "BLE RemoteID"@,
        class_name("H"@) == "GNSS"@,
{
    reveal_strlit("A");
    reveal_strlit("B");
    reveal_strlit("C");
    reveal_strlit("D");
    reveal_strlit("E");
    reveal_strlit("F");
    reveal_strlit("G");
    reveal_strlit("H");
    reveal_strlit("");
    reveal_strlit("Remote ID");
    reveal_strlit("DJI DroneID");
    reveal_strlit("OUI/SSID");
    reveal_strlit("ADS-B");
    reveal_strlit("Control link");
    reveal_strlit("Analog FPV");
    reveal_strlit("BLE RemoteID");
    reveal_strlit("GNSS");
    assert("A"@[0] == 'A' && "B"@[0] == 'B' && "C"@[0] == 'C' && "D"@[0] == 'D' && "E"@[0] == 'E'
        && "F"@[0] == 'F' && "G"@[0] == 'G' && "H"@[0] == 'H');
    assert("Remote ID"@[0] == 'R' && "DJI DroneID"@[0] == 'D' && "OUI/SSID"@[0] == 'O');
    assert("ADS-B"@[1] == 'D' && "Control link"@[0] == 'C' && "Analog FPV"@[1] == 'n');
    assert("ADS-B"@[0] == 'A' && "Analog FPV"@[0] == 'A');
    assert("BLE RemoteID"@[0] == 'B' && "GNSS"@[0] == 'G');
}

/// A contact is called by the first of its model, its vendor, the vendor that
/// was guessed, its serial number and its address that says anything, and is
/// `unknown` where none does. A blank field never stands in the way of one that
/// is not.
pub proof fn contact_goes_by_its_best_name(i: Identity)
    ensures
        set_text(opt_view(i.model_hint)) matches Some(t) ==> i.name() == t,
        set_text(opt_view(i.model_hint)) is None ==> (set_text(opt_view(i.vendor)) matches Some(t)
            ==> i.name() == t),
        set_text(opt_view(i.model_hint)) is None && set_text(opt_view(i.vendor)) is None ==> (
        set_text(opt_view(i.vendor_hint)) matches Some(t) ==> i.name() == t),
        set_text(opt_view(i.model_hint)) is None && set_text(opt_view(i.vendor)) is None && set_text(
            opt_view(i.vendor_hint),
        ) is None ==> (set_text(opt_view(i.serial)) matches Some(t) ==> i.name() == t),
        set_text(opt_view(i.model_hint)) is None && set_text(opt_view(i.vendor)) is None && set_text(
            opt_view(i.vendor_hint),
        ) is None && set_text(opt_view(i.serial)) is None ==> match (i.macs, i.mac) {
            (Some(macs), _) if macs@.len() > 0 => i.name() == text_or(
                set_text(Some(macs@[0]@)),
                "unknown"@,
            ),
            (_, Some(mac)) => i.name() == text_or(set_text(Some(mac@)), "unknown"@),
            _ => i.name() == "unknown"@,
        },
        i.name().len() > 0,
{
    reveal_strlit("unknown");
}

/// A field says something exactly when it holds more than white space, and what
/// it says has none round it.
pub proof fn blank_fields_say_nothing(s: Seq<char>)
    ensures
        set_text(None) is None,
        set_text(Some(s)) is None <==> trimmed(s).len() == 0,
        set_text(Some(s)) matches Some(t) ==> t == trimmed(s) && t.len() > 0 && set_text(Some(t))
            == Some(t),
{
    lemma_trimmed_twice(s);
}

/// An aircraft that says who it is is called that; what it looks like comes
/// next, and what its signal looks like last.
pub proof fn detection_goes_by_its_best_name(d: Detection)
    ensures
        d.adsb matches Some(a) ==> (set_text(opt_view(a.callsign)) matches Some(t) ==> d.name()
            == t),
        d.adsb matches Some(a) ==> set_text(opt_view(a.callsign)) is None && a.icao@.len() > 0
            ==> d.name() == a.icao@,
        d.adsb is None ==> (d.identity matches Some(i) ==> i.name() != "unknown"@ ==> d.name()
            == i.name()),
        d.adsb is None && (d.identity matches Some(i) ==> i.name() == "unknown"@) ==> match d.signal_features {
            Some(f) => match f.protocol_hint {
                Some(hint) => d.name() == hint@,
                None => d.name().len() == 0,
            },
            None => d.name().len() == 0,
        },
{
}

/// The height above the ground is shown wherever it is known, and the altitude
/// only where it is not; each says which it is.
pub proof fn height_prefers_the_ground(p: Position)
    ensures
        p.height_agl_m matches Some(agl) ==> p.height() == Some((agl, "agl"@)),
        p.height_agl_m is None ==> (p.alt_geodetic_m matches Some(alt) ==> p.height() == Some(
            (alt, "alt"@),
        )),
        p.height() is None <==> p.height_agl_m is None && p.alt_geodetic_m is None,
{
}

/// A detection is tuned to its channel where it has one, and otherwise to its
/// frequency in megahertz.
pub proof fn tuning_prefers_the_channel(rf: Rf)
    ensures
        rf.channel matches Some(c) ==> rf.tuned() == Some("ch"@ + dec(c as nat)),
        rf.channel is None ==> (rf.freq_hz matches Some(hz) ==> rf.tuned() == Some(
            signed_quotient_text(hz as int, 1_000_000, 0) + "M"@,
        )),
        rf.tuned() is None <==> rf.channel is None && rf.freq_hz is None,
{
}

/// Being the same contact goes both ways and carries over.
pub proof fn same_contact_is_an_equivalence(a: Detection, b: Detection, c: Detection)
    ensures
        same_contact(a, b) ==> same_contact(b, a),
        same_contact(a, b) && same_contact(b, c) ==> same_contact(a, c),
        same_contact(a, a) <==> a.name().len() > 0,
        same_contact(a, b) <==> a.name().len() > 0 && a.name() == b.name() && a.detection_class@
            == b.detection_class@ && a.sensor_id@ == b.sensor_id@,
{
}

/// Where a run of detections begins, by what stands before it.
pub open spec fn run_start(runs: Seq<Repeats>, k: int) -> int {
    folded_total(runs.take(k))
}

/// The detections are folded in their order: each run begins where the one
/// before it ends, holds only the contact it begins with, and is as long as it
/// can be.
pub proof fn runs_are_consecutive(v: Seq<Detection>, k: int)
    requires
        v.len() <= usize::MAX,
        0 <= k < folded(v).len(),
    ensures
        folded(v)[k].first == run_start(folded(v), k),
        forall|j: int|
            folded(v)[k].first < j < folded(v)[k].first + folded(v)[k].count ==> same_contact(
                v[folded(v)[k].first as int],
                #[trigger] v[j],
            ),
        k + 1 < folded(v).len() ==> !same_contact(
            v[folded(v)[k].first as int],
            v[folded(v)[k + 1].first as int],
        ),
    decreases v.len(),
{
    let rest = v.drop_last();
    let before = folded(rest);
    let runs = folded(v);
    let last = before.len() - 1;
    folding_keeps_every_detection(rest);
    if before.len() > 0 {
        assert(before.take(last) == before.drop_last());
        assert(folded_total(before) == folded_total(before.drop_last()) + before.last().count);
        runs_are_consecutive(rest, last);
    }
    if before.len() > 0 && same_contact(v[before.last().first as int], v.last()) {
        assert(before.last().first + before.last().count == rest.len());
        assert(runs.take(k) == before.take(k));
        runs_are_consecutive(rest, k);
        if k == last {
            assert forall|j: int|
                runs[k].first < j < runs[k].first + runs[k].count implies same_contact(
                v[runs[k].first as int],
                #[trigger] v[j],
            ) by {
                if j < rest.len() {
                    assert(v[j] == rest[j]);
                    assert(v[runs[k].first as int] == rest[runs[k].first as int]);
                } else {
                    assert(v[j] == v.last());
                }
            }
        } else {
            lemma_runs_are_inside(rest, k);
            assert(forall|j: int| 0 <= j < rest.len() ==> #[trigger] v[j] == rest[j]);
        }
        if k + 1 < runs.len() {
            lemma_runs_are_inside(rest, k);
            lemma_runs_are_inside(rest, k + 1);
            assert(runs[k + 1].first == before[k + 1].first);
        }
    } else {
        assert(runs == before.push(Repeats { first: (v.len() - 1) as usize, count: 1 }));
        if k < before.len() {
            runs_are_consecutive(rest, k);
            lemma_runs_are_inside(rest, k);
            assert(runs.take(k) == before.take(k));
            assert(forall|j: int| 0 <= j < rest.len() ==> #[trigger] v[j] == rest[j]);
            if k + 1 < before.len() {
                lemma_runs_are_inside(rest, k + 1);
            }
        } else {
            assert(runs.take(k) == before);
        }
    }
}

proof fn lemma_runs_are_inside(v: Seq<Detection>, k: int)
    requires
        v.len() <= usize::MAX,
        0 <= k < folded(v).len(),
    ensures
        folded(v)[k].first + folded(v)[k].count <= v.len(),
        folded(v)[k].first < v.len(),
    decreases v.len(),
{
    let rest = v.drop_last();
    let before = folded(rest);
    let last = before.len() - 1;
    if before.len() > 0 {
        lemma_runs_are_inside(rest, last);
    }
    if k < before.len() {
        lemma_runs_are_inside(rest, k);
    }
}

/// Only these codes are refusals; an endpoint that failed in any other way, or
/// did not answer at all, refused nothing.
pub proof fn only_these_codes_refuse(code: Option<Seq<char>>)
    ensures
        refusal_code(code) <==> (code matches Some(c) && (c == "unauthenticated"@ || c
            == "forbidden"@ || c == "privileges_required"@ || c == "setup_required"@)),
        !refusal_code(None),
{
}

/// A session goes out as a cookie and never as a bearer token, a local token
/// the other way round, and with neither no header goes out at all.
pub proof fn credentials_go_out_in_their_own_header(token: Seq<char>)
    ensures
        header_for(Some((CredentialKind::Session, token))) matches Some((name, value)) && name
            == "Cookie"@ && has_suffix(value, token) && has_prefix(value, "classg_session="@),
        header_for(Some((CredentialKind::Local, token))) matches Some((name, value)) && name
            == "Authorization"@ && has_suffix(value, token) && has_prefix(value, "Bearer "@),
        header_for(None) is None,
{
    let a = "classg_session="@ + token;
    assert(a.take("classg_session="@.len() as int) == "classg_session="@);
    assert(a.skip(a.len() - token.len()) == token);
    let b = "Bearer "@ + token;
    assert(b.take("Bearer "@.len() as int) == "Bearer "@);
    assert(b.skip(b.len() - token.len()) == token);
}

/// A local token is used exactly where there is no session that says anything.
pub proof fn local_token_is_the_second_choice(session: Option<Seq<char>>, local: Option<Seq<char>>)
    ensures
        picked(session, local) matches Some((kind, t)) ==> t.len() > 0 && (kind
            == CredentialKind::Session <==> set_text(session) is Some),
        set_text(session) is None ==> (set_text(local) matches Some(t) ==> picked(session, local)
            == Some((CredentialKind::Local, t))),
        picked(session, local) is None <==> set_text(session) is None && set_text(local) is None,
{
}

/// As many rows are asked for as are wanted, wherever that many may be asked
/// for; wanting more never gets fewer.
pub proof fn rows_asked_for_follow_those_wanted(n: nat, m: nat, most: nat)
    requires
        most >= 1,
        n <= m,
    ensures
        1 <= n <= most ==> row_limit(n, most) == n,
        n == 0 ==> row_limit(n, most) == 1,
        n > most ==> row_limit(n, most) == most,
        row_limit(n, most) <= row_limit(m, most),
        has_suffix(tracks_address(n), "&limit="@ + dec(row_limit(n, 40))),
        has_suffix(detections_address(n), "?limit="@ + dec(row_limit(n, 200))),
{
    reveal_strlit("&limit=");
    reveal_strlit("?limit=");
    reveal_strlit("/api/v1/tracks?state=TENTATIVE,CONFIRMED,COASTING&limit=");
    reveal_strlit("/api/v1/detections?limit=");
    let a = tracks_address(n);
    let b = detections_address(n);
    let x = "&limit="@ + dec(row_limit(n, 40));
    let y = "?limit="@ + dec(row_limit(n, 200));
    assert(a.skip(a.len() - x.len()) == x);
    assert(b.skip(b.len() - y.len()) == y);
}

/// Something was refused exactly when one of the endpoints refused, whichever
/// it was, and what is shown is what that endpoint said. Who the poller is taken
/// for is asked of an endpoint whose answer is no refusal.
pub proof fn refusals_are_never_lost(a: Answers)
    ensures
        first_refusal(a) is Some <==> refused(a.tracks) is Some || refused(a.detections) is Some
            || refused(a.monitoring) is Some || (a.slow matches SlowTier::Asked(s) && (refused(
            s.system,
        ) is Some || refused(s.captures) is Some || refused(s.sweeps) is Some)),
        refused(a.tracks) is Some ==> first_refusal(a) == refused(a.tracks),
        refused(a.tracks) is None && refused(a.detections) is Some ==> first_refusal(a) == refused(
            a.detections,
        ),
        refused(a.tracks) is None && refused(a.detections) is None && refused(a.monitoring) is Some
            ==> first_refusal(a) == refused(a.monitoring),
        a.slow matches SlowTier::Asked(s) ==> first_refusal(a) is Some ==> first_refusal(a)
            == refused(a.tracks) || first_refusal(a) == refused(a.detections) || first_refusal(a)
            == refused(a.monitoring) || first_refusal(a) == refused(s.system) || first_refusal(a)
            == refused(s.captures) || first_refusal(a) == refused(s.sweeps),
{
}

/// An answer is a refusal exactly when it is an error with a code that refuses,
/// and is told in the words of that error.
pub proof fn refusal_is_told_in_its_own_words<T>(r: Result<T, FetchError>)
    ensures
        r matches Ok(v) ==> refused(r) is None && answer(r) == Some(v),
        r matches Err(e) ==> answer(r) is None && (refusal_code(opt_view(e.code)) ==> refused(r)
            == Some(e.message@)) && (!refusal_code(opt_view(e.code)) ==> refused(r) is None),
{
}

/// The newest is newer than or as new as every other, and later in the list
/// than any as new; one with no time is older than any with one. There is one
/// wherever there are any at all.
pub proof fn newest_is_the_newest(times: Seq<Option<FlexTime>>)
    ensures
        newest(times) is None <==> times.len() == 0,
        newest(times) matches Some(k) ==> 0 <= k < times.len() && forall|i: int|
            0 <= i < times.len() ==> match (#[trigger] times[i], times[k]) {
                (None, None) => i <= k,
                (None, Some(_)) => true,
                (Some(_), None) => false,
                (Some(x), Some(y)) => x.secs < y.secs || (x.secs == y.secs && (x.nanos < y.nanos
                    || (x.nanos == y.nanos && i <= k))),
            },
    decreases times.len(),
{
    if times.len() > 0 {
        let rest = times.drop_last();
        newest_is_the_newest(rest);
        let k = newest(times)->0;
        assert forall|i: int| 0 <= i < times.len() implies match (#[trigger] times[i], times[k]) {
            (None, None) => i <= k,
            (None, Some(_)) => true,
            (Some(_), None) => false,
            (Some(x), Some(y)) => x.secs < y.secs || (x.secs == y.secs && (x.nanos < y.nanos || (
            x.nanos == y.nanos && i <= k))),
        } by {
            if i < rest.len() {
                assert(rest[i] == times[i]);
            }
        }
    }
}

/// The latest capture is one of those there are, and none of them was started
/// later; so with sweeps.
pub proof fn latest_is_one_of_them(captures: Seq<Capture>, sweeps: Seq<SpectrumSweep>)
    ensures
        newest_capture(captures) is None <==> captures.len() == 0,
        newest_capture(captures) matches Some(c) ==> captures.contains(c) && forall|i: int|
            0 <= i < captures.len() ==> ((#[trigger] captures[i]).started_at matches Some(x) ==> (
            c.started_at matches Some(y) && !y.earlier(x))),
        newest_sweep(sweeps) is None <==> sweeps.len() == 0,
        newest_sweep(sweeps) matches Some(s) ==> sweeps.contains(s) && forall|i: int|
            0 <= i < sweeps.len() ==> ((#[trigger] sweeps[i]).started_at matches Some(x) ==> (
            s.started_at matches Some(y) && !y.earlier(x))),
{
    newest_is_the_newest(capture_times(captures));
    newest_is_the_newest(sweep_times(sweeps));
    if let Some(k) = newest(capture_times(captures)) {
        assert(captures[k] == newest_capture(captures)->0);
        assert forall|i: int| 0 <= i < captures.len() implies ((
        #[trigger] captures[i]).started_at matches Some(x) ==> (captures[k].started_at matches Some(
            y,
        ) && !y.earlier(x))) by {
            assert(capture_times(captures)[i] == captures[i].started_at);
        }
    }
    if let Some(k) = newest(sweep_times(sweeps)) {
        assert(sweeps[k] == newest_sweep(sweeps)->0);
        assert forall|i: int| 0 <= i < sweeps.len() implies ((
        #[trigger] sweeps[i]).started_at matches Some(x) ==> (sweeps[k].started_at matches Some(y)
            && !y.earlier(x))) by {
            assert(sweep_times(sweeps)[i] == sweeps[i].started_at);
        }
    }
}

/// A capture is running exactly when one says so, and the first that does is
/// the one shown.
pub proof fn running_capture_is_the_first(v: Seq<Capture>)
    ensures
        running_among(v) is None <==> forall|i: int|
            0 <= i < v.len() ==> (#[trigger] v[i]).state@ != "running"@,
        running_among(v) matches Some(c) ==> exists|k: int|
            0 <= k < v.len() && #[trigger] v[k] == c && c.state@ == "running"@ && forall|j: int|
                0 <= j < k ==> (#[trigger] v[j]).state@ != "running"@,
    decreases v.len(),
{
    if v.len() > 0 {
        if v[0].state@ == "running"@ {
            assert(v[0] == running_among(v)->0);
        } else {
            let rest = v.drop_first();
            running_capture_is_the_first(rest);
            assert(forall|i: int| 0 <= i < rest.len() ==> #[trigger] rest[i] == v[i + 1]);
            if let Some(c) = running_among(rest) {
                let k = choose|k: int|
                    0 <= k < rest.len() && #[trigger] rest[k] == c && c.state@ == "running"@
                        && forall|j: int|
                        0 <= j < k ==> (#[trigger] rest[j]).state@ != "running"@;
                assert(v[k + 1] == c);
                assert forall|j: int| 0 <= j < k + 1 implies (#[trigger] v[j]).state@
                    != "running"@ by {
                    if j > 0 {
                        assert(v[j] == rest[j - 1]);
                    }
                }
            } else {
                assert forall|i: int| 0 <= i < v.len() implies (#[trigger] v[i]).state@
                    != "running"@ by {
                    if i > 0 {
                        assert(v[i] == rest[i - 1]);
                    }
                }
            }
        }
    }
}

/// A sweep holds a radio exactly when one says that it runs, and the first that
/// does is the one shown.
pub proof fn running_sweep_is_the_first(v: Seq<SpectrumSweep>)
    ensures
        sweeping_among(v) is None <==> forall|i: int|
            0 <= i < v.len() ==> (#[trigger] v[i]).state@ != "running"@,
        sweeping_among(v) matches Some(c) ==> exists|k: int|
            0 <= k < v.len() && #[trigger] v[k] == c && c.state@ == "running"@ && forall|j: int|
                0 <= j < k ==> (#[trigger] v[j]).state@ != "running"@,
    decreases v.len(),
{
    if v.len() > 0 {
        if v[0].state@ == "running"@ {
            assert(v[0] == sweeping_among(v)->0);
        } else {
            let rest = v.drop_first();
            running_sweep_is_the_first(rest);
            assert(forall|i: int| 0 <= i < rest.len() ==> #[trigger] rest[i] == v[i + 1]);
            if let Some(c) = sweeping_among(rest) {
                let k = choose|k: int|
                    0 <= k < rest.len() && #[trigger] rest[k] == c && c.state@ == "running"@
                        && forall|j: int|
                        0 <= j < k ==> (#[trigger] rest[j]).state@ != "running"@;
                assert(v[k + 1] == c);
                assert forall|j: int| 0 <= j < k + 1 implies (#[trigger] v[j]).state@
                    != "running"@ by {
                    if j > 0 {
                        assert(v[j] == rest[j - 1]);
                    }
                }
            } else {
                assert forall|i: int| 0 <= i < v.len() implies (#[trigger] v[i]).state@
                    != "running"@ by {
                    if i > 0 {
                        assert(v[i] == rest[i - 1]);
                    }
                }
            }
        }
    }
}

/// The trace of a sensor is the one that bears its name, and a sensor that has
/// none has counted nothing yet.
pub proof fn trace_goes_by_its_name(traces: Seq<Traced>, id: Seq<char>)
    ensures
        (forall|i: int| 0 <= i < traces.len() ==> (#[trigger] traces[i]).sensor_id != id)
            ==> counts_of(traces, id).len() == 0,
        (exists|i: int| 0 <= i < traces.len() && (#[trigger] traces[i]).sensor_id == id)
            ==> exists|i: int|
            0 <= i < traces.len() && (#[trigger] traces[i]).sensor_id == id && counts_of(traces, id)
                == traces[i].counts,
    decreases traces.len(),
{
    if traces.len() > 0 {
        if traces[0].sensor_id == id {
            assert(counts_of(traces, id) == traces[0].counts);
        } else {
            let rest = traces.drop_first();
            trace_goes_by_its_name(rest, id);
            assert(forall|i: int| 0 <= i < rest.len() ==> #[trigger] rest[i] == traces[i + 1]);
            if exists|i: int| 0 <= i < traces.len() && (#[trigger] traces[i]).sensor_id == id {
                let i = choose|i: int|
                    0 <= i < traces.len() && (#[trigger] traces[i]).sensor_id == id;
                assert(rest[i - 1].sensor_id == id);
                let k = choose|k: int|
                    0 <= k < rest.len() && (#[trigger] rest[k]).sensor_id == id && counts_of(
                        rest,
                        id,
                    ) == rest[k].counts;
                assert(traces[k + 1] == rest[k]);
            }
        }
    }
}

/// A trace gains what the sensor counted last, and keeps what it had until it
/// is full; then it loses the oldest.
pub proof fn trace_gains_the_last_count(before: Seq<Traced>, sensors: Seq<SensorHealth>, i: int)
    requires
        0 <= i < sensors.len(),
        counts_of(before, sensors[i].sensor_id@).len() <= 30,
    ensures
        traces_after(before, sensors)[i].sensor_id == sensors[i].sensor_id@,
        ({
            let had = counts_of(before, sensors[i].sensor_id@);
            let has = traces_after(before, sensors)[i].counts;
            &&& had.len() < 30 ==> has == had.push(sensors[i].detections_5m)
            &&& had.len() == 30 ==> has == had.drop_first().push(sensors[i].detections_5m)
        }),
{
    let had = counts_of(before, sensors[i].sensor_id@);
    let all = had.push(sensors[i].detections_5m);
    if had.len() == 30 {
        assert(all.skip(1) == had.drop_first().push(sensors[i].detections_5m));
    }
}

/// A build is told by its version; a revision adds its first seven characters,
/// and says so where it had been changed.
pub proof fn build_names_its_revision(info: SystemInfo)
    ensures
        has_prefix(info.build_words(), info.build.version@),
        (info.build.revision is None || info.build.revision->0@.len() == 0) ==> info.build_words()
            == info.build.version@,
        info.build.revision matches Some(r) ==> r@.len() > 7 && !info.build.revision_dirty
            ==> info.build_words() == info.build.version@ + "+"@ + r@.take(7),
        info.build.revision matches Some(r) ==> 0 < r@.len() <= 7 && !info.build.revision_dirty
            ==> info.build_words() == info.build.version@ + "+"@ + r@,
        info.build.revision matches Some(r) ==> r@.len() > 0 ==> (has_suffix(
            info.build_words(),
            "-dirty"@,
        ) <== info.build.revision_dirty),
{
    let text = info.build_words();
    let version = info.build.version@;
    assert(text.take(version.len() as int) == version);
    if info.build.revision matches Some(r) && r@.len() > 0 && info.build.revision_dirty {
        assert(text.skip(text.len() - "-dirty"@.len()) == "-dirty"@);
    }
}

/// The classes of a contact are listed once each, in order, and all of them are.
pub proof fn classes_are_listed_once_in_order(evidence: Seq<Evidence>)
    ensures
        forall|i: int, j: int|
            0 <= i < j < classes_of(evidence).len() ==> text_before(
                #[trigger] classes_of(evidence)[i],
                #[trigger] classes_of(evidence)[j],
            ),
        forall|c: Seq<char>| #[trigger]
            classes_of(evidence).contains(c) <==> exists|i: int|
                0 <= i < evidence.len() && (#[trigger] evidence[i]).class@ == c && c.len() > 0,
    decreases evidence.len(),
{
    if evidence.len() > 0 {
        let rest = evidence.drop_last();
        let e = evidence.last();
        classes_are_listed_once_in_order(rest);
        assert(forall|i: int| 0 <= i < rest.len() ==> #[trigger] rest[i] == evidence[i]);
        let before = classes_of(rest);
        if e.class@.len() > 0 {
            lemma_with_word(before, e.class@);
        }
        assert forall|c: Seq<char>| #[trigger]
            classes_of(evidence).contains(c) <==> exists|i: int|
                0 <= i < evidence.len() && (#[trigger] evidence[i]).class@ == c && c.len() > 0 by {
            if classes_of(evidence).contains(c) {
                if before.contains(c) {
                    let i = choose|i: int|
                        0 <= i < rest.len() && (#[trigger] rest[i]).class@ == c && c.len() > 0;
                    assert(evidence[i].class@ == c);
                } else {
                    assert(evidence[evidence.len() - 1].class@ == c);
                }
            }
            if exists|i: int|
                0 <= i < evidence.len() && (#[trigger] evidence[i]).class@ == c && c.len() > 0 {
                let i = choose|i: int|
                    0 <= i < evidence.len() && (#[trigger] evidence[i]).class@ == c && c.len() > 0;
                if i < rest.len() {
                    assert(rest[i].class@ == c);
                    assert(before.contains(c));
                }
            }
        }
    }
}

proof fn lemma_with_word(list: Seq<Seq<char>>, word: Seq<char>)
    requires
        forall|i: int, j: int|
            0 <= i < j < list.len() ==> text_before(#[trigger] list[i], #[trigger] list[j]),
    ensures
        forall|i: int, j: int|
            0 <= i < j < with_word(list, word).len() ==> text_before(
                #[trigger] with_word(list, word)[i],
                #[trigger] with_word(list, word)[j],
            ),
        forall|c: Seq<char>| #[trigger]
            with_word(list, word).contains(c) <==> list.contains(c) || c == word,
    decreases list.len(),
{
    let r = with_word(list, word);
    if list.len() == 0 {
        assert(r[0] == word);
    } else if list.last() == word {
        assert(list[list.len() - 1] == word);
    } else if text_before(word, list.last()) {
        let rest = list.drop_last();
        let front = with_word(rest, word);
        assert forall|i: int, j: int| 0 <= i < j < rest.len() implies text_before(
            #[trigger] rest[i],
            #[trigger] rest[j],
        ) by {
            assert(text_before(list[i], list[j]));
        }
        lemma_with_word(rest, word);
        assert forall|i: int, j: int| 0 <= i < j < r.len() implies text_before(
            #[trigger] r[i],
            #[trigger] r[j],
        ) by {
            if j < front.len() {
                assert(text_before(front[i], front[j]));
            } else {
                assert(front.contains(front[i]));
                if front[i] != word {
                    let k = choose|k: int| 0 <= k < rest.len() && rest[k] == front[i];
                    assert(text_before(list[k], list[list.len() - 1]));
                }
            }
        }
        assert forall|c: Seq<char>| #[trigger] r.contains(c) <==> list.contains(c) || c == word by {
            if r.contains(c) {
                let k = choose|k: int| 0 <= k < r.len() && r[k] == c;
                if k < front.len() {
                    assert(front.contains(c));
                    if rest.contains(c) {
                        let m = choose|m: int| 0 <= m < rest.len() && rest[m] == c;
                        assert(list[m] == c);
                    }
                } else {
                    assert(list[list.len() - 1] == c);
                }
            }
            if list.contains(c) || c == word {
                if c == list.last() {
                    assert(r[r.len() - 1] == c);
                } else {
                    if list.contains(c) {
                        let m = choose|m: int| 0 <= m < list.len() && list[m] == c;
                        assert(rest[m] == c);
                    }
                    assert(front.contains(c));
                    let k = choose|k: int| 0 <= k < front.len() && front[k] == c;
                    assert(r[k] == c);
                }
            }
        }
    } else {
        lemma_text_order_is_strict(word, list.last());
        assert forall|i: int, j: int| 0 <= i < j < r.len() implies text_before(
            #[trigger] r[i],
            #[trigger] r[j],
        ) by {
            if j < list.len() {
                assert(text_before(list[i], list[j]));
            } else if i < list.len() - 1 {
                assert(text_before(list[i], list[list.len() - 1]));
                lemma_text_order_carries(list[i], list[list.len() - 1], word);
            }
        }
        assert forall|c: Seq<char>| #[trigger] r.contains(c) <==> list.contains(c) || c == word by {
            if r.contains(c) {
                let k = choose|k: int| 0 <= k < r.len() && r[k] == c;
                if k < list.len() {
                    assert(list[k] == c);
                }
            }
            if list.contains(c) {
                let k = choose|k: int| 0 <= k < list.len() && list[k] == c;
                assert(r[k] == c);
            }
            if c == word {
                assert(r[list.len() as int] == c);
            }
        }
    }
}

/// The sensors' counts are read again once half a minute has passed since they
/// last were, and at once where they never were.
pub proof fn counts_are_read_every_half_minute(pane: ClassgPane, now: u64)
    ensures
        pane.last_trace is None ==> pane.trace_due(now),
        pane.last_trace matches Some(then) ==> (pane.trace_due(now) <==> now >= then
            + 30_000_000_000),
{
}

/// A poll asks for the health of the unit first, and for nothing else where that
/// does not answer.
pub proof fn silent_unit_is_asked_nothing_more(
    up: spec_fn(Endpoint) -> bool,
    refresh_slow: bool,
    most: nat,
)
    requires
        most >= 8,
    ensures
        asked_from(Some(Endpoint::Health), up, refresh_slow, most)[0] == Endpoint::Health,
        !up(Endpoint::Health) ==> asked_from(
            Some(Endpoint::Health),
            up,
            refresh_slow,
            most,
        ).len() == 1,
        up(Endpoint::Health) && !refresh_slow ==> asked_from(
            Some(Endpoint::Health),
            up,
            refresh_slow,
            most,
        ) == seq![Endpoint::Health, Endpoint::Tracks, Endpoint::Detections, Endpoint::Monitoring],
{
    reveal_with_fuel(asked_from, 6);
}

/// Each endpoint has its own address.
pub proof fn endpoints_have_their_own_address(hints: RowHints)
    ensures
        Endpoint::Health.address(hints) == "/api/v1/health"@,
        Endpoint::Monitoring.address(hints) == "/api/v1/monitoring"@,
        Endpoint::Auth.address(hints) == "/api/v1/auth/me"@,
        Endpoint::System.address(hints) == "/api/v1/system"@,
        Endpoint::Captures.address(hints) == "/api/v1/captures"@,
        has_prefix(Endpoint::Sweeps.address(hints), "/api/v1/spectrum/sweeps"@),
        has_prefix(Endpoint::Tracks.address(hints), "/api/v1/tracks"@),
        has_prefix(Endpoint::Detections.address(hints), "/api/v1/detections"@),
{
    reveal_strlit("/api/v1/spectrum/sweeps?limit=5");
    reveal_strlit("/api/v1/spectrum/sweeps");
    reveal_strlit("/api/v1/tracks?state=TENTATIVE,CONFIRMED,COASTING&limit=");
    reveal_strlit("/api/v1/tracks");
    reveal_strlit("/api/v1/detections?limit=");
    reveal_strlit("/api/v1/detections");
    assert("/api/v1/spectrum/sweeps?limit=5"@.take(23) == "/api/v1/spectrum/sweeps"@);
    assert(Endpoint::Tracks.address(hints).take(14) == "/api/v1/tracks"@);
    assert(Endpoint::Detections.address(hints).take(18) == "/api/v1/detections"@);
}

} // verus!
