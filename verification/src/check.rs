//! One verdict and an exit code, for cron and CI.
//!
//! What is judged is what this dashboard can see, which is not the same as what
//! the API says of itself: an API can be perfectly healthy on a unit that is
//! browning out or three days from a full card. Never invent a verdict, and
//! never stay silent about a condition that ends in a detector that has stopped
//! detecting.

use vstd::prelude::*;

use crate::panes::classg::{HealthResponse, MonitoringState, SensorHealth, Snapshot};
use crate::panes::health::{mounted, DiskUsage, Filesystem, HealthPane, Mounted, Tense, Throttle};
use crate::text::{
    dec, decimal, has_prefix, join, joined, lemma_joined_has, lemma_joined_in_order,
    lemma_part_of_part, lemma_part_of_sum, no_texts, occurs_at, occurs_in, opt_view, push_text,
    same, texts,
};
use crate::ui::gauge::opt_text;

verus! {

/// The three states, in order of severity.
#[derive(Debug, Clone, Copy, PartialEq, Eq, PartialOrd, Ord, Structural)]
pub enum Verdict {
    Fine,
    /// Working, but something here ends badly if it is left alone.
    Degraded,
    /// Not detecting.
    Down,
}

impl Verdict {
    pub open spec fn word(self) -> Seq<char> {
        match self {
            Verdict::Fine => "ok"@,
            Verdict::Degraded => "degraded"@,
            Verdict::Down => "down"@,
        }
    }

    pub fn label(self) -> (r: &'static str)
        ensures
            r@ == self.word(),
    {
        match self {
            Verdict::Fine => "ok",
            Verdict::Degraded => "degraded",
            Verdict::Down => "down",
        }
    }

    /// How bad it is: nothing, one or two.
    pub open spec fn severity(self) -> int {
        match self {
            Verdict::Fine => 0,
            Verdict::Degraded => 1,
            Verdict::Down => 2,
        }
    }

    /// The exit code, so that a caller who only cares whether anything is wrong
    /// can test for one that is not zero.
    pub fn code(self) -> (r: u8)
        ensures
            r == self.severity(),
    {
        match self {
            Verdict::Fine => 0,
            Verdict::Degraded => 1,
            Verdict::Down => 2,
        }
    }
}

/// How bad something is, and what to say about it.
#[derive(Debug)]
pub struct Finding {
    pub verdict: Verdict,
    pub note: String,
}

/// What a finding says.
pub struct Found {
    pub verdict: Verdict,
    pub note: Seq<char>,
}

impl View for Finding {
    type V = Found;

    open spec fn view(&self) -> Found {
        Found { verdict: self.verdict, note: self.note@ }
    }
}

pub open spec fn findings_of(v: Seq<Finding>) -> Seq<Found> {
    Seq::new(v.len(), |i: int| v[i]@)
}

pub open spec fn found(verdict: Verdict, note: Seq<char>) -> Found {
    Found { verdict, note }
}

fn add_finding(v: &mut Vec<Finding>, verdict: Verdict, note: String)
    ensures
        findings_of(final(v)@) == findings_of(old(v)@).push(found(verdict, note@)),
{
    let ghost before = findings_of(v@);
    let f = Finding { verdict, note };
    let ghost added = f@;
    v.push(f);
    assert(findings_of(v@) == before.push(added));
}

/// A reason in brackets, where there is one.
pub open spec fn in_brackets(reason: Option<Seq<char>>) -> Seq<char> {
    match reason {
        Some(r) if r.len() > 0 => " ("@ + r + ")"@,
        _ => Seq::empty(),
    }
}

fn bracketed(reason: &Option<String>) -> (r: String)
    ensures
        r@ == in_brackets(opt_view(*reason)),
{
    match reason {
        Some(text) => if text.as_str().is_empty() {
            String::new()
        } else {
            let mut out = " (".to_owned();
            out.append(text.as_str());
            out.append(")");
            out
        },
        None => String::new(),
    }
}

/// What the API's own word on itself comes to. A status that this build has
/// never heard of is no reason to call a unit healthy.
pub open spec fn status_found(status: Seq<char>) -> Seq<Found> {
    if status == "ok"@ || status == "healthy"@ {
        Seq::empty()
    } else if status == "degraded"@ {
        seq![found(Verdict::Degraded, "the API reports degraded"@)]
    } else if status.len() == 0 {
        seq![found(Verdict::Down, "the API reports "@ + "no status"@)]
    } else {
        seq![found(Verdict::Down, "the API reports "@ + status)]
    }
}

/// The sensors that are down, each by its name. Optional hardware that was
/// never fitted is a build, not a fault.
pub open spec fn sensors_found(sensors: Seq<SensorHealth>) -> Seq<Found>
    decreases sensors.len(),
{
    if sensors.len() == 0 {
        Seq::empty()
    } else {
        let before = sensors_found(sensors.drop_last());
        let s = sensors.last();
        if !s.healthy && !s.optional {
            before.push(
                found(
                    Verdict::Degraded,
                    "sensor "@ + s.sensor_id@ + " is down"@ + in_brackets(opt_view(s.reason)),
                ),
            )
        } else {
            before
        }
    }
}

/// What is wrong with the detector.
pub open spec fn api_found(health: Option<HealthResponse>, error: Option<Seq<char>>) -> Seq<Found> {
    match health {
        None => seq![
            found(
                Verdict::Down,
                "the API is not answering: "@ + match error {
                    Some(e) => e,
                    None => "no reason given"@,
                },
            ),
        ],
        Some(api) => status_found(api.status@) + sensors_found(api.sensors@),
    }
}

/// A paused unit looks exactly like a quiet sky and is not one.
pub open spec fn pause_found(state: Option<MonitoringState>) -> Seq<Found> {
    match state {
        Some(s) if !s.enabled => seq![
            found(
                Verdict::Degraded,
                "recording is paused"@ + in_brackets(opt_view(s.reason)) + ", "@ + dec(
                    s.discarded as nat,
                ) + " detections discarded"@,
            ),
        ],
        _ => Seq::empty(),
    }
}

pub open spec fn refusal_found(denied: Option<Seq<char>>) -> Seq<Found> {
    match denied {
        Some(d) => seq![found(Verdict::Degraded, "the API refused us: "@ + d)],
        None => Seq::empty(),
    }
}

/// Only the live half of the register. A brownout in the night is history, and
/// a probe that fails for ever afterwards is one somebody silences.
pub open spec fn throttle_found(throttle: Option<Throttle>) -> Seq<Found> {
    match throttle {
        Some(t) if t.now.some_set() => seq![
            found(Verdict::Degraded, "the Pi is "@ + joined(t.now.said(Tense::Now), ", "@)),
        ],
        _ => Seq::empty(),
    }
}

/// The percentage at which a disk will end a capture in the middle of a write.
pub const DISK_FULL_PCT: u64 = 90;

pub open spec fn full(usage: DiskUsage) -> bool {
    usage.fullness().reaches(DISK_FULL_PCT as nat)
}

pub open spec fn disk_found(disk: Option<DiskUsage>) -> Seq<Found> {
    match disk {
        Some(d) if full(d) => seq![
            found(
                Verdict::Degraded,
                "the disk is "@ + d.fullness().percent_text(0) + "% full"@,
            ),
        ],
        _ => Seq::empty(),
    }
}

/// The filesystems that are full, besides the one mounted at `/`: what a unit
/// records to is not necessarily what it boots from.
pub open spec fn mounts_found(rows: Seq<Mounted>) -> Seq<Found>
    decreases rows.len(),
{
    if rows.len() == 0 {
        Seq::empty()
    } else {
        let before = mounts_found(rows.drop_last());
        let fs = rows.last();
        if fs.mount != "/"@ && full(fs.usage) {
            before.push(
                found(
                    Verdict::Degraded,
                    "the disk at "@ + fs.mount + " is "@ + fs.usage.fullness().percent_text(0)
                        + "% full"@,
                ),
            )
        } else {
            before
        }
    }
}

/// Every condition worth waking somebody for.
pub open spec fn judged(health: HealthPane, snapshot: Snapshot) -> Seq<Found> {
    api_found(snapshot.health, opt_view(snapshot.error)) + pause_found(snapshot.monitoring)
        + refusal_found(opt_view(snapshot.denied)) + throttle_found(health.throttle) + disk_found(
        health.disk,
    ) + mounts_found(mounted(health.filesystems@))
}

fn judge_api(out: &mut Vec<Finding>, snapshot: &Snapshot)
    ensures
        findings_of(final(out)@) == findings_of(old(out)@) + api_found(
            snapshot.health,
            opt_view(snapshot.error),
        ),
{
    let ghost before = findings_of(out@);
    match &snapshot.health {
        None => {
            let mut note = "the API is not answering: ".to_owned();
            match &snapshot.error {
                Some(e) => note.append(e.as_str()),
                None => note.append("no reason given"),
            }
            add_finding(out, Verdict::Down, note);
        },
        Some(api) => {
            let status = api.status.as_str();
            if same(status, "ok") || same(status, "healthy") {
            } else if same(status, "degraded") {
                add_finding(out, Verdict::Degraded, "the API reports degraded".to_owned());
            } else {
                let mut note = "the API reports ".to_owned();
                if status.is_empty() {
                    note.append("no status");
                } else {
                    note.append(status);
                }
                add_finding(out, Verdict::Down, note);
            }
            let ghost base = before + status_found(status@);
            assert(findings_of(out@) == base);
            let sensors = &api.sensors;
            let mut i: usize = 0;
            assert(sensors@.take(0) == Seq::<SensorHealth>::empty());
            assert(base + sensors_found(sensors@.take(0)) == base);
            while i < sensors.len()
                invariant
                    i <= sensors@.len(),
                    findings_of(out@) == base + sensors_found(sensors@.take(i as int)),
                decreases sensors@.len() - i,
            {
                let s = &sensors[i];
                assert(sensors@.take(i + 1).drop_last() == sensors@.take(i as int));
                assert(sensors@.take(i + 1).last() == *s);
                if !s.healthy && !s.optional {
                    let mut note = "sensor ".to_owned();
                    note.append(s.sensor_id.as_str());
                    note.append(" is down");
                    note.append(bracketed(&s.reason).as_str());
                    let ghost text = note@;
                    add_finding(out, Verdict::Degraded, note);
                    assert(base + sensors_found(sensors@.take(i + 1)) == (base + sensors_found(
                        sensors@.take(i as int),
                    )).push(found(Verdict::Degraded, text)));
                }
                i = i + 1;
            }
            assert(sensors@.take(i as int) == sensors@);
            assert(findings_of(out@) == before + api_found(
                snapshot.health,
                opt_view(snapshot.error),
            ));
        },
    }
}

fn judge_mounts(out: &mut Vec<Finding>, rows: &Vec<Filesystem>)
    ensures
        findings_of(final(out)@) == findings_of(old(out)@) + mounts_found(mounted(rows@)),
{
    let ghost before = findings_of(out@);
    let ghost all = mounted(rows@);
    let mut i: usize = 0;
    assert(all.take(0) == Seq::<Mounted>::empty());
    assert(before + mounts_found(all.take(0)) == before);
    while i < rows.len()
        invariant
            i <= rows@.len(),
            all == mounted(rows@),
            findings_of(out@) == before + mounts_found(all.take(i as int)),
        decreases rows@.len() - i,
    {
        let fs = &rows[i];
        assert(all.take(i + 1).drop_last() == all.take(i as int));
        assert(all.take(i + 1).last() == fs@);
        let fullness = fs.usage.pct();
        if !same(fs.mount.as_str(), "/") && fullness.at_least(DISK_FULL_PCT) {
            let mut note = "the disk at ".to_owned();
            note.append(fs.mount.as_str());
            note.append(" is ");
            note.append(fullness.percent(0).as_str());
            note.append("% full");
            let ghost text = note@;
            add_finding(out, Verdict::Degraded, note);
            assert(before + mounts_found(all.take(i + 1)) == (before + mounts_found(
                all.take(i as int),
            )).push(found(Verdict::Degraded, text)));
        }
        i = i + 1;
    }
    assert(all.take(i as int) == all);
}

/// Judges a unit by one sample of its box and one poll of its API.
pub fn judge(health: &HealthPane, snapshot: &Snapshot) -> (r: Vec<Finding>)
    ensures
        findings_of(r@) == judged(*health, *snapshot),
{
    let mut out: Vec<Finding> = Vec::new();
    let ghost none = Seq::<Found>::empty();
    assert(findings_of(out@) == none);
    judge_api(&mut out, snapshot);
    assert(findings_of(out@) == api_found(snapshot.health, opt_view(snapshot.error)));
    let ghost upto = findings_of(out@);
    if let Some(state) = &snapshot.monitoring {
        if !state.enabled {
            let mut note = "recording is paused".to_owned();
            note.append(bracketed(&state.reason).as_str());
            note.append(", ");
            note.append(decimal(state.discarded).as_str());
            note.append(" detections discarded");
            add_finding(&mut out, Verdict::Degraded, note);
        }
    }
    assert(findings_of(out@) == upto + pause_found(snapshot.monitoring));
    let ghost upto = findings_of(out@);
    if let Some(denied) = &snapshot.denied {
        let mut note = "the API refused us: ".to_owned();
        note.append(denied.as_str());
        add_finding(&mut out, Verdict::Degraded, note);
    }
    assert(findings_of(out@) == upto + refusal_found(opt_view(snapshot.denied)));
    let ghost upto = findings_of(out@);
    if let Some(throttle) = health.throttle {
        if throttle.now.any() {
            let mut note = "the Pi is ".to_owned();
            note.append(join(&throttle.now.labels(Tense::Now), ", ").as_str());
            add_finding(&mut out, Verdict::Degraded, note);
        }
    }
    assert(findings_of(out@) == upto + throttle_found(health.throttle));
    let ghost upto = findings_of(out@);
    if let Some(disk) = health.disk {
        let fullness = disk.pct();
        if fullness.at_least(DISK_FULL_PCT) {
            let mut note = "the disk is ".to_owned();
            note.append(fullness.percent(0).as_str());
            note.append("% full");
            add_finding(&mut out, Verdict::Degraded, note);
        }
    }
    assert(findings_of(out@) == upto + disk_found(health.disk));
    judge_mounts(&mut out, &health.filesystems);
    out
}

/// The worst of some findings, or a clean bill.
pub open spec fn worst(findings: Seq<Found>) -> Verdict
    decreases findings.len(),
{
    if findings.len() == 0 {
        Verdict::Fine
    } else {
        let before = worst(findings.drop_last());
        if findings.last().verdict.severity() > before.severity() {
            findings.last().verdict
        } else {
            before
        }
    }
}

pub fn verdict_of(findings: &Vec<Finding>) -> (r: Verdict)
    ensures
        r == worst(findings_of(findings@)),
{
    let ghost all = findings_of(findings@);
    let mut out = Verdict::Fine;
    let mut i: usize = 0;
    assert(all.take(0) == Seq::<Found>::empty());
    while i < findings.len()
        invariant
            i <= findings@.len(),
            all == findings_of(findings@),
            out == worst(all.take(i as int)),
        decreases findings@.len() - i,
    {
        assert(all.take(i + 1).drop_last() == all.take(i as int));
        assert(all.take(i + 1).last() == findings@[i as int]@);
        if findings[i].verdict.code() > out.code() {
            out = findings[i].verdict;
        }
        i = i + 1;
    }
    assert(all.take(i as int) == all);
    out
}

/// The notes of the findings of one severity, in the order they were gathered.
pub open spec fn notes_at(findings: Seq<Found>, verdict: Verdict) -> Seq<Seq<char>>
    decreases findings.len(),
{
    if findings.len() == 0 {
        Seq::empty()
    } else {
        let before = notes_at(findings.drop_last(), verdict);
        if findings.last().verdict == verdict {
            before.push(findings.last().note)
        } else {
            before
        }
    }
}

/// All notes, worst first; of equal severity they stay in the order they were
/// gathered.
pub open spec fn notes_by_severity(findings: Seq<Found>) -> Seq<Seq<char>> {
    notes_at(findings, Verdict::Down) + notes_at(findings, Verdict::Degraded) + notes_at(
        findings,
        Verdict::Fine,
    )
}

/// The verdict, then every finding that produced it. One at a lower severity
/// is still listed: the problem that gets fixed is the one that got printed.
pub open spec fn summary(verdict: Verdict, findings: Seq<Found>) -> Seq<char> {
    if findings.len() == 0 {
        verdict.word()
    } else {
        verdict.word() + ": "@ + joined(notes_by_severity(findings), "; "@)
    }
}

fn push_notes(out: &mut Vec<String>, findings: &Vec<Finding>, verdict: Verdict)
    ensures
        texts(final(out)@) == texts(old(out)@) + notes_at(findings_of(findings@), verdict),
{
    let ghost before = texts(out@);
    let ghost all = findings_of(findings@);
    let mut i: usize = 0;
    assert(all.take(0) == Seq::<Found>::empty());
    assert(before + notes_at(all.take(0), verdict) == before);
    while i < findings.len()
        invariant
            i <= findings@.len(),
            all == findings_of(findings@),
            texts(out@) == before + notes_at(all.take(i as int), verdict),
        decreases findings@.len() - i,
    {
        assert(all.take(i + 1).drop_last() == all.take(i as int));
        assert(all.take(i + 1).last() == findings@[i as int]@);
        if findings[i].verdict == verdict {
            push_text(out, findings[i].note.clone());
            assert(before + notes_at(all.take(i + 1), verdict) == (before + notes_at(
                all.take(i as int),
                verdict,
            )).push(findings@[i as int].note@));
        }
        i = i + 1;
    }
    assert(all.take(i as int) == all);
}

/// `degraded: recording is paused; sensor sdr-0 is down`.
pub fn summarise(verdict: Verdict, findings: &Vec<Finding>) -> (r: String)
    ensures
        r@ == summary(verdict, findings_of(findings@)),
{
    let mut line = verdict.label().to_owned();
    if findings.len() > 0 {
        let mut notes = no_texts();
        push_notes(&mut notes, findings, Verdict::Down);
        push_notes(&mut notes, findings, Verdict::Degraded);
        push_notes(&mut notes, findings, Verdict::Fine);
        assert(texts(notes@) == notes_by_severity(findings_of(findings@)));
        line.append(": ");
        line.append(join(&notes, "; ").as_str());
    }
    line
}

/// The line and the exit code for one sample of the box and one poll of the
/// API.
pub fn run(health: &HealthPane, snapshot: &Snapshot) -> (r: (String, u8))
    ensures
        r.0@ == summary(worst(judged(*health, *snapshot)), judged(*health, *snapshot)),
        r.1 == worst(judged(*health, *snapshot)).severity(),
{
    let findings = judge(health, snapshot);
    let verdict = verdict_of(&findings);
    (summarise(verdict, &findings), verdict.code())
}

/// The verdict is as bad as the worst finding and no worse.
pub proof fn worst_finding_decides(findings: Seq<Found>)
    ensures
        forall|i: int|
            0 <= i < findings.len() ==> (#[trigger] findings[i]).verdict.severity() <= worst(
                findings,
            ).severity(),
        findings.len() > 0 ==> exists|i: int|
            0 <= i < findings.len() && (#[trigger] findings[i]).verdict.severity() == worst(
                findings,
            ).severity(),
        findings.len() == 0 ==> worst(findings) == Verdict::Fine,
    decreases findings.len(),
{
    if findings.len() > 0 {
        let before = findings.drop_last();
        worst_finding_decides(before);
        assert forall|i: int| 0 <= i < findings.len() implies (
        #[trigger] findings[i]).verdict.severity() <= worst(findings).severity() by {
            if i < before.len() {
                assert(findings[i] == before[i]);
            }
        }
        if findings.last().verdict.severity() > worst(before).severity() {
            assert(findings[findings.len() - 1].verdict.severity() == worst(findings).severity());
        } else if before.len() > 0 {
            let j = choose|j: int|
                0 <= j < before.len() && (#[trigger] before[j]).verdict.severity() == worst(
                    before,
                ).severity();
            assert(findings[j] == before[j]);
        } else {
            assert(findings[findings.len() - 1].verdict.severity() == worst(findings).severity());
        }
    }
}

proof fn lemma_found_is_bad(findings: Seq<Found>, at: int)
    requires
        0 <= at < findings.len(),
        findings[at].verdict != Verdict::Fine,
    ensures
        worst(findings) != Verdict::Fine,
{
    worst_finding_decides(findings);
    assert(findings[at].verdict.severity() <= worst(findings).severity());
}

/// A unit that is not recording is never reported as fine.
pub proof fn paused_recording_fails(health: HealthPane, snapshot: Snapshot)
    requires
        snapshot.monitoring is Some,
        !snapshot.monitoring->0.enabled,
    ensures
        worst(judged(health, snapshot)) != Verdict::Fine,
{
    let a = api_found(snapshot.health, opt_view(snapshot.error));
    let all = judged(health, snapshot);
    assert(all[a.len() as int] == pause_found(snapshot.monitoring)[0]);
    lemma_found_is_bad(all, a.len() as int);
}

/// An API that does not answer is down, whatever else is the case.
pub proof fn silent_api_is_down(health: HealthPane, snapshot: Snapshot)
    requires
        snapshot.health is None,
    ensures
        worst(judged(health, snapshot)) == Verdict::Down,
{
    let all = judged(health, snapshot);
    assert(all[0] == api_found(snapshot.health, opt_view(snapshot.error))[0]);
    worst_finding_decides(all);
    assert(all[0].verdict.severity() <= worst(all).severity());
}

/// An API that refuses to answer is never reported as fine.
pub proof fn refusal_fails(health: HealthPane, snapshot: Snapshot)
    requires
        snapshot.denied is Some,
    ensures
        worst(judged(health, snapshot)) != Verdict::Fine,
{
    let a = api_found(snapshot.health, opt_view(snapshot.error)) + pause_found(
        snapshot.monitoring,
    );
    let all = judged(health, snapshot);
    assert(all[a.len() as int] == refusal_found(opt_view(snapshot.denied))[0]);
    lemma_found_is_bad(all, a.len() as int);
}

/// A supply that sags or a clock that is throttled right now always fails.
pub proof fn live_throttle_fails(health: HealthPane, snapshot: Snapshot)
    requires
        health.throttle is Some,
        health.throttle->0.now.some_set(),
    ensures
        worst(judged(health, snapshot)) != Verdict::Fine,
{
    let a = api_found(snapshot.health, opt_view(snapshot.error)) + pause_found(
        snapshot.monitoring,
    ) + refusal_found(opt_view(snapshot.denied));
    let all = judged(health, snapshot);
    assert(all[a.len() as int] == throttle_found(health.throttle)[0]);
    lemma_found_is_bad(all, a.len() as int);
}

proof fn lemma_sensor_found(sensors: Seq<SensorHealth>, at: int)
    requires
        0 <= at < sensors.len(),
        !sensors[at].healthy,
        !sensors[at].optional,
    ensures
        exists|i: int|
            0 <= i < sensors_found(sensors).len() && (
            #[trigger] sensors_found(sensors)[i]).verdict == Verdict::Degraded,
    decreases sensors.len(),
{
    let before = sensors_found(sensors.drop_last());
    if at == sensors.len() - 1 {
        assert(sensors_found(sensors)[before.len() as int].verdict == Verdict::Degraded);
    } else {
        lemma_sensor_found(sensors.drop_last(), at);
        let i = choose|i: int|
            0 <= i < before.len() && (#[trigger] before[i]).verdict == Verdict::Degraded;
        assert(sensors_found(sensors)[i] == before[i]);
    }
}

/// A sensor that is down and not optional always fails.
pub proof fn broken_sensor_fails(health: HealthPane, snapshot: Snapshot, at: int)
    requires
        snapshot.health is Some,
        0 <= at < snapshot.health->0.sensors@.len(),
        !snapshot.health->0.sensors@[at].healthy,
        !snapshot.health->0.sensors@[at].optional,
    ensures
        worst(judged(health, snapshot)) != Verdict::Fine,
{
    let api = snapshot.health->0;
    lemma_sensor_found(api.sensors@, at);
    let fs = sensors_found(api.sensors@);
    let i = choose|i: int| 0 <= i < fs.len() && (#[trigger] fs[i]).verdict == Verdict::Degraded;
    let all = judged(health, snapshot);
    let k = status_found(api.status@).len() + i;
    assert(all[k] == fs[i]);
    lemma_found_is_bad(all, k);
}

/// Optional hardware that is not there never changes the judgement.
pub proof fn optional_sensor_is_no_fault(sensors: Seq<SensorHealth>, at: int)
    requires
        0 <= at < sensors.len(),
        sensors[at].optional,
    ensures
        sensors_found(sensors) == sensors_found(sensors.remove(at)),
    decreases sensors.len(),
{
    if at == sensors.len() - 1 {
        assert(sensors.remove(at) == sensors.drop_last());
    } else {
        optional_sensor_is_no_fault(sensors.drop_last(), at);
        assert(sensors.remove(at).drop_last() == sensors.drop_last().remove(at));
        assert(sensors.remove(at).last() == sensors.last());
    }
}

/// What happened since boot never changes the judgement: only what is
/// happening now does.
pub proof fn past_throttling_is_no_fault(a: HealthPane, b: HealthPane, snapshot: Snapshot)
    requires
        a.throttle is Some,
        b.throttle is Some,
        a.throttle->0.now == b.throttle->0.now,
        a.disk == b.disk,
        mounted(a.filesystems@) == mounted(b.filesystems@),
    ensures
        judged(a, snapshot) == judged(b, snapshot),
{
}

proof fn lemma_mount_found(rows: Seq<Mounted>, at: int)
    requires
        0 <= at < rows.len(),
        rows[at].mount != "/"@,
        full(rows[at].usage),
    ensures
        exists|i: int|
            0 <= i < mounts_found(rows).len() && (#[trigger] mounts_found(rows)[i]).verdict
                == Verdict::Degraded,
    decreases rows.len(),
{
    let before = mounts_found(rows.drop_last());
    if at == rows.len() - 1 {
        assert(mounts_found(rows)[before.len() as int].verdict == Verdict::Degraded);
    } else {
        lemma_mount_found(rows.drop_last(), at);
        let i = choose|i: int|
            0 <= i < before.len() && (#[trigger] before[i]).verdict == Verdict::Degraded;
        assert(mounts_found(rows)[i] == before[i]);
    }
}

/// Any filesystem that is nearly full fails, not only the one mounted at `/`.
/// The one mounted there is the pane's own disk figure.
pub proof fn full_filesystem_fails(health: HealthPane, snapshot: Snapshot, at: int)
    requires
        0 <= at < health.filesystems@.len(),
        full(health.filesystems@[at].usage),
        health.filesystems@[at].mount@ == "/"@ ==> health.disk == Some(
            health.filesystems@[at].usage,
        ),
    ensures
        worst(judged(health, snapshot)) != Verdict::Fine,
{
    let rows = mounted(health.filesystems@);
    let all = judged(health, snapshot);
    let upto = api_found(snapshot.health, opt_view(snapshot.error)) + pause_found(
        snapshot.monitoring,
    ) + refusal_found(opt_view(snapshot.denied)) + throttle_found(health.throttle);
    let d = disk_found(health.disk);
    assert(rows[at] == health.filesystems@[at]@);
    if health.filesystems@[at].mount@ == "/"@ {
        assert(all[upto.len() as int] == d[0]);
        lemma_found_is_bad(all, upto.len() as int);
    } else {
        lemma_mount_found(rows, at);
        let ms = mounts_found(rows);
        let i = choose|i: int| 0 <= i < ms.len() && (#[trigger] ms[i]).verdict == Verdict::Degraded;
        let k = upto.len() + d.len() + i;
        assert(all[k] == ms[i]);
        lemma_found_is_bad(all, k);
    }
}

/// A working unit has nothing to say: with nothing found, the line is the one
/// word and the exit code is zero; with anything found, neither is.
pub proof fn clean_means_nothing_found(health: HealthPane, snapshot: Snapshot)
    ensures
        judged(health, snapshot).len() == 0 <==> worst(judged(health, snapshot)) == Verdict::Fine,
{
    let all = judged(health, snapshot);
    if all.len() > 0 {
        lemma_no_found_is_ok(health, snapshot);
        lemma_found_is_bad(all, 0);
    }
}

proof fn lemma_no_found_is_ok(health: HealthPane, snapshot: Snapshot)
    ensures
        forall|i: int|
            0 <= i < judged(health, snapshot).len() ==> (
            #[trigger] judged(health, snapshot)[i]).verdict != Verdict::Fine,
{
    if snapshot.health is Some {
        lemma_sensors_are_bad(snapshot.health->0.sensors@);
    }
    lemma_mounts_are_bad(mounted(health.filesystems@));
}

proof fn lemma_sensors_are_bad(sensors: Seq<SensorHealth>)
    ensures
        forall|i: int|
            0 <= i < sensors_found(sensors).len() ==> (
            #[trigger] sensors_found(sensors)[i]).verdict != Verdict::Fine,
    decreases sensors.len(),
{
    if sensors.len() > 0 {
        lemma_sensors_are_bad(sensors.drop_last());
    }
}

proof fn lemma_mounts_are_bad(rows: Seq<Mounted>)
    ensures
        forall|i: int|
            0 <= i < mounts_found(rows).len() ==> (#[trigger] mounts_found(rows)[i]).verdict
                != Verdict::Fine,
    decreases rows.len(),
{
    if rows.len() > 0 {
        lemma_mounts_are_bad(rows.drop_last());
    }
}

/// The first note that says how bad it is.
pub open spec fn first_note(findings: Seq<Found>, verdict: Verdict) -> Option<Seq<char>>
    decreases findings.len(),
{
    if findings.len() == 0 {
        None
    } else if findings[0].verdict == verdict {
        Some(findings[0].note)
    } else {
        first_note(findings.drop_first(), verdict)
    }
}

pub fn note_for(findings: &Vec<Finding>, verdict: Verdict) -> (r: Option<&str>)
    ensures
        opt_text(r) == first_note(findings_of(findings@), verdict),
{
    let ghost all = findings_of(findings@);
    let mut i: usize = 0;
    assert(all.skip(0) == all);
    while i < findings.len()
        invariant
            i <= findings@.len(),
            all == findings_of(findings@),
            first_note(all, verdict) == first_note(all.skip(i as int), verdict),
        decreases findings@.len() - i,
    {
        assert(all.skip(i as int)[0] == findings@[i as int]@);
        assert(all.skip(i as int).drop_first() == all.skip(i + 1));
        if findings[i].verdict == verdict {
            return Some(findings[i].note.as_str());
        }
        i = i + 1;
    }
    None
}

proof fn lemma_joined_holds(v: Seq<Seq<char>>, sep: Seq<char>, at: int)
    requires
        0 <= at < v.len(),
    ensures
        occurs_in(joined(v, sep), v[at]),
{
    lemma_joined_has(v, sep, at);
}

proof fn lemma_note_is_listed(findings: Seq<Found>, at: int)
    requires
        0 <= at < findings.len(),
    ensures
        notes_at(findings, findings[at].verdict).contains(findings[at].note),
    decreases findings.len(),
{
    let verdict = findings[at].verdict;
    let notes = notes_at(findings, verdict);
    if at == findings.len() - 1 {
        assert(notes[notes.len() - 1] == findings[at].note);
    } else {
        lemma_note_is_listed(findings.drop_last(), at);
        let before = notes_at(findings.drop_last(), verdict);
        let k = choose|k: int| 0 <= k < before.len() && before[k] == findings[at].note;
        assert(notes[k] == findings[at].note);
    }
}

/// The summary names everything that was found, and not only the worst of it.
pub proof fn summary_names_every_finding(verdict: Verdict, findings: Seq<Found>, at: int)
    requires
        0 <= at < findings.len(),
    ensures
        occurs_in(summary(verdict, findings), findings[at].note),
{
    let note = findings[at].note;
    let down = notes_at(findings, Verdict::Down);
    let degraded = notes_at(findings, Verdict::Degraded);
    let fine = notes_at(findings, Verdict::Fine);
    let notes = notes_by_severity(findings);
    lemma_note_is_listed(findings, at);
    let list = notes_at(findings, findings[at].verdict);
    let k = choose|k: int| 0 <= k < list.len() && list[k] == note;
    let position = match findings[at].verdict {
        Verdict::Down => k,
        Verdict::Degraded => down.len() + k,
        Verdict::Fine => (down + degraded).len() + k,
    };
    assert(notes[position] == note);
    lemma_joined_holds(notes, "; "@, position);
    let body = joined(notes, "; "@);
    let head = verdict.word() + ": "@;
    let from = choose|from: int| occurs_at(body, note, from);
    let all = summary(verdict, findings);
    assert(all == head + body);
    assert(all.subrange(head.len() + from, head.len() + from + note.len()) == body.subrange(
        from,
        from + note.len(),
    ));
    assert(occurs_at(all, note, head.len() + from));
}

/// The first note that says how bad it is is that of a finding, and there is
/// one wherever something was found.
pub proof fn first_note_is_of_the_worst(findings: Seq<Found>)
    requires
        findings.len() > 0,
    ensures
        exists|i: int|
            0 <= i < findings.len() && (#[trigger] findings[i]).verdict == worst(findings)
                && first_note(findings, worst(findings)) == Some(findings[i].note),
{
    worst_finding_decides(findings);
    let w = worst(findings);
    let at = choose|i: int| 0 <= i < findings.len() && (#[trigger] findings[i]).verdict == w;
    lemma_first_note(findings, w, at);
}

proof fn lemma_first_note(findings: Seq<Found>, verdict: Verdict, at: int)
    requires
        0 <= at < findings.len(),
        findings[at].verdict == verdict,
    ensures
        exists|i: int|
            0 <= i < findings.len() && (#[trigger] findings[i]).verdict == verdict && first_note(
                findings,
                verdict,
            ) == Some(findings[i].note),
    decreases findings.len(),
{
    if findings[0].verdict != verdict {
        let rest = findings.drop_first();
        assert(rest[at - 1] == findings[at]);
        lemma_first_note(rest, verdict, at - 1);
        let i = choose|i: int|
            0 <= i < rest.len() && (#[trigger] rest[i]).verdict == verdict && first_note(
                rest,
                verdict,
            ) == Some(rest[i].note);
        assert(findings[i + 1] == rest[i]);
    }
}

/// What the API says of itself is never talked down: a status other than `ok`
/// or `healthy` fails whatever the sensors, the disk and the supply say, and
/// one that is not `degraded` either means that nothing is detecting.
pub proof fn bad_status_fails(health: HealthPane, snapshot: Snapshot)
    requires
        snapshot.health is Some,
        snapshot.health->0.status@ != "ok"@,
        snapshot.health->0.status@ != "healthy"@,
    ensures
        worst(judged(health, snapshot)) != Verdict::Fine,
        snapshot.health->0.status@ != "degraded"@ ==> worst(judged(health, snapshot))
            == Verdict::Down,
{
    let all = judged(health, snapshot);
    assert(all[0] == status_found(snapshot.health->0.status@)[0]);
    worst_finding_decides(all);
    assert(all[0].verdict.severity() <= worst(all).severity());
}

/// A unit is down exactly when its detector is: when the API does not answer,
/// or answers with a status that is neither good nor merely degraded. Nothing
/// about the box alone makes it so.
pub proof fn down_means_not_detecting(health: HealthPane, snapshot: Snapshot)
    ensures
        worst(judged(health, snapshot)) == Verdict::Down <==> match snapshot.health {
            None => true,
            Some(api) => api.status@ != "ok"@ && api.status@ != "healthy"@ && api.status@
                != "degraded"@,
        },
{
    let all = judged(health, snapshot);
    worst_finding_decides(all);
    match snapshot.health {
        None => {
            silent_api_is_down(health, snapshot);
        },
        Some(api) => {
            if api.status@ != "ok"@ && api.status@ != "healthy"@ && api.status@ != "degraded"@ {
                bad_status_fails(health, snapshot);
            } else {
                lemma_sensors_are_mild(api.sensors@);
                lemma_mounts_are_mild(mounted(health.filesystems@));
                assert(forall|i: int|
                    0 <= i < all.len() ==> (#[trigger] all[i]).verdict != Verdict::Down);
            }
        },
    }
}

proof fn lemma_sensors_are_mild(sensors: Seq<SensorHealth>)
    ensures
        forall|i: int|
            0 <= i < sensors_found(sensors).len() ==> (
            #[trigger] sensors_found(sensors)[i]).verdict == Verdict::Degraded,
    decreases sensors.len(),
{
    if sensors.len() > 0 {
        lemma_sensors_are_mild(sensors.drop_last());
    }
}

proof fn lemma_mounts_are_mild(rows: Seq<Mounted>)
    ensures
        forall|i: int|
            0 <= i < mounts_found(rows).len() ==> (#[trigger] mounts_found(rows)[i]).verdict
                == Verdict::Degraded,
    decreases rows.len(),
{
    if rows.len() > 0 {
        lemma_mounts_are_mild(rows.drop_last());
    }
}

/// A filesystem is full at nine tenths of what can be written to, and not
/// before; one on which nothing can be written and nothing is, is not.
pub proof fn full_is_nine_tenths(usage: DiskUsage)
    requires
        usage.used_kb + usage.avail_kb <= u64::MAX,
    ensures
        full(usage) <==> usage.used_kb > 0 && 10 * usage.used_kb >= 9 * (usage.used_kb
            + usage.avail_kb),
{
    let bottom = usage.fullness().bottom();
    assert(DISK_FULL_PCT as nat * bottom == 90 * bottom) by (nonlinear_arith)
        requires
            DISK_FULL_PCT == 90,
    ;
}

/// A unit is fine exactly when each part of it is: the API answers and calls
/// itself well, no sensor that should be there is missing, it records, nothing
/// was refused, the supply and the clock hold right now, and no filesystem has
/// reached nine tenths.
pub proof fn fine_means_every_part_is(health: HealthPane, snapshot: Snapshot)
    requires
        health.disk matches Some(d) ==> d.used_kb + d.avail_kb <= u64::MAX,
        forall|i: int|
            0 <= i < health.filesystems@.len() ==> (
            #[trigger] health.filesystems@[i]).usage.used_kb
                + health.filesystems@[i].usage.avail_kb <= u64::MAX,
    ensures
        worst(judged(health, snapshot)) == Verdict::Fine <==> {
            &&& snapshot.health matches Some(api) && (api.status@ == "ok"@ || api.status@
                == "healthy"@) && forall|i: int|
                0 <= i < api.sensors@.len() ==> (#[trigger] api.sensors@[i]).healthy
                    || api.sensors@[i].optional
            &&& snapshot.monitoring matches Some(m) ==> m.enabled
            &&& snapshot.denied is None
            &&& health.throttle matches Some(t) ==> !t.now.under_voltage && !t.now.arm_capped
                && !t.now.throttled && !t.now.soft_temp_limit
            &&& health.disk matches Some(d) ==> d.used_kb == 0 || 10 * d.used_kb < 9 * (d.used_kb
                + d.avail_kb)
            &&& forall|i: int|
                0 <= i < health.filesystems@.len() ==> (#[trigger] health.filesystems@[i]).mount@
                    == "/"@ || health.filesystems@[i].usage.used_kb == 0 || 10
                    * health.filesystems@[i].usage.used_kb < 9 * (
                health.filesystems@[i].usage.used_kb + health.filesystems@[i].usage.avail_kb)
        },
{
    clean_means_nothing_found(health, snapshot);
    if let Some(d) = health.disk {
        full_is_nine_tenths(d);
    }
    if let Some(api) = snapshot.health {
        if sensors_found(api.sensors@).len() > 0 {
            lemma_found_sensor_is_broken(api.sensors@, 0);
        } else {
            assert forall|i: int| 0 <= i < api.sensors@.len() implies (
            #[trigger] api.sensors@[i]).healthy || api.sensors@[i].optional by {
                if !api.sensors@[i].healthy && !api.sensors@[i].optional {
                    lemma_sensor_found(api.sensors@, i);
                }
            }
        }
    }
    let rows = mounted(health.filesystems@);
    assert forall|i: int| 0 <= i < health.filesystems@.len() implies (full(
        (#[trigger] health.filesystems@[i]).usage,
    ) <==> health.filesystems@[i].usage.used_kb > 0 && 10 * health.filesystems@[i].usage.used_kb
        >= 9 * (health.filesystems@[i].usage.used_kb + health.filesystems@[i].usage.avail_kb)) by {
        full_is_nine_tenths(health.filesystems@[i].usage);
    }
    if mounts_found(rows).len() > 0 {
        lemma_found_mount_is_full(rows, 0);
        let k = choose|k: int|
            0 <= k < rows.len() && (#[trigger] rows[k]).mount != "/"@ && full(rows[k].usage);
        assert(rows[k] == health.filesystems@[k]@);
    } else {
        assert forall|i: int| 0 <= i < health.filesystems@.len() implies (
        #[trigger] health.filesystems@[i]).mount@ == "/"@ || !full(
            health.filesystems@[i].usage,
        ) by {
            assert(rows[i] == health.filesystems@[i]@);
            if rows[i].mount != "/"@ && full(rows[i].usage) {
                lemma_mount_found(rows, i);
            }
        }
    }
}

proof fn lemma_found_sensor_is_broken(sensors: Seq<SensorHealth>, at: int)
    requires
        0 <= at < sensors_found(sensors).len(),
    ensures
        exists|k: int|
            0 <= k < sensors.len() && !(#[trigger] sensors[k]).healthy && !sensors[k].optional
                && occurs_in(sensors_found(sensors)[at].note, sensors[k].sensor_id@),
    decreases sensors.len(),
{
    let before = sensors_found(sensors.drop_last());
    let s = sensors.last();
    if at < before.len() {
        lemma_found_sensor_is_broken(sensors.drop_last(), at);
        let k = choose|k: int|
            0 <= k < sensors.drop_last().len() && !(#[trigger] sensors.drop_last()[k]).healthy
                && !sensors.drop_last()[k].optional && occurs_in(
                before[at].note,
                sensors.drop_last()[k].sensor_id@,
            );
        assert(sensors[k] == sensors.drop_last()[k]);
    } else {
        lemma_part_of_sum(
            "sensor "@,
            s.sensor_id@,
            " is down"@ + in_brackets(opt_view(s.reason)),
        );
        assert("sensor "@ + s.sensor_id@ + " is down"@ + in_brackets(opt_view(s.reason))
            == "sensor "@ + s.sensor_id@ + (" is down"@ + in_brackets(opt_view(s.reason))));
        assert(sensors[sensors.len() - 1] == s);
    }
}

proof fn lemma_found_mount_is_full(rows: Seq<Mounted>, at: int)
    requires
        0 <= at < mounts_found(rows).len(),
    ensures
        exists|k: int|
            0 <= k < rows.len() && (#[trigger] rows[k]).mount != "/"@ && full(rows[k].usage)
                && occurs_in(mounts_found(rows)[at].note, rows[k].mount),
    decreases rows.len(),
{
    let before = mounts_found(rows.drop_last());
    let fs = rows.last();
    if at < before.len() {
        lemma_found_mount_is_full(rows.drop_last(), at);
        let k = choose|k: int|
            0 <= k < rows.drop_last().len() && (#[trigger] rows.drop_last()[k]).mount != "/"@
                && full(rows.drop_last()[k].usage) && occurs_in(
                before[at].note,
                rows.drop_last()[k].mount,
            );
        assert(rows[k] == rows.drop_last()[k]);
    } else {
        let rest = " is "@ + fs.usage.fullness().percent_text(0) + "% full"@;
        lemma_part_of_sum("the disk at "@, fs.mount, rest);
        assert("the disk at "@ + fs.mount + " is "@ + fs.usage.fullness().percent_text(0)
            + "% full"@ == "the disk at "@ + fs.mount + rest);
        assert(rows[rows.len() - 1] == fs);
    }
}

/// The exit code is zero for a unit that is fine, one for one that is degraded
/// and two for one that is down, and each has its own word.
pub proof fn exit_code_tells(verdict: Verdict)
    ensures
        verdict == Verdict::Fine <==> verdict.severity() == 0,
        verdict == Verdict::Degraded <==> verdict.severity() == 1,
        verdict == Verdict::Down <==> verdict.severity() == 2,
        verdict == Verdict::Fine <==> verdict.word() == "ok"@,
        verdict == Verdict::Degraded <==> verdict.word() == "degraded"@,
        verdict == Verdict::Down <==> verdict.word() == "down"@,
{
    reveal_strlit("ok");
    reveal_strlit("degraded");
    reveal_strlit("down");
    assert("ok"@.len() == 2);
    assert("degraded"@.len() == 8);
    assert("down"@.len() == 4);
}

/// The line opens with the verdict, and is no more than that word where there
/// is nothing to report.
pub proof fn line_opens_with_the_verdict(health: HealthPane, snapshot: Snapshot)
    ensures
        ({
            let all = judged(health, snapshot);
            let line = summary(worst(all), all);
            match worst(all) {
                Verdict::Fine => line == "ok"@,
                Verdict::Degraded => has_prefix(line, "degraded: "@),
                Verdict::Down => has_prefix(line, "down: "@),
            }
        }),
{
    clean_means_nothing_found(health, snapshot);
    let all = judged(health, snapshot);
    let line = summary(worst(all), all);
    reveal_strlit("degraded");
    reveal_strlit("down");
    reveal_strlit(": ");
    reveal_strlit("degraded: ");
    reveal_strlit("down: ");
    assert("degraded"@ + ": "@ == "degraded: "@);
    assert("down"@ + ": "@ == "down: "@);
    if all.len() > 0 {
        let head = worst(all).word() + ": "@;
        assert(line.take(head.len() as int) == head);
    }
}

proof fn lemma_place_of_note(findings: Seq<Found>, at: int)
    requires
        0 <= at < findings.len(),
    ensures
        ({
            let verdict = findings[at].verdict;
            let place = notes_at(findings.take(at), verdict).len();
            &&& place < notes_at(findings, verdict).len()
            &&& notes_at(findings, verdict)[place as int] == findings[at].note
        }),
    decreases findings.len(),
{
    let verdict = findings[at].verdict;
    if at == findings.len() - 1 {
        assert(findings.take(at) == findings.drop_last());
    } else {
        lemma_place_of_note(findings.drop_last(), at);
        assert(findings.drop_last().take(at) == findings.take(at));
        assert(findings.drop_last()[at] == findings[at]);
    }
}

proof fn lemma_notes_at_lengths(findings: Seq<Found>)
    ensures
        notes_by_severity(findings).len() == findings.len(),
    decreases findings.len(),
{
    if findings.len() > 0 {
        lemma_notes_at_lengths(findings.drop_last());
    }
}

/// The line names the worst first, and of equally bad findings the one that was
/// gathered first; each is named once.
pub proof fn line_names_the_worst_first(verdict: Verdict, findings: Seq<Found>, i: int, j: int)
    requires
        0 <= i < findings.len(),
        0 <= j < findings.len(),
        findings[i].verdict.severity() > findings[j].verdict.severity() || (
        findings[i].verdict.severity() == findings[j].verdict.severity() && i < j),
    ensures
        notes_by_severity(findings).len() == findings.len(),
        exists|p: int, q: int| #[trigger]
            occurs_at(summary(verdict, findings), findings[i].note, p) && #[trigger] occurs_at(
                summary(verdict, findings),
                findings[j].note,
                q,
            ) && p + findings[i].note.len() <= q,
{
    lemma_notes_at_lengths(findings);
    lemma_place_of_note(findings, i);
    lemma_place_of_note(findings, j);
    let down = notes_at(findings, Verdict::Down);
    let degraded = notes_at(findings, Verdict::Degraded);
    let notes = notes_by_severity(findings);
    let a = notes_at(findings.take(i), findings[i].verdict).len();
    let b = notes_at(findings.take(j), findings[j].verdict).len();
    if findings[i].verdict == findings[j].verdict {
        lemma_place_of_note(findings.take(j), i);
        assert(findings.take(j).take(i) == findings.take(i));
        assert(findings.take(j)[i] == findings[i]);
    }
    let at_i = match findings[i].verdict {
        Verdict::Down => a as int,
        Verdict::Degraded => (down.len() + a) as int,
        Verdict::Fine => (down.len() + degraded.len() + a) as int,
    };
    let at_j = match findings[j].verdict {
        Verdict::Down => b as int,
        Verdict::Degraded => (down.len() + b) as int,
        Verdict::Fine => (down.len() + degraded.len() + b) as int,
    };
    assert(notes[at_i] == findings[i].note);
    assert(notes[at_j] == findings[j].note);
    lemma_joined_in_order(notes, "; "@, at_i, at_j);
    let body = joined(notes, "; "@);
    let (p, q) = choose|p: int, q: int| #[trigger]
        occurs_at(body, notes[at_i], p) && #[trigger] occurs_at(body, notes[at_j], q) && p
            + notes[at_i].len() <= q;
    let head = verdict.word() + ": "@;
    let all = summary(verdict, findings);
    assert(all == head + body);
    assert(all.subrange(head.len() + p, head.len() + p + findings[i].note.len()) == body.subrange(
        p,
        p + findings[i].note.len(),
    ));
    assert(all.subrange(head.len() + q, head.len() + q + findings[j].note.len()) == body.subrange(
        q,
        q + findings[j].note.len(),
    ));
    assert(occurs_at(all, findings[i].note, head.len() + p));
    assert(occurs_at(all, findings[j].note, head.len() + q));
}

/// The note that stands for the verdict is the first of its kind: no finding
/// as bad was gathered before it.
pub proof fn first_note_is_the_first(findings: Seq<Found>, verdict: Verdict)
    ensures
        match first_note(findings, verdict) {
            Some(note) => exists|i: int|
                0 <= i < findings.len() && (#[trigger] findings[i]).verdict == verdict
                    && findings[i].note == note && forall|j: int|
                    0 <= j < i ==> (#[trigger] findings[j]).verdict != verdict,
            None => forall|i: int|
                0 <= i < findings.len() ==> (#[trigger] findings[i]).verdict != verdict,
        },
    decreases findings.len(),
{
    if findings.len() > 0 && findings[0].verdict != verdict {
        let rest = findings.drop_first();
        first_note_is_the_first(rest, verdict);
        match first_note(rest, verdict) {
            Some(note) => {
                let i = choose|i: int|
                    0 <= i < rest.len() && (#[trigger] rest[i]).verdict == verdict && rest[i].note
                        == note && forall|j: int|
                        0 <= j < i ==> (#[trigger] rest[j]).verdict != verdict;
                assert(findings[i + 1] == rest[i]);
                assert forall|j: int| 0 <= j < i + 1 implies (#[trigger] findings[j]).verdict
                    != verdict by {
                    if j > 0 {
                        assert(findings[j] == rest[j - 1]);
                    }
                }
            },
            None => {
                assert forall|i: int| 0 <= i < findings.len() implies (
                #[trigger] findings[i]).verdict != verdict by {
                    if i > 0 {
                        assert(findings[i] == rest[i - 1]);
                    }
                }
            },
        }
    } else if findings.len() > 0 {
        assert(findings[0].verdict == verdict);
    }
}

/// The line says why: the reason the API gave for not answering or the status
/// it answered with, each broken sensor by its name and its reason, how many
/// detections a pause has cost and why, what was refused, and which filesystem
/// is full.
pub proof fn line_says_why(health: HealthPane, snapshot: Snapshot, at: int)
    ensures
        ({
            let all = judged(health, snapshot);
            let line = summary(worst(all), all);
            &&& snapshot.health is None ==> (snapshot.error matches Some(e) ==> occurs_in(line, e@))
            &&& snapshot.health matches Some(api) ==> api.status@ != "ok"@ && api.status@
                != "healthy"@ ==> occurs_in(line, api.status@)
            &&& snapshot.health matches Some(api) ==> 0 <= at < api.sensors@.len()
                && !api.sensors@[at].healthy && !api.sensors@[at].optional ==> occurs_in(
                line,
                api.sensors@[at].sensor_id@,
            ) && (api.sensors@[at].reason matches Some(why) ==> occurs_in(line, why@))
            &&& snapshot.monitoring matches Some(m) ==> !m.enabled ==> occurs_in(
                line,
                dec(m.discarded as nat),
            ) && (m.reason matches Some(why) ==> occurs_in(line, why@))
            &&& snapshot.denied matches Some(d) ==> occurs_in(line, d@)
            &&& 0 <= at < health.filesystems@.len() && health.filesystems@[at].mount@ != "/"@
                && full(health.filesystems@[at].usage) ==> occurs_in(
                line,
                health.filesystems@[at].mount@,
            )
        }),
{
    let all = judged(health, snapshot);
    let line = summary(worst(all), all);
    let api_notes = api_found(snapshot.health, opt_view(snapshot.error));
    let pause_notes = pause_found(snapshot.monitoring);
    let refusal_notes = refusal_found(opt_view(snapshot.denied));
    let before_mounts = api_notes + pause_notes + refusal_notes + throttle_found(health.throttle)
        + disk_found(health.disk);
    match snapshot.health {
        None => {
            if let Some(e) = snapshot.error {
                assert(all[0] == api_notes[0]);
                lemma_part_of_sum("the API is not answering: "@, e@, Seq::empty());
                assert("the API is not answering: "@ + e@ + Seq::<char>::empty()
                    == all[0].note);
                lemma_line_has(worst(all), all, 0, e@);
            }
        },
        Some(api) => {
            if api.status@ != "ok"@ && api.status@ != "healthy"@ {
                assert(all[0] == status_found(api.status@)[0]);
                if api.status@ == "degraded"@ {
                    reveal_strlit("the API reports degraded");
                    reveal_strlit("the API reports ");
                    reveal_strlit("degraded");
                    assert("the API reports degraded"@ == "the API reports "@ + "degraded"@);
                }
                if api.status@.len() == 0 {
                    assert(all[0].note.subrange(0, 0) == api.status@);
                    assert(occurs_at(all[0].note, api.status@, 0));
                } else {
                    lemma_part_of_sum("the API reports "@, api.status@, Seq::empty());
                    assert("the API reports "@ + api.status@ + Seq::<char>::empty()
                        == all[0].note);
                }
                lemma_line_has(worst(all), all, 0, api.status@);
            }
            if 0 <= at < api.sensors@.len() && !api.sensors@[at].healthy
                && !api.sensors@[at].optional {
                let s = api.sensors@[at];
                let note = "sensor "@ + s.sensor_id@ + " is down"@ + in_brackets(
                    opt_view(s.reason),
                );
                let k = lemma_sensor_note(api.sensors@, at);
                let place = status_found(api.status@).len() + k;
                assert(all[place] == sensors_found(api.sensors@)[k]);
                let rest = " is down"@ + in_brackets(opt_view(s.reason));
                assert(note == "sensor "@ + s.sensor_id@ + rest);
                lemma_part_of_sum("sensor "@, s.sensor_id@, rest);
                lemma_line_has(worst(all), all, place, s.sensor_id@);
                if let Some(why) = s.reason {
                    let head = "sensor "@ + s.sensor_id@ + " is down"@;
                    lemma_reason_shown(head, why@, Seq::empty());
                    assert(note == head + in_brackets(Some(why@)) + Seq::<char>::empty());
                    lemma_line_has(worst(all), all, place, why@);
                }
            }
        },
    }
    if let Some(m) = snapshot.monitoring {
        if !m.enabled {
            let place = api_notes.len() as int;
            assert(all[place] == pause_notes[0]);
            let head = "recording is paused"@ + in_brackets(opt_view(m.reason)) + ", "@;
            let tail = ", "@ + dec(m.discarded as nat) + " detections discarded"@;
            lemma_part_of_sum(head, dec(m.discarded as nat), " detections discarded"@);
            lemma_line_has(worst(all), all, place, dec(m.discarded as nat));
            if let Some(why) = m.reason {
                lemma_reason_shown("recording is paused"@, why@, tail);
                assert(all[place].note == "recording is paused"@ + in_brackets(Some(why@)) + tail);
                lemma_line_has(worst(all), all, place, why@);
            }
        }
    }
    if let Some(d) = snapshot.denied {
        let place = (api_notes + pause_notes).len() as int;
        assert(all[place] == refusal_notes[0]);
        lemma_part_of_sum("the API refused us: "@, d@, Seq::empty());
        assert("the API refused us: "@ + d@ + Seq::<char>::empty() == all[place].note);
        lemma_line_has(worst(all), all, place, d@);
    }
    if 0 <= at < health.filesystems@.len() && health.filesystems@[at].mount@ != "/"@ && full(
        health.filesystems@[at].usage,
    ) {
        let rows = mounted(health.filesystems@);
        assert(rows[at] == health.filesystems@[at]@);
        let fs = rows[at];
        let k = lemma_mount_note(rows, at);
        let place = before_mounts.len() + k;
        assert(all[place] == mounts_found(rows)[k]);
        let rest = " is "@ + fs.usage.fullness().percent_text(0) + "% full"@;
        lemma_part_of_sum("the disk at "@, fs.mount, rest);
        assert(all[place].note == "the disk at "@ + fs.mount + rest);
        lemma_line_has(worst(all), all, place, fs.mount);
    }
}

proof fn lemma_reason_shown(head: Seq<char>, why: Seq<char>, tail: Seq<char>)
    ensures
        occurs_in(head + in_brackets(Some(why)) + tail, why),
{
    let all = head + in_brackets(Some(why)) + tail;
    if why.len() == 0 {
        assert(all.subrange(0, 0) == why);
        assert(occurs_at(all, why, 0));
    } else {
        lemma_part_of_sum(head + " ("@, why, ")"@ + tail);
        assert(all == head + " ("@ + why + (")"@ + tail));
    }
}

proof fn lemma_line_has(verdict: Verdict, findings: Seq<Found>, at: int, part: Seq<char>)
    requires
        0 <= at < findings.len(),
        occurs_in(findings[at].note, part),
    ensures
        occurs_in(summary(verdict, findings), part),
{
    summary_names_every_finding(verdict, findings, at);
    lemma_part_of_part(summary(verdict, findings), findings[at].note, part);
}

proof fn lemma_sensor_note(sensors: Seq<SensorHealth>, at: int) -> (k: int)
    requires
        0 <= at < sensors.len(),
        !sensors[at].healthy,
        !sensors[at].optional,
    ensures
        0 <= k < sensors_found(sensors).len(),
        sensors_found(sensors)[k].note == "sensor "@ + sensors[at].sensor_id@ + " is down"@
            + in_brackets(opt_view(sensors[at].reason)),
    decreases sensors.len(),
{
    if at == sensors.len() - 1 {
        sensors_found(sensors.drop_last()).len() as int
    } else {
        lemma_sensor_note(sensors.drop_last(), at)
    }
}

proof fn lemma_mount_note(rows: Seq<Mounted>, at: int) -> (k: int)
    requires
        0 <= at < rows.len(),
        rows[at].mount != "/"@,
        full(rows[at].usage),
    ensures
        0 <= k < mounts_found(rows).len(),
        mounts_found(rows)[k].note == "the disk at "@ + rows[at].mount + " is "@
            + rows[at].usage.fullness().percent_text(0) + "% full"@,
    decreases rows.len(),
{
    if at == rows.len() - 1 {
        mounts_found(rows.drop_last()).len() as int
    } else {
        lemma_mount_note(rows.drop_last(), at)
    }
}

/// A reason is told in brackets, and where there is none, or an empty one, no
/// brackets stand.
pub proof fn empty_reasons_get_no_brackets(reason: Option<Seq<char>>)
    ensures
        in_brackets(reason).len() == 0 <==> (reason matches Some(r) ==> r.len() == 0),
        reason matches Some(r) ==> r.len() > 0 ==> in_brackets(reason).len() == r.len() + 3
            && in_brackets(reason).subrange(2, r.len() as int + 2) == r,
{
    reveal_strlit(" (");
    reveal_strlit(")");
    if let Some(r) = reason {
        if r.len() > 0 {
            assert(in_brackets(reason).subrange(2, r.len() as int + 2) == r);
        }
    }
}

} // verus!
