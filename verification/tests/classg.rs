use pi_dash::panes::classg::{
    body_error, collapse_runs, detection_class_label, detections_path, is_corroborating_only,
    json_error, next_slice, refreshes_slow, renew, request_for, status_error, tracks_path, Adsb,
    Answers, ApiError, Capture, CapturePage, ClassgPane, Credential, CredentialKind, Detection,
    DetectionPage, Endpoint, Evidence, FetchError, FlexTime, HealthResponse, Identity,
    MonitoringState, Rf, RowHints, SensorHealth, Slow, SlowTier, Snapshot, SpectrumSweep, SweepPage,
    SystemBuild, SystemInfo, Track, TrackPage, MAX_DETECTION_ROWS, MAX_ROWS,
};

fn text(s: &str) -> Option<String> {
    Some(s.to_string())
}

#[test]
fn timestamps_decode_from_rfc3339_and_from_float_epoch_seconds() {
    // 2026-08-16T12:34:56Z.
    const WHEN: i64 = 1_786_883_696;
    let rfc = FlexTime::from_text("2026-08-16T12:34:56Z").expect("rfc3339");
    let epoch = FlexTime::from_epoch(WHEN, 0).expect("epoch");
    assert_eq!(rfc.secs, WHEN);
    assert_eq!(epoch.secs, WHEN);

    // Offsets appear on the bus too.
    let offset = FlexTime::from_text("2026-08-16T14:34:56+02:00").expect("offset");
    assert_eq!(offset.secs, WHEN);

    // Sub-second precision survives: the Python sensor stamps floats.
    let fractional = FlexTime::from_epoch(WHEN, 250_000_000).expect("fractional");
    assert_eq!(fractional.nanos / 1_000_000, 250);
    let written = FlexTime::from_text("2026-08-16T12:34:56.25Z").expect("fractional text");
    assert_eq!(written.nanos, 250_000_000);
    assert_eq!(rfc.age_secs(FlexTime { secs: WHEN + 90, nanos: 0 }), 90);
}

#[test]
fn an_undecodable_timestamp_is_an_error_not_a_silent_epoch_zero() {
    assert!(FlexTime::from_text("yesterday").is_none());
    // Nor is one outside of what a calendar can say.
    assert!(FlexTime::from_epoch(i64::MAX, 0).is_none());
    assert!(FlexTime::from_epoch(8_210_266_876_799, 999_999_999).is_some());
    assert!(FlexTime::from_epoch(8_210_266_876_800, 0).is_none());
    assert!(FlexTime::from_epoch(-8_334_601_228_800, 0).is_some());
    assert!(FlexTime::from_epoch(-8_334_601_228_801, 0).is_none());
}

#[test]
fn identity_prefers_the_most_specific_label_and_ignores_blanks() {
    let identity =
        Identity { model_hint: text("  "), vendor: text("DJI"), ..Default::default() };
    assert_eq!(identity.label(), "DJI");
    assert_eq!(Identity::default().label(), "unknown");
}

#[test]
fn a_mac_names_a_contact_only_when_nothing_better_did() {
    let macs =
        Identity { macs: Some(vec!["26:37:12:aa:bb:cc".to_string()]), ..Default::default() };
    assert_eq!(macs.label(), "26:37:12:aa:bb:cc");
    let named = Identity {
        macs: Some(vec!["26:37:12:aa:bb:cc".to_string()]),
        model_hint: text("Mavic 3"),
        ..Default::default()
    };
    assert_eq!(named.label(), "Mavic 3");
}

fn evidence(class: &str, count: u64) -> Evidence {
    Evidence { class: class.to_string(), count }
}

#[test]
fn a_track_built_only_from_corroborating_evidence_is_not_identified() {
    let oui_only = Track { evidence: vec![evidence("C", 140)], ..Default::default() };
    assert!(!oui_only.identified());

    let remote_id =
        Track { evidence: vec![evidence("C", 140), evidence("A", 12)], ..Default::default() };
    assert!(remote_id.identified());
    assert_eq!(remote_id.evidence_classes(), "AC");
    // The OUI hit outnumbers the Remote ID broadcast more than ten to one and
    // still loses: it is not what identified the aircraft.
    assert_eq!(remote_id.evidence_summary(), "Ax12");
    assert_eq!(oui_only.evidence_summary(), "Cx140");
    assert_eq!(Track::default().evidence_summary(), "");

    // Absence is missing data, not weak data.
    assert!(Track::default().identified());
}

#[test]
fn tuning_reads_as_a_channel_or_a_frequency_but_never_as_both() {
    let wifi = Rf { channel: Some(149), freq_hz: Some(5_745_000_000), ..Default::default() };
    assert_eq!(wifi.tuning().as_deref(), Some("ch149"));
    let ism = Rf { freq_hz: Some(915_000_000), ..Default::default() };
    assert_eq!(ism.tuning().as_deref(), Some("915M"));
    assert_eq!(Rf::default().tuning(), None);
}

#[test]
fn the_bands_above_a_gigahertz_stay_told_apart() {
    let tuning = |hz: i64| Rf { freq_hz: Some(hz), ..Default::default() }.tuning();
    assert_eq!(tuning(1_090_000_000).as_deref(), Some("1090M"));
    assert_eq!(tuning(1_200_000_000).as_deref(), Some("1200M"));
    assert_eq!(tuning(1_300_000_000).as_deref(), Some("1300M"));
    assert_eq!(tuning(5_745_000_000).as_deref(), Some("5745M"));
    // Five characters, which is what the TUNE column was built for.
    for hz in [433_000_000, 1_090_000_000, 5_745_000_000] {
        let shown = tuning(hz).expect("a frequency");
        assert!(shown.len() <= 5, "{shown} will not fit the column");
    }
}

#[test]
fn an_adsb_hit_with_no_callsign_falls_back_to_the_icao_hex() {
    let detection = Detection {
        detection_class: "D".to_string(),
        adsb: Some(Adsb { icao: "a1b2c3".to_string(), callsign: text("") }),
        ..Default::default()
    };
    assert_eq!(detection.label(), "a1b2c3");
    let named = Detection {
        adsb: Some(Adsb { icao: "a1b2c3".to_string(), callsign: text("N172SP") }),
        ..Default::default()
    };
    assert_eq!(named.label(), "N172SP");
}

#[test]
fn the_detection_class_table_matches_the_one_the_web_app_shows() {
    assert_eq!(detection_class_label("A"), "Remote ID");
    assert_eq!(detection_class_label("D"), "ADS-B");
    assert_eq!(detection_class_label("H"), "GNSS");
    // An unknown class must render as nothing rather than as a guess.
    assert_eq!(detection_class_label("Z"), "");
    for class in ["C", "D", "H"] {
        assert!(is_corroborating_only(class), "{class} corroborates only");
    }
    for class in ["A", "B", "E", "F", "G"] {
        assert!(!is_corroborating_only(class), "{class} identifies");
    }
}

#[test]
fn system_reports_a_build_you_can_match_against_a_deploy() {
    let info = SystemInfo {
        build: SystemBuild {
            version: "0.4.1".to_string(),
            revision: text("a1b2c3d4e5f6"),
            revision_dirty: true,
        },
        ..Default::default()
    };
    assert_eq!(info.build_label(), "0.4.1+a1b2c3d-dirty");

    // A container build has no VCS stamp, and an empty revision must not render
    // as a bare `+`.
    let containerised = SystemInfo {
        build: SystemBuild {
            version: "0.4.1".to_string(),
            revision: text(""),
            ..Default::default()
        },
        ..Default::default()
    };
    assert_eq!(containerised.build_label(), "0.4.1");
}

#[test]
fn an_https_base_url_explains_itself_instead_of_failing_obscurely() {
    let error = request_for("https://pi.local:8081", &None, "/api/v1/health")
        .expect_err("https must be refused");
    assert!(error.message.contains("https is not supported"), "got {}", error.message);
    assert!(!error.is_refusal());
}

#[test]
fn a_request_carries_the_credential_that_was_picked() {
    let bare = request_for("http://pi:8081/", &None, "/api/v1/health").expect("a request");
    assert_eq!(bare.url, "http://pi:8081/api/v1/health");
    assert!(bare.header.is_none());

    let session = Some(Credential::Session("abc".to_string()));
    let (name, value) =
        request_for("http://pi:8081", &session, "/x").expect("a request").header.expect("one");
    assert_eq!((name.as_str(), value.as_str()), ("Cookie", "classg_session=abc"));

    let local = Some(Credential::Local("tok".to_string()));
    let (name, value) =
        request_for("http://pi:8081", &local, "/x").expect("a request").header.expect("one");
    assert_eq!((name.as_str(), value.as_str()), ("Authorization", "Bearer tok"));
}

#[test]
fn an_unreachable_api_returns_an_error_snapshot_not_a_panic() {
    let snapshot =
        Snapshot::unreachable(FetchError::transport("connection refused".to_string()), None);
    assert!(snapshot.health.is_none());
    assert!(snapshot.error.is_some());
    assert!(snapshot.tracks.is_none());
    assert!(snapshot.denied.is_none(), "nothing refused us; nothing answered at all");
}

#[test]
fn a_blank_session_token_is_treated_as_no_token_at_all() {
    assert_eq!(Credential::pick(text("   "), None), None);
    assert_eq!(Credential::pick(Some(String::new()), None), None);
    assert_eq!(
        Credential::pick(text("abc123"), None),
        Some(Credential::Session("abc123".to_string()))
    );
}

#[test]
fn a_session_beats_the_local_token() {
    assert_eq!(
        Credential::pick(text("human"), text("machine")),
        Some(Credential::Session("human".to_string()))
    );
    // A blank session is not a session, so the local token still wins.
    assert_eq!(
        Credential::pick(text("  "), text("machine")),
        Some(Credential::Local("machine".to_string()))
    );
    assert_eq!(
        Credential::pick(None, text("machine")),
        Some(Credential::Local("machine".to_string()))
    );
    assert_eq!(Credential::pick(None, None), None);
}

#[test]
fn a_refusal_is_told_apart_from_a_failure() {
    let refused =
        FetchError { message: "log in to continue".to_string(), code: text("unauthenticated") };
    assert!(refused.is_refusal());
    let broken =
        FetchError { message: "listing tracks failed".to_string(), code: text("internal") };
    assert!(!broken.is_refusal());
    assert!(!FetchError::transport("connection refused".to_string()).is_refusal());
}

#[test]
fn the_error_envelope_is_read_rather_than_the_status_number() {
    let answer = ApiError {
        code: "unauthenticated".to_string(),
        message: "log in to continue".to_string(),
    };
    let error = status_error(401, "/api/v1/tracks", Some(answer));
    assert_eq!(error.code.as_deref(), Some("unauthenticated"));
    assert_eq!(error.message, "log in to continue");
    // Without one, the number is all there is.
    let bare = status_error(500, "/api/v1/tracks", None);
    assert!(bare.message.contains("500"), "{}", bare.message);
    assert!(bare.message.contains("/api/v1/tracks"), "{}", bare.message);
    assert!(body_error("/x", "too long").message.contains("too long"));
    assert!(json_error("/x", "expected value").message.contains("expected value"));
}

#[test]
fn row_hints_are_clamped_into_the_range_the_api_accepts() {
    assert_eq!(RowHints::limit(0), 1, "zero would be rejected");
    assert_eq!(RowHints::limit(9999), MAX_ROWS);
    assert_eq!(RowHints::limit(12), 12);
    assert_eq!(RowHints::detection_limit(9999), MAX_DETECTION_ROWS);
    assert!(tracks_path(12).contains("limit=12"), "{}", tracks_path(12));
    assert!(detections_path(9999).contains("limit=200"), "{}", detections_path(9999));
}

#[test]
fn a_poll_keeps_what_answered_and_says_what_refused() {
    let refusal =
        || FetchError { message: "log in to continue".to_string(), code: text("unauthenticated") };
    let snapshot = Snapshot::assemble(
        Answers {
            health: HealthResponse::default(),
            tracks: Err(refusal()),
            detections: Ok(DetectionPage::default()),
            monitoring: Ok(MonitoringState::default()),
            slow: SlowTier::Kept(Slow::default()),
        },
        Some(CredentialKind::Local),
    );
    assert!(snapshot.health.is_some());
    assert!(snapshot.tracks.is_none());
    assert!(snapshot.detections.is_some());
    assert_eq!(snapshot.denied.as_deref(), Some("log in to continue"));
    assert_eq!(snapshot.credential, Some(CredentialKind::Local));

    // A failure is not a refusal.
    let broken = Snapshot::assemble(
        Answers {
            health: HealthResponse::default(),
            tracks: Ok(TrackPage::default()),
            detections: Err(FetchError::transport("timed out".to_string())),
            monitoring: Ok(MonitoringState::default()),
            slow: SlowTier::Kept(Slow::default()),
        },
        None,
    );
    assert!(broken.denied.is_none());
    assert!(broken.detections.is_none());
}

fn contact(icao: &str, sensor: &str) -> Detection {
    Detection {
        sensor_id: sensor.to_string(),
        detection_class: "D".to_string(),
        adsb: Some(Adsb { icao: icao.to_string(), callsign: None }),
        ..Default::default()
    }
}

#[test]
fn folding_loses_no_detection() {
    let page = vec![
        contact("a", "sdr-0"),
        contact("a", "sdr-0"),
        contact("b", "sdr-0"),
        contact("a", "sdr-0"),
        contact("a", "sdr-1"),
        Detection::default(),
        Detection::default(),
    ];
    let runs = collapse_runs(&page);
    let shape: Vec<(usize, usize)> = runs.iter().map(|r| (r.first, r.count)).collect();
    assert_eq!(shape, [(0, 2), (2, 1), (3, 1), (4, 1), (5, 1), (6, 1)]);
    assert_eq!(runs.iter().map(|r| r.count).sum::<usize>(), page.len());
}

#[test]
fn the_capture_that_runs_is_found_and_else_the_latest() {
    let at = |secs: i64| Some(FlexTime { secs, nanos: 0 });
    let done = |secs: i64, iface: &str| Capture {
        state: "completed".to_string(),
        started_at: at(secs),
        iface: iface.to_string(),
        ..Default::default()
    };
    let mut snapshot = Snapshot::default();
    assert!(snapshot.running_capture().is_none());
    assert!(snapshot.latest_capture().is_none());
    snapshot.slow.captures =
        Some(CapturePage { captures: vec![done(10, "old"), done(30, "new"), done(20, "mid")] });
    assert!(snapshot.running_capture().is_none());
    assert_eq!(snapshot.latest_capture().expect("one").iface, "new");
    if let Some(page) = snapshot.slow.captures.as_mut() {
        page.captures[2].state = "running".to_string();
    }
    assert_eq!(snapshot.running_capture().expect("one").iface, "mid");

    snapshot.slow.sweeps = Some(SweepPage {
        sweeps: vec![SpectrumSweep { state: "running".to_string(), ..Default::default() }],
    });
    assert!(snapshot.running_sweep().is_some());
    assert!(snapshot.latest_sweep().is_some());
}

#[test]
fn the_slow_tier_is_asked_once_in_a_while_and_sleep_comes_in_slices() {
    assert!(refreshes_slow(0));
    assert!(!refreshes_slow(1));
    assert!(refreshes_slow(10));
    let interval = 3_000_000;
    let mut slept = 0;
    let mut slices = 0;
    while slept < interval {
        let slice = next_slice(slept, interval);
        assert!(slice > 0);
        slept += slice;
        slices += 1;
    }
    assert_eq!(slept, interval);
    assert!(slices > 1, "a poller that sleeps in one go cannot be stopped");
}

#[test]
fn a_pane_remembers_when_it_last_had_an_answer() {
    let mut pane = ClassgPane::new("http://pi:8081".to_string());
    assert!(pane.last_ok.is_none());
    let answered =
        Snapshot { health: Some(HealthResponse::default()), ..Snapshot::default() };
    pane.accept(answered, 7);
    assert_eq!(pane.last_ok, Some(7));
    pane.accept(Snapshot::default(), 9);
    assert_eq!(pane.last_ok, Some(7), "no answer is not an answer");
    assert_eq!(pane.polls, 2);
}

#[test]
fn traces_come_and_go_with_their_sensors() {
    let sensor = |id: &str, count: u64| SensorHealth {
        sensor_id: id.to_string(),
        detections_5m: count,
        ..SensorHealth::default()
    };
    let mut pane = ClassgPane::new(String::new());
    pane.snapshot.health = Some(HealthResponse {
        sensors: vec![sensor("a", 5), sensor("b", 6)],
        ..HealthResponse::default()
    });
    pane.record_sensor_rates(0);
    assert_eq!(pane.traces.len(), 2);
    assert_eq!(pane.traces[1].counts, [6]);
}

/// What a poll asks for, where `down` is the one endpoint that fails.
fn asked(down: Option<Endpoint>, refresh_slow: bool) -> Vec<Endpoint> {
    let mut out = Vec::new();
    let mut turn = Some(Endpoint::Health);
    while let Some(endpoint) = turn {
        out.push(endpoint);
        turn = endpoint.next(Some(endpoint) != down, refresh_slow);
    }
    out
}

#[test]
fn a_poll_asks_each_endpoint_once_and_a_silent_api_nothing_more() {
    let fast =
        [Endpoint::Health, Endpoint::Tracks, Endpoint::Detections, Endpoint::Monitoring];
    assert_eq!(asked(None, false), fast);
    assert_eq!(asked(Some(Endpoint::Tracks), false), fast);
    assert_eq!(asked(Some(Endpoint::Health), true), [Endpoint::Health]);
    let all = asked(None, true);
    assert_eq!(all.len(), 8);
    assert_eq!(all[4..], [Endpoint::Auth, Endpoint::System, Endpoint::Captures, Endpoint::Sweeps]);
}

#[test]
fn every_endpoint_has_its_path() {
    let hints = RowHints { tracks: 12, detections: 30 };
    assert_eq!(Endpoint::Health.path(hints), "/api/v1/health");
    assert_eq!(
        Endpoint::Tracks.path(hints),
        "/api/v1/tracks?state=TENTATIVE,CONFIRMED,COASTING&limit=12"
    );
    assert_eq!(Endpoint::Detections.path(hints), "/api/v1/detections?limit=30");
    assert_eq!(Endpoint::Monitoring.path(hints), "/api/v1/monitoring");
    assert_eq!(Endpoint::Auth.path(hints), "/api/v1/auth/me");
    assert_eq!(Endpoint::System.path(hints), "/api/v1/system");
    assert_eq!(Endpoint::Captures.path(hints), "/api/v1/captures");
    assert_eq!(Endpoint::Sweeps.path(hints), "/api/v1/spectrum/sweeps?limit=5");
}

#[test]
fn a_refused_local_token_is_read_again_and_a_session_is_not() {
    let refused = |credential: Option<CredentialKind>| Snapshot {
        denied: text("log in to continue"),
        credential,
        ..Default::default()
    };
    assert!(refused(Some(CredentialKind::Local)).wants_token());
    assert!(!refused(Some(CredentialKind::Session)).wants_token());
    assert!(!refused(None).wants_token());
    let accepted =
        Snapshot { credential: Some(CredentialKind::Local), ..Default::default() };
    assert!(!accepted.wants_token());

    let local = || Some(Credential::Local("before".to_string()));
    assert_eq!(
        renew(local(), text("after\n")),
        Some(Credential::Local("after".to_string()))
    );
    assert_eq!(renew(local(), None), local());
    assert_eq!(renew(local(), text("  ")), local());
    let session = || Some(Credential::Session("human".to_string()));
    assert_eq!(renew(session(), text("machine")), session());
    assert_eq!(renew(None, text("machine")), None);
}

#[test]
fn an_age_counts_the_leap_second_it_started_in() {
    let leap = FlexTime::from_text("2016-12-31T10:00:60Z").expect("a leap second");
    let later = FlexTime::from_text("2016-12-31T10:01:30Z").expect("rfc3339");
    assert_eq!(leap.age_secs(later), 31);
    assert_eq!(later.age_secs(leap), -31);
    assert_eq!(leap.age_secs(leap), 0);
    // Only the times of day are compared, whatever the days.
    let next_morning = FlexTime::from_text("2017-01-01T09:00:00Z").expect("rfc3339");
    assert_eq!(leap.age_secs(next_morning), 23 * 3600 - 60);
    let before = FlexTime { secs: -86_401, nanos: 0 };
    assert_eq!(before.age_secs(FlexTime { secs: 1, nanos: 500_000_000 }), 86_402);
}
