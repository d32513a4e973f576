use pi_dash::check::{judge, run, summarise, verdict_of, Verdict};
use pi_dash::panes::classg::{
    FetchError, FlexTime, HealthResponse, MonitoringState, SensorHealth, Snapshot,
};
use pi_dash::panes::health::{DiskUsage, Filesystem, HealthPane, Throttle};
use pi_dash::panes::radios::RadiosPane;
use pi_dash::panes::system::SystemPane;
use pi_dash::snapshot::{class_label, describe_throttle, print_classg, print_once};

fn healthy_api() -> Snapshot {
    Snapshot {
        health: Some(HealthResponse {
            status: "ok".to_string(),
            sensors: vec![SensorHealth {
                sensor_id: "wifi-1".to_string(),
                healthy: true,
                ..SensorHealth::default()
            }],
            ..HealthResponse::default()
        }),
        monitoring: Some(MonitoringState { enabled: true, ..MonitoringState::default() }),
        ..Snapshot::default()
    }
}

fn dead_api() -> Snapshot {
    Snapshot { error: Some("connection refused".to_string()), ..Snapshot::default() }
}

#[test]
fn a_working_unit_has_nothing_to_say() {
    let findings = judge(&HealthPane::new(), &healthy_api());
    assert!(findings.is_empty(), "{findings:?}");
    assert_eq!(summarise(Verdict::Fine, &findings), "ok");
}

#[test]
fn an_unreachable_api_is_down_not_degraded() {
    let findings = judge(&HealthPane::new(), &dead_api());
    assert_eq!(findings[0].verdict, Verdict::Down);
    assert!(findings[0].note.contains("connection refused"));
}

#[test]
fn a_status_this_build_has_never_heard_of_is_not_treated_as_healthy() {
    let mut snapshot = healthy_api();
    if let Some(api) = snapshot.health.as_mut() {
        api.status = "reconfiguring".to_string();
    }
    let findings = judge(&HealthPane::new(), &snapshot);
    assert_eq!(findings[0].verdict, Verdict::Down);
    assert!(findings[0].note.contains("reconfiguring"));
}

#[test]
fn a_paused_recording_fails_the_check() {
    let mut snapshot = healthy_api();
    snapshot.monitoring = Some(MonitoringState {
        enabled: false,
        reason: Some("known local flight".to_string()),
        discarded: 1204,
        ..MonitoringState::default()
    });
    let findings = judge(&HealthPane::new(), &snapshot);
    assert_eq!(findings.len(), 1);
    assert_eq!(findings[0].verdict, Verdict::Degraded);
    assert!(findings[0].note.contains("known local flight"), "{:?}", findings[0]);
    assert!(findings[0].note.contains("1204"));
}

#[test]
fn a_sensor_that_is_down_is_named_because_degraded_does_not_say_which() {
    let mut snapshot = healthy_api();
    if let Some(api) = snapshot.health.as_mut() {
        api.status = "degraded".to_string();
        api.sensors.push(SensorHealth {
            sensor_id: "sdr-1".to_string(),
            healthy: false,
            reason: Some("rtl_sdr: device not found".to_string()),
            ..SensorHealth::default()
        });
    }
    let findings = judge(&HealthPane::new(), &snapshot);
    let line = summarise(Verdict::Degraded, &findings);
    assert!(line.contains("sdr-1"), "{line}");
    assert!(line.contains("rtl_sdr: device not found"), "{line}");
}

#[test]
fn optional_hardware_that_was_never_fitted_is_not_a_fault() {
    let mut snapshot = healthy_api();
    if let Some(api) = snapshot.health.as_mut() {
        api.sensors.push(SensorHealth {
            sensor_id: "ble-1".to_string(),
            healthy: false,
            optional: true,
            reason: Some("not fitted".to_string()),
            ..SensorHealth::default()
        });
    }
    assert!(judge(&HealthPane::new(), &snapshot).is_empty());
}

#[test]
fn a_live_brownout_fails_but_an_old_one_does_not() {
    let mut health = HealthPane::new();
    // Sticky bits only: this happened, and is not happening.
    health.throttle = Some(Throttle::decode(0x50000));
    assert!(judge(&health, &healthy_api()).is_empty());

    // Live under-voltage, which drops USB radios while you are watching.
    health.throttle = Some(Throttle::decode(0x50001));
    let findings = judge(&health, &healthy_api());
    assert_eq!(findings.len(), 1);
    assert!(findings[0].note.contains("UNDER-VOLTAGE NOW"), "{:?}", findings[0]);
}

#[test]
fn a_disk_about_to_end_a_capture_mid_write_fails() {
    let mut health = HealthPane::new();
    health.disk = Some(DiskUsage { used_kb: 95, avail_kb: 5, total_kb: 100 });
    let findings = judge(&health, &healthy_api());
    assert_eq!(findings[0].verdict, Verdict::Degraded);
    assert!(findings[0].note.contains("95% full"), "{:?}", findings[0]);

    // Half full is not news.
    health.disk = Some(DiskUsage { used_kb: 50, avail_kb: 50, total_kb: 100 });
    assert!(judge(&health, &healthy_api()).is_empty());
}

#[test]
fn any_filesystem_that_fills_up_fails_and_not_only_the_root() {
    let mut health = HealthPane::new();
    health.filesystems = vec![Filesystem {
        source: "/dev/sda1".to_string(),
        mount: "/media/captures".to_string(),
        usage: DiskUsage { used_kb: 97, avail_kb: 3, total_kb: 100 },
    }];
    let findings = judge(&health, &healthy_api());
    assert_eq!(findings.len(), 1);
    assert!(findings[0].note.contains("/media/captures"), "{:?}", findings[0]);
    assert!(findings[0].note.contains("97% full"), "{:?}", findings[0]);
}

#[test]
fn an_api_that_refuses_fails_the_check() {
    let mut snapshot = healthy_api();
    snapshot.denied = Some("log in to continue".to_string());
    let findings = judge(&HealthPane::new(), &snapshot);
    assert_eq!(verdict_of(&findings), Verdict::Degraded);
    assert!(findings[0].note.contains("log in to continue"), "{:?}", findings[0]);
}

#[test]
fn the_worst_finding_decides_the_verdict_and_the_rest_are_still_printed() {
    let mut health = HealthPane::new();
    health.throttle = Some(Throttle::decode(0x50001));
    let findings = judge(&health, &dead_api());
    let verdict = findings.iter().map(|f| f.verdict).max().expect("findings");
    assert_eq!(verdict, Verdict::Down);
    assert_eq!(verdict_of(&findings), verdict);

    let line = summarise(verdict, &findings);
    assert!(line.starts_with("down: "), "{line}");
    assert!(line.contains("connection refused"), "{line}");
    assert!(line.contains("UNDER-VOLTAGE NOW"), "{line}");
}

#[test]
fn the_exit_codes_are_the_ones_a_shell_can_branch_on() {
    assert_eq!(Verdict::Fine.code(), 0);
    assert_eq!(Verdict::Degraded.code(), 1);
    assert_eq!(Verdict::Down.code(), 2);
    // Severity ordering is what collapses a list of findings to one verdict,
    // so it has to hold.
    assert!(Verdict::Down > Verdict::Degraded);
    assert!(Verdict::Degraded > Verdict::Fine);
}

#[test]
fn the_check_runs_end_to_end_without_an_api_and_reports_it() {
    let snapshot =
        Snapshot::unreachable(FetchError::transport("connection refused".to_string()), None);
    let (text, code) = run(&HealthPane::new(), &snapshot);
    assert!(text.starts_with("down: "), "{text}");
    assert_eq!(code, 2);
}

#[test]
fn the_snapshot_renders_without_a_terminal_and_without_an_api() {
    let snapshot =
        Snapshot::unreachable(FetchError::transport("connection refused".to_string()), None);
    let text = print_once(
        &SystemPane::new(4096),
        &HealthPane::new(),
        &RadiosPane::new(),
        "http://127.0.0.1:1",
        &snapshot,
        FlexTime { secs: 0, nanos: 0 },
    );
    assert!(text.contains("system"));
    assert!(text.contains("health"));
    assert!(text.contains("radios"));
    assert!(text.contains("classg"));
    // A dead API degrades into a hint, it does not abort the snapshot.
    assert!(text.contains("not reachable"), "{text}");
    assert!(text.contains("make dev"));
}

#[test]
fn throttle_description_distinguishes_unknown_from_clean() {
    assert_eq!(describe_throttle(None), "unknown - no vcgencmd here");
    assert_eq!(describe_throttle(Some(Throttle::decode(0))), "ok, clean since boot");
    assert_eq!(
        describe_throttle(Some(Throttle::decode(0x50001))),
        "now [UNDER-VOLTAGE NOW]  since boot [under-voltage, throttled]  (0x50001)"
    );
    // A sticky-only register must not read as if it were happening now.
    assert_eq!(
        describe_throttle(Some(Throttle::decode(0x50000))),
        "now [-]  since boot [under-voltage, throttled]  (0x50000)"
    );
}

#[test]
fn a_snapshot_letters_its_classes_and_names_them() {
    assert_eq!(class_label("A"), "A Remote ID");
    assert_eq!(class_label("Z"), "Z");
    let text = print_classg(&healthy_api(), FlexTime { secs: 0, nanos: 0 });
    assert!(text.contains("wifi-1"), "{text}");
}
