use pi_dash::config::{
    apply_file, config_candidates, find_config, is_ignored, load_config, name_matches,
    print_config, secs_to_duration, use_file, CliOverrides, Config, ConfigFile, DashSection,
    EnvSettings, FileState, Origin, Requested, DEFAULT_API_INTERVAL, DEFAULT_INTERVAL,
};
use pi_dash::localtoken::{candidates, discover};
use pi_dash::panes::classg::{Credential, CredentialKind};

fn text(s: &str) -> Option<String> {
    Some(s.to_string())
}

fn dash(section: DashSection) -> ConfigFile {
    ConfigFile { dash: section, ..ConfigFile::default() }
}

fn loaded(file: ConfigFile) -> Config {
    load_config(
        Some(("/etc/pi-dash.toml".to_string(), file)),
        EnvSettings::default(),
        CliOverrides::default(),
    )
}

#[test]
fn defaults_stand_alone_without_a_file() {
    let config = load_config(None, EnvSettings::default(), CliOverrides::default());
    assert_eq!(config.api, "http://127.0.0.1:8081");
    assert_eq!(config.interval, DEFAULT_INTERVAL);
    assert_eq!(config.api_interval, DEFAULT_API_INTERVAL);
    assert!(config.source.is_none());
}

#[test]
fn a_partial_file_only_overrides_what_it_mentions() {
    let mut config = Config::default();
    let vendors = config.usb_vendor_ids.len();
    apply_file(
        &mut config,
        dash(DashSection { api: text("http://pi.local:9000"), ..DashSection::default() }),
    );
    assert_eq!(config.api, "http://pi.local:9000");
    assert_eq!(
        config.interval,
        secs_to_duration(Requested::Micros(DEFAULT_INTERVAL as i64), DEFAULT_INTERVAL)
    );
    assert_eq!(config.usb_vendor_ids.len(), vendors);
}

#[test]
fn every_value_reports_which_tier_set_it() {
    let mut config = Config::default();
    // Nothing has been applied, so everything is a default -- including a key
    // nobody has ever heard of, which must not panic.
    assert_eq!(config.origins.of("api"), Origin::Default);
    assert_eq!(config.origins.of("nonsense"), Origin::Default);

    apply_file(
        &mut config,
        dash(DashSection {
            api: text("http://pi.local:9000"),
            theme: text("green"),
            ..DashSection::default()
        }),
    );
    assert_eq!(config.origins.of("api"), Origin::File);
    assert_eq!(config.origins.of("theme"), Origin::File);
    assert_eq!(config.origins.of("glyphs"), Origin::Default);

    // The command line is last and wins, and says so.
    config.api = "http://pi:1".to_string();
    config.origins.set("api", Origin::Cli);
    assert_eq!(config.origins.of("api"), Origin::Cli);
    assert_eq!(Origin::Cli.label(), "command line");
}

#[test]
fn a_blank_session_in_a_file_resolves_to_no_session() {
    let mut config = Config::default();
    apply_file(
        &mut config,
        dash(DashSection { session: text("   "), ..DashSection::default() }),
    );
    assert_eq!(config.session.as_deref(), Some("   "));
    let resolved = loaded(dash(DashSection { session: text("   "), ..DashSection::default() }));
    assert!(resolved.session.is_none());
}

#[test]
fn intervals_are_clamped_away_from_zero() {
    let millis = 1_000;
    assert!(secs_to_duration(Requested::Micros(0), DEFAULT_INTERVAL) >= 250 * millis);
    assert!(secs_to_duration(Requested::Micros(-4_000_000), DEFAULT_INTERVAL) >= 250 * millis);

    // A value that is not a number falls back to the default for the setting
    // being resolved, not to whichever one happened to be written down first.
    assert_eq!(
        secs_to_duration(Requested::NotFinite, DEFAULT_API_INTERVAL),
        DEFAULT_API_INTERVAL
    );
    assert_eq!(secs_to_duration(Requested::NotFinite, DEFAULT_INTERVAL), DEFAULT_INTERVAL);
    assert!(secs_to_duration(Requested::NotFinite, DEFAULT_INTERVAL) > 0);
    assert_eq!(
        secs_to_duration(Requested::Micros(500_000), DEFAULT_INTERVAL),
        500 * millis
    );
}

#[test]
fn a_named_file_is_applied_and_reported_as_the_source() {
    let config = loaded(dash(DashSection {
        theme: text("green"),
        glyphs: text("ascii"),
        processes: Some(12),
        ..DashSection::default()
    }));

    assert_eq!(config.theme, "green");
    assert_eq!(config.glyphs, "ascii");
    assert_eq!(config.processes, Some(12));
    assert_eq!(config.source.as_deref(), Some("/etc/pi-dash.toml"));
    assert_eq!(config.origins.of("theme"), Origin::File);
    // Anything the file did not mention keeps its default and says so.
    assert_eq!(config.origins.of("api_interval"), Origin::Default);
    assert_eq!(config.api_interval, DEFAULT_API_INTERVAL);
}

#[test]
fn the_command_line_beats_the_file_and_the_environment_both() {
    let config = load_config(
        Some((
            "/etc/pi-dash.toml".to_string(),
            dash(DashSection { api: text("http://from-file:1"), ..DashSection::default() }),
        )),
        EnvSettings { api: text("http://from-env:3"), ..EnvSettings::default() },
        CliOverrides {
            api: text("http://from-cli:2"),
            interval: Some(Requested::Micros(500_000)),
        },
    );

    assert_eq!(config.api, "http://from-cli:2");
    assert_eq!(config.origins.of("api"), Origin::Cli);
    assert_eq!(config.interval, 500_000);
    assert_eq!(config.origins.of("interval"), Origin::Cli);
}

#[test]
fn the_environment_beats_the_file() {
    let config = load_config(
        Some((
            "/etc/pi-dash.toml".to_string(),
            dash(DashSection { api: text("http://from-file:1"), ..DashSection::default() }),
        )),
        EnvSettings { api: text(" http://from-env:3 "), ..EnvSettings::default() },
        CliOverrides::default(),
    );
    assert_eq!(config.api, "http://from-env:3");
    assert_eq!(config.origins.of("api"), Origin::Env);
}

#[test]
fn a_trailing_slash_on_the_api_is_removed_before_anything_uses_it() {
    let config =
        loaded(dash(DashSection { api: text("http://pi.local:8081/"), ..DashSection::default() }));
    assert_eq!(config.origins.of("api"), Origin::File);
    assert_eq!(config.api, "http://pi.local:8081");
}

#[test]
fn an_unusable_interval_falls_back_to_its_own_default_not_the_other_one() {
    let config = loaded(dash(DashSection {
        api_interval: Some(Requested::NotFinite),
        ..DashSection::default()
    }));
    assert_eq!(
        config.api_interval, DEFAULT_API_INTERVAL,
        "the API poll fell back to the local sample's default"
    );
}

#[test]
fn a_blank_session_in_a_file_resolves_to_no_credential_at_all() {
    let config = loaded(dash(DashSection { session: text("   "), ..DashSection::default() }));
    assert!(config.session.is_none());
}

#[test]
fn an_unreadable_interval_in_a_file_is_clamped_rather_than_obeyed() {
    let config = loaded(dash(DashSection {
        interval: Some(Requested::Micros(0)),
        ..DashSection::default()
    }));
    assert!(config.interval >= 250_000);
}

#[test]
fn ignore_patterns_glob_only_a_trailing_star() {
    let patterns = Config::default().ignore_interfaces;
    assert!(is_ignored("lo", &patterns));
    assert!(is_ignored("docker0", &patterns));
    assert!(is_ignored("br-1a2b3c", &patterns));
    assert!(is_ignored("veth9f2", &patterns));
    assert!(!is_ignored("wlan1", &patterns));
    assert!(!is_ignored("eth0", &patterns));
    // "lo" is exact, so a real interface that starts with it stays.
    assert!(!is_ignored("lorawan0", &patterns));
    assert!(name_matches("veth9f2", "veth*"));
    assert!(!name_matches("veth9f2", "veth"));
}

#[test]
fn the_first_config_that_exists_is_the_one() {
    let places = config_candidates(&text("/opt/bin"), &text("/work"), &text("/home/pi"));
    assert_eq!(
        places,
        [
            "/opt/bin/pi-dash.toml",
            "/work/pi-dash.toml",
            "/home/pi/.config/pi-dash/pi-dash.toml",
        ]
    );
    assert_eq!(
        find_config(&places, &vec![false, true, true]).as_deref(),
        Some("/work/pi-dash.toml")
    );
    assert!(find_config(&places, &vec![false, false, false]).is_none());
}

#[test]
fn print_config_never_prints_the_credential_itself() {
    let config = Config {
        session: text("s3cr3t-session-cookie"),
        local_token: text("s3cr3t-machine-token"),
        ..Config::default()
    };
    let text = print_config(&config);

    assert!(!text.contains("s3cr3t"), "a credential reached stdout:\n{text}");
    assert!(text.contains("credential"), "{text}");
    assert!(text.contains("set (session cookie)"), "{text}");
}

#[test]
fn print_config_says_which_credential_is_in_play() {
    let local_only = Config { local_token: text("machine"), ..Config::default() };
    assert!(print_config(&local_only).contains("local agent token"));

    let both =
        Config { session: text("human"), local_token: text("machine"), ..Config::default() };
    assert!(print_config(&both).contains("session cookie"));
    assert!(!print_config(&both).contains("local agent token"));

    assert!(print_config(&Config::default()).contains("not set"));
}

#[test]
fn print_config_names_the_tier_that_set_each_value() {
    let mut config = Config { api: "http://pi.local:9000".to_string(), ..Config::default() };
    config.origins.set_for_test("api", Origin::Env);
    let text = print_config(&config);

    let api_row = text.lines().find(|line| line.starts_with("api ")).expect("an api row");
    assert!(api_row.contains("http://pi.local:9000"), "{api_row}");
    assert!(api_row.ends_with("(environment)"), "{api_row}");

    // Untouched values still say where they came from.
    let theme_row = text.lines().find(|line| line.starts_with("theme")).expect("a theme row");
    assert!(theme_row.ends_with("(built-in default)"), "{theme_row}");
}

#[test]
fn print_config_reports_no_file_rather_than_an_empty_path() {
    let text = print_config(&Config::default());
    assert!(text.starts_with("config      none found"), "{text}");
}

#[test]
fn reads_a_token_and_strips_the_trailing_newline() {
    assert_eq!(discover(&vec![text("abc123\n")]).as_deref(), Some("abc123"));
}

#[test]
fn an_empty_file_is_not_a_token() {
    for body in ["", "\n", "   \n"] {
        assert_eq!(discover(&vec![text(body)]), None, "body {body:?} was read as a token");
    }
}

#[test]
fn a_missing_file_is_silent() {
    assert_eq!(discover(&vec![None]), None);
}

#[test]
fn the_search_is_bounded() {
    let mut parents: Vec<String> = Vec::new();
    for depth in (0..20).rev() {
        let mut path = "/r".to_string();
        for level in 0..depth {
            path.push_str(&format!("/d{level}"));
        }
        parents.push(path);
    }
    let paths = candidates(
        &text("/explicit/token"),
        &text("/var/lib/state"),
        &parents,
        &text("/home/pi"),
    );
    assert!(
        paths.len() < 12,
        "the candidate list has grown to {} entries; every one of them is a file this process \
         stats on every start",
        paths.len()
    );
}

#[test]
fn the_first_token_that_is_there_wins() {
    assert_eq!(
        discover(&vec![None, text("  \n"), text("second"), text("third")]).as_deref(),
        Some("second")
    );
    let paths = candidates(&None, &None, &vec!["/repo".to_string()], &text("/home/pi"));
    assert_eq!(
        paths,
        [
            "/repo/.agent-state/local-api-token",
            "/home/pi/.local/state/classg/local-api-token",
        ]
    );
}

#[test]
fn a_session_keeps_the_local_token_out() {
    let mut config = Config { session: text("human"), ..Config::default() };
    config.adopt_token(text("machine"));
    assert!(config.local_token.is_none());
    assert_eq!(config.credential(), Some(Credential::Session("human".to_string())));

    let mut plain = Config::default();
    plain.adopt_token(text("machine"));
    assert_eq!(plain.origins.of("session"), Origin::LocalAgent);
    let credential = plain.credential().expect("a credential");
    assert_eq!(credential.kind(), CredentialKind::Local);
}

#[test]
fn a_named_file_that_is_not_there_is_an_error() {
    // A file you asked for by name and did not get is a mistake worth stopping
    // on, and one merely absent from the search path is not.
    let missing = "/tmp/pi-dash-no-such-file-here.toml".to_string();
    let error = use_file(true, missing.clone(), FileState::Unreadable)
        .expect_err("a named file must be there");
    assert_eq!(error, "failed to read /tmp/pi-dash-no-such-file-here.toml");
    assert!(use_file(false, missing, FileState::Unreadable).expect("passed over").is_none());
    assert!(find_config(&Vec::new(), &Vec::new()).is_none());
}

#[test]
fn a_named_file_that_does_not_parse_says_which_file() {
    let text = use_file(true, "/tmp/pi-dash-broken.toml".to_string(), FileState::Malformed)
        .expect_err("a malformed file must not be ignored");
    assert!(text.contains("pi-dash-broken.toml"), "the error must name the file: {text}");
    assert_eq!(text, "failed to parse /tmp/pi-dash-broken.toml");
}

#[test]
fn a_file_that_was_only_found_never_stops_the_dashboard() {
    let path = || "/home/pi/pi-dash.toml".to_string();
    assert!(use_file(false, path(), FileState::Malformed).expect("passed over").is_none());
    let file = dash(DashSection { theme: text("green"), ..DashSection::default() });
    let (source, parsed) = use_file(false, path(), FileState::Read(file))
        .expect("used")
        .expect("a file that reads is used");
    assert_eq!(source, path());
    assert_eq!(parsed.dash.theme, text("green"));
}
