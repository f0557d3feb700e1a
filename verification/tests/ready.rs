//! The readiness checks.

use wintermute_platform::calendar::days_to_ymd;
use wintermute_platform::ready::{
    aggregate, audio_verdict, check_audio, check_brain, check_bus, check_target, check_units,
    not_ready_phrase, target_verdict, utc_timestamp, verdict_line, which_on_path, BusProbe,
    CheckResult, BOOTSTRAP_ENV_OVERRIDE_VAR, BOOT_PHRASE_READY, CHECK_AUDIO, CHECK_BRAIN,
    CHECK_BUS, CHECK_TARGET, CHECK_UNITS,
};
use wintermute_platform::FileRead;

fn settings(text: &'static str) -> impl Fn(&str) -> FileRead {
    move |p: &str| {
        assert_eq!(p, "/srv/boot.env");
        FileRead::Text(text.to_string())
    }
}

#[test]
fn brain_check_fails_on_empty_key() {
    let r = check_brain(Some("/srv/boot.env"), None, &settings("WM_ANTHROPIC_API_KEY=\n"));
    assert_eq!(r.name, CHECK_BRAIN);
    assert!(!r.ok, "empty key should be NOT READY");
    assert!(r.detail.contains("WM_ANTHROPIC_API_KEY"));
}

#[test]
fn brain_check_passes_on_non_empty_key() {
    let r = check_brain(Some("/srv/boot.env"), None, &settings("WM_ANTHROPIC_API_KEY=sk-live-test-key\n"));
    assert_eq!(r.name, CHECK_BRAIN);
    assert!(r.ok, "non-empty key should be READY");
    assert!(r.detail.is_empty());
}

#[test]
fn brain_check_fails_on_missing_file() {
    let r = check_brain(Some("/srv/nope.env"), None, &|_p: &str| FileRead::NotFound);
    assert!(!r.ok);
    assert!(r.detail.contains("bootstrap env not found"));
    assert_eq!(r.detail, "bootstrap env not found: /srv/nope.env");
}

#[test]
fn brain_check_fails_when_key_absent_from_env_file() {
    let r = check_brain(Some("/srv/boot.env"), None, &settings("SOME_OTHER_VAR=value\n"));
    assert!(!r.ok);
    assert!(r.detail.contains("WM_ANTHROPIC_API_KEY"));
}

type CmdRunner = Box<dyn Fn(&str, &[&str]) -> (String, bool)>;

fn fake_runner(exit_ok: bool) -> CmdRunner {
    Box::new(move |_cmd, _args| (String::new(), exit_ok))
}

#[test]
fn target_check_passes_when_systemctl_ok() {
    let run = fake_runner(true);
    let r = check_target(&run);
    assert_eq!(r.name, CHECK_TARGET);
    assert!(r.ok);
}

#[test]
fn target_check_fails_when_systemctl_fails() {
    let run = fake_runner(false);
    let r = check_target(&run);
    assert!(!r.ok);
    assert!(!r.detail.is_empty());
}

#[test]
fn audio_check_passes_when_source_and_sink_present() {
    let run: CmdRunner = Box::new(|_cmd, args| {
        if args.contains(&"sources") || args.contains(&"sinks") {
            ("alsa_output.pci.0\n".to_string(), true)
        } else {
            (String::new(), false)
        }
    });
    let r = check_audio(&run);
    assert!(r.ok, "should pass when source+sink present");
}

#[test]
fn audio_check_fails_when_no_source() {
    let run: CmdRunner = Box::new(|_cmd, args| {
        if args.contains(&"sinks") {
            ("alsa_output.pci.0\n".to_string(), true)
        } else {
            (String::new(), true) // exits ok but empty = no source
        }
    });
    let r = check_audio(&run);
    assert!(!r.ok);
    assert!(r.detail.contains("source"));
}

#[test]
fn audio_check_fails_when_no_sink() {
    let run: CmdRunner = Box::new(|_cmd, args| {
        if args.contains(&"sources") {
            ("alsa_input.pci.0\n".to_string(), true)
        } else {
            (String::new(), true) // exits ok but empty = no sink
        }
    });
    let r = check_audio(&run);
    assert!(!r.ok);
    assert!(r.detail.contains("sink"));
}

#[test]
fn audio_check_fails_when_pactl_absent() {
    let run: CmdRunner = Box::new(|_cmd, _args| (String::new(), false));
    let r = check_audio(&run);
    assert!(!r.ok);
    assert!(r.detail.contains("pactl") || r.detail.contains("PulseAudio") || r.detail.contains("PipeWire"));
}

#[test]
fn bus_check_fails_when_socket_missing() {
    let r = check_bus(Some("/srv/bus.sock"), None, &|_p: &str| BusProbe::Missing);
    assert!(!r.ok);
    assert!(r.detail.contains("not found"));
}

#[test]
fn units_check_returns_correct_check_name() {
    let r = check_units(Some("/usr/bin:/bin"), &|_p: &str| false);
    assert_eq!(r.name, CHECK_UNITS);
}

#[test]
fn aggregate_all_pass_returns_ready() {
    let checks = vec![
        CheckResult { name: CHECK_BRAIN.into(), ok: true, detail: String::new() },
        CheckResult { name: CHECK_TARGET.into(), ok: true, detail: String::new() },
        CheckResult { name: CHECK_AUDIO.into(), ok: true, detail: String::new() },
    ];
    let (ready, worst) = aggregate(&checks);
    assert!(ready);
    assert!(worst.is_none());
}

#[test]
fn aggregate_brain_failure_is_worst() {
    let checks = vec![
        CheckResult { name: CHECK_BRAIN.into(), ok: false, detail: "no key".into() },
        CheckResult { name: CHECK_AUDIO.into(), ok: false, detail: "no mic".into() },
    ];
    let (ready, worst) = aggregate(&checks);
    assert!(!ready);
    assert_eq!(worst.as_deref(), Some(CHECK_BRAIN));
}

#[test]
fn aggregate_target_beats_audio() {
    let checks = vec![
        CheckResult { name: CHECK_TARGET.into(), ok: false, detail: "inactive".into() },
        CheckResult { name: CHECK_AUDIO.into(), ok: false, detail: "no mic".into() },
    ];
    let (ready, worst) = aggregate(&checks);
    assert!(!ready);
    assert_eq!(worst.as_deref(), Some(CHECK_TARGET));
}

#[test]
fn verdict_line_ready() {
    assert_eq!(verdict_line(true, &[]), "READY");
}

#[test]
fn verdict_line_not_ready_lists_reasons() {
    let line = verdict_line(false, &["brain", "audio"]);
    assert!(line.starts_with("NOT READY:"));
    assert!(line.contains("brain"));
    assert!(line.contains("audio"));
}

#[test]
fn not_ready_phrases_are_plain_sentences() {
    for check in &[CHECK_BRAIN, CHECK_TARGET, CHECK_AUDIO, CHECK_BUS, CHECK_UNITS] {
        let phrase = not_ready_phrase(check);
        assert!(!phrase.is_empty(), "phrase for {check} is empty");
        assert!(phrase.ends_with('.'), "phrase for {check} doesn't end with period: {phrase}");
        assert!(!phrase.contains("service"), "phrase for {check} contains 'service'");
        assert!(!phrase.contains("systemctl"), "phrase for {check} contains 'systemctl'");
        assert!(!phrase.contains("exit code"), "phrase for {check} contains 'exit code'");
    }
}

#[test]
fn brain_check_detects_live_empty_key_via_env_override() {
    let r = check_brain(Some("/srv/boot.env"), None, &settings("WM_ANTHROPIC_API_KEY=\nWM_USER_NAME=Mary\n"));
    assert!(!r.ok, "empty key must produce NOT READY");
    assert!(r.detail.contains("WM_ANTHROPIC_API_KEY"), "detail must name the key");
}

#[test]
fn brain_check_passes_with_injected_non_empty_key() {
    let r = check_brain(Some("/srv/boot.env"), None, &settings("WM_ANTHROPIC_API_KEY=sk-ant-test123\n"));
    assert!(r.ok, "injected non-empty key must pass");
}

#[test]
fn all_green_verdict_is_ready_and_selects_boot_phrase() {
    let checks = vec![
        CheckResult { name: CHECK_BRAIN.into(), ok: true, detail: String::new() },
        CheckResult { name: CHECK_TARGET.into(), ok: true, detail: String::new() },
        CheckResult { name: CHECK_AUDIO.into(), ok: true, detail: String::new() },
        CheckResult { name: CHECK_BUS.into(), ok: true, detail: String::new() },
        CheckResult { name: CHECK_UNITS.into(), ok: true, detail: String::new() },
    ];
    let (ready, worst) = aggregate(&checks);
    assert!(ready);
    assert!(worst.is_none());
    let line = verdict_line(ready, &[]);
    assert_eq!(line, "READY");
    let phrase = BOOT_PHRASE_READY;
    assert!(!phrase.is_empty());
    assert!(phrase.contains("ready") || phrase.contains("Ready"));
}

#[test]
fn utc_timestamp_format_looks_like_iso8601() {
    let ts = utc_timestamp(1_780_012_345);
    assert_eq!(ts.len(), 20, "timestamp length wrong: {ts}");
    assert!(ts.ends_with('Z'));
    assert!(ts.contains('T'));
}

#[test]
fn bootstrap_env_override_var_name_matches_platform_constant() {
    assert_eq!(BOOTSTRAP_ENV_OVERRIDE_VAR, "WM_BOOTSTRAP_ENV");
}

#[test]
fn brain_check_reports_unreadable_settings() {
    let r = check_brain(None, Some("/srv/boot.env"), &|p: &str| {
        assert_eq!(p, "/srv/boot.env");
        FileRead::Failed("permission denied".to_string())
    });
    assert_eq!(
        (r.ok, r.detail.as_str()),
        (false, "could not read bootstrap env: permission denied")
    );
}

#[test]
fn brain_check_uses_the_default_path() {
    let r = check_brain(None, None, &|p: &str| {
        assert_eq!(p, "/etc/wintermute/conf.d/00-bootstrap.env");
        FileRead::Text("WM_ANTHROPIC_API_KEY = \n".to_string())
    });
    assert_eq!(
        r.detail,
        "WM_ANTHROPIC_API_KEY is empty in /etc/wintermute/conf.d/00-bootstrap.env"
    );
}

#[test]
fn target_check_passes_on_the_systemctl_detail() {
    let r = target_verdict(" inactive\n", false);
    assert_eq!(r.detail, "wintermute.target: inactive");
    assert_eq!(target_verdict("\n", false).detail, "wintermute.target is not active");
    let run: CmdRunner = Box::new(|cmd, args| {
        assert_eq!(cmd, "systemctl");
        assert_eq!(args, ["is-active", "--quiet", "wintermute.target"]);
        (String::new(), true)
    });
    assert!(check_target(&run).ok);
}

#[test]
fn audio_check_names_what_is_missing() {
    assert_eq!(
        audio_verdict("", true, " \n", true).detail,
        "no audio source (microphone); no audio sink (speaker)"
    );
    assert_eq!(audio_verdict("a", false, "b", true).detail, "no audio source (microphone)");
    assert_eq!(audio_verdict("a", true, "b", false).detail, "no audio sink (speaker)");
    assert_eq!(
        audio_verdict("a", false, "b", false).detail,
        "pactl not available or PulseAudio/PipeWire not running"
    );
}

#[test]
fn bus_check_covers_every_probe() {
    let ok = check_bus(None, Some("/run/user/7"), &|p: &str| {
        assert_eq!(p, "/run/user/7/agorabus/bus.sock");
        BusProbe::Connected
    });
    assert!(ok.ok);
    let refused = check_bus(None, None, &|p: &str| {
        assert_eq!(p, "/tmp/agorabus/bus.sock");
        BusProbe::Refused("connection refused".to_string())
    });
    assert_eq!(refused.detail, "agorabus socket not connectable: connection refused");
    let missing = check_bus(Some("/b"), None, &|_p: &str| BusProbe::Missing);
    assert_eq!(missing.detail, "agorabus socket not found: /b");
}

#[test]
fn units_check_lists_missing_binaries() {
    let has = |p: &str| p == "/opt/wm-audio" || p == "/bin/wm-stt" || p == "/bin/wmd";
    let r = check_units(Some("/opt:/bin"), &has);
    assert_eq!((r.ok, r.detail.as_str()), (false, "missing binaries: wm-tts, wm-dialog"));
    assert!(check_units(Some("/opt"), &|_p: &str| true).ok);
    assert_eq!(
        check_units(None, &|_p: &str| true).detail,
        "missing binaries: wm-audio, wm-tts, wm-stt, wm-dialog, wmd"
    );
}

#[test]
fn search_takes_the_first_directory() {
    let has = |p: &str| p == "/b/wm" || p == "/c/wm";
    assert_eq!(which_on_path("wm", Some("/a:/b:/c"), &has), Some("/b/wm".to_string()));
    assert_eq!(which_on_path("wm", Some("/a"), &has), None);
    assert_eq!(
        which_on_path("wm", Some("/a::"), &|p: &str| p == "wm"),
        Some("wm".to_string())
    );
}

#[test]
fn worst_check_falls_back_to_the_first_unknown_one() {
    let checks = vec![
        CheckResult { name: "ok".into(), ok: true, detail: String::new() },
        CheckResult { name: "disk".into(), ok: false, detail: String::new() },
        CheckResult { name: "net".into(), ok: false, detail: String::new() },
    ];
    assert_eq!(aggregate(&checks), (false, Some("disk".to_string())));
    assert_eq!(aggregate(&[]), (true, None));
    assert_eq!(not_ready_phrase("disk"), "Wintermute is not ready.");
    assert_eq!(verdict_line(false, &["disk", "net"]), "NOT READY: disk, net");
}

#[test]
fn timestamps_are_exact() {
    assert_eq!(utc_timestamp(0), "1970-01-01T00:00:00Z");
    assert_eq!(utc_timestamp(951_782_400), "2000-02-29T00:00:00Z");
    assert_eq!(utc_timestamp(1_780_012_799), "2026-05-28T23:59:59Z");
    assert_eq!(utc_timestamp(4_107_542_400), "2100-03-01T00:00:00Z");
}

#[test]
fn dates_follow_the_calendar() {
    assert_eq!(days_to_ymd(0), (1970, 1, 1));
    assert_eq!(days_to_ymd(364), (1970, 12, 31));
    assert_eq!(days_to_ymd(365), (1971, 1, 1));
    assert_eq!(days_to_ymd(789), (1972, 2, 29));
    assert_eq!(days_to_ymd(790), (1972, 3, 1));
}
