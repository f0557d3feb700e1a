//! What the command lines read and print.

use wintermute_platform::cli::{
    boot_step, doctor_exit_code, format_uptime, parse_cli, ready_report, render_command_response,
    render_logs, render_status, render_status_response, run_ready, status_label, utterance,
    BootStep, CliArgs, JsonText, ReadyFormat, Rendered,
};
use wintermute_platform::doctor::DoctorReport;
use wintermute_platform::protocol::{ChildState, ChildStatus, Response, SupervisorView};
use wintermute_platform::ready::{BusProbe, CheckResult, ReadyEnv};
use wintermute_platform::{EnvConfig, FileRead};

#[test]
fn status_labels_cover_every_variant() {
    assert_eq!(status_label(ChildStatus::Pending), "pending");
    assert_eq!(status_label(ChildStatus::Starting), "starting");
    assert_eq!(status_label(ChildStatus::Running), "running");
    assert_eq!(status_label(ChildStatus::Backoff), "backoff");
    assert_eq!(status_label(ChildStatus::Halted), "halted");
    assert_eq!(status_label(ChildStatus::Exited), "exited");
}

#[test]
fn format_uptime_buckets() {
    assert_eq!(format_uptime(0), "-");
    assert_eq!(format_uptime(5), "5s");
    assert_eq!(format_uptime(65), "1m05s");
    assert_eq!(format_uptime(3725), "1h02m");
}

#[test]
fn format_uptime_at_the_borders() {
    assert_eq!(format_uptime(59), "59s");
    assert_eq!(format_uptime(60), "1m00s");
    assert_eq!(format_uptime(3599), "59m59s");
    assert_eq!(format_uptime(3600), "1h00m");
    assert_eq!(format_uptime(360_000), "100h00m");
}

fn view() -> SupervisorView {
    SupervisorView {
        protocol_version: 1,
        children: vec![ChildState {
            name: "wm-audio".into(),
            status: ChildStatus::Pending,
            uptime_secs: 0,
            restart_count: 0,
            last_event: None,
            child_pid: None,
        }],
        muted: false,
    }
}

#[test]
fn render_status_response_handles_status_variant() {
    let plain = JsonText::NotAsked;
    assert_eq!(
        render_status_response(&Response::Status { view: view() }, &plain),
        Rendered::Stdout(
            "CHILD       STATUS      UPTIME   RESTARTS  last_event\n\
             wm-audio    pending          -          0  -\n"
                .to_string()
        )
    );
    let unexpected = Rendered::Stderr("wm: unexpected response for status request\n".to_string());
    assert_eq!(render_status_response(&Response::Ack, &plain), unexpected);
    assert_eq!(
        render_status_response(&Response::Error { message: "x".into() }, &plain),
        Rendered::Stderr("wm: server error: x\n".to_string())
    );
    assert_eq!(
        render_status_response(&Response::NotImplemented { op: "mute".into() }, &plain),
        unexpected
    );
    assert_eq!(
        render_status_response(
            &Response::Logs { child: "wm-audio".into(), lines: vec!["x".into()] },
            &plain
        ),
        unexpected
    );
}

#[test]
fn status_as_json_is_passed_through() {
    let resp = Response::Status { view: view() };
    assert_eq!(
        render_status_response(&resp, &JsonText::Text("{}".into())),
        Rendered::Stdout("{}\n".to_string())
    );
    assert_eq!(
        render_status_response(&resp, &JsonText::Failed("eof".into())),
        Rendered::Stderr("wm: serialize status: eof\n".to_string())
    );
}

#[test]
fn status_rows_line_up() {
    let mut v = view();
    v.children[0].name = "wm-a-very-long-name".into();
    v.children[0].uptime_secs = 65;
    v.children[0].restart_count = 12;
    v.children[0].last_event = Some("running pid=7".into());
    v.children[0].status = ChildStatus::Running;
    let table = render_status(&v);
    assert_eq!(
        table.lines().nth(1),
        Some("wm-a-very-long-name  running      1m05s         12  running pid=7")
    );
}

#[test]
fn render_logs_smoke() {
    assert_eq!(render_logs(&vec![]), "");
    assert_eq!(
        render_logs(&vec!["alpha".into(), "beta".into(), "gamma".into()]),
        "alpha\nbeta\ngamma\n"
    );
}

#[test]
fn command_replies_cover_every_response() {
    assert_eq!(render_command_response(&Response::Ack), Rendered::Stdout("ok\n".into()));
    assert_eq!(
        render_command_response(&Response::NotImplemented { op: "say".into() }),
        Rendered::Stderr("wm: say: server has no handler yet (iter-4)\n".into())
    );
    assert_eq!(
        render_command_response(&Response::Error { message: "m".into() }),
        Rendered::Stderr("wm: server error: m\n".into())
    );
    assert_eq!(
        render_command_response(&Response::Status { view: view() }),
        Rendered::Stderr("wm: unexpected status payload for command\n".into())
    );
    assert_eq!(
        render_command_response(&Response::Logs { child: "c".into(), lines: vec!["l".into()] }),
        Rendered::Stdout("l\n".into())
    );
}

#[test]
fn utterance_joins_words() {
    assert_eq!(utterance(&vec!["hello".into(), "mary".into()]), "hello mary");
    assert_eq!(utterance(&vec![]), "");
}

#[test]
fn ready_format_default_is_text() {
    assert_eq!(ReadyFormat::default(), ReadyFormat::Text);
}

fn check(name: &str, ok: bool) -> CheckResult {
    CheckResult { name: name.into(), ok, detail: String::new() }
}

#[test]
fn ready_report_when_ready() {
    let r = ready_report(vec![check("brain", true)], "2026-05-29T00:00:00Z".into());
    assert_eq!(r.text, "READY\n");
    assert_eq!(r.exit_code, 0);
    assert!(r.envelope.ready);
    assert_eq!(r.envelope.topic, "wm.health.ready");
    assert_eq!(r.envelope.ts, "2026-05-29T00:00:00Z");
    assert_eq!(r.envelope.worst_reason, None);
    assert_eq!(r.envelope.ready_phrase.as_deref(), Some("Wintermute is ready."));
}

#[test]
fn ready_report_when_not_ready() {
    let checks = vec![check("audio", false), check("brain", true), check("bus", false)];
    let r = ready_report(checks.clone(), "t".into());
    assert_eq!(r.text, "NOT READY: audio, bus\nWintermute can't reach its message bus.\n");
    assert_eq!(r.exit_code, 1);
    assert!(!r.envelope.ready);
    assert_eq!(r.envelope.checks, checks);
    assert_eq!(r.envelope.worst_reason.as_deref(), Some("bus"));
    assert_eq!(r.envelope.ready_phrase, None);
}

#[test]
fn doctor_exit_codes() {
    let mut report = DoctorReport { units: vec![], failures: vec![], all_ok: true };
    assert_eq!(doctor_exit_code(&report), 0);
    report.all_ok = false;
    assert_eq!(doctor_exit_code(&report), 2);
}

#[test]
fn parse_cli_default_is_no_spawn() {
    let CliArgs { spawn } = parse_cli(vec!["wmd-init".into()]).expect("parse");
    assert!(!spawn);
}

#[test]
fn parse_cli_spawn_flag_sets_spawn() {
    let CliArgs { spawn } = parse_cli(vec!["wmd-init".into(), "--spawn".into()]).expect("parse");
    assert!(spawn);
}

#[test]
fn parse_cli_unknown_arg_errors() {
    let err = parse_cli(vec!["wmd-init".into(), "--whatever".into()]).unwrap_err();
    assert!(err.contains("unknown argument"));
}

#[test]
fn parse_cli_help_short_and_long_both_error_out() {
    for flag in ["--help", "-h"] {
        let err = parse_cli(vec!["wmd-init".into(), flag.into()]).unwrap_err();
        assert!(err.contains("usage"));
    }
}

#[test]
fn parse_cli_without_any_argument() {
    assert_eq!(parse_cli(vec![]), Ok(CliArgs { spawn: false }));
    assert_eq!(
        parse_cli(vec!["a".into(), "b".into()]),
        Err("unknown argument: b".to_string())
    );
}

#[test]
fn ready_runs_the_checks_in_order() {
    let env = ReadyEnv {
        bootstrap_env: Some("/e".into()),
        runtime_dir: Some("/run/u".into()),
        path: Some("/a:/b".into()),
    };
    let read = |p: &str| {
        assert_eq!(p, "/e");
        FileRead::Text("WM_ANTHROPIC_API_KEY=k\n".into())
    };
    let run = |cmd: &str, args: &[&str]| {
        (String::from("x"), cmd == "systemctl" || args[2] == "sources")
    };
    let connect = |p: &str| {
        assert_eq!(p, "/run/u/agorabus/bus.sock");
        BusProbe::Connected
    };
    let is_file = |p: &str| p.starts_with("/b/");
    let r = run_ready(&env, 1_780_012_800, &read, &run, &connect, &is_file);
    let got: Vec<(&str, bool)> =
        r.envelope.checks.iter().map(|c| (c.name.as_str(), c.ok)).collect();
    assert_eq!(
        got,
        vec![("brain", true), ("target", true), ("audio", false), ("bus", true), ("units", true)]
    );
    assert_eq!(r.envelope.ts, "2026-05-29T00:00:00Z");
    assert_eq!(r.envelope.checks[2].detail, "no audio sink (speaker)");
    assert_eq!(r.envelope.worst_reason.as_deref(), Some("audio"));
    assert_eq!(r.exit_code, 1);
}

#[test]
fn boot_goes_by_the_settings() {
    for spawn in [false, true] {
        assert_eq!(boot_step(Err("denied".into()), spawn), BootStep::Fail("denied".into()));
        assert_eq!(boot_step(Ok(None), spawn), BootStep::Halt);
        let cfg = EnvConfig::parse("A=1");
        assert_eq!(boot_step(Ok(Some(cfg)), spawn), BootStep::Serve { start: spawn });
    }
}
