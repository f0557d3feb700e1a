//! The doctor.

use std::sync::{Arc, Mutex};

use wintermute_platform::doctor::{
    check_binary, discover_units, expand_specifiers, parse_exec_start, probe_unit, render_table, run_doctor,
    summarise, unit_in_target_from_cat, DoctorReport, DoctorScope, FileProbe, HostEnv, ProbeCtx, UnitReport,
};

#[test]
fn expand_h_substitutes_home() {
    let result = expand_specifiers("%h/.cargo/bin/wm-audio", Some("/home/jsy"), None, None, &HostEnv::default());
    assert_eq!(result, "/home/jsy/.cargo/bin/wm-audio");
}

#[test]
fn expand_u_substitutes_user() {
    let result = expand_specifiers("/home/%u/bin/wm", None, Some("jsy"), None, &HostEnv::default());
    assert!(result.contains("jsy"));
    assert!(!result.contains("%u"));
}

#[test]
fn expand_uppercase_u_substitutes_uid() {
    let result = expand_specifiers("/run/user/%U/wm.sock", None, None, Some(1000), &HostEnv::default());
    assert_eq!(result, "/run/user/1000/wm.sock");
}

#[test]
fn expand_unknown_specifier_left_as_is() {
    let result = expand_specifiers("%n-unit", Some("/home/jsy"), Some("jsy"), Some(1000), &HostEnv::default());
    assert!(result.contains("%n"), "unknown specifier should be preserved");
}

#[test]
fn expand_no_specifiers_passes_through() {
    let raw = "/usr/local/bin/wmd-init";
    let result = expand_specifiers(raw, Some("/home/jsy"), Some("jsy"), Some(1000), &HostEnv::default());
    assert_eq!(result, raw);
}

#[test]
fn check_binary_absent_returns_false_false() {
    let (exists, exec) = check_binary(FileProbe::Missing);
    assert!(!exists);
    assert!(!exec);
}

#[test]
fn check_binary_exists_and_executable() {
    let (exists, exec) = check_binary(FileProbe::Mode(0o755));
    assert!(exists);
    assert!(exec);
}

#[test]
fn check_binary_exists_but_not_executable() {
    let (exists, exec) = check_binary(FileProbe::Mode(0o644));
    assert!(exists);
    assert!(!exec, "file with no exec bits should return executable=false");
}

fn unit_fixture(exec_start_line: &str) -> String {
    format!(
        "# /usr/lib/systemd/user/wm-audio.service\n[Unit]\nDescription=wm-audio\n\n[Service]\nType=simple\n{exec_start_line}\n"
    )
}

#[test]
fn parse_exec_start_plain_path() {
    let out = unit_fixture("ExecStart=/home/jsy/.cargo/bin/wm-audio");
    assert_eq!(
        parse_exec_start(&out),
        Some("/home/jsy/.cargo/bin/wm-audio".to_string())
    );
}

#[test]
fn parse_exec_start_specifier_path() {
    let out = unit_fixture("ExecStart=%h/.cargo/bin/wm-audio --verbose");
    assert_eq!(
        parse_exec_start(&out),
        Some("%h/.cargo/bin/wm-audio".to_string())
    );
}

#[test]
fn parse_exec_start_with_prefix_flags() {
    let out = unit_fixture("ExecStart=-/usr/local/bin/wmd-init");
    assert_eq!(
        parse_exec_start(&out),
        Some("/usr/local/bin/wmd-init".to_string())
    );
}

#[test]
fn parse_exec_start_missing_returns_none() {
    let out = "[Unit]\nDescription=no exec\n";
    assert_eq!(parse_exec_start(out), None);
}

#[test]
fn unit_in_target_present() {
    let target_cat = "[Unit]\nWants=wm-audio.service wmd.service\n";
    assert!(unit_in_target_from_cat(target_cat, "wm-audio.service"));
    assert!(unit_in_target_from_cat(target_cat, "wmd.service"));
}

#[test]
fn unit_not_in_target() {
    let target_cat = "[Unit]\nWants=wm-audio.service\n";
    assert!(!unit_in_target_from_cat(target_cat, "wmd-init.service"));
}

#[test]
fn unit_in_target_via_requires() {
    let target_cat = "[Unit]\nRequires=wmd-init.service\n";
    assert!(unit_in_target_from_cat(target_cat, "wmd-init.service"));
}

#[test]
fn all_ok_report_exit_maps_to_zero() {
    let report = DoctorReport {
        units: vec![UnitReport {
            unit: "wm-audio.service".to_string(),
            exec_start: "/home/jsy/.cargo/bin/wm-audio".to_string(),
            resolved: "/home/jsy/.cargo/bin/wm-audio".to_string(),
            exists: true,
            executable: true,
            enabled: "enabled".to_string(),
            active: "active".to_string(),
            in_target: true,
            scope: "user".to_string(),
        }],
        failures: vec![],
        all_ok: true,
    };
    assert!(report.all_ok);
    assert!(report.failures.is_empty());
}

#[test]
fn missing_binary_report_exit_maps_to_nonzero() {
    let report = DoctorReport {
        units: vec![UnitReport {
            unit: "wmd-init.service".to_string(),
            exec_start: "/usr/local/bin/wmd-init".to_string(),
            resolved: "/usr/local/bin/wmd-init".to_string(),
            exists: false,
            executable: false,
            enabled: "enabled".to_string(),
            active: "failed".to_string(),
            in_target: true,
            scope: "user".to_string(),
        }],
        failures: vec!["wmd-init.service".to_string()],
        all_ok: false,
    };
    assert!(!report.all_ok);
    assert!(!report.failures.is_empty());
    assert!(report.failures.contains(&"wmd-init.service".to_string()));
    assert_eq!(
        report.units[0].resolved,
        "/usr/local/bin/wmd-init",
        "missing binary resolved path must be named"
    );
}

type Runner = Box<dyn Fn(&str, &[&str]) -> (String, bool) + Send + Sync>;

fn make_fake_runner(bin_str: String) -> Runner {
    Box::new(move |cmd: &str, args: &[&str]| {
        let args_s: Vec<&str> = args.to_vec();
        if cmd == "systemctl" {
            if args_s.contains(&"list-unit-files") {
                if args_s.last() == Some(&"wm-*.service") {
                    return ("wm-audio.service enabled\n".to_string(), true);
                }
                return (String::new(), true);
            }
            if args_s.contains(&"list-units") {
                return (String::new(), true);
            }
            if args_s.contains(&"cat") {
                if args_s.last() == Some(&"wintermute.target") {
                    return ("[Unit]\nWants=wm-audio.service\n".to_string(), true);
                }
                if args_s.last() == Some(&"wm-audio.service") {
                    return (format!("[Service]\nExecStart={bin_str}\n"), true);
                }
            }
            if args_s.contains(&"is-enabled") {
                return ("enabled\n".to_string(), true);
            }
            if args_s.contains(&"is-active") {
                return ("active\n".to_string(), true);
            }
        }
        (String::new(), false)
    })
}

#[test]
fn run_doctor_passing_case_exits_ok() {
    let run = make_fake_runner("/srv/fleet/wm-audio".to_string());
    let stat = |p: &str| {
        if p == "/srv/fleet/wm-audio" {
            FileProbe::Mode(0o755)
        } else {
            FileProbe::Missing
        }
    };
    let report = run_doctor(
        DoctorScope::User,
        &run,
        &stat,
        &HostEnv::default(),
        Some("/srv/fleet"),
        Some("jsy"),
        Some(1000),
    );
    assert!(report.all_ok, "all binaries present → all_ok must be true");
    assert!(report.failures.is_empty());
    assert!(!report.units.is_empty(), "should discover at least one unit");
}

#[test]
fn run_doctor_flags_missing_binary() {
    let missing_str = "/srv/fleet/does-not-exist".to_string();
    let missing_str_clone = missing_str.clone();

    let run: Runner = Box::new(move |cmd: &str, args: &[&str]| {
        let args_s: Vec<&str> = args.to_vec();
        if cmd == "systemctl" {
            if args_s.contains(&"list-unit-files") && args_s.last() == Some(&"wmd-init.service") {
                return ("wmd-init.service enabled\n".to_string(), true);
            }
            if args_s.contains(&"list-unit-files") {
                return (String::new(), true);
            }
            if args_s.contains(&"list-units") {
                return (String::new(), true);
            }
            if args_s.contains(&"cat") && args_s.last() == Some(&"wintermute.target") {
                return ("[Unit]\nWants=wmd-init.service\n".to_string(), true);
            }
            if args_s.contains(&"cat") && args_s.last() == Some(&"wmd-init.service") {
                return (format!("[Service]\nExecStart={missing_str_clone}\n"), true);
            }
            if args_s.contains(&"is-enabled") {
                return ("enabled\n".to_string(), true);
            }
            if args_s.contains(&"is-active") {
                return ("failed\n".to_string(), false);
            }
        }
        (String::new(), false)
    });

    let report = run_doctor(
        DoctorScope::User,
        &run,
        &|_p: &str| FileProbe::Missing,
        &HostEnv::default(),
        Some("/home/jsy"),
        Some("jsy"),
        Some(1000),
    );
    assert!(!report.all_ok, "missing binary → all_ok must be false");
    assert!(
        report.failures.contains(&"wmd-init.service".to_string()),
        "wmd-init.service must appear in failures"
    );
    let wmd_unit = report.units.iter().find(|u| u.unit == "wmd-init.service").unwrap();
    assert_eq!(wmd_unit.resolved, missing_str, "resolved path must be the unresolvable path");
    assert!(!wmd_unit.exists);
}

#[test]
fn render_table_all_ok_contains_summary() {
    let report = DoctorReport {
        units: vec![UnitReport {
            unit: "wm-audio.service".to_string(),
            exec_start: "/bin/wm-audio".to_string(),
            resolved: "/bin/wm-audio".to_string(),
            exists: true,
            executable: true,
            enabled: "enabled".to_string(),
            active: "active".to_string(),
            in_target: true,
            scope: "user".to_string(),
        }],
        failures: vec![],
        all_ok: true,
    };
    let table = render_table(&report, false);
    assert!(table.contains("all 1 units OK"), "summary line missing: {table}");
}

#[test]
fn render_table_failure_names_unit() {
    let report = DoctorReport {
        units: vec![UnitReport {
            unit: "wmd-init.service".to_string(),
            exec_start: "/usr/local/bin/wmd-init".to_string(),
            resolved: "/usr/local/bin/wmd-init".to_string(),
            exists: false,
            executable: false,
            enabled: "enabled".to_string(),
            active: "failed".to_string(),
            in_target: true,
            scope: "user".to_string(),
        }],
        failures: vec!["wmd-init.service".to_string()],
        all_ok: false,
    };
    let table = render_table(&report, false);
    assert!(table.contains("wmd-init.service"), "unit name missing from table: {table}");
    assert!(table.contains("MISSING"), "MISSING label missing: {table}");
}

#[test]
fn render_table_quiet_hides_passing_rows() {
    let report = DoctorReport {
        units: vec![
            UnitReport {
                unit: "wm-audio.service".to_string(),
                exec_start: "/bin/wm-audio".to_string(),
                resolved: "/bin/wm-audio".to_string(),
                exists: true,
                executable: true,
                enabled: "enabled".to_string(),
                active: "active".to_string(),
                in_target: true,
                scope: "user".to_string(),
            },
            UnitReport {
                unit: "wmd-init.service".to_string(),
                exec_start: "/usr/local/bin/wmd-init".to_string(),
                resolved: "/usr/local/bin/wmd-init".to_string(),
                exists: false,
                executable: false,
                enabled: "enabled".to_string(),
                active: "failed".to_string(),
                in_target: true,
                scope: "user".to_string(),
            },
        ],
        failures: vec!["wmd-init.service".to_string()],
        all_ok: false,
    };
    let table = render_table(&report, true);
    assert!(!table.contains("wm-audio.service"), "passing row should be hidden in quiet mode");
    assert!(table.contains("wmd-init.service"), "failing row should appear in quiet mode");
}

#[test]
fn binary_ok_true_when_exists_and_executable() {
    let r = UnitReport {
        unit: "x".to_string(),
        exec_start: "/bin/x".to_string(),
        resolved: "/bin/x".to_string(),
        exists: true,
        executable: true,
        enabled: "enabled".to_string(),
        active: "active".to_string(),
        in_target: false,
        scope: "user".to_string(),
    };
    assert!(r.binary_ok());
}

#[test]
fn binary_ok_false_when_not_executable() {
    let r = UnitReport {
        unit: "x".to_string(),
        exec_start: "/bin/x".to_string(),
        resolved: "/bin/x".to_string(),
        exists: true,
        executable: false,
        enabled: "enabled".to_string(),
        active: "active".to_string(),
        in_target: false,
        scope: "user".to_string(),
    };
    assert!(!r.binary_ok());
}

#[test]
fn binary_ok_false_when_missing() {
    let r = UnitReport {
        unit: "x".to_string(),
        exec_start: "/bin/x".to_string(),
        resolved: "/bin/x".to_string(),
        exists: false,
        executable: false,
        enabled: "enabled".to_string(),
        active: "inactive".to_string(),
        in_target: false,
        scope: "user".to_string(),
    };
    assert!(!r.binary_ok());
}

const MUTATING_VERBS: [&str; 20] = [
    "start",
    "stop",
    "restart",
    "try-restart",
    "reload",
    "reload-or-restart",
    "reset-failed",
    "enable",
    "disable",
    "mask",
    "unmask",
    "kill",
    "daemon-reload",
    "daemon-reexec",
    "set-property",
    "edit",
    "link",
    "revert",
    "preset",
    "isolate",
];

const ALLOWED_VERBS: [&str; 6] = [
    "cat",
    "is-enabled",
    "is-active",
    "list-units",
    "list-unit-files",
    "show",
];

fn recording_runner(log: Arc<Mutex<Vec<(String, Vec<String>)>>>) -> Runner {
    Box::new(move |cmd: &str, args: &[&str]| {
        log.lock()
            .expect("log mutex")
            .push((cmd.to_string(), args.iter().map(|s| (*s).to_string()).collect()));
        (String::new(), true)
    })
}

#[test]
fn ac5_doctor_issues_no_mutating_systemctl_verb() {
    let log: Arc<Mutex<Vec<(String, Vec<String>)>>> = Arc::new(Mutex::new(Vec::new()));
    let run = recording_runner(Arc::clone(&log));

    for scope in [DoctorScope::User, DoctorScope::System, DoctorScope::Both] {
        let _ = run_doctor(
            scope,
            &run,
            &|_p: &str| FileProbe::Missing,
            &HostEnv::default(),
            Some("/home/jsy"),
            Some("jsy"),
            Some(1000),
        );
    }

    let calls = log.lock().expect("log mutex");
    assert!(!calls.is_empty(), "doctor issued no commands at all — runner not wired?");

    for (cmd, args) in calls.iter() {
        assert_eq!(
            cmd, "systemctl",
            "doctor shelled out to a non-systemctl command: {cmd} {args:?}"
        );

        let verb = args
            .iter()
            .find(|a| *a != "--user" && *a != "--system")
            .map(String::as_str)
            .unwrap_or("");

        assert!(
            !MUTATING_VERBS.contains(&verb),
            "doctor issued a MUTATING systemctl verb '{verb}' (full args: {args:?}). \
             `wm doctor` must be strictly read-only."
        );
        assert!(
            ALLOWED_VERBS.contains(&verb),
            "doctor issued an unexpected systemctl verb '{verb}' (full args: {args:?}). \
             Only read-only verbs {ALLOWED_VERBS:?} are permitted."
        );
    }
}

#[test]
fn specifiers_come_from_the_host_unless_overridden() {
    let host = HostEnv {
        home: Some("/home/m".into()),
        user: Some("m".into()),
        uid: Some("no number".into()),
        proc_status: Some("Name:\twm\nUid:\tx\nUid:\t1001\t1001\n".into()),
    };
    assert_eq!(expand_specifiers("%h|%u|%U|%%", None, None, None, &host), "/home/m|m|1001|%%");
    let with_uid = HostEnv { uid: Some("+42".into()), ..host };
    assert_eq!(expand_specifiers("%U", None, None, None, &with_uid), "42");
    let silent = HostEnv::default();
    assert_eq!(expand_specifiers("%h %u %U", None, None, None, &silent), "/root root 0");
    assert_eq!(expand_specifiers("%h", Some("/h%u"), Some("j"), None, &silent), "/hj");
}

#[test]
fn uid_must_fit() {
    let host = |uid: &str| HostEnv { uid: Some(uid.to_string()), ..HostEnv::default() };
    let expand = |uid: &str| expand_specifiers("%U", None, None, None, &host(uid));
    assert_eq!(expand("4294967295"), "4294967295");
    assert_eq!(expand("4294967296"), "0");
    assert_eq!(expand("+"), "0");
    assert_eq!(expand(""), "0");
    assert_eq!(expand("007"), "7");
}

#[test]
fn check_binary_reads_any_execute_bit() {
    assert_eq!(check_binary(FileProbe::Mode(0o001)), (true, true));
    assert_eq!(check_binary(FileProbe::Mode(0o100_010)), (true, true));
    assert_eq!(check_binary(FileProbe::Unreadable), (true, false));
}

#[test]
fn exec_start_skips_values_without_a_word() {
    assert_eq!(
        parse_exec_start("ExecStart=\n  ExecStart=-@!+ \nExecStart=!!/bin/x y\n"),
        Some("/bin/x".to_string())
    );
}

#[test]
fn probe_takes_in_every_answer() {
    let run = |_cmd: &str, args: &[&str]| {
        let out = match args[1] {
            "cat" => "ExecStart=%h/bin/wmd\n",
            "is-enabled" => " static \n",
            "is-active" => "inactive\n",
            _ => "",
        };
        (out.to_string(), false)
    };
    let stat = |p: &str| match p {
        "/home/m/bin/wmd" => FileProbe::Mode(0o644),
        "/usr/lib/systemd/system/wintermute.target.wants/wmd.service" => FileProbe::Unreadable,
        _ => FileProbe::Missing,
    };
    let host = HostEnv::default();
    let ctx = ProbeCtx {
        scope_flag: "--system",
        target_cat: "",
        run: &run,
        stat: &stat,
        host: &host,
        home_override: Some("/home/m"),
        user_override: None,
        uid_override: None,
    };
    assert_eq!(
        probe_unit("wmd.service", &ctx),
        UnitReport {
            unit: "wmd.service".into(),
            exec_start: "%h/bin/wmd".into(),
            resolved: "/home/m/bin/wmd".into(),
            exists: true,
            executable: false,
            enabled: "static".into(),
            active: "inactive".into(),
            in_target: true,
            scope: "system".into(),
        }
    );
}

#[test]
fn user_units_are_also_linked_below_home() {
    let run = |_cmd: &str, _args: &[&str]| (String::new(), true);
    let stat = |p: &str| {
        if p == "/home/m/.config/systemd/user/wintermute.target.wants/wmd.service" {
            FileProbe::Mode(0)
        } else {
            FileProbe::Missing
        }
    };
    let host = HostEnv { home: Some("/home/m".into()), ..HostEnv::default() };
    let ctx = |flag: &'static str| ProbeCtx {
        scope_flag: flag,
        target_cat: "",
        run: &run,
        stat: &stat,
        host: &host,
        home_override: None,
        user_override: None,
        uid_override: None,
    };
    assert!(probe_unit("wmd.service", &ctx("--user")).in_target);
    assert!(!probe_unit("wmd.service", &ctx("--system")).in_target);
}

#[test]
fn discovery_sorts_and_drops_doubles() {
    let run = |_cmd: &str, args: &[&str]| {
        let out = if args.contains(&"list-units") {
            "wmd.service loaded\nwm-audio.service x\nnoise\n"
        } else {
            "wmd-init.service enabled\nwm.target static\nwmd.service enabled\n"
        };
        (out.to_string(), true)
    };
    assert_eq!(
        discover_units(&run, "--user"),
        vec!["wm-audio.service", "wmd-init.service", "wmd.service"]
    );
}

#[test]
fn a_unit_without_a_command_has_no_binary() {
    let run = |_cmd: &str, args: &[&str]| {
        let out = if args.contains(&"list-units") { "wmd.service x\n" } else { "" };
        (out.to_string(), true)
    };
    let report = run_doctor(
        DoctorScope::Both,
        &run,
        &|_p: &str| FileProbe::Mode(0o755),
        &HostEnv::default(),
        None,
        None,
        None,
    );
    assert_eq!(report.units.len(), 2);
    assert_eq!((report.units[0].scope.as_str(), report.units[1].scope.as_str()), ("user", "system"));
    assert_eq!(report.failures, vec!["wmd.service", "wmd.service"]);
    assert!(!report.all_ok);
    assert!(report.units.iter().all(|u| u.resolved.is_empty() && !u.exists));
}

#[test]
fn the_table_is_exact() {
    let unit = |name: &str, exists: bool, executable: bool| UnitReport {
        unit: name.into(),
        exec_start: "/b".into(),
        resolved: "/b".into(),
        exists,
        executable,
        enabled: "enabled".into(),
        active: "active".into(),
        in_target: false,
        scope: "user".into(),
    };
    let report = summarise(vec![
        unit("a.service", true, true),
        unit("b.service", true, false),
        unit("c.service", false, false),
    ]);
    let row_b = "b.service                       YES       NO-EXEC   enabled    active     /b\n";
    let row_c = "c.service                       MISSING   -         enabled    active     /b\n";
    assert_eq!(render_table(&report, true), format!("{row_b}{row_c}"));
    let head = "UNIT                            EXISTS    EXEC      ENABLED    ACTIVE     RESOLVED\n";
    let rule = "-".repeat(100);
    let row_a = "a.service                       YES       YES       enabled    active     /b\n";
    let foot = "\n2 of 3 unit(s) have missing/non-executable binaries: b.service, c.service\n";
    assert_eq!(
        render_table(&report, false),
        format!("{head}{rule}\n{row_a}{row_b}{row_c}{foot}")
    );
    assert_eq!(DoctorScope::default(), DoctorScope::User);
}

#[test]
fn both_managers_are_the_user_then_the_system() {
    let run = |_cmd: &str, args: &[&str]| {
        let out = match (args[0], args[1]) {
            ("--user", "list-units") => "wmd.service x\nwm-tts.service x\n",
            ("--system", "list-units") => "wm-audio.service x\nwmd.service x\n",
            (_, "cat") if args[2] == "wmd.service" => "ExecStart=/bin/wmd\n",
            (_, "cat") => "ExecStart=/bin/none\n",
            _ => "",
        };
        (out.to_string(), true)
    };
    let stat = |p: &str| {
        if p == "/bin/wmd" {
            FileProbe::Mode(0o755)
        } else {
            FileProbe::Missing
        }
    };
    let look = |scope: DoctorScope| {
        run_doctor(scope, &run, &stat, &HostEnv::default(), None, None, None)
    };
    let user = look(DoctorScope::User);
    let system = look(DoctorScope::System);
    let both = look(DoctorScope::Both);
    assert_eq!(both.units, [user.units.clone(), system.units.clone()].concat());
    assert_eq!(both.failures, vec!["wm-tts.service", "wm-audio.service"]);
    assert_eq!(both.failures, [user.failures.clone(), system.failures.clone()].concat());
    assert_eq!(both.all_ok, user.all_ok && system.all_ok);
    let names: Vec<&str> = both.units.iter().map(|u| u.unit.as_str()).collect();
    assert_eq!(names, vec!["wm-tts.service", "wmd.service", "wm-audio.service", "wmd.service"]);
    assert!(user.units.iter().all(|u| u.scope == "user"));
    assert!(system.units.iter().all(|u| u.scope == "system"));
}
