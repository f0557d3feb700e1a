//! The kiosk plan, its files and the installer's arguments.

use wintermute_platform::kiosk::{
    greetd_config, kiosk_install_path, parse_install_args, recovery_service_unit, tmpfiles_rule,
    uninstall_steps, BootMarkerState, InstallArgs, KioskPlan, KioskStep, DEV_BIN_PREFIX,
    GREETD_CONFIG_PATH, INSTALLED_MARKER_PATH, KIOSK_BINARIES, KIOSK_BIN_PREFIX,
    RECOVERY_SERVICE_PATH, TMPFILES_RULE_PATH,
};

#[test]
fn kiosk_install_path_uses_usr_local_bin() {
    assert_eq!(kiosk_install_path("wm-tts"), "/usr/local/bin/wm-tts");
    assert_eq!(kiosk_install_path("wmd-init"), "/usr/local/bin/wmd-init");
    assert_eq!(
        kiosk_install_path("wm-bootstrap"),
        "/usr/local/bin/wm-bootstrap"
    );
}

#[test]
fn kiosk_plan_has_seven_canonical_steps() {
    let p = KioskPlan::for_user("wintermute");
    assert_eq!(p.steps.len(), 7);
    let ids: Vec<&str> = p.steps.iter().map(|s| s.id).collect();
    assert_eq!(
        ids,
        vec![
            "install-binaries",
            "greetd-config",
            "enable-linger",
            "tmpfiles-rule",
            "recovery-service",
            "installed-marker",
            "enable-user-target",
        ]
    );
}

#[test]
fn kiosk_plan_is_non_interactive() {
    let p = KioskPlan::for_user("wintermute");
    assert!(
        p.is_non_interactive(),
        "kiosk plan must be fully non-interactive"
    );
}

#[test]
fn kiosk_plan_install_binaries_step_lists_all_seven_kiosk_binaries() {
    let p = KioskPlan::for_user("wintermute");
    let install_step = p
        .steps
        .iter()
        .find(|s| s.id == "install-binaries")
        .expect("install-binaries step present");
    assert_eq!(install_step.writes.len(), 7);
    for bin in KIOSK_BINARIES {
        let expected = format!("/usr/local/bin/{bin}");
        assert!(
            install_step.writes.contains(&expected),
            "missing {expected} in install-binaries writes"
        );
    }
}

#[test]
fn kiosk_plan_propagates_user_into_greetd_step() {
    let p = KioskPlan::for_user("mary");
    let greetd_step = p
        .steps
        .iter()
        .find(|s| s.id == "greetd-config")
        .expect("greetd-config step");
    assert!(greetd_step.description.contains("user=mary"));
    assert_eq!(p.user, "mary");
}

#[test]
fn dry_run_report_is_stable_line_oriented() {
    let r = KioskPlan::for_user("wintermute").dry_run_report();
    assert!(r.starts_with("kiosk-install plan for user=wintermute"));
    assert!(r.contains("steps: 7"));
    assert!(r.contains("[1/7] install-binaries"));
    assert!(r.contains("[7/7] enable-user-target"));
    assert!(r.contains("writes: /usr/local/bin/wmd-init"));
}

#[test]
fn recovery_service_unit_targets_correct_user_and_target() {
    let body = recovery_service_unit("wintermute");
    assert!(body.contains("[Unit]"));
    assert!(body.contains("[Service]"));
    assert!(body.contains("[Install]"));
    assert!(body.contains("Type=oneshot"));
    assert!(body.contains("sleep 30"));
    assert!(body.contains("runuser -u wintermute"));
    assert!(body.contains("systemctl --user start wintermute.target"));
    assert!(body.contains("WantedBy=multi-user.target"));
}

#[test]
fn recovery_service_unit_user_is_parameterised() {
    let body = recovery_service_unit("mary");
    assert!(body.contains("runuser -u mary"));
    assert!(!body.contains("runuser -u wintermute"));
}

#[test]
fn tmpfiles_rule_creates_run_wintermute_dir() {
    let r = tmpfiles_rule("wintermute");
    assert!(r.starts_with("d /run/wintermute 0755 wintermute wintermute"));
    assert!(r.ends_with('\n'));
}

#[test]
fn greetd_config_renders_autologin_for_user() {
    let cfg = greetd_config("wintermute");
    assert!(cfg.contains("[initial_session]"));
    assert!(cfg.contains("command = \"wintermute-session\""));
    assert!(cfg.contains("user = \"wintermute\""));
    assert!(cfg.contains("vt = 1"));
}

#[test]
fn boot_marker_first_when_marker_absent() {
    let m = BootMarkerState::from_marker_present(false);
    assert_eq!(m, BootMarkerState::First);
    assert_eq!(m.topic(), "wm.boot.first");
    assert!(m.should_speak());
}

#[test]
fn boot_marker_recovered_when_marker_present() {
    let m = BootMarkerState::from_marker_present(true);
    assert_eq!(m, BootMarkerState::Recovered);
    assert_eq!(m.topic(), "wm.boot.recovered");
    assert!(!m.should_speak());
}

#[test]
fn parse_install_args_default_no_flags() {
    let a = parse_install_args(&["install.sh"]).expect("parse");
    assert_eq!(a, InstallArgs::default());
    assert!(!a.kiosk);
    assert!(!a.uninstall_kiosk);
    assert!(!a.dry_run);
    assert_eq!(a.user, "wintermute");
}

#[test]
fn parse_install_args_kiosk_and_dry_run() {
    let a = parse_install_args(&["install.sh", "--kiosk", "--dry-run"]).expect("parse");
    assert!(a.kiosk);
    assert!(a.dry_run);
    assert!(!a.uninstall_kiosk);
}

#[test]
fn parse_install_args_user_override() {
    let a = parse_install_args(&["install.sh", "--kiosk", "--user", "mary"]).expect("parse");
    assert!(a.kiosk);
    assert_eq!(a.user, "mary");
}

#[test]
fn parse_install_args_kiosk_and_uninstall_kiosk_collide() {
    let err =
        parse_install_args(&["install.sh", "--kiosk", "--uninstall-kiosk"]).unwrap_err();
    assert!(err.contains("mutually exclusive"));
}

#[test]
fn parse_install_args_user_without_value_errors() {
    let err = parse_install_args(&["install.sh", "--user"]).unwrap_err();
    assert!(err.contains("--user requires a value"));
}

#[test]
fn parse_install_args_unknown_flag_errors() {
    let err = parse_install_args(&["install.sh", "--whatever"]).unwrap_err();
    assert!(err.contains("unknown argument"));
}

#[test]
fn uninstall_steps_revert_kiosk_artifacts_but_not_binaries() {
    let steps = uninstall_steps("wintermute");
    let ids: Vec<&str> = steps.iter().map(|s| s.id).collect();
    assert_eq!(
        ids,
        vec![
            "remove-recovery-service",
            "remove-greetd-config",
            "remove-tmpfiles-rule",
            "disable-linger",
        ]
    );
    assert!(
        !steps.iter().any(|s| s.id == "remove-binaries"),
        "uninstall must not remove wm-* binaries"
    );
}

#[test]
fn installed_marker_path_lives_under_var_lib() {
    assert_eq!(INSTALLED_MARKER_PATH, "/var/lib/wintermute/installed");
}

#[test]
fn recovery_service_path_is_system_level() {
    assert!(
        RECOVERY_SERVICE_PATH.starts_with("/usr/lib/systemd/system/"),
        "recovery service must be system-level"
    );
}

#[test]
fn kiosk_bin_prefix_is_usr_local_bin() {
    assert_eq!(KIOSK_BIN_PREFIX, "/usr/local/bin");
}

#[test]
fn dev_bin_prefix_remains_local_home() {
    assert_eq!(DEV_BIN_PREFIX, "~/.local/bin");
}

#[test]
fn dry_run_report_is_exact() {
    let plan = KioskPlan {
        user: "mary".into(),
        bin_prefix: "/b".into(),
        steps: vec![
            KioskStep {
                id: "one",
                description: "first".into(),
                writes: vec!["/a".into(), "/c".into()],
                requires_root: true,
            },
            KioskStep { id: "two", description: "second".into(), writes: vec![], requires_root: false },
        ],
    };
    assert_eq!(
        plan.dry_run_report(),
        "kiosk-install plan for user=mary bin_prefix=/b\nsteps: 2\n  [1/2] one (root=true): first\n         writes: /a\n         writes: /c\n  [2/2] two (root=false): second\n"
    );
    assert!(!plan.is_non_interactive());
}

#[test]
fn plan_describes_every_step() {
    let p = KioskPlan::for_user("mary");
    let descriptions: Vec<&str> = p.steps.iter().map(|s| s.description.as_str()).collect();
    assert_eq!(
        descriptions,
        vec![
            "install wm-* binaries to /usr/local/bin/ (kiosk-mode path convention)",
            "write greetd autologin config for user=mary",
            "loginctl enable-linger mary",
            "install tmpfiles.d rule for /run/wintermute/",
            "install (do not enable) wintermute-boot-recovery.service",
            "create installed marker at /var/lib/wintermute/installed (drives first-vs-recovered boot)",
            "enable wintermute.target on user mary via --machine= or PAM session",
        ]
    );
    assert_eq!(p.steps[2].writes, vec!["/var/lib/systemd/linger/mary"]);
    assert_eq!(
        p.steps[6].writes,
        vec!["/var/lib/systemd/linger/mary (target-default-symlink)"]
    );
    assert!(p.steps.iter().all(|s| s.requires_root));
}

#[test]
fn uninstall_writes_nothing_but_what_the_plan_wrote() {
    let plan = KioskPlan::for_user("mary");
    let planned: Vec<&String> = plan.steps.iter().flat_map(|s| s.writes.iter()).collect();
    let undone = uninstall_steps("mary");
    let paths: Vec<&str> =
        undone.iter().flat_map(|s| s.writes.iter()).map(|w| w.as_str()).collect();
    assert_eq!(
        paths,
        vec![
            RECOVERY_SERVICE_PATH,
            GREETD_CONFIG_PATH,
            TMPFILES_RULE_PATH,
            "/var/lib/systemd/linger/mary"
        ]
    );
    for path in paths {
        assert!(planned.iter().any(|p| p.as_str() == path));
        assert!(!path.starts_with(KIOSK_BIN_PREFIX));
    }
}

#[test]
fn rendered_files_are_exact() {
    assert_eq!(
        recovery_service_unit("u"),
        "[Unit]\nDescription=wintermute boot-recovery (start wintermute.target if it failed at login)\nDocumentation=https://github.com/j0yen/wintermute-platform\nAfter=multi-user.target\n\n[Service]\nType=oneshot\n# Wait 30s for the autologin chain to settle, then verify\n# wintermute.target is active for the kiosk user. If not,\n# poke it into life via the user's systemd manager.\nExecStart=/bin/sh -c 'sleep 30; runuser -u u -- systemctl --user is-active --quiet wintermute.target || runuser -u u -- systemctl --user start wintermute.target'\nRemainAfterExit=no\n# Do not block boot; recovery is opportunistic.\nTimeoutStartSec=120\n\n[Install]\nWantedBy=multi-user.target\n"
    );
    assert_eq!(
        greetd_config("u"),
        "# greetd config — wintermute kiosk autologin\n# Installed by install.sh --kiosk for user=u.\n# Reverted by install.sh --uninstall-kiosk.\n\n[terminal]\nvt = 1\n\n[default_session]\ncommand = \"agreety --cmd wintermute-session\"\nuser = \"u\"\n\n[initial_session]\ncommand = \"wintermute-session\"\nuser = \"u\"\n"
    );
    assert_eq!(tmpfiles_rule("u"), "d /run/wintermute 0755 u u - -\n");
}

#[test]
fn install_arguments_at_the_edges() {
    let none: [&str; 0] = [];
    assert_eq!(parse_install_args(&none), Ok(InstallArgs::default()));
    let a = parse_install_args(&["--dry-run", "--user", "--kiosk"]).expect("parse");
    assert!(a.dry_run && !a.kiosk);
    assert_eq!(a.user, "--kiosk");
    assert_eq!(
        parse_install_args(&["-h"]),
        Err("usage: install.sh [--kiosk|--uninstall-kiosk] [--dry-run] [--user NAME]".to_string())
    );
    assert_eq!(
        parse_install_args(&["x", "y"]),
        Err("unknown argument: y".to_string())
    );
}
