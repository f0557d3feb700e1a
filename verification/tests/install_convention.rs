//! The install convention.

use wintermute_platform::install_convention::{
    binary_install_path, check_unit_convention, fleet_install_dir_with, plan_install,
    rewrite_exec_start, rewrite_unit_exec_starts, FLEET_BINARIES, FLEET_INSTALL_DIR,
    FLEET_INSTALL_SUBDIR, PLATFORM_BINARIES,
};

#[test]
fn fleet_install_dir_constant_is_local_bin() {
    assert_eq!(FLEET_INSTALL_DIR, "~/.local/bin");
}

#[test]
fn fleet_install_subdir_constant_is_correct() {
    assert_eq!(FLEET_INSTALL_SUBDIR, ".local/bin");
}

#[test]
fn fleet_install_dir_with_builds_correct_path() {
    let home = "/home/jsy";
    assert_eq!(fleet_install_dir_with(home), "/home/jsy/.local/bin");
}

#[test]
fn binary_install_path_appends_binary_name() {
    let home = "/home/jsy";
    assert_eq!(
        binary_install_path(home, "wmd-init"),
        "/home/jsy/.local/bin/wmd-init"
    );
}

#[test]
fn platform_binaries_includes_wmd_init_and_wm() {
    assert!(PLATFORM_BINARIES.contains(&"wmd-init"));
    assert!(PLATFORM_BINARIES.contains(&"wm"));
}

#[test]
fn fleet_binaries_includes_all_six_companions() {
    for bin in &["wm-audio", "wm-tts", "wm-stt", "wm-dialog", "wmd", "wm-bootstrap"] {
        assert!(
            FLEET_BINARIES.contains(bin),
            "FLEET_BINARIES missing {bin}"
        );
    }
}

#[test]
fn rewrite_exec_start_usr_local_bin() {
    assert_eq!(
        rewrite_exec_start("ExecStart=/usr/local/bin/wmd-init"),
        "ExecStart=%h/.local/bin/wmd-init"
    );
}

#[test]
fn rewrite_exec_start_cargo_bin() {
    assert_eq!(
        rewrite_exec_start("ExecStart=%h/.cargo/bin/wm-audio start"),
        "ExecStart=%h/.local/bin/wm-audio start"
    );
}

#[test]
fn rewrite_exec_start_tilde_cargo_bin() {
    assert_eq!(
        rewrite_exec_start("ExecStart=~/.cargo/bin/wm-audio start"),
        "ExecStart=%h/.local/bin/wm-audio start"
    );
}

#[test]
fn rewrite_exec_start_already_correct_is_idempotent() {
    let line = "ExecStart=%h/.local/bin/wmd-init";
    assert_eq!(rewrite_exec_start(line), line);
}

#[test]
fn rewrite_exec_start_non_exec_start_unchanged() {
    let line = "Description=wmd supervisor";
    assert_eq!(rewrite_exec_start(line), line);
}

#[test]
fn rewrite_exec_start_bin_sh_unchanged() {
    let line = "ExecStart=/bin/sh -c 'if wm ready; then wm say hi; fi'";
    assert_eq!(rewrite_exec_start(line), line);
}

#[test]
fn rewrite_exec_start_home_abs_path() {
    assert_eq!(
        rewrite_exec_start("ExecStart=/home/jsy/.local/bin/wm-tts start"),
        "ExecStart=%h/.local/bin/wm-tts start"
    );
}

#[test]
fn rewrite_exec_start_home_cargo_abs_path() {
    assert_eq!(
        rewrite_exec_start("ExecStart=/home/jsy/.cargo/bin/wm-audio start"),
        "ExecStart=%h/.local/bin/wm-audio start"
    );
}

#[test]
fn rewrite_unit_exec_starts_rewrites_all_exec_start_lines() {
    let input = "[Unit]\n\
                 Description=wmd\n\
                 \n\
                 [Service]\n\
                 ExecStart=/usr/local/bin/wmd-init\n\
                 Restart=always\n";
    let output = rewrite_unit_exec_starts(input);
    assert!(
        output.contains("ExecStart=%h/.local/bin/wmd-init"),
        "expected rewrite in: {output}"
    );
    assert!(output.contains("[Unit]"));
    assert!(output.contains("Restart=always"));
}

#[test]
fn rewrite_unit_exec_starts_idempotent_when_already_correct() {
    let input = "[Service]\nExecStart=%h/.local/bin/wmd-init\nRestart=always\n";
    assert_eq!(rewrite_unit_exec_starts(input), input);
}

#[test]
fn rewrite_unit_exec_starts_preserves_trailing_newline() {
    let input = "ExecStart=/usr/local/bin/wmd-init\n";
    let out = rewrite_unit_exec_starts(input);
    assert!(out.ends_with('\n'), "trailing newline lost");
}

#[test]
fn rewrite_unit_exec_starts_no_trailing_newline_preserved() {
    let input = "ExecStart=/usr/local/bin/wmd-init";
    let out = rewrite_unit_exec_starts(input);
    assert!(!out.ends_with('\n'), "unexpected trailing newline added");
}

#[test]
fn plan_install_marks_missing_dst_as_not_yet_correct() {
    let release_dir = "/nowhere/target/release";
    let install_dir = "/nowhere/.local/bin";
    let ops = plan_install(release_dir, install_dir, &["wmd-init"], &|_p: &str| false);
    assert_eq!(ops.len(), 1);
    let op = ops.first().expect("expected one op");
    assert_eq!(op.src, "/nowhere/target/release/wmd-init");
    assert_eq!(op.dst, "/nowhere/.local/bin/wmd-init");
    assert!(!op.already_correct, "dst should not exist");
}

#[test]
fn plan_install_marks_present_dst_as_already_correct() {
    let release_dir = "/srv/target/release";
    let install_dir = "/srv/.local/bin";
    let present = |p: &str| p == "/srv/.local/bin/wmd-init";

    let ops = plan_install(release_dir, install_dir, &["wmd-init"], &present);
    assert_eq!(ops.len(), 1);
    let op = ops.first().expect("expected one op");
    assert!(op.already_correct, "dst exists, should be marked correct");
}

#[test]
fn plan_install_empty_binaries_returns_empty_ops() {
    let ops = plan_install("/a", "/b", &[], &|_p: &str| false);
    assert!(ops.is_empty());
}

#[test]
fn check_unit_convention_compliant_local_bin() {
    let body = "[Service]\nExecStart=%h/.local/bin/wmd-init\n";
    let r = check_unit_convention("wmd-init.service", body);
    assert!(r.compliant);
    assert!(r.offending_exec_start.is_none());
}

#[test]
fn check_unit_convention_non_compliant_usr_local_bin() {
    let body = "[Service]\nExecStart=/usr/local/bin/wmd-init\n";
    let r = check_unit_convention("wmd-init.service", body);
    assert!(!r.compliant);
    assert_eq!(r.offending_exec_start.as_deref(), Some("/usr/local/bin/wmd-init"));
}

#[test]
fn check_unit_convention_non_compliant_cargo_bin() {
    let body = "[Service]\nExecStart=%h/.cargo/bin/wm-audio start\n";
    let r = check_unit_convention("wm-audio.service", body);
    assert!(!r.compliant);
}

#[test]
fn check_unit_convention_bin_sh_ignored() {
    let body = "[Service]\nExecStart=/bin/sh -c 'if wm ready; then wm say hi; fi'\n";
    let r = check_unit_convention("wintermute-ready.service", body);
    assert!(r.compliant, "bin/sh ExecStart should not be flagged");
}

#[test]
fn check_unit_convention_no_exec_start_compliant() {
    let body = "[Unit]\nDescription=no exec\n";
    let r = check_unit_convention("other.service", body);
    assert!(r.compliant);
}

#[test]
fn ac2_plan_install_idempotent_on_absent_targets() {
    let release_dir = "/nowhere/target/release";
    let install_dir = "/nowhere/.local/bin";

    let ops1 = plan_install(release_dir, install_dir, &PLATFORM_BINARIES, &|_p: &str| false);
    let ops2 = plan_install(release_dir, install_dir, &PLATFORM_BINARIES, &|_p: &str| false);

    assert_eq!(ops1.len(), ops2.len());
    for (o1, o2) in ops1.iter().zip(ops2.iter()) {
        assert_eq!(o1.src, o2.src);
        assert_eq!(o1.dst, o2.dst);
        assert_eq!(
            o1.already_correct, o2.already_correct,
            "idempotency violated for {}",
            o1.dst
        );
    }
}

#[test]
fn ac2_plan_install_idempotent_on_present_targets() {
    let release_dir = "/srv/target/release";
    let install_dir = "/srv/.local/bin";
    let present = |p: &str| p.starts_with("/srv/.local/bin/");

    let ops1 = plan_install(release_dir, install_dir, &PLATFORM_BINARIES, &present);
    let ops2 = plan_install(release_dir, install_dir, &PLATFORM_BINARIES, &present);

    assert_eq!(ops1.len(), 2);
    for (o1, o2) in ops1.iter().zip(ops2.iter()) {
        assert!(o1.already_correct, "{} should be already_correct (1st run)", o1.dst);
        assert!(o2.already_correct, "{} should be already_correct (2nd run)", o2.dst);
    }
}

#[test]
fn fleet_install_dir_constant_matches_subdir() {
    assert!(
        FLEET_INSTALL_DIR.ends_with(FLEET_INSTALL_SUBDIR),
        "FLEET_INSTALL_DIR ({FLEET_INSTALL_DIR:?}) does not end with FLEET_INSTALL_SUBDIR ({FLEET_INSTALL_SUBDIR:?})"
    );
}

#[test]
fn rewrite_unit_exec_starts_round_trip_wmd_init() {
    let original = "[Unit]\n\
                    Description=wintermute supervisor (wmd-init)\n\
                    After=pipewire.service\n\
                    \n\
                    [Service]\n\
                    Type=notify\n\
                    ExecStart=/usr/local/bin/wmd-init\n\
                    Restart=always\n\
                    \n\
                    [Install]\n\
                    WantedBy=wintermute.target\n";

    let pass1 = rewrite_unit_exec_starts(original);
    let pass2 = rewrite_unit_exec_starts(&pass1);

    assert!(
        pass1.contains("ExecStart=%h/.local/bin/wmd-init"),
        "rewrite did not produce expected ExecStart: {pass1}"
    );

    assert_eq!(pass1, pass2, "rewrite is not idempotent");
}

#[test]
fn rewrite_leaves_nested_and_empty_names() {
    for line in [
        "ExecStart=/usr/local/bin/",
        "ExecStart=/usr/local/bin/a/b",
        "ExecStart=/home/jsy/bin/wm",
        "ExecStart=/home/.local/bin/wm",
        " ExecStart=/usr/local/bin/wm",
        "ExecStart=-/usr/local/bin/wm",
    ] {
        assert_eq!(rewrite_exec_start(line), line);
    }
}

#[test]
fn rewrite_drops_a_lone_trailing_space() {
    assert_eq!(
        rewrite_exec_start("ExecStart=/usr/local/bin/wm "),
        "ExecStart=%h/.local/bin/wm"
    );
    assert_eq!(
        rewrite_exec_start("ExecStart=/usr/local/bin/wm  a b"),
        "ExecStart=%h/.local/bin/wm  a b"
    );
}

#[test]
fn rewrite_normalises_line_ends() {
    let out = rewrite_unit_exec_starts("[Service]\r\nExecStart=~/.cargo/bin/wm\r\n");
    assert_eq!(out, "[Service]\nExecStart=%h/.local/bin/wm\n");
    assert_eq!(rewrite_unit_exec_starts(""), "");
    assert_eq!(rewrite_unit_exec_starts("\n\n"), "\n\n");
}

#[test]
fn rewriting_twice_differs_only_for_a_return_before_the_line_end() {
    let once = rewrite_unit_exec_starts("x\r\r\n");
    assert_eq!(once, "x\r\n");
    assert_eq!(rewrite_unit_exec_starts(&once), "x\n");
}

#[test]
fn rewriting_makes_known_places_compliant() {
    let body = "[Service]\nExecStart=/usr/local/bin/wmd-init --spawn\nExecStart=/home/m/.cargo/bin/wm\nExecStart=/bin/true\n";
    assert!(!check_unit_convention("u", body).compliant);
    let r = check_unit_convention("u", &rewrite_unit_exec_starts(body));
    assert!(r.compliant);
    assert_eq!(r.unit_name, "u");
}

#[test]
fn convention_check_names_the_first_offence() {
    let body = "ExecStart=%h/.local/bin/wm\nExecStart=/opt/a x\nExecStart=/opt/b\n";
    let r = check_unit_convention("u", body);
    assert_eq!(r.offending_exec_start.as_deref(), Some("/opt/a x"));
}
