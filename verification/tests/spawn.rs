//! Launching through `pevent`.

use wintermute_platform::spawn::{LaunchOutcome, PeventRunReply, PeventSpawner, StartedChild};
use wintermute_platform::ChildSpec;

fn spec() -> ChildSpec {
    ChildSpec {
        name: "wm-audio".into(),
        program: "wm-audio-bin".into(),
        args: vec!["--verbose".into(), "x".into()],
    }
}

#[test]
fn run_arguments_carry_name_program_and_arguments() {
    let p = PeventSpawner::default();
    assert_eq!(p.binary_name(), "pevent");
    assert_eq!(
        p.run_args(&spec()),
        vec!["run", "--id", "wm-audio", "--", "wm-audio-bin", "--verbose", "x"]
    );
    assert_eq!(PeventSpawner { binary: Some("/opt/pe".into()) }.binary_name(), "/opt/pe");
    assert_eq!(spec().clone(), spec());
}

#[test]
fn launch_outcomes_are_told_apart() {
    let p = PeventSpawner::default();
    let err = |o: LaunchOutcome| p.check_launch(&spec(), o).unwrap_err().message;
    assert_eq!(err(LaunchOutcome::NotRun), "invoke `pevent run --id wm-audio`");
    assert_eq!(
        err(LaunchOutcome::Failed { status: "exit status: 3".into(), stderr: " boom\n".into() }),
        "pevent run failed (status exit status: 3): boom"
    );
    assert_eq!(err(LaunchOutcome::NotText), "pevent stdout was not utf-8");
    assert_eq!(
        p.check_launch(&spec(), LaunchOutcome::Printed("\n{}\n".into())).expect("text"),
        "{}"
    );
}

#[test]
fn a_reply_must_be_about_the_child() {
    let p = PeventSpawner::default();
    let reply = |id: &str| PeventRunReply { id: id.into(), child_pid: 4242, supervisor_pid: 4241 };
    assert_eq!(
        p.accept_reply(&spec(), reply("wm-audio")),
        Ok(StartedChild { id: "wm-audio".into(), child_pid: 4242, supervisor_pid: 4241 })
    );
    assert_eq!(
        p.accept_reply(&spec(), reply("wm-\"x\"")).unwrap_err().message,
        "pevent echoed id \"wm-\\\"x\\\"\", expected \"wm-audio\""
    );
    assert_eq!(p.bad_reply("a\tb").message, "parse pevent reply: \"a\\tb\"");
}

#[test]
fn a_start_runs_the_launcher_and_reads_its_reply() {
    let p = PeventSpawner { binary: Some("pe".into()) };
    let run = |b: &str, a: &Vec<String>| {
        assert_eq!(b, "pe");
        assert_eq!(a[2], "wm-audio");
        LaunchOutcome::Printed(" reply \n".into())
    };
    let reply = |t: &str| {
        assert_eq!(t, "reply");
        Some(PeventRunReply { id: "wm-audio".into(), child_pid: 2, supervisor_pid: 1 })
    };
    assert_eq!(
        p.start_with(&spec(), &run, &reply),
        Ok(StartedChild { id: "wm-audio".into(), child_pid: 2, supervisor_pid: 1 })
    );
    let none = |_t: &str| None;
    assert_eq!(
        p.start_with(&spec(), &run, &none).unwrap_err().message,
        "parse pevent reply: \"reply\""
    );
    let absent = |_b: &str, _a: &Vec<String>| LaunchOutcome::NotRun;
    assert_eq!(
        p.start_with(&spec(), &absent, &reply).unwrap_err().message,
        "invoke `pe run --id wm-audio`"
    );
}
