//! What holds of what the programs print and of the arguments they take.

use crate::calendar::zero_padded;
use crate::cli::{
    behind_program, child_line, child_lines, closed_lines, command_reply, failing_names,
    init_args_of, label_of, reports, status_line, status_reply, status_table, uptime_of, JsonText,
    ReadyReport, RenderedModel, INIT_USAGE,
};
use crate::kiosk::{
    TOPIC_BOOT_FIRST, TOPIC_BOOT_RECOVERED, kiosk_path_of, unattended, KIOSK_BINARIES,
    NON_INTERACTIVE_IDS, RECOVERY_UNIT_HEAD, RECOVERY_UNIT_MIDDLE, RECOVERY_UNIT_TAIL,
    GREETD_DEFAULT, GREETD_INITIAL, args_from, install_args_of, kiosk_paths, linger_path,
    plan_steps, report_of, report_steps, step_lines, uninstall_steps_of, without_program,
    writes_lines, ArgsModel, StepModel, INSTALL_USAGE,
};
use crate::number::decimal_of;
use crate::protocol::{ChildModel, ChildStatus, ResponseModel, SupervisorModel};
use crate::ready::{checks_of, phrase_for, worst_of, CheckModel};
use crate::text::{pad_left_of, pad_right_of, text_opt};
use vstd::prelude::*;

verus! {

// ---------------------------------------------------------------------------
// Status
// ---------------------------------------------------------------------------

/// A time is shown in its two largest units: seconds alone below a minute,
/// minutes and seconds below an hour, hours and minutes from there on; no time at
/// all is a dash.
pub proof fn law_uptime_shows_its_largest_units(h: nat, m: nat, s: nat)
    requires
        m < 60,
        s < 60,
    ensures
        uptime_of(0) == "-"@,
        s > 0 ==> uptime_of(s) == decimal_of(s) + "s"@,
        m > 0 ==> uptime_of(60 * m + s) == decimal_of(m) + "m"@ + zero_padded(s, 2) + "s"@,
        h > 0 ==> uptime_of(3600 * h + 60 * m + s) == decimal_of(h) + "h"@ + zero_padded(m, 2)
            + "m"@,
{
    let a = 60 * m + s;
    assert(a / 60 == m && a % 60 == s) by (nonlinear_arith)
        requires
            a == 60 * m + s,
            s < 60,
    ;
    let b = 3600 * h + 60 * m + s;
    assert(b / 3600 == h) by (nonlinear_arith)
        requires
            b == 3600 * h + 60 * m + s,
            m < 60,
            s < 60,
    ;
    assert(b / 60 == 60 * h + m) by (nonlinear_arith)
        requires
            b == 3600 * h + 60 * m + s,
            s < 60,
    ;
    assert((60 * h + m) % 60 == m) by (nonlinear_arith)
        requires
            m < 60,
    ;
}

/// Every state has its own word.
pub proof fn law_states_have_their_words()
    ensures
        label_of(ChildStatus::Pending) == "pending"@,
        label_of(ChildStatus::Starting) == "starting"@,
        label_of(ChildStatus::Running) == "running"@,
        label_of(ChildStatus::Exited) == "exited"@,
        label_of(ChildStatus::Backoff) == "backoff"@,
        label_of(ChildStatus::Halted) == "halted"@,
{
}

/// The status has a head and one line for each child, in their order, with the
/// name, the state, the time up, the restarts and the last event of that child.
pub proof fn law_status_has_a_line_for_each_child(
    m: SupervisorModel,
    cs: Seq<ChildModel>,
    c: ChildModel,
)
    ensures
        status_table(m) == status_line(
            "CHILD"@,
            "STATUS"@,
            "UPTIME"@,
            "RESTARTS"@,
            "last_event"@,
        ) + child_lines(m.children),
        child_lines(Seq::empty()).len() == 0,
        child_lines(cs.push(c)) == child_lines(cs) + child_line(c),
        child_line(c) == pad_right_of(c.name, 10) + "  "@ + pad_right_of(label_of(c.status), 8)
            + "  "@ + pad_left_of(uptime_of(c.uptime_secs as nat), 8, ' ') + "  "@ + pad_left_of(
            decimal_of(c.restart_count as nat),
            9,
            ' ',
        ) + "  "@ + (if c.last_event is Some {
            c.last_event->0
        } else {
            "-"@
        }) + "\n"@,
{
    assert(cs.push(c).drop_last() == cs);
}

/// What a status request prints: the table, or the JSON where it was asked for;
/// anything but a status is an error.
pub proof fn law_status_reply(
    view: SupervisorModel,
    json: JsonText,
    message: Seq<char>,
    other: ResponseModel,
)
    requires
        !(other is Status),
        !(other is Error),
    ensures
        status_reply(ResponseModel::Status { view }, JsonText::NotAsked) == RenderedModel::Stdout(
            status_table(view),
        ),
        json matches JsonText::Text(t) ==> status_reply(ResponseModel::Status { view }, json)
            == RenderedModel::Stdout(t@ + "\n"@),
        json matches JsonText::Failed(e) ==> status_reply(ResponseModel::Status { view }, json)
            == RenderedModel::Stderr("wm: serialize status: "@ + e@ + "\n"@),
        status_reply(ResponseModel::Error { message }, json) == RenderedModel::Stderr(
            "wm: server error: "@ + message + "\n"@,
        ),
        status_reply(other, json) == RenderedModel::Stderr(
            "wm: unexpected response for status request\n"@,
        ),
{
}

/// What a command prints: `ok`, the lines it asked for, or an error.
pub proof fn law_command_reply(
    op: Seq<char>,
    message: Seq<char>,
    child: Seq<char>,
    lines: Seq<Seq<char>>,
    line: Seq<char>,
    view: SupervisorModel,
)
    ensures
        command_reply(ResponseModel::Ack) == RenderedModel::Stdout("ok\n"@),
        command_reply(ResponseModel::NotImplemented { op }) == RenderedModel::Stderr(
            "wm: "@ + op + ": server has no handler yet (iter-4)\n"@,
        ),
        command_reply(ResponseModel::Error { message }) == RenderedModel::Stderr(
            "wm: server error: "@ + message + "\n"@,
        ),
        command_reply(ResponseModel::Status { view }) == RenderedModel::Stderr(
            "wm: unexpected status payload for command\n"@,
        ),
        command_reply(ResponseModel::Logs { child, lines }) == RenderedModel::Stdout(
            closed_lines(lines),
        ),
        closed_lines(Seq::empty()).len() == 0,
        closed_lines(lines.push(line)) == closed_lines(lines) + line + "\n"@,
{
    assert(lines.push(line).drop_last() == lines);
}

// ---------------------------------------------------------------------------
// Readiness
// ---------------------------------------------------------------------------

/// The names of the failed checks are listed in the order of the checks.
pub proof fn law_failed_checks_are_listed(checks: Seq<CheckModel>, c: CheckModel)
    ensures
        failing_names(checks.push(c)) == if c.ok {
            failing_names(checks)
        } else {
            failing_names(checks).push(c.name)
        },
        failing_names(Seq::empty()).len() == 0,
{
    assert(checks.push(c).drop_last() == checks);
}

/// A report is ready exactly if every check passed; then it says so in one line,
/// with the phrase for it, and the exit code is zero. Otherwise it names all failed
/// checks and gives the phrase of the gravest, and the exit code is one. Either way
/// the envelope has the topic, the time and every check.
pub proof fn law_report_is_ready_if_every_check_passed(
    cs: Seq<CheckModel>,
    ts: Seq<char>,
    r: ReadyReport,
)
    requires
        reports(cs, ts, r),
    ensures
        ({
            let ready = forall|i: int| 0 <= i < cs.len() ==> (#[trigger] cs[i]).ok;
            &&& r.envelope.ready == ready
            &&& r.exit_code == if ready {
                0
            } else {
                1int
            }
            &&& ready ==> r.text@ == "READY"@ + "\n"@
            &&& ready ==> r.envelope.worst_reason is None
            &&& ready ==> text_opt(r.envelope.ready_phrase) == Some("Wintermute is ready."@)
            &&& !ready ==> r.envelope.ready_phrase is None
            &&& !ready ==> text_opt(r.envelope.worst_reason) == worst_of(cs)
            &&& !ready ==> worst_of(cs) is Some && r.text@ == "NOT READY: "@ + crate::text::join_of(
                failing_names(cs),
                ", "@,
            ) + "\n"@ + phrase_for(worst_of(cs)->0) + "\n"@
            &&& r.envelope.topic@ == "wm.health.ready"@
            &&& r.envelope.ts@ == ts
            &&& checks_of(r.envelope.checks@) == cs
        }),
{
}

// ---------------------------------------------------------------------------
// Arguments
// ---------------------------------------------------------------------------

/// The supervisor takes nothing but `--spawn`, any number of times. The first
/// argument that is something else is refused: with the usage where help was asked
/// for, and by its name where it is not known.
pub proof fn law_init_takes_only_spawn(
    program: Seq<char>,
    spawns: Seq<Seq<char>>,
    other: Seq<char>,
    rest: Seq<Seq<char>>,
    spawn: bool,
)
    requires
        forall|i: int| 0 <= i < spawns.len() ==> #[trigger] spawns[i] == "--spawn"@,
        other != "--spawn"@,
    ensures
        init_args_of(spawns, spawn) == Ok::<bool, Seq<char>>(spawn || spawns.len() > 0),
        other == "-h"@ || other == "--help"@ ==> init_args_of(spawns + (seq![other] + rest), spawn)
            == Err::<bool, Seq<char>>(INIT_USAGE@),
        other != "-h"@ && other != "--help"@ ==> init_args_of(
            spawns + (seq![other] + rest),
            spawn,
        ) == Err::<bool, Seq<char>>("unknown argument: "@ + other),
        behind_program(seq![program] + rest) == rest,
        behind_program(Seq::empty()).len() == 0,
    decreases spawns.len(),
{
    assert((seq![program] + rest).drop_first() == rest);
    let all = spawns + (seq![other] + rest);
    if spawns.len() > 0 {
        let more = spawns.drop_first();
        assert forall|i: int| 0 <= i < more.len() implies #[trigger] more[i] == "--spawn"@ by {
            assert(more[i] == spawns[i + 1]);
        }
        law_init_takes_only_spawn(program, more, other, rest, true);
        assert(spawns[0] == "--spawn"@);
        assert(all[0] == spawns[0]);
        assert(all.drop_first() == more + (seq![other] + rest));
    } else {
        assert(all[0] == other);
    }
}

/// Each argument of the installer does one thing, whatever the others are:
/// `--kiosk`, `--uninstall-kiosk` and `--dry-run` set their flag, `--user` takes
/// the next argument for the user, `-h` and `--help` give the usage, and anything
/// else is refused by its name.
pub proof fn law_installer_arguments(rest: Seq<Seq<char>>, acc: ArgsModel, name: Seq<char>)
    ensures
        args_from(Seq::empty(), acc) == Ok::<ArgsModel, Seq<char>>(acc),
        args_from(seq!["--kiosk"@] + rest, acc) == args_from(
            rest,
            ArgsModel { kiosk: true, ..acc },
        ),
        args_from(seq!["--uninstall-kiosk"@] + rest, acc) == args_from(
            rest,
            ArgsModel { uninstall_kiosk: true, ..acc },
        ),
        args_from(seq!["--dry-run"@] + rest, acc) == args_from(
            rest,
            ArgsModel { dry_run: true, ..acc },
        ),
        args_from(seq!["--user"@, name] + rest, acc) == args_from(
            rest,
            ArgsModel { user: name, ..acc },
        ),
        args_from(seq!["--user"@], acc) == Err::<ArgsModel, Seq<char>>("--user requires a value"@),
        args_from(seq!["-h"@] + rest, acc) == Err::<ArgsModel, Seq<char>>(INSTALL_USAGE@),
        args_from(seq!["--help"@] + rest, acc) == Err::<ArgsModel, Seq<char>>(INSTALL_USAGE@),
        name != "--kiosk"@ && name != "--uninstall-kiosk"@ && name != "--dry-run"@ && name
            != "--user"@ && name != "-h"@ && name != "--help"@ ==> args_from(
            seq![name] + rest,
            acc,
        ) == Err::<ArgsModel, Seq<char>>("unknown argument: "@ + name),
{
    reveal_strlit("--kiosk");
    reveal_strlit("--uninstall-kiosk");
    reveal_strlit("--dry-run");
    reveal_strlit("--user");
    reveal_strlit("-h");
    reveal_strlit("--help");
    assert("--kiosk"@.len() == 7);
    assert("--uninstall-kiosk"@.len() == 17);
    assert("--dry-run"@.len() == 9);
    assert("--user"@.len() == 6 && "--user"@[2] == 'u');
    assert("-h"@.len() == 2);
    assert("--help"@.len() == 6 && "--help"@[2] == 'h');
    assert((seq!["--kiosk"@] + rest).drop_first() == rest);
    assert((seq!["--uninstall-kiosk"@] + rest).drop_first() == rest);
    assert((seq!["--dry-run"@] + rest).drop_first() == rest);
    let u = seq!["--user"@, name] + rest;
    assert(u[0] == "--user"@);
    assert(u.drop_first()[0] == name);
    assert(u.drop_first().drop_first() == rest);
    assert(seq!["--user"@].drop_first().len() == 0);
}

/// The name of the program is passed over where it is there; the arguments behind
/// it are read from no flag set and the usual user; and the two directions are not
/// taken together.
pub proof fn law_installer_reads_behind_the_program(program: Seq<char>, args: Seq<Seq<char>>)
    requires
        program.len() > 0 ==> program[0] != '-',
        args.len() > 0 ==> args[0].len() > 0 && args[0][0] == '-',
    ensures
        without_program(seq![program] + args) == args,
        without_program(args) == args,
        install_args_of(seq![program] + args) == install_args_of(args),
        ({
            let none = ArgsModel {
                kiosk: false,
                uninstall_kiosk: false,
                dry_run: false,
                user: "wintermute"@,
            };
            install_args_of(args) == match args_from(args, none) {
                Ok(a) => if a.kiosk && a.uninstall_kiosk {
                    Err::<ArgsModel, Seq<char>>(
                        "--kiosk and --uninstall-kiosk are mutually exclusive"@,
                    )
                } else {
                    Ok(a)
                },
                Err(e) => Err(e),
            }
        }),
{
    reveal_strlit("-");
    let all = seq![program] + args;
    assert(all[0] == program);
    assert(all.drop_first() == args);
    if "-"@.is_prefix_of(program) {
        assert(program.subrange(0, 1)[0] == program[0]);
    }
    if args.len() > 0 {
        assert(args[0].subrange(0, 1) == "-"@);
    }
}

// ---------------------------------------------------------------------------
// Plans
// ---------------------------------------------------------------------------

/// A plan depends on the user in these places and no others: the login, the
/// lingering and the target are set up for that user.
pub proof fn law_plan_is_for_its_user(user: Seq<char>, other: Seq<char>)
    ensures
        ({
            let p = plan_steps(user);
            let q = plan_steps(other);
            &&& p.len() == 7
            &&& p[0] == q[0] && p[3] == q[3] && p[4] == q[4] && p[5] == q[5]
            &&& p[0].writes == kiosk_paths()
            &&& p[1].id == q[1].id && p[1].writes == q[1].writes
            &&& p[1].description == "write greetd autologin config for user="@ + user
            &&& p[2].id == q[2].id
            &&& p[2].description == "loginctl enable-linger "@ + user
            &&& p[2].writes == seq!["/var/lib/systemd/linger/"@ + user]
            &&& p[6].id == q[6].id
            &&& p[6].description == "enable wintermute.target on user "@ + user
                + " via --machine= or PAM session"@
            &&& p[6].writes == seq![
                "/var/lib/systemd/linger/"@ + user + " (target-default-symlink)"@,
            ]
            &&& forall|i: int| 0 <= i < 7 ==> (#[trigger] p[i]).requires_root
        }),
        ({
            let p = uninstall_steps_of(user);
            let q = uninstall_steps_of(other);
            &&& p.len() == 4
            &&& p[0] == q[0] && p[2] == q[2]
            &&& p[1].id == q[1].id && p[1].writes == q[1].writes
            &&& p[1].description == "restore greetd config to upstream default (was: kiosk for user="@
                + user + ")"@
            &&& p[3].id == q[3].id
            &&& p[3].description == "loginctl disable-linger "@ + user
            &&& p[3].writes == seq!["/var/lib/systemd/linger/"@ + user]
            &&& forall|i: int| 0 <= i < 4 ==> (#[trigger] p[i]).requires_root
        }),
{
    assert(linger_path(user) == "/var/lib/systemd/linger/"@ + user);
}

/// What the steps of a plan are and which files they write.
pub proof fn law_plan_writes_these_files(user: Seq<char>, binary: Seq<char>)
    ensures
        ({
            let p = plan_steps(user);
            &&& p[0].id == "install-binaries"@
            &&& p[0].description
                == "install wm-* binaries to /usr/local/bin/ (kiosk-mode path convention)"@
            &&& p[3].description == "install tmpfiles.d rule for /run/wintermute/"@
            &&& p[4].description == "install (do not enable) wintermute-boot-recovery.service"@
            &&& p[5].description
                == "create installed marker at /var/lib/wintermute/installed (drives first-vs-recovered boot)"@
            &&& p[1].id == "greetd-config"@ && p[1].writes == seq!["/etc/greetd/config.toml"@]
            &&& p[2].id == "enable-linger"@
            &&& p[3].id == "tmpfiles-rule"@ && p[3].writes == seq![
                "/usr/lib/tmpfiles.d/wintermute.conf"@,
            ]
            &&& p[4].id == "recovery-service"@ && p[4].writes == seq![
                "/usr/lib/systemd/system/wintermute-boot-recovery.service"@,
            ]
            &&& p[5].id == "installed-marker"@ && p[5].writes == seq![
                "/var/lib/wintermute/installed"@,
            ]
            &&& p[6].id == "enable-user-target"@
        }),
        ({
            let p = uninstall_steps_of(user);
            &&& p[0].description == "remove wintermute-boot-recovery.service"@
            &&& p[2].description == "remove tmpfiles.d rule for /run/wintermute/"@
            &&& p[0].id == "remove-recovery-service"@ && p[0].writes == plan_steps(user)[4].writes
            &&& p[1].id == "remove-greetd-config"@ && p[1].writes == plan_steps(user)[1].writes
            &&& p[2].id == "remove-tmpfiles-rule"@ && p[2].writes == plan_steps(user)[3].writes
            &&& p[3].id == "disable-linger"@ && p[3].writes == plan_steps(user)[2].writes
        }),
        kiosk_path_of(binary) == "/usr/local/bin/"@ + binary,
        kiosk_paths().len() == 7,
        forall|i: int|
            0 <= i < 7 ==> #[trigger] kiosk_paths()[i] == "/usr/local/bin/"@ + KIOSK_BINARIES[i]@,
{
    reveal_strlit("/usr/local/bin");
    reveal_strlit("/usr/local/bin/");
    reveal_strlit("/");
    assert("/usr/local/bin"@ + "/"@ == "/usr/local/bin/"@);
    lemma_first_description();
    lemma_marker_description();
    assert forall|i: int| 0 <= i < 7 implies #[trigger] kiosk_paths()[i] == "/usr/local/bin/"@
        + KIOSK_BINARIES[i]@ by {
        assert(kiosk_paths()[i] == kiosk_path_of(KIOSK_BINARIES[i]@));
    }
}

proof fn lemma_first_description()
    ensures
        "install wm-* binaries to "@ + "/usr/local/bin"@ + "/ (kiosk-mode path convention)"@
            == "install wm-* binaries to /usr/local/bin/ (kiosk-mode path convention)"@,
{
    reveal_strlit("install wm-* binaries to ");
    reveal_strlit("/usr/local/bin");
    reveal_strlit("/ (kiosk-mode path convention)");
    reveal_strlit("install wm-* binaries to /usr/local/bin/ (kiosk-mode path convention)");
    assert("install wm-* binaries to "@ + "/usr/local/bin"@ + "/ (kiosk-mode path convention)"@
        =~= "install wm-* binaries to /usr/local/bin/ (kiosk-mode path convention)"@);
}

proof fn lemma_marker_description()
    ensures
        "create installed marker at "@ + "/var/lib/wintermute/installed"@
            + " (drives first-vs-recovered boot)"@
            == "create installed marker at /var/lib/wintermute/installed (drives first-vs-recovered boot)"@,
{
    reveal_strlit("create installed marker at ");
    reveal_strlit("/var/lib/wintermute/installed");
    reveal_strlit(" (drives first-vs-recovered boot)");
    reveal_strlit(
        "create installed marker at /var/lib/wintermute/installed (drives first-vs-recovered boot)",
    );
    assert("create installed marker at "@ + "/var/lib/wintermute/installed"@
        + " (drives first-vs-recovered boot)"@
        =~= "create installed marker at /var/lib/wintermute/installed (drives first-vs-recovered boot)"@);
}

/// The first boot and an ordinary one are told apart by their topic.
pub proof fn law_boots_have_their_topics()
    ensures
        TOPIC_BOOT_FIRST@ == "wm.boot.first"@,
        TOPIC_BOOT_RECOVERED@ == "wm.boot.recovered"@,
{
}

/// A step needs nobody at a keyboard exactly if it is one of these.
pub proof fn law_unattended_steps(id: Seq<char>)
    ensures
        unattended(id) <==> {
            ||| id == "install-binaries"@
            ||| id == "greetd-config"@
            ||| id == "enable-linger"@
            ||| id == "tmpfiles-rule"@
            ||| id == "recovery-service"@
            ||| id == "installed-marker"@
            ||| id == "enable-user-target"@
        },
{
    assert(NON_INTERACTIVE_IDS[0]@ == "install-binaries"@);
    assert(NON_INTERACTIVE_IDS[1]@ == "greetd-config"@);
    assert(NON_INTERACTIVE_IDS[2]@ == "enable-linger"@);
    assert(NON_INTERACTIVE_IDS[3]@ == "tmpfiles-rule"@);
    assert(NON_INTERACTIVE_IDS[4]@ == "recovery-service"@);
    assert(NON_INTERACTIVE_IDS[5]@ == "installed-marker"@);
    assert(NON_INTERACTIVE_IDS[6]@ == "enable-user-target"@);
}

/// The recovery service waits half a minute after boot, asks for its user whether
/// the target is active, and starts it for the same user if it is not.
pub proof fn law_recovery_service_starts_the_target()
    ensures
        "\nExecStart=/bin/sh -c 'sleep 30; runuser -u "@.is_suffix_of(RECOVERY_UNIT_HEAD@),
        RECOVERY_UNIT_MIDDLE@
            == " -- systemctl --user is-active --quiet wintermute.target || runuser -u "@,
        " -- systemctl --user start wintermute.target'\n"@.is_prefix_of(RECOVERY_UNIT_TAIL@),
        "\nTimeoutStartSec=120\n\n[Install]\nWantedBy=multi-user.target\n"@.is_suffix_of(
            RECOVERY_UNIT_TAIL@,
        ),
{
    lemma_recovery_head();
    lemma_recovery_tail();
}

proof fn lemma_recovery_head()
    ensures
        "\nExecStart=/bin/sh -c 'sleep 30; runuser -u "@.is_suffix_of(RECOVERY_UNIT_HEAD@),
{
    reveal_strlit("\nExecStart=/bin/sh -c 'sleep 30; runuser -u ");
    reveal_strlit("[Unit]\n\
Description=wintermute boot-recovery (start wintermute.target if it failed at login)\n\
Documentation=https://github.com/j0yen/wintermute-platform\n\
After=multi-user.target\n\
\n\
[Service]\n\
Type=oneshot\n\
# Wait 30s for the autologin chain to settle, then verify\n\
# wintermute.target is active for the kiosk user. If not,\n\
# poke it into life via the user's systemd manager.\n\
ExecStart=/bin/sh -c 'sleep 30; runuser -u ");
    let p = "\nExecStart=/bin/sh -c 'sleep 30; runuser -u "@;
    let t = RECOVERY_UNIT_HEAD@;
    assert(t.subrange(t.len() - p.len(), t.len() as int) == p);
}

proof fn lemma_recovery_tail()
    ensures
        " -- systemctl --user start wintermute.target'\n"@.is_prefix_of(RECOVERY_UNIT_TAIL@),
        "\nTimeoutStartSec=120\n\n[Install]\nWantedBy=multi-user.target\n"@.is_suffix_of(
            RECOVERY_UNIT_TAIL@,
        ),
{
    reveal_strlit(" -- systemctl --user start wintermute.target'\n");
    reveal_strlit("\nTimeoutStartSec=120\n\n[Install]\nWantedBy=multi-user.target\n");
    reveal_strlit(" -- systemctl --user start wintermute.target'\n\
RemainAfterExit=no\n\
# Do not block boot; recovery is opportunistic.\n\
TimeoutStartSec=120\n\
\n\
[Install]\n\
WantedBy=multi-user.target\n");
    let p = " -- systemctl --user start wintermute.target'\n"@;
    let q = "\nTimeoutStartSec=120\n\n[Install]\nWantedBy=multi-user.target\n"@;
    let t = RECOVERY_UNIT_TAIL@;
    assert(t.subrange(0, p.len() as int) == p);
    assert(t.subrange(t.len() - q.len(), t.len() as int) == q);
}

/// The login at boot is that of the user, into the session of the fleet; a login
/// by hand is to the same session.
pub proof fn law_login_is_into_the_session()
    ensures
        "\n[default_session]\ncommand = \"agreety --cmd wintermute-session\"\nuser = \""@.is_suffix_of(
            GREETD_DEFAULT@,
        ),
        GREETD_INITIAL@
            == "\"\n\n[initial_session]\ncommand = \"wintermute-session\"\nuser = \""@,
{
    reveal_strlit(
        "\n[default_session]\ncommand = \"agreety --cmd wintermute-session\"\nuser = \"",
    );
    reveal_strlit(".\n\
# Reverted by install.sh --uninstall-kiosk.\n\
\n\
[terminal]\n\
vt = 1\n\
\n\
[default_session]\n\
command = \"agreety --cmd wintermute-session\"\n\
user = \"");
    let p =
        "\n[default_session]\ncommand = \"agreety --cmd wintermute-session\"\nuser = \""@;
    let t = GREETD_DEFAULT@;
    assert(t.subrange(t.len() - p.len(), t.len() as int) == p);
}

/// The report of a plan has a head and, for each step in its order, its number,
/// what it is, whether it needs root, and a line for each path that it writes.
pub proof fn law_report_shows_every_step(
    user: Seq<char>,
    prefix: Seq<char>,
    steps: Seq<StepModel>,
    i: nat,
    writes: Seq<Seq<char>>,
    path: Seq<char>,
)
    requires
        i < steps.len(),
    ensures
        report_of(user, prefix, steps) == "kiosk-install plan for user="@ + user + " bin_prefix="@
            + prefix + "\n"@ + "steps: "@ + decimal_of(steps.len()) + "\n"@ + report_steps(
            steps,
            steps.len(),
        ),
        report_steps(steps, 0).len() == 0,
        report_steps(steps, i + 1) == report_steps(steps, i) + step_lines(
            i + 1,
            steps.len(),
            steps[i as int],
        ),
        step_lines(i + 1, steps.len(), steps[i as int]) == "  ["@ + decimal_of(i + 1) + "/"@
            + decimal_of(steps.len()) + "] "@ + steps[i as int].id + " (root="@ + (
        if steps[i as int].requires_root {
            "true"@
        } else {
            "false"@
        }) + "): "@ + steps[i as int].description + "\n"@ + writes_lines(steps[i as int].writes),
        writes_lines(Seq::empty()).len() == 0,
        writes_lines(writes.push(path)) == writes_lines(writes) + "         writes: "@ + path
            + "\n"@,
{
    assert(writes.push(path).drop_last() == writes);
}

} // verus!
