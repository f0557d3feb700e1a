//! Kiosk installation: the plan, the files that it writes, and the boot marker.

use crate::number::{decimal, decimal_of};
use crate::text::{same, starts_with, strs, texts};
use vstd::prelude::*;

verus! {

/// Where binaries are installed in kiosk mode.
pub const KIOSK_BIN_PREFIX: &'static str = "/usr/local/bin";

/// Where binaries are installed by developers.
pub const DEV_BIN_PREFIX: &'static str = "~/.local/bin";

/// The binaries of a kiosk installation.
pub const KIOSK_BINARIES: [&'static str; 7] = [
    "wm-tts",
    "wm-stt",
    "wm-audio",
    "wm-dialog",
    "wmd",
    "wmd-init",
    "wm-bootstrap",
];

/// The file whose presence tells an ordinary boot from the first.
pub const INSTALLED_MARKER_PATH: &'static str = "/var/lib/wintermute/installed";

/// The unit file of the recovery service.
pub const RECOVERY_SERVICE_PATH: &'static str =
    "/usr/lib/systemd/system/wintermute-boot-recovery.service";

/// The file of the rule for the runtime directory.
pub const TMPFILES_RULE_PATH: &'static str = "/usr/lib/tmpfiles.d/wintermute.conf";

/// The configuration of greetd.
pub const GREETD_CONFIG_PATH: &'static str = "/etc/greetd/config.toml";

/// The user of a kiosk unless another is chosen.
pub const DEFAULT_KIOSK_USER: &'static str = "wintermute";

/// Topic of the first boot.
pub const TOPIC_BOOT_FIRST: &'static str = "wm.boot.first";

/// Topic of every later boot.
pub const TOPIC_BOOT_RECOVERED: &'static str = "wm.boot.recovered";

// ---------------------------------------------------------------------------
// Steps
// ---------------------------------------------------------------------------

/// One step of an installation.
#[derive(Debug, Clone, PartialEq, Eq)]
pub struct KioskStep {
    /// Stable name.
    pub id: &'static str,
    /// Description in one line.
    pub description: String,
    /// Paths that the step writes, in order.
    pub writes: Vec<String>,
    /// Whether the step changes the system.
    pub requires_root: bool,
}

/// What a [`KioskStep`] says, as text.
#[verifier::ext_equal]
pub struct StepModel {
    /// Stable name.
    pub id: Seq<char>,
    /// Description.
    pub description: Seq<char>,
    /// Paths that the step writes.
    pub writes: Seq<Seq<char>>,
    /// Whether the step changes the system.
    pub requires_root: bool,
}

impl View for KioskStep {
    type V = StepModel;

    open spec fn view(&self) -> StepModel {
        StepModel {
            id: self.id@,
            description: self.description@,
            writes: texts(self.writes@),
            requires_root: self.requires_root,
        }
    }
}

/// The models of a sequence of steps.
pub open spec fn steps_of(v: Seq<KioskStep>) -> Seq<StepModel> {
    v.map_values(|s: KioskStep| s@)
}

/// A step as root.
pub open spec fn root_step(
    id: Seq<char>,
    description: Seq<char>,
    writes: Seq<Seq<char>>,
) -> StepModel {
    StepModel { id, description, writes, requires_root: true }
}

/// A step as root that writes one file.
fn step(id: &'static str, description: String, path: String) -> (r: KioskStep)
    ensures
        r@ == root_step(id@, description@, seq![path@]),
{
    let ghost p = path@;
    let mut writes: Vec<String> = Vec::new();
    writes.push(path);
    assert(texts(writes@) == seq![p]);
    KioskStep { id, description, writes, requires_root: true }
}

/// The path of a binary in kiosk mode.
pub open spec fn kiosk_path_of(binary: Seq<char>) -> Seq<char> {
    KIOSK_BIN_PREFIX@ + "/"@ + binary
}

/// The path of `binary` in kiosk mode.
pub fn kiosk_install_path(binary: &str) -> (r: String)
    ensures
        r@ == kiosk_path_of(binary@),
{
    KIOSK_BIN_PREFIX.to_owned().concat("/").concat(binary)
}

/// The paths of all binaries in kiosk mode.
pub open spec fn kiosk_paths() -> Seq<Seq<char>> {
    Seq::new(7, |i: int| kiosk_path_of(KIOSK_BINARIES[i]@))
}

/// The file that lets the user's services run without a login.
pub open spec fn linger_path(user: Seq<char>) -> Seq<char> {
    "/var/lib/systemd/linger/"@ + user
}

/// The steps of a kiosk installation for `user`.
pub open spec fn plan_steps(user: Seq<char>) -> Seq<StepModel> {
    seq![
        root_step(
            "install-binaries"@,
            "install wm-* binaries to "@ + KIOSK_BIN_PREFIX@
                + "/ (kiosk-mode path convention)"@,
            kiosk_paths(),
        ),
        root_step(
            "greetd-config"@,
            "write greetd autologin config for user="@ + user,
            seq![GREETD_CONFIG_PATH@],
        ),
        root_step(
            "enable-linger"@,
            "loginctl enable-linger "@ + user,
            seq![linger_path(user)],
        ),
        root_step(
            "tmpfiles-rule"@,
            "install tmpfiles.d rule for /run/wintermute/"@,
            seq![TMPFILES_RULE_PATH@],
        ),
        root_step(
            "recovery-service"@,
            "install (do not enable) wintermute-boot-recovery.service"@,
            seq![RECOVERY_SERVICE_PATH@],
        ),
        root_step(
            "installed-marker"@,
            "create installed marker at "@ + INSTALLED_MARKER_PATH@
                + " (drives first-vs-recovered boot)"@,
            seq![INSTALLED_MARKER_PATH@],
        ),
        root_step(
            "enable-user-target"@,
            "enable wintermute.target on user "@ + user + " via --machine= or PAM session"@,
            seq![linger_path(user) + " (target-default-symlink)"@],
        ),
    ]
}

/// What a kiosk installation does.
#[derive(Debug, Clone, PartialEq, Eq)]
pub struct KioskPlan {
    /// The user of the kiosk.
    pub user: String,
    /// Where binaries are installed.
    pub bin_prefix: String,
    /// The steps in order.
    pub steps: Vec<KioskStep>,
}

/// The steps that need nobody at a keyboard.
pub const NON_INTERACTIVE_IDS: [&'static str; 7] = [
    "install-binaries",
    "greetd-config",
    "enable-linger",
    "tmpfiles-rule",
    "recovery-service",
    "installed-marker",
    "enable-user-target",
];

/// Whether a step needs nobody at a keyboard.
pub open spec fn unattended(id: Seq<char>) -> bool {
    exists|k: int| 0 <= k < 7 && #[trigger] NON_INTERACTIVE_IDS[k]@ == id
}

/// Whether no step needs somebody at a keyboard.
pub open spec fn all_unattended(steps: Seq<StepModel>) -> bool {
    forall|i: int| 0 <= i < steps.len() ==> unattended((#[trigger] steps[i]).id)
}

/// A truth value as text.
pub open spec fn bool_text(b: bool) -> Seq<char> {
    if b {
        "true"@
    } else {
        "false"@
    }
}

/// The lines of the paths that a step writes.
pub open spec fn writes_lines(writes: Seq<Seq<char>>) -> Seq<char>
    decreases writes.len(),
{
    if writes.len() == 0 {
        Seq::empty()
    } else {
        writes_lines(writes.drop_last()) + "         writes: "@ + writes.last() + "\n"@
    }
}

/// The lines of the step `i` of `n`.
pub open spec fn step_lines(i: nat, n: nat, s: StepModel) -> Seq<char> {
    "  ["@ + decimal_of(i) + "/"@ + decimal_of(n) + "] "@ + s.id + " (root="@ + bool_text(
        s.requires_root,
    ) + "): "@ + s.description + "\n"@ + writes_lines(s.writes)
}

/// The lines of the first `k` steps.
pub open spec fn report_steps(steps: Seq<StepModel>, k: nat) -> Seq<char>
    decreases k,
{
    if k == 0 {
        Seq::empty()
    } else {
        report_steps(steps, (k - 1) as nat) + step_lines(k, steps.len(), steps[k - 1])
    }
}

/// The report of a plan.
pub open spec fn report_of(user: Seq<char>, prefix: Seq<char>, steps: Seq<StepModel>) -> Seq<char> {
    "kiosk-install plan for user="@ + user + " bin_prefix="@ + prefix + "\n"@ + "steps: "@
        + decimal_of(steps.len()) + "\n"@ + report_steps(steps, steps.len())
}

impl KioskPlan {
    /// The plan of a kiosk installation for `user`.
    pub fn for_user(user: &str) -> (r: Self)
        ensures
            r.user@ == user@,
            r.bin_prefix@ == KIOSK_BIN_PREFIX@,
            steps_of(r.steps@) == plan_steps(user@),
    {
        let mut binaries: Vec<String> = Vec::new();
        let mut i: usize = 0;
        while i < 7
            invariant
                i <= 7,
                binaries.len() == i,
                forall|j: int| 0 <= j < i ==> (#[trigger] binaries@[j])@ == kiosk_paths()[j],
            decreases 7 - i,
        {
            binaries.push(kiosk_install_path(KIOSK_BINARIES[i]));
            i += 1;
        }
        assert(texts(binaries@) =~= kiosk_paths());
        let mut steps: Vec<KioskStep> = Vec::new();
        steps.push(
            KioskStep {
                id: "install-binaries",
                description: "install wm-* binaries to ".to_owned().concat(
                    KIOSK_BIN_PREFIX,
                ).concat("/ (kiosk-mode path convention)"),
                writes: binaries,
                requires_root: true,
            },
        );
        steps.push(
            step(
                "greetd-config",
                "write greetd autologin config for user=".to_owned().concat(user),
                GREETD_CONFIG_PATH.to_owned(),
            ),
        );
        let linger = "/var/lib/systemd/linger/".to_owned().concat(user);
        steps.push(
            step("enable-linger", "loginctl enable-linger ".to_owned().concat(user), linger.clone()),
        );
        steps.push(
            step(
                "tmpfiles-rule",
                "install tmpfiles.d rule for /run/wintermute/".to_owned(),
                TMPFILES_RULE_PATH.to_owned(),
            ),
        );
        steps.push(
            step(
                "recovery-service",
                "install (do not enable) wintermute-boot-recovery.service".to_owned(),
                RECOVERY_SERVICE_PATH.to_owned(),
            ),
        );
        steps.push(
            step(
                "installed-marker",
                "create installed marker at ".to_owned().concat(INSTALLED_MARKER_PATH).concat(
                    " (drives first-vs-recovered boot)",
                ),
                INSTALLED_MARKER_PATH.to_owned(),
            ),
        );
        steps.push(
            step(
                "enable-user-target",
                "enable wintermute.target on user ".to_owned().concat(user).concat(
                    " via --machine= or PAM session",
                ),
                linger.concat(" (target-default-symlink)"),
            ),
        );
        assert(steps_of(steps@) =~= plan_steps(user@));
        KioskPlan { user: user.to_owned(), bin_prefix: KIOSK_BIN_PREFIX.to_owned(), steps }
    }

    /// The plan as a report, one line for each step and each path.
    pub fn dry_run_report(&self) -> (r: String)
        ensures
            r@ == report_of(self.user@, self.bin_prefix@, steps_of(self.steps@)),
    {
        let n: usize = self.steps.len();
        let ghost ss = steps_of(self.steps@);
        let mut out: String = "kiosk-install plan for user=".to_owned().concat(
            self.user.as_str(),
        ).concat(" bin_prefix=").concat(self.bin_prefix.as_str()).concat("\n").concat(
            "steps: ",
        ).concat(decimal(n as u64).as_str()).concat("\n");
        let ghost head = out@;
        let mut i: usize = 0;
        assert(head + report_steps(ss, 0) == head);
        while i < n
            invariant
                i <= n == self.steps.len(),
                ss == steps_of(self.steps@),
                out@ == head + report_steps(ss, i as nat),
            decreases n - i,
        {
            let s: &KioskStep = &self.steps[i];
            assert(ss[i as int] == s@);
            let ghost before = out@;
            let root: &str = if s.requires_root {
                "true"
            } else {
                "false"
            };
            let mut block: String = "  [".to_owned().concat(
                decimal(i as u64 + 1).as_str(),
            ).concat("/").concat(decimal(n as u64).as_str()).concat("] ").concat(s.id).concat(
                " (root=",
            ).concat(root).concat("): ").concat(s.description.as_str()).concat("\n");
            let ghost line = block@;
            let ghost ws = texts(s.writes@);
            let mut k: usize = 0;
            assert(line + writes_lines(ws.take(0)) == line);
            while k < s.writes.len()
                invariant
                    k <= s.writes.len(),
                    ws == texts(s.writes@),
                    block@ == line + writes_lines(ws.take(k as int)),
                decreases s.writes.len() - k,
            {
                assert(ws.take(k + 1).drop_last() == ws.take(k as int));
                assert(ws.take(k + 1).last() == s.writes@[k as int]@);
                block = block.concat("         writes: ").concat(s.writes[k].as_str()).concat(
                    "\n",
                );
                assert(block@ == line + writes_lines(ws.take(k + 1)));
                k += 1;
            }
            assert(ws.take(k as int) == ws);
            assert(block@ == step_lines((i + 1) as nat, n as nat, s@));
            out.append(block.as_str());
            i += 1;
            assert(out@ == head + report_steps(ss, i as nat));
        }
        out
    }

    /// Whether no step needs somebody at a keyboard.
    pub fn is_non_interactive(&self) -> (r: bool)
        ensures
            r == all_unattended(steps_of(self.steps@)),
    {
        let ghost ss = steps_of(self.steps@);
        let mut i: usize = 0;
        while i < self.steps.len()
            invariant
                i <= self.steps.len(),
                ss == steps_of(self.steps@),
                forall|j: int| 0 <= j < i ==> unattended((#[trigger] ss[j]).id),
            decreases self.steps.len() - i,
        {
            assert(ss[i as int] == self.steps@[i as int]@);
            let mut known = false;
            let mut k: usize = 0;
            while k < 7
                invariant
                    k <= 7,
                    i < self.steps.len(),
                    known ==> unattended(self.steps@[i as int].id@),
                    !known ==> forall|j: int|
                        0 <= j < k ==> #[trigger] NON_INTERACTIVE_IDS[j]@
                            != self.steps@[i as int].id@,
                decreases 7 - k,
            {
                if same(NON_INTERACTIVE_IDS[k], self.steps[i].id) {
                    known = true;
                }
                k += 1;
            }
            if !known {
                return false;
            }
            i += 1;
        }
        true
    }
}

// ---------------------------------------------------------------------------
// Files
// ---------------------------------------------------------------------------

/// The recovery service up to the first mention of the user.
pub const RECOVERY_UNIT_HEAD: &'static str = "[Unit]\n\
Description=wintermute boot-recovery (start wintermute.target if it failed at login)\n\
Documentation=https://github.com/j0yen/wintermute-platform\n\
After=multi-user.target\n\
\n\
[Service]\n\
Type=oneshot\n\
# Wait 30s for the autologin chain to settle, then verify\n\
# wintermute.target is active for the kiosk user. If not,\n\
# poke it into life via the user's systemd manager.\n\
ExecStart=/bin/sh -c 'sleep 30; runuser -u ";

/// The recovery service between the two mentions of the user.
pub const RECOVERY_UNIT_MIDDLE: &'static str =
    " -- systemctl --user is-active --quiet wintermute.target || runuser -u ";

/// The recovery service behind the second mention of the user.
pub const RECOVERY_UNIT_TAIL: &'static str = " -- systemctl --user start wintermute.target'\n\
RemainAfterExit=no\n\
# Do not block boot; recovery is opportunistic.\n\
TimeoutStartSec=120\n\
\n\
[Install]\n\
WantedBy=multi-user.target\n";

/// The unit file of the recovery service: half a minute after boot it starts
/// the fleet's target for `user` unless that is active.
pub fn recovery_service_unit(user: &str) -> (r: String)
    ensures
        r@ == RECOVERY_UNIT_HEAD@ + user@ + RECOVERY_UNIT_MIDDLE@ + user@ + RECOVERY_UNIT_TAIL@,
{
    RECOVERY_UNIT_HEAD.to_owned().concat(user).concat(RECOVERY_UNIT_MIDDLE).concat(user).concat(
        RECOVERY_UNIT_TAIL,
    )
}

/// The rule that creates the runtime directory for `user`.
pub fn tmpfiles_rule(user: &str) -> (r: String)
    ensures
        r@ == "d /run/wintermute 0755 "@ + user@ + " "@ + user@ + " - -\n"@,
{
    "d /run/wintermute 0755 ".to_owned().concat(user).concat(" ").concat(user).concat(" - -\n")
}

/// The configuration of greetd up to the first mention of the user.
pub const GREETD_HEAD: &'static str = "# greetd config — wintermute kiosk autologin\n\
# Installed by install.sh --kiosk for user=";

/// The configuration of greetd between the first two mentions of the user.
pub const GREETD_DEFAULT: &'static str = ".\n\
# Reverted by install.sh --uninstall-kiosk.\n\
\n\
[terminal]\n\
vt = 1\n\
\n\
[default_session]\n\
command = \"agreety --cmd wintermute-session\"\n\
user = \"";

/// The configuration of greetd between the last two mentions of the user.
pub const GREETD_INITIAL: &'static str = "\"\n\
\n\
[initial_session]\n\
command = \"wintermute-session\"\n\
user = \"";

/// The configuration of greetd that logs `user` in at boot.
pub fn greetd_config(user: &str) -> (r: String)
    ensures
        r@ == GREETD_HEAD@ + user@ + GREETD_DEFAULT@ + user@ + GREETD_INITIAL@ + user@ + "\"\n"@,
{
    GREETD_HEAD.to_owned().concat(user).concat(GREETD_DEFAULT).concat(user).concat(
        GREETD_INITIAL,
    ).concat(user).concat("\"\n")
}

// ---------------------------------------------------------------------------
// Boot marker
// ---------------------------------------------------------------------------

/// Whether this is the first boot.
#[derive(Debug, Clone, Copy, PartialEq, Eq, Structural)]
pub enum BootMarkerState {
    /// The marker is absent: the first boot after installation.
    First,
    /// The marker is there: an ordinary boot.
    Recovered,
}

impl BootMarkerState {
    /// The state of a boot, given whether the marker is there.
    pub fn from_marker_present(present: bool) -> (r: Self)
        ensures
            r == if present {
                BootMarkerState::Recovered
            } else {
                BootMarkerState::First
            },
    {
        if present {
            BootMarkerState::Recovered
        } else {
            BootMarkerState::First
        }
    }

    /// The topic of this boot.
    pub fn topic(self) -> (r: &'static str)
        ensures
            r@ == match self {
                BootMarkerState::First => TOPIC_BOOT_FIRST@,
                BootMarkerState::Recovered => TOPIC_BOOT_RECOVERED@,
            },
    {
        match self {
            BootMarkerState::First => TOPIC_BOOT_FIRST,
            BootMarkerState::Recovered => TOPIC_BOOT_RECOVERED,
        }
    }

    /// Whether the boot phrase is spoken: on the first boot alone.
    pub fn should_speak(self) -> (r: bool)
        ensures
            r == (self == BootMarkerState::First),
    {
        match self {
            BootMarkerState::First => true,
            BootMarkerState::Recovered => false,
        }
    }
}

// ---------------------------------------------------------------------------
// Arguments
// ---------------------------------------------------------------------------

/// The arguments of the installer.
#[derive(Debug, Clone, PartialEq, Eq)]
pub struct InstallArgs {
    /// Install a kiosk.
    pub kiosk: bool,
    /// Take a kiosk installation back.
    pub uninstall_kiosk: bool,
    /// Write nothing, only say what would be done.
    pub dry_run: bool,
    /// The user of the kiosk.
    pub user: String,
}

/// What [`InstallArgs`] say, as text.
#[verifier::ext_equal]
pub struct ArgsModel {
    /// Install a kiosk.
    pub kiosk: bool,
    /// Take a kiosk installation back.
    pub uninstall_kiosk: bool,
    /// Only say what would be done.
    pub dry_run: bool,
    /// The user of the kiosk.
    pub user: Seq<char>,
}

impl View for InstallArgs {
    type V = ArgsModel;

    open spec fn view(&self) -> ArgsModel {
        ArgsModel {
            kiosk: self.kiosk,
            uninstall_kiosk: self.uninstall_kiosk,
            dry_run: self.dry_run,
            user: self.user@,
        }
    }
}

impl ArgsModel {
    /// No argument given.
    pub open spec fn none() -> ArgsModel {
        ArgsModel {
            kiosk: false,
            uninstall_kiosk: false,
            dry_run: false,
            user: DEFAULT_KIOSK_USER@,
        }
    }
}

impl Default for InstallArgs {
    /// No argument given.
    fn default() -> (r: Self)
        ensures
            r@ == ArgsModel::none(),
    {
        InstallArgs {
            kiosk: false,
            uninstall_kiosk: false,
            dry_run: false,
            user: DEFAULT_KIOSK_USER.to_owned(),
        }
    }
}

/// How the installer is used.
pub const INSTALL_USAGE: &'static str =
    "usage: install.sh [--kiosk|--uninstall-kiosk] [--dry-run] [--user NAME]";

/// The arguments read from `args` onto `acc`, or what is wrong with them.
pub open spec fn args_from(args: Seq<Seq<char>>, acc: ArgsModel) -> Result<ArgsModel, Seq<char>>
    decreases args.len(),
{
    if args.len() == 0 {
        Ok(acc)
    } else {
        let a = args[0];
        let rest = args.drop_first();
        if a == "--kiosk"@ {
            args_from(rest, ArgsModel { kiosk: true, ..acc })
        } else if a == "--uninstall-kiosk"@ {
            args_from(rest, ArgsModel { uninstall_kiosk: true, ..acc })
        } else if a == "--dry-run"@ {
            args_from(rest, ArgsModel { dry_run: true, ..acc })
        } else if a == "--user"@ {
            if rest.len() == 0 {
                Err("--user requires a value"@)
            } else {
                args_from(rest.drop_first(), ArgsModel { user: rest[0], ..acc })
            }
        } else if a == "-h"@ || a == "--help"@ {
            Err(INSTALL_USAGE@)
        } else {
            Err("unknown argument: "@ + a)
        }
    }
}

/// The arguments without the name of the program. Where the first of them
/// starts with a dash, the name was left out already.
pub open spec fn without_program(args: Seq<Seq<char>>) -> Seq<Seq<char>> {
    if args.len() == 0 || "-"@.is_prefix_of(args[0]) {
        args
    } else {
        args.drop_first()
    }
}

/// The arguments of the installer, or what is wrong with them.
pub open spec fn install_args_of(args: Seq<Seq<char>>) -> Result<ArgsModel, Seq<char>> {
    match args_from(without_program(args), ArgsModel::none()) {
        Ok(a) => if a.kiosk && a.uninstall_kiosk {
            Err("--kiosk and --uninstall-kiosk are mutually exclusive"@)
        } else {
            Ok(a)
        },
        Err(e) => Err(e),
    }
}

/// The arguments or the error, as text.
pub open spec fn args_view(r: Result<InstallArgs, String>) -> Result<ArgsModel, Seq<char>> {
    match r {
        Ok(a) => Ok(a@),
        Err(e) => Err(e@),
    }
}

/// Reads the arguments of the installer.
pub fn parse_install_args(args: &[&str]) -> (r: Result<InstallArgs, String>)
    ensures
        args_view(r) == install_args_of(strs(args@)),
{
    let ghost all = strs(args@);
    let ghost rest = without_program(all);
    let n: usize = args.len();
    let mut out = InstallArgs::default();
    let mut i: usize = if n > 0 && !starts_with(args[0], "-") {
        1
    } else {
        0
    };
    assert(rest == all.skip(i as int));
    while i < n
        invariant
            i <= n == args.len(),
            all == strs(args@),
            rest == without_program(all),
            args_from(rest, ArgsModel::none()) == args_from(all.skip(i as int), out@),
        decreases n - i,
    {
        let a: &str = args[i];
        assert(all.skip(i as int)[0] == a@);
        assert(all.skip(i as int).drop_first() == all.skip(i + 1));
        if same(a, "--kiosk") {
            out.kiosk = true;
        } else if same(a, "--uninstall-kiosk") {
            out.uninstall_kiosk = true;
        } else if same(a, "--dry-run") {
            out.dry_run = true;
        } else if same(a, "--user") {
            if i + 1 >= n {
                return Err("--user requires a value".to_owned());
            }
            assert(all.skip(i + 1)[0] == args@[i + 1]@);
            assert(all.skip(i + 1).drop_first() == all.skip(i + 2));
            out.user = args[i + 1].to_owned();
            i += 1;
        } else if same(a, "-h") || same(a, "--help") {
            return Err(INSTALL_USAGE.to_owned());
        } else {
            return Err("unknown argument: ".to_owned().concat(a));
        }
        i += 1;
    }
    if out.kiosk && out.uninstall_kiosk {
        return Err("--kiosk and --uninstall-kiosk are mutually exclusive".to_owned());
    }
    Ok(out)
}

// ---------------------------------------------------------------------------
// Taking an installation back
// ---------------------------------------------------------------------------

/// The steps that take a kiosk installation for `user` back.
pub open spec fn uninstall_steps_of(user: Seq<char>) -> Seq<StepModel> {
    seq![
        root_step(
            "remove-recovery-service"@,
            "remove wintermute-boot-recovery.service"@,
            seq![RECOVERY_SERVICE_PATH@],
        ),
        root_step(
            "remove-greetd-config"@,
            "restore greetd config to upstream default (was: kiosk for user="@ + user + ")"@,
            seq![GREETD_CONFIG_PATH@],
        ),
        root_step(
            "remove-tmpfiles-rule"@,
            "remove tmpfiles.d rule for /run/wintermute/"@,
            seq![TMPFILES_RULE_PATH@],
        ),
        root_step(
            "disable-linger"@,
            "loginctl disable-linger "@ + user,
            seq![linger_path(user)],
        ),
    ]
}

/// The steps that take a kiosk installation for `user` back. The binaries stay.
pub fn uninstall_steps(user: &str) -> (r: Vec<KioskStep>)
    ensures
        steps_of(r@) == uninstall_steps_of(user@),
{
    let mut steps: Vec<KioskStep> = Vec::new();
    steps.push(
        step(
            "remove-recovery-service",
            "remove wintermute-boot-recovery.service".to_owned(),
            RECOVERY_SERVICE_PATH.to_owned(),
        ),
    );
    steps.push(
        step(
            "remove-greetd-config",
            "restore greetd config to upstream default (was: kiosk for user=".to_owned().concat(
                user,
            ).concat(")"),
            GREETD_CONFIG_PATH.to_owned(),
        ),
    );
    steps.push(
        step(
            "remove-tmpfiles-rule",
            "remove tmpfiles.d rule for /run/wintermute/".to_owned(),
            TMPFILES_RULE_PATH.to_owned(),
        ),
    );
    steps.push(
        step(
            "disable-linger",
            "loginctl disable-linger ".to_owned().concat(user),
            "/var/lib/systemd/linger/".to_owned().concat(user),
        ),
    );
    assert(steps_of(steps@) =~= uninstall_steps_of(user@));
    steps
}

// ---------------------------------------------------------------------------
// Laws
// ---------------------------------------------------------------------------

/// A kiosk installation needs nobody at a keyboard, for whatever user.
pub proof fn law_plan_is_unattended(user: Seq<char>)
    ensures
        all_unattended(plan_steps(user)),
{
    let ss = plan_steps(user);
    assert forall|i: int| 0 <= i < ss.len() implies unattended((#[trigger] ss[i]).id) by {
        assert(NON_INTERACTIVE_IDS[i]@ == ss[i].id);
    }
}

/// Whether a step of `steps` writes `path`.
pub open spec fn written(steps: Seq<StepModel>, path: Seq<char>) -> bool {
    exists|i: int| 0 <= i < steps.len() && (#[trigger] steps[i]).writes.contains(path)
}

/// Taking an installation back touches nothing but what the installation
/// wrote, and no binary.
pub proof fn law_uninstall_reverts_only(user: Seq<char>, path: Seq<char>)
    requires
        written(uninstall_steps_of(user), path),
    ensures
        written(plan_steps(user), path),
        !kiosk_paths().contains(path),
{
    let us = uninstall_steps_of(user);
    let ps = plan_steps(user);
    let i = choose|i: int| 0 <= i < us.len() && (#[trigger] us[i]).writes.contains(path);
    assert(us[i].writes.len() == 1);
    assert(us[i].writes[0] == path);
    assert(ps[4].writes[0] == RECOVERY_SERVICE_PATH@);
    assert(ps[1].writes[0] == GREETD_CONFIG_PATH@);
    assert(ps[3].writes[0] == TMPFILES_RULE_PATH@);
    assert(ps[2].writes[0] == linger_path(user));
    if i == 0 {
        assert(ps[4].writes.contains(path));
    } else if i == 1 {
        assert(ps[1].writes.contains(path));
    } else if i == 2 {
        assert(ps[3].writes.contains(path));
    } else {
        assert(ps[2].writes.contains(path));
    }
    reveal_strlit("/usr/local/bin");
    reveal_strlit("/usr/lib/systemd/system/wintermute-boot-recovery.service");
    reveal_strlit("/etc/greetd/config.toml");
    reveal_strlit("/usr/lib/tmpfiles.d/wintermute.conf");
    reveal_strlit("/var/lib/systemd/linger/");
    assert forall|k: int| 0 <= k < kiosk_paths().len() implies kiosk_paths()[k] != path by {
        let b = kiosk_paths()[k];
        assert(b[1] == KIOSK_BIN_PREFIX@[1]);
        assert(b[6] == KIOSK_BIN_PREFIX@[6]);
        if i == 3 {
            assert(path[1] == "/var/lib/systemd/linger/"@[1]);
        }
    }
}

/// What the installer accepts never asks for both directions at once.
pub proof fn law_directions_exclude_each_other(args: Seq<Seq<char>>)
    ensures
        install_args_of(args) matches Ok(a) ==> !(a.kiosk && a.uninstall_kiosk),
{
}

/// Without arguments nothing is installed or taken back.
pub proof fn law_no_arguments_no_action(program: Seq<char>)
    requires
        !"-"@.is_prefix_of(program),
    ensures
        install_args_of(Seq::empty()) == Ok::<ArgsModel, Seq<char>>(ArgsModel::none()),
        install_args_of(seq![program]) == Ok::<ArgsModel, Seq<char>>(ArgsModel::none()),
{
    assert(seq![program].drop_first() == Seq::<Seq<char>>::empty());
}

} // verus!
