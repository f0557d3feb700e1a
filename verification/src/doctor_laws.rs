//! What holds of the doctor's runs over several managers.

use crate::doctor::{
    all_rows, answers_for, any_pulls_in, discovers, failing_of, links, listings, manager_reports,
    managers_report, prints, probes_as, query_args, report_of, resolved_of, rows_of_manager,
    scope_flags, scope_label, scope_reports, services_found, stats, unit_files_args, units_args,
    wants_dirs_of, Asker, DoctorScope, FileProbe, HostEnv, UnitAnswers, UnitModel, SERVICE_PATTERNS,
};
use crate::files::join_of;
use crate::order::{ascending, lemma_ascending_unique};
use crate::text::lines_of;
use vstd::prelude::*;

verus! {

/// Whether commands always print the same.
pub open spec fn steady_run<R: Fn(&str, &[&str]) -> (String, bool)>(run: R) -> bool {
    forall|args: Seq<Seq<char>>, a: Seq<char>, b: Seq<char>| #[trigger]
        prints(run, args, a) && #[trigger] prints(run, args, b) ==> a == b
}

/// Whether looking at a path always gives the same.
pub open spec fn steady_stat<F: Fn(&str) -> FileProbe>(stat: F) -> bool {
    forall|path: Seq<char>, a: FileProbe, b: FileProbe| #[trigger]
        stats(stat, path, a) && #[trigger] stats(stat, path, b) ==> a == b
}

/// A steady host lists the same services every time.
proof fn lemma_discovers_once<R: Fn(&str, &[&str]) -> (String, bool)>(
    run: R,
    flag: Seq<char>,
    v: Seq<Seq<char>>,
    w: Seq<Seq<char>>,
)
    requires
        steady_run(run),
        discovers(run, flag, v),
        discovers(run, flag, w),
    ensures
        v == w,
{
    let (f, l) = choose|files: Seq<Seq<char>>, loaded: Seq<Seq<char>>|
        {
            &&& #[trigger] listings(run, flag, files, loaded)
            &&& files.len() == 3
            &&& ascending(v)
            &&& v.to_set() == services_found(files, loaded, 3)
        };
    let (f2, l2) = choose|files: Seq<Seq<char>>, loaded: Seq<Seq<char>>|
        {
            &&& #[trigger] listings(run, flag, files, loaded)
            &&& files.len() == 3
            &&& ascending(w)
            &&& w.to_set() == services_found(files, loaded, 3)
        };
    assert forall|i: int| 0 <= i < 3 implies f[i] == f2[i] && l[i] == l2[i] by {
        assert(prints(run, unit_files_args(flag, SERVICE_PATTERNS[i]@), f[i]));
        assert(prints(run, unit_files_args(flag, SERVICE_PATTERNS[i]@), f2[i]));
        assert(prints(run, units_args(flag, SERVICE_PATTERNS[i]@), l[i]));
        assert(prints(run, units_args(flag, SERVICE_PATTERNS[i]@), l2[i]));
    }
    assert(f == f2);
    assert(l == l2);
    lemma_ascending_unique(v, w);
}

/// A steady host either has the link or has it not.
proof fn lemma_links_once<F: Fn(&str) -> FileProbe>(
    stat: F,
    dirs: Seq<Seq<char>>,
    unit: Seq<char>,
    a: bool,
    b: bool,
)
    requires
        steady_stat(stat),
        links(stat, dirs, unit, a),
        links(stat, dirs, unit, b),
    ensures
        a == b,
{
    if a != b {
        assert(links(stat, dirs, unit, true));
        assert(links(stat, dirs, unit, false));
        let (i, probe) = choose|i: int, probe: FileProbe|
            0 <= i < dirs.len() && #[trigger] stats(stat, join_of(dirs[i], unit), probe) && probe
                != FileProbe::Missing;
        assert(stats(stat, join_of(dirs[i], unit), FileProbe::Missing));
    }
}

/// A steady host gives the same report of a unit every time.
proof fn lemma_probes_once<R: Fn(&str, &[&str]) -> (String, bool), F: Fn(&str) -> FileProbe>(
    run: R,
    stat: F,
    host: HostEnv,
    asker: Asker,
    unit: Seq<char>,
    a: UnitModel,
    b: UnitModel,
)
    requires
        steady_run(run),
        steady_stat(stat),
        probes_as(run, stat, host, asker, unit, a),
        probes_as(run, stat, host, asker, unit, b),
    ensures
        a == b,
        a.unit == unit,
        a.scope == scope_label(asker.flag),
{
    let x = choose|answers: UnitAnswers| #[trigger]
        answers_for(run, stat, host, asker, unit, answers) && a == report_of(asker, unit, answers);
    let y = choose|answers: UnitAnswers| #[trigger]
        answers_for(run, stat, host, asker, unit, answers) && b == report_of(asker, unit, answers);
    assert(x.cat@ == y.cat@);
    assert(x.enabled@ == y.enabled@);
    assert(x.active@ == y.active@);
    if resolved_of(asker, x.cat@).len() > 0 {
        assert(stats(stat, resolved_of(asker, x.cat@), x.binary));
        assert(stats(stat, resolved_of(asker, x.cat@), y.binary));
    }
    if !any_pulls_in(lines_of(asker.target_cat), unit) {
        lemma_links_once(stat, wants_dirs_of(asker.flag, host.home), unit, x.linked, y.linked);
    }
}

/// The names of the units of a sequence of reports.
pub open spec fn unit_names(units: Seq<UnitModel>) -> Seq<Seq<char>> {
    units.map_values(|u: UnitModel| u.unit)
}

/// A steady host gives the same reports of a manager every time; they carry its
/// label and are in ascending order of their units.
proof fn lemma_manager_once<R: Fn(&str, &[&str]) -> (String, bool), F: Fn(&str) -> FileProbe>(
    run: R,
    stat: F,
    host: HostEnv,
    home: Seq<char>,
    user: Seq<char>,
    uid: nat,
    flag: Seq<char>,
    a: Seq<UnitModel>,
    b: Seq<UnitModel>,
)
    requires
        steady_run(run),
        steady_stat(stat),
        manager_reports(run, stat, host, home, user, uid, flag, a),
        manager_reports(run, stat, host, home, user, uid, flag, b),
    ensures
        a == b,
        ascending(unit_names(a)),
        forall|i: int| 0 <= i < a.len() ==> (#[trigger] a[i]).scope == scope_label(flag),
{
    let x = choose|asker: Asker|
        asker.flag == flag && asker.home == home && asker.user == user && asker.uid == uid
            && #[trigger] rows_of_manager(run, stat, host, asker, a);
    let y = choose|asker: Asker|
        asker.flag == flag && asker.home == home && asker.user == user && asker.uid == uid
            && #[trigger] rows_of_manager(run, stat, host, asker, b);
    assert(prints(run, query_args(flag, "cat"@, "wintermute.target"@), x.target_cat));
    assert(prints(run, query_args(flag, "cat"@, "wintermute.target"@), y.target_cat));
    assert(x == y);
    let v = choose|names: Seq<Seq<char>>| #[trigger]
        discovers(run, flag, names) && names.len() == a.len() && forall|i: int|
            0 <= i < a.len() ==> probes_as(run, stat, host, x, names[i], #[trigger] a[i]);
    let w = choose|names: Seq<Seq<char>>| #[trigger]
        discovers(run, flag, names) && names.len() == b.len() && forall|i: int|
            0 <= i < b.len() ==> probes_as(run, stat, host, x, names[i], #[trigger] b[i]);
    lemma_discovers_once(run, flag, v, w);
    assert forall|i: int| 0 <= i < a.len() implies #[trigger] a[i] == b[i] && a[i].unit == v[i]
        && a[i].scope == scope_label(flag) by {
        assert(probes_as(run, stat, host, x, v[i], a[i]));
        assert(probes_as(run, stat, host, x, w[i], b[i]));
        lemma_probes_once(run, stat, host, x, v[i], a[i], b[i]);
    }
    assert(a == b);
    assert(unit_names(a) == v);
}

/// The failures of two runs of reports are those of the one and then those of
/// the other.
proof fn lemma_failing_joined(u: Seq<UnitModel>, s: Seq<UnitModel>)
    ensures
        failing_of(u + s) == failing_of(u) + failing_of(s),
    decreases s.len(),
{
    if s.len() == 0 {
        assert(u + s == u);
        assert(failing_of(u) + failing_of(s) == failing_of(u));
    } else {
        lemma_failing_joined(u, s.drop_last());
        assert((u + s).drop_last() == u + s.drop_last());
        assert((u + s).last() == s.last());
        if !s.last().ok() {
            assert((failing_of(u) + failing_of(s.drop_last())).push(s.last().unit) == failing_of(u)
                + failing_of(s));
        }
    }
}

/// On a steady host the doctor's run over both managers is the one over the
/// user's followed by the one over the system's: units, failures and verdict. A
/// unit that both managers know is reported for each. The reports of a manager
/// carry its label and are in ascending order of their units, each once.
pub proof fn law_both_is_user_then_system<
    R: Fn(&str, &[&str]) -> (String, bool),
    F: Fn(&str) -> FileProbe,
>(
    run: R,
    stat: F,
    host: HostEnv,
    home: Seq<char>,
    user: Seq<char>,
    uid: nat,
    of_user: Seq<UnitModel>,
    of_system: Seq<UnitModel>,
    of_both: Seq<UnitModel>,
)
    requires
        steady_run(run),
        steady_stat(stat),
        scope_reports(run, stat, host, home, user, uid, DoctorScope::User, of_user),
        scope_reports(run, stat, host, home, user, uid, DoctorScope::System, of_system),
        scope_reports(run, stat, host, home, user, uid, DoctorScope::Both, of_both),
    ensures
        of_both == of_user + of_system,
        failing_of(of_both) == failing_of(of_user) + failing_of(of_system),
        failing_of(of_both).len() == 0 <==> failing_of(of_user).len() == 0 && failing_of(
            of_system,
        ).len() == 0,
        forall|i: int| 0 <= i < of_user.len() ==> (#[trigger] of_user[i]).scope == "user"@,
        forall|i: int| 0 <= i < of_system.len() ==> (#[trigger] of_system[i]).scope == "system"@,
        ascending(unit_names(of_user)),
        ascending(unit_names(of_system)),
{
    reveal_with_fuel(all_rows, 3);
    reveal_strlit("--user");
    reveal_strlit("--system");
    assert("--user"@.len() != "--system"@.len());
    let u = choose|parts: Seq<Seq<UnitModel>>|
        {
            &&& #[trigger] managers_report(
                run,
                stat,
                host,
                home,
                user,
                uid,
                scope_flags(DoctorScope::User),
                parts,
            )
            &&& parts.len() == scope_flags(DoctorScope::User).len()
            &&& of_user == all_rows(parts)
        };
    let s = choose|parts: Seq<Seq<UnitModel>>|
        {
            &&& #[trigger] managers_report(
                run,
                stat,
                host,
                home,
                user,
                uid,
                scope_flags(DoctorScope::System),
                parts,
            )
            &&& parts.len() == scope_flags(DoctorScope::System).len()
            &&& of_system == all_rows(parts)
        };
    let b = choose|parts: Seq<Seq<UnitModel>>|
        {
            &&& #[trigger] managers_report(
                run,
                stat,
                host,
                home,
                user,
                uid,
                scope_flags(DoctorScope::Both),
                parts,
            )
            &&& parts.len() == scope_flags(DoctorScope::Both).len()
            &&& of_both == all_rows(parts)
        };
    assert(of_user == u[0]);
    assert(of_system == s[0]);
    assert(b.drop_last().drop_last().len() == 0);
    assert(of_both == b[0] + b[1]);
    assert(manager_reports(run, stat, host, home, user, uid, "--user"@, b[0]));
    assert(manager_reports(run, stat, host, home, user, uid, "--system"@, b[1]));
    lemma_manager_once(run, stat, host, home, user, uid, "--user"@, u[0], b[0]);
    lemma_manager_once(run, stat, host, home, user, uid, "--system"@, s[0], b[1]);
    lemma_failing_joined(of_user, of_system);
}

} // verus!
