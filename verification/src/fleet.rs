//! The supervised fleet: its children, their start order and its fixed names.

use crate::text::texts;
use vstd::prelude::*;

verus! {

/// The children of the fleet in the order in which they are started.
pub const CHILD_STARTUP_ORDER: [&'static str; 5] = [
    "wm-audio",
    "wm-tts",
    "wm-stt",
    "wm-dialog",
    "wmd",
];

/// Length of the rolling window in which restarts are counted, in seconds.
pub const RESTART_WINDOW_SECS: u64 = 60;

/// Restarts within the window from which on a child is in a restart storm.
pub const RESTART_STORM_THRESHOLD: u32 = 5;

/// Pause before the next restart of a child in a storm, in seconds.
pub const BACKOFF_SECS: u64 = 30;

/// Minutes of failed restarts before the error is spoken.
pub const ESCALATION_MINS: u64 = 20;

/// Default path of the bootstrap environment file.
pub const BOOTSTRAP_ENV_PATH: &'static str = "/etc/wintermute/conf.d/00-bootstrap.env";

/// Environment variable that names another bootstrap environment file.
pub const BOOTSTRAP_ENV_OVERRIDE_VAR: &'static str = "WM_BOOTSTRAP_ENV";

/// What is logged when there is no bootstrap configuration.
pub const NO_BOOTSTRAP_MESSAGE: &'static str = "no bootstrap config; halting";

/// One supervised child: its name and how it is invoked.
#[derive(Debug, PartialEq, Eq)]
pub struct ChildSpec {
    /// Logical name of the child (`wm-audio`, say).
    pub name: String,
    /// Name of the executable, looked up on the search path.
    pub program: String,
    /// Arguments of the executable.
    pub args: Vec<String>,
}

/// What a [`ChildSpec`] says, as text.
#[verifier::ext_equal]
pub struct ChildSpecModel {
    /// The logical name.
    pub name: Seq<char>,
    /// The executable.
    pub program: Seq<char>,
    /// The arguments.
    pub args: Seq<Seq<char>>,
}

impl View for ChildSpec {
    type V = ChildSpecModel;

    open spec fn view(&self) -> ChildSpecModel {
        ChildSpecModel { name: self.name@, program: self.program@, args: texts(self.args@) }
    }
}

/// The models of a sequence of child specifications.
pub open spec fn specs_of(v: Seq<ChildSpec>) -> Seq<ChildSpecModel> {
    v.map_values(|s: ChildSpec| s@)
}

/// A child whose executable has the child's name and takes no arguments.
pub open spec fn plain_spec(name: Seq<char>) -> ChildSpecModel {
    ChildSpecModel { name, program: name, args: Seq::empty() }
}

/// The fleet: one plain child for each name of the start order.
pub open spec fn canonical_specs() -> Seq<ChildSpecModel> {
    Seq::new(5, |i: int| plain_spec(CHILD_STARTUP_ORDER[i]@))
}

/// A child whose executable has the child's name and takes no arguments.
pub fn plain_child(name: &str) -> (r: ChildSpec)
    ensures
        r@ == plain_spec(name@),
{
    let r = ChildSpec { name: name.to_owned(), program: name.to_owned(), args: Vec::new() };
    assert(texts(r.args@) == Seq::<Seq<char>>::empty());
    r
}

/// The children of the fleet in start order.
pub fn canonical_children() -> (r: Vec<ChildSpec>)
    ensures
        specs_of(r@) == canonical_specs(),
{
    let mut out: Vec<ChildSpec> = Vec::new();
    let mut i: usize = 0;
    while i < 5
        invariant
            i <= 5,
            out.len() == i,
            forall|j: int| 0 <= j < i ==> (#[trigger] out@[j])@ == canonical_specs()[j],
        decreases 5 - i,
    {
        out.push(plain_child(CHILD_STARTUP_ORDER[i]));
        i += 1;
    }
    assert(specs_of(out@) =~= canonical_specs());
    out
}

impl Clone for ChildSpec {
    fn clone(&self) -> (r: Self)
        ensures
            r@ == self@,
    {
        let r = ChildSpec {
            name: self.name.clone(),
            program: self.program.clone(),
            args: clone_texts(&self.args),
        };
        r
    }
}

/// A copy of the strings of `v`.
pub fn clone_texts(v: &Vec<String>) -> (r: Vec<String>)
    ensures
        texts(r@) == texts(v@),
{
    let mut out: Vec<String> = Vec::new();
    let mut i: usize = 0;
    while i < v.len()
        invariant
            i <= v.len(),
            texts(out@) == texts(v@).take(i as int),
        decreases v.len() - i,
    {
        let ghost before = out@;
        out.push(v[i].clone());
        assert(texts(out@) == texts(before).push(v@[i as int]@));
        assert(texts(v@).take(i + 1) == texts(v@).take(i as int).push(v@[i as int]@));
        i += 1;
    }
    assert(texts(v@).take(i as int) == texts(v@));
    out
}

} // verus!
