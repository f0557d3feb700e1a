//! The control protocol between `wm` and `wmd-init`: one request per line from
//! the client, one response per line back.

use crate::fleet::{specs_of, ChildSpec, ChildSpecModel};
use crate::text::{text_opt, texts, trim_end_matches, trim_end_of};
use vstd::prelude::*;

verus! {

/// Version of the protocol, stamped on every snapshot.
pub const PROTOCOL_VERSION: u32 = 1;

/// A command from the client to the supervisor.
#[derive(Debug, Clone, PartialEq, Eq)]
pub enum Request {
    /// Return the current snapshot.
    Status,
    /// Stop speaking and suspend wake handling.
    Mute,
    /// Resume from mute.
    Unmute,
    /// Restart all children, or one of them.
    Restart {
        /// Name of the child; none for all.
        child: Option<String>,
    },
    /// Return the end of a child's log.
    Logs {
        /// Name of the child.
        child: String,
        /// Number of lines.
        tail: usize,
    },
    /// Speak a text.
    Say {
        /// The text to speak.
        text: String,
    },
}

/// A reply from the supervisor to the client.
#[derive(Debug, Clone, PartialEq, Eq)]
pub enum Response {
    /// A full snapshot.
    Status {
        /// The snapshot.
        view: SupervisorView,
    },
    /// The command was carried out.
    Ack,
    /// The end of a child's log.
    Logs {
        /// Name of the child.
        child: String,
        /// The lines, oldest first.
        lines: Vec<String>,
    },
    /// The command is known but has no handler.
    NotImplemented {
        /// Name of the command.
        op: String,
    },
    /// The command failed.
    Error {
        /// What went wrong.
        message: String,
    },
}

/// What a [`Response`] says, as text.
#[verifier::ext_equal]
pub enum ResponseModel {
    /// A full snapshot.
    Status {
        /// The snapshot.
        view: SupervisorModel,
    },
    /// The command was carried out.
    Ack,
    /// The end of a child's log.
    Logs {
        /// Name of the child.
        child: Seq<char>,
        /// The lines, oldest first.
        lines: Seq<Seq<char>>,
    },
    /// The command is known but has no handler.
    NotImplemented {
        /// Name of the command.
        op: Seq<char>,
    },
    /// The command failed.
    Error {
        /// What went wrong.
        message: Seq<char>,
    },
}

impl View for Response {
    type V = ResponseModel;

    open spec fn view(&self) -> ResponseModel {
        match self {
            Response::Status { view } => ResponseModel::Status { view: view@ },
            Response::Ack => ResponseModel::Ack,
            Response::Logs { child, lines } => ResponseModel::Logs {
                child: child@,
                lines: texts(lines@),
            },
            Response::NotImplemented { op } => ResponseModel::NotImplemented { op: op@ },
            Response::Error { message } => ResponseModel::Error { message: message@ },
        }
    }
}

/// Phase of a child's life.
#[derive(Debug, Clone, Copy, PartialEq, Eq, Structural)]
pub enum ChildStatus {
    /// Never started by this supervisor.
    Pending,
    /// Being started; not seen running yet.
    Starting,
    /// Seen running.
    Running,
    /// Seen gone; a restart decides what comes next.
    Exited,
    /// Waiting out a restart storm.
    Backoff,
    /// Halted on purpose.
    Halted,
}

/// State of one supervised child.
#[derive(Debug, PartialEq, Eq)]
pub struct ChildState {
    /// Logical name (`wm-audio`, say).
    pub name: String,
    /// Phase of life.
    pub status: ChildStatus,
    /// Seconds since the last start; zero while pending or halted.
    pub uptime_secs: u64,
    /// Restarts since the supervisor started.
    pub restart_count: u32,
    /// The latest event of this child, if any.
    pub last_event: Option<String>,
    /// Process id of the live process, once started.
    pub child_pid: Option<u32>,
}

/// What a [`ChildState`] says, as text.
#[verifier::ext_equal]
pub struct ChildModel {
    /// Logical name.
    pub name: Seq<char>,
    /// Phase of life.
    pub status: ChildStatus,
    /// Seconds since the last start.
    pub uptime_secs: u64,
    /// Restarts since the supervisor started.
    pub restart_count: u32,
    /// The latest event.
    pub last_event: Option<Seq<char>>,
    /// Process id of the live process.
    pub child_pid: Option<u32>,
}

impl View for ChildState {
    type V = ChildModel;

    open spec fn view(&self) -> ChildModel {
        ChildModel {
            name: self.name@,
            status: self.status,
            uptime_secs: self.uptime_secs,
            restart_count: self.restart_count,
            last_event: text_opt(self.last_event),
            child_pid: self.child_pid,
        }
    }
}

/// Snapshot of every supervised child.
#[derive(Debug, PartialEq, Eq)]
pub struct SupervisorView {
    /// Version of the protocol.
    pub protocol_version: u32,
    /// One entry for each child, in start order.
    pub children: Vec<ChildState>,
    /// Whether speech and wake handling are muted.
    pub muted: bool,
}

/// What a [`SupervisorView`] says, as text.
#[verifier::ext_equal]
pub struct SupervisorModel {
    /// Version of the protocol.
    pub protocol_version: u32,
    /// One entry for each child.
    pub children: Seq<ChildModel>,
    /// Whether speech and wake handling are muted.
    pub muted: bool,
}

impl View for SupervisorView {
    type V = SupervisorModel;

    open spec fn view(&self) -> SupervisorModel {
        SupervisorModel {
            protocol_version: self.protocol_version,
            children: children_of(self.children@),
            muted: self.muted,
        }
    }
}

/// The models of a sequence of child states.
pub open spec fn children_of(v: Seq<ChildState>) -> Seq<ChildModel> {
    v.map_values(|c: ChildState| c@)
}

/// A child that was never started.
pub open spec fn pending_child(spec: ChildSpecModel) -> ChildModel {
    ChildModel {
        name: spec.name,
        status: ChildStatus::Pending,
        uptime_secs: 0,
        restart_count: 0,
        last_event: None,
        child_pid: None,
    }
}

/// The snapshot of children none of which was started.
pub open spec fn pending_view(specs: Seq<ChildSpecModel>) -> SupervisorModel {
    SupervisorModel {
        protocol_version: PROTOCOL_VERSION,
        children: specs.map_values(|s: ChildSpecModel| pending_child(s)),
        muted: false,
    }
}

impl ChildState {
    /// A fresh entry for `spec`, never started.
    pub fn pending_from(spec: &ChildSpec) -> (r: Self)
        ensures
            r@ == pending_child(spec@),
    {
        ChildState {
            name: spec.name.clone(),
            status: ChildStatus::Pending,
            uptime_secs: 0,
            restart_count: 0,
            last_event: None,
            child_pid: None,
        }
    }
}

impl SupervisorView {
    /// The first snapshot: every child pending, in the order of `specs`.
    pub fn pending_for(specs: &[ChildSpec]) -> (r: Self)
        ensures
            r@ == pending_view(specs_of(specs@)),
    {
        let mut children: Vec<ChildState> = Vec::new();
        let mut i: usize = 0;
        while i < specs.len()
            invariant
                i <= specs.len(),
                children.len() == i,
                forall|j: int|
                    0 <= j < i ==> (#[trigger] children@[j])@ == pending_child(specs@[j]@),
            decreases specs.len() - i,
        {
            children.push(ChildState::pending_from(&specs[i]));
            i += 1;
        }
        let r = SupervisorView { protocol_version: PROTOCOL_VERSION, children, muted: false };
        assert(r@.children == pending_view(specs_of(specs@)).children);
        r
    }
}

impl Default for SupervisorView {
    /// A snapshot of nothing.
    fn default() -> (r: Self)
        ensures
            r@ == (SupervisorModel { protocol_version: 0, children: Seq::empty(), muted: false }),
    {
        let r = SupervisorView { protocol_version: 0, children: Vec::new(), muted: false };
        assert(r@.children == Seq::<ChildModel>::empty());
        r
    }
}

impl Clone for ChildState {
    fn clone(&self) -> (r: Self)
        ensures
            r@ == self@,
    {
        ChildState {
            name: self.name.clone(),
            status: self.status,
            uptime_secs: self.uptime_secs,
            restart_count: self.restart_count,
            last_event: match &self.last_event {
                Some(e) => Some(e.clone()),
                None => None,
            },
            child_pid: self.child_pid,
        }
    }
}

impl Clone for SupervisorView {
    fn clone(&self) -> (r: Self)
        ensures
            r@ == self@,
    {
        let mut children: Vec<ChildState> = Vec::new();
        let mut i: usize = 0;
        while i < self.children.len()
            invariant
                i <= self.children.len(),
                children.len() == i,
                forall|j: int| 0 <= j < i ==> (#[trigger] children@[j])@ == self.children@[j]@,
            decreases self.children.len() - i,
        {
            children.push(self.children[i].clone());
            i += 1;
        }
        assert(children_of(children@) == children_of(self.children@));
        SupervisorView { protocol_version: self.protocol_version, children, muted: self.muted }
    }
}

// ---------------------------------------------------------------------------
// Framing
// ---------------------------------------------------------------------------

/// The characters that end a line on the wire.
pub open spec fn line_ends() -> Seq<char> {
    seq!['\n', '\r']
}

/// A message as one line on the wire.
pub fn frame(json: &str) -> (r: String)
    ensures
        r@ == json@ + "\n"@,
{
    json.to_owned().concat("\n")
}

/// The message of a line from the wire.
pub fn unframe(line: &str) -> (r: String)
    ensures
        r@ == trim_end_of(line@, line_ends()),
{
    let ends = ['\n', '\r'];
    assert(ends@ == line_ends());
    trim_end_matches(line, &ends)
}

/// The reply to a line that is no request; `detail` says what is wrong with it.
pub fn bad_request(detail: &str) -> (r: Response)
    ensures
        r@ == (ResponseModel::Error { message: "bad request: "@ + detail@ }),
{
    Response::Error { message: "bad request: ".to_owned().concat(detail) }
}

/// A message comes out of its line as it went in, unless it ends in a line
/// end itself.
pub proof fn law_frame_unframe(json: Seq<char>)
    requires
        json.len() > 0 ==> !line_ends().contains(json.last()),
    ensures
        trim_end_of(json + "\n"@, line_ends()) == json,
{
    reveal_strlit("\n");
    let line = json + "\n"@;
    assert(line_ends()[0] == '\n');
    assert(line.last() == '\n');
    assert(line_ends().contains(line.last()));
    assert(line.drop_last() == json);
    reveal_with_fuel(crate::text::drop_back, 3);
}

} // verus!
