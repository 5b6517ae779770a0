//! The state of the server, and what is to be done on its behalf.

use vstd::prelude::*;
use crate::jdwp::client::{clear_request, Command, CommandView, JdwpClient};
use crate::jdwp::{EVENT_BREAKPOINT, EVENT_STEP};
use crate::json::Json;
use crate::list::views;
use crate::server::breakpoints::{BreakpointEntry, BreakpointView};
use crate::server::installer::{Installer, InstallerView};
use crate::server::snapshot::{JvmSnapshot, SnapshotView};
use crate::source_map::{Log, SourceMap};

verus! {

/// A program that is being debugged.
pub struct DebugSession {
    pub source_map: SourceMap,
    pub breakpoints: Vec<BreakpointEntry>,
    pub next_bp_id: u32,
    /// What the JVM shows while it is stopped.
    pub snapshot: Option<JvmSnapshot>,
    /// The number of the step that is under way.
    pub pending_step_request: Option<u32>,
    /// The signature of the class of an exception that nothing caught.
    pub pending_exception_class: Option<String>,
}

#[verifier::ext_equal]
pub struct SessionView {
    pub log: Log,
    pub breakpoints: Seq<BreakpointView>,
    pub next_bp_id: u32,
    pub snapshot: Option<SnapshotView>,
    pub pending_step_request: Option<u32>,
    pub pending_exception_class: Option<Seq<char>>,
}

impl View for DebugSession {
    type V = SessionView;

    open spec fn view(&self) -> SessionView {
        SessionView {
            log: self.source_map@,
            breakpoints: views(self.breakpoints@),
            next_bp_id: self.next_bp_id,
            snapshot: match self.snapshot {
                None => None,
                Some(s) => Some(s@),
            },
            pending_step_request: self.pending_step_request,
            pending_exception_class: match self.pending_exception_class {
                None => None,
                Some(s) => Some(s@),
            },
        }
    }
}

impl SessionView {
    /// A session that has just been started.
    pub open spec fn fresh(log: Log) -> SessionView {
        SessionView {
            log,
            breakpoints: seq![],
            next_bp_id: 1,
            snapshot: None,
            pending_step_request: None,
            pending_exception_class: None,
        }
    }

    /// The session once the JVM runs again: nothing shows, and no step is under way.
    pub open spec fn resumed(self) -> SessionView {
        SessionView { snapshot: None, pending_step_request: None, ..self }
    }
}

/// What is to be done for a request. Commands are sent in their order, and what comes back for
/// them does not matter, unless it says otherwise.
pub enum Work {
    Nothing,
    /// The project is to be launched.
    Launch { root: String, main_class: Option<String>, request: u64 },
    Send { commands: Vec<Command> },
    /// After the commands before it, the command is sent, and its answer is handed back.
    Step { before: Vec<Command>, command: Command, request: u64, name: String },
    /// After the commands before it, the installer's questions are answered, and it is handed
    /// back.
    Install { before: Vec<Command>, installer: Installer, request: u64 },
    /// The session is over, and the JVM is to be ended.
    Stop,
}

#[verifier::ext_equal]
pub enum WorkView {
    Nothing,
    Launch { root: Seq<char>, main_class: Option<Seq<char>>, request: u64 },
    Send { commands: Seq<CommandView> },
    Step { before: Seq<CommandView>, command: CommandView, request: u64, name: Seq<char> },
    Install { before: Seq<CommandView>, installer: InstallerView, request: u64 },
    Stop,
}

impl View for Work {
    type V = WorkView;

    open spec fn view(&self) -> WorkView {
        match *self {
            Work::Nothing => WorkView::Nothing,
            Work::Launch { root, main_class, request } => WorkView::Launch {
                root: root@,
                main_class: match main_class {
                    None => None,
                    Some(s) => Some(s@),
                },
                request,
            },
            Work::Send { commands } => WorkView::Send { commands: views(commands@) },
            Work::Step { before, command, request, name } => WorkView::Step {
                before: views(before@),
                command: command@,
                request,
                name: name@,
            },
            Work::Install { before, installer, request } => WorkView::Install {
                before: views(before@),
                installer: installer@,
                request,
            },
            Work::Stop => WorkView::Stop,
        }
    }
}

/// What a request leads to: messages to the editor, and work.
pub struct Handled {
    pub messages: Vec<Json>,
    pub work: Work,
}

/// The command that lets the JVM run.
pub open spec fn resume() -> CommandView {
    CommandView { set: 1, cmd: 9, data: seq![] }
}

/// The commands that end a step that is under way.
pub open spec fn step_cleared(request: Option<u32>) -> Seq<CommandView> {
    match request {
        None => seq![],
        Some(id) => seq![clear_request(EVENT_STEP, id)],
    }
}

/// The commands that take breakpoints away.
pub open spec fn breakpoints_cleared(requests: Seq<u32>) -> Seq<CommandView> {
    requests.map_values(|id: u32| clear_request(EVENT_BREAKPOINT, id))
}

pub fn clear_step(request: Option<u32>) -> (v: Vec<Command>)
    ensures
        views(v@) == step_cleared(request),
{
    let mut v: Vec<Command> = Vec::new();
    if let Some(id) = request {
        v.push(JdwpClient::event_request_clear(EVENT_STEP, id));
    }
    assert(views(v@) =~= step_cleared(request));
    v
}

pub fn clear_breakpoints(requests: &[u32]) -> (v: Vec<Command>)
    ensures
        views(v@) == breakpoints_cleared(requests@),
{
    let mut v: Vec<Command> = Vec::new();
    let ghost want = breakpoints_cleared(requests@);
    let mut i: usize = 0;
    assert(views(v@) =~= want.take(0));
    while i < requests.len()
        invariant
            i <= requests@.len() == want.len(),
            want == breakpoints_cleared(requests@),
            views(v@) == want.take(i as int),
        decreases requests@.len() - i,
    {
        let ghost before = views(v@);
        let c = JdwpClient::event_request_clear(EVENT_BREAKPOINT, requests[i]);
        v.push(c);
        assert(views(v@) =~= before.push(c@));
        i += 1;
        assert(views(v@) =~= want.take(i as int));
    }
    assert(want.take(i as int) =~= want);
    v
}

/// The commands `first`, and then the one that lets the JVM run.
pub fn and_resume(first: Vec<Command>) -> (v: Vec<Command>)
    ensures
        views(v@) == views(first@).push(resume()),
{
    let mut v = first;
    v.push(JdwpClient::vm_resume());
    assert(views(v@) =~= views(first@).push(resume()));
    v
}

} // verus!
