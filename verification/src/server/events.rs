//! What happens between requests: the ends of launches and steps, and the events of the JVM.

use vstd::prelude::*;
use crate::jdwp::client::{
    about, get_object_type, Command, CommandView, JdwpClient,
};
use crate::jdwp::event::{JdwpEvent, JdwpEventView};
use crate::jdwp::read::{get_u32, JdwpError};
use crate::json::{items_view, Json, JsonView};
use crate::list::views;
use crate::server::backend::{next, Backend, BackendView};
use crate::server::breakpoints::{
    add_class, class_requests, extendable_targets, pending_targets, set_state, targets_of_class,
    with_class, with_state, BpState, BpStateView, BreakpointView, Target,
};
use crate::server::gather::{read_text, string_in};
use crate::server::installer::{
    outcomes, Installer, Placement, PlacementView, Planned, Preparation, PreparationView,
};
use crate::server::messages::{
    breakpoint_changed_body, breakpoint_changed_json, breakpoints_body, breakpoints_json, err_json,
    err_message, event_json, event_message, ok_json, ok_message,
};
use crate::server::session::{
    and_resume, clear_step, resume, step_cleared, DebugSession, SessionView,
};
use crate::server::snapshot_builder::{snapshot_of, BuilderView, SnapshotBuilder};
use crate::server::{binary_name, reply_view, signature_to_binary_name, Reply};
use crate::source_map::{source_of, SourceMap};
use crate::text::{append, chars_of, contains, has_part, join, join_texts, owned, texts};

verus! {

// ---------------------------------------------------------------------------
// The end of a launch
// ---------------------------------------------------------------------------

impl Backend {
    /// The JVM is started and waits: there is a new session, and the launch is granted.
    pub fn launched(&mut self, source_map: SourceMap, request: u64) -> (m: Json)
        requires
            source_map.wf(),
        ensures
            final(self)@ == (BackendView {
                seq: next(old(self)@.seq),
                session: Some(SessionView::fresh(source_map@)),
            }),
            m@ == ok_json(next(old(self)@.seq), request, "launch"@, None),
            final(self).wf(),
    {
        let s = DebugSession {
            source_map,
            breakpoints: Vec::new(),
            next_bp_id: 1,
            snapshot: None,
            pending_step_request: None,
            pending_exception_class: None,
        };
        assert(s@ =~= SessionView::fresh(source_map@));
        self.session = Some(s);
        let n = self.next_seq();
        ok_message(n, request, "launch", None)
    }

    /// The project does not compile: the launch is refused with the errors.
    pub fn build_failed(&mut self, errors: &[String], request: u64) -> (m: (Json, Json))
        ensures
            final(self)@ == (BackendView { seq: next(next(old(self)@.seq)), ..old(self)@ }),
            m.0@ == err_json(
                next(old(self)@.seq),
                request,
                "launch"@,
                "build failed:\n"@ + join(texts(errors@), "\n"@),
            ),
            m.1@ == event_json(next(next(old(self)@.seq)), "terminated"@, None),
            final(self).session == old(self).session,
    {
        let mut message = owned("build failed:\n");
        append(&mut message, join_texts(errors, "\n").as_str());
        let n = self.next_seq();
        let response = err_message(n, request, "launch", message.as_str());
        let k = self.next_seq();
        (response, event_message(k, "terminated", None))
    }

    /// The launch has failed for another reason.
    pub fn launch_failed(&mut self, why: &str, request: u64) -> (m: (Json, Json))
        ensures
            final(self)@ == (BackendView { seq: next(next(old(self)@.seq)), ..old(self)@ }),
            m.0@ == err_json(next(old(self)@.seq), request, "launch"@, why@),
            m.1@ == event_json(
                next(next(old(self)@.seq)),
                "terminated"@,
                Some(JsonView::empty().with("restart"@, JsonView::Bool(false))),
            ),
            final(self).session == old(self).session,
    {
        let n = self.next_seq();
        let response = err_message(n, request, "launch", why);
        let k = self.next_seq();
        let body = Json::object().with("restart", Json::Bool(false));
        (response, event_message(k, "terminated", Some(body)))
    }

    /// A line that the program printed beside its output.
    pub fn output(&mut self, line: &str) -> (m: Json)
        ensures
            final(self)@ == (BackendView { seq: next(old(self)@.seq), ..old(self)@ }),
            m@ == event_json(
                next(old(self)@.seq),
                "output"@,
                Some(
                    JsonView::empty().with("category"@, JsonView::Text("stderr"@)).with(
                        "output"@,
                        JsonView::Text(line@ + "\n"@),
                    ),
                ),
            ),
            final(self).session == old(self).session,
    {
        let mut text = owned(line);
        append(&mut text, "\n");
        let n = self.next_seq();
        let body = Json::object().with("category", Json::from_text("stderr")).with(
            "output",
            Json::Text(text),
        );
        event_message(n, "output", Some(body))
    }
}

// ---------------------------------------------------------------------------
// The end of a step request, and of setting breakpoints
// ---------------------------------------------------------------------------

/// What the answer to a request for a step comes to.
pub open spec fn step_outcome(reply: Result<Seq<u8>, JdwpError>) -> Result<u32, JdwpError> {
    match reply {
        Ok(d) => match get_u32(d, 0) {
            Ok((id, _)) => Ok(id),
            Err(e) => Err(e),
        },
        Err(e) => Err(e),
    }
}

/// The session with the step that is now under way.
pub open spec fn stepping(session: Option<SessionView>, id: u32) -> Option<SessionView> {
    match session {
        None => None,
        Some(s) => Some(SessionView { pending_step_request: Some(id), ..s }),
    }
}

/// What becomes of a breakpoint by what setting it came to.
pub open spec fn state_for(outcome: Option<PlacementView>, has_classes: bool) -> BpStateView {
    match outcome {
        Some(p) => BpStateView::Installed { classes: p.classes, installed_line: p.line },
        None => if has_classes {
            BpStateView::Pending
        } else {
            BpStateView::Rejected
        },
    }
}

/// The breakpoints once the first `n` targets have been dealt with.
pub open spec fn settled(
    all: Seq<BreakpointView>,
    targets: Seq<Target>,
    results: Seq<Option<PlacementView>>,
    has_classes: bool,
    n: nat,
) -> Seq<BreakpointView>
    decreases n,
{
    if n == 0 {
        all
    } else {
        with_state(
            settled(all, targets, results, has_classes, (n - 1) as nat),
            targets[n - 1].id,
            state_for(results[n - 1], has_classes),
        )
    }
}

fn state_of(outcome: &Option<Placement>, has_classes: bool) -> (s: BpState)
    ensures
        s@ == state_for(
            match *outcome {
                None => None,
                Some(p) => Some(p@),
            },
            has_classes,
        ),
{
    match outcome {
        Some(p) => {
            let mut classes: Vec<(String, u32)> = Vec::new();
            let ghost want = class_requests(p.classes@);
            let mut i: usize = 0;
            assert(class_requests(classes@) =~= want.take(0));
            while i < p.classes.len()
                invariant
                    i <= p.classes@.len() == want.len(),
                    want == class_requests(p.classes@),
                    class_requests(classes@) == want.take(i as int),
                decreases p.classes@.len() - i,
            {
                let ghost before = class_requests(classes@);
                let pair = (p.classes[i].0.clone(), p.classes[i].1);
                classes.push(pair);
                assert(class_requests(classes@) =~= before.push((pair.0@, pair.1)));
                i += 1;
                assert(class_requests(classes@) =~= want.take(i as int));
            }
            assert(want.take(i as int) =~= want);
            BpState::Installed { classes, installed_line: p.line }
        },
        None => if has_classes {
            BpState::Pending
        } else {
            BpState::Rejected
        },
    }
}

impl Backend {
    /// Takes the answer to a request for a step. Where the JVM grants it, the JVM is to run.
    pub fn step_answered(&mut self, reply: &Reply, request: u64, name: &str) -> (r: (
        Json,
        Vec<Command>,
    ))
        requires
            old(self).wf(),
        ensures
            match step_outcome(reply_view(*reply)) {
                Ok(id) => {
                    &&& final(self)@ == (BackendView {
                        seq: next(old(self)@.seq),
                        session: stepping(old(self)@.session, id),
                    })
                    &&& r.0@ == ok_json(next(old(self)@.seq), request, name@, None)
                    &&& views(r.1@) == seq![resume()]
                },
                Err(e) => {
                    &&& final(self)@ == (BackendView { seq: next(old(self)@.seq), ..old(self)@ })
                    &&& r.0@ == err_json(
                        next(old(self)@.seq),
                        request,
                        name@,
                        "step request failed: "@ + e.text(),
                    )
                    &&& views(r.1@) == Seq::<CommandView>::empty()
                },
            },
            final(self).wf(),
    {
        let ghost before = self@;
        let outcome = match reply {
            Ok(data) => JdwpClient::event_request_reply(data.as_slice()),
            Err(e) => Err(*e),
        };
        match outcome {
            Ok(id) => {
                if let Some(s) = self.session.take() {
                    let mut s = s;
                    s.pending_step_request = Some(id);
                    self.session = Some(s);
                }
                let n = self.next_seq();
                assert(self@ =~= (BackendView {
                    seq: next(before.seq),
                    session: stepping(before.session, id),
                }));
                let commands = and_resume(Vec::new());
                assert(views(commands@) =~= seq![resume()]);
                (ok_message(n, request, name, None), commands)
            },
            Err(e) => {
                let mut message = owned("step request failed: ");
                append(&mut message, e.message().as_str());
                let n = self.next_seq();
                let commands: Vec<Command> = Vec::new();
                assert(views(commands@) =~= Seq::<CommandView>::empty());
                (err_message(n, request, name, message.as_str()), commands)
            },
        }
    }

    /// Takes the installer once it has dealt with all breakpoints, and tells the editor what
    /// has become of them.
    pub fn breakpoints_installed(&mut self, installer: &Installer, request: u64) -> (m: Json)
        requires
            old(self).wf(),
            installer@.inv(),
            installer@.is_done(),
        ensures
            final(self)@ == (BackendView {
                seq: next(old(self)@.seq),
                session: match old(self)@.session {
                    None => None,
                    Some(s) => Some(
                        SessionView {
                            breakpoints: settled(
                                s.breakpoints,
                                installer@.targets,
                                installer@.results,
                                installer@.class_names.len() > 0,
                                installer@.targets.len(),
                            ),
                            ..s
                        },
                    ),
                },
            }),
            m@ == ok_json(
                next(old(self)@.seq),
                request,
                "setBreakpoints"@,
                Some(breakpoints_json(installer@.targets, installer@.results)),
            ),
            final(self).wf(),
    {
        let ghost before = self@;
        let has_classes = installer.class_names.len() > 0;
        assert(installer@.class_names.len() == installer.class_names@.len());
        assert(installer@.results.len() == installer.results@.len());
        if let Some(s) = self.session.take() {
            let mut s = s;
            let ghost all = views(s.breakpoints@);
            let ghost was = s@;
            let mut i: usize = 0;
            while i < installer.targets.len()
                invariant
                    i <= installer.targets@.len() == installer.results@.len(),
                    has_classes == (installer@.class_names.len() > 0),
                    s.source_map.wf(),
                    s@ == (SessionView { breakpoints: views(s.breakpoints@), ..was }),
                    views(s.breakpoints@) == settled(
                        all,
                        installer@.targets,
                        installer@.results,
                        has_classes,
                        i as nat,
                    ),
                decreases installer.targets@.len() - i,
            {
                let state = state_of(&installer.results[i], has_classes);
                assert(installer@.results[i as int] == outcomes(installer.results@)[i as int]);
                set_state(&mut s.breakpoints, installer.targets[i].id, state);
                i += 1;
            }
            self.session = Some(s);
        }
        let n = self.next_seq();
        let body = breakpoints_body(&installer.targets, &installer.results);
        ok_message(n, request, "setBreakpoints", Some(body))
    }
}

// ---------------------------------------------------------------------------
// Events of the JVM
// ---------------------------------------------------------------------------

/// Why the JVM has stopped.
#[derive(Debug, Clone, Copy, PartialEq, Eq, Structural)]
pub enum StopReason {
    Breakpoint,
    Step,
}

impl StopReason {
    pub open spec fn text(self) -> Seq<char> {
        match self {
            StopReason::Breakpoint => "breakpoint"@,
            StopReason::Step => "step"@,
        }
    }

    pub fn name(self) -> (s: &'static str)
        ensures
            s@ == self.text(),
    {
        match self {
            StopReason::Breakpoint => "breakpoint",
            StopReason::Step => "step",
        }
    }
}

/// Finds out the class of an exception: first the class of the object, then its signature.
pub struct ExceptionQuery {
    pub object: u64,
    pub type_id: Option<u64>,
    pub signature: Option<String>,
    /// Whether nothing more can be found out.
    pub done: bool,
}

#[verifier::ext_equal]
pub struct ExceptionQueryView {
    pub object: u64,
    pub type_id: Option<u64>,
    pub signature: Option<Seq<char>>,
    pub done: bool,
}

impl View for ExceptionQuery {
    type V = ExceptionQueryView;

    open spec fn view(&self) -> ExceptionQueryView {
        ExceptionQueryView {
            object: self.object,
            type_id: self.type_id,
            signature: match self.signature {
                None => None,
                Some(s) => Some(s@),
            },
            done: self.done,
        }
    }
}

/// The class of the object in the answer.
pub open spec fn type_in(reply: Result<Seq<u8>, JdwpError>) -> Option<u64> {
    match reply {
        Ok(d) => match get_object_type(d) {
            Ok((_, id)) => Some(id),
            Err(_) => None,
        },
        Err(_) => None,
    }
}

impl ExceptionQueryView {
    pub open spec fn new(object: u64) -> ExceptionQueryView {
        ExceptionQueryView { object, type_id: None, signature: None, done: false }
    }

    pub open spec fn asks(self) -> Option<CommandView> {
        if self.done {
            None
        } else {
            match self.type_id {
                None => Some(about(9, 1, self.object)),
                Some(id) => Some(about(2, 1, id)),
            }
        }
    }

    /// A question that is not answered ends it.
    pub open spec fn told(self, reply: Result<Seq<u8>, JdwpError>) -> ExceptionQueryView {
        if self.done {
            self
        } else {
            match self.type_id {
                None => match type_in(reply) {
                    None => ExceptionQueryView { done: true, ..self },
                    Some(id) => ExceptionQueryView { type_id: Some(id), ..self },
                },
                Some(_) => ExceptionQueryView {
                    signature: string_in(reply),
                    done: true,
                    ..self
                },
            }
        }
    }
}

impl ExceptionQuery {
    pub fn new(object: u64) -> (q: ExceptionQuery)
        ensures
            q@ == ExceptionQueryView::new(object),
    {
        ExceptionQuery { object, type_id: None, signature: None, done: false }
    }

    pub fn next(&self) -> (r: Option<Command>)
        ensures
            match self@.asks() {
                None => r is None,
                Some(c) => r matches Some(x) && x@ == c,
            },
    {
        if self.done {
            return None;
        }
        match self.type_id {
            None => Some(JdwpClient::object_reference_type(self.object)),
            Some(id) => Some(JdwpClient::ref_type_name(id)),
        }
    }

    pub fn supply(&mut self, reply: &Reply)
        ensures
            final(self)@ == old(self)@.told(reply_view(*reply)),
    {
        if self.done {
            return;
        }
        match self.type_id {
            None => {
                let found = match reply {
                    Ok(data) => match JdwpClient::object_reference_type_reply(data.as_slice()) {
                        Ok((_, id)) => Some(id),
                        Err(_) => None,
                    },
                    Err(_) => None,
                };
                match found {
                    None => {
                        self.done = true;
                    },
                    Some(id) => {
                        self.type_id = Some(id);
                    },
                }
            },
            Some(_) => {
                self.signature = read_text(reply);
                self.done = true;
            },
        }
        assert(self@ =~= old(self)@.told(reply_view(*reply)));
    }
}

/// The session once the class of an exception is known, or could not be found out. The first
/// exception whose class is known counts.
pub open spec fn with_exception(s: SessionView, signature: Option<Seq<char>>) -> SessionView {
    SessionView {
        pending_exception_class: if s.pending_exception_class is None {
            signature
        } else {
            s.pending_exception_class
        },
        ..s
    }
}

/// What is to be done for an event of the JVM.
pub enum EventWork {
    Nothing,
    /// The JVM has ended: its exit code is to be found out.
    Ended,
    Send { commands: Vec<Command> },
    /// The exception's class is to be found out.
    Exception { query: ExceptionQuery },
    /// Breakpoints are to be set in a class.
    Prepare { preparation: Preparation },
    /// After the commands, a snapshot is to be gathered.
    Stopped {
        before: Vec<Command>,
        builder: SnapshotBuilder,
        thread_id: u64,
        reason: StopReason,
    },
}

#[verifier::ext_equal]
pub enum EventWorkView {
    Nothing,
    Ended,
    Send { commands: Seq<CommandView> },
    Exception { query: ExceptionQueryView },
    Prepare { preparation: PreparationView },
    Stopped {
        before: Seq<CommandView>,
        builder: BuilderView,
        thread_id: u64,
        reason: StopReason,
    },
}

impl View for EventWork {
    type V = EventWorkView;

    open spec fn view(&self) -> EventWorkView {
        match *self {
            EventWork::Nothing => EventWorkView::Nothing,
            EventWork::Ended => EventWorkView::Ended,
            EventWork::Send { commands } => EventWorkView::Send { commands: views(commands@) },
            EventWork::Exception { query } => EventWorkView::Exception { query: query@ },
            EventWork::Prepare { preparation } => EventWorkView::Prepare {
                preparation: preparation@,
            },
            EventWork::Stopped { before, builder, thread_id, reason } => EventWorkView::Stopped {
                before: views(before@),
                builder: builder@,
                thread_id,
                reason,
            },
        }
    }
}

/// What a class that has just been loaded calls for: to set the breakpoints of its source file
/// in it, or else just to go on.
pub open spec fn on_class_prepare(
    s: SessionView,
    signature: Seq<char>,
    ref_type_tag: u8,
    ref_type_id: u64,
) -> EventWorkView {
    let class = binary_name(signature);
    match source_of(s.log, class) {
        None => EventWorkView::Send { commands: seq![resume()] },
        Some(source) => {
            let pending = pending_targets(s.breakpoints, source);
            let extendable = extendable_targets(s.breakpoints, source, class);
            if pending.len() == 0 && extendable.len() == 0 {
                EventWorkView::Send { commands: seq![resume()] }
            } else {
                EventWorkView::Prepare {
                    preparation: PreparationView::new(
                        class,
                        ref_type_tag,
                        ref_type_id,
                        pending,
                        extendable,
                    ),
                }
            }
        },
    }
}

/// What an event leads to. Without a session an event leads to nothing, but for the end of the
/// JVM. A step that has come to its end is no longer under way.
pub open spec fn on_event(b: BackendView, event: JdwpEventView) -> (BackendView, EventWorkView) {
    match event {
        JdwpEventView::VmDeath => (b, EventWorkView::Ended),
        JdwpEventView::ExceptionUncaught(e) => match b.session {
            None => (b, EventWorkView::Nothing),
            Some(s) => if s.pending_exception_class is Some {
                (b, EventWorkView::Send { commands: seq![resume()] })
            } else {
                (
                    b,
                    EventWorkView::Exception {
                        query: ExceptionQueryView::new(e.exception_object_id),
                    },
                )
            },
        },
        JdwpEventView::ClassPrepare(e) => match b.session {
            None => (b, EventWorkView::Nothing),
            Some(s) => (b, on_class_prepare(s, e.signature, e.ref_type_tag, e.ref_type_id)),
        },
        JdwpEventView::Breakpoint(e) => match b.session {
            None => (b, EventWorkView::Nothing),
            Some(s) => (
                b,
                EventWorkView::Stopped {
                    before: seq![],
                    builder: BuilderView::new(e.thread_id),
                    thread_id: e.thread_id,
                    reason: StopReason::Breakpoint,
                },
            ),
        },
        JdwpEventView::Step(e) => match b.session {
            None => (b, EventWorkView::Nothing),
            Some(s) => (
                BackendView {
                    session: Some(SessionView { pending_step_request: None, ..s }),
                    ..b
                },
                EventWorkView::Stopped {
                    before: step_cleared(s.pending_step_request),
                    builder: BuilderView::new(e.thread_id),
                    thread_id: e.thread_id,
                    reason: StopReason::Step,
                },
            ),
        },
    }
}

/// The breakpoints once the first `n` of the planned ones have been dealt with: one that was
/// not set anywhere is now set in the class, and one that was set elsewhere is set there too.
pub open spec fn extended(
    all: Seq<BreakpointView>,
    plan: Seq<Planned>,
    requests: Seq<Option<u32>>,
    class: Seq<char>,
    first: bool,
    n: nat,
) -> Seq<BreakpointView>
    decreases n,
{
    if n == 0 {
        all
    } else {
        let before = extended(all, plan, requests, class, first, (n - 1) as nat);
        let p = plan[n - 1];
        match requests[n - 1] {
            Some(request) => if p.first != first {
                before
            } else if first {
                with_state(
                    before,
                    p.id,
                    BpStateView::Installed {
                        classes: seq![(class, request)],
                        installed_line: p.line,
                    },
                )
            } else {
                with_class(before, p.id, class, request)
            },
            None => before,
        }
    }
}

/// What the editor is told of the first `n` planned breakpoints: each that is now set and was
/// not before; and the number of the last message.
pub open spec fn news(plan: Seq<Planned>, requests: Seq<Option<u32>>, seq: u64, n: nat) -> (
    Seq<JsonView>,
    u64,
)
    decreases n,
{
    if n == 0 {
        (seq![], seq)
    } else {
        let (told, last) = news(plan, requests, seq, (n - 1) as nat);
        let p = plan[n - 1];
        if requests[n - 1] is Some && p.first {
            (
                told.push(
                    event_json(
                        next(last),
                        "breakpoint"@,
                        Some(breakpoint_changed_json(p.id, p.line)),
                    ),
                ),
                next(last),
            )
        } else {
            (told, last)
        }
    }
}

/// Why the JVM has ended, by the class of the exception that nothing caught, if there was one.
pub open spec fn termination_cause(exception_class: Option<Seq<char>>) -> Seq<char> {
    match exception_class {
        None => "clean_exit"@,
        Some(signature) => if contains(signature, "OutOfMemoryError"@) {
            "out_of_memory"@
        } else {
            "uncaught_exception"@
        },
    }
}

pub fn derive_termination_cause(exception_class: Option<&str>) -> (s: &'static str)
    ensures
        s@ == termination_cause(
            match exception_class {
                None => None,
                Some(t) => Some(t@),
            },
        ),
{
    match exception_class {
        None => "clean_exit",
        Some(signature) => {
            if has_part(chars_of(signature).as_slice(), "OutOfMemoryError") {
                "out_of_memory"
            } else {
                "uncaught_exception"
            }
        },
    }
}

/// What the editor is told of the end: the exit code, unless it is zero or not known, and the
/// cause.
pub open spec fn terminated_json(exit_code: Option<i32>, cause: Seq<char>) -> JsonView {
    let base = match exit_code {
        Some(code) => if code != 0 {
            JsonView::empty().with("exitCode"@, JsonView::Int(code as int))
        } else {
            JsonView::empty()
        },
        None => JsonView::empty(),
    };
    base.with("terminationCause"@, JsonView::Text(cause))
}

impl Backend {
    /// Decides what is to be done for an event of the JVM.
    pub fn on_event(&mut self, event: JdwpEvent) -> (w: EventWork)
        requires
            old(self).wf(),
        ensures
            final(self)@ == on_event(old(self)@, event@).0,
            w@ == on_event(old(self)@, event@).1,
            w matches EventWork::Stopped { builder, .. } ==> builder@.inv(),
            w matches EventWork::Prepare { preparation } ==> preparation@.inv(),
            final(self).wf(),
    {
        let ghost before = self@;
        match event {
            JdwpEvent::VmDeath => EventWork::Ended,
            JdwpEvent::ExceptionUncaught(e) => match &self.session {
                None => EventWork::Nothing,
                Some(s) => if s.pending_exception_class.is_some() {
                    let commands = and_resume(Vec::new());
                    assert(views(commands@) =~= seq![resume()]);
                    EventWork::Send { commands }
                } else {
                    EventWork::Exception { query: ExceptionQuery::new(e.exception_object_id) }
                },
            },
            JdwpEvent::ClassPrepare(e) => match &self.session {
                None => EventWork::Nothing,
                Some(s) => {
                    let class = signature_to_binary_name(e.signature.as_str());
                    if let Some(source) = s.source_map.source_for_class(class.as_str()) {
                        let (pending, extendable) = targets_of_class(
                            &s.breakpoints,
                            source,
                            class.as_str(),
                        );
                        if pending.len() > 0 || extendable.len() > 0 {
                            return EventWork::Prepare {
                                preparation: Preparation::new(
                                    class,
                                    e.ref_type_tag,
                                    e.ref_type_id,
                                    pending,
                                    extendable,
                                ),
                            };
                        }
                    }
                    let commands = and_resume(Vec::new());
                    assert(views(commands@) =~= seq![resume()]);
                    EventWork::Send { commands }
                },
            },
            JdwpEvent::Breakpoint(e) => match &self.session {
                None => EventWork::Nothing,
                Some(_) => {
                    let commands: Vec<Command> = Vec::new();
                    assert(views(commands@) =~= seq![]);
                    EventWork::Stopped {
                        before: commands,
                        builder: SnapshotBuilder::new(e.thread_id),
                        thread_id: e.thread_id,
                        reason: StopReason::Breakpoint,
                    }
                },
            },
            JdwpEvent::Step(e) => match self.session.take() {
                None => EventWork::Nothing,
                Some(s) => {
                    let mut s = s;
                    let step = s.pending_step_request.take();
                    self.session = Some(s);
                    assert(self@ =~= on_event(before, event@).0);
                    EventWork::Stopped {
                        before: clear_step(step),
                        builder: SnapshotBuilder::new(e.thread_id),
                        thread_id: e.thread_id,
                        reason: StopReason::Step,
                    }
                },
            },
        }
    }

    /// Takes what could be found out about an exception's class. The first exception counts,
    /// and the JVM goes on.
    pub fn exception_seen(&mut self, query: ExceptionQuery) -> (commands: Vec<Command>)
        requires
            old(self).wf(),
        ensures
            match old(self)@.session {
                None => final(self)@ == old(self)@ && views(commands@) == Seq::<
                    CommandView,
                >::empty(),
                Some(s) => {
                    &&& final(self)@ == (BackendView {
                        session: Some(with_exception(s, query@.signature)),
                        ..old(self)@
                    })
                    &&& views(commands@) == seq![resume()]
                },
            },
            final(self).wf(),
    {
        let ghost before = self@;
        match self.session.take() {
            None => {
                let commands: Vec<Command> = Vec::new();
                assert(views(commands@) =~= Seq::<CommandView>::empty());
                commands
            },
            Some(s) => {
                let mut s = s;
                if s.pending_exception_class.is_none() {
                    s.pending_exception_class = query.signature;
                }
                self.session = Some(s);
                assert(self@.session->0 =~= with_exception(
                    before.session->0,
                    query@.signature,
                ));
                let commands = and_resume(Vec::new());
                assert(views(commands@) =~= seq![resume()]);
                commands
            },
        }
    }

    /// Takes the preparation of a class once all its questions are answered: notes where
    /// breakpoints are now set, and tells the editor of those that were not set before. Then
    /// the JVM goes on.
    pub fn class_prepared(&mut self, p: &Preparation) -> (r: (Vec<Json>, Vec<Command>))
        requires
            old(self).wf(),
            p@.inv(),
            p@.asks() is None,
        ensures
            final(self)@ == (BackendView {
                seq: news(p@.plan->0, p@.requests, old(self)@.seq, p@.requests.len()).1,
                session: match old(self)@.session {
                    None => None,
                    Some(s) => Some(
                        SessionView {
                            breakpoints: extended(
                                extended(
                                    s.breakpoints,
                                    p@.plan->0,
                                    p@.requests,
                                    p@.class,
                                    true,
                                    p@.requests.len(),
                                ),
                                p@.plan->0,
                                p@.requests,
                                p@.class,
                                false,
                                p@.requests.len(),
                            ),
                            ..s
                        },
                    ),
                },
            }),
            items_view(r.0@) == news(
                p@.plan->0,
                p@.requests,
                old(self)@.seq,
                p@.requests.len(),
            ).0,
            views(r.1@) == seq![resume()],
            final(self).wf(),
    {
        let ghost before = self@;
        let ghost steps = p@.plan->0;
        let mut messages: Vec<Json> = Vec::new();
        if let Some(plan) = &p.plan {
            if let Some(s) = self.session.take() {
                let mut s = s;
                note(&mut s, plan, &p.requests, p.class.as_str(), true);
                note(&mut s, plan, &p.requests, p.class.as_str(), false);
                self.session = Some(s);
            }
            let ghost noted = self@.session;
            let mut i: usize = 0;
            while i < plan.len()
                invariant
                    i <= plan@.len() == p.requests@.len(),
                    steps == plan@,
                    self@ == (BackendView {
                        seq: news(steps, p.requests@, before.seq, i as nat).1,
                        session: noted,
                    }),
                    self.wf(),
                    items_view(messages@) == news(steps, p.requests@, before.seq, i as nat).0,
                decreases plan@.len() - i,
            {
                if p.requests[i].is_some() && plan[i].first {
                    let n = self.next_seq();
                    let body = breakpoint_changed_body(plan[i].id, plan[i].line);
                    Json::push_item(&mut messages, event_message(n, "breakpoint", Some(body)));
                }
                i += 1;
            }
        }
        let commands = and_resume(Vec::new());
        assert(views(commands@) =~= seq![resume()]);
        (messages, commands)
    }

    /// Takes what the stopped JVM shows, and tells the editor that it has stopped.
    pub fn stopped(&mut self, builder: SnapshotBuilder, thread_id: u64, reason: StopReason) -> (m:
        Json)
        requires
            old(self).wf(),
        ensures
            final(self)@ == (BackendView {
                seq: next(old(self)@.seq),
                session: match old(self)@.session {
                    None => None,
                    Some(s) => Some(
                        SessionView { snapshot: Some(snapshot_of(builder@, s.log)), ..s },
                    ),
                },
            }),
            m@ == event_json(
                next(old(self)@.seq),
                "stopped"@,
                Some(
                    JsonView::empty().with("reason"@, JsonView::Text(reason.text())).with(
                        "threadId"@,
                        JsonView::Int(thread_id as int),
                    ).with("allThreadsStopped"@, JsonView::Bool(true)),
                ),
            ),
            final(self).wf(),
    {
        let ghost before = self@;
        if let Some(s) = self.session.take() {
            let mut s = s;
            let snapshot = builder.finish(&s.source_map);
            s.snapshot = Some(snapshot);
            self.session = Some(s);
            assert(self@.session->0 =~= (SessionView {
                snapshot: Some(snapshot_of(builder@, before.session->0.log)),
                ..before.session->0
            }));
        }
        let n = self.next_seq();
        let body = Json::object().with("reason", Json::from_text(reason.name())).with(
            "threadId",
            Json::Unsigned(thread_id),
        ).with("allThreadsStopped", Json::Bool(true));
        event_message(n, "stopped", Some(body))
    }

    /// The JVM has ended, with the given exit code where it is known: the session is over, and
    /// the editor is told why.
    pub fn terminated(&mut self, exit_code: Option<i32>) -> (m: Json)
        ensures
            final(self)@ == (BackendView { seq: next(old(self)@.seq), session: None }),
            m@ == event_json(
                next(old(self)@.seq),
                "terminated"@,
                Some(
                    terminated_json(
                        exit_code,
                        termination_cause(
                            match old(self)@.session {
                                None => None,
                                Some(s) => s.pending_exception_class,
                            },
                        ),
                    ),
                ),
            ),
            final(self).wf(),
    {
        let session = self.session.take();
        let cause = match &session {
            None => derive_termination_cause(None),
            Some(s) => match &s.pending_exception_class {
                None => derive_termination_cause(None),
                Some(signature) => derive_termination_cause(Some(signature.as_str())),
            },
        };
        let n = self.next_seq();
        let base = match exit_code {
            Some(code) => if code != 0 {
                Json::object().with("exitCode", Json::Negative(code as i64))
            } else {
                Json::object()
            },
            None => Json::object(),
        };
        let body = base.with("terminationCause", Json::from_text(cause));
        event_message(n, "terminated", Some(body))
    }
}

/// Notes in which class breakpoints are now set: those that were not set before, or those that
/// were.
fn note(s: &mut DebugSession, plan: &Vec<Planned>, requests: &Vec<Option<u32>>, class: &str, first: bool)
    requires
        plan@.len() == requests@.len(),
    ensures
        final(s)@ == (SessionView {
            breakpoints: extended(
                old(s)@.breakpoints,
                plan@,
                requests@,
                class@,
                first,
                requests@.len(),
            ),
            ..old(s)@
        }),
        final(s).source_map == old(s).source_map,
{
    let ghost was = s@;
    let mut i: usize = 0;
    while i < plan.len()
        invariant
            i <= plan@.len() == requests@.len(),
            s.source_map == old(s).source_map,
            s@ == (SessionView {
                breakpoints: extended(was.breakpoints, plan@, requests@, class@, first, i as nat),
                ..was
            }),
        decreases plan@.len() - i,
    {
        if let Some(request) = requests[i] {
            if plan[i].first == first {
                if first {
                    let mut classes: Vec<(String, u32)> = Vec::new();
                    classes.push((owned(class), request));
                    assert(class_requests(classes@) =~= seq![(class@, request)]);
                    set_state(
                        &mut s.breakpoints,
                        plan[i].id,
                        BpState::Installed { classes, installed_line: plan[i].line },
                    );
                } else {
                    add_class(&mut s.breakpoints, plan[i].id, class, request);
                }
            }
        }
        i += 1;
    }
}

} // verus!
