//! The requests of the editor.

use vstd::pervasive::unreached;
use vstd::prelude::*;
use crate::jdwp::client::{step_request, JdwpClient};
use crate::jdwp::{STEP_DEPTH_INTO, STEP_DEPTH_OUT, STEP_DEPTH_OVER};
use crate::json::{items_view, lemma_items_view, Json, JsonView};
use crate::list::views;
use crate::path::parts;
use crate::server::breakpoints::{
    elsewhere, numbered, pending_at, put_in, requests_at, take_out, targets_for,
};
use crate::server::installer::{Installer, InstallerView};
use crate::server::messages::{
    err_json, err_message, event_json, event_message, frames_body, frames_json, ok_json, ok_message,
    scopes_body, scopes_json, threads_body, threads_json, unset_lines_body, unset_lines_json,
    variables_body, variables_json,
};
use crate::server::session::{
    and_resume, breakpoints_cleared, clear_breakpoints, clear_step, resume, step_cleared,
    DebugSession, Handled, SessionView, Work, WorkView,
};
use crate::server::snapshot::{
    all_frames, frame_with_id, frame_with_ref, thread_with_id, FrameView, JvmSnapshot,
    SnapshotFrame, SnapshotThread, SnapshotVariable, SnapshotView, VariableView,
};
use crate::source_map::classes_of;
use crate::text::{append, owned, same_text, texts};
use crate::types::{request_of, Capabilities, DapRequest, DapRequestView};

verus! {

/// The server: the number of the last message it sent, and the session, where there is one.
pub struct Backend {
    pub seq: u64,
    pub session: Option<DebugSession>,
}

#[verifier::ext_equal]
pub struct BackendView {
    pub seq: u64,
    pub session: Option<SessionView>,
}

impl View for Backend {
    type V = BackendView;

    open spec fn view(&self) -> BackendView {
        BackendView {
            seq: self.seq,
            session: match self.session {
                None => None,
                Some(s) => Some(s@),
            },
        }
    }
}

/// The number after `n`; after the last comes zero.
pub open spec fn next(n: u64) -> u64 {
    if n == u64::MAX {
        0
    } else {
        (n + 1) as u64
    }
}

/// What a request leads to: the new state, messages to the editor, and work.
#[verifier::ext_equal]
pub struct Outcome {
    pub backend: BackendView,
    pub messages: Seq<JsonView>,
    pub work: WorkView,
}

/// Whether what was done is what `o` says.
pub open spec fn done_as(b: BackendView, h: Handled, o: Outcome) -> bool {
    &&& b == o.backend
    &&& items_view(h.messages@) == o.messages
    &&& h.work@ == o.work
}

impl BackendView {
    /// One message and no work.
    pub open spec fn says(self, message: JsonView) -> Outcome {
        Outcome {
            backend: BackendView { seq: next(self.seq), ..self },
            messages: seq![message],
            work: WorkView::Nothing,
        }
    }

    /// Two messages and no work.
    pub open spec fn says_both(self, first: JsonView, second: JsonView) -> Outcome {
        Outcome {
            backend: BackendView { seq: next(next(self.seq)), ..self },
            messages: seq![first, second],
            work: WorkView::Nothing,
        }
    }

    /// Grants a request.
    pub open spec fn grants(self, q: DapRequestView, body: Option<JsonView>) -> Outcome {
        self.says(ok_json(next(self.seq), q.seq, q.command, body))
    }

    /// Refuses a request.
    pub open spec fn refuses(self, q: DapRequestView, message: Seq<char>) -> Outcome {
        self.says(err_json(next(self.seq), q.seq, q.command, message))
    }

    pub open spec fn snapshot(self) -> Option<SnapshotView> {
        match self.session {
            None => None,
            Some(s) => s.snapshot,
        }
    }
}

// ---------------------------------------------------------------------------
// Arguments
// ---------------------------------------------------------------------------

pub open spec fn argument(q: DapRequestView, name: Seq<char>) -> Option<JsonView> {
    match q.arguments {
        None => None,
        Some(a) => a.member(name),
    }
}

pub open spec fn text_argument(q: DapRequestView, name: Seq<char>) -> Option<Seq<char>> {
    match argument(q, name) {
        None => None,
        Some(v) => v.text(),
    }
}

pub open spec fn number_argument(q: DapRequestView, name: Seq<char>) -> Option<u64> {
    match argument(q, name) {
        None => None,
        Some(v) => v.unsigned(),
    }
}

/// The root of the project to be launched.
pub open spec fn project_root(q: DapRequestView) -> Option<Seq<char>> {
    match text_argument(q, "projectRoot"@) {
        Some(root) => Some(root),
        None => text_argument(q, "projectDir"@),
    }
}

/// The path of the source file that breakpoints are set in.
pub open spec fn source_argument(q: DapRequestView) -> Option<Seq<char>> {
    match argument(q, "source"@) {
        None => None,
        Some(source) => match source.member("path"@) {
            None => None,
            Some(path) => path.text(),
        },
    }
}

/// The line of a breakpoint, of which the low 32 bits count.
pub open spec fn line_of(breakpoint: JsonView) -> Option<u32> {
    match breakpoint.member("line"@) {
        None => None,
        Some(line) => match line.unsigned() {
            None => None,
            Some(n) => Some((n % 0x1_0000_0000) as u32),
        },
    }
}

/// The lines of those breakpoints that have one.
pub open spec fn lines_of(breakpoints: Seq<JsonView>) -> Seq<u32>
    decreases breakpoints.len(),
{
    if breakpoints.len() == 0 {
        seq![]
    } else {
        match line_of(breakpoints.last()) {
            Some(line) => lines_of(breakpoints.drop_last()).push(line),
            None => lines_of(breakpoints.drop_last()),
        }
    }
}

pub open spec fn requested_lines(q: DapRequestView) -> Seq<u32> {
    match argument(q, "breakpoints"@) {
        None => seq![],
        Some(v) => match v.items() {
            None => seq![],
            Some(items) => lines_of(items),
        },
    }
}

// ---------------------------------------------------------------------------
// Requests
// ---------------------------------------------------------------------------

pub open spec fn on_initialize(b: BackendView, q: DapRequestView) -> Outcome {
    let n = next(b.seq);
    b.says_both(
        ok_json(
            n,
            q.seq,
            "initialize"@,
            Some((Capabilities { supports_configuration_done_request: true }).json()),
        ),
        event_json(next(n), "initialized"@, None),
    )
}

/// A launch needs to know where the project is; the rest is work.
pub open spec fn on_launch(b: BackendView, q: DapRequestView) -> Outcome {
    let n = next(b.seq);
    match project_root(q) {
        None => b.says_both(
            err_json(n, q.seq, "launch"@, "launch requires 'projectRoot' argument"@),
            event_json(next(n), "terminated"@, None),
        ),
        Some(root) => Outcome {
            backend: b,
            messages: seq![],
            work: WorkView::Launch {
                root,
                main_class: text_argument(q, "mainClass"@),
                request: q.seq,
            },
        },
    }
}

/// The breakpoints of a source file are replaced by those that are asked for: the old ones are
/// taken away in the JVM, and the new ones are to be set.
pub open spec fn on_set_breakpoints(b: BackendView, q: DapRequestView) -> Outcome {
    match source_argument(q) {
        None => b.refuses(q, "setBreakpoints requires 'source.path'"@),
        Some(source) => {
            let lines = requested_lines(q);
            match b.session {
                None => b.grants(q, Some(unset_lines_json(lines))),
                Some(s) => {
                    let targets = targets_for(lines, s.next_bp_id);
                    Outcome {
                        backend: BackendView {
                            session: Some(
                                SessionView {
                                    breakpoints: elsewhere(s.breakpoints, source) + pending_at(
                                        source,
                                        targets,
                                    ),
                                    next_bp_id: numbered(s.next_bp_id, lines.len() as int),
                                    ..s
                                },
                            ),
                            ..b
                        },
                        messages: seq![],
                        work: WorkView::Install {
                            before: breakpoints_cleared(requests_at(s.breakpoints, source)),
                            installer: InstallerView::new(
                                classes_of(s.log, parts(source)),
                                targets,
                            ),
                            request: q.seq,
                        },
                    }
                },
            }
        },
    }
}

/// The JVM runs again, without a step that may be under way.
pub open spec fn on_continue(b: BackendView, q: DapRequestView) -> Outcome {
    let said = b.grants(
        q,
        Some(JsonView::empty().with("allThreadsContinued"@, JsonView::Bool(true))),
    );
    match b.session {
        None => said,
        Some(s) => Outcome {
            backend: BackendView { session: Some(s.resumed()), ..said.backend },
            work: WorkView::Send { commands: step_cleared(s.pending_step_request).push(resume()) },
            ..said
        },
    }
}

/// The stopped thread makes a step, in place of one that may be under way.
pub open spec fn on_step(b: BackendView, q: DapRequestView, depth: u32) -> Outcome {
    match b.session {
        None => b.refuses(q, "no active debug session"@),
        Some(s) => {
            let thread = match s.snapshot {
                None => 0,
                Some(snap) => snap.stopped_thread_id,
            };
            if thread == 0 {
                b.refuses(q, "no stopped thread"@)
            } else {
                Outcome {
                    backend: BackendView { session: Some(s.resumed()), ..b },
                    messages: seq![],
                    work: WorkView::Step {
                        before: step_cleared(s.pending_step_request),
                        command: step_request(thread, depth),
                        request: q.seq,
                        name: q.command,
                    },
                }
            }
        },
    }
}

pub open spec fn on_threads(b: BackendView, q: DapRequestView) -> Outcome {
    b.grants(
        q,
        Some(
            threads_json(
                match b.snapshot() {
                    None => seq![],
                    Some(snap) => snap.threads,
                },
            ),
        ),
    )
}

/// The frames of the thread that is asked for; none where it is not there.
pub open spec fn frames_asked(b: BackendView, q: DapRequestView) -> Seq<FrameView> {
    let id = match number_argument(q, "threadId"@) {
        None => 0,
        Some(n) => n,
    };
    match b.snapshot() {
        None => seq![],
        Some(snap) => match thread_with_id(snap.threads, id) {
            None => seq![],
            Some(t) => t.frames,
        },
    }
}

pub open spec fn on_stack_trace(b: BackendView, q: DapRequestView) -> Outcome {
    b.grants(q, Some(frames_json(frames_asked(b, q))))
}

pub open spec fn frame_asked(b: BackendView, id: u64) -> Option<FrameView> {
    match b.snapshot() {
        None => None,
        Some(snap) => frame_with_id(all_frames(snap.threads), id),
    }
}

pub open spec fn on_scopes(b: BackendView, q: DapRequestView) -> Outcome {
    let id = match number_argument(q, "frameId"@) {
        None => 0,
        Some(n) => n,
    };
    b.grants(q, Some(scopes_json(frame_asked(b, id))))
}

/// The variables that have the number that is asked for, of which the low 32 bits count.
pub open spec fn variables_asked(b: BackendView, q: DapRequestView) -> Seq<VariableView> {
    let vars_ref = match number_argument(q, "variablesReference"@) {
        None => 0,
        Some(n) => (n % 0x1_0000_0000) as u32,
    };
    match b.snapshot() {
        None => seq![],
        Some(snap) => match frame_with_ref(all_frames(snap.threads), vars_ref) {
            None => seq![],
            Some(f) => f.variables,
        },
    }
}

pub open spec fn on_variables(b: BackendView, q: DapRequestView) -> Outcome {
    b.grants(q, Some(variables_json(variables_asked(b, q))))
}

/// How the first variable of the given name shows.
pub open spec fn value_of(variables: Seq<VariableView>, name: Seq<char>) -> Option<Seq<char>>
    decreases variables.len(),
{
    if variables.len() == 0 {
        None
    } else if variables[0].name == name {
        Some(variables[0].display_value)
    } else {
        value_of(variables.drop_first(), name)
    }
}

/// The frame in which an expression is looked up: the one that is asked for, else the topmost
/// of the stopped thread.
pub open spec fn evaluation_frame(b: BackendView, q: DapRequestView) -> Option<FrameView> {
    match number_argument(q, "frameId"@) {
        Some(id) => frame_asked(b, id),
        None => match b.snapshot() {
            None => None,
            Some(snap) => match thread_with_id(snap.threads, snap.stopped_thread_id) {
                None => None,
                Some(t) => if t.frames.len() > 0 {
                    Some(t.frames[0])
                } else {
                    None
                },
            },
        },
    }
}

/// An expression is the name of a variable.
pub open spec fn on_evaluate(b: BackendView, q: DapRequestView) -> Outcome {
    match text_argument(q, "expression"@) {
        None => b.refuses(q, "missing expression"@),
        Some(name) => match evaluation_frame(b, q) {
            None => b.refuses(q, "not available"@),
            Some(f) => match value_of(f.variables, name) {
                None => b.refuses(q, "not available"@),
                Some(value) => b.grants(
                    q,
                    Some(
                        JsonView::empty().with("result"@, JsonView::Text(value)).with(
                            "variablesReference"@,
                            JsonView::Int(0),
                        ),
                    ),
                ),
            },
        },
    }
}

pub open spec fn on_configuration_done(b: BackendView, q: DapRequestView) -> Outcome {
    let said = b.grants(q, None);
    match b.session {
        None => said,
        Some(_) => Outcome { work: WorkView::Send { commands: seq![resume()] }, ..said },
    }
}

/// The session ends. Where there is one, the editor is told once the JVM has ended.
pub open spec fn on_disconnect(b: BackendView, q: DapRequestView) -> Outcome {
    match b.session {
        None => {
            let n = next(b.seq);
            b.says_both(
                ok_json(n, q.seq, q.command, None),
                event_json(next(n), "terminated"@, None),
            )
        },
        Some(_) => {
            let said = b.grants(q, None);
            Outcome {
                backend: BackendView { session: None, ..said.backend },
                work: WorkView::Stop,
                ..said
            }
        },
    }
}

pub open spec fn on_request(b: BackendView, q: DapRequestView) -> Outcome {
    if q.command == "initialize"@ {
        on_initialize(b, q)
    } else if q.command == "launch"@ {
        on_launch(b, q)
    } else if q.command == "configurationDone"@ {
        on_configuration_done(b, q)
    } else if q.command == "setBreakpoints"@ {
        on_set_breakpoints(b, q)
    } else if q.command == "continue"@ {
        on_continue(b, q)
    } else if q.command == "next"@ {
        on_step(b, q, STEP_DEPTH_OVER)
    } else if q.command == "stepIn"@ {
        on_step(b, q, STEP_DEPTH_INTO)
    } else if q.command == "stepOut"@ {
        on_step(b, q, STEP_DEPTH_OUT)
    } else if q.command == "threads"@ {
        on_threads(b, q)
    } else if q.command == "stackTrace"@ {
        on_stack_trace(b, q)
    } else if q.command == "scopes"@ {
        on_scopes(b, q)
    } else if q.command == "variables"@ {
        on_variables(b, q)
    } else if q.command == "evaluate"@ {
        on_evaluate(b, q)
    } else if q.command == "disconnect"@ {
        on_disconnect(b, q)
    } else {
        b.refuses(q, "unhandled command: "@ + q.command)
    }
}

/// A message that is no request, or not a whole one, leads to nothing.
pub open spec fn on_message(b: BackendView, msg: JsonView) -> Outcome {
    match request_of(msg) {
        Some(q) => if q.type_ == "request"@ {
            on_request(b, q)
        } else {
            Outcome { backend: b, messages: seq![], work: WorkView::Nothing }
        },
        None => Outcome { backend: b, messages: seq![], work: WorkView::Nothing },
    }
}

// ---------------------------------------------------------------------------
// Handling them
// ---------------------------------------------------------------------------

fn text_of_argument<'a>(req: &DapRequest<'a>, name: &str) -> (r: Option<&'a str>)
    ensures
        match text_argument(req@, name@) {
            None => r is None,
            Some(t) => r matches Some(s) && s@ == t,
        },
{
    match req.argument(name) {
        None => None,
        Some(v) => v.as_text(),
    }
}

fn number_of_argument(req: &DapRequest<'_>, name: &str) -> (r: Option<u64>)
    ensures
        r == number_argument(req@, name@),
{
    match req.argument(name) {
        None => None,
        Some(v) => v.as_unsigned(),
    }
}

fn read_lines(req: &DapRequest<'_>) -> (v: Vec<u32>)
    ensures
        v@ == requested_lines(req@),
{
    let mut v: Vec<u32> = Vec::new();
    let items = match req.argument("breakpoints") {
        None => {
            return v;
        },
        Some(j) => match j.as_items() {
            None => {
                return v;
            },
            Some(items) => items,
        },
    };
    let ghost all = items_view(items@);
    proof {
        lemma_items_view(items@);
    }
    let mut i: usize = 0;
    assert(all.take(0) =~= seq![]);
    while i < items.len()
        invariant
            i <= items@.len() == all.len(),
            all == items_view(items@),
            forall|k: int| 0 <= k < items@.len() ==> #[trigger] all[k] == items@[k]@,
            v@ == lines_of(all.take(i as int)),
        decreases items@.len() - i,
    {
        assert(all.take(i + 1).drop_last() =~= all.take(i as int));
        assert(all.take(i + 1).last() == items@[i as int]@);
        if let Some(line) = items[i].get("line") {
            if let Some(n) = line.as_unsigned() {
                v.push((n % 0x1_0000_0000) as u32);
            }
        }
        i += 1;
    }
    assert(all.take(i as int) =~= all);
    v
}

fn find_value<'a>(variables: &'a [SnapshotVariable], name: &str) -> (r: Option<&'a str>)
    ensures
        match value_of(views(variables@), name@) {
            None => r is None,
            Some(t) => r matches Some(s) && s@ == t,
        },
{
    let ghost all = views(variables@);
    let mut i: usize = 0;
    assert(all.skip(0) =~= all);
    while i < variables.len()
        invariant
            i <= variables@.len(),
            all == views(variables@),
            value_of(all, name@) == value_of(all.skip(i as int), name@),
        decreases variables@.len() - i,
    {
        assert(all.skip(i as int)[0] == variables@[i as int]@);
        assert(all.skip(i as int).drop_first() =~= all.skip(i + 1));
        if same_text(variables[i].name.as_str(), name) {
            return Some(variables[i].display_value.as_str());
        }
        i += 1;
    }
    None
}

/// A list with one message.
fn one(a: Json) -> (v: Vec<Json>)
    ensures
        items_view(v@) == seq![a@],
{
    let mut v: Vec<Json> = Vec::new();
    Json::push_item(&mut v, a);
    assert(items_view(v@) =~= seq![a@]);
    v
}

/// A list with two messages.
fn two(a: Json, b: Json) -> (v: Vec<Json>)
    ensures
        items_view(v@) == seq![a@, b@],
{
    let mut v: Vec<Json> = Vec::new();
    Json::push_item(&mut v, a);
    Json::push_item(&mut v, b);
    assert(items_view(v@) =~= seq![a@, b@]);
    v
}

/// A list without messages.
fn none() -> (v: Vec<Json>)
    ensures
        items_view(v@) == Seq::<JsonView>::empty(),
{
    Vec::new()
}

impl Backend {
    /// What always holds: the session's map of source files is sound.
    pub open spec fn wf(self) -> bool {
        self.session matches Some(s) ==> s.source_map.wf()
    }

    /// A server that has sent nothing, without a session.
    pub fn new() -> (b: Backend)
        ensures
            b@ == (BackendView { seq: 0, session: None }),
            b.wf(),
    {
        Backend { seq: 0, session: None }
    }

    pub(crate) fn next_seq(&mut self) -> (n: u64)
        ensures
            n == next(old(self)@.seq),
            final(self)@ == (BackendView { seq: next(old(self)@.seq), ..old(self)@ }),
            final(self).session == old(self).session,
    {
        self.seq = self.seq.wrapping_add(1);
        self.seq
    }

    fn grant(&mut self, req: &DapRequest<'_>, body: Option<Json>) -> (h: Handled)
        ensures
            done_as(
                final(self)@,
                h,
                old(self)@.grants(
                    req@,
                    match body {
                        None => None,
                        Some(b) => Some(b@),
                    },
                ),
            ),
            final(self).session == old(self).session,
    {
        let n = self.next_seq();
        Handled {
            messages: one(ok_message(n, req.seq, req.command.as_str(), body)),
            work: Work::Nothing,
        }
    }

    fn refuse(&mut self, req: &DapRequest<'_>, message: &str) -> (h: Handled)
        ensures
            done_as(final(self)@, h, old(self)@.refuses(req@, message@)),
            final(self).session == old(self).session,
    {
        let n = self.next_seq();
        Handled {
            messages: one(err_message(n, req.seq, req.command.as_str(), message)),
            work: Work::Nothing,
        }
    }

    fn snapshot(&self) -> (r: Option<&JvmSnapshot>)
        ensures
            match self@.snapshot() {
                None => r is None,
                Some(s) => r matches Some(x) && x@ == s,
            },
    {
        match &self.session {
            None => None,
            Some(s) => match &s.snapshot {
                None => None,
                Some(snap) => Some(snap),
            },
        }
    }

    fn handle_initialize(&mut self, req: &DapRequest<'_>) -> (h: Handled)
        ensures
            done_as(final(self)@, h, on_initialize(old(self)@, req@)),
            final(self).session == old(self).session,
    {
        let caps = Capabilities { supports_configuration_done_request: true };
        let n = self.next_seq();
        let response = ok_message(n, req.seq, "initialize", Some(caps.to_json()));
        let m = self.next_seq();
        let event = event_message(m, "initialized", None);
        Handled { messages: two(response, event), work: Work::Nothing }
    }

    fn handle_launch(&mut self, req: &DapRequest<'_>) -> (h: Handled)
        ensures
            done_as(final(self)@, h, on_launch(old(self)@, req@)),
            final(self).session == old(self).session,
    {
        let root = match text_of_argument(req, "projectRoot") {
            Some(root) => Some(root),
            None => text_of_argument(req, "projectDir"),
        };
        match root {
            None => {
                let n = self.next_seq();
                let response = err_message(
                    n,
                    req.seq,
                    "launch",
                    "launch requires 'projectRoot' argument",
                );
                let m = self.next_seq();
                let event = event_message(m, "terminated", None);
                Handled { messages: two(response, event), work: Work::Nothing }
            },
            Some(root) => {
                let main_class = match text_of_argument(req, "mainClass") {
                    None => None,
                    Some(s) => Some(owned(s)),
                };
                Handled {
                    messages: none(),
                    work: Work::Launch { root: owned(root), main_class, request: req.seq },
                }
            },
        }
    }

    fn handle_set_breakpoints(&mut self, req: &DapRequest<'_>) -> (h: Handled)
        requires
            old(self).wf(),
        ensures
            done_as(final(self)@, h, on_set_breakpoints(old(self)@, req@)),
            h.work matches Work::Install { installer, .. } ==> installer@.inv(),
            final(self).wf(),
    {
        let ghost before = self@;
        let source = match req.argument("source") {
            None => None,
            Some(source) => match source.get("path") {
                None => None,
                Some(path) => path.as_text(),
            },
        };
        let source = match source {
            None => {
                return self.refuse(req, "setBreakpoints requires 'source.path'");
            },
            Some(source) => source,
        };
        let lines = read_lines(req);
        match self.session.take() {
            None => {
                let body = unset_lines_body(lines.as_slice());
                self.grant(req, Some(body))
            },
            Some(s) => {
                let mut s = s;
                let old_requests = take_out(&mut s.breakpoints, source);
                let targets = put_in(
                    &mut s.breakpoints,
                    source,
                    lines.as_slice(),
                    &mut s.next_bp_id,
                );
                let mut class_names: Vec<String> = Vec::new();
                let classes = s.source_map.classes_for_source(source);
                let ghost want = texts(classes@);
                let mut i: usize = 0;
                assert(texts(class_names@) =~= want.take(0));
                while i < classes.len()
                    invariant
                        i <= classes@.len() == want.len(),
                        want == texts(classes@),
                        texts(class_names@) == want.take(i as int),
                    decreases classes@.len() - i,
                {
                    let ghost so_far = texts(class_names@);
                    class_names.push(classes[i].clone());
                    assert(texts(class_names@) =~= so_far.push(want[i as int]));
                    i += 1;
                    assert(texts(class_names@) =~= want.take(i as int));
                }
                assert(want.take(i as int) =~= want);
                let commands = clear_breakpoints(old_requests.as_slice());
                let installer = Installer::new(class_names, targets);
                self.session = Some(s);
                assert(self@ =~= on_set_breakpoints(before, req@).backend);
                Handled {
                    messages: none(),
                    work: Work::Install { before: commands, installer, request: req.seq },
                }
            },
        }
    }

    fn handle_continue(&mut self, req: &DapRequest<'_>) -> (h: Handled)
        requires
            old(self).wf(),
        ensures
            done_as(final(self)@, h, on_continue(old(self)@, req@)),
            final(self).wf(),
    {
        let ghost before = self@;
        let body = Json::object().with("allThreadsContinued", Json::Bool(true));
        let said = self.grant(req, Some(body));
        match self.session.take() {
            None => said,
            Some(s) => {
                let mut s = s;
                s.snapshot = None;
                let step = s.pending_step_request.take();
                self.session = Some(s);
                assert(self@ =~= on_continue(before, req@).backend);
                Handled {
                    messages: said.messages,
                    work: Work::Send { commands: and_resume(clear_step(step)) },
                }
            },
        }
    }

    fn handle_step_command(&mut self, req: &DapRequest<'_>, depth: u32) -> (h: Handled)
        requires
            old(self).wf(),
        ensures
            done_as(final(self)@, h, on_step(old(self)@, req@, depth)),
            final(self).wf(),
    {
        let ghost before = self@;
        let thread: u64 = match &self.session {
            None => {
                return self.refuse(req, "no active debug session");
            },
            Some(s) => match &s.snapshot {
                None => 0,
                Some(snap) => snap.stopped_thread_id,
            },
        };
        if thread == 0 {
            return self.refuse(req, "no stopped thread");
        }
        match self.session.take() {
            None => unreached(),
            Some(s) => {
                let mut s = s;
                s.snapshot = None;
                let step = s.pending_step_request.take();
                self.session = Some(s);
                assert(self@ =~= on_step(before, req@, depth).backend);
                Handled {
                    messages: none(),
                    work: Work::Step {
                        before: clear_step(step),
                        command: JdwpClient::event_request_set_step(thread, depth),
                        request: req.seq,
                        name: req.command.clone(),
                    },
                }
            },
        }
    }

    fn handle_threads(&mut self, req: &DapRequest<'_>) -> (h: Handled)
        ensures
            done_as(final(self)@, h, on_threads(old(self)@, req@)),
            final(self).session == old(self).session,
    {
        let body = match self.snapshot() {
            None => {
                let nothing: Vec<SnapshotThread> = Vec::new();
                assert(views(nothing@) =~= seq![]);
                threads_body(nothing.as_slice())
            },
            Some(snap) => threads_body(snap.threads.as_slice()),
        };
        self.grant(req, Some(body))
    }

    fn handle_stack_trace(&mut self, req: &DapRequest<'_>) -> (h: Handled)
        ensures
            done_as(final(self)@, h, on_stack_trace(old(self)@, req@)),
            final(self).session == old(self).session,
    {
        let id: u64 = match number_of_argument(req, "threadId") {
            None => 0,
            Some(n) => n,
        };
        let thread = match self.snapshot() {
            None => None,
            Some(snap) => snap.find_thread(id),
        };
        let body = match thread {
            None => {
                let nothing: Vec<SnapshotFrame> = Vec::new();
                assert(views(nothing@) =~= seq![]);
                frames_body(nothing.as_slice())
            },
            Some(t) => frames_body(t.frames.as_slice()),
        };
        self.grant(req, Some(body))
    }

    fn handle_scopes(&mut self, req: &DapRequest<'_>) -> (h: Handled)
        ensures
            done_as(final(self)@, h, on_scopes(old(self)@, req@)),
            final(self).session == old(self).session,
    {
        let id: u64 = match number_of_argument(req, "frameId") {
            None => 0,
            Some(n) => n,
        };
        let frame = match self.snapshot() {
            None => None,
            Some(snap) => snap.find_frame(id),
        };
        let body = scopes_body(frame);
        self.grant(req, Some(body))
    }

    fn handle_variables(&mut self, req: &DapRequest<'_>) -> (h: Handled)
        ensures
            done_as(final(self)@, h, on_variables(old(self)@, req@)),
            final(self).session == old(self).session,
    {
        let vars_ref: u32 = match number_of_argument(req, "variablesReference") {
            None => 0,
            Some(n) => (n % 0x1_0000_0000) as u32,
        };
        let frame = match self.snapshot() {
            None => None,
            Some(snap) => snap.find_frame_by_vars_ref(vars_ref),
        };
        let body = match frame {
            None => {
                let nothing: Vec<SnapshotVariable> = Vec::new();
                assert(views(nothing@) =~= seq![]);
                variables_body(nothing.as_slice())
            },
            Some(f) => variables_body(f.variables.as_slice()),
        };
        self.grant(req, Some(body))
    }

    fn handle_evaluate(&mut self, req: &DapRequest<'_>) -> (h: Handled)
        ensures
            done_as(final(self)@, h, on_evaluate(old(self)@, req@)),
            final(self).session == old(self).session,
    {
        let name = match text_of_argument(req, "expression") {
            None => {
                return self.refuse(req, "missing expression");
            },
            Some(name) => name,
        };
        let frame = match self.snapshot() {
            None => None,
            Some(snap) => match number_of_argument(req, "frameId") {
                Some(id) => snap.find_frame(id),
                None => match snap.find_thread(snap.stopped_thread_id) {
                    None => None,
                    Some(t) => if t.frames.len() > 0 {
                        assert(views(t.frames@)[0] == t.frames@[0]@);
                        Some(&t.frames[0])
                    } else {
                        None
                    },
                },
            },
        };
        let body = match frame {
            None => None,
            Some(f) => match find_value(f.variables.as_slice(), name) {
                None => None,
                Some(value) => Some(
                    Json::object().with("result", Json::from_text(value)).with(
                        "variablesReference",
                        Json::Unsigned(0),
                    ),
                ),
            },
        };
        match body {
            None => self.refuse(req, "not available"),
            Some(body) => self.grant(req, Some(body)),
        }
    }

    fn handle_configuration_done(&mut self, req: &DapRequest<'_>) -> (h: Handled)
        ensures
            done_as(final(self)@, h, on_configuration_done(old(self)@, req@)),
            final(self).session == old(self).session,
    {
        let said = self.grant(req, None);
        if self.session.is_none() {
            return said;
        }
        let commands = and_resume(Vec::new());
        assert(views(commands@) =~= seq![resume()]);
        Handled { messages: said.messages, work: Work::Send { commands } }
    }

    fn handle_disconnect(&mut self, req: &DapRequest<'_>) -> (h: Handled)
        ensures
            done_as(final(self)@, h, on_disconnect(old(self)@, req@)),
            final(self).wf(),
    {
        let ghost before = self@;
        let n = self.next_seq();
        let response = ok_message(n, req.seq, req.command.as_str(), None);
        match self.session.take() {
            None => {
                let m = self.next_seq();
                let event = event_message(m, "terminated", None);
                Handled { messages: two(response, event), work: Work::Nothing }
            },
            Some(_) => {
                assert(self@ =~= on_disconnect(before, req@).backend);
                Handled { messages: one(response), work: Work::Stop }
            },
        }
    }

    fn handle_request(&mut self, req: &DapRequest<'_>) -> (h: Handled)
        requires
            old(self).wf(),
        ensures
            done_as(final(self)@, h, on_request(old(self)@, req@)),
            h.work matches Work::Install { installer, .. } ==> installer@.inv(),
            final(self).wf(),
    {
        let command = req.command.as_str();
        if same_text(command, "initialize") {
            self.handle_initialize(req)
        } else if same_text(command, "launch") {
            self.handle_launch(req)
        } else if same_text(command, "configurationDone") {
            self.handle_configuration_done(req)
        } else if same_text(command, "setBreakpoints") {
            self.handle_set_breakpoints(req)
        } else if same_text(command, "continue") {
            self.handle_continue(req)
        } else if same_text(command, "next") {
            self.handle_step_command(req, STEP_DEPTH_OVER)
        } else if same_text(command, "stepIn") {
            self.handle_step_command(req, STEP_DEPTH_INTO)
        } else if same_text(command, "stepOut") {
            self.handle_step_command(req, STEP_DEPTH_OUT)
        } else if same_text(command, "threads") {
            self.handle_threads(req)
        } else if same_text(command, "stackTrace") {
            self.handle_stack_trace(req)
        } else if same_text(command, "scopes") {
            self.handle_scopes(req)
        } else if same_text(command, "variables") {
            self.handle_variables(req)
        } else if same_text(command, "evaluate") {
            self.handle_evaluate(req)
        } else if same_text(command, "disconnect") {
            self.handle_disconnect(req)
        } else {
            let mut message = owned("unhandled command: ");
            append(&mut message, command);
            self.refuse(req, message.as_str())
        }
    }

    /// Handles a message of the editor.
    pub fn handle_message(&mut self, msg: &Json) -> (h: Handled)
        requires
            old(self).wf(),
        ensures
            done_as(final(self)@, h, on_message(old(self)@, msg@)),
            h.work matches Work::Install { installer, .. } ==> installer@.inv(),
            final(self).wf(),
    {
        match DapRequest::read(msg) {
            Some(req) => if same_text(req.type_.as_str(), "request") {
                self.handle_request(&req)
            } else {
                Handled { messages: none(), work: Work::Nothing }
            },
            None => Handled { messages: none(), work: Work::Nothing },
        }
    }
}

} // verus!
