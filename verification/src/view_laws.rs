//! That values stand for what they hold: all of it, and nothing else.

use vstd::prelude::*;
use crate::build_tools::{
    paths_are, run_is, BuildResult, ToolError, ToolErrorView, ToolRun, ToolRunView,
};
use crate::jdwp::client::Command;
use crate::jdwp::event::{JdwpEvent, JdwpEventView};
use crate::jdwp::read::{read_is, JdwpError};
use crate::jdwp::{ClassInfo, FrameInfo, LineTable, MethodInfo, ThreadId, VariableInfo};
use crate::json::items_view;
use crate::list::views;
use crate::main_class::MainClass;
use crate::server::backend::{done_as, Backend, BackendView, Outcome};
use crate::server::breakpoints::{class_requests, BpState, BpStateView, BreakpointEntry};
use crate::server::events::{EventWork, EventWorkView};
use crate::server::gather::{need_is, Need, NeedView};
use crate::server::installer::{outcomes, Placement};
use crate::server::reply_view;
use crate::server::session::{DebugSession, Handled, Work, WorkView};
use crate::server::snapshot::{JvmSnapshot, SnapshotFrame, SnapshotThread, SnapshotVariable};
use crate::text::{has_text, rows, texts};

verus! {

/// A list stands for its items: as many, each for itself, in their order.
pub proof fn law_lists_stand_for_their_items<T: View>(
    items: Seq<T>,
    strings: Seq<String>,
    lists: Seq<Vec<char>>,
    pairs: Seq<(String, u32)>,
    placements: Seq<Option<Placement>>,
    s: Seq<char>,
    i: int,
)
    ensures
        views(items).len() == items.len(),
        0 <= i < items.len() ==> views(items)[i] == items[i]@,
        texts(strings).len() == strings.len(),
        0 <= i < strings.len() ==> texts(strings)[i] == strings[i]@,
        rows(lists).len() == lists.len(),
        0 <= i < lists.len() ==> rows(lists)[i] == lists[i]@,
        class_requests(pairs).len() == pairs.len(),
        0 <= i < pairs.len() ==> class_requests(pairs)[i].0 == pairs[i].0@ && class_requests(
            pairs,
        )[i].1 == pairs[i].1,
        outcomes(placements).len() == placements.len(),
        0 <= i < placements.len() ==> (outcomes(placements)[i] is Some <==> placements[i] is Some),
        0 <= i < placements.len() && placements[i] is Some ==> outcomes(placements)[i]
            == Some(placements[i]->0@),
        has_text(strings, s) <==> exists|k: int|
            0 <= k < strings.len() && (#[trigger] strings[k])@ == s,
{
}

/// What is said of a result is said of all of it: where it is as wanted, it is wholly so.
pub proof fn law_results_are_wholly_as_wanted(
    b: BackendView,
    h: Handled,
    o: Outcome,
    run: Option<ToolRun>,
    want_run: Option<ToolRunView>,
    listed: Result<Vec<String>, ToolError>,
    want_paths: Result<Seq<Seq<char>>, ToolErrorView>,
    need: Option<Need>,
    want_need: Option<NeedView>,
)
    ensures
        done_as(b, h, o) ==> b == o.backend && items_view(h.messages@) == o.messages && h.work@
            == o.work,
        run_is(run, want_run) ==> (run is Some <==> want_run is Some),
        run_is(run, want_run) && run is Some ==> run->0@ == want_run->0,
        paths_are(listed, want_paths) ==> (listed is Ok <==> want_paths is Ok),
        paths_are(listed, want_paths) && listed is Ok ==> texts(listed->Ok_0@) == want_paths->Ok_0,
        paths_are(listed, want_paths) && listed is Err ==> listed->Err_0@ == want_paths->Err_0,
        need_is(need, want_need) ==> (need is Some <==> want_need is Some),
        need_is(need, want_need) && need is Some ==> need->0@ == want_need->0,
{
}

/// A reading that succeeds gives the value and goes on behind it; one that fails gives the error
/// and stays where it is.
pub proof fn law_readings_give_the_value_or_the_error(
    r: Result<u32, JdwpError>,
    before: usize,
    after: usize,
    v: u32,
    q: int,
    e: JdwpError,
    reply: Result<Vec<u8>, JdwpError>,
)
    ensures
        read_is(r, before, after, Ok((v, q))) ==> r == Ok::<u32, JdwpError>(v) && after == q,
        read_is(r, before, after, Err(e)) ==> r == Err::<u32, JdwpError>(e) && after == before,
        reply is Ok ==> reply_view(reply) == Ok::<Seq<u8>, JdwpError>(reply->Ok_0@),
        reply is Err ==> reply_view(reply) == Err::<Seq<u8>, JdwpError>(reply->Err_0),
{
}

/// What the JVM says is held as it was said.
pub proof fn law_what_the_jvm_says_is_held(
    c: ClassInfo,
    m: MethodInfo,
    t: LineTable,
    v: VariableInfo,
    f: FrameInfo,
    thread: ThreadId,
    command: Command,
    e: JdwpEvent,
)
    ensures
        c@.ref_type_tag == c.ref_type_tag && c@.ref_type_id == c.ref_type_id && c@.signature
            == c.signature@ && c@.status == c.status,
        m@.method_id == m.method_id && m@.name == m.name@ && m@.signature == m.signature@
            && m@.mod_bits == m.mod_bits,
        t@.start == t.start && t@.end == t.end && t@.lines == t.lines@,
        v@.code_index == v.code_index && v@.name == v.name@ && v@.signature == v.signature@
            && v@.length == v.length && v@.slot == v.slot,
        f@ == f,
        thread@ == thread.id,
        command@.set == command.set && command@.cmd == command.cmd && command@.data
            == command.data@,
        match e {
            JdwpEvent::ClassPrepare(x) => e@ is ClassPrepare && e@->ClassPrepare_0.request_id
                == x.request_id && e@->ClassPrepare_0.thread_id == x.thread_id
                && e@->ClassPrepare_0.ref_type_tag == x.ref_type_tag
                && e@->ClassPrepare_0.ref_type_id == x.ref_type_id
                && e@->ClassPrepare_0.signature == x.signature@ && e@->ClassPrepare_0.status
                == x.status,
            JdwpEvent::Breakpoint(x) => e@ == JdwpEventView::Breakpoint(x),
            JdwpEvent::Step(x) => e@ == JdwpEventView::Step(x),
            JdwpEvent::ExceptionUncaught(x) => e@ == JdwpEventView::ExceptionUncaught(x),
            JdwpEvent::VmDeath => e@ is VmDeath,
        },
{
}

/// A snapshot stands for all that it shows.
pub proof fn law_snapshots_stand_for_what_they_show(
    s: JvmSnapshot,
    t: SnapshotThread,
    f: SnapshotFrame,
    v: SnapshotVariable,
)
    ensures
        s@.stopped_thread_id == s.stopped_thread_id && s@.threads == views(s.threads@),
        t@.id == t.id && t@.name == t.name@ && t@.frames == views(t.frames@),
        f@.frame_id == f.frame_id && f@.class_name == f.class_name@ && f@.method_name
            == f.method_name@ && f@.line == f.line && f@.variables_ref == f.variables_ref
            && f@.variables == views(f.variables@),
        f.source_path is Some <==> f@.source_path is Some,
        f.source_path is Some ==> f@.source_path->0 == f.source_path->0@,
        v@.name == v.name@ && v@.display_value == v.display_value@,
{
}

/// The server stands for its session, and the session for all that it holds.
pub proof fn law_the_session_stands_for_what_it_holds(
    b: Backend,
    s: DebugSession,
    e: BreakpointEntry,
    p: Placement,
)
    ensures
        b@.seq == b.seq,
        b.session is Some <==> b@.session is Some,
        b.session is Some ==> b@.session->0 == b.session->0@,
        s@.log == s.source_map@,
        s@.breakpoints == views(s.breakpoints@),
        s@.next_bp_id == s.next_bp_id,
        s.snapshot is Some <==> s@.snapshot is Some,
        s.snapshot is Some ==> s@.snapshot->0 == s.snapshot->0@,
        s@.pending_step_request == s.pending_step_request,
        s.pending_exception_class is Some <==> s@.pending_exception_class is Some,
        s.pending_exception_class is Some ==> s@.pending_exception_class->0
            == s.pending_exception_class->0@,
        e@.id == e.id && e@.source_path == e.source_path@ && e@.requested_line == e.requested_line
            && e@.state == e.state@,
        match e.state {
            BpState::Pending => e.state@ is Pending,
            BpState::Installed { classes, installed_line } => e.state@ == (BpStateView::Installed {
                classes: class_requests(classes@),
                installed_line,
            }),
            BpState::Rejected => e.state@ is Rejected,
        },
        p@.line == p.line && p@.classes == class_requests(p.classes@),
{
}

/// Work stands for what is to be done, with all its commands.
pub proof fn law_work_stands_for_what_is_to_be_done(w: Work, x: EventWork)
    ensures
        match w {
            Work::Nothing => w@ is Nothing,
            Work::Launch { root, main_class, request } => w@ is Launch && w@->Launch_root == root@
                && w@->Launch_request == request && (main_class is Some
                <==> w@->Launch_main_class is Some) && (main_class is Some
                ==> w@->Launch_main_class->0 == main_class->0@),
            Work::Send { commands } => w@ == (WorkView::Send { commands: views(commands@) }),
            Work::Step { before, command, request, name } => w@ == (WorkView::Step {
                before: views(before@),
                command: command@,
                request,
                name: name@,
            }),
            Work::Install { before, installer, request } => w@ == (WorkView::Install {
                before: views(before@),
                installer: installer@,
                request,
            }),
            Work::Stop => w@ is Stop,
        },
        match x {
            EventWork::Nothing => x@ is Nothing,
            EventWork::Ended => x@ is Ended,
            EventWork::Send { commands } => x@ == (EventWorkView::Send {
                commands: views(commands@),
            }),
            EventWork::Exception { query } => x@ == (EventWorkView::Exception { query: query@ }),
            EventWork::Prepare { preparation } => x@ == (EventWorkView::Prepare {
                preparation: preparation@,
            }),
            EventWork::Stopped { before, builder, thread_id, reason } => x@ == (
            EventWorkView::Stopped { before: views(before@), builder: builder@, thread_id, reason }),
        },
{
}

/// What a build tool runs and gives back, and a main class that is found, stand for what they hold.
pub proof fn law_tools_and_main_classes_stand_for_what_they_hold(
    r: BuildResult,
    t: ToolRun,
    e: ToolError,
    m: MainClass,
)
    ensures
        r@.success == r.success && r@.errors == texts(r.errors@),
        t@.program == t.program@ && t@.dir == t.dir@ && t@.args == texts(t.args@),
        t.script is Some <==> t@.script is Some,
        t.script is Some ==> t@.script->0.path == t.script->0.path@ && t@.script->0.text
            == t.script->0.text@,
        match e {
            ToolError::Failed(s) => e@ == ToolErrorView::Failed(s@),
            ToolError::NotUtf8(s) => e@ == ToolErrorView::NotUtf8(s@),
        },
        m@.fully_qualified_name == m.fully_qualified_name@ && m@.source_file == m.source_file@,
{
}

} // verus!
