//! What holds of the server as a whole.

use vstd::prelude::*;
use crate::jdwp::event::{JdwpEventView, StepEvent};
use crate::jdwp::Location;
use crate::json::{JsonView, MAX_DEPTH};
use crate::path::same_path;
use crate::server::backend::{
    evaluation_frame, frame_asked, frames_asked, next, number_argument, on_message, on_request,
    on_step, requested_lines, text_argument, value_of, variables_asked, BackendView,
};
use crate::server::breakpoints::{
    elsewhere, index_of_id, law_other_sources_keep_their_breakpoints, pending_at, BpStateView,
    BreakpointView, Target,
};
use crate::server::events::{extended, news, on_event, termination_cause, with_exception};
use crate::server::installer::{planned, PlacementView, Planned};
use crate::server::lines::nearest;
use crate::server::messages::{
    breakpoint_changed_json, breakpoint_json, breakpoints_json, err_json, event_json, frame_json,
    frames_json, ok_json, outcome_json, scope_json, scopes_json, thread_json, threads_json,
    unset_line_json, unset_lines_json, variable_json, variables_json,
};
use crate::server::session::{resume, step_cleared, SessionView, WorkView};
use crate::server::snapshot::{
    all_frames, frame_with_id, frame_with_ref, FrameView, ThreadView, VariableView,
};
use crate::server::snapshot_builder::{
    frame_count, law_variable_numbers_are_unique, snapshot_of, BuilderView,
};
use crate::source_map::Log;
use crate::types::{request_of, Capabilities, DapRequestView};

verus! {

// ---------------------------------------------------------------------------
// Answers
// ---------------------------------------------------------------------------

/// Whether a message is the answer to a request.
pub open spec fn is_answer_to(message: JsonView, q: DapRequestView) -> bool {
    &&& message.member("type"@) == Some(JsonView::Text("response"@))
    &&& message.member("requestSeq"@) == Some(JsonView::Int(q.seq as int))
    &&& message.member("command"@) == Some(JsonView::Text(q.command))
}

/// Whether the answer to a request is given when its work is done.
pub open spec fn is_answered_later(work: WorkView, q: DapRequestView) -> bool {
    match work {
        WorkView::Launch { request, .. } => request == q.seq && q.command == "launch"@,
        WorkView::Step { request, name, .. } => request == q.seq && name == q.command,
        WorkView::Install { request, .. } => request == q.seq && q.command == "setBreakpoints"@,
        _ => false,
    }
}

proof fn lemma_names_differ()
    ensures
        "seq"@ != "type"@,
        "seq"@ != "requestSeq"@,
        "seq"@ != "success"@,
        "seq"@ != "command"@,
        "seq"@ != "body"@,
        "seq"@ != "message"@,
        "seq"@ != "event"@,
        "type"@ != "requestSeq"@,
        "type"@ != "success"@,
        "type"@ != "command"@,
        "type"@ != "body"@,
        "type"@ != "message"@,
        "requestSeq"@ != "success"@,
        "requestSeq"@ != "command"@,
        "requestSeq"@ != "body"@,
        "requestSeq"@ != "message"@,
        "success"@ != "command"@,
        "success"@ != "body"@,
        "success"@ != "message"@,
        "command"@ != "body"@,
        "command"@ != "message"@,
        "body"@ != "message"@,
{
    reveal_strlit("seq");
    reveal_strlit("type");
    reveal_strlit("requestSeq");
    reveal_strlit("success");
    reveal_strlit("command");
    reveal_strlit("body");
    reveal_strlit("message");
    reveal_strlit("event");
    assert("seq"@[0] == 's');
    assert("type"@[0] == 't');
    assert("body"@[0] == 'b');
    assert("event"@[0] == 'e');
    assert("success"@.len() == 7 && "command"@.len() == 7 && "message"@.len() == 7);
    assert("success"@[0] == 's' && "command"@[0] == 'c' && "message"@[0] == 'm');
    assert("requestSeq"@.len() == 10);
    assert("type"@.len() == 4 && "body"@.len() == 4 && "seq"@.len() == 3 && "event"@.len() == 5);
}

/// A granted or refused request is answered under its number and its command, and says which of
/// both it is.
pub proof fn law_answers_name_their_request(
    seq: u64,
    q: DapRequestView,
    body: Option<JsonView>,
    message: Seq<char>,
)
    ensures
        is_answer_to(ok_json(seq, q.seq, q.command, body), q),
        is_answer_to(err_json(seq, q.seq, q.command, message), q),
        ok_json(seq, q.seq, q.command, body).member("success"@) == Some(JsonView::Bool(true)),
        err_json(seq, q.seq, q.command, message).member("success"@) == Some(JsonView::Bool(false)),
        ok_json(seq, q.seq, q.command, body).member("seq"@) == Some(JsonView::Int(seq as int)),
        err_json(seq, q.seq, q.command, message).member("seq"@) == Some(JsonView::Int(seq as int)),
{
    lemma_names_differ();
}

proof fn lemma_event(seq: u64, event: Seq<char>, body: Option<JsonView>)
    ensures
        event_json(seq, event, body).member("seq"@) == Some(JsonView::Int(seq as int)),
{
    lemma_names_differ();
}

/// Every request is answered: the first message answers it, or its answer is given when its work
/// is done.
pub proof fn law_every_request_is_answered(b: BackendView, q: DapRequestView)
    ensures
        ({
            let o = on_request(b, q);
            ||| o.messages.len() > 0 && is_answer_to(o.messages[0], q)
            ||| is_answered_later(o.work, q)
        }),
{
    let o = on_request(b, q);
    let m = o.messages[0];
    lemma_names_differ();
    if o.messages.len() > 0 {
        assert(is_answer_to(m, q));
    }
}

/// A command that is not known is refused, with its name, and nothing else happens.
pub proof fn law_unknown_command_is_refused(b: BackendView, q: DapRequestView)
    requires
        q.command != "initialize"@,
        q.command != "launch"@,
        q.command != "configurationDone"@,
        q.command != "setBreakpoints"@,
        q.command != "continue"@,
        q.command != "next"@,
        q.command != "stepIn"@,
        q.command != "stepOut"@,
        q.command != "threads"@,
        q.command != "stackTrace"@,
        q.command != "scopes"@,
        q.command != "variables"@,
        q.command != "evaluate"@,
        q.command != "disconnect"@,
    ensures
        on_request(b, q).messages == seq![
            err_json(next(b.seq), q.seq, q.command, "unhandled command: "@ + q.command),
        ],
        on_request(b, q).messages[0].member("success"@) == Some(JsonView::Bool(false)),
        on_request(b, q).backend.session == b.session,
        on_request(b, q).work is Nothing,
{
    law_answers_name_their_request(next(b.seq), q, None, "unhandled command: "@ + q.command);
}

/// The messages of the server are numbered one after the other, as long as there are numbers
/// left.
pub proof fn law_messages_are_numbered(b: BackendView, q: DapRequestView, i: int)
    requires
        b.seq + on_request(b, q).messages.len() <= u64::MAX,
        0 <= i < on_request(b, q).messages.len(),
    ensures
        on_request(b, q).messages[i].member("seq"@) == Some(JsonView::Int(b.seq + 1 + i)),
        on_request(b, q).backend.seq == b.seq + on_request(b, q).messages.len(),
{
    lemma_names_differ();
}

/// Without a session nothing is asked of a JVM.
pub proof fn law_no_session_no_commands(b: BackendView, q: DapRequestView)
    requires
        b.session is None,
    ensures
        on_request(b, q).work is Nothing || on_request(b, q).work is Launch,
        on_request(b, q).backend.session is None,
{
}

/// Only what goes on, sets breakpoints or ends it changes the session: to look at threads,
/// frames and variables does not.
pub proof fn law_looking_changes_nothing(b: BackendView, q: DapRequestView)
    requires
        q.command == "threads"@ || q.command == "stackTrace"@ || q.command == "scopes"@ || q.command
            == "variables"@ || q.command == "evaluate"@,
    ensures
        on_request(b, q).backend.session == b.session,
        on_request(b, q).work is Nothing,
        on_request(b, q).messages.len() == 1,
{
    reveal_strlit("threads");
    reveal_strlit("stackTrace");
    reveal_strlit("scopes");
    reveal_strlit("variables");
    reveal_strlit("evaluate");
    reveal_strlit("initialize");
    reveal_strlit("launch");
    reveal_strlit("configurationDone");
    reveal_strlit("setBreakpoints");
    reveal_strlit("continue");
    reveal_strlit("next");
    reveal_strlit("stepIn");
    reveal_strlit("stepOut");
    assert(q.command[0] == 't' || q.command[0] == 's' || q.command[0] == 'v' || q.command[0] == 'e');
    assert("setBreakpoints"@[1] == 'e');
    assert("stepIn"@.len() == 6 && "stepIn"@[1] == 't');
    assert("stepOut"@.len() == 7 && "stepOut"@[1] == 't');
    assert("scopes"@[1] == 'c' && "stackTrace"@.len() == 10);
    assert("stackTrace"@[1] == 't');
}

/// Once the JVM is to run, nothing of what it showed is left, and no step is under way any more;
/// and if a step was, the JVM is told to end it before it runs.
pub proof fn law_resuming_forgets(b: BackendView, q: DapRequestView, s: SessionView)
    requires
        b.session == Some(s),
        on_request(b, q).work is Step || (on_request(b, q).work matches WorkView::Send { commands }
            && q.command == "continue"@),
    ensures
        on_request(b, q).backend.session == Some(s.resumed()),
        on_request(b, q).backend.snapshot() is None,
        match on_request(b, q).work {
            WorkView::Step { before, .. } => before == step_cleared(s.pending_step_request),
            WorkView::Send { commands } => commands == step_cleared(s.pending_step_request).push(
                resume(),
            ),
            _ => false,
        },
{
    reveal_strlit("continue");
    reveal_strlit("configurationDone");
    reveal_strlit("initialize");
    reveal_strlit("launch");
    reveal_strlit("setBreakpoints");
    assert("continue"@.len() == 8);
    assert("configurationDone"@.len() == 17);
    assert("initialize"@.len() == 10);
    assert("launch"@.len() == 6);
    assert("setBreakpoints"@.len() == 14);
}

/// A step that is refused for want of a stopped thread leaves everything as it is.
pub proof fn law_step_needs_a_stopped_thread(b: BackendView, q: DapRequestView, depth: u32)
    requires
        b.snapshot() is None,
    ensures
        on_step(b, q, depth).work is Nothing,
        on_step(b, q, depth).backend.session == b.session,
        on_step(b, q, depth).messages.len() == 1,
        on_step(b, q, depth).messages[0].member("success"@) == Some(
            JsonView::Bool(false),
        ),
{
    law_answers_name_their_request(next(b.seq), q, None, "no active debug session"@);
    law_answers_name_their_request(next(b.seq), q, None, "no stopped thread"@);
}

/// Once the breakpoints of a source file are asked for, it has just those, and none of them is
/// set yet.
pub proof fn law_breakpoints_are_replaced(
    all: Seq<BreakpointView>,
    source: Seq<char>,
    targets: Seq<Target>,
    b: BreakpointView,
)
    requires
        (elsewhere(all, source) + pending_at(source, targets)).contains(b),
        same_path(b.source_path, source),
    ensures
        pending_at(source, targets).contains(b),
        b.state is Pending,
{
    let kept = elsewhere(all, source);
    let added = pending_at(source, targets);
    let i = choose|i: int| 0 <= i < (kept + added).len() && (kept + added)[i] == b;
    if i < kept.len() {
        assert(kept[i] == b);
        law_other_sources_keep_their_breakpoints(all, source, b);
        assert(false);
    } else {
        assert(added[i - kept.len()] == b);
    }
}

/// The first exception whose class is known decides why the JVM has ended.
pub proof fn law_first_exception_counts(
    s: SessionView,
    first: Seq<char>,
    later: Option<Seq<char>>,
)
    requires
        s.pending_exception_class is None,
    ensures
        with_exception(with_exception(s, Some(first)), later) == with_exception(s, Some(first)),
        with_exception(s, Some(first)).pending_exception_class == Some(first),
{
}

/// The end of the JVM is told in one of three ways, and without an exception it is a clean exit.
pub proof fn law_termination_causes(exception_class: Option<Seq<char>>)
    ensures
        termination_cause(exception_class) == "clean_exit"@ || termination_cause(exception_class)
            == "out_of_memory"@ || termination_cause(exception_class) == "uncaught_exception"@,
        termination_cause(exception_class) == "clean_exit"@ <==> exception_class is None,
{
    reveal_strlit("clean_exit");
    reveal_strlit("out_of_memory");
    reveal_strlit("uncaught_exception");
    assert("clean_exit"@.len() == 10);
    assert("out_of_memory"@.len() == 13);
    assert("uncaught_exception"@.len() == 18);
}

/// After a step has come to its end, another event finds no step under way.
pub proof fn law_finished_step_is_forgotten(b: BackendView, e: StepEvent)
    ensures
        on_event(b, JdwpEventView::Step(e)).0.session matches Some(s)
            ==> s.pending_step_request is None,
{
}

// ---------------------------------------------------------------------------
// Breakpoints that are set once their class is loaded
// ---------------------------------------------------------------------------

proof fn lemma_index_of_id_in(all: Seq<BreakpointView>, id: u32)
    ensures
        0 <= index_of_id(all, id) <= all.len(),
        index_of_id(all, id) < all.len() ==> all[index_of_id(all, id)].id == id,
    decreases all.len(),
{
    if all.len() > 0 && all[0].id != id {
        lemma_index_of_id_in(all.drop_first(), id);
    }
}

/// Breakpoints with the same numbers are found at the same places.
proof fn lemma_same_ids(a: Seq<BreakpointView>, b: Seq<BreakpointView>, id: u32)
    requires
        a.len() == b.len(),
        forall|i: int| 0 <= i < a.len() ==> (#[trigger] a[i]).id == (#[trigger] b[i]).id,
    ensures
        index_of_id(a, id) == index_of_id(b, id),
    decreases a.len(),
{
    if a.len() > 0 {
        assert(a[0].id == b[0].id);
        if a[0].id != id {
            let x = a.drop_first();
            let y = b.drop_first();
            assert forall|i: int| 0 <= i < x.len() implies (#[trigger] x[i]).id == (
            #[trigger] y[i]).id by {
                assert(x[i] == a[i + 1] && y[i] == b[i + 1]);
            }
            lemma_same_ids(x, y, id);
        }
    }
}

/// To deal with planned breakpoints changes no number, and no state but that of a breakpoint that
/// is planned.
proof fn lemma_extended(
    all: Seq<BreakpointView>,
    plan: Seq<Planned>,
    requests: Seq<Option<u32>>,
    class: Seq<char>,
    first: bool,
    n: nat,
    j: int,
)
    requires
        n <= plan.len() == requests.len(),
        0 <= j < all.len(),
    ensures
        ({
            let after = extended(all, plan, requests, class, first, n);
            &&& after.len() == all.len()
            &&& forall|i: int|
                0 <= i < all.len() ==> (#[trigger] after[i]).id == (#[trigger] all[i]).id
            &&& (forall|k: int|
                0 <= k < n ==> (#[trigger] plan[k]).id != all[j].id || requests[k] is None
                    || plan[k].first != first) ==> after[j] == all[j]
        }),
    decreases n,
{
    if n > 0 {
        let m = (n - 1) as nat;
        lemma_extended(all, plan, requests, class, first, m, j);
        let before = extended(all, plan, requests, class, first, m);
        let p = plan[m as int];
        lemma_index_of_id_in(before, p.id);
        let after = extended(all, plan, requests, class, first, n);
        assert forall|i: int| 0 <= i < all.len() implies (#[trigger] after[i]).id == (
        #[trigger] all[i]).id by {
            assert(before[i].id == all[i].id);
        }
        assert(before[j].id == all[j].id);
    }
}

/// What setting the planned breakpoint `k` comes to, where no other breakpoint that is planned has
/// its number.
proof fn lemma_extended_at(
    all: Seq<BreakpointView>,
    plan: Seq<Planned>,
    requests: Seq<Option<u32>>,
    class: Seq<char>,
    k: int,
    n: nat,
)
    requires
        0 <= k < n <= plan.len() == requests.len(),
        plan[k].first,
        requests[k] is Some,
        index_of_id(all, plan[k].id) < all.len(),
        forall|i: int| 0 <= i < plan.len() && i != k ==> (#[trigger] plan[i]).id != plan[k].id,
    ensures
        extended(all, plan, requests, class, true, n)[index_of_id(all, plan[k].id)].state
            == (BpStateView::Installed {
            classes: seq![(class, requests[k]->0)],
            installed_line: plan[k].line,
        }),
    decreases n,
{
    let j = index_of_id(all, plan[k].id);
    let m = (n - 1) as nat;
    lemma_index_of_id_in(all, plan[k].id);
    lemma_extended(all, plan, requests, class, true, m, j);
    let before = extended(all, plan, requests, class, true, m);
    if n == k + 1 {
        lemma_same_ids(before, all, plan[k].id);
    } else {
        lemma_extended_at(all, plan, requests, class, k, m);
        let p = plan[m as int];
        lemma_index_of_id_in(before, p.id);
        assert(before[j].id == all[j].id);
        assert(p.id != plan[k].id);
    }
}

proof fn lemma_news(
    plan: Seq<Planned>,
    requests: Seq<Option<u32>>,
    seq: u64,
    k: int,
    n: nat,
) -> (at: int)
    requires
        0 <= k < n <= plan.len() == requests.len(),
        plan[k].first,
        requests[k] is Some,
    ensures
        0 <= at < news(plan, requests, seq, n).0.len(),
        news(plan, requests, seq, n).0[at].member("body"@) == Some(
            breakpoint_changed_json(plan[k].id, plan[k].line),
        ),
    decreases n,
{
    lemma_names_differ();
    let m = (n - 1) as nat;
    let told = news(plan, requests, seq, m).0;
    if n == k + 1 {
        told.len() as int
    } else {
        let at = lemma_news(plan, requests, seq, k, m);
        assert(news(plan, requests, seq, n).0[at] == told[at]);
        at
    }
}

/// A breakpoint that waits for its class is set when the class is loaded and the JVM grants it: it
/// is then set in just that class, and the editor is told its line. Its number must be its own.
pub proof fn law_deferred_breakpoint_is_set(
    all: Seq<BreakpointView>,
    plan: Seq<Planned>,
    requests: Seq<Option<u32>>,
    class: Seq<char>,
    seq: u64,
    k: int,
)
    requires
        0 <= k < plan.len() == requests.len(),
        plan[k].first,
        requests[k] is Some,
        index_of_id(all, plan[k].id) < all.len(),
        forall|i: int| 0 <= i < plan.len() && i != k ==> (#[trigger] plan[i]).id != plan[k].id,
    ensures
        ({
            let first = extended(all, plan, requests, class, true, plan.len());
            let after = extended(first, plan, requests, class, false, plan.len());
            &&& after[index_of_id(all, plan[k].id)] == (BreakpointView {
                state: BpStateView::Installed {
                    classes: seq![(class, requests[k]->0)],
                    installed_line: plan[k].line,
                },
                ..first[index_of_id(all, plan[k].id)]
            })
            &&& after[index_of_id(all, plan[k].id)].id == plan[k].id
        }),
        exists|at: int|
            0 <= at < news(plan, requests, seq, plan.len()).0.len() && (#[trigger] news(
                plan,
                requests,
                seq,
                plan.len(),
            ).0[at]).member("body"@) == Some(breakpoint_changed_json(plan[k].id, plan[k].line)),
{
    let j = index_of_id(all, plan[k].id);
    lemma_index_of_id_in(all, plan[k].id);
    lemma_extended_at(all, plan, requests, class, k, plan.len());
    lemma_extended(all, plan, requests, class, true, plan.len(), j);
    let first = extended(all, plan, requests, class, true, plan.len());
    assert(first[j].id == all[j].id);
    lemma_extended(first, plan, requests, class, false, plan.len(), j);
    let after = extended(first, plan, requests, class, false, plan.len());
    assert(after[j] == first[j]);
    let at = lemma_news(plan, requests, seq, k, plan.len());
    assert(news(plan, requests, seq, plan.len()).0[at].member("body"@) is Some);
}

/// A breakpoint that waits for its class is planned where the class has a line near enough, at the
/// nearest such line; and one that has none there goes on waiting.
pub proof fn law_planned_where_a_line_is_near(
    targets: Seq<Target>,
    lines: Seq<(u32, Location)>,
    first: bool,
    p: Planned,
)
    ensures
        planned(targets, lines, first).contains(p) <==> p.first == first && exists|i: int|
            0 <= i < targets.len() && (#[trigger] targets[i]).id == p.id && nearest(
                lines,
                targets[i].line,
            ) == Some((p.line, p.location)),
    decreases targets.len(),
{
    if targets.len() > 0 {
        let less = targets.drop_last();
        let t = targets.last();
        law_planned_where_a_line_is_near(less, lines, first, p);
        let before = planned(less, lines, first);
        let after = planned(targets, lines, first);
        assert forall|i: int| 0 <= i < less.len() implies (#[trigger] less[i]) == targets[i] by {}
        if after.contains(p) {
            let n = choose|n: int| 0 <= n < after.len() && after[n] == p;
            if n < before.len() {
                assert(before[n] == p);
                let i = choose|i: int|
                    0 <= i < less.len() && (#[trigger] less[i]).id == p.id && nearest(
                        lines,
                        less[i].line,
                    ) == Some((p.line, p.location));
                assert(targets[i].id == p.id);
            } else {
                assert(targets[targets.len() - 1].id == p.id);
            }
        }
        if p.first == first && exists|i: int|
            0 <= i < targets.len() && (#[trigger] targets[i]).id == p.id && nearest(
                lines,
                targets[i].line,
            ) == Some((p.line, p.location)) {
            let i = choose|i: int|
                0 <= i < targets.len() && (#[trigger] targets[i]).id == p.id && nearest(
                    lines,
                    targets[i].line,
                ) == Some((p.line, p.location));
            if i < less.len() {
                assert(less[i].id == p.id);
                let n = choose|n: int| 0 <= n < before.len() && before[n] == p;
                assert(after[n] == p);
            } else {
                assert(after[after.len() - 1] == p);
            }
        }
    } else {
        assert(planned(targets, lines, first) =~= seq![]);
    }
}

// ---------------------------------------------------------------------------
// What is shown
// ---------------------------------------------------------------------------

proof fn lemma_frame_with_ref(frames: Seq<FrameView>, i: int)
    requires
        0 <= i < frames.len(),
        forall|j: int|
            0 <= j < frames.len() && j != i ==> (#[trigger] frames[j]).variables_ref
                != frames[i].variables_ref,
    ensures
        frame_with_ref(frames, frames[i].variables_ref) == Some(frames[i]),
    decreases frames.len(),
{
    let less = frames.drop_last();
    if i < frames.len() - 1 {
        assert forall|j: int| 0 <= j < less.len() && j != i implies (
        #[trigger] less[j]).variables_ref != less[i].variables_ref by {
            assert(less[j] == frames[j]);
        }
        lemma_frame_with_ref(less, i);
    } else {
        lemma_no_frame_with_ref(less, frames[i].variables_ref);
    }
}

proof fn lemma_no_frame_with_ref(frames: Seq<FrameView>, vars_ref: u32)
    requires
        forall|j: int|
            0 <= j < frames.len() ==> (#[trigger] frames[j]).variables_ref != vars_ref,
    ensures
        frame_with_ref(frames, vars_ref) is None,
    decreases frames.len(),
{
    if frames.len() > 0 {
        let less = frames.drop_last();
        assert forall|j: int| 0 <= j < less.len() implies (#[trigger] less[j]).variables_ref
            != vars_ref by {
            assert(less[j] == frames[j]);
        }
        lemma_no_frame_with_ref(less, vars_ref);
    }
}

proof fn lemma_frame_with_id_in(frames: Seq<FrameView>, id: u64)
    ensures
        frame_with_id(frames, id) matches Some(f) ==> f.frame_id == id && frames.contains(f),
    decreases frames.len(),
{
    if frames.len() > 0 {
        let less = frames.drop_last();
        lemma_frame_with_id_in(less, id);
        match frame_with_id(less, id) {
            Some(f) => {
                let j = choose|j: int| 0 <= j < less.len() && less[j] == f;
                assert(frames[j] == f);
            },
            None => {
                assert(frames[frames.len() - 1] == frames.last());
            },
        }
    }
}

/// What the editor gets for a frame's variables, by the number that the frame's scope names, are
/// that frame's variables; so a name that it then looks up in the frame shows as it does there.
pub proof fn law_lookup_agrees_with_variables(
    b: BackendView,
    v: BuilderView,
    log: Log,
    variables: DapRequestView,
    lookup: DapRequestView,
    f: FrameView,
)
    requires
        b.snapshot() == Some(snapshot_of(v, log)),
        frame_count(v.threads) < u32::MAX,
        number_argument(lookup, "frameId"@) == Some(f.frame_id),
        frame_asked(b, f.frame_id) == Some(f),
        f.variables.len() > 0,
        number_argument(variables, "variablesReference"@) == Some(f.variables_ref as u64),
    ensures
        variables_asked(b, variables) == f.variables,
        evaluation_frame(b, lookup) == Some(f),
        forall|name: Seq<char>|
            value_of(#[trigger] evaluation_frame(b, lookup)->0.variables, name) == value_of(
                variables_asked(b, variables),
                name,
            ),
{
    let frames = all_frames(snapshot_of(v, log).threads);
    lemma_frame_with_id_in(frames, f.frame_id);
    let i = choose|i: int| 0 <= i < frames.len() && frames[i] == f;
    assert forall|j: int| 0 <= j < frames.len() && j != i implies (
    #[trigger] frames[j]).variables_ref != frames[i].variables_ref by {
        if i < j {
            law_variable_numbers_are_unique(v, log, i, j);
        } else {
            law_variable_numbers_are_unique(v, log, j, i);
        }
    }
    lemma_frame_with_ref(frames, i);
}

// ---------------------------------------------------------------------------
// Messages are plain
// ---------------------------------------------------------------------------

proof fn lemma_with_plain(o: JsonView, name: Seq<char>, value: JsonView, depth: nat)
    requires
        o is Object,
        depth > 0,
        o.is_plain(depth),
        value.is_plain((depth - 1) as nat),
    ensures
        o.with(name, value) is Object,
        o.with(name, value).is_plain(depth),
{
    let m = o->Object_0;
    let n = o.with(name, value)->Object_0;
    assert forall|k: Seq<char>| #[trigger] n.contains_key(k) implies n[k].is_plain(
        (depth - 1) as nat,
    ) by {
        if k != name {
            assert(m.contains_key(k));
        }
    }
}

proof fn lemma_empty_plain(depth: nat)
    requires
        depth > 0,
    ensures
        JsonView::empty().is_plain(depth),
        JsonView::empty() is Object,
{
}

proof fn lemma_plain_deeper(v: JsonView, depth: nat, more: nat)
    requires
        v.is_plain(depth),
        depth <= more,
    ensures
        v.is_plain(more),
    decreases depth,
{
    match v {
        JsonView::Array(s) => {
            assert forall|i: int| 0 <= i < s.len() implies (#[trigger] s[i]).is_plain(
                (more - 1) as nat,
            ) by {
                lemma_plain_deeper(s[i], (depth - 1) as nat, (more - 1) as nat);
            }
        },
        JsonView::Object(m) => {
            assert forall|k: Seq<char>| #[trigger] m.contains_key(k) implies m[k].is_plain(
                (more - 1) as nat,
            ) by {
                lemma_plain_deeper(m[k], (depth - 1) as nat, (more - 1) as nat);
            }
        },
        _ => {},
    }
}

/// A message with a plain body is plain.
pub proof fn law_messages_with_plain_bodies_are_plain(
    seq: u64,
    request_seq: u64,
    name: Seq<char>,
    body: Option<JsonView>,
    message: Seq<char>,
    depth: nat,
)
    requires
        depth > 0,
        body matches Some(v) ==> v.is_plain((depth - 1) as nat),
    ensures
        ok_json(seq, request_seq, name, body).is_plain(depth),
        err_json(seq, request_seq, name, message).is_plain(depth),
        event_json(seq, name, body).is_plain(depth),
{
    let d = (depth - 1) as nat;
    lemma_empty_plain(depth);
    let a = JsonView::empty().with("seq"@, JsonView::Int(seq as int));
    lemma_with_plain(JsonView::empty(), "seq"@, JsonView::Int(seq as int), depth);
    let b = a.with("type"@, JsonView::Text("response"@));
    lemma_with_plain(a, "type"@, JsonView::Text("response"@), depth);
    let c = b.with("requestSeq"@, JsonView::Int(request_seq as int));
    lemma_with_plain(b, "requestSeq"@, JsonView::Int(request_seq as int), depth);
    let good = c.with("success"@, JsonView::Bool(true));
    lemma_with_plain(c, "success"@, JsonView::Bool(true), depth);
    let bad = c.with("success"@, JsonView::Bool(false));
    lemma_with_plain(c, "success"@, JsonView::Bool(false), depth);
    let good2 = good.with("command"@, JsonView::Text(name));
    lemma_with_plain(good, "command"@, JsonView::Text(name), depth);
    let bad2 = bad.with("command"@, JsonView::Text(name));
    lemma_with_plain(bad, "command"@, JsonView::Text(name), depth);
    lemma_with_plain(bad2, "message"@, JsonView::Text(message), depth);
    let e = a.with("type"@, JsonView::Text("event"@));
    lemma_with_plain(a, "type"@, JsonView::Text("event"@), depth);
    let f = e.with("event"@, JsonView::Text(name));
    lemma_with_plain(e, "event"@, JsonView::Text(name), depth);
    match body {
        None => {},
        Some(v) => {
            lemma_with_plain(good2, "body"@, v, depth);
            lemma_with_plain(f, "body"@, v, depth);
        },
    }
}

proof fn lemma_list_plain(name: Seq<char>, items: Seq<JsonView>, depth: nat)
    requires
        depth >= 2,
        forall|i: int| 0 <= i < items.len() ==> (#[trigger] items[i]).is_plain((depth - 2) as nat),
    ensures
        JsonView::empty().with(name, JsonView::Array(items)).is_plain(depth),
        JsonView::empty().with(name, JsonView::Array(items)) is Object,
{
    lemma_empty_plain(depth);
    assert(JsonView::Array(items).is_plain((depth - 1) as nat));
    lemma_with_plain(JsonView::empty(), name, JsonView::Array(items), depth);
}

proof fn lemma_thread_plain(t: ThreadView)
    ensures
        thread_json(t).is_plain(1),
{
    lemma_empty_plain(1);
    let a = JsonView::empty().with("id"@, JsonView::Int(t.id as int));
    lemma_with_plain(JsonView::empty(), "id"@, JsonView::Int(t.id as int), 1);
    lemma_with_plain(a, "name"@, JsonView::Text(t.name), 1);
}

proof fn lemma_frame_plain(f: FrameView)
    ensures
        frame_json(f).is_plain(2),
{
    lemma_empty_plain(1);
    lemma_empty_plain(2);
    let a = JsonView::empty().with("id"@, JsonView::Int(f.frame_id as int));
    lemma_with_plain(JsonView::empty(), "id"@, JsonView::Int(f.frame_id as int), 2);
    let name = JsonView::Text(f.class_name + "."@ + f.method_name);
    let b = a.with("name"@, name);
    lemma_with_plain(a, "name"@, name, 2);
    let source = match f.source_path {
        None => JsonView::Null,
        Some(p) => JsonView::empty().with("path"@, JsonView::Text(p)),
    };
    match f.source_path {
        None => {},
        Some(p) => {
            lemma_with_plain(JsonView::empty(), "path"@, JsonView::Text(p), 1);
        },
    }
    let c = b.with("source"@, source);
    lemma_with_plain(b, "source"@, source, 2);
    let line = JsonView::Int(
        match f.line {
            None => 0,
            Some(l) => l as int,
        },
    );
    let d = c.with("line"@, line);
    lemma_with_plain(c, "line"@, line, 2);
    lemma_with_plain(d, "column"@, JsonView::Int(0), 2);
}

proof fn lemma_variable_plain(v: VariableView)
    ensures
        variable_json(v).is_plain(1),
{
    lemma_empty_plain(1);
    let a = JsonView::empty().with("name"@, JsonView::Text(v.name));
    lemma_with_plain(JsonView::empty(), "name"@, JsonView::Text(v.name), 1);
    let b = a.with("value"@, JsonView::Text(v.display_value));
    lemma_with_plain(a, "value"@, JsonView::Text(v.display_value), 1);
    lemma_with_plain(b, "variablesReference"@, JsonView::Int(0), 1);
}

proof fn lemma_breakpoint_plain(id: u32, verified: bool, line: u32)
    ensures
        breakpoint_json(id, verified, line).is_plain(1),
        unset_line_json(line).is_plain(1),
{
    lemma_empty_plain(1);
    let a = JsonView::empty().with("id"@, JsonView::Int(id as int));
    lemma_with_plain(JsonView::empty(), "id"@, JsonView::Int(id as int), 1);
    let b = a.with("verified"@, JsonView::Bool(verified));
    lemma_with_plain(a, "verified"@, JsonView::Bool(verified), 1);
    lemma_with_plain(b, "line"@, JsonView::Int(line as int), 1);
    let c = JsonView::empty().with("verified"@, JsonView::Bool(false));
    lemma_with_plain(JsonView::empty(), "verified"@, JsonView::Bool(false), 1);
    lemma_with_plain(c, "line"@, JsonView::Int(line as int), 1);
}

/// What the editor is told of threads, frames, scopes and variables is plain.
pub proof fn law_snapshots_are_told_plainly(
    threads: Seq<ThreadView>,
    frames: Seq<FrameView>,
    frame: Option<FrameView>,
    variables: Seq<VariableView>,
)
    ensures
        threads_json(threads).is_plain(4),
        frames_json(frames).is_plain(4),
        scopes_json(frame).is_plain(4),
        variables_json(variables).is_plain(4),
{
    let ts = threads.map_values(|t: ThreadView| thread_json(t));
    assert forall|i: int| 0 <= i < ts.len() implies (#[trigger] ts[i]).is_plain(2) by {
        lemma_thread_plain(threads[i]);
        lemma_plain_deeper(ts[i], 1, 2);
    }
    lemma_list_plain("threads"@, ts, 4);
    let fs = frames.map_values(|f: FrameView| frame_json(f));
    assert forall|i: int| 0 <= i < fs.len() implies (#[trigger] fs[i]).is_plain(2) by {
        lemma_frame_plain(frames[i]);
    }
    lemma_list_plain("stackFrames"@, fs, 4);
    lemma_with_plain(
        JsonView::empty().with("stackFrames"@, JsonView::Array(fs)),
        "totalFrames"@,
        JsonView::Int(frames.len() as int),
        4,
    );
    let scopes = match frame {
        None => seq![],
        Some(f) => seq![scope_json(f)],
    };
    assert forall|i: int| 0 <= i < scopes.len() implies (#[trigger] scopes[i]).is_plain(2) by {
        let f = frame->0;
        lemma_empty_plain(2);
        let a = JsonView::empty().with("name"@, JsonView::Text("Locals"@));
        lemma_with_plain(JsonView::empty(), "name"@, JsonView::Text("Locals"@), 2);
        let r = JsonView::Int(f.variables_ref as int);
        let b = a.with("variablesReference"@, r);
        lemma_with_plain(a, "variablesReference"@, r, 2);
        lemma_with_plain(b, "expensive"@, JsonView::Bool(false), 2);
    }
    lemma_list_plain("scopes"@, scopes, 4);
    let vs = variables.map_values(|v: VariableView| variable_json(v));
    assert forall|i: int| 0 <= i < vs.len() implies (#[trigger] vs[i]).is_plain(2) by {
        lemma_variable_plain(variables[i]);
        lemma_plain_deeper(vs[i], 1, 2);
    }
    lemma_list_plain("variables"@, vs, 4);
}

/// What the editor is told of breakpoints is plain.
pub proof fn law_breakpoints_are_told_plainly(
    lines: Seq<u32>,
    targets: Seq<Target>,
    results: Seq<Option<PlacementView>>,
    id: u32,
    line: u32,
)
    ensures
        unset_lines_json(lines).is_plain(4),
        breakpoints_json(targets, results).is_plain(4),
        breakpoint_changed_json(id, line).is_plain(4),
{
    let ls = lines.map_values(|l: u32| unset_line_json(l));
    assert forall|i: int| 0 <= i < ls.len() implies (#[trigger] ls[i]).is_plain(2) by {
        lemma_breakpoint_plain(0, false, lines[i]);
        lemma_plain_deeper(ls[i], 1, 2);
    }
    lemma_list_plain("breakpoints"@, ls, 4);
    let bs = Seq::new(targets.len(), |i: int| outcome_json(targets[i], results[i]));
    assert forall|i: int| 0 <= i < bs.len() implies (#[trigger] bs[i]).is_plain(2) by {
        match results[i] {
            None => {
                lemma_breakpoint_plain(targets[i].id, false, targets[i].line);
            },
            Some(p) => {
                lemma_breakpoint_plain(targets[i].id, true, p.line);
            },
        }
        lemma_plain_deeper(bs[i], 1, 2);
    }
    lemma_list_plain("breakpoints"@, bs, 4);
    lemma_breakpoint_plain(id, true, line);
    lemma_plain_deeper(breakpoint_json(id, true, line), 1, 3);
    lemma_empty_plain(4);
    let a = JsonView::empty().with("reason"@, JsonView::Text("changed"@));
    lemma_with_plain(JsonView::empty(), "reason"@, JsonView::Text("changed"@), 4);
    lemma_with_plain(a, "breakpoint"@, breakpoint_json(id, true, line), 4);
}

proof fn lemma_said(seq: u64, request_seq: u64, name: Seq<char>, body: Option<JsonView>, why: Seq<char>)
    requires
        body matches Some(v) ==> v.is_plain(4),
    ensures
        ok_json(seq, request_seq, name, body).is_plain(5),
        err_json(seq, request_seq, name, why).is_plain(5),
        event_json(seq, name, body).is_plain(5),
{
    law_messages_with_plain_bodies_are_plain(seq, request_seq, name, body, why, 5);
}

/// All that the server says in answer to a message can be read back by the editor: it holds
/// whole numbers only, and is not nested too deep.
pub proof fn law_what_the_server_says_is_plain(b: BackendView, msg: JsonView, i: int)
    requires
        0 <= i < on_message(b, msg).messages.len(),
    ensures
        on_message(b, msg).messages[i].is_plain(MAX_DEPTH as nat),
{
    let q = request_of(msg)->0;
    let o = on_request(b, q);
    let n = next(b.seq);
    let m = o.messages[i];
    lemma_empty_plain(4);
    let threads = match b.snapshot() {
        None => seq![],
        Some(snap) => snap.threads,
    };
    let id = match number_argument(q, "frameId"@) {
        None => 0,
        Some(x) => x,
    };
    law_snapshots_are_told_plainly(
        threads,
        frames_asked(b, q),
        frame_asked(b, id),
        variables_asked(b, q),
    );
    law_breakpoints_are_told_plainly(
        requested_lines(q),
        seq![],
        seq![],
        0,
        0,
    );
    let caps = (Capabilities { supports_configuration_done_request: true }).json();
    lemma_with_plain(
        JsonView::empty(),
        "supportsConfigurationDoneRequest"@,
        JsonView::Bool(true),
        4,
    );
    let going = JsonView::empty().with("allThreadsContinued"@, JsonView::Bool(true));
    lemma_with_plain(JsonView::empty(), "allThreadsContinued"@, JsonView::Bool(true), 4);
    let value = match evaluation_frame(b, q) {
        None => seq![],
        Some(f) => match value_of(
            f.variables,
            text_argument(q, "expression"@)->0,
        ) {
            None => seq![],
            Some(v) => v,
        },
    };
    let result = JsonView::empty().with("result"@, JsonView::Text(value));
    lemma_with_plain(JsonView::empty(), "result"@, JsonView::Text(value), 4);
    lemma_with_plain(result, "variablesReference"@, JsonView::Int(0), 4);
    let evaluated = result.with("variablesReference"@, JsonView::Int(0));
    let command = q.command;
    let frames = frames_json(frames_asked(b, q));
    let scopes = scopes_json(frame_asked(b, id));
    let variables = variables_json(variables_asked(b, q));
    let unset = unset_lines_json(requested_lines(q));
    let why = "launch requires 'projectRoot' argument"@;
    lemma_said(n, q.seq, "initialize"@, Some(caps), ""@);
    lemma_said(next(n), q.seq, "initialized"@, None, ""@);
    lemma_said(n, q.seq, "launch"@, None, why);
    lemma_said(next(n), q.seq, "terminated"@, None, ""@);
    lemma_said(n, q.seq, command, None, "setBreakpoints requires 'source.path'"@);
    lemma_said(n, q.seq, command, Some(unset), "no active debug session"@);
    lemma_said(n, q.seq, command, Some(going), "no stopped thread"@);
    lemma_said(n, q.seq, command, Some(threads_json(threads)), "missing expression"@);
    lemma_said(n, q.seq, command, Some(frames), "not available"@);
    lemma_said(n, q.seq, command, Some(scopes), "unhandled command: "@ + command);
    lemma_said(n, q.seq, command, Some(variables), ""@);
    lemma_said(n, q.seq, command, Some(evaluated), ""@);
    assert(m.is_plain(5));
    lemma_plain_deeper(m, 5, MAX_DEPTH as nat);
}

} // verus!
