//! What holds of events of the JVM, and of its end.

use vstd::prelude::*;
use crate::jdwp::client::CommandView;
use crate::jdwp::encode::{
    is_writable, law_numbers_read_back, law_sizes_and_types_read_back, law_string_reads_back,
    stands_at, string_bytes,
};
use crate::jdwp::event::{
    BreakpointEvent, ClassPrepareView, ExceptionUncaughtEvent, JdwpEventView, StepEvent,
};
use crate::jdwp::read::JdwpError;
use crate::json::JsonView;
use crate::path::same_path;
use crate::server::backend::BackendView;
use crate::server::binary_name;
use crate::server::breakpoints::{
    law_all_set_breakpoints_take_in_a_class, law_all_waiting_breakpoints_are_called_for,
    BpStateView, BreakpointView, Target,
};
use crate::server::events::{
    on_event, step_outcome, stepping, terminated_json, termination_cause, with_exception,
    EventWorkView, ExceptionQueryView, StopReason,
};
use crate::server::session::{resume, SessionView};
use crate::server::snapshot_builder::BuilderView;
use crate::source_map::source_of;
use crate::text::{contains, law_parts_are_runs_of_characters, occurs_at};
use crate::wire::be_bytes;

verus! {

// ---------------------------------------------------------------------------
// Events
// ---------------------------------------------------------------------------

/// A class that is loaded calls for all breakpoints of its source file that wait, and for all that
/// are set in other classes only: in their order, by their numbers and the lines that were asked
/// for. They are to be set in that class. Where there are none, or the class has no source file,
/// the JVM just goes on.
pub proof fn law_a_loaded_class_calls_for_its_breakpoints(
    b: BackendView,
    s: SessionView,
    e: ClassPrepareView,
)
    requires
        b.session == Some(s),
    ensures
        on_event(b, JdwpEventView::ClassPrepare(e)).0 == b,
        ({
            let work = on_event(b, JdwpEventView::ClassPrepare(e)).1;
            let class = binary_name(e.signature);
            match source_of(s.log, class) {
                None => work == (EventWorkView::Send { commands: seq![resume()] }),
                Some(source) => {
                    let pending = s.breakpoints.filter(
                        |x: BreakpointView|
                            same_path(x.source_path, source) && x.state == BpStateView::Pending,
                    ).map_values(|x: BreakpointView| Target { id: x.id, line: x.requested_line });
                    let extendable = s.breakpoints.filter(
                        |x: BreakpointView|
                            same_path(x.source_path, source) && match x.state {
                                BpStateView::Installed { classes, .. } => forall|i: int|
                                    0 <= i < classes.len() ==> (#[trigger] classes[i]).0 != class,
                                _ => false,
                            },
                    ).map_values(|x: BreakpointView| Target { id: x.id, line: x.requested_line });
                    if pending.len() == 0 && extendable.len() == 0 {
                        work == (EventWorkView::Send { commands: seq![resume()] })
                    } else {
                        work matches EventWorkView::Prepare { preparation } && preparation.class
                            == class && preparation.pending == pending && preparation.extendable
                            == extendable && preparation.collector.ref_type_id == e.ref_type_id
                            && preparation.collector.ref_type_tag == e.ref_type_tag
                            && preparation.plan is None && preparation.requests.len() == 0
                            && preparation.collector.lines.len() == 0
                            && preparation.collector.methods is None
                    }
                },
            }
        }),
{
    let class = binary_name(e.signature);
    match source_of(s.log, class) {
        None => {},
        Some(source) => {
            law_all_waiting_breakpoints_are_called_for(s.breakpoints, source);
            law_all_set_breakpoints_take_in_a_class(s.breakpoints, source, class);
        },
    }
}

/// A stop is shown for the thread that has stopped, and why it has. A step that has come to its
/// end is taken away in the JVM before, and is no longer under way.
pub proof fn law_stops_are_shown(
    b: BackendView,
    s: SessionView,
    hit: BreakpointEvent,
    step: StepEvent,
)
    requires
        b.session == Some(s),
    ensures
        on_event(b, JdwpEventView::Breakpoint(hit)) == (
            b,
            EventWorkView::Stopped {
                before: seq![],
                builder: BuilderView::new(hit.thread_id),
                thread_id: hit.thread_id,
                reason: StopReason::Breakpoint,
            },
        ),
        on_event(b, JdwpEventView::Step(step)).1 == (EventWorkView::Stopped {
            before: if s.pending_step_request is Some {
                seq![
                    CommandView {
                        set: 15,
                        cmd: 2,
                        data: seq![1u8] + be_bytes(s.pending_step_request->0 as nat, 4),
                    },
                ]
            } else {
                seq![]
            },
            builder: BuilderView::new(step.thread_id),
            thread_id: step.thread_id,
            reason: StopReason::Step,
        }),
        on_event(b, JdwpEventView::Step(step)).0 == (BackendView {
            session: Some(SessionView { pending_step_request: None, ..s }),
            ..b
        }),
        BuilderView::new(hit.thread_id).stopped_thread_id == hit.thread_id,
        BuilderView::new(hit.thread_id).ids is None,
        BuilderView::new(hit.thread_id).threads.len() == 0,
        StopReason::Breakpoint.text() == "breakpoint"@,
        StopReason::Step.text() == "step"@,
{
}

/// The end of the JVM counts always; other events lead to nothing where there is no session. An
/// exception is looked into just where none is known yet.
pub proof fn law_exceptions_and_the_end(b: BackendView, e: ExceptionUncaughtEvent, other: JdwpEventView)
    ensures
        on_event(b, JdwpEventView::VmDeath) == (b, EventWorkView::Ended),
        b.session is None && !(other is VmDeath) ==> on_event(b, other) == (
            b,
            EventWorkView::Nothing,
        ),
        b.session is Some && b.session->0.pending_exception_class is Some ==> on_event(
            b,
            JdwpEventView::ExceptionUncaught(e),
        ) == (b, EventWorkView::Send { commands: seq![resume()] }),
        b.session is Some && b.session->0.pending_exception_class is None ==> on_event(
            b,
            JdwpEventView::ExceptionUncaught(e),
        ) == (
            b,
            EventWorkView::Exception { query: ExceptionQueryView::new(e.exception_object_id) },
        ),
{
}

/// The class of an exception is found out in two questions: the first for the class of the object,
/// the second for the signature of that class; and the signature that the JVM gives is the one
/// that is known. A question that is not answered ends it.
pub proof fn law_the_class_of_an_exception_is_found(
    object: u64,
    tag: u8,
    class: u64,
    signature: Seq<char>,
    first: Seq<u8>,
    second: Seq<u8>,
    why: JdwpError,
)
    requires
        is_writable(signature),
        stands_at(first, 0, be_bytes(tag as nat, 1) + be_bytes(class as nat, 8)),
        stands_at(second, 0, string_bytes(signature)),
    ensures
        ({
            let a = ExceptionQueryView::new(object);
            let b = a.told(Ok(first));
            let c = b.told(Ok(second));
            &&& a.asks() == Some(CommandView { set: 9, cmd: 1, data: be_bytes(object as nat, 8) })
            &&& b.asks() == Some(CommandView { set: 2, cmd: 1, data: be_bytes(class as nat, 8) })
            &&& c.asks() is None
            &&& c.signature == Some(signature)
            &&& a.told(Err(why)).asks() is None && a.told(Err(why)).signature is None
            &&& b.told(Err(why)).asks() is None && b.told(Err(why)).signature is None
        }),
{
    law_sizes_and_types_read_back(
        first,
        crate::jdwp::client::IdSizes { field: 0, method: 0, object: 0, ref_type: 0, frame: 0 },
        tag,
        class,
    );
    law_string_reads_back(second, 0, signature);
}

/// What is known of an exception is kept, and nothing else changes.
pub proof fn law_a_known_exception_is_kept(s: SessionView, signature: Option<Seq<char>>)
    ensures
        with_exception(s, signature).pending_exception_class
            == if s.pending_exception_class is Some {
            s.pending_exception_class
        } else {
            signature
        },
        with_exception(s, signature).breakpoints == s.breakpoints,
        with_exception(s, signature).snapshot == s.snapshot,
        with_exception(s, signature).log == s.log,
        with_exception(s, signature).next_bp_id == s.next_bp_id,
        with_exception(s, signature).pending_step_request == s.pending_step_request,
{
}

/// A step that the JVM grants is under way by the number that it gives; one that it refuses is
/// not.
pub proof fn law_a_granted_step_is_under_way(s: SessionView, d: Seq<u8>, id: u32, why: JdwpError)
    requires
        stands_at(d, 0, be_bytes(id as nat, 4)),
    ensures
        step_outcome(Ok(d)) == Ok::<u32, JdwpError>(id),
        step_outcome(Err(why)) == Err::<u32, JdwpError>(why),
        stepping(Some(s), id) == Some(SessionView { pending_step_request: Some(id), ..s }),
        stepping(None, id) is None,
{
    law_numbers_read_back(d, 0, id as nat);
}

// ---------------------------------------------------------------------------
// The end
// ---------------------------------------------------------------------------

/// Whether the sixteen characters of `OutOfMemoryError` stand in a text from index `i` to `j`.
pub open spec fn is_out_of_memory_at(s: Seq<char>, i: int, j: int) -> bool {
    &&& 0 <= i
    &&& j == i + 16
    &&& j <= s.len()
    &&& s[i] == 'O' && s[i + 1] == 'u' && s[i + 2] == 't'
    &&& s[i + 3] == 'O' && s[i + 4] == 'f'
    &&& s[i + 5] == 'M' && s[i + 6] == 'e' && s[i + 7] == 'm' && s[i + 8] == 'o' && s[i + 9] == 'r'
        && s[i + 10] == 'y'
    &&& s[i + 11] == 'E' && s[i + 12] == 'r' && s[i + 13] == 'r' && s[i + 14] == 'o' && s[i + 15]
        == 'r'
}

/// The JVM has run out of memory just where an exception class is known whose signature holds the
/// sixteen characters `OutOfMemoryError` somewhere. Every other exception class that is known is
/// an uncaught exception; and where none is known, the exit is clean.
pub proof fn law_only_out_of_memory_is_out_of_memory(signature: Seq<char>)
    ensures
        (exists|i: int, j: int| #[trigger] is_out_of_memory_at(signature, i, j))
            ==> termination_cause(Some(signature)) == "out_of_memory"@,
        !(exists|i: int, j: int| #[trigger] is_out_of_memory_at(signature, i, j))
            ==> termination_cause(Some(signature)) == "uncaught_exception"@,
        termination_cause(None) == "clean_exit"@,
        "out_of_memory"@ != "uncaught_exception"@,
{
    reveal_strlit("OutOfMemoryError");
    reveal_strlit("out_of_memory");
    reveal_strlit("uncaught_exception");
    assert("out_of_memory"@.len() == 13 && "uncaught_exception"@.len() == 18);
    let p = "OutOfMemoryError"@;
    assert(p.len() == 16);
    assert forall|i: int| occurs_at(signature, p, i) == is_out_of_memory_at(
        signature,
        i,
        i + 16,
    ) by {
        law_parts_are_runs_of_characters(signature, p, i);
        if occurs_at(signature, p, i) {
            assert forall|k: int| 0 <= k < 16 implies #[trigger] p[k] == signature[i + k] by {}
            assert(p[0] == 'O' && p[1] == 'u' && p[2] == 't' && p[3] == 'O' && p[4] == 'f');
            assert(p[5] == 'M' && p[6] == 'e' && p[7] == 'm' && p[8] == 'o' && p[9] == 'r');
            assert(p[10] == 'y' && p[11] == 'E' && p[12] == 'r' && p[13] == 'r' && p[14] == 'o');
            assert(p[15] == 'r');
        }
        if is_out_of_memory_at(signature, i, i + 16) {
            assert forall|k: int| 0 <= k < 16 implies #[trigger] p[k] == signature[i + k] by {
                assert(k == 0 || k == 1 || k == 2 || k == 3 || k == 4 || k == 5 || k == 6 || k == 7
                    || k == 8 || k == 9 || k == 10 || k == 11 || k == 12 || k == 13 || k == 14
                    || k == 15);
            }
        }
    }
    if exists|i: int, j: int| #[trigger] is_out_of_memory_at(signature, i, j) {
        let (i, j) = choose|i: int, j: int| #[trigger] is_out_of_memory_at(signature, i, j);
        assert(occurs_at(signature, p, i));
        law_parts_are_runs_of_characters(signature, p, i);
    } else if contains(signature, p) {
        law_parts_are_runs_of_characters(signature, p, 0);
        let i = choose|i: int| #[trigger] occurs_at(signature, p, i);
        assert(is_out_of_memory_at(signature, i, i + 16));
    }
}

/// The editor is told the cause, and the exit code where it is known and not zero.
pub proof fn law_the_end_is_told(code: i32, cause: Seq<char>)
    ensures
        terminated_json(None, cause) == JsonView::Object(
            map!["terminationCause"@ => JsonView::Text(cause)],
        ),
        terminated_json(Some(0), cause) == JsonView::Object(
            map!["terminationCause"@ => JsonView::Text(cause)],
        ),
        code != 0 ==> terminated_json(Some(code), cause) == JsonView::Object(
            map![
                "exitCode"@ => JsonView::Int(code as int),
                "terminationCause"@ => JsonView::Text(cause),
            ],
        ),
{
}

} // verus!
