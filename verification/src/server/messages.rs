//! What the editor is told, as JSON.

use vstd::prelude::*;
use crate::json::{items_view, Json, JsonView};
use crate::list::views;
use crate::server::breakpoints::Target;
use crate::server::installer::{outcomes, Placement, PlacementView};
use crate::server::snapshot::{
    FrameView, SnapshotFrame, SnapshotThread, SnapshotVariable, ThreadView, VariableView,
};
use crate::text::{append, owned};
use crate::types::{DapEvent, DapEventView, DapResponse, DapResponseView};

verus! {

/// A response with a body, or without.
pub open spec fn ok_json(seq: u64, request_seq: u64, command: Seq<char>, body: Option<JsonView>) -> JsonView {
    DapResponseView::ok(seq, request_seq, command, body).json()
}

/// A response that refuses a request.
pub open spec fn err_json(seq: u64, request_seq: u64, command: Seq<char>, message: Seq<char>) -> JsonView {
    DapResponseView::err(seq, request_seq, command, message).json()
}

pub open spec fn event_json(seq: u64, event: Seq<char>, body: Option<JsonView>) -> JsonView {
    DapEventView::new(seq, event, body).json()
}

pub fn ok_message(seq: u64, request_seq: u64, command: &str, body: Option<Json>) -> (j: Json)
    ensures
        j@ == ok_json(
            seq,
            request_seq,
            command@,
            match body {
                None => None,
                Some(b) => Some(b@),
            },
        ),
{
    DapResponse::ok(seq, request_seq, command, body).to_json()
}

pub fn err_message(seq: u64, request_seq: u64, command: &str, message: &str) -> (j: Json)
    ensures
        j@ == err_json(seq, request_seq, command@, message@),
{
    DapResponse::err(seq, request_seq, command, message).to_json()
}

pub fn event_message(seq: u64, event: &str, body: Option<Json>) -> (j: Json)
    ensures
        j@ == event_json(
            seq,
            event@,
            match body {
                None => None,
                Some(b) => Some(b@),
            },
        ),
{
    DapEvent::new(seq, event, body).to_json()
}

// ---------------------------------------------------------------------------
// Breakpoints
// ---------------------------------------------------------------------------

/// A breakpoint that nobody can set: there is no session.
pub open spec fn unset_line_json(line: u32) -> JsonView {
    JsonView::empty().with("verified"@, JsonView::Bool(false)).with(
        "line"@,
        JsonView::Int(line as int),
    )
}

/// A breakpoint by its number, whether it is set, and the line where it is set, or else the
/// line that was asked for.
pub open spec fn breakpoint_json(id: u32, verified: bool, line: u32) -> JsonView {
    JsonView::empty().with("id"@, JsonView::Int(id as int)).with(
        "verified"@,
        JsonView::Bool(verified),
    ).with("line"@, JsonView::Int(line as int))
}

pub open spec fn unset_lines_json(lines: Seq<u32>) -> JsonView {
    JsonView::empty().with(
        "breakpoints"@,
        JsonView::Array(lines.map_values(|l: u32| unset_line_json(l))),
    )
}

pub open spec fn outcome_json(target: Target, outcome: Option<PlacementView>) -> JsonView {
    match outcome {
        None => breakpoint_json(target.id, false, target.line),
        Some(p) => breakpoint_json(target.id, true, p.line),
    }
}

pub open spec fn breakpoints_json(
    targets: Seq<Target>,
    results: Seq<Option<PlacementView>>,
) -> JsonView {
    JsonView::empty().with(
        "breakpoints"@,
        JsonView::Array(
            Seq::new(targets.len(), |i: int| outcome_json(targets[i], results[i])),
        ),
    )
}

pub open spec fn breakpoint_changed_json(id: u32, line: u32) -> JsonView {
    JsonView::empty().with("reason"@, JsonView::Text("changed"@)).with(
        "breakpoint"@,
        breakpoint_json(id, true, line),
    )
}

pub fn unset_lines_body(lines: &[u32]) -> (j: Json)
    ensures
        j@ == unset_lines_json(lines@),
{
    let ghost want = lines@.map_values(|l: u32| unset_line_json(l));
    let mut items: Vec<Json> = Vec::new();
    let mut i: usize = 0;
    assert(items_view(items@) =~= want.take(0));
    while i < lines.len()
        invariant
            i <= lines@.len() == want.len(),
            want == lines@.map_values(|l: u32| unset_line_json(l)),
            items_view(items@) == want.take(i as int),
        decreases lines@.len() - i,
    {
        let item = Json::object().with("verified", Json::Bool(false)).with(
            "line",
            Json::Unsigned(lines[i] as u64),
        );
        Json::push_item(&mut items, item);
        i += 1;
        assert(items_view(items@) =~= want.take(i as int));
    }
    assert(want.take(i as int) =~= want);
    Json::object().with("breakpoints", Json::Array(items))
}

fn breakpoint_body(id: u32, verified: bool, line: u32) -> (j: Json)
    ensures
        j@ == breakpoint_json(id, verified, line),
{
    Json::object().with("id", Json::Unsigned(id as u64)).with("verified", Json::Bool(verified)).with(
        "line",
        Json::Unsigned(line as u64),
    )
}

pub fn breakpoint_changed_body(id: u32, line: u32) -> (j: Json)
    ensures
        j@ == breakpoint_changed_json(id, line),
{
    Json::object().with("reason", Json::from_text("changed")).with(
        "breakpoint",
        breakpoint_body(id, true, line),
    )
}

pub fn breakpoints_body(targets: &Vec<Target>, results: &Vec<Option<Placement>>) -> (j: Json)
    requires
        targets@.len() == results@.len(),
    ensures
        j@ == breakpoints_json(targets@, outcomes(results@)),
{
    let ghost want = Seq::new(
        targets@.len(),
        |i: int| outcome_json(targets@[i], outcomes(results@)[i]),
    );
    let mut items: Vec<Json> = Vec::new();
    let mut i: usize = 0;
    assert(items_view(items@) =~= want.take(0));
    while i < targets.len()
        invariant
            i <= targets@.len() == results@.len() == want.len(),
            want == Seq::new(
                targets@.len(),
                |i: int| outcome_json(targets@[i], outcomes(results@)[i]),
            ),
            items_view(items@) == want.take(i as int),
        decreases targets@.len() - i,
    {
        let item = match &results[i] {
            None => breakpoint_body(targets[i].id, false, targets[i].line),
            Some(p) => breakpoint_body(targets[i].id, true, p.line),
        };
        Json::push_item(&mut items, item);
        i += 1;
        assert(items_view(items@) =~= want.take(i as int));
    }
    assert(want.take(i as int) =~= want);
    Json::object().with("breakpoints", Json::Array(items))
}

// ---------------------------------------------------------------------------
// What a stopped JVM shows
// ---------------------------------------------------------------------------

pub open spec fn thread_json(t: ThreadView) -> JsonView {
    JsonView::empty().with("id"@, JsonView::Int(t.id as int)).with("name"@, JsonView::Text(t.name))
}

pub open spec fn threads_json(threads: Seq<ThreadView>) -> JsonView {
    JsonView::empty().with(
        "threads"@,
        JsonView::Array(threads.map_values(|t: ThreadView| thread_json(t))),
    )
}

/// A frame: the class's and the method's name, the source file where it is known, and the line,
/// or zero.
pub open spec fn frame_json(f: FrameView) -> JsonView {
    JsonView::empty().with("id"@, JsonView::Int(f.frame_id as int)).with(
        "name"@,
        JsonView::Text(f.class_name + "."@ + f.method_name),
    ).with(
        "source"@,
        match f.source_path {
            None => JsonView::Null,
            Some(p) => JsonView::empty().with("path"@, JsonView::Text(p)),
        },
    ).with(
        "line"@,
        JsonView::Int(
            match f.line {
                None => 0,
                Some(l) => l as int,
            },
        ),
    ).with("column"@, JsonView::Int(0))
}

pub open spec fn frames_json(frames: Seq<FrameView>) -> JsonView {
    JsonView::empty().with(
        "stackFrames"@,
        JsonView::Array(frames.map_values(|f: FrameView| frame_json(f))),
    ).with("totalFrames"@, JsonView::Int(frames.len() as int))
}

/// The one scope that a frame has.
pub open spec fn scope_json(f: FrameView) -> JsonView {
    JsonView::empty().with("name"@, JsonView::Text("Locals"@)).with(
        "variablesReference"@,
        JsonView::Int(f.variables_ref as int),
    ).with("expensive"@, JsonView::Bool(false))
}

pub open spec fn scopes_json(frame: Option<FrameView>) -> JsonView {
    JsonView::empty().with(
        "scopes"@,
        JsonView::Array(
            match frame {
                None => seq![],
                Some(f) => seq![scope_json(f)],
            },
        ),
    )
}

pub open spec fn variable_json(v: VariableView) -> JsonView {
    JsonView::empty().with("name"@, JsonView::Text(v.name)).with(
        "value"@,
        JsonView::Text(v.display_value),
    ).with("variablesReference"@, JsonView::Int(0))
}

pub open spec fn variables_json(variables: Seq<VariableView>) -> JsonView {
    JsonView::empty().with(
        "variables"@,
        JsonView::Array(variables.map_values(|v: VariableView| variable_json(v))),
    )
}

pub fn threads_body(threads: &[SnapshotThread]) -> (j: Json)
    ensures
        j@ == threads_json(views(threads@)),
{
    let ghost want = views(threads@).map_values(|t: ThreadView| thread_json(t));
    let mut items: Vec<Json> = Vec::new();
    let mut i: usize = 0;
    assert(items_view(items@) =~= want.take(0));
    while i < threads.len()
        invariant
            i <= threads@.len() == want.len(),
            want == views(threads@).map_values(|t: ThreadView| thread_json(t)),
            items_view(items@) == want.take(i as int),
        decreases threads@.len() - i,
    {
        let item = Json::object().with("id", Json::Unsigned(threads[i].id)).with(
            "name",
            Json::from_text(threads[i].name.as_str()),
        );
        Json::push_item(&mut items, item);
        i += 1;
        assert(items_view(items@) =~= want.take(i as int));
    }
    assert(want.take(i as int) =~= want);
    Json::object().with("threads", Json::Array(items))
}

fn frame_body(f: &SnapshotFrame) -> (j: Json)
    ensures
        j@ == frame_json(f@),
{
    let mut name = owned(f.class_name.as_str());
    append(&mut name, ".");
    append(&mut name, f.method_name.as_str());
    let source = match &f.source_path {
        None => Json::Null,
        Some(p) => Json::object().with("path", Json::from_text(p.as_str())),
    };
    let line: u64 = match f.line {
        None => 0,
        Some(l) => l as u64,
    };
    Json::object().with("id", Json::Unsigned(f.frame_id)).with("name", Json::Text(name)).with(
        "source",
        source,
    ).with("line", Json::Unsigned(line)).with("column", Json::Unsigned(0))
}

pub fn frames_body(frames: &[SnapshotFrame]) -> (j: Json)
    ensures
        j@ == frames_json(views(frames@)),
{
    let ghost want = views(frames@).map_values(|f: FrameView| frame_json(f));
    let mut items: Vec<Json> = Vec::new();
    let mut i: usize = 0;
    assert(items_view(items@) =~= want.take(0));
    while i < frames.len()
        invariant
            i <= frames@.len() == want.len(),
            want == views(frames@).map_values(|f: FrameView| frame_json(f)),
            items_view(items@) == want.take(i as int),
        decreases frames@.len() - i,
    {
        let item = frame_body(&frames[i]);
        Json::push_item(&mut items, item);
        i += 1;
        assert(items_view(items@) =~= want.take(i as int));
    }
    assert(want.take(i as int) =~= want);
    Json::object().with("stackFrames", Json::Array(items)).with(
        "totalFrames",
        Json::Unsigned(frames.len() as u64),
    )
}

pub fn scopes_body(frame: Option<&SnapshotFrame>) -> (j: Json)
    ensures
        j@ == scopes_json(
            match frame {
                None => None,
                Some(f) => Some(f@),
            },
        ),
{
    let mut items: Vec<Json> = Vec::new();
    assert(items_view(items@) =~= seq![]);
    if let Some(f) = frame {
        let item = Json::object().with("name", Json::from_text("Locals")).with(
            "variablesReference",
            Json::Unsigned(f.variables_ref as u64),
        ).with("expensive", Json::Bool(false));
        Json::push_item(&mut items, item);
        assert(items_view(items@) =~= seq![scope_json(f@)]);
    }
    Json::object().with("scopes", Json::Array(items))
}

pub fn variables_body(variables: &[SnapshotVariable]) -> (j: Json)
    ensures
        j@ == variables_json(views(variables@)),
{
    let ghost want = views(variables@).map_values(|v: VariableView| variable_json(v));
    let mut items: Vec<Json> = Vec::new();
    let mut i: usize = 0;
    assert(items_view(items@) =~= want.take(0));
    while i < variables.len()
        invariant
            i <= variables@.len() == want.len(),
            want == views(variables@).map_values(|v: VariableView| variable_json(v)),
            items_view(items@) == want.take(i as int),
        decreases variables@.len() - i,
    {
        let v = &variables[i];
        let item = Json::object().with("name", Json::from_text(v.name.as_str())).with(
            "value",
            Json::from_text(v.display_value.as_str()),
        ).with("variablesReference", Json::Unsigned(0));
        Json::push_item(&mut items, item);
        i += 1;
        assert(items_view(items@) =~= want.take(i as int));
    }
    assert(want.take(i as int) =~= want);
    Json::object().with("variables", Json::Array(items))
}

} // verus!
