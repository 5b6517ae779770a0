//! What holds of the answers to the editor's requests.

use vstd::prelude::*;
use crate::jdwp::client::CommandView;
use crate::json::JsonView;
use crate::path::{parts, same_path};
use crate::server::backend::{
    argument, lines_of, next, number_argument, on_message, on_request, project_root,
    requested_lines, source_argument, text_argument, value_of, BackendView,
};
use crate::server::breakpoints::{
    law_breakpoints_of_a_source_are_taken_out, pending_at, targets_for, BreakpointView, Target,
};
use crate::server::installer::PlacementView;
use crate::server::messages::{
    breakpoint_changed_json, breakpoints_json, err_json, event_json, frame_json, frames_json,
    ok_json, outcome_json, scopes_json, threads_json, unset_lines_json, variables_json,
};
use crate::server::session::{breakpoints_cleared, resume, step_cleared, SessionView, WorkView};
use crate::server::snapshot::{
    all_frames, frame_with_id, frame_with_ref, thread_with_id, FrameView, SnapshotView, ThreadView,
    VariableView,
};
use crate::source_map::classes_of;
use crate::types::{request_of, DapRequestView};
use crate::wire::be_bytes;

verus! {

// ---------------------------------------------------------------------------
// What stands in messages
// ---------------------------------------------------------------------------

/// An answer and an event have just the members that the protocol gives them.
pub proof fn law_answers_and_events_have_their_members(
    seq: u64,
    request: u64,
    name: Seq<char>,
    body: JsonView,
    message: Seq<char>,
)
    ensures
        ok_json(seq, request, name, None) == JsonView::Object(
            map![
                "seq"@ => JsonView::Int(seq as int),
                "type"@ => JsonView::Text("response"@),
                "requestSeq"@ => JsonView::Int(request as int),
                "success"@ => JsonView::Bool(true),
                "command"@ => JsonView::Text(name),
            ],
        ),
        ok_json(seq, request, name, Some(body)) == JsonView::Object(
            map![
                "seq"@ => JsonView::Int(seq as int),
                "type"@ => JsonView::Text("response"@),
                "requestSeq"@ => JsonView::Int(request as int),
                "success"@ => JsonView::Bool(true),
                "command"@ => JsonView::Text(name),
                "body"@ => body,
            ],
        ),
        err_json(seq, request, name, message) == JsonView::Object(
            map![
                "seq"@ => JsonView::Int(seq as int),
                "type"@ => JsonView::Text("response"@),
                "requestSeq"@ => JsonView::Int(request as int),
                "success"@ => JsonView::Bool(false),
                "command"@ => JsonView::Text(name),
                "message"@ => JsonView::Text(message),
            ],
        ),
        event_json(seq, name, None) == JsonView::Object(
            map![
                "seq"@ => JsonView::Int(seq as int),
                "type"@ => JsonView::Text("event"@),
                "event"@ => JsonView::Text(name),
            ],
        ),
        event_json(seq, name, Some(body)) == JsonView::Object(
            map![
                "seq"@ => JsonView::Int(seq as int),
                "type"@ => JsonView::Text("event"@),
                "event"@ => JsonView::Text(name),
                "body"@ => body,
            ],
        ),
{
}

/// A frame shows by its number, its class and method, its source file, and its line, which is
/// zero where it is not known.
pub open spec fn shown_frame(f: FrameView) -> JsonView {
    JsonView::Object(
        map![
            "id"@ => JsonView::Int(f.frame_id as int),
            "name"@ => JsonView::Text(f.class_name + seq!['.'] + f.method_name),
            "source"@ => if f.source_path is Some {
                JsonView::Object(map!["path"@ => JsonView::Text(f.source_path->0)])
            } else {
                JsonView::Null
            },
            "line"@ => JsonView::Int(
                if f.line is Some {
                    f.line->0 as int
                } else {
                    0
                },
            ),
            "column"@ => JsonView::Int(0),
        ],
    )
}

/// The editor is shown all threads, all frames of a thread, the scope of a frame and all variables
/// of a frame, in their order, each with its own numbers and texts.
pub proof fn law_what_is_shown(
    threads: Seq<ThreadView>,
    frames: Seq<FrameView>,
    f: FrameView,
    variables: Seq<VariableView>,
)
    ensures
        threads_json(threads) == JsonView::Object(
            map![
                "threads"@ => JsonView::Array(
                    Seq::new(
                        threads.len(),
                        |i: int|
                            JsonView::Object(
                                map![
                                    "id"@ => JsonView::Int(threads[i].id as int),
                                    "name"@ => JsonView::Text(threads[i].name),
                                ],
                            ),
                    ),
                ),
            ],
        ),
        frames_json(frames) == JsonView::Object(
            map![
                "stackFrames"@ => JsonView::Array(
                    Seq::new(frames.len(), |i: int| shown_frame(frames[i])),
                ),
                "totalFrames"@ => JsonView::Int(frames.len() as int),
            ],
        ),
        scopes_json(None) == JsonView::Object(map!["scopes"@ => JsonView::Array(seq![])]),
        scopes_json(Some(f)) == JsonView::Object(
            map![
                "scopes"@ => JsonView::Array(
                    seq![
                        JsonView::Object(
                            map![
                                "name"@ => JsonView::Text("Locals"@),
                                "variablesReference"@ => JsonView::Int(f.variables_ref as int),
                                "expensive"@ => JsonView::Bool(false),
                            ],
                        ),
                    ],
                ),
            ],
        ),
        variables_json(variables) == JsonView::Object(
            map![
                "variables"@ => JsonView::Array(
                    Seq::new(
                        variables.len(),
                        |i: int|
                            JsonView::Object(
                                map![
                                    "name"@ => JsonView::Text(variables[i].name),
                                    "value"@ => JsonView::Text(variables[i].display_value),
                                    "variablesReference"@ => JsonView::Int(0),
                                ],
                            ),
                    ),
                ),
            ],
        ),
{
    reveal_strlit(".");
    assert("."@ =~= seq!['.']);
    let ts = Seq::new(
        threads.len(),
        |i: int|
            JsonView::Object(
                map![
                    "id"@ => JsonView::Int(threads[i].id as int),
                    "name"@ => JsonView::Text(threads[i].name),
                ],
            ),
    );
    assert(threads_json(threads)->Object_0["threads"@]->Array_0 =~= ts);
    let fs = Seq::new(frames.len(), |i: int| shown_frame(frames[i]));
    let shown = frames.map_values(|f: FrameView| frame_json(f));
    assert forall|i: int| 0 <= i < frames.len() implies #[trigger] shown[i] == fs[i] by {
        assert(shown[i] == frame_json(frames[i]));
    }
    assert(shown =~= fs);
    let vs = Seq::new(
        variables.len(),
        |i: int|
            JsonView::Object(
                map![
                    "name"@ => JsonView::Text(variables[i].name),
                    "value"@ => JsonView::Text(variables[i].display_value),
                    "variablesReference"@ => JsonView::Int(0),
                ],
            ),
    );
    assert(variables_json(variables)->Object_0["variables"@]->Array_0 =~= vs);
}

/// The editor is told of every breakpoint, in order: one that is set, by its number and the line
/// where it is set; one that is not, by its number and the line that was asked for.
pub proof fn law_what_is_told_of_breakpoints(
    lines: Seq<u32>,
    targets: Seq<Target>,
    results: Seq<Option<PlacementView>>,
    id: u32,
    line: u32,
)
    ensures
        unset_lines_json(lines) == JsonView::Object(
            map![
                "breakpoints"@ => JsonView::Array(
                    Seq::new(
                        lines.len(),
                        |i: int|
                            JsonView::Object(
                                map![
                                    "verified"@ => JsonView::Bool(false),
                                    "line"@ => JsonView::Int(lines[i] as int),
                                ],
                            ),
                    ),
                ),
            ],
        ),
        breakpoints_json(targets, results) == JsonView::Object(
            map![
                "breakpoints"@ => JsonView::Array(
                    Seq::new(
                        targets.len(),
                        |i: int|
                            JsonView::Object(
                                map![
                                    "id"@ => JsonView::Int(targets[i].id as int),
                                    "verified"@ => JsonView::Bool(results[i] is Some),
                                    "line"@ => JsonView::Int(
                                        if results[i] is Some {
                                            results[i]->0.line as int
                                        } else {
                                            targets[i].line as int
                                        },
                                    ),
                                ],
                            ),
                    ),
                ),
            ],
        ),
        breakpoint_changed_json(id, line) == JsonView::Object(
            map![
                "reason"@ => JsonView::Text("changed"@),
                "breakpoint"@ => JsonView::Object(
                    map![
                        "id"@ => JsonView::Int(id as int),
                        "verified"@ => JsonView::Bool(true),
                        "line"@ => JsonView::Int(line as int),
                    ],
                ),
            ],
        ),
{
    let ls = Seq::new(
        lines.len(),
        |i: int|
            JsonView::Object(
                map![
                    "verified"@ => JsonView::Bool(false),
                    "line"@ => JsonView::Int(lines[i] as int),
                ],
            ),
    );
    assert(unset_lines_json(lines)->Object_0["breakpoints"@]->Array_0 =~= ls);
    let bs = Seq::new(
        targets.len(),
        |i: int|
            JsonView::Object(
                map![
                    "id"@ => JsonView::Int(targets[i].id as int),
                    "verified"@ => JsonView::Bool(results[i] is Some),
                    "line"@ => JsonView::Int(
                        if results[i] is Some {
                            results[i]->0.line as int
                        } else {
                            targets[i].line as int
                        },
                    ),
                ],
            ),
    );
    let told = Seq::new(targets.len(), |i: int| outcome_json(targets[i], results[i]));
    assert forall|i: int| 0 <= i < targets.len() implies #[trigger] told[i] == bs[i] by {
        assert(told[i] == outcome_json(targets[i], results[i]));
    }
    assert(told =~= bs);
}

// ---------------------------------------------------------------------------
// What stands in requests
// ---------------------------------------------------------------------------

/// A message is a request where it is an object with a number, a type and a command; its arguments
/// are the member of that name, unless it is null. What is no request leads to nothing.
pub proof fn law_requests_are_objects(
    b: BackendView,
    m: Map<Seq<char>, JsonView>,
    seq: u64,
    kind: Seq<char>,
    command: Seq<char>,
)
    ensures
        m.contains_key("seq"@) && m["seq"@] == JsonView::Int(seq as int) && m.contains_key("type"@)
            && m["type"@] == JsonView::Text(kind) && m.contains_key("command"@) && m["command"@]
            == JsonView::Text(command) ==> request_of(JsonView::Object(m)) == Some(
            DapRequestView {
                seq,
                type_: kind,
                command,
                arguments: if m.contains_key("arguments"@) && m["arguments"@] != JsonView::Null {
                    Some(m["arguments"@])
                } else {
                    None
                },
            },
        ),
        request_of(JsonView::Object(m)) matches Some(q) ==> m.contains_key("seq"@) && m["seq"@]
            == JsonView::Int(q.seq as int) && m.contains_key("type"@) && m["type"@]
            == JsonView::Text(q.type_) && m.contains_key("command"@) && m["command"@]
            == JsonView::Text(q.command),
        match request_of(JsonView::Object(m)) {
            Some(q) => on_message(b, JsonView::Object(m)).backend == if q.type_ == "request"@ {
                on_request(b, q).backend
            } else {
                b
            } && on_message(b, JsonView::Object(m)).messages == if q.type_ == "request"@ {
                on_request(b, q).messages
            } else {
                seq![]
            } && on_message(b, JsonView::Object(m)).work == if q.type_ == "request"@ {
                on_request(b, q).work
            } else {
                WorkView::Nothing
            },
            None => on_message(b, JsonView::Object(m)).backend == b && on_message(
                b,
                JsonView::Object(m),
            ).messages.len() == 0 && on_message(b, JsonView::Object(m)).work is Nothing,
        },
{
}

/// An argument is the member of that name: a text where it is a text, a number where it is a whole
/// number of 64 bits without a sign.
pub proof fn law_arguments_are_members(
    q: DapRequestView,
    m: Map<Seq<char>, JsonView>,
    name: Seq<char>,
    text: Seq<char>,
    n: u64,
)
    requires
        q.arguments == Some(JsonView::Object(m)),
    ensures
        text_argument(q, name) == Some(text) <==> m.contains_key(name) && m[name] == JsonView::Text(
            text,
        ),
        number_argument(q, name) == Some(n) <==> m.contains_key(name) && m[name] == JsonView::Int(
            n as int,
        ),
        argument(q, name) is None <==> !m.contains_key(name),
        m.contains_key("projectRoot"@) && m["projectRoot"@] !is Text && m.contains_key("projectDir"@)
            && m["projectDir"@] == JsonView::Text(text) ==> project_root(q) == Some(text),
        m.contains_key("breakpoints"@) && m["breakpoints"@] is Array ==> requested_lines(q)
            == lines_of(m["breakpoints"@]->Array_0),
        !m.contains_key("breakpoints"@) || m["breakpoints"@] !is Array ==> requested_lines(q).len()
            == 0,
        m.contains_key("source"@) ==> (source_argument(q) == Some(text) <==> m["source"@].member(
            "path"@,
        ) == Some(JsonView::Text(text))),
        !m.contains_key("source"@) ==> source_argument(q) is None,
        m.contains_key("projectRoot"@) && m["projectRoot"@] == JsonView::Text(text)
            ==> project_root(q) == Some(text),
        !m.contains_key("projectRoot"@) ==> (project_root(q) == Some(text) <==> m.contains_key(
            "projectDir"@,
        ) && m["projectDir"@] == JsonView::Text(text)),
{
}

/// Breakpoints are asked for at the lines that are whole numbers, in their order; those that have
/// no such line are left out.
pub proof fn law_all_lines_are_asked_for(breakpoints: Seq<JsonView>)
    ensures
        lines_of(breakpoints) == breakpoints.filter(
            |b: JsonView|
                b.member("line"@) matches Some(JsonView::Int(n)) && 0 <= n
                    <= 0xffff_ffff_ffff_ffff,
        ).map_values(
            |b: JsonView| (b.member("line"@)->0->Int_0 % 0x1_0000_0000) as u32,
        ),
    decreases breakpoints.len(),
{
    reveal(Seq::filter);
    if breakpoints.len() > 0 {
        law_all_lines_are_asked_for(breakpoints.drop_last());
    }
    assert(lines_of(breakpoints) =~= breakpoints.filter(
        |b: JsonView|
            b.member("line"@) matches Some(JsonView::Int(n)) && 0 <= n <= 0xffff_ffff_ffff_ffff,
    ).map_values(|b: JsonView| (b.member("line"@)->0->Int_0 % 0x1_0000_0000) as u32));
}

proof fn lemma_commands()
    ensures
        "initialize"@.len() == 10 && "initialize"@[0] == 'i',
        "launch"@.len() == 6 && "launch"@[0] == 'l',
        "configurationDone"@.len() == 17,
        "setBreakpoints"@.len() == 14,
        "continue"@.len() == 8 && "continue"@[0] == 'c',
        "next"@.len() == 4,
        "stepIn"@.len() == 6 && "stepIn"@[0] == 's' && "stepIn"@[1] == 't',
        "stepOut"@.len() == 7 && "stepOut"@[0] == 's',
        "threads"@.len() == 7 && "threads"@[0] == 't',
        "stackTrace"@.len() == 10 && "stackTrace"@[0] == 's',
        "scopes"@.len() == 6 && "scopes"@[0] == 's' && "scopes"@[1] == 'c',
        "variables"@.len() == 9,
        "evaluate"@.len() == 8 && "evaluate"@[0] == 'e',
        "disconnect"@.len() == 10 && "disconnect"@[0] == 'd',
{
    reveal_strlit("initialize");
    reveal_strlit("launch");
    reveal_strlit("configurationDone");
    reveal_strlit("setBreakpoints");
    reveal_strlit("continue");
    reveal_strlit("next");
    reveal_strlit("stepIn");
    reveal_strlit("stepOut");
    reveal_strlit("threads");
    reveal_strlit("stackTrace");
    reveal_strlit("scopes");
    reveal_strlit("variables");
    reveal_strlit("evaluate");
    reveal_strlit("disconnect");
}

// ---------------------------------------------------------------------------
// Answers
// ---------------------------------------------------------------------------

/// The server first says what it can do, and then that it waits for the configuration.
pub proof fn law_initialize_is_answered(b: BackendView, q: DapRequestView)
    requires
        q.command == "initialize"@,
    ensures
        on_request(b, q).messages == seq![
            ok_json(
                next(b.seq),
                q.seq,
                q.command,
                Some(
                    JsonView::Object(
                        map!["supportsConfigurationDoneRequest"@ => JsonView::Bool(true)],
                    ),
                ),
            ),
            event_json(next(next(b.seq)), "initialized"@, None),
        ],
        on_request(b, q).backend.session == b.session,
        on_request(b, q).work is Nothing,
{
}

/// A launch is work, with the project and the main class that the request names; without a project
/// it is refused.
pub proof fn law_launch_names_its_project(b: BackendView, q: DapRequestView)
    requires
        q.command == "launch"@,
    ensures
        match project_root(q) {
            Some(root) => on_request(b, q).work == (WorkView::Launch {
                root,
                main_class: text_argument(q, "mainClass"@),
                request: q.seq,
            }) && on_request(b, q).messages.len() == 0 && on_request(b, q).backend == b,
            None => on_request(b, q).messages == seq![
                err_json(
                    next(b.seq),
                    q.seq,
                    q.command,
                    "launch requires 'projectRoot' argument"@,
                ),
                event_json(next(next(b.seq)), "terminated"@, None),
            ] && on_request(b, q).work is Nothing,
        },
{
    lemma_commands();
}

/// What lets the JVM run, and what ends a step.
pub proof fn law_commands_of_running(id: u32, requests: Seq<u32>)
    ensures
        resume() == (CommandView { set: 1, cmd: 9, data: seq![] }),
        step_cleared(None) == Seq::<CommandView>::empty(),
        step_cleared(Some(id)) == seq![
            CommandView { set: 15, cmd: 2, data: seq![1u8] + be_bytes(id as nat, 4) },
        ],
        breakpoints_cleared(requests) == Seq::new(
            requests.len(),
            |i: int|
                CommandView { set: 15, cmd: 2, data: seq![2u8] + be_bytes(requests[i] as nat, 4) },
        ),
{
    assert(breakpoints_cleared(requests) =~= Seq::new(
        requests.len(),
        |i: int|
            CommandView { set: 15, cmd: 2, data: seq![2u8] + be_bytes(requests[i] as nat, 4) },
    ));
}

/// To go on lets the JVM run, and forgets what it showed. Where there is no session, nothing is
/// sent. Once the configuration is done, the JVM runs too.
pub proof fn law_going_on_lets_the_jvm_run(b: BackendView, q: DapRequestView)
    ensures
        q.command == "continue"@ ==> on_request(b, q).messages == seq![
            ok_json(
                next(b.seq),
                q.seq,
                q.command,
                Some(JsonView::Object(map!["allThreadsContinued"@ => JsonView::Bool(true)])),
            ),
        ],
        q.command == "continue"@ ==> match b.session {
            Some(s) => on_request(b, q).work == (WorkView::Send {
                commands: step_cleared(s.pending_step_request).push(resume()),
            }) && on_request(b, q).backend.session == Some(
                SessionView { snapshot: None, pending_step_request: None, ..s },
            ),
            None => on_request(b, q).work is Nothing && on_request(b, q).backend.session is None,
        },
        q.command == "configurationDone"@ ==> on_request(b, q).messages == seq![
            ok_json(next(b.seq), q.seq, q.command, None),
        ] && on_request(b, q).backend.session == b.session && on_request(b, q).work
            == if b.session is Some {
            WorkView::Send { commands: seq![resume()] }
        } else {
            WorkView::Nothing
        },
{
    lemma_commands();
}

/// A step is made by the thread that has stopped, by one line: over calls, into them, or out of
/// the method, as the command says. A step under way is ended first, and what showed is forgotten.
pub proof fn law_steps_go_as_asked(b: BackendView, q: DapRequestView, s: SessionView, snap: SnapshotView)
    requires
        b.session == Some(s),
        s.snapshot == Some(snap),
        snap.stopped_thread_id != 0,
        q.command == "next"@ || q.command == "stepIn"@ || q.command == "stepOut"@,
    ensures
        on_request(b, q).work == (WorkView::Step {
            before: step_cleared(s.pending_step_request),
            command: CommandView {
                set: 15,
                cmd: 1,
                data: seq![1u8, 2u8, 0u8, 0u8, 0u8, 1u8, 10u8] + be_bytes(
                    snap.stopped_thread_id as nat,
                    8,
                ) + seq![0u8, 0u8, 0u8, 1u8] + seq![
                    0u8,
                    0u8,
                    0u8,
                    if q.command == "next"@ {
                        1u8
                    } else if q.command == "stepIn"@ {
                        0u8
                    } else {
                        2u8
                    },
                ],
            },
            request: q.seq,
            name: q.command,
        }),
        on_request(b, q).messages.len() == 0,
        on_request(b, q).backend.session == Some(
            SessionView { snapshot: None, pending_step_request: None, ..s },
        ),
{
    lemma_commands();
    reveal_with_fuel(be_bytes, 5);
    assert(be_bytes(0, 4) =~= seq![0u8, 0u8, 0u8, 0u8]);
    assert(be_bytes(1, 4) =~= seq![0u8, 0u8, 0u8, 1u8]);
    assert(be_bytes(2, 4) =~= seq![0u8, 0u8, 0u8, 2u8]);
    assert(crate::jdwp::client::request_head(1, 1).push(10) =~= seq![
        1u8,
        2u8,
        0u8,
        0u8,
        0u8,
        1u8,
        10u8,
    ]);
}

/// The breakpoints of a source file are replaced by those that are asked for: those of other files
/// stay, the new ones wait behind them, one at each line, the old ones are taken away in the JVM,
/// and the new ones are to be set in the classes of the file. Without a session none is set.
pub proof fn law_breakpoints_are_set_as_asked(b: BackendView, q: DapRequestView, source: Seq<char>)
    requires
        q.command == "setBreakpoints"@,
        source_argument(q) == Some(source),
    ensures
        match b.session {
            None => on_request(b, q).messages == seq![
                ok_json(
                    next(b.seq),
                    q.seq,
                    q.command,
                    Some(unset_lines_json(requested_lines(q))),
                ),
            ] && on_request(b, q).work is Nothing,
            Some(s) => {
                let targets = targets_for(requested_lines(q), s.next_bp_id);
                &&& on_request(b, q).messages.len() == 0
                &&& on_request(b, q).backend.session matches Some(t) && t.breakpoints
                    == s.breakpoints.filter(
                    |x: BreakpointView| !same_path(x.source_path, source),
                ) + pending_at(source, targets) && t.next_bp_id == (s.next_bp_id
                    + requested_lines(q).len()) % 0x1_0000_0000 && t.log == s.log && t.snapshot
                    == s.snapshot && t.pending_step_request == s.pending_step_request
                    && t.pending_exception_class == s.pending_exception_class
                &&& on_request(b, q).work matches WorkView::Install { before, installer, request }
                    && request == q.seq && installer.targets == targets && installer.class_names
                    == classes_of(s.log, parts(source)) && before == breakpoints_cleared(
                    crate::server::breakpoints::requests_at(s.breakpoints, source),
                )
            },
        },
{
    lemma_commands();
    if b.session is Some {
        law_breakpoints_of_a_source_are_taken_out(b.session->0.breakpoints, source);
    }
}

/// The number that is given, or zero.
pub open spec fn or_zero(n: Option<u64>) -> u64 {
    if n is Some {
        n->0
    } else {
        0
    }
}

/// Threads, frames, scopes and variables are shown from the snapshot: those that the request names,
/// by the number that it gives, or nothing where there is none.
pub proof fn law_looking_shows_the_snapshot(b: BackendView, q: DapRequestView, snap: SnapshotView)
    requires
        b.session matches Some(s) && s.snapshot == Some(snap),
    ensures
        q.command == "threads"@ ==> on_request(b, q).messages == seq![
            ok_json(next(b.seq), q.seq, q.command, Some(threads_json(snap.threads))),
        ],
        q.command == "stackTrace"@ ==> ({
            let thread = thread_with_id(snap.threads, or_zero(number_argument(q, "threadId"@)));
            let frames = if thread is Some {
                thread->0.frames
            } else {
                seq![]
            };
            on_request(b, q).messages == seq![
                ok_json(next(b.seq), q.seq, q.command, Some(frames_json(frames))),
            ]
        }),
        q.command == "scopes"@ ==> ({
            let frame = frame_with_id(
                all_frames(snap.threads),
                or_zero(number_argument(q, "frameId"@)),
            );
            on_request(b, q).messages == seq![
                ok_json(next(b.seq), q.seq, q.command, Some(scopes_json(frame))),
            ]
        }),
        q.command == "variables"@ ==> ({
            let n = or_zero(number_argument(q, "variablesReference"@));
            let frame = frame_with_ref(all_frames(snap.threads), (n % 0x1_0000_0000) as u32);
            let variables = if frame is Some {
                frame->0.variables
            } else {
                seq![]
            };
            on_request(b, q).messages == seq![
                ok_json(next(b.seq), q.seq, q.command, Some(variables_json(variables))),
            ]
        }),
{
    lemma_commands();
}

/// Without a snapshot nothing shows.
pub proof fn law_nothing_shows_while_the_jvm_runs(b: BackendView, q: DapRequestView)
    requires
        b.session is None || b.session->0.snapshot is None,
    ensures
        q.command == "threads"@ ==> on_request(b, q).messages == seq![
            ok_json(next(b.seq), q.seq, q.command, Some(threads_json(seq![]))),
        ],
        q.command == "stackTrace"@ ==> on_request(b, q).messages == seq![
            ok_json(next(b.seq), q.seq, q.command, Some(frames_json(seq![]))),
        ],
        q.command == "scopes"@ ==> on_request(b, q).messages == seq![
            ok_json(next(b.seq), q.seq, q.command, Some(scopes_json(None))),
        ],
        q.command == "variables"@ ==> on_request(b, q).messages == seq![
            ok_json(next(b.seq), q.seq, q.command, Some(variables_json(seq![]))),
        ],
        q.command == "evaluate"@ && text_argument(q, "expression"@) is Some ==> on_request(
            b,
            q,
        ).messages == seq![err_json(next(b.seq), q.seq, q.command, "not available"@)],
{
    lemma_commands();
}

/// A name shows the value of the first variable of that name in the frame that is asked for; or,
/// where none is asked for, in the topmost frame of the stopped thread. A name that no variable
/// has is not available.
pub proof fn law_names_show_their_values(
    b: BackendView,
    q: DapRequestView,
    snap: SnapshotView,
    name: Seq<char>,
    f: FrameView,
    i: int,
)
    requires
        q.command == "evaluate"@,
        text_argument(q, "expression"@) == Some(name),
        b.session matches Some(s) && s.snapshot == Some(snap),
        match number_argument(q, "frameId"@) {
            Some(id) => frame_with_id(all_frames(snap.threads), id) == Some(f),
            None => thread_with_id(snap.threads, snap.stopped_thread_id) matches Some(t)
                && t.frames.len() > 0 && t.frames[0] == f,
        },
        0 <= i <= f.variables.len(),
        i < f.variables.len() ==> f.variables[i].name == name,
        forall|j: int| 0 <= j < i ==> (#[trigger] f.variables[j]).name != name,
    ensures
        i < f.variables.len() ==> on_request(b, q).messages == seq![
            ok_json(
                next(b.seq),
                q.seq,
                q.command,
                Some(
                    JsonView::Object(
                        map![
                            "result"@ => JsonView::Text(f.variables[i].display_value),
                            "variablesReference"@ => JsonView::Int(0),
                        ],
                    ),
                ),
            ),
        ],
        i == f.variables.len() ==> on_request(b, q).messages == seq![
            err_json(next(b.seq), q.seq, q.command, "not available"@),
        ],
{
    lemma_commands();
    lemma_value_at(f.variables, name, i);
}

proof fn lemma_value_at(variables: Seq<VariableView>, name: Seq<char>, i: int)
    requires
        0 <= i <= variables.len(),
        i < variables.len() ==> variables[i].name == name,
        forall|j: int| 0 <= j < i ==> (#[trigger] variables[j]).name != name,
    ensures
        value_of(variables, name) == if i < variables.len() {
            Some(variables[i].display_value)
        } else {
            None
        },
    decreases variables.len(),
{
    if i > 0 {
        let t = variables.drop_first();
        assert(variables[0].name != name);
        assert forall|j: int| 0 <= j < i - 1 implies (#[trigger] t[j]).name != name by {
            assert(t[j] == variables[j + 1]);
        }
        if i < variables.len() {
            assert(t[i - 1] == variables[i]);
        }
        lemma_value_at(t, name, i - 1);
    }
}

/// What cannot be done is refused, and says why.
pub proof fn law_refusals_say_why(b: BackendView, q: DapRequestView)
    ensures
        q.command == "setBreakpoints"@ && source_argument(q) is None ==> on_request(b, q).messages
            == seq![err_json(next(b.seq), q.seq, q.command, "setBreakpoints requires 'source.path'"@)],
        q.command == "evaluate"@ && text_argument(q, "expression"@) is None ==> on_request(
            b,
            q,
        ).messages == seq![err_json(next(b.seq), q.seq, q.command, "missing expression"@)],
        (q.command == "next"@ || q.command == "stepIn"@ || q.command == "stepOut"@)
            && b.session is None ==> on_request(b, q).messages == seq![
            err_json(next(b.seq), q.seq, q.command, "no active debug session"@),
        ],
        (q.command == "next"@ || q.command == "stepIn"@ || q.command == "stepOut"@)
            && b.session is Some && (b.session->0.snapshot is None
            || b.session->0.snapshot->0.stopped_thread_id == 0) ==> on_request(b, q).messages
            == seq![err_json(next(b.seq), q.seq, q.command, "no stopped thread"@)],
{
    lemma_commands();
}

/// To disconnect ends the session. Where there was none, the editor is told at once that it is
/// over.
pub proof fn law_disconnecting_ends_the_session(b: BackendView, q: DapRequestView)
    requires
        q.command == "disconnect"@,
    ensures
        on_request(b, q).backend.session is None,
        b.session is Some ==> on_request(b, q).work is Stop && on_request(b, q).messages == seq![
            ok_json(next(b.seq), q.seq, q.command, None),
        ],
        b.session is None ==> on_request(b, q).work is Nothing && on_request(b, q).messages == seq![
            ok_json(next(b.seq), q.seq, q.command, None),
            event_json(next(next(b.seq)), "terminated"@, None),
        ],
{
    lemma_commands();
}

/// The number after a number is the next one, and after the last comes zero.
pub proof fn law_numbers_go_up_by_one(n: u64)
    ensures
        n < 0xffff_ffff_ffff_ffff ==> next(n) == n + 1,
        next(0xffff_ffff_ffff_ffff) == 0,
{
}

/// A new session has no breakpoints and shows nothing; its first breakpoint gets the number one.
pub proof fn law_a_session_starts_empty(log: crate::source_map::Log)
    ensures
        SessionView::fresh(log).log == log,
        SessionView::fresh(log).breakpoints.len() == 0,
        SessionView::fresh(log).next_bp_id == 1,
        SessionView::fresh(log).snapshot is None,
        SessionView::fresh(log).pending_step_request is None,
        SessionView::fresh(log).pending_exception_class is None,
{
}

} // verus!
