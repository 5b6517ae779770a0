//! What holds of snapshots: that what the JVM says of its threads and frames is what shows.

use vstd::prelude::*;
use crate::jdwp::client::{get_line_table, get_variable_table, slot_bytes, CommandView};
use crate::jdwp::encode::{
    frame_bytes, is_writable, law_frames_read_back, law_line_table_reads_back,
    law_methods_read_back, law_string_reads_back, law_threads_read_back, law_values_read_back,
    law_variable_table_reads_back, line_bytes, list_bytes, method_bytes, stands_at, string_bytes,
    value_bytes, variable_bytes, is_primitive_tag,
};
use crate::jdwp::read::{get_list, get_string, JdwpError};
use crate::jdwp::value::JvmValue;
use crate::jdwp::{
    FrameInfo, LineTableEntry, LineTableView, MethodInfo, MethodInfoView, ThreadId, VariableInfoView,
};
use crate::number::hex;
use crate::server::frame_reader::{law_frame_reader_comes_to_an_end, FrameReaderView};
use crate::server::gather::{
    frames_in, law_every_value_shows_by_its_own_answer, law_variables_show_in_their_range, line_at,
    plain_text, queried, query_of, slots_of, string_in, threads_in, values_in, variables_in, NeedView,
};
use crate::server::lines::{methods_in, table_in};
use crate::server::snapshot::{
    all_frames, frame_with_id, frame_with_ref, thread_with_id, FrameView, ThreadView,
};
use crate::server::snapshot_builder::{
    class_found, class_with_id, frame_found, frames_done, law_builder_stays_sound, method_name,
    method_with_id, simple_name, snapshot_of, thread_name_in, threads_done, BuilderView,
    KnownClassView, RawFrameView, RawThreadView,
};
use crate::server::binary_name;
use crate::source_map::{source_of, Log};
use crate::text::{last_index_of, lemma_last_index_of};
use crate::wire::be_bytes;

verus! {

// ---------------------------------------------------------------------------
// Names
// ---------------------------------------------------------------------------

/// A class or method is found by its number: the first one that has it; and none only where none
/// has it.
pub proof fn law_classes_and_methods_are_found(
    classes: Seq<KnownClassView>,
    methods: Seq<MethodInfoView>,
    id: u64,
    i: int,
)
    ensures
        0 <= i < classes.len() && classes[i].id == id && (forall|j: int|
            0 <= j < i ==> (#[trigger] classes[j]).id != id) ==> class_with_id(classes, id) == Some(
            classes[i],
        ),
        (forall|j: int| 0 <= j < classes.len() ==> (#[trigger] classes[j]).id != id)
            ==> class_with_id(classes, id) is None,
        0 <= i < methods.len() && methods[i].method_id == id && (forall|j: int|
            0 <= j < i ==> (#[trigger] methods[j]).method_id != id) ==> method_name(methods, id)
            == methods[i].name,
        (forall|j: int| 0 <= j < methods.len() ==> (#[trigger] methods[j]).method_id != id)
            ==> method_name(methods, id) == seq!['m', 'e', 't', 'h', 'o', 'd', '-'] + hex(
            id as nat,
        ),
{
    if 0 <= i < classes.len() && classes[i].id == id && (forall|j: int|
        0 <= j < i ==> (#[trigger] classes[j]).id != id) {
        lemma_class_at(classes, id, i);
    }
    if forall|j: int| 0 <= j < classes.len() ==> (#[trigger] classes[j]).id != id {
        lemma_class_at(classes, id, classes.len() as int);
    }
    if 0 <= i < methods.len() && methods[i].method_id == id && (forall|j: int|
        0 <= j < i ==> (#[trigger] methods[j]).method_id != id) {
        lemma_method_at(methods, id, i);
    }
    if forall|j: int| 0 <= j < methods.len() ==> (#[trigger] methods[j]).method_id != id {
        lemma_method_at(methods, id, methods.len() as int);
    }
    reveal_strlit("method-");
    assert("method-"@ =~= seq!['m', 'e', 't', 'h', 'o', 'd', '-']);
}

proof fn lemma_class_at(classes: Seq<KnownClassView>, id: u64, i: int)
    requires
        0 <= i <= classes.len(),
        i < classes.len() ==> classes[i].id == id,
        forall|j: int| 0 <= j < i ==> (#[trigger] classes[j]).id != id,
    ensures
        class_with_id(classes, id) == if i < classes.len() {
            Some(classes[i])
        } else {
            None
        },
    decreases classes.len(),
{
    if i > 0 {
        let t = classes.drop_first();
        assert forall|j: int| 0 <= j < i - 1 implies (#[trigger] t[j]).id != id by {
            assert(t[j] == classes[j + 1]);
        }
        assert(classes[0].id != id);
        if i < classes.len() {
            assert(t[i - 1] == classes[i]);
        }
        lemma_class_at(t, id, i - 1);
    }
}

proof fn lemma_method_at(methods: Seq<MethodInfoView>, id: u64, i: int)
    requires
        0 <= i <= methods.len(),
        i < methods.len() ==> methods[i].method_id == id,
        forall|j: int| 0 <= j < i ==> (#[trigger] methods[j]).method_id != id,
    ensures
        method_with_id(methods, id) == if i < methods.len() {
            Some(methods[i].name)
        } else {
            None
        },
    decreases methods.len(),
{
    if i > 0 {
        let t = methods.drop_first();
        assert forall|j: int| 0 <= j < i - 1 implies (#[trigger] t[j]).method_id != id by {
            assert(t[j] == methods[j + 1]);
        }
        assert(methods[0].method_id != id);
        if i < methods.len() {
            assert(t[i - 1] == methods[i]);
        }
        lemma_method_at(t, id, i - 1);
    }
}

/// A class shows by what follows the last slash of its name. The name is the signature without
/// the letter before it and the semicolon behind it.
pub proof fn law_classes_show_by_their_last_names(package: Seq<char>, name: Seq<char>)
    requires
        !name.contains('/'),
    ensures
        simple_name(package + seq!['/'] + name) == name,
        simple_name(name) == name,
        binary_name(seq!['L'] + package + seq![';']) == package,
        package.len() > 0 && package[0] != 'L' && package.last() != ';' ==> binary_name(package)
            == package,
{
    let s = package + seq!['/'] + name;
    lemma_last_index_of(s, '/');
    lemma_last_index_of(name, '/');
    let n = last_index_of(s, '/');
    let m = last_index_of(name, '/');
    assert(s[package.len() as int] == '/');
    if n > package.len() {
        assert(name[n - package.len() - 1] == '/');
    }
    if m >= 0 {
        assert(name[m] == '/');
    }
    assert(s.skip(n + 1) =~= name);
    assert(name.skip(m + 1) =~= name);
    let t = seq!['L'] + package + seq![';'];
    assert(t.skip(1).drop_last() =~= package);
}

/// A thread shows by its name, or by its number where the name could not be had.
pub proof fn law_threads_show_by_their_names(
    reply: Result<Seq<u8>, JdwpError>,
    id: u64,
    name: Seq<char>,
)
    ensures
        is_writable(name) && (reply matches Ok(d) && stands_at(d, 0, string_bytes(name)))
            ==> thread_name_in(reply, id) == name,
        reply is Err ==> thread_name_in(reply, id) == seq!['T', 'h', 'r', 'e', 'a', 'd', '-'] + hex(
            id as nat,
        ),
{
    if is_writable(name) && (reply matches Ok(d) && stands_at(d, 0, string_bytes(name))) {
        law_string_reads_back(reply->Ok_0, 0, name);
    }
    reveal_strlit("Thread-");
    assert("Thread-"@ =~= seq!['T', 'h', 'r', 'e', 'a', 'd', '-']);
}

// ---------------------------------------------------------------------------
// What a frame is asked and told
// ---------------------------------------------------------------------------

/// The slots that are asked for are written one behind the other, each with its tag.
pub proof fn law_slots_are_written_in_order(slots: Seq<(u32, u8)>)
    ensures
        slot_bytes(slots) == slots.map_values(
            |s: (u32, u8)| be_bytes(s.0 as nat, 4).push(s.1),
        ).flatten(),
    decreases slots.len(),
{
    let bytes = slots.map_values(|s: (u32, u8)| be_bytes(s.0 as nat, 4).push(s.1));
    if slots.len() > 0 {
        let less = slots.drop_last();
        law_slots_are_written_in_order(less);
        let b = less.map_values(|s: (u32, u8)| be_bytes(s.0 as nat, 4).push(s.1));
        let last = be_bytes(slots.last().0 as nat, 4).push(slots.last().1);
        assert(bytes =~= b.push(last));
        b.lemma_flatten_push(last);
    } else {
        assert(bytes =~= seq![]);
    }
}

/// All that is asked about a frame is asked about that frame: its own class, its own method, its
/// own variables and values. A frame that nothing is asked about is known.
pub proof fn law_a_frame_is_asked_about_itself(v: FrameReaderView)
    requires
        v.inv(),
    ensures
        match v.asks() {
            Some(NeedView::Command(c)) => {
                let class = be_bytes(v.frame.location.class_id as nat, 8);
                let method = be_bytes(v.frame.location.method_id as nat, 8);
                &&& c.set == 2 || c.set == 6 || c.set == 16 || c.set == 10
                &&& c.set == 2 ==> v.new_class && c.data == class && (c.cmd == 1 || c.cmd == 15)
                &&& c.set == 6 ==> c.data == class + method && (c.cmd == 1 || c.cmd == 5)
                &&& c.set == 16 ==> c.cmd == 1 && v.scope is Some && c.data == be_bytes(
                    v.thread_id as nat,
                    8,
                ) + be_bytes(v.frame.frame_id as nat, 8) + be_bytes(v.scope->0.len(), 4)
                    + slot_bytes(slots_of(v.scope->0))
            },
            Some(NeedView::Real(_)) => v.scope is Some && v.values is Some,
            None => {
                &&& v.new_class ==> v.signature is Some && v.methods is Some
                &&& v.line is Some
                &&& v.scope is Some
                &&& v.scope->0.len() > 0 ==> v.values is Some
                &&& v.found.len() == v.queried.len()
            },
        },
{
    if v.values is Some {
        law_frame_reader_comes_to_an_end(v, Err(JdwpError::WriteClosed), seq![]);
        lemma_only_what_is_asked(v.values->0);
    }
}

proof fn lemma_only_what_is_asked(values: Seq<JvmValue>)
    ensures
        forall|i: int|
            0 <= i < queried(values).len()
                ==> query_of(
                #[trigger] queried(values)[i],
            ) is Some,
    decreases values.len(),
{
    let all = queried(values);
    if values.len() > 0 {
        let less = values.drop_last();
        lemma_only_what_is_asked(less);
        let before = queried(less);
        assert forall|i: int| 0 <= i < all.len() implies query_of(
            #[trigger] all[i],
        ) is Some by {
            if i < before.len() {
                assert(all[i] == before[i]);
            }
        }
    }
}

/// What the JVM answers is what is known: the signature and the methods of the class, the line
/// that the table has for the place, the variables whose range the place is in, and as many
/// values as there are variables.
pub proof fn law_a_frame_knows_what_it_is_told(
    v: FrameReaderView,
    d: Seq<u8>,
    signature: Seq<char>,
    methods: Seq<MethodInfoView>,
    table: LineTableView,
    slots: u32,
    variables: Seq<VariableInfoView>,
    values: Seq<JvmValue>,
    generic: Seq<char>,
)
    requires
        v.asks() is Some,
        is_writable(signature) && is_writable(generic),
        methods.len() < 0x1_0000_0000 && table.lines.len() < 0x1_0000_0000 && variables.len()
            < 0x1_0000_0000 && values.len() < 0x1_0000_0000,
        forall|i: int|
            0 <= i < methods.len() ==> is_writable((#[trigger] methods[i]).name) && is_writable(
                methods[i].signature,
            ),
        forall|i: int|
            0 <= i < variables.len() ==> is_writable((#[trigger] variables[i]).name) && is_writable(
                variables[i].signature,
            ),
        forall|i: int|
            0 <= i < values.len() ==> (#[trigger] values[i] matches JvmValue::Object { tag, id }
                ==> !is_primitive_tag(tag)),
    ensures
        ({
            let t = v.told(Ok(d));
            let class_known = !v.new_class || v.signature is Some && v.methods is Some;
            &&& v.new_class && v.signature is None && stands_at(d, 0, string_bytes(signature)) ==> t
                == (FrameReaderView { signature: Some(signature), ..v })
            &&& v.new_class && v.signature is Some && v.methods is None && stands_at(
                d,
                0,
                list_bytes(methods.map_values(|m: MethodInfoView| method_bytes(m, generic))),
            ) ==> t == (FrameReaderView { methods: Some(methods), ..v })
            &&& class_known && v.line is None && stands_at(
                d,
                0,
                be_bytes(table.start as nat, 8) + be_bytes(table.end as nat, 8) + list_bytes(
                    table.lines.map_values(|e: LineTableEntry| line_bytes(e)),
                ),
            ) ==> t == (FrameReaderView {
                line: Some(line_at(table.lines, v.frame.location.index)),
                ..v
            })
            &&& class_known && v.line is Some && v.scope is None && stands_at(
                d,
                0,
                be_bytes(slots as nat, 4) + list_bytes(
                    variables.map_values(|x: VariableInfoView| variable_bytes(x, generic)),
                ),
            ) ==> t == (FrameReaderView {
                scope: Some(
                    variables.filter(
                        |x: VariableInfoView|
                            x.code_index <= v.frame.location.index && v.frame.location.index
                                - x.code_index < x.length,
                    ),
                ),
                ..v
            })
            &&& class_known && v.line is Some && v.scope is Some && v.scope->0.len() > 0
                && v.values is None && stands_at(
                d,
                0,
                list_bytes(values.map_values(|x: JvmValue| value_bytes(x))),
            ) ==> t.scope == v.scope && t.line == v.line && t.frame == v.frame && t.values == Some(
                if values.len() <= v.scope->0.len() {
                    values
                } else {
                    values.take(v.scope->0.len() as int)
                },
            )
        }),
{
    if stands_at(d, 0, string_bytes(signature)) {
        law_string_reads_back(d, 0, signature);
    }
    if stands_at(
        d,
        0,
        list_bytes(methods.map_values(|m: MethodInfoView| method_bytes(m, generic))),
    ) {
        law_methods_read_back(d, 0, methods, generic);
    }
    if stands_at(
        d,
        0,
        be_bytes(table.start as nat, 8) + be_bytes(table.end as nat, 8) + list_bytes(
            table.lines.map_values(|e: LineTableEntry| line_bytes(e)),
        ),
    ) {
        law_line_table_reads_back(d, table);
    }
    if stands_at(
        d,
        0,
        be_bytes(slots as nat, 4) + list_bytes(
            variables.map_values(|x: VariableInfoView| variable_bytes(x, generic)),
        ),
    ) {
        law_variable_table_reads_back(d, slots, variables, generic);
        law_variables_show_in_their_range(variables, v.frame.location.index);
    }
    if stands_at(d, 0, list_bytes(values.map_values(|x: JvmValue| value_bytes(x)))) {
        law_values_read_back(d, 0, values);
    }
}

// ---------------------------------------------------------------------------
// What the threads are asked and told
// ---------------------------------------------------------------------------

/// An answer that a gatherer gets: what the JVM says, or the text of a number.
pub enum Answer {
    Reply(Result<Seq<u8>, JdwpError>),
    Text(Seq<char>),
}

pub open spec fn told_one(v: BuilderView, a: Answer) -> BuilderView {
    match a {
        Answer::Reply(r) => v.told(r),
        Answer::Text(t) => v.told_text(t),
    }
}

/// What is known once all answers have come, one after the other.
pub open spec fn told_all(v: BuilderView, answers: Seq<Answer>) -> BuilderView
    decreases answers.len(),
{
    if answers.len() == 0 {
        v
    } else {
        told_one(told_all(v, answers.drop_last()), answers.last())
    }
}

/// Whether a known frame is that of `info`: it has its number, and the names of the class and the
/// method of its location.
pub open spec fn is_frame_of(f: RawFrameView, info: FrameInfo, classes: Seq<KnownClassView>) -> bool {
    &&& f.frame_id == info.frame_id
    &&& class_with_id(classes, info.location.class_id) matches Some(class) && f.binary_name
        == class.name && f.class_name == simple_name(class.name) && f.method_name == method_name(
        class.methods,
        info.location.method_id,
    )
}

/// Whether the frames that are known are those that the JVM has told of, and the frame in hand is
/// the next of them.
pub open spec fn goes_by_frames(v: BuilderView) -> bool {
    v.raw matches Some(raw) ==> {
        &&& v.frames.len() < raw.len()
        &&& v.reader.frame == raw[v.frames.len() as int]
        &&& v.reader.thread_id == v.thread_id()
        &&& forall|i: int|
            0 <= i < v.frames.len() ==> is_frame_of(#[trigger] v.frames[i], raw[i], v.classes)
    }
}

proof fn lemma_class_stays(classes: Seq<KnownClassView>, class: KnownClassView, id: u64)
    ensures
        class_with_id(classes, id) is Some ==> class_with_id(classes.push(class), id)
            == class_with_id(classes, id),
        class_with_id(classes, id) is None && class.id == id ==> class_with_id(
            classes.push(class),
            id,
        ) == Some(class),
    decreases classes.len(),
{
    if classes.len() > 0 {
        assert(classes.push(class).drop_first() =~= classes.drop_first().push(class));
        lemma_class_stays(classes.drop_first(), class, id);
    } else {
        assert(classes.push(class)[0] == class);
    }
}

/// An answer either leaves the thread in hand as it is, or adds the frame in hand to its frames,
/// or ends it: then it is known with all its frames.
proof fn lemma_frames_go_on(v: BuilderView, a: Answer)
    requires
        v.inv(),
        goes_by_frames(v),
        v.raw is Some,
        v.reader.new_class ==> class_with_id(v.classes, v.reader.frame.location.class_id) is None,
    ensures
        ({
            let w = told_one(v, a);
            let raw = v.raw->0;
            &&& w.ids == v.ids
            &&& w.inv()
            &&& goes_by_frames(w)
            &&& forall|id: u64| #[trigger]
                class_with_id(v.classes, id) is Some ==> class_with_id(w.classes, id)
                    == class_with_id(v.classes, id)
            &&& w.raw == v.raw && w.threads == v.threads && w.name == v.name && (w.reader.new_class
                ==> class_with_id(w.classes, w.reader.frame.location.class_id) is None) || {
                &&& w.raw is None
                &&& w.name is None
                &&& w.threads.len() == v.threads.len() + 1
                &&& w.threads.drop_last() == v.threads
                &&& w.threads.last().id == v.thread_id()
                &&& w.threads.last().name == v.name->0
                &&& w.threads.last().frames.len() == raw.len()
                &&& forall|i: int|
                    0 <= i < raw.len() ==> is_frame_of(
                        #[trigger] w.threads.last().frames[i],
                        raw[i],
                        w.classes,
                    )
            }
        }),
{
    let (r, t) = match a {
        Answer::Reply(r) => (r, Seq::<char>::empty()),
        Answer::Text(t) => (Err(JdwpError::WriteClosed), t),
    };
    law_builder_stays_sound(v, r, t);
    law_frame_reader_comes_to_an_end(v.reader, r, t);
    let raw = v.raw->0;
    let w = told_one(v, a);
    let reader = match a {
        Answer::Reply(r) => v.reader.told(r),
        Answer::Text(t) => v.reader.told_text(t),
    };
    assert(w == v.reading(reader));
    if reader.asks() is None {
        let class = class_found(reader);
        let classes = if reader.new_class {
            v.classes.push(class)
        } else {
            v.classes
        };
        if reader.new_class {
            lemma_class_stays(v.classes, class, class.id);
        }
        assert forall|id: u64| #[trigger] class_with_id(v.classes, id) is Some implies class_with_id(
            classes,
            id,
        ) == class_with_id(v.classes, id) by {
            if reader.new_class {
                lemma_class_stays(v.classes, class, id);
            }
        }
        let frames = v.frames.push(frame_found(reader, classes));
        assert forall|i: int| 0 <= i < frames.len() implies is_frame_of(
            #[trigger] frames[i],
            raw[i],
            classes,
        ) by {
            if i < v.frames.len() {
                assert(frames[i] == v.frames[i]);
                assert(is_frame_of(v.frames[i], raw[i], v.classes));
            }
        }
        if frames.len() == raw.len() {
            assert(w.threads.drop_last() =~= v.threads);
            assert(w.threads.last().frames == frames);
        }
    }
}

/// The frames that the JVM tells of a thread are the frames that the thread has. Where the answer
/// to the question for its frames is a list of frames, then once the thread is known, whatever
/// the answers in between were, it has just as many frames; each has the number of the one that
/// was told of in its place, and the names of the class and the method that it stands in.
pub proof fn law_a_thread_has_the_frames_it_was_told_of(
    v: BuilderView,
    frames: Seq<FrameInfo>,
    d: Seq<u8>,
    answers: Seq<Answer>,
)
    requires
        v.inv(),
        v.has_thread(),
        v.name is Some,
        v.raw is None,
        frames.len() < 0x1_0000_0000,
        stands_at(d, 0, list_bytes(frames.map_values(|f: FrameInfo| frame_bytes(f)))),
        answers.len() > 0,
        answers[0] == Answer::Reply(Ok(d)),
    ensures
        ({
            let w = told_all(v, answers);
            let n = v.threads.len();
            &&& w.inv()
            &&& w.threads.len() > n ==> {
                &&& w.threads[n as int].id == v.thread_id()
                &&& w.threads[n as int].name == v.name->0
                &&& w.threads[n as int].frames.len() == frames.len()
                &&& forall|i: int|
                    0 <= i < frames.len() ==> is_frame_of(
                        #[trigger] w.threads[n as int].frames[i],
                        frames[i],
                        w.classes,
                    )
            }
        }),
{
    lemma_told_all(v, frames, d, answers);
}

spec fn has_the_frames(v: BuilderView, w: BuilderView, frames: Seq<FrameInfo>) -> bool {
    let n = v.threads.len();
    &&& w.inv()
    &&& goes_by_frames(w)
    &&& w.ids == v.ids
    &&& w.raw is Some && w.reader.new_class ==> class_with_id(
        w.classes,
        w.reader.frame.location.class_id,
    ) is None
    &&& w.threads.len() == n && w.threads == v.threads && w.raw == Some(frames) && w.name == v.name
        || {
        &&& w.threads.len() > n
        &&& w.threads[n as int].id == v.thread_id()
        &&& w.threads[n as int].name == v.name->0
        &&& w.threads[n as int].frames.len() == frames.len()
        &&& forall|i: int|
            0 <= i < frames.len() ==> is_frame_of(
                #[trigger] w.threads[n as int].frames[i],
                frames[i],
                w.classes,
            )
    }
}

proof fn lemma_told_all(
    v: BuilderView,
    frames: Seq<FrameInfo>,
    d: Seq<u8>,
    answers: Seq<Answer>,
)
    requires
        v.inv(),
        v.has_thread(),
        v.name is Some,
        v.raw is None,
        frames.len() < 0x1_0000_0000,
        stands_at(d, 0, list_bytes(frames.map_values(|f: FrameInfo| frame_bytes(f)))),
        answers.len() > 0,
        answers[0] == Answer::Reply(Ok(d)),
    ensures
        has_the_frames(v, told_all(v, answers), frames),
    decreases answers.len(),
{
    reveal_with_fuel(told_all, 2);
    law_frames_read_back(d, 0, frames);
    assert(frames_in(Ok(d)) == frames);
    let last = answers.last();
    let n = v.threads.len();
    if answers.len() == 1 {
        assert(answers.drop_last().len() == 0);
        let w = told_all(v, answers);
        assert(w == v.told(Ok(d)));
        law_builder_stays_sound(v, Ok(d), seq![]);
        if frames.len() == 0 {
            assert(w.threads[n as int].frames =~= seq![]);
        }
    } else {
        let less = answers.drop_last();
        assert(less[0] == answers[0]);
        lemma_told_all(v, frames, d, less);
        let u = told_all(v, less);
        let w = told_one(u, last);
        assert(told_all(v, answers) == w);
        if u.raw is Some {
            lemma_frames_go_on(u, last);
            if u.threads.len() == n {
                assert(has_the_frames(v, w, frames));
            } else {
                lemma_thread_stays(u, w, n as int);
                assert forall|i: int| 0 <= i < frames.len() implies is_frame_of(
                    #[trigger] w.threads[n as int].frames[i],
                    frames[i],
                    w.classes,
                ) by {
                    assert(is_frame_of(u.threads[n as int].frames[i], frames[i], u.classes));
                }
                assert(has_the_frames(v, w, frames));
            }
        } else {
            let (r, t) = match last {
                Answer::Reply(r) => (r, Seq::<char>::empty()),
                Answer::Text(t) => (Err(JdwpError::WriteClosed), t),
            };
            law_builder_stays_sound(u, r, t);
            assert(w.classes == u.classes);
            assert(w.threads.len() >= u.threads.len());
            assert(w.threads[n as int] == u.threads[n as int]);
            assert forall|i: int| 0 <= i < frames.len() implies is_frame_of(
                #[trigger] w.threads[n as int].frames[i],
                frames[i],
                w.classes,
            ) by {
                assert(is_frame_of(u.threads[n as int].frames[i], frames[i], u.classes));
            }
            assert(has_the_frames(v, w, frames));
        }
    }
}

proof fn lemma_thread_stays(u: BuilderView, w: BuilderView, n: int)
    requires
        0 <= n < u.threads.len(),
        w.threads == u.threads || w.threads.len() == u.threads.len() + 1 && w.threads.drop_last()
            == u.threads,
    ensures
        w.threads[n] == u.threads[n],
{
    if w.threads != u.threads {
        assert(w.threads.drop_last()[n] == w.threads[n]);
    }
}

/// The threads are asked for, and then each by its own number for its name and for all its
/// frames.
pub proof fn law_threads_are_asked_about(v: BuilderView)
    ensures
        v.ids is None ==> v.asks() == Some(
            NeedView::Command(CommandView { set: 1, cmd: 4, data: seq![] }),
        ),
        v.has_thread() && v.name is None ==> v.asks() == Some(
            NeedView::Command(
                CommandView { set: 11, cmd: 1, data: be_bytes(v.thread_id() as nat, 8) },
            ),
        ),
        v.has_thread() && v.name is Some && v.raw is None ==> v.asks() == Some(
            NeedView::Command(
                CommandView {
                    set: 11,
                    cmd: 6,
                    data: be_bytes(v.thread_id() as nat, 8) + be_bytes(0, 4) + be_bytes(
                        0xffff_ffff,
                        4,
                    ),
                },
            ),
        ),
        v.asks() is None && v.inv() ==> v.ids is Some && v.threads.len() >= v.ids->0.len(),
{
}

/// The threads that the JVM tells of are those that are asked about, in their order.
pub proof fn law_all_threads_are_gone_through(v: BuilderView, ids: Seq<u64>, d: Seq<u8>)
    requires
        v.ids is None,
        v.threads.len() == 0,
        ids.len() < 0x1_0000_0000,
        stands_at(d, 0, list_bytes(ids.map_values(|id: u64| be_bytes(id as nat, 8)))),
    ensures
        v.told(Ok(d)).ids == Some(ids),
        v.told(Ok(d)).threads.len() == 0,
        ids.len() > 0 ==> v.told(Ok(d)).has_thread() && v.told(Ok(d)).thread_id() == ids[0],
{
    law_threads_read_back(d, 0, ids);
}

// ---------------------------------------------------------------------------
// The snapshot
// ---------------------------------------------------------------------------

/// A snapshot has the threads that are known, each with its number, its name and all its frames;
/// and each frame as it is known, with the source file that its class was compiled from.
pub proof fn law_a_snapshot_shows_what_is_known(v: BuilderView, log: Log, k: int, i: int)
    requires
        0 <= k < v.threads.len(),
    ensures
        snapshot_of(v, log).stopped_thread_id == v.stopped_thread_id,
        snapshot_of(v, log).threads.len() == v.threads.len(),
        snapshot_of(v, log).threads[k].id == v.threads[k].id,
        snapshot_of(v, log).threads[k].name == v.threads[k].name,
        snapshot_of(v, log).threads[k].frames.len() == v.threads[k].frames.len(),
        0 <= i < v.threads[k].frames.len() ==> shows_frame(
            snapshot_of(v, log).threads[k].frames[i],
            v.threads[k].frames[i],
            log,
        ),
{
    lemma_threads_show(v.threads, log, 1, k, i);
}

/// Whether `f` shows what is known of a frame.
pub open spec fn shows_frame(f: FrameView, raw: RawFrameView, log: Log) -> bool {
    &&& f.frame_id == raw.frame_id
    &&& f.class_name == raw.class_name
    &&& f.method_name == raw.method_name
    &&& f.line == raw.line
    &&& f.variables == raw.variables
    &&& f.source_path == source_of(log, raw.binary_name)
}

proof fn lemma_frames_show(frames: Seq<RawFrameView>, log: Log, next: u32, i: int)
    ensures
        frames_done(frames, log, next).0.len() == frames.len(),
        0 <= i < frames.len() ==> shows_frame(frames_done(frames, log, next).0[i], frames[i], log),
    decreases frames.len(),
{
    if frames.len() > 0 {
        let less = frames.drop_last();
        lemma_frames_show(less, log, next, i);
        if 0 <= i < less.len() {
            assert(less[i] == frames[i]);
        }
    }
}

proof fn lemma_threads_show(threads: Seq<RawThreadView>, log: Log, next: u32, k: int, i: int)
    requires
        0 <= k < threads.len(),
    ensures
        ({
            let done = threads_done(threads, log, next).0;
            &&& done.len() == threads.len()
            &&& done[k].id == threads[k].id
            &&& done[k].name == threads[k].name
            &&& done[k].frames.len() == threads[k].frames.len()
            &&& 0 <= i < threads[k].frames.len() ==> shows_frame(
                done[k].frames[i],
                threads[k].frames[i],
                log,
            )
        }),
    decreases threads.len(),
{
    let less = threads.drop_last();
    let (done, n) = threads_done(less, log, next);
    if less.len() > 0 {
        lemma_threads_show(
            less,
            log,
            next,
            if k < less.len() {
                k
            } else {
                0
            },
            i,
        );
    }
    lemma_frames_show(threads.last().frames, log, n, i);
    if k < less.len() {
        assert(less[k] == threads[k]);
    } else {
        assert(threads[k] == threads.last());
    }
}

/// The first frames of a snapshot that have variables are numbered from one on, one by one.
pub proof fn law_variables_are_numbered_from_one(frames: Seq<RawFrameView>, log: Log, next: u32, f: RawFrameView)
    ensures
        ({
            let (done, n) = frames_done(frames, log, next);
            let (all, m) = frames_done(frames.push(f), log, next);
            &&& all.len() == done.len() + 1
            &&& all.drop_last() == done
            &&& f.variables.len() > 0 ==> all.last().variables_ref == n && (m == n + 1 || n
                == 0xffff_ffff && m == 0)
            &&& f.variables.len() == 0 ==> all.last().variables_ref == 0 && m == n
        }),
        frames_done(Seq::empty(), log, next).1 == next,
        threads_done(Seq::empty(), log, next).1 == next,
{
    let all = frames.push(f);
    assert(all.drop_last() =~= frames);
    assert(frames_done(all, log, next).0.drop_last() =~= frames_done(frames, log, next).0);
}

/// The frames of all threads are the frames of one thread after those of another.
pub proof fn law_all_frames_are_those_of_the_threads(threads: Seq<ThreadView>)
    ensures
        all_frames(threads) == threads.map_values(|t: ThreadView| t.frames).flatten(),
    decreases threads.len(),
{
    let lists = threads.map_values(|t: ThreadView| t.frames);
    if threads.len() > 0 {
        let less = threads.drop_last();
        law_all_frames_are_those_of_the_threads(less);
        let b = less.map_values(|t: ThreadView| t.frames);
        assert(lists =~= b.push(threads.last().frames));
        b.lemma_flatten_push(threads.last().frames);
    } else {
        assert(lists =~= seq![]);
    }
}

/// A frame is found by its number, or by that of its variables, and a thread by its number: the
/// first one that has it, and none only where none has it.
pub proof fn law_frames_and_threads_are_found(
    frames: Seq<FrameView>,
    threads: Seq<ThreadView>,
    id: u64,
    vars_ref: u32,
    i: int,
)
    ensures
        0 <= i < frames.len() && frames[i].frame_id == id && (forall|j: int|
            0 <= j < i ==> (#[trigger] frames[j]).frame_id != id) ==> frame_with_id(frames, id)
            == Some(frames[i]),
        (forall|j: int| 0 <= j < frames.len() ==> (#[trigger] frames[j]).frame_id != id)
            ==> frame_with_id(frames, id) is None,
        0 <= i < frames.len() && frames[i].variables_ref == vars_ref && (forall|j: int|
            0 <= j < i ==> (#[trigger] frames[j]).variables_ref != vars_ref) ==> frame_with_ref(
            frames,
            vars_ref,
        ) == Some(frames[i]),
        (forall|j: int| 0 <= j < frames.len() ==> (#[trigger] frames[j]).variables_ref != vars_ref)
            ==> frame_with_ref(frames, vars_ref) is None,
        0 <= i < threads.len() && threads[i].id == id && (forall|j: int|
            0 <= j < i ==> (#[trigger] threads[j]).id != id) ==> thread_with_id(threads, id)
            == Some(threads[i]),
        (forall|j: int| 0 <= j < threads.len() ==> (#[trigger] threads[j]).id != id)
            ==> thread_with_id(threads, id) is None,
{
    lemma_frame_by_id(frames, id);
    lemma_frame_by_ref(frames, vars_ref);
    lemma_thread_by_id(threads, id);
}

proof fn lemma_frame_by_id(frames: Seq<FrameView>, id: u64)
    ensures
        match frame_with_id(frames, id) {
            Some(f) => exists|i: int|
                0 <= i < frames.len() && #[trigger] frames[i] == f && f.frame_id == id && (forall|
                    j: int,
                |
                    0 <= j < i ==> (#[trigger] frames[j]).frame_id != id),
            None => forall|j: int|
                0 <= j < frames.len() ==> (#[trigger] frames[j]).frame_id != id,
        },
    decreases frames.len(),
{
    if frames.len() > 0 {
        let less = frames.drop_last();
        lemma_frame_by_id(less, id);
        assert forall|j: int| 0 <= j < less.len() implies #[trigger] frames[j] == less[j] by {}
        match frame_with_id(less, id) {
            Some(f) => {
                let i = choose|i: int|
                    0 <= i < less.len() && #[trigger] less[i] == f && f.frame_id == id && (forall|
                        j: int,
                    |
                        0 <= j < i ==> (#[trigger] less[j]).frame_id != id);
                assert(frames[i] == f);
                assert forall|j: int| 0 <= j < i implies (#[trigger] frames[j]).frame_id != id by {
                    assert(frames[j] == less[j]);
                }
            },
            None => {
                let i = frames.len() - 1;
                assert(frames[i] == frames.last());
                assert forall|j: int| 0 <= j < i implies (#[trigger] frames[j]).frame_id != id by {
                    assert(frames[j] == less[j]);
                }
            },
        }
    }
}

proof fn lemma_frame_by_ref(frames: Seq<FrameView>, id: u32)
    ensures
        match frame_with_ref(frames, id) {
            Some(f) => exists|i: int|
                0 <= i < frames.len() && #[trigger] frames[i] == f && f.variables_ref == id && (
                forall|j: int| 0 <= j < i ==> (#[trigger] frames[j]).variables_ref != id),
            None => forall|j: int|
                0 <= j < frames.len() ==> (#[trigger] frames[j]).variables_ref != id,
        },
    decreases frames.len(),
{
    if frames.len() > 0 {
        let less = frames.drop_last();
        lemma_frame_by_ref(less, id);
        match frame_with_ref(less, id) {
            Some(f) => {
                let i = choose|i: int|
                    0 <= i < less.len() && #[trigger] less[i] == f && f.variables_ref == id && (
                    forall|j: int| 0 <= j < i ==> (#[trigger] less[j]).variables_ref != id);
                assert(frames[i] == f);
                assert forall|j: int| 0 <= j < i implies (#[trigger] frames[j]).variables_ref
                    != id by {
                    assert(frames[j] == less[j]);
                }
            },
            None => {
                let i = frames.len() - 1;
                assert(frames[i] == frames.last());
                assert forall|j: int| 0 <= j < i implies (#[trigger] frames[j]).variables_ref
                    != id by {
                    assert(frames[j] == less[j]);
                }
            },
        }
    }
}

proof fn lemma_thread_by_id(threads: Seq<ThreadView>, id: u64)
    ensures
        match thread_with_id(threads, id) {
            Some(f) => exists|i: int|
                0 <= i < threads.len() && #[trigger] threads[i] == f && f.id == id && (forall|
                    j: int,
                |
                    0 <= j < i ==> (#[trigger] threads[j]).id != id),
            None => forall|j: int| 0 <= j < threads.len() ==> (#[trigger] threads[j]).id != id,
        },
    decreases threads.len(),
{
    if threads.len() > 0 {
        let less = threads.drop_last();
        lemma_thread_by_id(less, id);
        match thread_with_id(less, id) {
            Some(f) => {
                let i = choose|i: int|
                    0 <= i < less.len() && #[trigger] less[i] == f && f.id == id && (forall|
                        j: int,
                    |
                        0 <= j < i ==> (#[trigger] less[j]).id != id);
                assert(threads[i] == f);
                assert forall|j: int| 0 <= j < i implies (#[trigger] threads[j]).id != id by {
                    assert(threads[j] == less[j]);
                }
            },
            None => {
                let i = threads.len() - 1;
                assert(threads[i] == threads.last());
                assert forall|j: int| 0 <= j < i implies (#[trigger] threads[j]).id != id by {
                    assert(threads[j] == less[j]);
                }
            },
        }
    }
}

// ---------------------------------------------------------------------------
// Answers that did not come
// ---------------------------------------------------------------------------

/// What the JVM refuses to say is as if there were nothing: no threads, no frames, no variables, no
/// values, no methods, no lines, and no text. Where the class of a frame cannot be named, it has no
/// name; a thread still shows, by its number.
pub proof fn law_refused_answers_say_nothing(v: FrameReaderView, why: JdwpError)
    ensures
        string_in(Err(why)) is None,
        threads_in(Err(why)).len() == 0,
        frames_in(Err(why)).len() == 0,
        variables_in(Err(why)).len() == 0,
        values_in(Err(why)).len() == 0,
        methods_in(Err(why)).len() == 0,
        table_in(Err(why)).len() == 0,
        v.new_class && v.signature is None ==> v.told(Err(why)) == (FrameReaderView {
            signature: Some(seq![]),
            ..v
        }),
        v.new_class && v.signature is Some && v.methods is None ==> v.told(Err(why)) == (
        FrameReaderView { methods: Some(seq![]), ..v }),
        (!v.new_class || v.signature is Some && v.methods is Some) && v.line is None ==> v.told(
            Err(why),
        ) == (FrameReaderView { line: Some(None), ..v }),
        (!v.new_class || v.signature is Some && v.methods is Some) && v.line is Some
            && v.scope is None ==> v.told(Err(why)) == (FrameReaderView {
            scope: Some(seq![]),
            ..v
        }),
{
}

/// What the JVM says is read as it was written: its threads, its frames, the variables of a method
/// and their values.
pub proof fn law_answers_are_read_as_written(
    d: Seq<u8>,
    ids: Seq<u64>,
    frames: Seq<FrameInfo>,
    text: Seq<char>,
)
    requires
        ids.len() < 0x1_0000_0000,
        frames.len() < 0x1_0000_0000,
        is_writable(text),
    ensures
        stands_at(d, 0, list_bytes(ids.map_values(|id: u64| be_bytes(id as nat, 8))))
            ==> threads_in(Ok(d)) == ids,
        stands_at(d, 0, list_bytes(frames.map_values(|f: FrameInfo| frame_bytes(f)))) ==> frames_in(
            Ok(d),
        ) == frames,
        stands_at(d, 0, string_bytes(text)) ==> string_in(Ok(d)) == Some(text),
{
    if stands_at(d, 0, list_bytes(ids.map_values(|id: u64| be_bytes(id as nat, 8)))) {
        law_threads_read_back(d, 0, ids);
    }
    if stands_at(d, 0, list_bytes(frames.map_values(|f: FrameInfo| frame_bytes(f)))) {
        law_frames_read_back(d, 0, frames);
    }
    if stands_at(d, 0, string_bytes(text)) {
        law_string_reads_back(d, 0, text);
    }
}

/// The text that is found for a value is the one that the value then shows by: the characters of a
/// string between quotes, or the text of a number. A string whose characters could not be had shows
/// as other objects do. Each takes the next place.
pub proof fn law_found_texts_take_their_places(
    v: FrameReaderView,
    d: Seq<u8>,
    s: Seq<char>,
    text: Seq<char>,
    why: JdwpError,
)
    requires
        v.inv(),
        v.scope is Some,
        v.values is Some,
        !v.new_class || v.signature is Some && v.methods is Some,
        v.asks() is Some,
        is_writable(s),
        stands_at(d, 0, string_bytes(s)),
    ensures
        v.asks() matches Some(NeedView::Command(_)) ==> v.told(Ok(d)) == (FrameReaderView {
            found: v.found.push(seq!['"'] + s + seq!['"']),
            ..v
        }),
        v.asks() matches Some(NeedView::Real(_)) ==> v.told_text(text) == (FrameReaderView {
            found: v.found.push(text),
            ..v
        }),
        v.asks() matches Some(NeedView::Command(_)) ==> v.told(Err(why)) == (FrameReaderView {
            found: v.found.push(plain_text(v.queried[v.found.len() as int])),
            ..v
        }),
        v.asks() matches Some(NeedView::Command(_)) ==> v.told_text(text) == v,
        v.asks() matches Some(NeedView::Real(_)) ==> v.told(Ok(d)) == v,
{
    law_string_reads_back(d, 0, s);
    reveal_strlit("\"");
    assert("\""@ =~= seq!['"']);
}

// ---------------------------------------------------------------------------
// What a frame comes to
// ---------------------------------------------------------------------------

/// The last frame that is known: of the thread in hand, or of the thread that was known last.
pub open spec fn last_frame(v: BuilderView) -> RawFrameView {
    if v.frames.len() > 0 {
        v.frames.last()
    } else {
        v.threads.last().frames.last()
    }
}

/// A frame that has been read shows what was read: its line, its variables, and the names of its
/// class and method. A class that was asked about is kept under its number, with the name of its
/// signature and all its methods, and is not asked about again.
pub proof fn law_a_frame_shows_what_was_read(v: BuilderView, a: Answer)
    requires
        v.inv(),
        goes_by_frames(v),
        v.raw is Some,
        v.reader.new_class ==> class_with_id(v.classes, v.reader.frame.location.class_id) is None,
        (match a {
            Answer::Reply(r) => v.reader.told(r),
            Answer::Text(t) => v.reader.told_text(t),
        }).asks() is None,
    ensures
        ({
            let reader = match a {
                Answer::Reply(r) => v.reader.told(r),
                Answer::Text(t) => v.reader.told_text(t),
            };
            let w = told_one(v, a);
            let f = last_frame(w);
            let class = class_with_id(w.classes, v.reader.frame.location.class_id);
            &&& f.frame_id == v.reader.frame.frame_id
            &&& reader.line == Some(f.line)
            &&& f.variables == reader.variables()
            &&& class is Some
            &&& f.binary_name == class->0.name
            &&& f.method_name == method_name(class->0.methods, v.reader.frame.location.method_id)
            &&& v.reader.new_class ==> reader.signature is Some && reader.methods is Some
                && class->0.name == binary_name(reader.signature->0) && class->0.methods
                == reader.methods->0
            &&& !v.reader.new_class ==> w.classes == v.classes
            &&& w.raw is Some ==> w.frames.drop_last() == v.frames && w.threads == v.threads
            &&& w.raw is None ==> w.threads.last().frames.drop_last() == v.frames
            &&& w.reader.new_class && w.raw is Some ==> class_with_id(
                w.classes,
                w.reader.frame.location.class_id,
            ) is None
        }),
{
    lemma_frames_go_on(v, a);
    let (r, t) = match a {
        Answer::Reply(r) => (r, Seq::<char>::empty()),
        Answer::Text(t) => (Err(JdwpError::WriteClosed), t),
    };
    law_frame_reader_comes_to_an_end(v.reader, r, t);
    let reader = match a {
        Answer::Reply(r) => v.reader.told(r),
        Answer::Text(t) => v.reader.told_text(t),
    };
    let w = told_one(v, a);
    let class = class_found(reader);
    if reader.new_class {
        lemma_class_stays(v.classes, class, class.id);
    }
    let classes = if reader.new_class {
        v.classes.push(class)
    } else {
        v.classes
    };
    let frames = v.frames.push(frame_found(reader, classes));
    assert(frames.drop_last() =~= v.frames);
    law_a_frame_is_asked_about_itself(reader);
}

/// The variables of a frame are those in scope that a value came for: as many as there are values,
/// each under its own name and with its own value's text.
pub proof fn law_variables_show_their_own_values(v: FrameReaderView, i: int)
    requires
        v.inv(),
        v.asks() is None,
        v.scope is Some,
        v.values is Some,
        0 <= i < v.values->0.len(),
    ensures
        v.variables().len() == v.values->0.len(),
        v.variables()[i].name == v.scope->0[i].name,
        query_of(v.values->0[i]) is None ==> v.variables()[i].display_value == plain_text(
            v.values->0[i],
        ),
        query_of(v.values->0[i]) is Some ==> ({
            let n = queried(v.values->0.take(i)).len() as int;
            &&& v.queried[n] == v.values->0[i]
            &&& v.variables()[i].display_value == v.found[n]
        }),
{
    law_every_value_shows_by_its_own_answer(v.values->0, v.found, i);
}

/// A frame without variables in scope, or before their values have come, has none to show.
pub proof fn law_no_values_no_variables(v: FrameReaderView, why: JdwpError)
    ensures
        v.scope is None || v.values is None ==> v.variables().len() == 0,
        v.scope is Some && v.scope->0.len() > 0 && v.values is None && v.line is Some && (
        !v.new_class || v.signature is Some && v.methods is Some) ==> v.told(Err(why)).values
            == Some(Seq::<JvmValue>::empty()) && v.told(Err(why)).queried.len() == 0,
{
}

/// The name that comes for a thread is the name of that thread.
pub proof fn law_threads_keep_their_names(v: BuilderView, reply: Result<Seq<u8>, JdwpError>)
    requires
        v.has_thread(),
        v.name is None,
    ensures
        v.told(reply).name == Some(thread_name_in(reply, v.thread_id())),
        v.told(reply).threads == v.threads,
        v.told(reply).ids == v.ids,
        v.told(reply).frames == v.frames,
        v.told(reply).classes == v.classes,
{
}

/// What is no list that can be read is as if there were nothing.
pub proof fn law_unreadable_answers_say_nothing(d: Seq<u8>)
    ensures
        get_list::<ThreadId>(d, 0) is Err ==> threads_in(Ok(d)).len() == 0,
        get_list::<FrameInfo>(d, 0) is Err ==> frames_in(Ok(d)).len() == 0,
        get_list::<JvmValue>(d, 0) is Err ==> values_in(Ok(d)).len() == 0,
        get_list::<MethodInfo>(d, 0) is Err ==> methods_in(Ok(d)).len() == 0,
        get_variable_table(d) is Err ==> variables_in(Ok(d)).len() == 0,
        get_line_table(d) is Err ==> table_in(Ok(d)).len() == 0,
        get_string(d, 0) is Err ==> string_in(Ok(d)) is None,
{
}

/// The first frame of a snapshot that has variables, where it is the first of all, has the number
/// one for them; and the numbers go on from thread to thread.
pub proof fn law_the_first_variables_have_the_number_one(v: BuilderView, log: Log, more: RawThreadView)
    ensures
        v.threads.len() > 0 && v.threads[0].frames.len() > 0
            && v.threads[0].frames[0].variables.len() > 0 ==> snapshot_of(
            v,
            log,
        ).threads[0].frames[0].variables_ref == 1,
        ({
            let (done, n) = threads_done(v.threads, log, 1);
            let (all, m) = threads_done(v.threads.push(more), log, 1);
            &&& all.len() == done.len() + 1
            &&& all.drop_last() == done
            &&& all.last().frames == frames_done(more.frames, log, n).0
            &&& m == frames_done(more.frames, log, n).1
        }),
{
    let threads = v.threads;
    assert(threads.push(more).drop_last() =~= threads);
    assert(threads_done(threads.push(more), log, 1).0.drop_last() =~= threads_done(
        threads,
        log,
        1,
    ).0);
    if threads.len() > 0 && threads[0].frames.len() > 0 && threads[0].frames[0].variables.len()
        > 0 {
        lemma_first_thread(threads, log, 1);
        lemma_first_frame(threads[0].frames, log, 1);
    }
}

proof fn lemma_first_frame(frames: Seq<RawFrameView>, log: Log, next: u32)
    requires
        frames.len() > 0,
        frames[0].variables.len() > 0,
    ensures
        frames_done(frames, log, next).0.len() == frames.len(),
        frames_done(frames, log, next).0[0].variables_ref == next,
    decreases frames.len(),
{
    reveal_with_fuel(frames_done, 2);
    let less = frames.drop_last();
    lemma_frames_show(less, log, next, 0);
    if less.len() > 0 {
        assert(less[0] == frames[0]);
        lemma_first_frame(less, log, next);
    } else {
        assert(frames.last() == frames[0]);
    }
}

proof fn lemma_first_thread(threads: Seq<RawThreadView>, log: Log, next: u32)
    requires
        threads.len() > 0,
    ensures
        threads_done(threads, log, next).0.len() == threads.len(),
        threads_done(threads, log, next).0[0].frames == frames_done(
            threads[0].frames,
            log,
            next,
        ).0,
    decreases threads.len(),
{
    reveal_with_fuel(threads_done, 2);
    let less = threads.drop_last();
    if less.len() > 0 {
        assert(less[0] == threads[0]);
        lemma_first_thread(less, log, next);
    } else {
        assert(threads.last() == threads[0]);
        assert(threads_done(less, log, next).0.len() == 0);
    }
}

/// A signature without a letter before it, or without a semicolon behind it, loses just what it
/// has.
pub proof fn law_half_signatures_lose_what_they_have(name: Seq<char>)
    ensures
        name.len() == 0 || name.last() != ';' ==> binary_name(seq!['L'] + name) == name,
        name.len() > 0 && name[0] != 'L' ==> binary_name(name + seq![';']) == name,
        binary_name(Seq::empty()).len() == 0,
{
    let a = seq!['L'] + name;
    assert(a.skip(1) =~= name);
    let b = name + seq![';'];
    assert(b.drop_last() =~= name);
}

/// The frames that the JVM tells of a thread are the frames that show for it. Where the answer to
/// the question for its frames is a list of frames, the snapshot of the thread has just as many;
/// each has the number of the one that was told of in its place, and shows the names of the class
/// and the method of that one's location.
pub proof fn law_a_snapshot_has_the_frames_that_were_told_of(
    v: BuilderView,
    frames: Seq<FrameInfo>,
    d: Seq<u8>,
    answers: Seq<Answer>,
    log: Log,
    i: int,
)
    requires
        v.inv(),
        v.has_thread(),
        v.name is Some,
        v.raw is None,
        frames.len() < 0x1_0000_0000,
        stands_at(d, 0, list_bytes(frames.map_values(|f: FrameInfo| frame_bytes(f)))),
        answers.len() > 0,
        answers[0] == Answer::Reply(Ok(d)),
        told_all(v, answers).threads.len() > v.threads.len(),
    ensures
        ({
            let w = told_all(v, answers);
            let shown = snapshot_of(w, log).threads[v.threads.len() as int];
            &&& shown.id == v.thread_id()
            &&& shown.name == v.name->0
            &&& shown.frames.len() == frames.len()
            &&& 0 <= i < frames.len() ==> {
                let class = class_with_id(w.classes, frames[i].location.class_id);
                &&& shown.frames[i].frame_id == frames[i].frame_id
                &&& class is Some
                &&& shown.frames[i].class_name == simple_name(class->0.name)
                &&& shown.frames[i].method_name == method_name(
                    class->0.methods,
                    frames[i].location.method_id,
                )
                &&& shown.frames[i].source_path == source_of(log, class->0.name)
            }
        }),
{
    law_a_thread_has_the_frames_it_was_told_of(v, frames, d, answers);
    let w = told_all(v, answers);
    let n = v.threads.len() as int;
    law_a_snapshot_shows_what_is_known(w, log, n, i);
    if 0 <= i < frames.len() {
        assert(is_frame_of(w.threads[n].frames[i], frames[i], w.classes));
    }
}

} // verus!
