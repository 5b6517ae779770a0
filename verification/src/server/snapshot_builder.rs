//! Finding out about all threads of a stopped JVM.

use vstd::pervasive::unreached;
use vstd::prelude::*;
use crate::jdwp::client::{about, CommandView, JdwpClient};
use crate::jdwp::read::JdwpError;
use crate::jdwp::{FrameInfo, MethodInfo, MethodInfoView, ThreadId};
use crate::list::views;
use crate::number::{hex, hex_text};
use crate::server::frame_reader::{law_frame_reader_comes_to_an_end, FrameReader, FrameReaderView};
use crate::server::gather::{
    frames_in, need_is, read_frames, read_text, read_threads, string_in, threads_in, Need, NeedView,
};
use crate::server::snapshot::{
    all_frames, FrameView, JvmSnapshot, SnapshotFrame, SnapshotThread, SnapshotVariable,
    SnapshotView, ThreadView, VariableView,
};
use crate::server::{binary_name, reply_view, signature_to_binary_name, Reply};
use crate::source_map::{source_of, Log, SourceMap};
use crate::text::{
    append, chars_of, last_index, last_index_of, lemma_last_index_of, owned, slice_of, string_of,
};
use crate::wire::be_bytes;

verus! {

// ---------------------------------------------------------------------------
// What is gathered
// ---------------------------------------------------------------------------

/// A class that has been asked about.
pub struct KnownClass {
    pub id: u64,
    /// The binary name.
    pub name: String,
    pub methods: Vec<MethodInfo>,
}

#[verifier::ext_equal]
pub struct KnownClassView {
    pub id: u64,
    pub name: Seq<char>,
    pub methods: Seq<MethodInfoView>,
}

impl View for KnownClass {
    type V = KnownClassView;

    open spec fn view(&self) -> KnownClassView {
        KnownClassView { id: self.id, name: self.name@, methods: views(self.methods@) }
    }
}

/// A frame that is known, but for its source file and the number of its variables.
pub struct RawFrame {
    pub frame_id: u64,
    pub binary_name: String,
    pub class_name: String,
    pub method_name: String,
    pub line: Option<u32>,
    pub variables: Vec<SnapshotVariable>,
}

#[verifier::ext_equal]
pub struct RawFrameView {
    pub frame_id: u64,
    pub binary_name: Seq<char>,
    pub class_name: Seq<char>,
    pub method_name: Seq<char>,
    pub line: Option<u32>,
    pub variables: Seq<VariableView>,
}

impl View for RawFrame {
    type V = RawFrameView;

    open spec fn view(&self) -> RawFrameView {
        RawFrameView {
            frame_id: self.frame_id,
            binary_name: self.binary_name@,
            class_name: self.class_name@,
            method_name: self.method_name@,
            line: self.line,
            variables: views(self.variables@),
        }
    }
}

pub struct RawThread {
    pub id: u64,
    pub name: String,
    pub frames: Vec<RawFrame>,
}

#[verifier::ext_equal]
pub struct RawThreadView {
    pub id: u64,
    pub name: Seq<char>,
    pub frames: Seq<RawFrameView>,
}

impl View for RawThread {
    type V = RawThreadView;

    open spec fn view(&self) -> RawThreadView {
        RawThreadView { id: self.id, name: self.name@, frames: views(self.frames@) }
    }
}

/// The first of the classes that has the given number.
pub open spec fn class_with_id(classes: Seq<KnownClassView>, id: u64) -> Option<KnownClassView>
    decreases classes.len(),
{
    if classes.len() == 0 {
        None
    } else if classes[0].id == id {
        Some(classes[0])
    } else {
        class_with_id(classes.drop_first(), id)
    }
}

/// The name of the first method that has the given number.
pub open spec fn method_with_id(methods: Seq<MethodInfoView>, id: u64) -> Option<Seq<char>>
    decreases methods.len(),
{
    if methods.len() == 0 {
        None
    } else if methods[0].method_id == id {
        Some(methods[0].name)
    } else {
        method_with_id(methods.drop_first(), id)
    }
}

/// What follows the last slash.
pub open spec fn simple_name(name: Seq<char>) -> Seq<char> {
    name.skip(last_index_of(name, '/') + 1)
}

/// A method's name, or its number where the name is not known.
pub open spec fn method_name(methods: Seq<MethodInfoView>, id: u64) -> Seq<char> {
    match method_with_id(methods, id) {
        Some(name) => name,
        None => "method-"@ + hex(id as nat),
    }
}

/// A thread's name, or its number where the name could not be had.
pub open spec fn thread_name_in(reply: Result<Seq<u8>, JdwpError>, id: u64) -> Seq<char> {
    match string_in(reply) {
        Some(name) => name,
        None => "Thread-"@ + hex(id as nat),
    }
}

/// The class that a frame reader has asked about.
pub open spec fn class_found(r: FrameReaderView) -> KnownClassView {
    KnownClassView {
        id: r.frame.location.class_id,
        name: binary_name(r.signature->0),
        methods: r.methods->0,
    }
}

/// The frame that a frame reader has found, by the classes that are known.
pub open spec fn frame_found(r: FrameReaderView, classes: Seq<KnownClassView>) -> RawFrameView {
    let class = class_with_id(classes, r.frame.location.class_id)->0;
    RawFrameView {
        frame_id: r.frame.frame_id,
        binary_name: class.name,
        class_name: simple_name(class.name),
        method_name: method_name(class.methods, r.frame.location.method_id),
        line: r.line->0,
        variables: r.variables(),
    }
}

/// The command that asks for all frames of a thread.
pub open spec fn frames_request(thread_id: u64) -> CommandView {
    CommandView {
        set: 11,
        cmd: 6,
        data: be_bytes(thread_id as nat, 8) + be_bytes(0, 4) + be_bytes(u32::MAX as nat, 4),
    }
}

/// Gathers a snapshot. The threads are asked for; then for each thread its name and its frames;
/// then each frame is read. A class is asked about only once.
pub struct SnapshotBuilder {
    pub stopped_thread_id: u64,
    pub ids: Option<Vec<ThreadId>>,
    /// The threads that are known.
    pub threads: Vec<RawThread>,
    /// Of the thread in hand.
    pub name: Option<String>,
    pub raw: Option<Vec<FrameInfo>>,
    /// The frames of the thread in hand that are known.
    pub frames: Vec<RawFrame>,
    /// Reads the frame in hand.
    pub reader: FrameReader,
    pub classes: Vec<KnownClass>,
}

#[verifier::ext_equal]
pub struct BuilderView {
    pub stopped_thread_id: u64,
    pub ids: Option<Seq<u64>>,
    pub threads: Seq<RawThreadView>,
    pub name: Option<Seq<char>>,
    pub raw: Option<Seq<FrameInfo>>,
    pub frames: Seq<RawFrameView>,
    pub reader: FrameReaderView,
    pub classes: Seq<KnownClassView>,
}

impl View for SnapshotBuilder {
    type V = BuilderView;

    open spec fn view(&self) -> BuilderView {
        BuilderView {
            stopped_thread_id: self.stopped_thread_id,
            ids: match self.ids {
                None => None,
                Some(v) => Some(views(v@)),
            },
            threads: views(self.threads@),
            name: match self.name {
                None => None,
                Some(s) => Some(s@),
            },
            raw: match self.raw {
                None => None,
                Some(v) => Some(v@),
            },
            frames: views(self.frames@),
            reader: self.reader@,
            classes: views(self.classes@),
        }
    }
}

/// A frame that no reader has been set to.
pub open spec fn no_frame() -> FrameInfo {
    FrameInfo {
        frame_id: 0,
        location: crate::jdwp::Location { type_tag: 0, class_id: 0, method_id: 0, index: 0 },
    }
}

impl BuilderView {
    pub open spec fn new(stopped_thread_id: u64) -> BuilderView {
        BuilderView {
            stopped_thread_id,
            ids: None,
            threads: seq![],
            name: None,
            raw: None,
            frames: seq![],
            reader: FrameReaderView::new(0, no_frame(), false),
            classes: seq![],
        }
    }

    /// Whether there is a thread left to be asked about.
    pub open spec fn has_thread(self) -> bool {
        self.ids matches Some(ids) && self.threads.len() < ids.len()
    }

    pub open spec fn thread_id(self) -> u64 {
        self.ids->0[self.threads.len() as int]
    }

    /// What is to be found out next; nothing where all is known.
    pub open spec fn asks(self) -> Option<NeedView> {
        if self.ids is None {
            Some(NeedView::Command(CommandView { set: 1, cmd: 4, data: seq![] }))
        } else if !self.has_thread() {
            None
        } else if self.name is None {
            Some(NeedView::Command(about(11, 1, self.thread_id())))
        } else if self.raw is None {
            Some(NeedView::Command(frames_request(self.thread_id())))
        } else {
            self.reader.asks()
        }
    }

    /// The next frame of the thread in hand is taken in hand; where there is none left, the
    /// thread is known.
    pub open spec fn at_frame(self) -> BuilderView {
        if self.frames.len() < self.raw->0.len() {
            let frame = self.raw->0[self.frames.len() as int];
            BuilderView {
                reader: FrameReaderView::new(
                    self.thread_id(),
                    frame,
                    class_with_id(self.classes, frame.location.class_id) is None,
                ),
                ..self
            }
        } else {
            BuilderView {
                threads: self.threads.push(
                    RawThreadView { id: self.thread_id(), name: self.name->0, frames: self.frames },
                ),
                name: None,
                raw: None,
                frames: seq![],
                ..self
            }
        }
    }

    /// The frame in hand is now known as far as `reader` says.
    pub open spec fn reading(self, reader: FrameReaderView) -> BuilderView {
        if reader.asks() is Some {
            BuilderView { reader, ..self }
        } else {
            let classes = if reader.new_class {
                self.classes.push(class_found(reader))
            } else {
                self.classes
            };
            BuilderView {
                reader,
                classes,
                frames: self.frames.push(frame_found(reader, classes)),
                ..self
            }.at_frame()
        }
    }

    pub open spec fn told(self, reply: Result<Seq<u8>, JdwpError>) -> BuilderView {
        if self.ids is None {
            BuilderView { ids: Some(threads_in(reply)), ..self }
        } else if !self.has_thread() {
            self
        } else if self.name is None {
            BuilderView { name: Some(thread_name_in(reply, self.thread_id())), ..self }
        } else if self.raw is None {
            BuilderView { raw: Some(frames_in(reply)), ..self }.at_frame()
        } else {
            self.reading(self.reader.told(reply))
        }
    }

    pub open spec fn told_text(self, text: Seq<char>) -> BuilderView {
        if self.has_thread() && self.raw is Some {
            self.reading(self.reader.told_text(text))
        } else {
            self
        }
    }

    /// One before the threads are known, then zero.
    pub open spec fn threads_unknown(self) -> nat {
        if self.ids is None {
            1
        } else {
            0
        }
    }

    /// How many threads are not known yet.
    pub open spec fn threads_left(self) -> nat {
        if self.has_thread() {
            (self.ids->0.len() - self.threads.len()) as nat
        } else {
            0
        }
    }

    /// How much is to be asked before the frames of the thread in hand are known.
    pub open spec fn frames_unknown(self) -> nat {
        (if self.name is None {
            1nat
        } else {
            0
        }) + (if self.raw is None {
            1nat
        } else {
            0
        })
    }

    /// How many frames of the thread in hand have not been read.
    pub open spec fn frames_left(self) -> nat {
        match self.raw {
            None => 0,
            Some(raw) => if self.frames.len() < raw.len() {
                (raw.len() - self.frames.len()) as nat
            } else {
                0
            },
        }
    }

    /// What always holds: where frames are being read, one of them is in hand, its class is
    /// known unless it is being asked about, and something is still to be found out about it.
    pub open spec fn inv(self) -> bool {
        &&& self.raw is Some ==> {
            &&& self.has_thread()
            &&& self.name is Some
            &&& self.frames.len() < self.raw->0.len()
            &&& self.reader.inv()
            &&& self.reader.asks() is Some
            &&& !self.reader.new_class ==> class_with_id(
                self.classes,
                self.reader.frame.location.class_id,
            ) is Some
        }
        &&& self.raw is None ==> self.frames.len() == 0
        &&& self.name is Some ==> self.has_thread()
    }
}

proof fn lemma_class_pushed(classes: Seq<KnownClassView>, class: KnownClassView)
    ensures
        class_with_id(classes.push(class), class.id) is Some,
    decreases classes.len(),
{
    if classes.len() > 0 && classes[0].id != class.id {
        assert(classes.push(class).drop_first() =~= classes.drop_first().push(class));
        lemma_class_pushed(classes.drop_first(), class);
    }
}

/// Answers keep what always holds.
pub proof fn law_builder_stays_sound(v: BuilderView, reply: Result<Seq<u8>, JdwpError>, text: Seq<char>)
    requires
        v.inv(),
    ensures
        v.told(reply).inv(),
        v.told_text(text).inv(),
{
    if v.has_thread() && v.raw is Some {
        law_frame_reader_comes_to_an_end(v.reader, reply, text);
        let a = v.reader.told(reply);
        let b = v.reader.told_text(text);
        if a.new_class {
            lemma_class_pushed(v.classes, class_found(a));
        }
        if b.new_class {
            lemma_class_pushed(v.classes, class_found(b));
        }
    }
}

/// Each answer brings the builder nearer to its end, so that its questions come to one.
pub proof fn law_builder_comes_to_an_end(
    v: BuilderView,
    reply: Result<Seq<u8>, JdwpError>,
    text: Seq<char>,
)
    requires
        v.inv(),
    ensures
        (v.asks() matches Some(NeedView::Command(_))) ==> decreases_to!(
            v.threads_unknown(),
            v.threads_left(),
            v.frames_unknown(),
            v.frames_left(),
            v.reader.unknown(),
            v.reader.values_left() =>
            v.told(reply).threads_unknown(),
            v.told(reply).threads_left(),
            v.told(reply).frames_unknown(),
            v.told(reply).frames_left(),
            v.told(reply).reader.unknown(),
            v.told(reply).reader.values_left()
        ),
        (v.asks() matches Some(NeedView::Real(_))) ==> decreases_to!(
            v.threads_unknown(),
            v.threads_left(),
            v.frames_unknown(),
            v.frames_left(),
            v.reader.unknown(),
            v.reader.values_left() =>
            v.told_text(text).threads_unknown(),
            v.told_text(text).threads_left(),
            v.told_text(text).frames_unknown(),
            v.told_text(text).frames_left(),
            v.told_text(text).reader.unknown(),
            v.told_text(text).reader.values_left()
        ),
{
    if v.has_thread() && v.raw is Some {
        law_frame_reader_comes_to_an_end(v.reader, reply, text);
    }
}

// ---------------------------------------------------------------------------
// From what is gathered to the snapshot
// ---------------------------------------------------------------------------

/// The number after `n`; after the last comes zero.
pub open spec fn after(n: u32) -> u32 {
    if n == u32::MAX {
        0
    } else {
        (n + 1) as u32
    }
}

/// A frame with its source file, and with the number `next` for its variables if it has any.
pub open spec fn frame_done(f: RawFrameView, log: Log, next: u32) -> FrameView {
    FrameView {
        frame_id: f.frame_id,
        class_name: f.class_name,
        method_name: f.method_name,
        source_path: source_of(log, f.binary_name),
        line: f.line,
        variables_ref: if f.variables.len() == 0 {
            0
        } else {
            next
        },
        variables: f.variables,
    }
}

/// The frames, and the number that is next after them.
pub open spec fn frames_done(frames: Seq<RawFrameView>, log: Log, next: u32) -> (Seq<FrameView>, u32)
    decreases frames.len(),
{
    if frames.len() == 0 {
        (seq![], next)
    } else {
        let (done, n) = frames_done(frames.drop_last(), log, next);
        (
            done.push(frame_done(frames.last(), log, n)),
            if frames.last().variables.len() == 0 {
                n
            } else {
                after(n)
            },
        )
    }
}

/// The threads, and the number that is next after their frames.
pub open spec fn threads_done(threads: Seq<RawThreadView>, log: Log, next: u32) -> (
    Seq<ThreadView>,
    u32,
)
    decreases threads.len(),
{
    if threads.len() == 0 {
        (seq![], next)
    } else {
        let (done, n) = threads_done(threads.drop_last(), log, next);
        let (frames, m) = frames_done(threads.last().frames, log, n);
        (
            done.push(ThreadView { id: threads.last().id, name: threads.last().name, frames }),
            m,
        )
    }
}

/// The snapshot that what is gathered makes: the variables of frames are numbered from one on.
pub open spec fn snapshot_of(v: BuilderView, log: Log) -> SnapshotView {
    SnapshotView {
        stopped_thread_id: v.stopped_thread_id,
        threads: threads_done(v.threads, log, 1).0,
    }
}

/// Whether all numbers of variables among the frames are below `next`, and grow from frame to
/// frame; zero stands for no variables.
pub open spec fn numbered_below(frames: Seq<FrameView>, next: int) -> bool {
    &&& forall|i: int|
        0 <= i < frames.len() ==> ((#[trigger] frames[i]).variables_ref == 0
            <==> frames[i].variables.len() == 0) && frames[i].variables_ref < next
    &&& forall|i: int, j: int|
        0 <= i < j < frames.len() && (#[trigger] frames[i]).variables_ref != 0 && (
        #[trigger] frames[j]).variables_ref != 0 ==> frames[i].variables_ref
            < frames[j].variables_ref
}

proof fn lemma_frames_numbered(
    before: Seq<FrameView>,
    frames: Seq<RawFrameView>,
    log: Log,
    next: u32,
    room: int,
)
    requires
        1 <= next,
        numbered_below(before, next as int),
        next + frames.len() <= room <= u32::MAX,
    ensures
        numbered_below(
            before + frames_done(frames, log, next).0,
            frames_done(frames, log, next).1 as int,
        ),
        next <= frames_done(frames, log, next).1 <= next + frames.len(),
        frames_done(frames, log, next).0.len() == frames.len(),
    decreases frames.len(),
{
    if frames.len() == 0 {
        assert(before + frames_done(frames, log, next).0 =~= before);
    } else {
        let less = frames.drop_last();
        lemma_frames_numbered(before, less, log, next, room);
        let (done, n) = frames_done(less, log, next);
        let all = before + frames_done(frames, log, next).0;
        assert(all =~= (before + done).push(frame_done(frames.last(), log, n)));
        let prev = before + done;
        assert forall|i: int| 0 <= i < all.len() implies ((#[trigger] all[i]).variables_ref == 0
            <==> all[i].variables.len() == 0) && all[i].variables_ref < frames_done(
            frames,
            log,
            next,
        ).1 by {
            if i < prev.len() {
                assert(all[i] == prev[i]);
            }
        }
        assert forall|i: int, j: int|
            0 <= i < j < all.len() && (#[trigger] all[i]).variables_ref != 0 && (
            #[trigger] all[j]).variables_ref != 0 implies all[i].variables_ref
            < all[j].variables_ref by {
            assert(all[i] == prev[i]);
            if j < prev.len() {
                assert(all[j] == prev[j]);
            }
        }
    }
}

/// How many frames the threads have.
pub open spec fn frame_count(threads: Seq<RawThreadView>) -> nat
    decreases threads.len(),
{
    if threads.len() == 0 {
        0
    } else {
        frame_count(threads.drop_last()) + threads.last().frames.len()
    }
}

proof fn lemma_threads_numbered(threads: Seq<RawThreadView>, log: Log)
    requires
        1 + frame_count(threads) <= u32::MAX,
    ensures
        numbered_below(
            all_frames(threads_done(threads, log, 1).0),
            threads_done(threads, log, 1).1 as int,
        ),
        1 <= threads_done(threads, log, 1).1 <= 1 + frame_count(threads),
    decreases threads.len(),
{
    if threads.len() > 0 {
        let less = threads.drop_last();
        lemma_threads_numbered(less, log);
        let (done, n) = threads_done(less, log, 1);
        lemma_frames_numbered(
            all_frames(done),
            threads.last().frames,
            log,
            n,
            u32::MAX as int,
        );
        let now = threads_done(threads, log, 1).0;
        assert(now.drop_last() =~= done);
    }
}

/// In a snapshot a frame has a number for its variables just where it has variables, and no two
/// frames have the same.
pub proof fn law_variable_numbers_are_unique(v: BuilderView, log: Log, i: int, j: int)
    requires
        frame_count(v.threads) < u32::MAX,
        0 <= i < j < all_frames(snapshot_of(v, log).threads).len(),
    ensures
        ({
            let f = all_frames(snapshot_of(v, log).threads)[i];
            let g = all_frames(snapshot_of(v, log).threads)[j];
            &&& f.variables_ref == 0 <==> f.variables.len() == 0
            &&& g.variables_ref == 0 <==> g.variables.len() == 0
            &&& f.variables_ref != 0 ==> f.variables_ref != g.variables_ref
        }),
{
    lemma_threads_numbered(v.threads, log);
}

// ---------------------------------------------------------------------------
// Doing it
// ---------------------------------------------------------------------------

fn find_class(classes: &Vec<KnownClass>, id: u64) -> (r: Option<&KnownClass>)
    ensures
        match class_with_id(views(classes@), id) {
            None => r is None,
            Some(c) => r matches Some(x) && x@ == c,
        },
{
    let ghost all = views(classes@);
    let mut i: usize = 0;
    assert(all.skip(0) =~= all);
    while i < classes.len()
        invariant
            i <= classes@.len(),
            all == views(classes@),
            class_with_id(all, id) == class_with_id(all.skip(i as int), id),
        decreases classes@.len() - i,
    {
        assert(all.skip(i as int)[0] == classes@[i as int]@);
        assert(all.skip(i as int).drop_first() =~= all.skip(i + 1));
        if classes[i].id == id {
            return Some(&classes[i]);
        }
        i += 1;
    }
    None
}

fn find_method_name(methods: &Vec<MethodInfo>, id: u64) -> (s: String)
    ensures
        s@ == method_name(views(methods@), id),
{
    let ghost all = views(methods@);
    let mut i: usize = 0;
    assert(all.skip(0) =~= all);
    while i < methods.len()
        invariant
            i <= methods@.len(),
            all == views(methods@),
            method_with_id(all, id) == method_with_id(all.skip(i as int), id),
        decreases methods@.len() - i,
    {
        assert(all.skip(i as int)[0] == methods@[i as int]@);
        assert(all.skip(i as int).drop_first() =~= all.skip(i + 1));
        if methods[i].method_id == id {
            return methods[i].name.clone();
        }
        i += 1;
    }
    let mut s = owned("method-");
    append(&mut s, hex_text(id).as_str());
    s
}

fn last_part(name: &str) -> (s: String)
    ensures
        s@ == simple_name(name@),
{
    let chars = chars_of(name);
    proof {
        lemma_last_index_of(chars@, '/');
    }
    let from: usize = match last_index(chars.as_slice(), '/') {
        Some(i) => i + 1,
        None => 0,
    };
    let part = slice_of(chars.as_slice(), from, chars.len());
    assert(part@ =~= simple_name(name@));
    string_of(part.as_slice())
}

fn finish_frames(raw: Vec<RawFrame>, map: &SourceMap, next: &mut u32) -> (v: Vec<SnapshotFrame>)
    ensures
        views(v@) == frames_done(views(raw@), map@, *old(next)).0,
        *final(next) == frames_done(views(raw@), map@, *old(next)).1,
{
    let ghost all = views(raw@);
    let ghost first = *next;
    let mut raw = raw;
    let mut v: Vec<SnapshotFrame> = Vec::new();
    let n = raw.len();
    let mut i: usize = 0;
    assert(all.take(0) =~= seq![]);
    assert(views(v@) =~= seq![]);
    while i < n
        invariant
            i <= n == all.len(),
            raw@.len() == n,
            forall|k: int| i <= k < n ==> (#[trigger] raw@[k])@ == all[k],
            views(v@) == frames_done(all.take(i as int), map@, first).0,
            *next == frames_done(all.take(i as int), map@, first).1,
        decreases n - i,
    {
        let ghost before = views(v@);
        assert(all.take(i + 1).drop_last() =~= all.take(i as int));
        assert(all.take(i + 1).last() == all[i as int]);
        assert(raw@[i as int]@ == all[i as int]);
        let source_path = match map.source_for_class(raw[i].binary_name.as_str()) {
            Some(s) => Some(owned(s)),
            None => None,
        };
        let mut variables: Vec<SnapshotVariable> = Vec::new();
        std::mem::swap(&mut variables, &mut raw[i].variables);
        let variables_ref: u32 = if variables.len() == 0 {
            0
        } else {
            *next
        };
        if variables.len() > 0 {
            *next = next.wrapping_add(1);
        }
        assert(views(variables@) == all[i as int].variables);
        assert(views(variables@).len() == variables@.len());
        let frame = SnapshotFrame {
            frame_id: raw[i].frame_id,
            class_name: raw[i].class_name.clone(),
            method_name: raw[i].method_name.clone(),
            source_path,
            line: raw[i].line,
            variables_ref,
            variables,
        };
        v.push(frame);
        assert(views(v@) =~= before.push(frame@));
        i += 1;
    }
    assert(all.take(i as int) =~= all);
    v
}

impl SnapshotBuilder {
    pub fn new(stopped_thread_id: u64) -> (b: SnapshotBuilder)
        ensures
            b@ == BuilderView::new(stopped_thread_id),
            b@.inv(),
    {
        let frame = FrameInfo {
            frame_id: 0,
            location: crate::jdwp::Location { type_tag: 0, class_id: 0, method_id: 0, index: 0 },
        };
        let b = SnapshotBuilder {
            stopped_thread_id,
            ids: None,
            threads: Vec::new(),
            name: None,
            raw: None,
            frames: Vec::new(),
            reader: FrameReader::new(0, frame, false),
            classes: Vec::new(),
        };
        assert(b@ =~= BuilderView::new(stopped_thread_id));
        b
    }

    /// The thread in hand.
    fn current(&self) -> (r: Option<u64>)
        ensures
            r == if self@.has_thread() {
                Some(self@.thread_id())
            } else {
                None
            },
    {
        match &self.ids {
            None => None,
            Some(ids) => if self.threads.len() < ids.len() {
                Some(ids[self.threads.len()].id)
            } else {
                None
            },
        }
    }

    /// What is to be found out next; nothing where all is known.
    pub fn next(&self) -> (r: Option<Need>)
        ensures
            need_is(r, self@.asks()),
    {
        if self.ids.is_none() {
            return Some(Need::Command(JdwpClient::vm_all_threads()));
        }
        match self.current() {
            None => None,
            Some(id) => if self.name.is_none() {
                Some(Need::Command(JdwpClient::thread_name(id)))
            } else if self.raw.is_none() {
                Some(Need::Command(JdwpClient::thread_frames(id, 0, u32::MAX)))
            } else {
                self.reader.next()
            },
        }
    }

    fn go_to_frame(&mut self, id: u64)
        requires
            old(self)@.has_thread(),
            id == old(self)@.thread_id(),
            old(self)@.raw is Some,
            old(self)@.name is Some,
        ensures
            final(self)@ == old(self)@.at_frame(),
    {
        let ghost before = self@;
        let frame: Option<FrameInfo> = match &self.raw {
            None => None,
            Some(raw) => if self.frames.len() < raw.len() {
                Some(raw[self.frames.len()])
            } else {
                None
            },
        };
        assert(before.frames.len() == self.frames@.len());
        match frame {
            Some(frame) => {
                let new_class = find_class(&self.classes, frame.location.class_id).is_none();
                self.reader = FrameReader::new(id, frame, new_class);
                assert(self@ =~= before.at_frame());
            },
            None => {
                let mut frames: Vec<RawFrame> = Vec::new();
                std::mem::swap(&mut frames, &mut self.frames);
                let name = match self.name.take() {
                    Some(name) => name,
                    None => String::new(),
                };
                let ghost threads = views(self.threads@);
                let thread = RawThread { id, name, frames };
                self.threads.push(thread);
                assert(views(self.threads@) =~= threads.push(thread@));
                self.raw = None;
                assert(self@ =~= before.at_frame());
            },
        }
    }

    /// Goes on from what the frame reader now knows.
    fn go_on(&mut self, id: u64)
        requires
            old(self)@.has_thread(),
            id == old(self)@.thread_id(),
            old(self)@.raw is Some,
            old(self)@.name is Some,
            old(self)@.reader.inv(),
            !old(self)@.reader.new_class ==> class_with_id(
                old(self)@.classes,
                old(self)@.reader.frame.location.class_id,
            ) is Some,
        ensures
            final(self)@ == old(self)@.reading(old(self)@.reader),
    {
        let ghost before = self@;
        if self.reader.next().is_some() {
            assert(self@ =~= before.reading(before.reader));
            return;
        }
        let class_id = self.reader.frame.location.class_id;
        if self.reader.new_class {
            let name = match &self.reader.signature {
                Some(s) => signature_to_binary_name(s.as_str()),
                None => String::new(),
            };
            let mut methods: Vec<MethodInfo> = Vec::new();
            if let Some(found) = &self.reader.methods {
                methods = copy_methods(found);
            }
            let class = KnownClass { id: class_id, name, methods };
            let ghost classes = views(self.classes@);
            self.classes.push(class);
            proof {
                assert(views(self.classes@) =~= classes.push(class@));
                assert(class@ =~= class_found(before.reader));
                lemma_class_pushed(classes, class@);
            }
        }
        let ghost classes = views(self.classes@);
        let variables = self.reader.take_variables();
        let line = match self.reader.line {
            Some(line) => line,
            None => None,
        };
        let frame = match find_class(&self.classes, class_id) {
            Some(class) => RawFrame {
                frame_id: self.reader.frame.frame_id,
                binary_name: class.name.clone(),
                class_name: last_part(class.name.as_str()),
                method_name: find_method_name(
                    &class.methods,
                    self.reader.frame.location.method_id,
                ),
                line,
                variables,
            },
            None => unreached(),
        };
        assert(frame@ =~= frame_found(before.reader, classes));
        let ghost frames = views(self.frames@);
        self.frames.push(frame);
        assert(views(self.frames@) =~= frames.push(frame@));
        assert(self@ =~= (BuilderView {
            reader: before.reader,
            classes,
            frames: frames.push(frame@),
            ..before
        }));
        self.go_to_frame(id);
    }

    /// Takes the answer to a command.
    pub fn supply(&mut self, reply: &Reply)
        requires
            old(self)@.inv(),
        ensures
            final(self)@ == old(self)@.told(reply_view(*reply)),
            final(self)@.inv(),
    {
        let ghost before = self@;
        proof {
            law_builder_stays_sound(before, reply_view(*reply), seq![]);
        }
        if self.ids.is_none() {
            self.ids = Some(read_threads(reply));
            assert(self@ =~= before.told(reply_view(*reply)));
            return;
        }
        let id = match self.current() {
            None => {
                return;
            },
            Some(id) => id,
        };
        if self.name.is_none() {
            let name = match read_text(reply) {
                Some(name) => name,
                None => {
                    let mut s = owned("Thread-");
                    append(&mut s, hex_text(id).as_str());
                    s
                },
            };
            self.name = Some(name);
            assert(self@ =~= before.told(reply_view(*reply)));
        } else if self.raw.is_none() {
            self.raw = Some(read_frames(reply));
            assert(self@ =~= (BuilderView {
                raw: Some(frames_in(reply_view(*reply))),
                ..before
            }));
            self.go_to_frame(id);
        } else {
            self.reader.supply(reply);
            assert(self@ =~= (BuilderView {
                reader: before.reader.told(reply_view(*reply)),
                ..before
            }));
            self.go_on(id);
        }
    }

    /// Takes the text of a floating-point number.
    pub fn supply_text(&mut self, text: String)
        requires
            old(self)@.inv(),
        ensures
            final(self)@ == old(self)@.told_text(text@),
            final(self)@.inv(),
    {
        let ghost before = self@;
        proof {
            law_builder_stays_sound(before, Err(JdwpError::WriteClosed), text@);
        }
        let id = match self.current() {
            None => {
                return;
            },
            Some(id) => id,
        };
        if self.raw.is_some() {
            self.reader.supply_text(text);
            assert(self@ =~= (BuilderView { reader: before.reader.told_text(text@), ..before }));
            self.go_on(id);
        }
    }

    /// Makes the snapshot of what has been gathered.
    pub fn finish(self, map: &SourceMap) -> (s: JvmSnapshot)
        ensures
            s@ == snapshot_of(self@, map@),
    {
        let ghost all = self@.threads;
        let mut raw = self.threads;
        let mut threads: Vec<SnapshotThread> = Vec::new();
        let mut next: u32 = 1;
        let n = raw.len();
        let mut i: usize = 0;
        assert(all.take(0) =~= seq![]);
        assert(views(threads@) =~= seq![]);
        while i < n
            invariant
                i <= n == all.len(),
                raw@.len() == n,
                forall|k: int| i <= k < n ==> (#[trigger] raw@[k])@ == all[k],
                views(threads@) == threads_done(all.take(i as int), map@, 1).0,
                next == threads_done(all.take(i as int), map@, 1).1,
            decreases n - i,
        {
            let ghost before = views(threads@);
            assert(all.take(i + 1).drop_last() =~= all.take(i as int));
            assert(all.take(i + 1).last() == all[i as int]);
            assert(raw@[i as int]@ == all[i as int]);
            let mut frames: Vec<RawFrame> = Vec::new();
            std::mem::swap(&mut frames, &mut raw[i].frames);
            let done = finish_frames(frames, map, &mut next);
            let thread = SnapshotThread { id: raw[i].id, name: raw[i].name.clone(), frames: done };
            threads.push(thread);
            assert(views(threads@) =~= before.push(thread@));
            i += 1;
        }
        assert(all.take(i as int) =~= all);
        JvmSnapshot { stopped_thread_id: self.stopped_thread_id, threads }
    }
}

fn copy_methods(methods: &Vec<MethodInfo>) -> (v: Vec<MethodInfo>)
    ensures
        views(v@) == views(methods@),
{
    let mut v: Vec<MethodInfo> = Vec::new();
    let ghost all = views(methods@);
    let mut i: usize = 0;
    assert(views(v@) =~= all.take(0));
    while i < methods.len()
        invariant
            i <= methods@.len() == all.len(),
            all == views(methods@),
            views(v@) == all.take(i as int),
        decreases methods@.len() - i,
    {
        let ghost before = views(v@);
        let m = methods[i].clone();
        v.push(m);
        assert(views(v@) =~= before.push(all[i as int]));
        i += 1;
        assert(views(v@) =~= all.take(i as int));
    }
    assert(all.take(i as int) =~= all);
    v
}

} // verus!
