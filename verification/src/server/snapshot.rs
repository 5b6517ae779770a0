//! What a stopped JVM shows: its threads, their frames, and the variables in them.

use vstd::prelude::*;
use crate::list::views;

verus! {

// ---------------------------------------------------------------------------
// The snapshot
// ---------------------------------------------------------------------------

#[derive(Debug, PartialEq, Eq)]
pub struct SnapshotVariable {
    pub name: String,
    pub display_value: String,
}

pub struct VariableView {
    pub name: Seq<char>,
    pub display_value: Seq<char>,
}

impl View for SnapshotVariable {
    type V = VariableView;

    open spec fn view(&self) -> VariableView {
        VariableView { name: self.name@, display_value: self.display_value@ }
    }
}

#[derive(Debug, PartialEq, Eq)]
pub struct SnapshotFrame {
    pub frame_id: u64,
    /// The class's name without its package.
    pub class_name: String,
    pub method_name: String,
    pub source_path: Option<String>,
    pub line: Option<u32>,
    /// By which the editor asks for the variables; zero where there are none.
    pub variables_ref: u32,
    pub variables: Vec<SnapshotVariable>,
}

#[verifier::ext_equal]
pub struct FrameView {
    pub frame_id: u64,
    pub class_name: Seq<char>,
    pub method_name: Seq<char>,
    pub source_path: Option<Seq<char>>,
    pub line: Option<u32>,
    pub variables_ref: u32,
    pub variables: Seq<VariableView>,
}

impl View for SnapshotFrame {
    type V = FrameView;

    open spec fn view(&self) -> FrameView {
        FrameView {
            frame_id: self.frame_id,
            class_name: self.class_name@,
            method_name: self.method_name@,
            source_path: match self.source_path {
                None => None,
                Some(s) => Some(s@),
            },
            line: self.line,
            variables_ref: self.variables_ref,
            variables: views(self.variables@),
        }
    }
}

#[derive(Debug, PartialEq, Eq)]
pub struct SnapshotThread {
    pub id: u64,
    pub name: String,
    pub frames: Vec<SnapshotFrame>,
}

#[verifier::ext_equal]
pub struct ThreadView {
    pub id: u64,
    pub name: Seq<char>,
    pub frames: Seq<FrameView>,
}

impl View for SnapshotThread {
    type V = ThreadView;

    open spec fn view(&self) -> ThreadView {
        ThreadView { id: self.id, name: self.name@, frames: views(self.frames@) }
    }
}

#[derive(Debug, PartialEq, Eq)]
pub struct JvmSnapshot {
    pub stopped_thread_id: u64,
    pub threads: Vec<SnapshotThread>,
}

#[verifier::ext_equal]
pub struct SnapshotView {
    pub stopped_thread_id: u64,
    pub threads: Seq<ThreadView>,
}

impl View for JvmSnapshot {
    type V = SnapshotView;

    open spec fn view(&self) -> SnapshotView {
        SnapshotView { stopped_thread_id: self.stopped_thread_id, threads: views(self.threads@) }
    }
}

/// The frames of all threads, in order.
pub open spec fn all_frames(threads: Seq<ThreadView>) -> Seq<FrameView>
    decreases threads.len(),
{
    if threads.len() == 0 {
        seq![]
    } else {
        all_frames(threads.drop_last()) + threads.last().frames
    }
}

/// The first of the frames that has the given number.
pub open spec fn frame_with_id(frames: Seq<FrameView>, id: u64) -> Option<FrameView>
    decreases frames.len(),
{
    if frames.len() == 0 {
        None
    } else {
        match frame_with_id(frames.drop_last(), id) {
            Some(f) => Some(f),
            None => if frames.last().frame_id == id {
                Some(frames.last())
            } else {
                None
            },
        }
    }
}

/// The first of the frames whose variables have the given number.
pub open spec fn frame_with_ref(frames: Seq<FrameView>, vars_ref: u32) -> Option<FrameView>
    decreases frames.len(),
{
    if frames.len() == 0 {
        None
    } else {
        match frame_with_ref(frames.drop_last(), vars_ref) {
            Some(f) => Some(f),
            None => if frames.last().variables_ref == vars_ref {
                Some(frames.last())
            } else {
                None
            },
        }
    }
}

/// The first thread with the given number.
pub open spec fn thread_with_id(threads: Seq<ThreadView>, id: u64) -> Option<ThreadView>
    decreases threads.len(),
{
    if threads.len() == 0 {
        None
    } else {
        match thread_with_id(threads.drop_last(), id) {
            Some(t) => Some(t),
            None => if threads.last().id == id {
                Some(threads.last())
            } else {
                None
            },
        }
    }
}

/// What is found among the first frames is what is found among all.
proof fn lemma_frame_with_id_of_both(a: Seq<FrameView>, b: Seq<FrameView>, id: u64)
    ensures
        frame_with_id(a + b, id) == match frame_with_id(a, id) {
            Some(f) => Some(f),
            None => frame_with_id(b, id),
        },
    decreases b.len(),
{
    if b.len() == 0 {
        assert(a + b =~= a);
    } else {
        lemma_frame_with_id_of_both(a, b.drop_last(), id);
        assert((a + b).drop_last() =~= a + b.drop_last());
        assert((a + b).last() == b.last());
    }
}

proof fn lemma_frame_with_ref_of_both(a: Seq<FrameView>, b: Seq<FrameView>, vars_ref: u32)
    ensures
        frame_with_ref(a + b, vars_ref) == match frame_with_ref(a, vars_ref) {
            Some(f) => Some(f),
            None => frame_with_ref(b, vars_ref),
        },
    decreases b.len(),
{
    if b.len() == 0 {
        assert(a + b =~= a);
    } else {
        lemma_frame_with_ref_of_both(a, b.drop_last(), vars_ref);
        assert((a + b).drop_last() =~= a + b.drop_last());
        assert((a + b).last() == b.last());
    }
}

proof fn lemma_frames_prefix(threads: Seq<ThreadView>, n: int, id: u64, vars_ref: u32)
    requires
        0 <= n <= threads.len(),
    ensures
        frame_with_id(all_frames(threads.take(n)), id) matches Some(f) ==> frame_with_id(
            all_frames(threads),
            id,
        ) == Some(f),
        frame_with_ref(all_frames(threads.take(n)), vars_ref) matches Some(f) ==> frame_with_ref(
            all_frames(threads),
            vars_ref,
        ) == Some(f),
    decreases threads.len() - n,
{
    if n < threads.len() {
        assert(threads.take(n + 1).drop_last() =~= threads.take(n));
        lemma_frame_with_id_of_both(all_frames(threads.take(n)), threads[n].frames, id);
        lemma_frame_with_ref_of_both(all_frames(threads.take(n)), threads[n].frames, vars_ref);
        lemma_frames_prefix(threads, n + 1, id, vars_ref);
    } else {
        assert(threads.take(n) =~= threads);
    }
}

fn frame_in(frames: &Vec<SnapshotFrame>, id: u64) -> (r: Option<&SnapshotFrame>)
    ensures
        match frame_with_id(views(frames@), id) {
            None => r is None,
            Some(f) => r matches Some(x) && x@ == f,
        },
{
    let ghost all = views(frames@);
    let mut i: usize = 0;
    assert(all.take(0) =~= seq![]);
    while i < frames.len()
        invariant
            i <= frames@.len(),
            all == views(frames@),
            frame_with_id(all.take(i as int), id) is None,
        decreases frames@.len() - i,
    {
        assert(all.take(i + 1).drop_last() =~= all.take(i as int));
        assert(all.take(i + 1).last() == frames@[i as int]@);
        if frames[i].frame_id == id {
            proof {
                lemma_frame_with_id_of_both(all.take(i + 1), all.skip(i + 1), id);
                assert(all.take(i + 1) + all.skip(i + 1) =~= all);
            }
            return Some(&frames[i]);
        }
        i += 1;
    }
    assert(all.take(i as int) =~= all);
    None
}

fn frame_of_ref(frames: &Vec<SnapshotFrame>, vars_ref: u32) -> (r: Option<&SnapshotFrame>)
    ensures
        match frame_with_ref(views(frames@), vars_ref) {
            None => r is None,
            Some(f) => r matches Some(x) && x@ == f,
        },
{
    let ghost all = views(frames@);
    let mut i: usize = 0;
    assert(all.take(0) =~= seq![]);
    while i < frames.len()
        invariant
            i <= frames@.len(),
            all == views(frames@),
            frame_with_ref(all.take(i as int), vars_ref) is None,
        decreases frames@.len() - i,
    {
        assert(all.take(i + 1).drop_last() =~= all.take(i as int));
        assert(all.take(i + 1).last() == frames@[i as int]@);
        if frames[i].variables_ref == vars_ref {
            proof {
                lemma_frame_with_ref_of_both(all.take(i + 1), all.skip(i + 1), vars_ref);
                assert(all.take(i + 1) + all.skip(i + 1) =~= all);
            }
            return Some(&frames[i]);
        }
        i += 1;
    }
    assert(all.take(i as int) =~= all);
    None
}

impl JvmSnapshot {
    /// The frame with the given number, in any thread.
    pub fn find_frame(&self, frame_id: u64) -> (r: Option<&SnapshotFrame>)
        ensures
            match frame_with_id(all_frames(self@.threads), frame_id) {
                None => r is None,
                Some(f) => r matches Some(x) && x@ == f,
            },
    {
        let ghost all = self@.threads;
        let mut i: usize = 0;
        assert(all.take(0) =~= seq![]);
        while i < self.threads.len()
            invariant
                i <= self.threads@.len(),
                all == views(self.threads@),
                frame_with_id(all_frames(all.take(i as int)), frame_id) is None,
            decreases self.threads@.len() - i,
        {
            proof {
                assert(all.take(i + 1).drop_last() =~= all.take(i as int));
                assert(all.take(i + 1).last() == self.threads@[i as int]@);
                lemma_frame_with_id_of_both(
                    all_frames(all.take(i as int)),
                    all[i as int].frames,
                    frame_id,
                );
                lemma_frames_prefix(all, i + 1, frame_id, 0);
            }
            match frame_in(&self.threads[i].frames, frame_id) {
                Some(f) => {
                    return Some(f);
                },
                None => {},
            }
            i += 1;
        }
        assert(all.take(i as int) =~= all);
        None
    }

    /// The frame whose variables have the given number.
    pub fn find_frame_by_vars_ref(&self, vars_ref: u32) -> (r: Option<&SnapshotFrame>)
        ensures
            match frame_with_ref(all_frames(self@.threads), vars_ref) {
                None => r is None,
                Some(f) => r matches Some(x) && x@ == f,
            },
    {
        let ghost all = self@.threads;
        let mut i: usize = 0;
        assert(all.take(0) =~= seq![]);
        while i < self.threads.len()
            invariant
                i <= self.threads@.len(),
                all == views(self.threads@),
                frame_with_ref(all_frames(all.take(i as int)), vars_ref) is None,
            decreases self.threads@.len() - i,
        {
            proof {
                assert(all.take(i + 1).drop_last() =~= all.take(i as int));
                assert(all.take(i + 1).last() == self.threads@[i as int]@);
                lemma_frame_with_ref_of_both(
                    all_frames(all.take(i as int)),
                    all[i as int].frames,
                    vars_ref,
                );
                lemma_frames_prefix(all, i + 1, 0, vars_ref);
            }
            match frame_of_ref(&self.threads[i].frames, vars_ref) {
                Some(f) => {
                    return Some(f);
                },
                None => {},
            }
            i += 1;
        }
        assert(all.take(i as int) =~= all);
        None
    }

    /// The thread with the given number.
    pub fn find_thread(&self, id: u64) -> (r: Option<&SnapshotThread>)
        ensures
            match thread_with_id(self@.threads, id) {
                None => r is None,
                Some(t) => r matches Some(x) && x@ == t,
            },
    {
        let ghost all = self@.threads;
        let mut i: usize = 0;
        assert(all.take(0) =~= seq![]);
        while i < self.threads.len()
            invariant
                i <= self.threads@.len(),
                all == views(self.threads@),
                thread_with_id(all.take(i as int), id) is None,
            decreases self.threads@.len() - i,
        {
            assert(all.take(i + 1).drop_last() =~= all.take(i as int));
            assert(all.take(i + 1).last() == self.threads@[i as int]@);
            if self.threads[i].id == id {
                proof {
                    lemma_thread_stays(all, i + 1, id);
                }
                return Some(&self.threads[i]);
            }
            i += 1;
        }
        assert(all.take(i as int) =~= all);
        None
    }
}

proof fn lemma_thread_stays(all: Seq<ThreadView>, n: int, id: u64)
    requires
        0 <= n <= all.len(),
        thread_with_id(all.take(n), id) is Some,
    ensures
        thread_with_id(all, id) == thread_with_id(all.take(n), id),
    decreases all.len() - n,
{
    if n < all.len() {
        assert(all.take(n + 1).drop_last() =~= all.take(n));
        lemma_thread_stays(all, n + 1, id);
    } else {
        assert(all.take(n) =~= all);
    }
}

} // verus!
