//! Events that the JVM reports.

use vstd::prelude::*;
use crate::list::views;
use crate::jdwp::read::{
    get_id, get_string, get_u32, get_u8, lemma_numbers_more, lemma_string_more, read_id, read_string,
    read_u32, read_u8, JdwpError,
};
use crate::jdwp::{
    get_location, read_location, Location, EVENT_BREAKPOINT, EVENT_CLASS_PREPARE, EVENT_EXCEPTION,
    EVENT_STEP, EVENT_VM_DEATH, EVENT_VM_START,
};

verus! {

/// A class has been loaded; the threads are suspended.
#[derive(Debug, PartialEq, Eq)]
pub struct ClassPrepareEvent {
    pub request_id: u32,
    pub thread_id: u64,
    pub ref_type_tag: u8,
    pub ref_type_id: u64,
    pub signature: String,
    pub status: u32,
}

/// A thread has reached a breakpoint.
#[derive(Debug, Clone, Copy, PartialEq, Eq, Structural)]
pub struct BreakpointEvent {
    pub request_id: u32,
    pub thread_id: u64,
    pub location: Location,
}

/// A thread has finished a step.
#[derive(Debug, Clone, Copy, PartialEq, Eq, Structural)]
pub struct StepEvent {
    pub request_id: u32,
    pub thread_id: u64,
    pub location: Location,
}

/// An exception that nothing catches has been thrown.
#[derive(Debug, Clone, Copy, PartialEq, Eq, Structural)]
pub struct ExceptionUncaughtEvent {
    pub request_id: u32,
    pub thread_id: u64,
    /// Number of the exception object.
    pub exception_object_id: u64,
}

#[derive(Debug, PartialEq, Eq)]
pub enum JdwpEvent {
    ClassPrepare(ClassPrepareEvent),
    Breakpoint(BreakpointEvent),
    Step(StepEvent),
    /// An uncaught exception was thrown; the JVM is suspended.
    ExceptionUncaught(ExceptionUncaughtEvent),
    /// The JVM has ended, or the connection to it was closed.
    VmDeath,
}

pub struct ClassPrepareView {
    pub request_id: u32,
    pub thread_id: u64,
    pub ref_type_tag: u8,
    pub ref_type_id: u64,
    pub signature: Seq<char>,
    pub status: u32,
}

pub enum JdwpEventView {
    ClassPrepare(ClassPrepareView),
    Breakpoint(BreakpointEvent),
    Step(StepEvent),
    ExceptionUncaught(ExceptionUncaughtEvent),
    VmDeath,
}

impl View for ClassPrepareEvent {
    type V = ClassPrepareView;

    open spec fn view(&self) -> ClassPrepareView {
        ClassPrepareView {
            request_id: self.request_id,
            thread_id: self.thread_id,
            ref_type_tag: self.ref_type_tag,
            ref_type_id: self.ref_type_id,
            signature: self.signature@,
            status: self.status,
        }
    }
}

impl View for JdwpEvent {
    type V = JdwpEventView;

    open spec fn view(&self) -> JdwpEventView {
        match *self {
            JdwpEvent::ClassPrepare(e) => JdwpEventView::ClassPrepare(e@),
            JdwpEvent::Breakpoint(e) => JdwpEventView::Breakpoint(e),
            JdwpEvent::Step(e) => JdwpEventView::Step(e),
            JdwpEvent::ExceptionUncaught(e) => JdwpEventView::ExceptionUncaught(e),
            JdwpEvent::VmDeath => JdwpEventView::VmDeath,
        }
    }
}

/// One entry of a composite event.
pub enum EntryView {
    Event(JdwpEventView),
    /// Nothing that anyone waits for.
    Ignored,
    /// A kind whose payload is not known, so that what follows cannot be found.
    Unknown,
}

pub open spec fn get_class_prepare(d: Seq<u8>, p: int, request_id: u32) -> Result<
    (EntryView, int),
    JdwpError,
> {
    match get_id(d, p) {
        Err(e) => Err(e),
        Ok((thread_id, p)) => match get_u8(d, p) {
            Err(e) => Err(e),
            Ok((ref_type_tag, p)) => match get_id(d, p) {
                Err(e) => Err(e),
                Ok((ref_type_id, p)) => match get_string(d, p) {
                    Err(e) => Err(e),
                    Ok((signature, p)) => match get_u32(d, p) {
                        Err(e) => Err(e),
                        Ok((status, p)) => Ok(
                            (
                                EntryView::Event(
                                    JdwpEventView::ClassPrepare(
                                        ClassPrepareView {
                                            request_id,
                                            thread_id,
                                            ref_type_tag,
                                            ref_type_id,
                                            signature,
                                            status,
                                        },
                                    ),
                                ),
                                p,
                            ),
                        ),
                    },
                },
            },
        },
    }
}

pub open spec fn get_stop(d: Seq<u8>, p: int, kind: u8, request_id: u32) -> Result<
    (EntryView, int),
    JdwpError,
> {
    match get_id(d, p) {
        Err(e) => Err(e),
        Ok((thread_id, p)) => match get_location(d, p) {
            Err(e) => Err(e),
            Ok((location, p)) => Ok(
                (
                    EntryView::Event(
                        if kind == EVENT_BREAKPOINT {
                            JdwpEventView::Breakpoint(
                                BreakpointEvent { request_id, thread_id, location },
                            )
                        } else {
                            JdwpEventView::Step(StepEvent { request_id, thread_id, location })
                        },
                    ),
                    p,
                ),
            ),
        },
    }
}

/// The thread, where it was thrown, the exception with its tag, and where it is caught.
pub open spec fn get_exception(d: Seq<u8>, p: int, request_id: u32) -> Result<
    (EntryView, int),
    JdwpError,
> {
    match get_id(d, p) {
        Err(e) => Err(e),
        Ok((thread_id, p)) => match get_location(d, p) {
            Err(e) => Err(e),
            Ok((_, p)) => match get_u8(d, p) {
                Err(e) => Err(e),
                Ok((_, p)) => match get_id(d, p) {
                    Err(e) => Err(e),
                    Ok((exception_object_id, p)) => match get_location(d, p) {
                        Err(e) => Err(e),
                        Ok((_, p)) => Ok(
                            (
                                EntryView::Event(
                                    JdwpEventView::ExceptionUncaught(
                                        ExceptionUncaughtEvent {
                                            request_id,
                                            thread_id,
                                            exception_object_id,
                                        },
                                    ),
                                ),
                                p,
                            ),
                        ),
                    },
                },
            },
        },
    }
}

/// The entry at `p`: its kind, the request that asked for it, and what the kind calls for.
pub open spec fn get_entry(d: Seq<u8>, p: int) -> Result<(EntryView, int), JdwpError> {
    match get_u8(d, p) {
        Err(e) => Err(e),
        Ok((kind, p)) => match get_u32(d, p) {
            Err(e) => Err(e),
            Ok((request_id, p)) => if kind == EVENT_CLASS_PREPARE {
                get_class_prepare(d, p, request_id)
            } else if kind == EVENT_BREAKPOINT || kind == EVENT_STEP {
                get_stop(d, p, kind, request_id)
            } else if kind == EVENT_EXCEPTION {
                get_exception(d, p, request_id)
            } else if kind == EVENT_VM_START {
                match get_id(d, p) {
                    Err(e) => Err(e),
                    Ok((_, p)) => Ok((EntryView::Ignored, p)),
                }
            } else if kind == EVENT_VM_DEATH {
                Ok((EntryView::Event(JdwpEventView::VmDeath), p))
            } else {
                Ok((EntryView::Unknown, p))
            },
        },
    }
}

/// The events among the `n` entries from `p` on, up to the first of an unknown kind.
pub open spec fn events_from(d: Seq<u8>, p: int, n: nat) -> Result<Seq<JdwpEventView>, JdwpError>
    decreases n,
{
    if n == 0 {
        Ok(seq![])
    } else {
        match get_entry(d, p) {
            Err(e) => Err(e),
            Ok((EntryView::Unknown, _)) => Ok(seq![]),
            Ok((EntryView::Ignored, q)) => events_from(d, q, (n - 1) as nat),
            Ok((EntryView::Event(event), q)) => behind(
                seq![event],
                events_from(d, q, (n - 1) as nat),
            ),
        }
    }
}

/// `first` and then `rest`, unless `rest` could not be read.
pub open spec fn behind(
    first: Seq<JdwpEventView>,
    rest: Result<Seq<JdwpEventView>, JdwpError>,
) -> Result<Seq<JdwpEventView>, JdwpError> {
    match rest {
        Err(e) => Err(e),
        Ok(events) => Ok(first + events),
    }
}

/// The events of a composite: a suspend policy, how many entries there are, and the entries.
pub open spec fn composite_events(d: Seq<u8>) -> Result<Seq<JdwpEventView>, JdwpError> {
    match get_u8(d, 0) {
        Err(e) => Err(e),
        Ok((_, p)) => match get_u32(d, p) {
            Err(e) => Err(e),
            Ok((count, p)) => events_from(d, p, count as nat),
        },
    }
}

proof fn lemma_location_more(d: Seq<u8>, more: Seq<u8>, p: int)
    requires
        p >= 0,
    ensures
        get_location(d, p) is Ok ==> get_location(d + more, p) == get_location(d, p)
            && get_location(d, p)->Ok_0.1 >= 0,
{
    lemma_numbers_more(d, more);
}

/// An entry that can be read is the same whatever follows the payload.
proof fn lemma_entry_more(d: Seq<u8>, more: Seq<u8>, p: int)
    requires
        p >= 0,
    ensures
        get_entry(d, p) is Ok ==> get_entry(d + more, p) == get_entry(d, p) && get_entry(
            d,
            p,
        )->Ok_0.1 >= 0,
{
    lemma_numbers_more(d, more);
    if get_entry(d, p) is Ok {
        let (kind, q) = get_u8(d, p)->Ok_0;
        let (request_id, q) = get_u32(d, q)->Ok_0;
        if kind == EVENT_CLASS_PREPARE {
            let (_, q) = get_id(d, q)->Ok_0;
            let (_, q) = get_u8(d, q)->Ok_0;
            let (_, q) = get_id(d, q)->Ok_0;
            lemma_string_more(d, more, q);
        } else if kind == EVENT_BREAKPOINT || kind == EVENT_STEP {
            let (_, q) = get_id(d, q)->Ok_0;
            lemma_location_more(d, more, q);
        } else if kind == EVENT_EXCEPTION {
            let (_, q) = get_id(d, q)->Ok_0;
            lemma_location_more(d, more, q);
            let (_, q) = get_location(d, q)->Ok_0;
            let (_, q) = get_u8(d, q)->Ok_0;
            let (_, q) = get_id(d, q)->Ok_0;
            lemma_location_more(d, more, q);
        }
    }
}

proof fn lemma_events_more(d: Seq<u8>, more: Seq<u8>, p: int, n: nat)
    requires
        p >= 0,
    ensures
        events_from(d, p, n) is Ok ==> events_from(d + more, p, n) == events_from(d, p, n),
    decreases n,
{
    if n > 0 {
        lemma_entry_more(d, more, p);
        match get_entry(d, p) {
            Err(_) => {},
            Ok((_, q)) => lemma_events_more(d, more, q, (n - 1) as nat),
        }
    }
}

/// What follows a composite event in its payload does not change what it says.
pub proof fn law_bytes_behind_a_composite_do_not_matter(d: Seq<u8>, more: Seq<u8>)
    ensures
        composite_events(d) is Ok ==> composite_events(d + more) == composite_events(d),
{
    lemma_numbers_more(d, more);
    if composite_events(d) is Ok {
        let (_, p) = get_u8(d, 0)->Ok_0;
        let (count, p) = get_u32(d, p)->Ok_0;
        lemma_events_more(d, more, p, count as nat);
    }
}

enum Entry {
    Event(JdwpEvent),
    Ignored,
    Unknown,
}

impl View for Entry {
    type V = EntryView;

    closed spec fn view(&self) -> EntryView {
        match *self {
            Entry::Event(e) => EntryView::Event(e@),
            Entry::Ignored => EntryView::Ignored,
            Entry::Unknown => EntryView::Unknown,
        }
    }
}

fn read_entry(data: &[u8], pos: &mut usize) -> (r: Result<Entry, JdwpError>)
    ensures
        match get_entry(data@, *old(pos) as int) {
            Ok((v, q)) => r matches Ok(x) && x@ == v && *final(pos) == q,
            Err(e) => r matches Err(x) && x == e,
        },
{
    let kind = read_u8(data, pos)?;
    let request_id = read_u32(data, pos)?;
    if kind == EVENT_CLASS_PREPARE {
        let thread_id = read_id(data, pos)?;
        let ref_type_tag = read_u8(data, pos)?;
        let ref_type_id = read_id(data, pos)?;
        let signature = read_string(data, pos)?;
        let status = read_u32(data, pos)?;
        Ok(
            Entry::Event(
                JdwpEvent::ClassPrepare(
                    ClassPrepareEvent {
                        request_id,
                        thread_id,
                        ref_type_tag,
                        ref_type_id,
                        signature,
                        status,
                    },
                ),
            ),
        )
    } else if kind == EVENT_BREAKPOINT || kind == EVENT_STEP {
        let thread_id = read_id(data, pos)?;
        let location = read_location(data, pos)?;
        if kind == EVENT_BREAKPOINT {
            Ok(
                Entry::Event(
                    JdwpEvent::Breakpoint(BreakpointEvent { request_id, thread_id, location }),
                ),
            )
        } else {
            Ok(Entry::Event(JdwpEvent::Step(StepEvent { request_id, thread_id, location })))
        }
    } else if kind == EVENT_EXCEPTION {
        let thread_id = read_id(data, pos)?;
        let _thrown_at = read_location(data, pos)?;
        let _exception_tag = read_u8(data, pos)?;
        let exception_object_id = read_id(data, pos)?;
        let _caught_at = read_location(data, pos)?;
        Ok(
            Entry::Event(
                JdwpEvent::ExceptionUncaught(
                    ExceptionUncaughtEvent { request_id, thread_id, exception_object_id },
                ),
            ),
        )
    } else if kind == EVENT_VM_START {
        let _thread_id = read_id(data, pos)?;
        Ok(Entry::Ignored)
    } else if kind == EVENT_VM_DEATH {
        Ok(Entry::Event(JdwpEvent::VmDeath))
    } else {
        Ok(Entry::Unknown)
    }
}

/// Reads the payload of a composite event.
pub fn parse_composite_event(data: &[u8]) -> (r: Result<Vec<JdwpEvent>, JdwpError>)
    ensures
        match composite_events(data@) {
            Ok(events) => r matches Ok(v) && views(v@) == events,
            Err(e) => r matches Err(x) && x == e,
        },
{
    let mut pos: usize = 0;
    let _suspend_policy = read_u8(data, &mut pos)?;
    let count = read_u32(data, &mut pos)?;
    let mut events: Vec<JdwpEvent> = Vec::new();
    let mut i: u32 = 0;
    proof {
        let all = events_from(data@, pos as int, count as nat);
        assert(all matches Ok(rest) ==> views(events@) + rest =~= rest);
    }
    while i < count
        invariant
            i <= count,
            composite_events(data@) == behind(
                views(events@),
                events_from(data@, pos as int, (count - i) as nat),
            ),
        decreases count - i,
    {
        let ghost before = events@;
        let ghost at = pos as int;
        match read_entry(data, &mut pos)? {
            Entry::Event(event) => {
                events.push(event);
                proof {
                    let rest = events_from(data@, pos as int, (count - i - 1) as nat);
                    assert(views(events@) =~= views(before).push(event@));
                    assert(rest matches Ok(more) ==> views(before) + (seq![event@] + more)
                        =~= views(events@) + more);
                }
            },
            Entry::Ignored => {},
            Entry::Unknown => {
                assert(views(events@) + seq![] =~= views(events@));
                return Ok(events);
            },
        }
        i += 1;
    }
    assert(views(events@) + seq![] =~= views(events@));
    Ok(events)
}

} // verus!
