//! How the JVM writes what it says, and that it is read as it was written.

use vstd::prelude::*;
use vstd::utf8::{encode_utf8, encode_utf8_decode_utf8, encode_utf8_valid_utf8};
use crate::jdwp::client::{
    get_id_sizes, get_line_table, get_object_type, get_variable_table, list_reply,
    location_bytes, request_reply, string_reply, IdSizes,
};
use crate::jdwp::event::{
    composite_events, events_from, get_entry, BreakpointEvent, EntryView, JdwpEventView,
    StepEvent,
};
use crate::jdwp::read::{
    get_id, get_items, get_list, get_number, get_string, get_u16, get_u32, get_u64, get_u8, Item,
    JdwpError, Width,
};
use crate::jdwp::value::JvmValue;
use crate::jdwp::{
    get_location, ClassInfo, ClassInfoView, FrameInfo, LineTableEntry, LineTableView, Location,
    MethodInfo, MethodInfoView, ThreadId, VariableInfo, VariableInfoView,
};
use crate::wire::{be_bytes, be_range, law_be_bytes_read_back, lemma_be_bytes_len, lemma_be_ranges};

verus! {

/// Whether `bytes` stand in `d` from `p` on.
pub open spec fn stands_at(d: Seq<u8>, p: int, bytes: Seq<u8>) -> bool {
    &&& 0 <= p
    &&& p + bytes.len() <= d.len()
    &&& d.subrange(p, p + bytes.len()) == bytes
}

/// A text, as the number of its bytes and its bytes.
pub open spec fn string_bytes(s: Seq<char>) -> Seq<u8> {
    be_bytes(encode_utf8(s).len(), 4) + encode_utf8(s)
}

/// Whether the number of a text's bytes can be written.
pub open spec fn is_writable(s: Seq<char>) -> bool {
    encode_utf8(s).len() < 0x1_0000_0000
}

/// A list, as the number of its items and the items.
pub open spec fn list_bytes(items: Seq<Seq<u8>>) -> Seq<u8> {
    be_bytes(items.len(), 4) + items.flatten()
}

pub open spec fn frame_bytes(f: FrameInfo) -> Seq<u8> {
    be_bytes(f.frame_id as nat, 8) + location_bytes(f.location)
}

pub open spec fn class_bytes(c: ClassInfoView, generic: Seq<char>) -> Seq<u8> {
    be_bytes(c.ref_type_tag as nat, 1) + be_bytes(c.ref_type_id as nat, 8) + string_bytes(
        c.signature,
    ) + string_bytes(generic) + be_bytes(c.status as nat, 4)
}

pub open spec fn method_bytes(m: MethodInfoView, generic: Seq<char>) -> Seq<u8> {
    be_bytes(m.method_id as nat, 8) + string_bytes(m.name) + string_bytes(m.signature)
        + string_bytes(generic) + be_bytes(m.mod_bits as nat, 4)
}

pub open spec fn line_bytes(e: LineTableEntry) -> Seq<u8> {
    be_bytes(e.line_code_index as nat, 8) + be_bytes(e.line_number as nat, 4)
}

pub open spec fn variable_bytes(v: VariableInfoView, generic: Seq<char>) -> Seq<u8> {
    be_bytes(v.code_index as nat, 8) + string_bytes(v.name) + string_bytes(v.signature)
        + string_bytes(generic) + be_bytes(v.length as nat, 4) + be_bytes(v.slot as nat, 4)
}

/// A value behind the letter of its type.
pub open spec fn value_bytes(v: JvmValue) -> Seq<u8> {
    match v {
        JvmValue::Byte(n) => be_bytes('B' as nat, 1) + be_bytes(n as nat, 1),
        JvmValue::Char(n) => be_bytes('C' as nat, 1) + be_bytes(n as nat, 2),
        JvmValue::Double(n) => be_bytes('D' as nat, 1) + be_bytes(n as nat, 8),
        JvmValue::Float(n) => be_bytes('F' as nat, 1) + be_bytes(n as nat, 4),
        JvmValue::Int(n) => be_bytes('I' as nat, 1) + be_bytes(n as nat, 4),
        JvmValue::Long(n) => be_bytes('J' as nat, 1) + be_bytes(n as nat, 8),
        JvmValue::Short(n) => be_bytes('S' as nat, 1) + be_bytes(n as nat, 2),
        JvmValue::Boolean(b) => be_bytes('Z' as nat, 1) + be_bytes(
            if b {
                1nat
            } else {
                0nat
            },
            1,
        ),
        JvmValue::Object { tag, id } => be_bytes(tag as nat, 1) + be_bytes(id as nat, 8),
        JvmValue::Void => be_bytes('V' as nat, 1),
    }
}

/// Whether a letter names a type whose values are no objects.
pub open spec fn is_primitive_tag(tag: u8) -> bool {
    ||| tag == 'B' as u8
    ||| tag == 'C' as u8
    ||| tag == 'D' as u8
    ||| tag == 'F' as u8
    ||| tag == 'I' as u8
    ||| tag == 'J' as u8
    ||| tag == 'S' as u8
    ||| tag == 'V' as u8
    ||| tag == 'Z' as u8
}

/// An event: its kind, the request that asked for it, and what the kind calls for. `tag`, `at`
/// and `caught` are what is said of an exception and not kept.
pub open spec fn event_bytes(e: JdwpEventView, tag: u8, at: Location, caught: Location) -> Seq<u8> {
    match e {
        JdwpEventView::Step(e) => be_bytes(1, 1) + be_bytes(e.request_id as nat, 4) + be_bytes(
            e.thread_id as nat,
            8,
        ) + location_bytes(e.location),
        JdwpEventView::Breakpoint(e) => be_bytes(2, 1) + be_bytes(e.request_id as nat, 4)
            + be_bytes(e.thread_id as nat, 8) + location_bytes(e.location),
        JdwpEventView::ExceptionUncaught(e) => be_bytes(4, 1) + be_bytes(e.request_id as nat, 4)
            + be_bytes(e.thread_id as nat, 8) + location_bytes(at) + be_bytes(tag as nat, 1)
            + be_bytes(e.exception_object_id as nat, 8) + location_bytes(caught),
        JdwpEventView::ClassPrepare(e) => be_bytes(8, 1) + be_bytes(e.request_id as nat, 4)
            + be_bytes(e.thread_id as nat, 8) + be_bytes(e.ref_type_tag as nat, 1) + be_bytes(
            e.ref_type_id as nat,
            8,
        ) + string_bytes(e.signature) + be_bytes(e.status as nat, 4),
        JdwpEventView::VmDeath => be_bytes(99, 1) + be_bytes(0, 4),
    }
}

// ---------------------------------------------------------------------------
// Pieces
// ---------------------------------------------------------------------------

proof fn lemma_split(d: Seq<u8>, p: int, a: Seq<u8>, b: Seq<u8>)
    requires
        stands_at(d, p, a + b),
    ensures
        stands_at(d, p, a),
        stands_at(d, p + a.len(), b),
{
    let t = d.subrange(p, p + (a + b).len());
    assert(d.subrange(p, p + a.len()) =~= t.subrange(0, a.len() as int));
    assert((a + b).subrange(0, a.len() as int) =~= a);
    assert(d.subrange(p + a.len(), p + a.len() + b.len()) =~= t.subrange(
        a.len() as int,
        (a.len() + b.len()) as int,
    ));
    assert((a + b).subrange(a.len() as int, (a.len() + b.len()) as int) =~= b);
}

proof fn lemma_number(d: Seq<u8>, p: int, n: nat, width: Width)
    requires
        stands_at(d, p, be_bytes(n, width.bytes())),
        n < be_range(width.bytes()),
    ensures
        get_number(d, p, width) == Ok::<(nat, int), JdwpError>((n, p + width.bytes())),
{
    law_be_bytes_read_back(n, width.bytes());
}

/// A number reads back as it was written, whatever stands around it; and what is cut short does
/// not read as a number.
pub proof fn law_numbers_read_back(d: Seq<u8>, p: int, n: nat)
    ensures
        n < 0x100 && stands_at(d, p, be_bytes(n, 1)) ==> get_u8(d, p) == Ok::<(u8, int), JdwpError>(
            (n as u8, p + 1),
        ),
        n < 0x1_0000 && stands_at(d, p, be_bytes(n, 2)) ==> get_u16(d, p) == Ok::<
            (u16, int),
            JdwpError,
        >((n as u16, p + 2)),
        n < 0x1_0000_0000 && stands_at(d, p, be_bytes(n, 4)) ==> get_u32(d, p) == Ok::<
            (u32, int),
            JdwpError,
        >((n as u32, p + 4)),
        n < 0x1_0000_0000_0000_0000 && stands_at(d, p, be_bytes(n, 8)) ==> get_u64(d, p) == Ok::<
            (u64, int),
            JdwpError,
        >((n as u64, p + 8)),
        n < 0x1_0000_0000_0000_0000 && stands_at(d, p, be_bytes(n, 8)) ==> get_id(d, p) == Ok::<
            (u64, int),
            JdwpError,
        >((n as u64, p + 8)),
        p + 1 > d.len() ==> get_u8(d, p) is Err,
        p + 2 > d.len() ==> get_u16(d, p) is Err,
        p + 4 > d.len() ==> get_u32(d, p) is Err,
        p + 8 > d.len() ==> get_u64(d, p) is Err,
{
    lemma_be_ranges();
    if n < 0x100 && stands_at(d, p, be_bytes(n, 1)) {
        lemma_number(d, p, n, Width::U8);
    }
    if n < 0x1_0000 && stands_at(d, p, be_bytes(n, 2)) {
        lemma_number(d, p, n, Width::U16);
    }
    if n < 0x1_0000_0000 && stands_at(d, p, be_bytes(n, 4)) {
        lemma_number(d, p, n, Width::U32);
    }
    if n < 0x1_0000_0000_0000_0000 && stands_at(d, p, be_bytes(n, 8)) {
        lemma_number(d, p, n, Width::U64);
    }
}

/// A text reads back as it was written.
pub proof fn law_string_reads_back(d: Seq<u8>, p: int, s: Seq<char>)
    requires
        is_writable(s),
        stands_at(d, p, string_bytes(s)),
    ensures
        get_string(d, p) == Ok::<(Seq<char>, int), JdwpError>((s, p + string_bytes(s).len())),
{
    let bytes = encode_utf8(s);
    lemma_be_bytes_len(bytes.len(), 4);
    lemma_split(d, p, be_bytes(bytes.len(), 4), bytes);
    law_numbers_read_back(d, p, bytes.len());
    encode_utf8_valid_utf8(s);
    encode_utf8_decode_utf8(s);
}

proof fn lemma_location(d: Seq<u8>, p: int, l: Location)
    requires
        stands_at(d, p, location_bytes(l)),
    ensures
        get_location(d, p) == Ok::<(Location, int), JdwpError>((l, p + 25)),
        location_bytes(l).len() == 25,
{
    let a = seq![l.type_tag];
    let b = be_bytes(l.class_id as nat, 8);
    let c = be_bytes(l.method_id as nat, 8);
    let e = be_bytes(l.index as nat, 8);
    lemma_be_bytes_len(l.class_id as nat, 8);
    lemma_be_bytes_len(l.method_id as nat, 8);
    lemma_be_bytes_len(l.index as nat, 8);
    lemma_split(d, p, a + b + c, e);
    lemma_split(d, p, a + b, c);
    lemma_split(d, p, a, b);
    reveal_with_fuel(be_bytes, 2);
    assert(be_bytes(l.type_tag as nat, 1) =~= a);
    law_numbers_read_back(d, p, l.type_tag as nat);
    law_numbers_read_back(d, p + 1, l.class_id as nat);
    law_numbers_read_back(d, p + 9, l.method_id as nat);
    law_numbers_read_back(d, p + 17, l.index as nat);
}

// ---------------------------------------------------------------------------
// Items
// ---------------------------------------------------------------------------

/// A frame reads back as it was written: with its number and its location.
pub proof fn law_frame_reads_back(d: Seq<u8>, p: int, f: FrameInfo)
    requires
        stands_at(d, p, frame_bytes(f)),
    ensures
        <FrameInfo as Item>::get(d, p) == Ok::<(FrameInfo, int), JdwpError>(
            (f, p + frame_bytes(f).len()),
        ),
{
    lemma_be_bytes_len(f.frame_id as nat, 8);
    lemma_split(d, p, be_bytes(f.frame_id as nat, 8), location_bytes(f.location));
    law_numbers_read_back(d, p, f.frame_id as nat);
    lemma_location(d, p + 8, f.location);
}

/// A thread reads back as it was written.
pub proof fn law_thread_reads_back(d: Seq<u8>, p: int, id: u64)
    requires
        stands_at(d, p, be_bytes(id as nat, 8)),
    ensures
        <ThreadId as Item>::get(d, p) == Ok::<(u64, int), JdwpError>((id, p + 8)),
{
    law_numbers_read_back(d, p, id as nat);
}

/// A class reads back as it was written, whatever its generic signature is.
pub proof fn law_class_reads_back(d: Seq<u8>, p: int, c: ClassInfoView, generic: Seq<char>)
    requires
        is_writable(c.signature) && is_writable(generic),
        stands_at(d, p, class_bytes(c, generic)),
    ensures
        <ClassInfo as Item>::get(d, p) == Ok::<(ClassInfoView, int), JdwpError>(
            (c, p + class_bytes(c, generic).len()),
        ),
{
    let x1 = be_bytes(c.ref_type_tag as nat, 1);
    let x2 = be_bytes(c.ref_type_id as nat, 8);
    let x3 = string_bytes(c.signature);
    let x4 = string_bytes(generic);
    let x5 = be_bytes(c.status as nat, 4);
    lemma_be_bytes_len(c.ref_type_tag as nat, 1);
    lemma_be_bytes_len(c.ref_type_id as nat, 8);
    lemma_be_bytes_len(c.status as nat, 4);
    lemma_split(d, p, x1 + x2 + x3 + x4, x5);
    lemma_split(d, p, x1 + x2 + x3, x4);
    lemma_split(d, p, x1 + x2, x3);
    lemma_split(d, p, x1, x2);
    law_numbers_read_back(d, p, c.ref_type_tag as nat);
    law_numbers_read_back(d, p + 1, c.ref_type_id as nat);
    law_string_reads_back(d, p + 9, c.signature);
    law_string_reads_back(d, p + 9 + x3.len(), generic);
    law_numbers_read_back(d, p + 9 + x3.len() + x4.len(), c.status as nat);
}

/// A method reads back as it was written, whatever its generic signature is.
pub proof fn law_method_reads_back(d: Seq<u8>, p: int, m: MethodInfoView, generic: Seq<char>)
    requires
        is_writable(m.name) && is_writable(m.signature) && is_writable(generic),
        stands_at(d, p, method_bytes(m, generic)),
    ensures
        <MethodInfo as Item>::get(d, p) == Ok::<(MethodInfoView, int), JdwpError>(
            (m, p + method_bytes(m, generic).len()),
        ),
{
    let x1 = be_bytes(m.method_id as nat, 8);
    let x2 = string_bytes(m.name);
    let x3 = string_bytes(m.signature);
    let x4 = string_bytes(generic);
    let x5 = be_bytes(m.mod_bits as nat, 4);
    lemma_be_bytes_len(m.method_id as nat, 8);
    lemma_be_bytes_len(m.mod_bits as nat, 4);
    lemma_split(d, p, x1 + x2 + x3 + x4, x5);
    lemma_split(d, p, x1 + x2 + x3, x4);
    lemma_split(d, p, x1 + x2, x3);
    lemma_split(d, p, x1, x2);
    law_numbers_read_back(d, p, m.method_id as nat);
    law_string_reads_back(d, p + 8, m.name);
    law_string_reads_back(d, p + 8 + x2.len(), m.signature);
    law_string_reads_back(d, p + 8 + x2.len() + x3.len(), generic);
    law_numbers_read_back(d, p + 8 + x2.len() + x3.len() + x4.len(), m.mod_bits as nat);
}

/// A line of a line table reads back as it was written.
pub proof fn law_line_reads_back(d: Seq<u8>, p: int, e: LineTableEntry)
    requires
        stands_at(d, p, line_bytes(e)),
    ensures
        <LineTableEntry as Item>::get(d, p) == Ok::<(LineTableEntry, int), JdwpError>(
            (e, p + line_bytes(e).len()),
        ),
{
    lemma_be_bytes_len(e.line_code_index as nat, 8);
    lemma_be_bytes_len(e.line_number as nat, 4);
    lemma_split(d, p, be_bytes(e.line_code_index as nat, 8), be_bytes(e.line_number as nat, 4));
    law_numbers_read_back(d, p, e.line_code_index as nat);
    law_numbers_read_back(d, p + 8, e.line_number as nat);
}

/// A variable reads back as it was written, whatever its generic signature is.
pub proof fn law_variable_reads_back(d: Seq<u8>, p: int, v: VariableInfoView, generic: Seq<char>)
    requires
        is_writable(v.name) && is_writable(v.signature) && is_writable(generic),
        stands_at(d, p, variable_bytes(v, generic)),
    ensures
        <VariableInfo as Item>::get(d, p) == Ok::<(VariableInfoView, int), JdwpError>(
            (v, p + variable_bytes(v, generic).len()),
        ),
{
    let x1 = be_bytes(v.code_index as nat, 8);
    let x2 = string_bytes(v.name);
    let x3 = string_bytes(v.signature);
    let x4 = string_bytes(generic);
    let x5 = be_bytes(v.length as nat, 4);
    let x6 = be_bytes(v.slot as nat, 4);
    lemma_be_bytes_len(v.code_index as nat, 8);
    lemma_be_bytes_len(v.length as nat, 4);
    lemma_be_bytes_len(v.slot as nat, 4);
    lemma_split(d, p, x1 + x2 + x3 + x4 + x5, x6);
    lemma_split(d, p, x1 + x2 + x3 + x4, x5);
    lemma_split(d, p, x1 + x2 + x3, x4);
    lemma_split(d, p, x1 + x2, x3);
    lemma_split(d, p, x1, x2);
    law_numbers_read_back(d, p, v.code_index as nat);
    law_string_reads_back(d, p + 8, v.name);
    law_string_reads_back(d, p + 8 + x2.len(), v.signature);
    law_string_reads_back(d, p + 8 + x2.len() + x3.len(), generic);
    law_numbers_read_back(d, p + 8 + x2.len() + x3.len() + x4.len(), v.length as nat);
    law_numbers_read_back(d, p + 12 + x2.len() + x3.len() + x4.len(), v.slot as nat);
}

/// A value reads back as it was written; an object may have any letter that names no other type.
pub proof fn law_value_reads_back(d: Seq<u8>, p: int, v: JvmValue)
    requires
        v matches JvmValue::Object { tag, id } ==> !is_primitive_tag(tag),
        stands_at(d, p, value_bytes(v)),
    ensures
        <JvmValue as Item>::get(d, p) == Ok::<(JvmValue, int), JdwpError>(
            (v, p + value_bytes(v).len()),
        ),
{
    let (t, n, w): (nat, nat, nat) = match v {
        JvmValue::Byte(n) => ('B' as nat, n as nat, 1),
        JvmValue::Char(n) => ('C' as nat, n as nat, 2),
        JvmValue::Double(n) => ('D' as nat, n as nat, 8),
        JvmValue::Float(n) => ('F' as nat, n as nat, 4),
        JvmValue::Int(n) => ('I' as nat, n as nat, 4),
        JvmValue::Long(n) => ('J' as nat, n as nat, 8),
        JvmValue::Short(n) => ('S' as nat, n as nat, 2),
        JvmValue::Boolean(b) => (
            'Z' as nat,
            if b {
                1
            } else {
                0
            },
            1,
        ),
        JvmValue::Object { tag, id } => (tag as nat, id as nat, 8),
        JvmValue::Void => ('V' as nat, 0, 0),
    };
    lemma_be_bytes_len(t, 1);
    lemma_be_bytes_len(n, w);
    if v is Void {
        assert(value_bytes(v) + be_bytes(n, w) =~= value_bytes(v));
    }
    lemma_split(d, p, be_bytes(t, 1), be_bytes(n, w));
    law_numbers_read_back(d, p, t);
    law_numbers_read_back(d, p + 1, n);
}

// ---------------------------------------------------------------------------
// Lists
// ---------------------------------------------------------------------------

proof fn lemma_items<T: Item>(d: Seq<u8>, p: int, items: Seq<T::V>, bytes: Seq<Seq<u8>>)
    requires
        items.len() == bytes.len(),
        stands_at(d, p, bytes.flatten()),
        forall|i: int, q: int|
            0 <= i < items.len() && #[trigger] stands_at(d, q, bytes[i]) ==> T::get(d, q) == Ok::<
                (T::V, int),
                JdwpError,
            >((items[i], q + bytes[i].len())),
    ensures
        get_items::<T>(d, p, items.len()) == Ok::<(Seq<T::V>, int), JdwpError>(
            (items, p + bytes.flatten().len()),
        ),
    decreases items.len(),
{
    if items.len() == 0 {
        assert(bytes =~= seq![]);
        assert(items =~= seq![]);
    } else {
        let less = items.drop_last();
        let b = bytes.drop_last();
        assert(bytes =~= b.push(bytes.last()));
        b.lemma_flatten_push(bytes.last());
        lemma_split(d, p, b.flatten(), bytes.last());
        assert forall|i: int, q: int|
            0 <= i < less.len() && #[trigger] stands_at(d, q, b[i]) implies T::get(d, q) == Ok::<
            (T::V, int),
            JdwpError,
        >((less[i], q + b[i].len())) by {
            assert(b[i] == bytes[i]);
        }
        lemma_items::<T>(d, p, less, b);
        let n = items.len() - 1;
        assert(stands_at(d, p + b.flatten().len(), bytes[n]));
        assert(less.push(items[n]) =~= items);
    }
}

/// A list reads back as it was written: as many items as there are, each of them as it reads
/// back, in their order.
pub proof fn law_list_reads_back<T: Item>(
    d: Seq<u8>,
    p: int,
    items: Seq<T::V>,
    bytes: Seq<Seq<u8>>,
)
    requires
        items.len() == bytes.len() < 0x1_0000_0000,
        stands_at(d, p, list_bytes(bytes)),
        forall|i: int, q: int|
            0 <= i < items.len() && #[trigger] stands_at(d, q, bytes[i]) ==> T::get(d, q) == Ok::<
                (T::V, int),
                JdwpError,
            >((items[i], q + bytes[i].len())),
    ensures
        get_list::<T>(d, p) == Ok::<(Seq<T::V>, int), JdwpError>(
            (items, p + list_bytes(bytes).len()),
        ),
{
    lemma_be_bytes_len(bytes.len(), 4);
    lemma_split(d, p, be_bytes(bytes.len(), 4), bytes.flatten());
    law_numbers_read_back(d, p, bytes.len());
    lemma_items::<T>(d, p + 4, items, bytes);
}

/// The frames that the JVM writes are the frames that are read: as many, each with its number and
/// its location, in their order.
pub proof fn law_frames_read_back(d: Seq<u8>, p: int, frames: Seq<FrameInfo>)
    requires
        frames.len() < 0x1_0000_0000,
        stands_at(d, p, list_bytes(frames.map_values(|f: FrameInfo| frame_bytes(f)))),
    ensures
        get_list::<FrameInfo>(d, p) matches Ok((read, _)) && read == frames,
{
    let bytes = frames.map_values(|f: FrameInfo| frame_bytes(f));
    assert forall|i: int, q: int|
        0 <= i < frames.len() && #[trigger] stands_at(d, q, bytes[i]) implies <FrameInfo as Item>::get(d, q) == Ok::<
        (FrameInfo, int),
        JdwpError,
    >((frames[i], q + bytes[i].len())) by {
        law_frame_reads_back(d, q, frames[i]);
    }
    law_list_reads_back::<FrameInfo>(d, p, frames, bytes);
}

/// The threads that the JVM writes are the threads that are read.
pub proof fn law_threads_read_back(d: Seq<u8>, p: int, ids: Seq<u64>)
    requires
        ids.len() < 0x1_0000_0000,
        stands_at(d, p, list_bytes(ids.map_values(|id: u64| be_bytes(id as nat, 8)))),
    ensures
        get_list::<ThreadId>(d, p) matches Ok((read, _)) && read == ids,
{
    let bytes = ids.map_values(|id: u64| be_bytes(id as nat, 8));
    assert forall|i: int, q: int|
        0 <= i < ids.len() && #[trigger] stands_at(d, q, bytes[i]) implies <ThreadId as Item>::get(d, q) == Ok::<
        (u64, int),
        JdwpError,
    >((ids[i], q + bytes[i].len())) by {
        lemma_be_bytes_len(ids[i] as nat, 8);
        law_thread_reads_back(d, q, ids[i]);
    }
    law_list_reads_back::<ThreadId>(d, p, ids, bytes);
}

/// The values that the JVM writes are the values that are read.
pub proof fn law_values_read_back(d: Seq<u8>, p: int, values: Seq<JvmValue>)
    requires
        values.len() < 0x1_0000_0000,
        forall|i: int|
            0 <= i < values.len() ==> (#[trigger] values[i] matches JvmValue::Object { tag, id }
                ==> !is_primitive_tag(tag)),
        stands_at(d, p, list_bytes(values.map_values(|v: JvmValue| value_bytes(v)))),
    ensures
        get_list::<JvmValue>(d, p) matches Ok((read, _)) && read == values,
{
    let bytes = values.map_values(|v: JvmValue| value_bytes(v));
    assert forall|i: int, q: int|
        0 <= i < values.len() && #[trigger] stands_at(d, q, bytes[i]) implies <JvmValue as Item>::get(d, q) == Ok::<
        (JvmValue, int),
        JdwpError,
    >((values[i], q + bytes[i].len())) by {
        let v = values[i];
        law_value_reads_back(d, q, v);
    }
    law_list_reads_back::<JvmValue>(d, p, values, bytes);
}

/// The classes that the JVM writes are the classes that are read.
pub proof fn law_classes_read_back(d: Seq<u8>, p: int, classes: Seq<ClassInfoView>, generic: Seq<char>)
    requires
        classes.len() < 0x1_0000_0000,
        is_writable(generic),
        forall|i: int| 0 <= i < classes.len() ==> is_writable((#[trigger] classes[i]).signature),
        stands_at(d, p, list_bytes(classes.map_values(|c: ClassInfoView| class_bytes(c, generic)))),
    ensures
        get_list::<ClassInfo>(d, p) matches Ok((read, _)) && read == classes,
{
    let bytes = classes.map_values(|c: ClassInfoView| class_bytes(c, generic));
    assert forall|i: int, q: int|
        0 <= i < classes.len() && #[trigger] stands_at(d, q, bytes[i]) implies <ClassInfo as Item>::get(d, q) == Ok::<
        (ClassInfoView, int),
        JdwpError,
    >((classes[i], q + bytes[i].len())) by {
        law_class_reads_back(d, q, classes[i], generic);
    }
    law_list_reads_back::<ClassInfo>(d, p, classes, bytes);
}

/// The methods that the JVM writes are the methods that are read.
pub proof fn law_methods_read_back(d: Seq<u8>, p: int, methods: Seq<MethodInfoView>, generic: Seq<char>)
    requires
        methods.len() < 0x1_0000_0000,
        is_writable(generic),
        forall|i: int|
            0 <= i < methods.len() ==> is_writable((#[trigger] methods[i]).name) && is_writable(
                methods[i].signature,
            ),
        stands_at(
            d,
            p,
            list_bytes(methods.map_values(|m: MethodInfoView| method_bytes(m, generic))),
        ),
    ensures
        get_list::<MethodInfo>(d, p) matches Ok((read, _)) && read == methods,
{
    let bytes = methods.map_values(|m: MethodInfoView| method_bytes(m, generic));
    assert forall|i: int, q: int|
        0 <= i < methods.len() && #[trigger] stands_at(d, q, bytes[i]) implies <MethodInfo as Item>::get(d, q) == Ok::<
        (MethodInfoView, int),
        JdwpError,
    >((methods[i], q + bytes[i].len())) by {
        law_method_reads_back(d, q, methods[i], generic);
    }
    law_list_reads_back::<MethodInfo>(d, p, methods, bytes);
}

/// A line table reads back as it was written: where the code starts and ends, and all its lines.
pub proof fn law_line_table_reads_back(d: Seq<u8>, t: LineTableView)
    requires
        t.lines.len() < 0x1_0000_0000,
        stands_at(
            d,
            0,
            be_bytes(t.start as nat, 8) + be_bytes(t.end as nat, 8) + list_bytes(
                t.lines.map_values(|e: LineTableEntry| line_bytes(e)),
            ),
        ),
    ensures
        get_line_table(d) == Ok::<LineTableView, JdwpError>(t),
{
    let bytes = t.lines.map_values(|e: LineTableEntry| line_bytes(e));
    lemma_be_bytes_len(t.start as nat, 8);
    lemma_be_bytes_len(t.end as nat, 8);
    lemma_split(
        d,
        0,
        be_bytes(t.start as nat, 8) + be_bytes(t.end as nat, 8),
        list_bytes(bytes),
    );
    lemma_split(d, 0, be_bytes(t.start as nat, 8), be_bytes(t.end as nat, 8));
    law_numbers_read_back(d, 0, t.start as nat);
    law_numbers_read_back(d, 8, t.end as nat);
    assert forall|i: int, q: int|
        0 <= i < t.lines.len() && #[trigger] stands_at(d, q, bytes[i]) implies <LineTableEntry as Item>::get(d, q) == Ok::<
        (LineTableEntry, int),
        JdwpError,
    >((t.lines[i], q + bytes[i].len())) by {
        law_line_reads_back(d, q, t.lines[i]);
    }
    law_list_reads_back::<LineTableEntry>(d, 16, t.lines, bytes);
}

/// A variable table reads back as it was written: all its variables, whatever number of slots the
/// arguments take.
pub proof fn law_variable_table_reads_back(
    d: Seq<u8>,
    slots: u32,
    variables: Seq<VariableInfoView>,
    generic: Seq<char>,
)
    requires
        variables.len() < 0x1_0000_0000,
        is_writable(generic),
        forall|i: int|
            0 <= i < variables.len() ==> is_writable((#[trigger] variables[i]).name) && is_writable(
                variables[i].signature,
            ),
        stands_at(
            d,
            0,
            be_bytes(slots as nat, 4) + list_bytes(
                variables.map_values(|v: VariableInfoView| variable_bytes(v, generic)),
            ),
        ),
    ensures
        get_variable_table(d) == Ok::<Seq<VariableInfoView>, JdwpError>(variables),
{
    let bytes = variables.map_values(|v: VariableInfoView| variable_bytes(v, generic));
    lemma_be_bytes_len(slots as nat, 4);
    lemma_split(d, 0, be_bytes(slots as nat, 4), list_bytes(bytes));
    law_numbers_read_back(d, 0, slots as nat);
    assert forall|i: int, q: int|
        0 <= i < variables.len() && #[trigger] stands_at(d, q, bytes[i]) implies <VariableInfo as Item>::get(d, q) == Ok::<
        (VariableInfoView, int),
        JdwpError,
    >((variables[i], q + bytes[i].len())) by {
        law_variable_reads_back(d, q, variables[i], generic);
    }
    law_list_reads_back::<VariableInfo>(d, 4, variables, bytes);
}

/// The sizes of numbers read back each as its own, and the type of an object as its kind and its
/// class.
pub proof fn law_sizes_and_types_read_back(d: Seq<u8>, s: IdSizes, tag: u8, class: u64)
    ensures
        stands_at(
            d,
            0,
            be_bytes(s.field as nat, 4) + be_bytes(s.method as nat, 4) + be_bytes(
                s.object as nat,
                4,
            ) + be_bytes(s.ref_type as nat, 4) + be_bytes(s.frame as nat, 4),
        ) ==> get_id_sizes(d) == Ok::<IdSizes, JdwpError>(s),
        stands_at(d, 0, be_bytes(tag as nat, 1) + be_bytes(class as nat, 8)) ==> get_object_type(d)
            == Ok::<(u8, u64), JdwpError>((tag, class)),
{
    let x1 = be_bytes(s.field as nat, 4);
    let x2 = be_bytes(s.method as nat, 4);
    let x3 = be_bytes(s.object as nat, 4);
    let x4 = be_bytes(s.ref_type as nat, 4);
    let x5 = be_bytes(s.frame as nat, 4);
    lemma_be_bytes_len(s.field as nat, 4);
    lemma_be_bytes_len(s.method as nat, 4);
    lemma_be_bytes_len(s.object as nat, 4);
    lemma_be_bytes_len(s.ref_type as nat, 4);
    lemma_be_bytes_len(s.frame as nat, 4);
    if stands_at(d, 0, x1 + x2 + x3 + x4 + x5) {
        lemma_split(d, 0, x1 + x2 + x3 + x4, x5);
        lemma_split(d, 0, x1 + x2 + x3, x4);
        lemma_split(d, 0, x1 + x2, x3);
        lemma_split(d, 0, x1, x2);
        law_numbers_read_back(d, 0, s.field as nat);
        law_numbers_read_back(d, 4, s.method as nat);
        law_numbers_read_back(d, 8, s.object as nat);
        law_numbers_read_back(d, 12, s.ref_type as nat);
        law_numbers_read_back(d, 16, s.frame as nat);
    }
    lemma_be_bytes_len(tag as nat, 1);
    if stands_at(d, 0, be_bytes(tag as nat, 1) + be_bytes(class as nat, 8)) {
        lemma_split(d, 0, be_bytes(tag as nat, 1), be_bytes(class as nat, 8));
        law_numbers_read_back(d, 0, tag as nat);
        law_numbers_read_back(d, 1, class as nat);
    }
}

// ---------------------------------------------------------------------------
// Events
// ---------------------------------------------------------------------------

/// An event reads back as it was written.
pub proof fn law_event_reads_back(
    d: Seq<u8>,
    p: int,
    e: JdwpEventView,
    tag: u8,
    at: Location,
    caught: Location,
)
    requires
        e matches JdwpEventView::ClassPrepare(c) ==> is_writable(c.signature),
        stands_at(d, p, event_bytes(e, tag, at, caught)),
    ensures
        get_entry(d, p) == Ok::<(EntryView, int), JdwpError>(
            (EntryView::Event(e), p + event_bytes(e, tag, at, caught).len()),
        ),
{
    lemma_be_bytes_len(0, 4);
    match e {
        JdwpEventView::Step(s) => lemma_stop(d, p, 1, s.request_id, s.thread_id, s.location),
        JdwpEventView::Breakpoint(s) => lemma_stop(d, p, 2, s.request_id, s.thread_id, s.location),
        JdwpEventView::ExceptionUncaught(s) => {
            let x1 = be_bytes(4, 1);
            let x2 = be_bytes(s.request_id as nat, 4);
            let x3 = be_bytes(s.thread_id as nat, 8);
            let x4 = location_bytes(at);
            let x5 = be_bytes(tag as nat, 1);
            let x6 = be_bytes(s.exception_object_id as nat, 8);
            let x7 = location_bytes(caught);
            lemma_be_bytes_len(4, 1);
            lemma_be_bytes_len(s.request_id as nat, 4);
            lemma_be_bytes_len(s.thread_id as nat, 8);
            lemma_be_bytes_len(tag as nat, 1);
            lemma_be_bytes_len(s.exception_object_id as nat, 8);
            lemma_split(d, p, x1 + x2 + x3 + x4 + x5 + x6, x7);
            lemma_split(d, p, x1 + x2 + x3 + x4 + x5, x6);
            lemma_split(d, p, x1 + x2 + x3 + x4, x5);
            lemma_split(d, p, x1 + x2 + x3, x4);
            lemma_split(d, p, x1 + x2, x3);
            lemma_split(d, p, x1, x2);
            law_numbers_read_back(d, p, 4);
            law_numbers_read_back(d, p + 1, s.request_id as nat);
            law_numbers_read_back(d, p + 5, s.thread_id as nat);
            lemma_location(d, p + 13, at);
            law_numbers_read_back(d, p + 38, tag as nat);
            law_numbers_read_back(d, p + 39, s.exception_object_id as nat);
            lemma_location(d, p + 47, caught);
        },
        JdwpEventView::ClassPrepare(s) => {
            let x1 = be_bytes(8, 1);
            let x2 = be_bytes(s.request_id as nat, 4);
            let x3 = be_bytes(s.thread_id as nat, 8);
            let x4 = be_bytes(s.ref_type_tag as nat, 1);
            let x5 = be_bytes(s.ref_type_id as nat, 8);
            let x6 = string_bytes(s.signature);
            let x7 = be_bytes(s.status as nat, 4);
            lemma_be_bytes_len(8, 1);
            lemma_be_bytes_len(s.request_id as nat, 4);
            lemma_be_bytes_len(s.thread_id as nat, 8);
            lemma_be_bytes_len(s.ref_type_tag as nat, 1);
            lemma_be_bytes_len(s.ref_type_id as nat, 8);
            lemma_be_bytes_len(s.status as nat, 4);
            lemma_split(d, p, x1 + x2 + x3 + x4 + x5 + x6, x7);
            lemma_split(d, p, x1 + x2 + x3 + x4 + x5, x6);
            lemma_split(d, p, x1 + x2 + x3 + x4, x5);
            lemma_split(d, p, x1 + x2 + x3, x4);
            lemma_split(d, p, x1 + x2, x3);
            lemma_split(d, p, x1, x2);
            law_numbers_read_back(d, p, 8);
            law_numbers_read_back(d, p + 1, s.request_id as nat);
            law_numbers_read_back(d, p + 5, s.thread_id as nat);
            law_numbers_read_back(d, p + 13, s.ref_type_tag as nat);
            law_numbers_read_back(d, p + 14, s.ref_type_id as nat);
            law_string_reads_back(d, p + 22, s.signature);
            law_numbers_read_back(d, p + 22 + x6.len(), s.status as nat);
        },
        JdwpEventView::VmDeath => {
            lemma_be_bytes_len(99, 1);
            lemma_split(d, p, be_bytes(99, 1), be_bytes(0, 4));
            law_numbers_read_back(d, p, 99);
            law_numbers_read_back(d, p + 1, 0);
        },
    }
}

proof fn lemma_stop(d: Seq<u8>, p: int, kind: u8, request_id: u32, thread_id: u64, location: Location)
    requires
        kind == 1 || kind == 2,
        stands_at(
            d,
            p,
            be_bytes(kind as nat, 1) + be_bytes(request_id as nat, 4) + be_bytes(
                thread_id as nat,
                8,
            ) + location_bytes(location),
        ),
    ensures
        get_entry(d, p) == Ok::<(EntryView, int), JdwpError>(
            (
                EntryView::Event(
                    if kind == 2 {
                        JdwpEventView::Breakpoint(
                            BreakpointEvent { request_id, thread_id, location },
                        )
                    } else {
                        JdwpEventView::Step(StepEvent { request_id, thread_id, location })
                    },
                ),
                p + 38,
            ),
        ),
        (be_bytes(kind as nat, 1) + be_bytes(request_id as nat, 4) + be_bytes(thread_id as nat, 8)
            + location_bytes(location)).len() == 38,
{
    let x1 = be_bytes(kind as nat, 1);
    let x2 = be_bytes(request_id as nat, 4);
    let x3 = be_bytes(thread_id as nat, 8);
    let x4 = location_bytes(location);
    lemma_be_bytes_len(kind as nat, 1);
    lemma_be_bytes_len(request_id as nat, 4);
    lemma_be_bytes_len(thread_id as nat, 8);
    lemma_split(d, p, x1 + x2 + x3, x4);
    lemma_split(d, p, x1 + x2, x3);
    lemma_split(d, p, x1, x2);
    law_numbers_read_back(d, p, kind as nat);
    law_numbers_read_back(d, p + 1, request_id as nat);
    law_numbers_read_back(d, p + 5, thread_id as nat);
    lemma_location(d, p + 13, location);
}

/// That the JVM has started is passed over: what counts is what follows it. Nothing is taken from
/// behind an event of a kind that is not known.
pub proof fn law_other_events_are_passed_over(d: Seq<u8>, p: int, n: nat, kind: u8, request: u32, thread: u64)
    requires
        n > 0,
        stands_at(
            d,
            p,
            be_bytes(kind as nat, 1) + be_bytes(request as nat, 4) + be_bytes(thread as nat, 8),
        ),
    ensures
        kind == 90 ==> events_from(d, p, n) == events_from(d, p + 13, (n - 1) as nat),
        kind != 1 && kind != 2 && kind != 4 && kind != 8 && kind != 90 && kind != 99 ==> events_from(d, p, n) == Ok::<
            Seq<JdwpEventView>,
            JdwpError,
        >(seq![]),
{
    let x1 = be_bytes(kind as nat, 1);
    let x2 = be_bytes(request as nat, 4);
    let x3 = be_bytes(thread as nat, 8);
    lemma_be_bytes_len(kind as nat, 1);
    lemma_be_bytes_len(request as nat, 4);
    lemma_be_bytes_len(thread as nat, 8);
    lemma_split(d, p, x1 + x2, x3);
    lemma_split(d, p, x1, x2);
    law_numbers_read_back(d, p, kind as nat);
    law_numbers_read_back(d, p + 1, request as nat);
    law_numbers_read_back(d, p + 5, thread as nat);
}

proof fn lemma_events(
    d: Seq<u8>,
    p: int,
    events: Seq<JdwpEventView>,
    tag: u8,
    at: Location,
    caught: Location,
)
    requires
        forall|i: int|
            0 <= i < events.len() ==> (#[trigger] events[i] matches JdwpEventView::ClassPrepare(c)
                ==> is_writable(c.signature)),
        stands_at(
            d,
            p,
            events.map_values(|e: JdwpEventView| event_bytes(e, tag, at, caught)).flatten(),
        ),
    ensures
        events_from(d, p, events.len()) == Ok::<Seq<JdwpEventView>, JdwpError>(events),
    decreases events.len(),
{
    let bytes = events.map_values(|e: JdwpEventView| event_bytes(e, tag, at, caught));
    if events.len() == 0 {
        assert(events =~= seq![]);
    } else {
        let rest = events.drop_first();
        let after = rest.map_values(|e: JdwpEventView| event_bytes(e, tag, at, caught));
        assert(bytes.drop_first() =~= after);
        assert(bytes.flatten() =~= bytes[0] + after.flatten());
        lemma_split(d, p, bytes[0], after.flatten());
        let e = events[0];
        law_event_reads_back(d, p, e, tag, at, caught);
        assert forall|i: int| 0 <= i < rest.len() implies (#[trigger] rest[i] matches JdwpEventView::ClassPrepare(c)
            ==> is_writable(c.signature)) by {
            let x = events[i + 1];
            assert(rest[i] == x);
        }
        lemma_events(d, p + bytes[0].len(), rest, tag, at, caught);
        assert(seq![e] + rest =~= events);
    }
}

/// The events that the JVM reports together are the events that are read: all of them, in their
/// order.
pub proof fn law_events_read_back(
    d: Seq<u8>,
    policy: u8,
    events: Seq<JdwpEventView>,
    tag: u8,
    at: Location,
    caught: Location,
)
    requires
        events.len() < 0x1_0000_0000,
        forall|i: int|
            0 <= i < events.len() ==> (#[trigger] events[i] matches JdwpEventView::ClassPrepare(c)
                ==> is_writable(c.signature)),
        stands_at(
            d,
            0,
            be_bytes(policy as nat, 1) + list_bytes(
                events.map_values(|e: JdwpEventView| event_bytes(e, tag, at, caught)),
            ),
        ),
    ensures
        composite_events(d) == Ok::<Seq<JdwpEventView>, JdwpError>(events),
{
    let bytes = events.map_values(|e: JdwpEventView| event_bytes(e, tag, at, caught));
    lemma_be_bytes_len(policy as nat, 1);
    lemma_be_bytes_len(bytes.len(), 4);
    lemma_split(d, 0, be_bytes(policy as nat, 1), list_bytes(bytes));
    lemma_split(d, 1, be_bytes(bytes.len(), 4), bytes.flatten());
    law_numbers_read_back(d, 0, policy as nat);
    law_numbers_read_back(d, 1, bytes.len());
    lemma_events(d, 5, events, tag, at, caught);
}

/// A truth value is true for every byte but zero.
pub proof fn law_every_byte_but_zero_is_true(d: Seq<u8>, p: int, b: u8)
    requires
        stands_at(d, p, be_bytes('Z' as nat, 1) + be_bytes(b as nat, 1)),
    ensures
        <JvmValue as Item>::get(d, p) == Ok::<(JvmValue, int), JdwpError>(
            (JvmValue::Boolean(b != 0), p + 2),
        ),
{
    lemma_be_bytes_len('Z' as nat, 1);
    lemma_split(d, p, be_bytes('Z' as nat, 1), be_bytes(b as nat, 1));
    law_numbers_read_back(d, p, 'Z' as nat);
    law_numbers_read_back(d, p + 1, b as nat);
}

/// A reply gives what was written in it: a text its characters, a request its number, and a list of
/// frames all its frames.
pub proof fn law_replies_give_what_was_written(
    d: Seq<u8>,
    s: Seq<char>,
    text: Result<String, JdwpError>,
    n: u32,
    number: Result<u32, JdwpError>,
    frames: Seq<FrameInfo>,
    list: Result<Vec<FrameInfo>, JdwpError>,
)
    requires
        is_writable(s),
        frames.len() < 0x1_0000_0000,
    ensures
        stands_at(d, 0, string_bytes(s)) && string_reply(text, d) ==> text is Ok && text->Ok_0@ == s,
        stands_at(d, 0, be_bytes(n as nat, 4)) && request_reply(number, d) ==> number == Ok::<
            u32,
            JdwpError,
        >(n),
        stands_at(d, 0, list_bytes(frames.map_values(|f: FrameInfo| frame_bytes(f))))
            && list_reply(list, d) ==> list is Ok && list->Ok_0@ == frames,
{
    if stands_at(d, 0, string_bytes(s)) {
        law_string_reads_back(d, 0, s);
    }
    law_numbers_read_back(d, 0, n as nat);
    if stands_at(d, 0, list_bytes(frames.map_values(|f: FrameInfo| frame_bytes(f)))) {
        law_frames_read_back(d, 0, frames);
        if list_reply(list, d) {
            assert(crate::list::views(list->Ok_0@) =~= list->Ok_0@);
        }
    }
}

/// What cannot be read makes the whole list unreadable, and the whole report of events: nothing is
/// made up for it.
pub proof fn law_unreadable_items_stop_the_reading<T: Item>(
    d: Seq<u8>,
    p: int,
    items: Seq<T::V>,
    i: nat,
    n: nat,
    q: int,
    e: JdwpError,
)
    ensures
        i < n && get_items::<T>(d, p, i) == Ok::<(Seq<T::V>, int), JdwpError>((items, q)) && T::get(
            d,
            q,
        ) == Err::<(T::V, int), JdwpError>(e) ==> get_items::<T>(d, p, n) == Err::<
            (Seq<T::V>, int),
            JdwpError,
        >(e),
        n > 0 && get_entry(d, p) == Err::<(EntryView, int), JdwpError>(e) ==> events_from(d, p, n)
            == Err::<Seq<JdwpEventView>, JdwpError>(e),
        0 <= p && p + 5 > d.len() ==> get_entry(d, p) is Err,
        d.len() < 5 ==> composite_events(d) is Err,
{
    if i < n && get_items::<T>(d, p, i) == Ok::<(Seq<T::V>, int), JdwpError>((items, q)) && T::get(
        d,
        q,
    ) == Err::<(T::V, int), JdwpError>(e) {
        assert(get_items::<T>(d, p, i + 1) == Err::<(Seq<T::V>, int), JdwpError>(e));
        crate::jdwp::read::lemma_get_items_fails::<T>(d, p, i + 1, n);
    }
}

} // verus!
