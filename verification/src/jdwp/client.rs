//! Commands to the JVM, their replies, and the packets that carry both.

use std::collections::HashMap;

use vstd::prelude::*;
use crate::jdwp::event::{composite_events, parse_composite_event, JdwpEvent, JdwpEventView};
use crate::list::views;
use crate::jdwp::read::{
    get_id, get_list, get_string, get_u32, get_u64, get_u8, read_id, read_list, read_string,
    read_u32, read_u64, read_u8, write_id, JdwpError,
};
use crate::jdwp::value::JvmValue;
use crate::jdwp::{
    ClassInfo, FrameInfo, LineTable, LineTableEntry, LineTableView, Location, MethodInfo, ThreadId,
    VariableInfo, VariableInfoView, EVENT_BREAKPOINT, EVENT_CLASS_PREPARE, EVENT_EXCEPTION,
    EVENT_STEP, STEP_SIZE_LINE,
};
use crate::wire::{be_bytes, be_value, law_be_bytes_read_back, lemma_be_ranges, put_be, take_be};

verus! {

broadcast use vstd::std_specs::hash::group_hash_axioms;

// ---------------------------------------------------------------------------
// Commands
// ---------------------------------------------------------------------------

/// A command: its number, its set's number, and its payload.
#[derive(Debug, PartialEq, Eq)]
pub struct Command {
    pub set: u8,
    pub cmd: u8,
    pub data: Vec<u8>,
}

#[verifier::ext_equal]
pub struct CommandView {
    pub set: u8,
    pub cmd: u8,
    pub data: Seq<u8>,
}

impl View for Command {
    type V = CommandView;

    open spec fn view(&self) -> CommandView {
        CommandView { set: self.set, cmd: self.cmd, data: self.data@ }
    }
}

impl Clone for Command {
    fn clone(&self) -> (r: Command)
        ensures
            r@ == self@,
    {
        Command { set: self.set, cmd: self.cmd, data: self.data.clone() }
    }
}

/// A command about one object: its number is the payload.
pub open spec fn about(set: u8, cmd: u8, id: u64) -> CommandView {
    CommandView { set, cmd, data: be_bytes(id as nat, 8) }
}

fn command_about(set: u8, cmd: u8, id: u64) -> (c: Command)
    ensures
        c@ == about(set, cmd, id),
{
    let mut data: Vec<u8> = Vec::new();
    write_id(&mut data, id);
    assert(data@ =~= be_bytes(id as nat, 8));
    Command { set, cmd, data }
}

/// A command about a method of a class.
pub open spec fn about_method(cmd: u8, ref_type_id: u64, method_id: u64) -> CommandView {
    CommandView {
        set: 6,
        cmd,
        data: be_bytes(ref_type_id as nat, 8) + be_bytes(method_id as nat, 8),
    }
}

fn command_about_method(cmd: u8, ref_type_id: u64, method_id: u64) -> (c: Command)
    ensures
        c@ == about_method(cmd, ref_type_id, method_id),
{
    let mut data: Vec<u8> = Vec::new();
    write_id(&mut data, ref_type_id);
    write_id(&mut data, method_id);
    assert(data@ =~= be_bytes(ref_type_id as nat, 8) + be_bytes(method_id as nat, 8));
    Command { set: 6, cmd, data }
}

/// How a request for events starts: the kind of event, to suspend all threads when it comes,
/// and how many modifiers follow.
pub open spec fn request_head(kind: u8, modifiers: nat) -> Seq<u8> {
    seq![kind, 2u8] + be_bytes(modifiers, 4)
}

fn put_request_head(data: &mut Vec<u8>, kind: u8, modifiers: u64)
    ensures
        final(data)@ == old(data)@ + request_head(kind, modifiers as nat),
{
    data.push(kind);
    data.push(2);
    put_be(data, modifiers, 4);
    assert(data@ =~= old(data)@ + request_head(kind, modifiers as nat));
}

pub open spec fn location_bytes(l: Location) -> Seq<u8> {
    seq![l.type_tag] + be_bytes(l.class_id as nat, 8) + be_bytes(l.method_id as nat, 8) + be_bytes(
        l.index as nat,
        8,
    )
}

/// The slots to be read, each with the tag of the type that is expected there.
pub open spec fn slot_bytes(slots: Seq<(u32, u8)>) -> Seq<u8>
    decreases slots.len(),
{
    if slots.len() == 0 {
        seq![]
    } else {
        slot_bytes(slots.drop_last()) + be_bytes(slots.last().0 as nat, 4).push(slots.last().1)
    }
}

pub open spec fn breakpoint_request(l: Location) -> CommandView {
    CommandView {
        set: 15,
        cmd: 1,
        data: request_head(EVENT_BREAKPOINT, 1).push(7) + location_bytes(l),
    }
}

pub open spec fn step_request(thread_id: u64, step_depth: u32) -> CommandView {
    CommandView {
        set: 15,
        cmd: 1,
        data: request_head(EVENT_STEP, 1).push(10) + be_bytes(thread_id as nat, 8) + be_bytes(
            STEP_SIZE_LINE as nat,
            4,
        ) + be_bytes(step_depth as nat, 4),
    }
}

/// What clears a request again.
pub open spec fn clear_request(event_kind: u8, request_id: u32) -> CommandView {
    CommandView { set: 15, cmd: 2, data: seq![event_kind] + be_bytes(request_id as nat, 4) }
}

/// Any class, not where it is caught, but where it is uncaught.
pub open spec fn exception_request() -> CommandView {
    CommandView {
        set: 15,
        cmd: 1,
        data: request_head(EVENT_EXCEPTION, 1).push(8) + be_bytes(0, 8) + seq![0u8, 1u8],
    }
}

/// What a list-shaped reply must give.
pub open spec fn list_reply<T: crate::jdwp::read::Item>(
    r: Result<Vec<T>, JdwpError>,
    d: Seq<u8>,
) -> bool {
    match get_list::<T>(d, 0) {
        Ok((items, _)) => r matches Ok(v) && views(v@) == items,
        Err(e) => r matches Err(x) && x == e,
    }
}

/// What a reply that is one string must give.
pub open spec fn string_reply(r: Result<String, JdwpError>, d: Seq<u8>) -> bool {
    match get_string(d, 0) {
        Ok((s, _)) => r matches Ok(t) && t@ == s,
        Err(e) => r matches Err(x) && x == e,
    }
}

/// What a reply that is a request's number must give.
pub open spec fn request_reply(r: Result<u32, JdwpError>, d: Seq<u8>) -> bool {
    match get_u32(d, 0) {
        Ok((n, _)) => r == Ok::<u32, JdwpError>(n),
        Err(e) => r == Err::<u32, JdwpError>(e),
    }
}

fn read_string_reply(data: &[u8]) -> (r: Result<String, JdwpError>)
    ensures
        string_reply(r, data@),
{
    let mut pos: usize = 0;
    read_string(data, &mut pos)
}

/// The sizes in bytes of field, method, object, class and frame numbers.
#[derive(Debug, Clone, Copy, PartialEq, Eq, Structural)]
pub struct IdSizes {
    pub field: u32,
    pub method: u32,
    pub object: u32,
    pub ref_type: u32,
    pub frame: u32,
}

pub open spec fn get_id_sizes(d: Seq<u8>) -> Result<IdSizes, JdwpError> {
    match get_u32(d, 0) {
        Err(e) => Err(e),
        Ok((field, p)) => match get_u32(d, p) {
            Err(e) => Err(e),
            Ok((method, p)) => match get_u32(d, p) {
                Err(e) => Err(e),
                Ok((object, p)) => match get_u32(d, p) {
                    Err(e) => Err(e),
                    Ok((ref_type, p)) => match get_u32(d, p) {
                        Err(e) => Err(e),
                        Ok((frame, _)) => Ok(IdSizes { field, method, object, ref_type, frame }),
                    },
                },
            },
        },
    }
}

impl IdSizes {
    /// Whether all numbers are eight bytes wide, as this client takes them to be.
    pub fn are_supported(&self) -> (r: bool)
        ensures
            r == (self.field == 8 && self.method == 8 && self.object == 8 && self.ref_type == 8
                && self.frame == 8),
    {
        self.field == 8 && self.method == 8 && self.object == 8 && self.ref_type == 8 && self.frame
            == 8
    }
}

/// The start and end of the code, and the lines.
pub open spec fn get_line_table(d: Seq<u8>) -> Result<LineTableView, JdwpError> {
    match get_u64(d, 0) {
        Err(e) => Err(e),
        Ok((start, p)) => match get_u64(d, p) {
            Err(e) => Err(e),
            Ok((end, p)) => match get_list::<LineTableEntry>(d, p) {
                Err(e) => Err(e),
                Ok((lines, _)) => Ok(LineTableView { start, end, lines }),
            },
        },
    }
}

/// How many slots the arguments take, and the variables.
pub open spec fn get_variable_table(d: Seq<u8>) -> Result<Seq<VariableInfoView>, JdwpError> {
    match get_u32(d, 0) {
        Err(e) => Err(e),
        Ok((_, p)) => match get_list::<VariableInfo>(d, p) {
            Err(e) => Err(e),
            Ok((variables, _)) => Ok(variables),
        },
    }
}

pub open spec fn get_object_type(d: Seq<u8>) -> Result<(u8, u64), JdwpError> {
    match get_u8(d, 0) {
        Err(e) => Err(e),
        Ok((tag, p)) => match get_id(d, p) {
            Err(e) => Err(e),
            Ok((id, _)) => Ok((tag, id)),
        },
    }
}

// ---------------------------------------------------------------------------
// Packets
// ---------------------------------------------------------------------------

/// What both sides send first: `JDWP-Handshake`.
pub open spec fn handshake_bytes() -> Seq<u8> {
    seq![
        0x4au8, 0x44u8, 0x57u8, 0x50u8, 0x2du8, 0x48u8, 0x61u8, 0x6eu8, 0x64u8, 0x73u8, 0x68u8,
        0x61u8, 0x6bu8, 0x65u8,
    ]
}

pub fn handshake() -> (v: Vec<u8>)
    ensures
        v@ == handshake_bytes(),
{
    let v: Vec<u8> = vec![
        0x4a, 0x44, 0x57, 0x50, 0x2d, 0x48, 0x61, 0x6e, 0x64, 0x73, 0x68, 0x61, 0x6b, 0x65,
    ];
    assert(v@ =~= handshake_bytes());
    v
}

/// The length of a packet's header.
pub const HEADER_LEN: usize = 11;

/// A packet with a command: the length of the whole, the number by which the reply will name
/// it, no flags, and the command.
pub open spec fn packet(id: u32, c: CommandView) -> Seq<u8> {
    be_bytes(HEADER_LEN as nat + c.data.len(), 4) + be_bytes(id as nat, 4) + seq![0u8, c.set, c.cmd]
        + c.data
}

/// The header of a packet. In a reply `first` and `second` make up an error code, in a command
/// they are the numbers of its set and of the command.
#[derive(Debug, Clone, Copy, PartialEq, Eq, Structural)]
pub struct PacketHeader {
    pub length: u32,
    pub id: u32,
    pub flags: u8,
    pub first: u8,
    pub second: u8,
}

/// The header that a packet starts with.
pub open spec fn header_of(bytes: Seq<u8>) -> PacketHeader {
    PacketHeader {
        length: be_value(bytes.subrange(0, 4)) as u32,
        id: be_value(bytes.subrange(4, 8)) as u32,
        flags: bytes[8],
        first: bytes[9],
        second: bytes[10],
    }
}

impl PacketHeader {
    pub fn read(bytes: &[u8]) -> (h: PacketHeader)
        requires
            bytes@.len() >= HEADER_LEN,
        ensures
            h == header_of(bytes@),
    {
        proof {
            lemma_be_ranges();
        }
        PacketHeader {
            length: take_be(bytes, 0, 4) as u32,
            id: take_be(bytes, 4, 4) as u32,
            flags: bytes[8],
            first: bytes[9],
            second: bytes[10],
        }
    }

    /// How many bytes follow the header; none where the length is too small to be true.
    pub open spec fn following(self) -> nat {
        if self.length <= HEADER_LEN {
            0
        } else {
            (self.length - HEADER_LEN) as nat
        }
    }

    pub fn payload_len(&self) -> (n: usize)
        ensures
            n == self.following(),
    {
        let length: usize = self.length as usize;
        if length <= HEADER_LEN {
            0
        } else {
            length - HEADER_LEN
        }
    }

    /// Whether the top flag is set, which marks a reply.
    pub open spec fn answers(self) -> bool {
        self.flags >= 0x80
    }

    /// The error code of a reply; zero where there was no error.
    pub open spec fn code(self) -> int {
        self.first * 256 + self.second
    }

    /// Whether this is a command by which the JVM reports events.
    pub open spec fn reports(self) -> bool {
        !self.answers() && self.first == 64 && self.second == 100
    }
}

/// A packet that carries a command reads back as that command, where its length fits.
pub proof fn law_packet_reads_back(id: u32, c: CommandView)
    requires
        HEADER_LEN + c.data.len() <= u32::MAX,
    ensures
        ({
            let p = packet(id, c);
            let h = header_of(p);
            &&& p.len() == HEADER_LEN + c.data.len()
            &&& h == (PacketHeader {
                length: p.len() as u32,
                id,
                flags: 0,
                first: c.set,
                second: c.cmd,
            })
            &&& !h.answers()
            &&& h.following() == c.data.len()
            &&& p.subrange(HEADER_LEN as int, p.len() as int) == c.data
        }),
{
    let p = packet(id, c);
    let n = HEADER_LEN as nat + c.data.len();
    lemma_be_ranges();
    law_be_bytes_read_back(n, 4);
    law_be_bytes_read_back(id as nat, 4);
    assert(p.subrange(0, 4) =~= be_bytes(n, 4));
    assert(p.subrange(4, 8) =~= be_bytes(id as nat, 4));
    assert(p.subrange(HEADER_LEN as int, p.len() as int) =~= c.data);
}

/// The bytes of a location read back as that location.
pub proof fn law_location_reads_back(l: Location, before: Seq<u8>, after: Seq<u8>)
    ensures
        crate::jdwp::get_location(before + location_bytes(l) + after, before.len() as int) == Ok::<
            (Location, int),
            JdwpError,
        >((l, before.len() as int + 25)),
{
    let d = before + location_bytes(l) + after;
    let p = before.len() as int;
    lemma_be_ranges();
    law_be_bytes_read_back(l.class_id as nat, 8);
    law_be_bytes_read_back(l.method_id as nat, 8);
    law_be_bytes_read_back(l.index as nat, 8);
    assert(be_value(seq![l.type_tag]) == l.type_tag) by {
        reveal_with_fuel(be_value, 2);
        assert(seq![l.type_tag].drop_last() =~= seq![]);
    }
    assert(d.subrange(p, p + 1) =~= seq![l.type_tag]);
    assert(d.subrange(p + 1, p + 9) =~= be_bytes(l.class_id as nat, 8));
    assert(d.subrange(p + 9, p + 17) =~= be_bytes(l.method_id as nat, 8));
    assert(d.subrange(p + 17, p + 25) =~= be_bytes(l.index as nat, 8));
}

/// What a packet from the JVM turned out to be.
#[derive(Debug, PartialEq, Eq)]
pub enum Received {
    /// The command `id` is answered.
    Reply { id: u32, result: Result<Vec<u8>, JdwpError> },
    Events(Vec<JdwpEvent>),
    /// Events that could not be read.
    Unreadable(JdwpError),
    /// A reply that nobody waits for, or a command that is no report of events.
    Ignored,
}

/// The debugger's end of a connection to the JVM.
pub struct JdwpClient {
    next_id: u32,
    pending: HashMap<u32, (u8, u8)>,
}

impl JdwpClient {
    /// The number of the next command.
    pub closed spec fn next(self) -> u32 {
        self.next_id
    }

    /// The commands that no reply has come for, by their numbers: each one's set and number.
    pub closed spec fn waiting(self) -> Map<u32, (u8, u8)> {
        self.pending@
    }

    /// A client for a connection on which `answer` came back for the handshake; none where that
    /// is no handshake.
    pub fn connect(answer: &[u8]) -> (r: Option<JdwpClient>)
        ensures
            r is Some <==> answer@ == handshake_bytes(),
            r matches Some(c) ==> c.next() == 1 && c.waiting() == Map::<u32, (u8, u8)>::empty(),
    {
        let want = handshake();
        if answer.len() != want.len() {
            return None;
        }
        let mut i: usize = 0;
        while i < answer.len()
            invariant
                i <= answer@.len() == want@.len(),
                want@ == handshake_bytes(),
                forall|k: int| 0 <= k < i ==> answer@[k] == want@[k],
            decreases answer@.len() - i,
        {
            if answer[i] != want[i] {
                return None;
            }
            i += 1;
        }
        assert(answer@ =~= want@);
        Some(JdwpClient { next_id: 1, pending: HashMap::new() })
    }

    /// The packet that sends a command, which then waits for its reply. The numbers of commands
    /// count up, and start again from zero after the last.
    pub fn send_command(&mut self, command: &Command) -> (p: Vec<u8>)
        requires
            HEADER_LEN + command.data@.len() <= usize::MAX,
        ensures
            p@ == packet(old(self).next(), command@),
            final(self).next() == if old(self).next() == u32::MAX {
                0
            } else {
                old(self).next() + 1
            },
            final(self).waiting() == old(self).waiting().insert(
                old(self).next(),
                (command.set, command.cmd),
            ),
    {
        let id = self.next_id;
        self.next_id = id.wrapping_add(1);
        let mut p: Vec<u8> = Vec::new();
        put_be(&mut p, (HEADER_LEN + command.data.len()) as u64, 4);
        put_be(&mut p, id as u64, 4);
        p.push(0);
        p.push(command.set);
        p.push(command.cmd);
        p.extend_from_slice(command.data.as_slice());
        self.pending.insert(id, (command.set, command.cmd));
        assert(p@ =~= packet(id, command@));
        p
    }

    /// What the reply `h` to the command `of` with the payload `data` comes to.
    pub open spec fn outcome(h: PacketHeader, of: (u8, u8), data: Seq<u8>) -> Result<
        Seq<u8>,
        JdwpError,
    > {
        if h.code() == 0 {
            Ok(data)
        } else {
            Err(JdwpError::Refused { code: h.code() as u16, set: of.0, cmd: of.1 })
        }
    }

    /// What a packet from the JVM is: a reply, which then nothing waits for any more, or a
    /// report of events.
    pub fn received(&mut self, h: PacketHeader, data: Vec<u8>) -> (r: Received)
        ensures
            final(self).next() == old(self).next(),
            final(self).waiting() == if h.answers() {
                old(self).waiting().remove(h.id)
            } else {
                old(self).waiting()
            },
            match r {
                Received::Reply { id, result } => {
                    &&& h.answers() && old(self).waiting().contains_key(h.id) && id == h.id
                    &&& match Self::outcome(h, old(self).waiting()[h.id], data@) {
                        Ok(d) => result matches Ok(v) && v@ == d,
                        Err(e) => result matches Err(x) && x == e,
                    }
                },
                Received::Events(events) => h.reports() && composite_events(data@) == Ok::<
                    Seq<JdwpEventView>,
                    JdwpError,
                >(views(events@)),
                Received::Unreadable(e) => h.reports() && composite_events(data@) == Err::<
                    Seq<JdwpEventView>,
                    JdwpError,
                >(e),
                Received::Ignored => if h.answers() {
                    !old(self).waiting().contains_key(h.id)
                } else {
                    !h.reports()
                },
            },
    {
        if h.flags >= 0x80 {
            match self.pending.remove(&h.id) {
                None => {
                    assert(self.pending@ =~= old(self).pending@.remove(h.id));
                    Received::Ignored
                },
                Some(of) => {
                    let code: u16 = (h.first as u16) * 256 + h.second as u16;
                    if code != 0 {
                        Received::Reply {
                            id: h.id,
                            result: Err(JdwpError::Refused { code, set: of.0, cmd: of.1 }),
                        }
                    } else {
                        Received::Reply { id: h.id, result: Ok(data) }
                    }
                },
            }
        } else if h.first == 64 && h.second == 100 {
            match parse_composite_event(data.as_slice()) {
                Ok(events) => Received::Events(events),
                Err(e) => Received::Unreadable(e),
            }
        } else {
            Received::Ignored
        }
    }

    /// The connection has ended: nothing is waited for any more, and the JVM counts as gone.
    pub fn closed(&mut self) -> (event: JdwpEvent)
        ensures
            final(self).next() == old(self).next(),
            final(self).waiting() == Map::<u32, (u8, u8)>::empty(),
            event@ == JdwpEventView::VmDeath,
    {
        self.pending = HashMap::new();
        JdwpEvent::VmDeath
    }

    // Commands about the whole machine.

    pub fn vm_version() -> (c: Command)
        ensures
            c@ == (CommandView { set: 1, cmd: 1, data: seq![] }),
    {
        let c = Command { set: 1, cmd: 1, data: Vec::new() };
        assert(c@ =~= (CommandView { set: 1, cmd: 1, data: seq![] }));
        c
    }

    pub fn vm_version_reply(data: &[u8]) -> (r: Result<String, JdwpError>)
        ensures
            string_reply(r, data@),
    {
        read_string_reply(data)
    }

    pub fn vm_id_sizes() -> (c: Command)
        ensures
            c@ == (CommandView { set: 1, cmd: 7, data: seq![] }),
    {
        let c = Command { set: 1, cmd: 7, data: Vec::new() };
        assert(c@ =~= (CommandView { set: 1, cmd: 7, data: seq![] }));
        c
    }

    pub fn vm_id_sizes_reply(data: &[u8]) -> (r: Result<IdSizes, JdwpError>)
        ensures
            r == get_id_sizes(data@),
    {
        let mut pos: usize = 0;
        let field = read_u32(data, &mut pos)?;
        let method = read_u32(data, &mut pos)?;
        let object = read_u32(data, &mut pos)?;
        let ref_type = read_u32(data, &mut pos)?;
        let frame = read_u32(data, &mut pos)?;
        Ok(IdSizes { field, method, object, ref_type, frame })
    }

    /// Asks for every class that is loaded.
    pub fn vm_all_classes() -> (c: Command)
        ensures
            c@ == (CommandView { set: 1, cmd: 20, data: seq![] }),
    {
        let c = Command { set: 1, cmd: 20, data: Vec::new() };
        assert(c@ =~= (CommandView { set: 1, cmd: 20, data: seq![] }));
        c
    }

    pub fn vm_all_classes_reply(data: &[u8]) -> (r: Result<Vec<ClassInfo>, JdwpError>)
        ensures
            list_reply(r, data@),
    {
        let mut pos: usize = 0;
        read_list::<ClassInfo>(data, &mut pos)
    }

    pub fn vm_all_threads() -> (c: Command)
        ensures
            c@ == (CommandView { set: 1, cmd: 4, data: seq![] }),
    {
        let c = Command { set: 1, cmd: 4, data: Vec::new() };
        assert(c@ =~= (CommandView { set: 1, cmd: 4, data: seq![] }));
        c
    }

    pub fn vm_all_threads_reply(data: &[u8]) -> (r: Result<Vec<ThreadId>, JdwpError>)
        ensures
            list_reply(r, data@),
    {
        let mut pos: usize = 0;
        read_list::<ThreadId>(data, &mut pos)
    }

    /// Lets all threads run.
    pub fn vm_resume() -> (c: Command)
        ensures
            c@ == (CommandView { set: 1, cmd: 9, data: seq![] }),
    {
        let c = Command { set: 1, cmd: 9, data: Vec::new() };
        assert(c@ =~= (CommandView { set: 1, cmd: 9, data: seq![] }));
        c
    }

    // Commands about a class.

    /// Asks for the signature of a class.
    pub fn ref_type_name(ref_type_id: u64) -> (c: Command)
        ensures
            c@ == about(2, 1, ref_type_id),
    {
        command_about(2, 1, ref_type_id)
    }

    pub fn ref_type_name_reply(data: &[u8]) -> (r: Result<String, JdwpError>)
        ensures
            string_reply(r, data@),
    {
        read_string_reply(data)
    }

    /// Asks for all methods that a class declares.
    pub fn ref_type_methods(ref_type_id: u64) -> (c: Command)
        ensures
            c@ == about(2, 15, ref_type_id),
    {
        command_about(2, 15, ref_type_id)
    }

    pub fn ref_type_methods_reply(data: &[u8]) -> (r: Result<Vec<MethodInfo>, JdwpError>)
        ensures
            list_reply(r, data@),
    {
        let mut pos: usize = 0;
        read_list::<MethodInfo>(data, &mut pos)
    }

    // Commands about a method.

    pub fn method_line_table(ref_type_id: u64, method_id: u64) -> (c: Command)
        ensures
            c@ == about_method(1, ref_type_id, method_id),
    {
        command_about_method(1, ref_type_id, method_id)
    }

    pub fn method_line_table_reply(data: &[u8]) -> (r: Result<LineTable, JdwpError>)
        ensures
            match get_line_table(data@) {
                Ok(t) => r matches Ok(v) && v@ == t,
                Err(e) => r matches Err(x) && x == e,
            },
    {
        let mut pos: usize = 0;
        let start = read_u64(data, &mut pos)?;
        let end = read_u64(data, &mut pos)?;
        let lines = read_list::<LineTableEntry>(data, &mut pos)?;
        assert(views(lines@) =~= lines@);
        Ok(LineTable { start, end, lines })
    }

    /// Asks for the variables of a method, which the JVM refuses where the class was compiled
    /// without them.
    pub fn method_variable_table(ref_type_id: u64, method_id: u64) -> (c: Command)
        ensures
            c@ == about_method(5, ref_type_id, method_id),
    {
        command_about_method(5, ref_type_id, method_id)
    }

    pub fn method_variable_table_reply(data: &[u8]) -> (r: Result<Vec<VariableInfo>, JdwpError>)
        ensures
            match get_variable_table(data@) {
                Ok(t) => r matches Ok(v) && views(v@) == t,
                Err(e) => r matches Err(x) && x == e,
            },
    {
        let mut pos: usize = 0;
        let _argument_slots = read_u32(data, &mut pos)?;
        read_list::<VariableInfo>(data, &mut pos)
    }

    // Commands about a thread.

    pub fn thread_name(thread_id: u64) -> (c: Command)
        ensures
            c@ == about(11, 1, thread_id),
    {
        command_about(11, 1, thread_id)
    }

    pub fn thread_name_reply(data: &[u8]) -> (r: Result<String, JdwpError>)
        ensures
            string_reply(r, data@),
    {
        read_string_reply(data)
    }

    pub fn thread_resume(thread_id: u64) -> (c: Command)
        ensures
            c@ == about(11, 3, thread_id),
    {
        command_about(11, 3, thread_id)
    }

    /// Asks for `length` frames from `start_frame` on; for all of them where `length` is the
    /// largest number.
    pub fn thread_frames(thread_id: u64, start_frame: u32, length: u32) -> (c: Command)
        ensures
            c@ == (CommandView {
                set: 11,
                cmd: 6,
                data: be_bytes(thread_id as nat, 8) + be_bytes(start_frame as nat, 4) + be_bytes(
                    length as nat,
                    4,
                ),
            }),
    {
        let mut data: Vec<u8> = Vec::new();
        write_id(&mut data, thread_id);
        put_be(&mut data, start_frame as u64, 4);
        put_be(&mut data, length as u64, 4);
        assert(data@ =~= be_bytes(thread_id as nat, 8) + be_bytes(start_frame as nat, 4)
            + be_bytes(length as nat, 4));
        Command { set: 11, cmd: 6, data }
    }

    pub fn thread_frames_reply(data: &[u8]) -> (r: Result<Vec<FrameInfo>, JdwpError>)
        ensures
            list_reply(r, data@),
    {
        let mut pos: usize = 0;
        read_list::<FrameInfo>(data, &mut pos)
    }

    // Commands about a frame.

    /// Asks for the values of local variable slots, each given with the tag of its type.
    pub fn stack_frame_get_values(thread_id: u64, frame_id: u64, slots: &[(u32, u8)]) -> (c: Command)
        ensures
            c@ == (CommandView {
                set: 16,
                cmd: 1,
                data: be_bytes(thread_id as nat, 8) + be_bytes(frame_id as nat, 8) + be_bytes(
                    slots@.len(),
                    4,
                ) + slot_bytes(slots@),
            }),
    {
        let mut data: Vec<u8> = Vec::new();
        write_id(&mut data, thread_id);
        write_id(&mut data, frame_id);
        put_be(&mut data, slots.len() as u64, 4);
        let ghost head = data@;
        let mut i: usize = 0;
        assert(slots@.take(0) =~= seq![]);
        assert(data@ =~= head + slot_bytes(slots@.take(0)));
        while i < slots.len()
            invariant
                i <= slots@.len(),
                data@ == head + slot_bytes(slots@.take(i as int)),
            decreases slots@.len() - i,
        {
            proof {
                assert(slots@.take(i + 1).drop_last() =~= slots@.take(i as int));
            }
            let ghost before = data@;
            put_be(&mut data, slots[i].0 as u64, 4);
            data.push(slots[i].1);
            assert(data@ =~= before + be_bytes(slots@[i as int].0 as nat, 4).push(
                slots@[i as int].1,
            ));
            assert(data@ =~= head + slot_bytes(slots@.take(i + 1)));
            i += 1;
        }
        assert(slots@.take(slots@.len() as int) =~= slots@);
        assert(head =~= be_bytes(thread_id as nat, 8) + be_bytes(frame_id as nat, 8) + be_bytes(
            slots@.len(),
            4,
        ));
        Command { set: 16, cmd: 1, data }
    }

    pub fn stack_frame_get_values_reply(data: &[u8]) -> (r: Result<Vec<JvmValue>, JdwpError>)
        ensures
            list_reply(r, data@),
    {
        let mut pos: usize = 0;
        read_list::<JvmValue>(data, &mut pos)
    }

    // Requests for events.

    /// Asks to be told of every class that is loaded, with all threads suspended.
    pub fn event_request_set_class_prepare() -> (c: Command)
        ensures
            c@ == (CommandView { set: 15, cmd: 1, data: request_head(EVENT_CLASS_PREPARE, 0) }),
    {
        let mut data: Vec<u8> = Vec::new();
        put_request_head(&mut data, EVENT_CLASS_PREPARE, 0);
        assert(data@ =~= request_head(EVENT_CLASS_PREPARE, 0));
        Command { set: 15, cmd: 1, data }
    }

    /// Sets a breakpoint, at which all threads are suspended.
    pub fn event_request_set_breakpoint(location: &Location) -> (c: Command)
        ensures
            c@ == breakpoint_request(*location),
    {
        let mut data: Vec<u8> = Vec::new();
        put_request_head(&mut data, EVENT_BREAKPOINT, 1);
        data.push(7);
        data.push(location.type_tag);
        write_id(&mut data, location.class_id);
        write_id(&mut data, location.method_id);
        put_be(&mut data, location.index, 8);
        assert(data@ =~= breakpoint_request(*location).data);
        Command { set: 15, cmd: 1, data }
    }

    /// Asks for one step of a thread: into calls, over them, or out of the method.
    pub fn event_request_set_step(thread_id: u64, step_depth: u32) -> (c: Command)
        ensures
            c@ == step_request(thread_id, step_depth),
    {
        let mut data: Vec<u8> = Vec::new();
        put_request_head(&mut data, EVENT_STEP, 1);
        data.push(10);
        write_id(&mut data, thread_id);
        put_be(&mut data, STEP_SIZE_LINE as u64, 4);
        put_be(&mut data, step_depth as u64, 4);
        assert(data@ =~= step_request(thread_id, step_depth).data);
        Command { set: 15, cmd: 1, data }
    }

    pub fn event_request_clear(event_kind: u8, request_id: u32) -> (c: Command)
        ensures
            c@ == clear_request(event_kind, request_id),
    {
        let mut data: Vec<u8> = Vec::new();
        data.push(event_kind);
        put_be(&mut data, request_id as u64, 4);
        assert(data@ =~= clear_request(event_kind, request_id).data);
        Command { set: 15, cmd: 2, data }
    }

    /// Asks to be told of exceptions that nothing catches, with all threads suspended.
    pub fn event_request_set_exception_uncaught() -> (c: Command)
        ensures
            c@ == exception_request(),
    {
        let mut data: Vec<u8> = Vec::new();
        put_request_head(&mut data, EVENT_EXCEPTION, 1);
        data.push(8);
        write_id(&mut data, 0);
        data.push(0);
        data.push(1);
        assert(data@ =~= exception_request().data);
        Command { set: 15, cmd: 1, data }
    }

    /// The number by which a request can be cleared again.
    pub fn event_request_reply(data: &[u8]) -> (r: Result<u32, JdwpError>)
        ensures
            request_reply(r, data@),
    {
        let mut pos: usize = 0;
        read_u32(data, &mut pos)
    }

    // Commands about an object.

    /// Asks for the characters of a string object.
    pub fn string_value(string_id: u64) -> (c: Command)
        ensures
            c@ == about(10, 1, string_id),
    {
        command_about(10, 1, string_id)
    }

    pub fn string_value_reply(data: &[u8]) -> (r: Result<String, JdwpError>)
        ensures
            string_reply(r, data@),
    {
        read_string_reply(data)
    }

    /// Asks which class an object is of.
    pub fn object_reference_type(object_id: u64) -> (c: Command)
        ensures
            c@ == about(9, 1, object_id),
    {
        command_about(9, 1, object_id)
    }

    pub fn object_reference_type_reply(data: &[u8]) -> (r: Result<(u8, u64), JdwpError>)
        ensures
            r == get_object_type(data@),
    {
        let mut pos: usize = 0;
        let tag = read_u8(data, &mut pos)?;
        let id = read_id(data, &mut pos)?;
        Ok((tag, id))
    }
}

// ---------------------------------------------------------------------------
// What holds of commands and packets
// ---------------------------------------------------------------------------

/// A command about an object carries its number, one about a method those of the class and the
/// method; a request to be stopped where an exception is not caught is for any class, and not
/// where it is caught.
pub proof fn law_commands_carry_their_numbers(set: u8, cmd: u8, id: u64, method: u64)
    ensures
        about(set, cmd, id) == (CommandView { set, cmd, data: be_bytes(id as nat, 8) }),
        about_method(cmd, id, method) == (CommandView {
            set: 6,
            cmd,
            data: be_bytes(id as nat, 8) + be_bytes(method as nat, 8),
        }),
        exception_request().set == 15,
        exception_request().cmd == 1,
        exception_request().data == seq![
            4u8, 2u8, 0u8, 0u8, 0u8, 1u8, 8u8, 0u8, 0u8, 0u8, 0u8, 0u8, 0u8, 0u8, 0u8, 0u8, 1u8,
        ],
        handshake_bytes() == seq![
            'J' as u8, 'D' as u8, 'W' as u8, 'P' as u8, '-' as u8, 'H' as u8, 'a' as u8, 'n' as u8,
            'd' as u8, 's' as u8, 'h' as u8, 'a' as u8, 'k' as u8, 'e' as u8,
        ],
{
    reveal_with_fuel(be_bytes, 9);
    assert(be_bytes(1, 4) =~= seq![0u8, 0u8, 0u8, 1u8]);
    assert(be_bytes(0, 8) =~= seq![0u8, 0u8, 0u8, 0u8, 0u8, 0u8, 0u8, 0u8]);
    assert(exception_request().data =~= seq![
        4u8, 2u8, 0u8, 0u8, 0u8, 1u8, 8u8, 0u8, 0u8, 0u8, 0u8, 0u8, 0u8, 0u8, 0u8, 0u8, 1u8,
    ]);
}

/// A header reads back as it was written. A packet is a reply just where the top bit of its flags
/// is set; its last two bytes are then the error code, and its payload counts just where that is
/// zero. A report of events is the one command of the JVM that counts.
pub proof fn law_headers_read_back(
    length: u32,
    id: u32,
    flags: u8,
    first: u8,
    second: u8,
    rest: Seq<u8>,
    of: (u8, u8),
)
    ensures
        ({
            let h = header_of(
                be_bytes(length as nat, 4) + be_bytes(id as nat, 4) + seq![flags, first, second]
                    + rest,
            );
            &&& h.length == length && h.id == id && h.flags == flags && h.first == first && h.second
                == second
            &&& h.answers() <==> flags >= 128
            &&& h.reports() <==> flags < 128 && first == 64 && second == 100
            &&& h.following() == if length > 11 {
                length - 11
            } else {
                0
            }
            &&& first == 0 && second == 0 ==> JdwpClient::outcome(h, of, rest) == Ok::<
                Seq<u8>,
                JdwpError,
            >(rest)
            &&& first != 0 || second != 0 ==> JdwpClient::outcome(h, of, rest) == Err::<
                Seq<u8>,
                JdwpError,
            >(
                JdwpError::Refused {
                    code: be_value(seq![first, second]) as u16,
                    set: of.0,
                    cmd: of.1,
                },
            )
        }),
{
    lemma_be_ranges();
    law_be_bytes_read_back(length as nat, 4);
    law_be_bytes_read_back(id as nat, 4);
    let s = be_bytes(length as nat, 4) + be_bytes(id as nat, 4) + seq![flags, first, second] + rest;
    assert(s.subrange(0, 4) =~= be_bytes(length as nat, 4));
    assert(s.subrange(4, 8) =~= be_bytes(id as nat, 4));
    assert(s[8] == flags && s[9] == first && s[10] == second);
    assert(be_value(seq![first, second]) == first * 256 + second) by {
        crate::wire::law_first_byte_counts_most(first, seq![second]);
        crate::wire::law_first_byte_counts_most(second, seq![]);
        assert(crate::wire::be_range(seq![second].len()) == 256);
        assert(seq![first] + seq![second] =~= seq![first, second]);
    }
}

} // verus!
