//! Reading the values that a JDWP payload is made of.
//!
//! Each `get_*` says what stands at a position of the payload and where the next value starts;
//! the `read_*` of the same name does the reading.

use vstd::prelude::*;
use vstd::utf8::{decode_utf8, valid_utf8};
use crate::list::views;
use crate::text::{append, error_text, utf8_error, utf8_error_text, utf8_text};
use crate::number::{decimal, decimal_text};
use crate::wire::{be_value, lemma_be_ranges, take_be, put_be, be_bytes};

verus! {

/// How wide a number is.
#[derive(Clone, Copy, Debug, PartialEq, Eq, Structural)]
pub enum Width {
    U8,
    U16,
    U32,
    U64,
}

impl Width {
    pub open spec fn bytes(self) -> nat {
        match self {
            Width::U8 => 1,
            Width::U16 => 2,
            Width::U32 => 4,
            Width::U64 => 8,
        }
    }

    pub open spec fn named(self) -> Seq<char> {
        match self {
            Width::U8 => "u8"@,
            Width::U16 => "u16"@,
            Width::U32 => "u32"@,
            Width::U64 => "u64"@,
        }
    }

    pub fn name(self) -> (s: &'static str)
        ensures
            s@ == self.named(),
    {
        match self {
            Width::U8 => "u8",
            Width::U16 => "u16",
            Width::U32 => "u32",
            Width::U64 => "u64",
        }
    }
}

/// Why a JDWP command has no result.
#[derive(Clone, Copy, Debug, PartialEq, Eq)]
pub enum JdwpError {
    /// The payload ends inside the number that starts at `at`.
    Underrun { width: Width, at: usize },
    /// The payload ends inside a string of `len` bytes.
    StringUnderrun { len: usize },
    /// The bytes of a string are not UTF-8.
    NotUtf8(std::str::Utf8Error),
    /// The JVM answered a command with an error code.
    Refused { code: u16, set: u8, cmd: u8 },
    /// The connection no longer takes commands.
    WriteClosed,
    /// The connection ended before the reply came.
    ReplyDropped,
}

impl JdwpError {
    pub open spec fn text(self) -> Seq<char> {
        match self {
            JdwpError::Underrun { width, at } => "JDWP buffer underrun reading "@ + width.named()
                + " at "@ + decimal(at as nat),
            JdwpError::StringUnderrun { len } => "JDWP buffer underrun reading string of len "@
                + decimal(len as nat),
            JdwpError::NotUtf8(e) => "JDWP string not UTF-8: "@ + utf8_error_text(e),
            JdwpError::Refused { code, set, cmd } => "JDWP error code "@ + decimal(code as nat)
                + " (cmdSet="@ + decimal(set as nat) + " cmd="@ + decimal(cmd as nat) + ")"@,
            JdwpError::WriteClosed => "JDWP write channel closed"@,
            JdwpError::ReplyDropped => "JDWP reply channel dropped (JVM exited?)"@,
        }
    }

    /// The error in words.
    pub fn message(&self) -> (s: String)
        ensures
            s@ == self.text(),
    {
        let mut s = String::new();
        match *self {
            JdwpError::Underrun { width, at } => {
                append(&mut s, "JDWP buffer underrun reading ");
                append(&mut s, width.name());
                append(&mut s, " at ");
                append(&mut s, decimal_text(at as u64).as_str());
            },
            JdwpError::StringUnderrun { len } => {
                append(&mut s, "JDWP buffer underrun reading string of len ");
                append(&mut s, decimal_text(len as u64).as_str());
            },
            JdwpError::NotUtf8(e) => {
                append(&mut s, "JDWP string not UTF-8: ");
                append(&mut s, error_text(&e).as_str());
            },
            JdwpError::Refused { code, set, cmd } => {
                append(&mut s, "JDWP error code ");
                append(&mut s, decimal_text(code as u64).as_str());
                append(&mut s, " (cmdSet=");
                append(&mut s, decimal_text(set as u64).as_str());
                append(&mut s, " cmd=");
                append(&mut s, decimal_text(cmd as u64).as_str());
                append(&mut s, ")");
            },
            JdwpError::WriteClosed => {
                append(&mut s, "JDWP write channel closed");
            },
            JdwpError::ReplyDropped => {
                append(&mut s, "JDWP reply channel dropped (JVM exited?)");
            },
        }
        assert(s@ =~= self.text());
        s
    }
}

/// The number of `width` at `p`.
pub open spec fn get_number(d: Seq<u8>, p: int, width: Width) -> Result<(nat, int), JdwpError> {
    if p + width.bytes() > d.len() {
        Err(JdwpError::Underrun { width, at: p as usize })
    } else {
        Ok((be_value(d.subrange(p, p + width.bytes())), p + width.bytes()))
    }
}

pub open spec fn get_u8(d: Seq<u8>, p: int) -> Result<(u8, int), JdwpError> {
    match get_number(d, p, Width::U8) {
        Err(e) => Err(e),
        Ok((n, q)) => Ok((n as u8, q)),
    }
}

pub open spec fn get_u16(d: Seq<u8>, p: int) -> Result<(u16, int), JdwpError> {
    match get_number(d, p, Width::U16) {
        Err(e) => Err(e),
        Ok((n, q)) => Ok((n as u16, q)),
    }
}

pub open spec fn get_u32(d: Seq<u8>, p: int) -> Result<(u32, int), JdwpError> {
    match get_number(d, p, Width::U32) {
        Err(e) => Err(e),
        Ok((n, q)) => Ok((n as u32, q)),
    }
}

pub open spec fn get_u64(d: Seq<u8>, p: int) -> Result<(u64, int), JdwpError> {
    match get_number(d, p, Width::U64) {
        Err(e) => Err(e),
        Ok((n, q)) => Ok((n as u64, q)),
    }
}

/// An object, class, method or frame number: eight bytes.
pub open spec fn get_id(d: Seq<u8>, p: int) -> Result<(u64, int), JdwpError> {
    get_u64(d, p)
}

/// A string: its length in bytes, and its bytes in UTF-8.
pub open spec fn get_string(d: Seq<u8>, p: int) -> Result<(Seq<char>, int), JdwpError> {
    match get_u32(d, p) {
        Err(e) => Err(e),
        Ok((len, q)) => if q + len > d.len() {
            Err(JdwpError::StringUnderrun { len: len as usize })
        } else if !valid_utf8(d.subrange(q, q + len)) {
            Err(JdwpError::NotUtf8(utf8_error(d.subrange(q, q + len))))
        } else {
            Ok((decode_utf8(d.subrange(q, q + len)), q + len))
        },
    }
}

/// A number that is there is the same whatever follows the payload.
pub proof fn lemma_numbers_more(d: Seq<u8>, more: Seq<u8>)
    ensures
        forall|p: int, width: Width|
            p >= 0 && (#[trigger] get_number(d, p, width)) is Ok ==> get_number(d + more, p, width)
                == get_number(d, p, width),
{
    assert forall|p: int, width: Width|
        p >= 0 && (#[trigger] get_number(d, p, width)) is Ok implies get_number(d + more, p, width)
        == get_number(d, p, width) by {
        assert((d + more).subrange(p, p + width.bytes()) =~= d.subrange(p, p + width.bytes()));
    }
}

/// A string that is there is the same whatever follows the payload.
pub proof fn lemma_string_more(d: Seq<u8>, more: Seq<u8>, p: int)
    requires
        p >= 0,
    ensures
        get_string(d, p) is Ok ==> get_string(d + more, p) == get_string(d, p) && get_string(
            d,
            p,
        )->Ok_0.1 >= 0,
{
    lemma_numbers_more(d, more);
    if get_string(d, p) is Ok {
        let (len, q) = get_u32(d, p)->Ok_0;
        assert((d + more).subrange(q, q + len) =~= d.subrange(q, q + len));
    }
}

/// Whether a reading from `before` that gave `r` and ended at `after` gave what `want` says;
/// a reading that fails leaves the position alone.
pub open spec fn read_is<T>(
    r: Result<T, JdwpError>,
    before: usize,
    after: usize,
    want: Result<(T, int), JdwpError>,
) -> bool {
    match want {
        Ok((v, q)) => r == Ok::<T, JdwpError>(v) && after == q,
        Err(e) => r == Err::<T, JdwpError>(e) && after == before,
    }
}

fn read_number(data: &[u8], pos: &mut usize, width: Width, bytes: u8) -> (r: Result<u64, JdwpError>)
    requires
        bytes == width.bytes(),
    ensures
        match get_number(data@, *old(pos) as int, width) {
            Ok((n, q)) => r == Ok::<u64, JdwpError>(n as u64) && n < crate::wire::be_range(
                bytes as nat,
            ) && n <= u64::MAX && *final(pos) == q,
            Err(e) => r == Err::<u64, JdwpError>(e) && *final(pos) == *old(pos),
        },
{
    let n: usize = bytes as usize;
    if data.len() < n || *pos > data.len() - n {
        return Err(JdwpError::Underrun { width, at: *pos });
    }
    let v = take_be(data, *pos, bytes);
    *pos = *pos + n;
    Ok(v)
}

pub fn read_u8(data: &[u8], pos: &mut usize) -> (r: Result<u8, JdwpError>)
    ensures
        read_is(r, *old(pos), *final(pos), get_u8(data@, *old(pos) as int)),
{
    proof {
        lemma_be_ranges();
    }
    match read_number(data, pos, Width::U8, 1) {
        Err(e) => Err(e),
        Ok(n) => Ok(n as u8),
    }
}

pub fn read_u16(data: &[u8], pos: &mut usize) -> (r: Result<u16, JdwpError>)
    ensures
        read_is(r, *old(pos), *final(pos), get_u16(data@, *old(pos) as int)),
{
    proof {
        lemma_be_ranges();
    }
    match read_number(data, pos, Width::U16, 2) {
        Err(e) => Err(e),
        Ok(n) => Ok(n as u16),
    }
}

pub fn read_u32(data: &[u8], pos: &mut usize) -> (r: Result<u32, JdwpError>)
    ensures
        read_is(r, *old(pos), *final(pos), get_u32(data@, *old(pos) as int)),
{
    proof {
        lemma_be_ranges();
    }
    match read_number(data, pos, Width::U32, 4) {
        Err(e) => Err(e),
        Ok(n) => Ok(n as u32),
    }
}

pub fn read_u64(data: &[u8], pos: &mut usize) -> (r: Result<u64, JdwpError>)
    ensures
        read_is(r, *old(pos), *final(pos), get_u64(data@, *old(pos) as int)),
{
    read_number(data, pos, Width::U64, 8)
}

pub fn read_id(data: &[u8], pos: &mut usize) -> (r: Result<u64, JdwpError>)
    ensures
        read_is(r, *old(pos), *final(pos), get_id(data@, *old(pos) as int)),
{
    read_u64(data, pos)
}

/// A position that is no longer needed, since the reading failed, is left where the text's
/// length ends.
pub fn read_string(data: &[u8], pos: &mut usize) -> (r: Result<String, JdwpError>)
    ensures
        match get_string(data@, *old(pos) as int) {
            Ok((s, q)) => r matches Ok(t) && t@ == s && *final(pos) == q,
            Err(e) => r == Err::<String, JdwpError>(e) && *final(pos) == match get_u32(
                data@,
                *old(pos) as int,
            ) {
                Ok((_, q)) => q,
                Err(_) => *old(pos) as int,
            },
        },
{
    let len: usize = match read_u32(data, pos) {
        Err(e) => {
            return Err(e);
        },
        Ok(n) => n as usize,
    };
    if *pos > data.len() || len > data.len() - *pos {
        return Err(JdwpError::StringUnderrun { len });
    }
    match utf8_text(&data[*pos..*pos + len]) {
        Err(e) => Err(JdwpError::NotUtf8(e)),
        Ok(s) => {
            *pos = *pos + len;
            Ok(s)
        },
    }
}

/// Appends an object, class, method or frame number.
pub fn write_id(buf: &mut Vec<u8>, id: u64)
    ensures
        final(buf)@ == old(buf)@ + be_bytes(id as nat, 8),
{
    put_be(buf, id, 8);
}

/// A value that stands in a payload, alone or in a list.
pub trait Item: View + Sized {
    /// The item at `p`, and where the next one starts.
    spec fn get(d: Seq<u8>, p: int) -> Result<(Self::V, int), JdwpError>;

    fn read(data: &[u8], pos: &mut usize) -> (r: Result<Self, JdwpError>)
        ensures
            match Self::get(data@, *old(pos) as int) {
                Ok((v, q)) => r matches Ok(x) && x@ == v && *final(pos) == q,
                Err(e) => r matches Err(x) && x == e,
            },
    ;
}

/// The `n` items from `p` on, one behind the other.
pub open spec fn get_items<T: Item>(d: Seq<u8>, p: int, n: nat) -> Result<
    (Seq<T::V>, int),
    JdwpError,
>
    decreases n,
{
    if n == 0 {
        Ok((seq![], p))
    } else {
        match get_items::<T>(d, p, (n - 1) as nat) {
            Err(e) => Err(e),
            Ok((items, q)) => match T::get(d, q) {
                Err(e) => Err(e),
                Ok((item, t)) => Ok((items.push(item), t)),
            },
        }
    }
}

/// A list: how many items there are, and the items.
pub open spec fn get_list<T: Item>(d: Seq<u8>, p: int) -> Result<(Seq<T::V>, int), JdwpError> {
    match get_u32(d, p) {
        Err(e) => Err(e),
        Ok((n, q)) => get_items::<T>(d, q, n as nat),
    }
}

/// What stops a shorter list stops a longer one.
pub proof fn lemma_get_items_fails<T: Item>(d: Seq<u8>, p: int, m: nat, n: nat)
    requires
        m <= n,
        get_items::<T>(d, p, m) is Err,
    ensures
        get_items::<T>(d, p, n) == get_items::<T>(d, p, m),
    decreases n - m,
{
    if m < n {
        lemma_get_items_fails::<T>(d, p, m, (n - 1) as nat);
    }
}

pub fn read_list<T: Item>(data: &[u8], pos: &mut usize) -> (r: Result<Vec<T>, JdwpError>)
    ensures
        match get_list::<T>(data@, *old(pos) as int) {
            Ok((items, q)) => r matches Ok(v) && views(v@) == items && *final(pos) == q,
            Err(e) => r matches Err(x) && x == e,
        },
{
    let count: u32 = match read_u32(data, pos) {
        Err(e) => {
            return Err(e);
        },
        Ok(n) => n,
    };
    let ghost start = *pos as int;
    let mut v: Vec<T> = Vec::new();
    assert(views(v@) =~= seq![]);
    let mut i: u32 = 0;
    while i < count
        invariant
            i <= count,
            get_items::<T>(data@, start, i as nat) == Ok::<(Seq<T::V>, int), JdwpError>(
                (views(v@), *pos as int),
            ),
            get_list::<T>(data@, *old(pos) as int) == get_items::<T>(data@, start, count as nat),
        decreases count - i,
    {
        let ghost before = v@;
        match T::read(data, pos) {
            Err(e) => {
                proof {
                    lemma_get_items_fails::<T>(data@, start, (i + 1) as nat, count as nat);
                }
                return Err(e);
            },
            Ok(x) => {
                v.push(x);
                proof {
                    assert(views(v@) =~= views(before).push(x@));
                }
            },
        }
        i += 1;
    }
    Ok(v)
}

/// An error says what was to be read and where, or what the JVM refused and why.
pub proof fn law_errors_say_what_is_wrong(at: usize, len: usize, code: u16, set: u8, cmd: u8)
    ensures
        (JdwpError::Underrun { width: Width::U8, at }).text() == "JDWP buffer underrun reading "@
            + "u8"@ + " at "@ + decimal(at as nat),
        (JdwpError::Underrun { width: Width::U16, at }).text() == "JDWP buffer underrun reading "@
            + "u16"@ + " at "@ + decimal(at as nat),
        (JdwpError::Underrun { width: Width::U32, at }).text() == "JDWP buffer underrun reading "@
            + "u32"@ + " at "@ + decimal(at as nat),
        (JdwpError::Underrun { width: Width::U64, at }).text() == "JDWP buffer underrun reading "@
            + "u64"@ + " at "@ + decimal(at as nat),
        (JdwpError::StringUnderrun { len }).text()
            == "JDWP buffer underrun reading string of len "@ + decimal(len as nat),
        (JdwpError::Refused { code, set, cmd }).text() == "JDWP error code "@ + decimal(code as nat)
            + " (cmdSet="@ + decimal(set as nat) + " cmd="@ + decimal(cmd as nat) + ")"@,
        JdwpError::WriteClosed.text() == "JDWP write channel closed"@,
        JdwpError::ReplyDropped.text() == "JDWP reply channel dropped (JVM exited?)"@,
{
}

/// What is cut short is said to be: a number by its width and its place, a text by its length; and
/// bytes that are no text are said not to be.
pub proof fn law_what_is_cut_short_is_an_error(d: Seq<u8>, p: int)
    requires
        0 <= p,
    ensures
        p + 1 > d.len() ==> get_u8(d, p) == Err::<(u8, int), JdwpError>(
            JdwpError::Underrun { width: Width::U8, at: p as usize },
        ),
        p + 2 > d.len() ==> get_u16(d, p) == Err::<(u16, int), JdwpError>(
            JdwpError::Underrun { width: Width::U16, at: p as usize },
        ),
        p + 4 > d.len() ==> get_u32(d, p) == Err::<(u32, int), JdwpError>(
            JdwpError::Underrun { width: Width::U32, at: p as usize },
        ),
        p + 8 > d.len() ==> get_u64(d, p) == Err::<(u64, int), JdwpError>(
            JdwpError::Underrun { width: Width::U64, at: p as usize },
        ),
        p + 4 > d.len() ==> get_string(d, p) == Err::<(Seq<char>, int), JdwpError>(
            JdwpError::Underrun { width: Width::U32, at: p as usize },
        ),
        p + 4 <= d.len() ==> ({
            let len = be_value(d.subrange(p, p + 4));
            let bytes = d.subrange(p + 4, p + 4 + len);
            &&& p + 4 + len > d.len() ==> get_string(d, p) == Err::<(Seq<char>, int), JdwpError>(
                JdwpError::StringUnderrun { len: len as usize },
            )
            &&& p + 4 + len <= d.len() && !valid_utf8(bytes) ==> get_string(d, p) == Err::<
                (Seq<char>, int),
                JdwpError,
            >(JdwpError::NotUtf8(utf8_error(bytes)))
        }),
{
    lemma_be_ranges();
    if p + 4 <= d.len() {
        crate::wire::lemma_be_value_bound(d.subrange(p, p + 4));
    }
}

} // verus!
