//! Messages on the wire: a header with the length of the body, a blank line, and the body.

use vstd::prelude::*;
use vstd::utf8::{decode_utf8, encode_utf8, valid_utf8, is_ascii_chars};
use crate::json::{json_parse, json_print, parse_json, print_json, Json, JsonView, MAX_DEPTH};
use crate::number::{
    decimal, decimal_text, digits, law_decimal_text_reads_back, parse_unsigned, read_unsigned,
};
use crate::text::{
    append, chars_of, has_prefix, is_space, owned, slice_of, starts_with, string_of, trim, trim_end,
    trim_start, trimmed, utf8_text,
};

verus! {

/// Why a message could not be read.
#[derive(Debug, PartialEq, Eq)]
pub enum ReadError {
    /// A header line is not UTF-8.
    NotUtf8,
    /// The length is no number, and why not.
    BadLength(String),
    /// The header does not say how long the body is.
    MissingLength,
    /// The body is not JSON, and why not.
    NotJson(String),
    /// The connection ended.
    Closed,
}

pub enum ReadErrorView {
    NotUtf8,
    BadLength(Seq<char>),
    MissingLength,
    NotJson(Seq<char>),
    Closed,
}

impl View for ReadError {
    type V = ReadErrorView;

    open spec fn view(&self) -> ReadErrorView {
        match *self {
            ReadError::NotUtf8 => ReadErrorView::NotUtf8,
            ReadError::BadLength(why) => ReadErrorView::BadLength(why@),
            ReadError::MissingLength => ReadErrorView::MissingLength,
            ReadError::NotJson(why) => ReadErrorView::NotJson(why@),
            ReadError::Closed => ReadErrorView::Closed,
        }
    }
}

impl ReadErrorView {
    pub open spec fn text(self) -> Seq<char> {
        match self {
            ReadErrorView::NotUtf8 => "stream did not contain valid UTF-8"@,
            ReadErrorView::BadLength(why) => why,
            ReadErrorView::MissingLength => "missing Content-Length header"@,
            ReadErrorView::NotJson(why) => why,
            ReadErrorView::Closed => "connection closed"@,
        }
    }
}

impl ReadError {
    /// The error in words.
    pub fn message(&self) -> (s: String)
        ensures
            s@ == self@.text(),
    {
        match self {
            ReadError::NotUtf8 => owned("stream did not contain valid UTF-8"),
            ReadError::BadLength(why) => why.clone(),
            ReadError::MissingLength => owned("missing Content-Length header"),
            ReadError::NotJson(why) => why.clone(),
            ReadError::Closed => owned("connection closed"),
        }
    }
}

/// What the error of `str::parse` says of a text that is no `usize`, where `max` is the largest.
pub uninterp spec fn length_fault(text: Seq<char>, max: nat) -> Seq<char>;

/// Calls `str::parse::<usize>` for what its error says, which depends on the text and on how large
/// a `usize` can be. Nothing is said of the words, nor of a text that can be parsed.
#[verifier::external_body]
fn parse_fault(text: &str) -> (s: String)
    requires
        parse_unsigned(text@, usize::MAX as nat) is None,
    ensures
        s@ == length_fault(text@, usize::MAX as nat),
{
    match text.parse::<usize>() {
        Ok(_) => String::new(),
        Err(e) => e.to_string(),
    }
}

// ---------------------------------------------------------------------------
// What a stream of bytes holds
// ---------------------------------------------------------------------------

/// The index of the first line feed, or the length where there is none.
pub open spec fn line_end(s: Seq<u8>) -> int
    decreases s.len(),
{
    if s.len() == 0 || s[0] == 10 {
        0
    } else {
        1 + line_end(s.drop_first())
    }
}

pub proof fn lemma_line_end(s: Seq<u8>, n: int)
    requires
        0 <= n <= s.len(),
        n < s.len() ==> s[n] == 10,
        forall|i: int| 0 <= i < n ==> #[trigger] s[i] != 10,
    ensures
        line_end(s) == n,
    decreases s.len(),
{
    if n > 0 {
        assert(s[0] != 10);
        let t = s.drop_first();
        assert forall|i: int| 0 <= i < n - 1 implies #[trigger] t[i] != 10 by {
            assert(t[i] == s[i + 1]);
        }
        if n < s.len() {
            assert(t[n - 1] == s[n]);
        }
        lemma_line_end(t, n - 1);
    }
}

proof fn lemma_line_end_bounds(s: Seq<u8>)
    ensures
        0 <= line_end(s) <= s.len(),
        line_end(s) < s.len() ==> s[line_end(s)] == 10,
        forall|i: int| 0 <= i < line_end(s) ==> #[trigger] s[i] != 10,
    decreases s.len(),
{
    if s.len() == 0 || s[0] == 10 {
    } else {
        let t = s.drop_first();
        lemma_line_end_bounds(t);
        assert forall|i: int| 0 <= i < line_end(s) implies #[trigger] s[i] != 10 by {
            if i > 0 {
                assert(s[i] == t[i - 1]);
            }
        }
    }
}

/// `s` without the carriage returns and line feeds at its end.
pub open spec fn without_line_end(s: Seq<char>) -> Seq<char>
    decreases s.len(),
{
    if s.len() > 0 && (s.last() == '\r' || s.last() == '\n') {
        without_line_end(s.drop_last())
    } else {
        s
    }
}

/// What one header line says.
pub enum HeaderLine {
    /// The header ends here.
    End,
    /// The body has this length.
    Length(nat),
    /// Nothing that matters.
    Other,
    Bad(ReadErrorView),
}

/// What a header line says, given by its bytes without the line feed.
pub open spec fn header_line(bytes: Seq<u8>) -> HeaderLine {
    if !valid_utf8(bytes) {
        HeaderLine::Bad(ReadErrorView::NotUtf8)
    } else {
        let line = without_line_end(decode_utf8(bytes));
        if line.len() == 0 {
            HeaderLine::End
        } else if starts_with(line, "Content-Length: "@) {
            match parse_unsigned(trim(line.skip(16)), usize::MAX as nat) {
                None => HeaderLine::Bad(
                    ReadErrorView::BadLength(
                        length_fault(trim(line.skip(16)), usize::MAX as nat),
                    ),
                ),
                Some(n) => HeaderLine::Length(n),
            }
        } else {
            HeaderLine::Other
        }
    }
}

/// What stands at the start of a stream.
pub enum Frame {
    /// Not enough to tell.
    Incomplete,
    /// A header that is no good: why, and what follows the line that shows it.
    Bad(ReadErrorView, Seq<u8>),
    /// A whole message: its body, and what follows it.
    Complete(Seq<u8>, Seq<u8>),
}

/// What a stream holds behind the header lines that gave the length `length`.
pub open spec fn frame_from(s: Seq<u8>, length: Option<nat>) -> Frame
    decreases s.len(),
    via frame_from_decreases
{
    let n = line_end(s);
    if n >= s.len() {
        Frame::Incomplete
    } else {
        match header_line(s.take(n)) {
            HeaderLine::Bad(e) => Frame::Bad(e, s.skip(n + 1)),
            HeaderLine::Length(k) => frame_from(s.skip(n + 1), Some(k)),
            HeaderLine::Other => frame_from(s.skip(n + 1), length),
            HeaderLine::End => match length {
                None => Frame::Bad(ReadErrorView::MissingLength, s.skip(n + 1)),
                Some(k) => if s.len() - (n + 1) < k {
                    Frame::Incomplete
                } else {
                    Frame::Complete(
                        s.skip(n + 1).take(k as int),
                        s.skip(n + 1 + k as int),
                    )
                },
            },
        }
    }
}

#[via_fn]
proof fn frame_from_decreases(s: Seq<u8>, length: Option<nat>) {
    lemma_line_end_bounds(s);
}

pub open spec fn frame(s: Seq<u8>) -> Frame {
    frame_from(s, None)
}

/// What reading one message from a stream gives: nothing yet, or a message or an error; and
/// what is left of the stream. What shows an error is not read again.
pub open spec fn read_of(s: Seq<u8>) -> (Option<Result<JsonView, ReadErrorView>>, Seq<u8>) {
    match frame(s) {
        Frame::Incomplete => (None, s),
        Frame::Bad(e, rest) => (Some(Err(e)), rest),
        Frame::Complete(body, rest) => match json_parse(body) {
            Err(why) => (Some(Err(ReadErrorView::NotJson(why))), rest),
            Ok(v) => (Some(Ok(v)), rest),
        },
    }
}

/// Whenever a message or an error is read, less of the stream is left, so that the same bytes are
/// never read again.
pub proof fn law_reading_goes_on(s: Seq<u8>)
    ensures
        read_of(s).0 is Some ==> read_of(s).1.len() < s.len(),
{
    lemma_frame_shortens(s, None);
}

proof fn lemma_frame_shortens(s: Seq<u8>, length: Option<nat>)
    ensures
        match frame_from(s, length) {
            Frame::Incomplete => true,
            Frame::Bad(_, rest) => rest.len() < s.len(),
            Frame::Complete(_, rest) => rest.len() < s.len(),
        },
    decreases s.len(),
{
    lemma_line_end_bounds(s);
    let n = line_end(s);
    if n < s.len() {
        match header_line(s.take(n)) {
            HeaderLine::Length(k) => lemma_frame_shortens(s.skip(n + 1), Some(k)),
            HeaderLine::Other => lemma_frame_shortens(s.skip(n + 1), length),
            _ => {},
        }
    }
}

/// How a body goes onto the wire.
pub open spec fn framed(body: Seq<u8>) -> Seq<u8> {
    encode_utf8("Content-Length: "@ + decimal(body.len()) + "\r\n\r\n"@) + body
}

// ---------------------------------------------------------------------------
// Reading and writing
// ---------------------------------------------------------------------------

/// Reads messages from the bytes that have come in and have not been read yet.
pub struct DapReader<R> {
    pub inner: R,
}

/// Writes messages.
pub struct DapWriter<W> {
    pub inner: W,
}

impl<R> DapReader<R> {
    pub fn new(reader: R) -> (r: DapReader<R>)
        ensures
            r.inner == reader,
    {
        DapReader { inner: reader }
    }
}

impl<W> DapWriter<W> {
    pub fn new(writer: W) -> (w: DapWriter<W>)
        ensures
            w.inner == writer,
    {
        DapWriter { inner: writer }
    }
}

enum Line {
    End,
    Length(usize),
    Other,
    Bad(ReadError),
}

spec fn line_is(l: Line, h: HeaderLine) -> bool {
    match l {
        Line::End => h is End,
        Line::Length(n) => h == HeaderLine::Length(n as nat),
        Line::Other => h is Other,
        Line::Bad(e) => h == HeaderLine::Bad(e@),
    }
}

fn read_line(bytes: &[u8]) -> (l: Line)
    ensures
        line_is(l, header_line(bytes@)),
{
    let text = match utf8_text(bytes) {
        Err(_) => {
            return Line::Bad(ReadError::NotUtf8);
        },
        Ok(s) => s,
    };
    let chars = chars_of(text.as_str());
    let mut n: usize = chars.len();
    assert(chars@.take(n as int) =~= chars@);
    while n > 0 && (chars[n - 1] == '\r' || chars[n - 1] == '\n')
        invariant
            n <= chars@.len(),
            without_line_end(chars@.take(n as int)) == without_line_end(chars@),
        decreases n,
    {
        assert(chars@.take(n as int).last() == chars@[n - 1]);
        assert(chars@.take(n as int).drop_last() =~= chars@.take(n - 1));
        n -= 1;
    }
    proof {
        if n > 0 {
            assert(chars@.take(n as int).last() == chars@[n - 1]);
        }
        reveal_strlit("Content-Length: ");
    }
    let line = slice_of(chars.as_slice(), 0, n);
    assert(line@ =~= chars@.take(n as int));
    if line.len() == 0 {
        return Line::End;
    }
    if has_prefix(line.as_slice(), "Content-Length: ") {
        let value = slice_of(line.as_slice(), 16, line.len());
        assert(value@ =~= line@.skip(16));
        let value = trimmed(value.as_slice());
        match read_unsigned(value.as_slice(), usize::MAX as u64) {
            None => Line::Bad(
                ReadError::BadLength(parse_fault(string_of(value.as_slice()).as_str())),
            ),
            Some(k) => Line::Length(k as usize),
        }
    } else {
        Line::Other
    }
}

enum Cut {
    Incomplete,
    Bad(ReadError, usize),
    Complete(usize, usize),
}

/// Finds where the first message of a stream stands.
fn find_frame(s: &[u8]) -> (c: Cut)
    ensures
        match c {
            Cut::Incomplete => frame(s@) is Incomplete,
            Cut::Bad(e, to) => to <= s@.len() && frame(s@) == Frame::Bad(e@, s@.skip(to as int)),
            Cut::Complete(from, to) => from <= to <= s@.len() && frame(s@) == Frame::Complete(
                s@.subrange(from as int, to as int),
                s@.skip(to as int),
            ),
        },
{
    let mut length: Option<usize> = None;
    let mut from: usize = 0;
    assert(s@.skip(0) =~= s@);
    loop
        invariant
            from <= s@.len(),
            frame(s@) == frame_from(
                s@.skip(from as int),
                match length {
                    None => None,
                    Some(k) => Some(k as nat),
                },
            ),
        decreases s@.len() - from,
    {
        let ghost rest = s@.skip(from as int);
        let mut n: usize = from;
        while n < s.len() && s[n] != 10
            invariant
                from <= n <= s@.len(),
                rest == s@.skip(from as int),
                forall|i: int| 0 <= i < n - from ==> #[trigger] rest[i] != 10,
            decreases s@.len() - n,
        {
            assert(rest[n - from] == s@[n as int]);
            n += 1;
        }
        proof {
            if n < s@.len() {
                assert(rest[n - from] == s@[n as int]);
            }
            lemma_line_end(rest, n - from);
        }
        if n >= s.len() {
            return Cut::Incomplete;
        }
        assert(s@.subrange(from as int, n as int) =~= rest.take(n - from));
        assert(rest.skip(n - from + 1) =~= s@.skip(n + 1));
        match read_line(&s[from..n]) {
            Line::Bad(e) => {
                return Cut::Bad(e, n + 1);
            },
            Line::Length(k) => {
                length = Some(k);
            },
            Line::Other => {},
            Line::End => {
                return match length {
                    None => Cut::Bad(ReadError::MissingLength, n + 1),
                    Some(k) => if s.len() - (n + 1) < k {
                        Cut::Incomplete
                    } else {
                        proof {
                            assert(rest.skip(n - from + 1).take(k as int) =~= s@.subrange(
                                n + 1,
                                n + 1 + k,
                            ));
                            assert(rest.skip(n - from + 1 + k) =~= s@.skip(n + 1 + k));
                        }
                        Cut::Complete(n + 1, n + 1 + k)
                    },
                };
            },
        }
        from = n + 1;
    }
}

impl DapReader<Vec<u8>> {
    /// Takes in bytes that have come.
    pub fn feed(&mut self, bytes: &[u8])
        ensures
            final(self).inner@ == old(self).inner@ + bytes@,
    {
        self.inner.extend_from_slice(bytes);
        assert(self.inner@ =~= old(self).inner@ + bytes@);
    }

    /// Reads the next message; none where more bytes are needed for it.
    pub fn read_message(&mut self) -> (r: Option<Result<Json, ReadError>>)
        ensures
            final(self).inner@ == read_of(old(self).inner@).1,
            match read_of(old(self).inner@).0 {
                None => r is None,
                Some(Err(e)) => r matches Some(Err(x)) && x@ == e,
                Some(Ok(v)) => r matches Some(Ok(j)) && j@ == v,
            },
    {
        match find_frame(self.inner.as_slice()) {
            Cut::Incomplete => None,
            Cut::Bad(e, to) => {
                let rest = self.inner.split_off(to);
                self.inner = rest;
                assert(self.inner@ =~= old(self).inner@.skip(to as int));
                Some(Err(e))
            },
            Cut::Complete(from, to) => {
                let message = parse_json(&self.inner.as_slice()[from..to]);
                let rest = self.inner.split_off(to);
                self.inner = rest;
                assert(self.inner@ =~= old(self).inner@.skip(to as int));
                match message {
                    Err(why) => Some(Err(ReadError::NotJson(why))),
                    Ok(j) => Some(Ok(j)),
                }
            },
        }
    }
}

impl DapWriter<Vec<u8>> {
    /// Appends a message. What is appended reads back as the message, whatever follows it,
    /// unless the message holds a number that is not whole, or is nested too deep.
    pub fn send(&mut self, msg: &Json)
        ensures
            final(self).inner@ == old(self).inner@ + framed(encode_utf8(json_print(msg@))),
            msg@.is_plain(MAX_DEPTH as nat) ==> forall|rest: Seq<u8>| #[trigger]
                read_of(framed(encode_utf8(json_print(msg@))) + rest) == (
                    Some(Ok::<JsonView, ReadErrorView>(msg@)),
                    rest,
                ),
    {
        let body = print_json(msg);
        let bytes = body.as_str().as_bytes();
        let mut header = String::new();
        append(&mut header, "Content-Length: ");
        append(&mut header, decimal_text(bytes.len() as u64).as_str());
        append(&mut header, "\r\n\r\n");
        self.inner.extend_from_slice(header.as_str().as_bytes());
        self.inner.extend_from_slice(bytes);
        proof {
            let b = encode_utf8(json_print(msg@));
            assert(header@ =~= "Content-Length: "@ + decimal(b.len()) + "\r\n\r\n"@);
            assert(self.inner@ =~= old(self).inner@ + framed(b));
            if msg@.is_plain(MAX_DEPTH as nat) {
                assert forall|rest: Seq<u8>| #[trigger] read_of(framed(b) + rest) == (
                    Some(Ok::<JsonView, ReadErrorView>(msg@)),
                    rest,
                ) by {
                    law_frame_reads_back(b, rest);
                }
            }
        }
    }
}

// ---------------------------------------------------------------------------
// What is written reads back
// ---------------------------------------------------------------------------

proof fn lemma_digits_ascii(n: nat)
    ensures
        digits(n, 10).len() > 0,
        forall|i: int|
            0 <= i < digits(n, 10).len() ==> '0' <= #[trigger] digits(n, 10)[i] <= '9',
    decreases n,
{
    if n >= 10 {
        lemma_digits_ascii(n / 10);
        let head = digits(n / 10, 10);
        assert forall|i: int| 0 <= i < digits(n, 10).len() implies '0' <= #[trigger] digits(n, 10)[i]
            <= '9' by {
            if i < head.len() {
                assert(digits(n, 10)[i] == head[i]);
            }
        }
    }
}

/// The bytes of ASCII text are its characters.
proof fn lemma_ascii_bytes(s: Seq<char>)
    requires
        is_ascii_chars(s),
    ensures
        encode_utf8(s).len() == s.len(),
        forall|i: int| 0 <= i < s.len() ==> (#[trigger] encode_utf8(s)[i]) == s[i] as u8,
        valid_utf8(encode_utf8(s)),
        decode_utf8(encode_utf8(s)) == s,
{
    vstd::utf8::is_ascii_chars_encode_utf8(s);
    vstd::utf8::encode_utf8_valid_utf8(s);
    vstd::utf8::encode_utf8_decode_utf8(s);
}

/// Reading what a body's frame starts with, whatever follows it, gives the body and what
/// follows.
pub proof fn law_frame_reads_back(body: Seq<u8>, rest: Seq<u8>)
    requires
        body.len() <= usize::MAX,
    ensures
        frame(framed(body) + rest) == Frame::Complete(body, rest),
{
    let d = decimal(body.len());
    let first = "Content-Length: "@ + d + seq!['\r'];
    let head = "Content-Length: "@ + d + "\r\n\r\n"@;
    let s = framed(body) + rest;
    reveal_strlit("Content-Length: ");
    reveal_strlit("\r\n\r\n");
    lemma_digits_ascii(body.len());
    lemma_ascii_bytes(first);
    lemma_ascii_bytes(head);
    lemma_ascii_bytes(seq!['\r']);
    let n = first.len() as int;
    let h = encode_utf8(head);
    assert(h.len() == n + 3);
    assert forall|i: int| 0 <= i < n implies #[trigger] s[i] == h[i] && h[i] == encode_utf8(first)[i]
        && s[i] != 10 by {
        assert(head[i] == first[i]);
    }
    assert(s[n] == 10) by {
        assert(s[n] == h[n]);
        assert(head[n] == '\n');
    }
    lemma_line_end(s, n);
    assert(s.take(n) =~= encode_utf8(first));
    // The first line gives the length.
    let line = without_line_end(first);
    assert(line =~= "Content-Length: "@ + d) by {
        reveal_with_fuel(without_line_end, 3);
        assert(first.drop_last() =~= "Content-Length: "@ + d);
        assert(d.last() == digits(body.len(), 10)[d.len() - 1]);
    }
    assert(line.skip(16) =~= d);
    assert(starts_with(line, "Content-Length: "@)) by {
        assert(line.subrange(0, 16) =~= "Content-Length: "@);
    }
    assert(trim(d) == d) by {
        assert(!is_space(d[0]));
        assert(!is_space(d[d.len() - 1]));
        assert(trim_start(d) == d);
        assert(trim_end(d) == d);
    }
    law_decimal_text_reads_back(body.len(), usize::MAX as nat);
    assert(header_line(s.take(n)) == HeaderLine::Length(body.len()));
    // The second line is blank.
    let t = s.skip(n + 1);
    assert(t[0] == 13) by {
        assert(t[0] == h[n + 1]);
        assert(head[n + 1] == '\r');
    }
    assert(t[1] == 10) by {
        assert(t[1] == h[n + 2]);
        assert(head[n + 2] == '\n');
    }
    lemma_line_end(t, 1);
    assert(t.take(1) =~= encode_utf8(seq!['\r']));
    assert(without_line_end(seq!['\r']) =~= seq![]) by {
        reveal_with_fuel(without_line_end, 2);
    }
    assert(header_line(t.take(1)) is End);
    // The body and the rest follow.
    assert(t.skip(2).take(body.len() as int) =~= body);
    assert(t.skip(2 + body.len() as int) =~= rest);
    assert(frame_from(t, Some(body.len())) == Frame::Complete(body, rest));
}

/// The stream that the frames of several bodies make.
pub open spec fn framed_all(bodies: Seq<Seq<u8>>) -> Seq<u8>
    decreases bodies.len(),
{
    if bodies.len() == 0 {
        seq![]
    } else {
        framed(bodies[0]) + framed_all(bodies.drop_first())
    }
}

/// The bodies of the whole messages that a stream starts with, at most `n` of them.
pub open spec fn bodies_of(s: Seq<u8>, n: nat) -> Seq<Seq<u8>>
    decreases n,
{
    if n == 0 {
        seq![]
    } else {
        match frame(s) {
            Frame::Complete(body, rest) => seq![body] + bodies_of(rest, (n - 1) as nat),
            _ => seq![],
        }
    }
}

/// Messages that are written one after the other are read one after the other.
pub proof fn law_messages_read_back_in_order(bodies: Seq<Seq<u8>>)
    requires
        forall|i: int| 0 <= i < bodies.len() ==> (#[trigger] bodies[i]).len() <= usize::MAX,
    ensures
        bodies_of(framed_all(bodies), bodies.len()) == bodies,
    decreases bodies.len(),
{
    if bodies.len() > 0 {
        let more = bodies.drop_first();
        assert forall|i: int| 0 <= i < more.len() implies (#[trigger] more[i]).len() <= usize::MAX by {
            assert(more[i] == bodies[i + 1]);
        }
        law_messages_read_back_in_order(more);
        law_frame_reads_back(bodies[0], framed_all(more));
        assert(seq![bodies[0]] + more =~= bodies);
    }
}

/// A message goes onto the wire behind one header, which gives its length in bytes, and a blank
/// line.
pub proof fn law_messages_are_written_behind_their_length(body: Seq<u8>)
    ensures
        framed(body) == encode_utf8(
            seq![
                'C', 'o', 'n', 't', 'e', 'n', 't', '-', 'L', 'e', 'n', 'g', 't', 'h', ':', ' ',
            ] + digits(body.len(), 10) + seq!['\r', '\n', '\r', '\n'],
        ) + body,
{
    reveal_strlit("Content-Length: ");
    reveal_strlit("\r\n\r\n");
    assert("Content-Length: "@ =~= seq![
        'C', 'o', 'n', 't', 'e', 'n', 't', '-', 'L', 'e', 'n', 'g', 't', 'h', ':', ' ',
    ]);
    assert("\r\n\r\n"@ =~= seq!['\r', '\n', '\r', '\n']);
}

/// Any other header is passed over; a header that has no length is bad where it ends; and so is one
/// that is not text. What has no line feed is not enough to tell.
pub proof fn law_other_headers_are_passed_over(
    header: Seq<char>,
    rest: Seq<u8>,
    length: Option<nat>,
)
    requires
        is_ascii_chars(header),
        header.len() > 0,
        header.last() != '\r',
        !header.contains('\n'),
        !(header.len() >= 16 && header.take(16) == seq![
            'C', 'o', 'n', 't', 'e', 'n', 't', '-', 'L', 'e', 'n', 'g', 't', 'h', ':', ' ',
        ]),
    ensures
        frame_from(encode_utf8(header) + seq![13u8, 10u8] + rest, length) == frame_from(
            rest,
            length,
        ),
        frame(seq![13u8, 10u8] + rest) == Frame::Bad(ReadErrorView::MissingLength, rest),
        (forall|i: int| 0 <= i < rest.len() ==> #[trigger] rest[i] != 10) ==> frame_from(
            rest,
            length,
        ) is Incomplete,
{
    reveal_strlit("Content-Length: ");
    assert("Content-Length: "@ =~= seq![
        'C', 'o', 'n', 't', 'e', 'n', 't', '-', 'L', 'e', 'n', 'g', 't', 'h', ':', ' ',
    ]);
    let line = header.push('\r');
    lemma_ascii_bytes(header);
    lemma_ascii_bytes(line);
    lemma_ascii_bytes(seq!['\r']);
    let s = encode_utf8(header) + seq![13u8, 10u8] + rest;
    let n = header.len() as int + 1;
    assert forall|i: int| 0 <= i < n implies #[trigger] s[i] == encode_utf8(line)[i] && s[i]
        != 10 by {
        if i < header.len() {
            assert(encode_utf8(header)[i] == header[i] as u8);
            assert(line[i] == header[i]);
            assert(header.contains(header[i]));
        }
    }
    assert(s[n] == 10);
    lemma_line_end(s, n);
    assert(s.take(n) =~= encode_utf8(line));
    assert(without_line_end(line) == header) by {
        reveal_with_fuel(without_line_end, 3);
        assert(line.drop_last() =~= header);
        assert(header.contains(header.last()));
    }
    if header.len() >= 16 {
        assert(header.subrange(0, 16) =~= header.take(16));
    }
    assert(header_line(s.take(n)) is Other);
    assert(s.skip(n + 1) =~= rest);
    let t = seq![13u8, 10u8] + rest;
    lemma_line_end(t, 1);
    assert(t.take(1) =~= encode_utf8(seq!['\r']));
    assert(without_line_end(seq!['\r']) =~= seq![]) by {
        reveal_with_fuel(without_line_end, 2);
    }
    assert(header_line(t.take(1)) is End);
    assert(t.skip(2) =~= rest);
    if forall|i: int| 0 <= i < rest.len() ==> #[trigger] rest[i] != 10 {
        lemma_line_end(rest, rest.len() as int);
    }
}

/// A header whose length is no number is bad, and says what is wrong with it; and a message whose
/// body is not there yet is not enough to tell.
pub proof fn law_bad_lengths_are_bad(text: Seq<char>, rest: Seq<u8>, length: nat)
    requires
        is_ascii_chars(text),
        text.len() > 0,
        !is_space(text[0]),
        !is_space(text.last()),
        !text.contains('\n'),
    ensures
        parse_unsigned(text, usize::MAX as nat) is None ==> frame(
            encode_utf8("Content-Length: "@ + text) + seq![13u8, 10u8] + rest,
        ) == Frame::Bad(
            ReadErrorView::BadLength(length_fault(text, usize::MAX as nat)),
            rest,
        ),
        rest.len() < length ==> frame_from(seq![13u8, 10u8] + rest, Some(length)) is Incomplete,
        rest.len() >= length ==> frame_from(seq![13u8, 10u8] + rest, Some(length))
            == Frame::Complete(rest.take(length as int), rest.skip(length as int)),
{
    reveal_strlit("Content-Length: ");
    let header = "Content-Length: "@ + text;
    let line = header.push('\r');
    lemma_ascii_bytes(header);
    lemma_ascii_bytes(line);
    lemma_ascii_bytes(seq!['\r']);
    let s = encode_utf8(header) + seq![13u8, 10u8] + rest;
    let n = header.len() as int + 1;
    assert forall|i: int| 0 <= i < n implies #[trigger] s[i] == encode_utf8(line)[i] && s[i]
        != 10 by {
        if i < header.len() {
            assert(encode_utf8(header)[i] == header[i] as u8);
            assert(line[i] == header[i]);
            if i >= 16 {
                assert(header[i] == text[i - 16]);
                assert(text.contains(text[i - 16]));
            }
        }
    }
    assert(s[n] == 10);
    lemma_line_end(s, n);
    assert(s.take(n) =~= encode_utf8(line));
    assert(without_line_end(line) == header) by {
        reveal_with_fuel(without_line_end, 3);
        assert(line.drop_last() =~= header);
        assert(header.last() == text.last());
    }
    assert(header.skip(16) =~= text);
    assert(header.subrange(0, 16) =~= "Content-Length: "@);
    assert(trim_start(text) == text);
    assert(trim_end(text) == text);
    assert(s.skip(n + 1) =~= rest);
    let t = seq![13u8, 10u8] + rest;
    lemma_line_end(t, 1);
    assert(t.take(1) =~= encode_utf8(seq!['\r']));
    assert(without_line_end(seq!['\r']) =~= seq![]) by {
        reveal_with_fuel(without_line_end, 2);
    }
    assert(header_line(t.take(1)) is End);
    assert(t.skip(2) =~= rest);
    if rest.len() >= length {
        assert(t.skip(2 + length as int) =~= rest.skip(length as int));
    }
}

/// What is read is the JSON value of the body, or why it is none; and what follows is left.
pub proof fn law_bodies_are_read_as_json(body: Seq<u8>, rest: Seq<u8>)
    requires
        body.len() <= usize::MAX,
    ensures
        read_of(framed(body) + rest) == (
            Some(
                match json_parse(body) {
                    Ok(v) => Ok::<JsonView, ReadErrorView>(v),
                    Err(why) => Err(ReadErrorView::NotJson(why)),
                },
            ),
            rest,
        ),
{
    law_frame_reads_back(body, rest);
}

/// An error says what is wrong with what came.
pub proof fn law_reading_errors_say_what_is_wrong(why: Seq<char>)
    ensures
        ReadErrorView::NotUtf8.text() == "stream did not contain valid UTF-8"@,
        ReadErrorView::BadLength(why).text() == why,
        ReadErrorView::MissingLength.text() == "missing Content-Length header"@,
        ReadErrorView::NotJson(why).text() == why,
        ReadErrorView::Closed.text() == "connection closed"@,
{
}

/// A header gives the length that its value stands for, without the white space around it.
pub proof fn law_white_space_around_a_length_does_not_matter(value: Seq<char>)
    requires
        is_ascii_chars(value),
        value.len() > 0 ==> value.last() != '\r' && value.last() != '\n',
    ensures
        ({
            let line = header_line(encode_utf8("Content-Length: "@ + value));
            match parse_unsigned(trim(value), usize::MAX as nat) {
                Some(n) => line == HeaderLine::Length(n),
                None => line == HeaderLine::Bad(
                    ReadErrorView::BadLength(length_fault(trim(value), usize::MAX as nat)),
                ),
            }
        }),
{
    reveal_strlit("Content-Length: ");
    let line = "Content-Length: "@ + value;
    lemma_ascii_bytes(line);
    if value.len() > 0 {
        assert(line.last() == value.last());
    } else {
        assert(line.last() == ' ');
    }
    assert(without_line_end(line) == line);
    assert(line.skip(16) =~= value);
    assert(line.subrange(0, 16) =~= "Content-Length: "@);
}

} // verus!
