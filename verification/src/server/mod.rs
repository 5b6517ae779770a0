//! The debug server.

use vstd::prelude::*;
use vstd::utf8::encode_utf8;
use crate::jdwp::read::JdwpError;
use crate::jdwp::value::{TAG_ARRAY, TAG_OBJECT};
use crate::text::{chars_of, slice_of, string_of};

pub mod backend;
pub mod breakpoint_laws;
pub mod breakpoints;
pub mod event_laws;
pub mod events;
pub mod frame_reader;
pub mod gather;
pub mod installer;
pub mod launch;
pub mod laws;
pub mod lines;
pub mod messages;
pub mod request_laws;
pub mod session;
pub mod snapshot;
pub mod snapshot_builder;
pub mod snapshot_laws;

verus! {

/// What came back for a command: its payload, or an error.
pub type Reply = Result<Vec<u8>, JdwpError>;

pub open spec fn reply_view(r: Reply) -> Result<Seq<u8>, JdwpError> {
    match r {
        Ok(d) => Ok(d@),
        Err(e) => Err(e),
    }
}

/// The binary name of a class by its signature: without the `L` before it and the `;` behind.
pub open spec fn binary_name(signature: Seq<char>) -> Seq<char> {
    let s = if signature.len() > 0 && signature[0] == 'L' {
        signature.skip(1)
    } else {
        signature
    };
    if s.len() > 0 && s.last() == ';' {
        s.drop_last()
    } else {
        s
    }
}

pub fn signature_to_binary_name(signature: &str) -> (s: String)
    ensures
        s@ == binary_name(signature@),
{
    let chars = chars_of(signature);
    let from: usize = if chars.len() > 0 && chars[0] == 'L' {
        1
    } else {
        0
    };
    let to: usize = if chars.len() > from && chars[chars.len() - 1] == ';' {
        chars.len() - 1
    } else {
        chars.len()
    };
    let name = slice_of(chars.as_slice(), from, to);
    proof {
        let s = if from == 1 {
            signature@.skip(1)
        } else {
            signature@
        };
        if s.len() > 0 {
            assert(s.last() == signature@.last());
        }
        assert(name@ =~= binary_name(signature@));
    }
    string_of(name.as_slice())
}

/// The tag by which a variable of the given signature is asked for: its first letter, and the
/// same for all objects and arrays.
pub open spec fn signature_tag(signature: Seq<char>) -> u8 {
    let bytes = encode_utf8(signature);
    if bytes.len() == 0 || bytes[0] == TAG_ARRAY {
        TAG_OBJECT
    } else {
        bytes[0]
    }
}

pub fn tag_for_signature(signature: &str) -> (t: u8)
    ensures
        t == signature_tag(signature@),
{
    let bytes = signature.as_bytes();
    if bytes.len() == 0 || bytes[0] == TAG_ARRAY {
        TAG_OBJECT
    } else {
        bytes[0]
    }
}

/// A variable is asked for by the first letter of its signature; an array, and what has no
/// signature, as an object.
pub proof fn law_variables_are_asked_for_by_their_first_letters(c: char, rest: Seq<char>)
    requires
        c < '\u{80}',
    ensures
        c != '[' ==> signature_tag(seq![c] + rest) == c as u8,
        signature_tag(seq!['['] + rest) == 'L' as u8,
        signature_tag(Seq::empty()) == 'L' as u8,
{
    lemma_first_byte(c, rest);
    lemma_first_byte('[', rest);
}

proof fn lemma_first_byte(c: char, rest: Seq<char>)
    requires
        c < '\u{80}',
    ensures
        encode_utf8(seq![c] + rest).len() > 0,
        encode_utf8(seq![c] + rest)[0] == c as u8,
{
    let s = seq![c] + rest;
    assert(s[0] == c);
    assert(s.drop_first() =~= rest);
    vstd::utf8::is_ascii_chars_encode_utf8(seq![c]);
    assert(vstd::utf8::is_ascii_chars(seq![c]));
    assert(encode_utf8(seq![c])[0] == c as u8);
    assert(seq![c].drop_first() =~= seq![]);
    reveal_with_fuel(encode_utf8, 2);
    assert(encode_utf8(seq![c]) =~= vstd::utf8::encode_scalar(c as u32));
}

} // verus!
