//! Directories and files as they were found on disk.

use vstd::prelude::*;
use vstd::utf8::{
    decode_utf8, encode_utf8, encode_utf8_decode_utf8, encode_utf8_valid_utf8, valid_utf8,
};
use crate::text::{owned, utf8_text};

verus! {

/// A file or a directory, under the name it has where it stands. What is no directory is a file.
pub enum Entry {
    /// The bytes, or why the file could not be read.
    File { name: String, bytes: Result<Vec<u8>, String> },
    Dir { name: String, entries: Vec<Entry> },
}

/// A directory at a path, and what is in it. One that could not be read holds nothing.
pub struct Tree {
    pub path: String,
    pub entries: Vec<Entry>,
}

/// The text of a file, or why it cannot be had: it could not be read, or is not UTF-8.
pub open spec fn text_of(bytes: Result<Vec<u8>, String>) -> Result<Seq<char>, Seq<char>> {
    match bytes {
        Ok(b) => if valid_utf8(b@) {
            Ok(decode_utf8(b@))
        } else {
            Err("stream did not contain valid UTF-8"@)
        },
        Err(why) => Err(why@),
    }
}

pub fn file_text(bytes: &Result<Vec<u8>, String>) -> (r: Result<String, String>)
    ensures
        match text_of(*bytes) {
            Err(why) => r matches Err(e) && e@ == why,
            Ok(t) => r matches Ok(s) && s@ == t,
        },
{
    match bytes {
        Ok(b) => match utf8_text(b.as_slice()) {
            Ok(text) => Ok(text),
            Err(_) => Err(owned("stream did not contain valid UTF-8")),
        },
        Err(why) => Err(why.clone()),
    }
}

/// A file's text is the one whose UTF-8 its bytes are. What is not UTF-8 is no text, and what
/// could not be read has none either; it is said why.
pub proof fn law_files_are_read_as_utf8(bytes: Result<Vec<u8>, String>, text: Seq<char>)
    ensures
        bytes is Ok && bytes->Ok_0@ == encode_utf8(text) ==> text_of(bytes) == Ok::<
            Seq<char>,
            Seq<char>,
        >(text),
        bytes is Ok && !valid_utf8(bytes->Ok_0@) ==> text_of(bytes) == Err::<Seq<char>, Seq<char>>(
            "stream did not contain valid UTF-8"@,
        ),
        bytes is Err ==> text_of(bytes) == Err::<Seq<char>, Seq<char>>(bytes->Err_0@),
{
    encode_utf8_valid_utf8(text);
    encode_utf8_decode_utf8(text);
}

} // verus!
