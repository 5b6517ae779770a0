//! Compiled class files, read as far as it takes to learn which class a file holds and which
//! source file it was compiled from.

use std::collections::HashMap;

use vstd::prelude::*;
use crate::text::{lossy_text, same_text, utf8_lossy};
use crate::wire::{
    be_bytes, be_value, law_be_bytes_read_back, lemma_be_bytes_len, lemma_be_ranges, take_be,
};

verus! {

broadcast use vstd::std_specs::hash::group_hash_axioms;

/// Why a file is not taken for a class file.
#[derive(Debug, Clone, Copy, PartialEq, Eq, Structural)]
pub enum ClassError {
    /// The file ends too early.
    Underrun,
    /// The file does not start as a class file does.
    NotAClassFile,
    /// The file ends inside the text of a constant.
    TruncatedUtf8,
    /// A constant of an unknown kind.
    UnknownTag(u8),
    /// The class that the file claims to hold is not among its constants.
    NoThisClass,
    /// The name of the class is not among the constants.
    NoClassName,
    /// An attribute is longer than the file.
    AttributeOverflow,
}

/// What is left of `s` behind its first `n` bytes.
pub open spec fn behind(s: Seq<u8>, n: nat) -> Seq<u8> {
    if n >= s.len() {
        seq![]
    } else {
        s.subrange(n as int, s.len() as int)
    }
}

/// The number in the first `width` bytes, and what is behind them.
pub open spec fn number_at(s: Seq<u8>, width: nat) -> Result<(nat, Seq<u8>), ClassError> {
    if s.len() < width {
        Err(ClassError::Underrun)
    } else {
        Ok((be_value(s.subrange(0, width as int)), behind(s, width)))
    }
}

/// The constants that matter here: texts, and for each class the index of its name.
pub struct Pool {
    pub texts: Map<usize, Seq<char>>,
    pub classes: Map<usize, usize>,
}

/// How long a constant is whose content does not matter; none where it matters, or where the
/// kind is unknown.
pub open spec fn skipped_constant(tag: nat) -> Option<nat> {
    if tag == 3 || tag == 4 {
        Some(4)
    } else if tag == 5 || tag == 6 {
        Some(8)
    } else if tag == 8 || tag == 16 || tag == 19 || tag == 20 {
        Some(2)
    } else if tag == 9 || tag == 10 || tag == 11 || tag == 12 || tag == 17 || tag == 18 {
        Some(4)
    } else if tag == 15 {
        Some(3)
    } else {
        None
    }
}

/// Reads the constants from index `idx` up to `count`, on top of those in `pool`. A long or
/// double constant takes two indices.
pub open spec fn pool_from(s: Seq<u8>, idx: nat, count: nat, pool: Pool) -> Result<
    (Pool, Seq<u8>),
    ClassError,
>
    decreases count + 2 - idx,
{
    if idx >= count {
        Ok((pool, s))
    } else {
        match number_at(s, 1) {
            Err(e) => Err(e),
            Ok((tag, s)) => if tag == 1 {
                match number_at(s, 2) {
                    Err(e) => Err(e),
                    Ok((len, s)) => if len > s.len() {
                        Err(ClassError::TruncatedUtf8)
                    } else {
                        let text = utf8_lossy(s.subrange(0, len as int));
                        let pool = Pool { texts: pool.texts.insert(idx as usize, text), ..pool };
                        pool_from(behind(s, len), idx + 1, count, pool)
                    },
                }
            } else if tag == 7 {
                match number_at(s, 2) {
                    Err(e) => Err(e),
                    Ok((name, s)) => {
                        let pool = Pool {
                            classes: pool.classes.insert(idx as usize, name as usize),
                            ..pool
                        };
                        pool_from(s, idx + 1, count, pool)
                    },
                }
            } else {
                match skipped_constant(tag) {
                    None => Err(ClassError::UnknownTag(tag as u8)),
                    Some(n) => pool_from(
                        behind(s, n),
                        if tag == 5 || tag == 6 {
                            idx + 2
                        } else {
                            idx + 1
                        },
                        count,
                        pool,
                    ),
                }
            },
        }
    }
}

/// What is behind `n` attributes: a name, a length and as many bytes each.
pub open spec fn behind_attributes(s: Seq<u8>, n: nat) -> Result<Seq<u8>, ClassError>
    decreases n,
{
    if n == 0 {
        Ok(s)
    } else {
        match number_at(behind(s, 2), 4) {
            Err(e) => Err(e),
            Ok((len, s)) => if len > s.len() {
                Err(ClassError::AttributeOverflow)
            } else {
                behind_attributes(behind(s, len), (n - 1) as nat)
            },
        }
    }
}

/// What is behind a counted list of attributes.
pub open spec fn behind_attribute_list(s: Seq<u8>) -> Result<Seq<u8>, ClassError> {
    match number_at(s, 2) {
        Err(e) => Err(e),
        Ok((n, s)) => behind_attributes(s, n),
    }
}

/// What is behind `n` fields or methods: three numbers and a list of attributes each.
pub open spec fn behind_members(s: Seq<u8>, n: nat) -> Result<Seq<u8>, ClassError>
    decreases n,
{
    if n == 0 {
        Ok(s)
    } else {
        match behind_attribute_list(behind(s, 6)) {
            Err(e) => Err(e),
            Ok(s) => behind_members(s, (n - 1) as nat),
        }
    }
}

/// What is behind a counted list of fields or methods.
pub open spec fn behind_member_list(s: Seq<u8>) -> Result<Seq<u8>, ClassError> {
    match number_at(s, 2) {
        Err(e) => Err(e),
        Ok((n, s)) => behind_members(s, n),
    }
}

/// The text that the first attribute called `SourceFile` among `n` points to, if there is one.
pub open spec fn source_file_among(s: Seq<u8>, n: nat, texts: Map<usize, Seq<char>>) -> Result<
    Option<Seq<char>>,
    ClassError,
>
    decreases n,
{
    if n == 0 {
        Ok(None)
    } else {
        match number_at(s, 2) {
            Err(e) => Err(e),
            Ok((name, s)) => match number_at(s, 4) {
                Err(e) => Err(e),
                Ok((len, s)) => if texts.contains_key(name as usize) && texts[name as usize]
                    == "SourceFile"@ {
                    match number_at(s, 2) {
                        Err(e) => Err(e),
                        Ok((file, _)) => if texts.contains_key(file as usize) {
                            Ok(Some(texts[file as usize]))
                        } else {
                            Ok(None)
                        },
                    }
                } else {
                    source_file_among(behind(s, len), (n - 1) as nat, texts)
                },
            },
        }
    }
}

pub open spec fn source_file_in(s: Seq<u8>, texts: Map<usize, Seq<char>>) -> Result<
    Option<Seq<char>>,
    ClassError,
> {
    match number_at(s, 2) {
        Err(e) => Err(e),
        Ok((n, s)) => source_file_among(s, n, texts),
    }
}

/// The name of the class whose constant stands at `this`.
pub open spec fn name_of_class(pool: Pool, this: nat) -> Result<Seq<char>, ClassError> {
    if !pool.classes.contains_key(this as usize) {
        Err(ClassError::NoThisClass)
    } else if !pool.texts.contains_key(pool.classes[this as usize]) {
        Err(ClassError::NoClassName)
    } else {
        Ok(pool.texts[pool.classes[this as usize]])
    }
}

/// What follows the class's own index: its superclass, its interfaces, its fields, its methods
/// and its attributes, among them its source file.
pub open spec fn source_file_behind_class(s: Seq<u8>, texts: Map<usize, Seq<char>>) -> Result<
    Option<Seq<char>>,
    ClassError,
> {
    match number_at(behind(s, 2), 2) {
        Err(e) => Err(e),
        Ok((interfaces, s)) => match behind_member_list(behind(s, interfaces * 2)) {
            Err(e) => Err(e),
            Ok(s) => match behind_member_list(s) {
                Err(e) => Err(e),
                Ok(s) => source_file_in(s, texts),
            },
        },
    }
}

/// The constants of a class file and what is behind them.
pub open spec fn pool_of(data: Seq<u8>) -> Result<(Pool, Seq<u8>), ClassError> {
    match number_at(data, 4) {
        Err(e) => Err(e),
        Ok((magic, s)) => if magic != 0xCAFE_BABE {
            Err(ClassError::NotAClassFile)
        } else {
            match number_at(behind(s, 4), 2) {
                Err(e) => Err(e),
                Ok((count, s)) => pool_from(
                    s,
                    1,
                    count,
                    Pool { texts: Map::empty(), classes: Map::empty() },
                ),
            }
        },
    }
}

/// The binary name of the class in a class file, and its source file's name where it is given.
pub open spec fn class_info(data: Seq<u8>) -> Result<(Seq<char>, Option<Seq<char>>), ClassError> {
    match pool_of(data) {
        Err(e) => Err(e),
        Ok((pool, s)) => match number_at(behind(s, 2), 2) {
            Err(e) => Err(e),
            Ok((this, s)) => match name_of_class(pool, this) {
                Err(e) => Err(e),
                Ok(name) => match source_file_behind_class(s, pool.texts) {
                    Err(e) => Err(e),
                    Ok(file) => Ok((name, file)),
                },
            },
        },
    }
}

// ---------------------------------------------------------------------------
// What follows does not matter
// ---------------------------------------------------------------------------

proof fn lemma_behind_more(s: Seq<u8>, n: nat, more: Seq<u8>)
    requires
        n <= s.len(),
    ensures
        behind(s + more, n) == behind(s, n) + more,
{
    assert(behind(s + more, n) =~= behind(s, n) + more);
}

proof fn lemma_number_more(s: Seq<u8>, width: nat, more: Seq<u8>)
    ensures
        number_at(s, width) matches Ok((n, rest)) ==> number_at(s + more, width) == Ok::<
            (nat, Seq<u8>),
            ClassError,
        >((n, rest + more)),
{
    if width <= s.len() {
        lemma_behind_more(s, width, more);
        assert((s + more).subrange(0, width as int) =~= s.subrange(0, width as int));
    }
}

/// Skips bytes, then reads a number.
proof fn lemma_number_behind_more(s: Seq<u8>, n: nat, width: nat, more: Seq<u8>)
    requires
        width > 0,
    ensures
        number_at(behind(s, n), width) matches Ok((k, rest)) ==> number_at(
            behind(s + more, n),
            width,
        ) == Ok::<(nat, Seq<u8>), ClassError>((k, rest + more)),
{
    if n <= s.len() {
        lemma_behind_more(s, n, more);
        lemma_number_more(behind(s, n), width, more);
    }
}

/// Where something is left behind the constants, more bytes are just left there too.
proof fn lemma_pool_more(s: Seq<u8>, idx: nat, count: nat, pool: Pool, more: Seq<u8>)
    ensures
        match pool_from(s, idx, count, pool) {
            Err(_) => true,
            Ok((p, rest)) => rest.len() > 0 ==> pool_from(s + more, idx, count, pool) == Ok::<
                (Pool, Seq<u8>),
                ClassError,
            >((p, rest + more)),
        },
    decreases count + 2 - idx,
{
    if idx < count {
        lemma_number_more(s, 1, more);
        match number_at(s, 1) {
            Err(_) => {},
            Ok((tag, t)) => {
                if tag == 1 {
                    lemma_number_more(t, 2, more);
                    match number_at(t, 2) {
                        Err(_) => {},
                        Ok((len, u)) => {
                            if len <= u.len() {
                                let text = utf8_lossy(u.subrange(0, len as int));
                                let next = Pool {
                                    texts: pool.texts.insert(idx as usize, text),
                                    ..pool
                                };
                                assert((u + more).subrange(0, len as int) =~= u.subrange(
                                    0,
                                    len as int,
                                ));
                                lemma_behind_more(u, len, more);
                                lemma_pool_more(behind(u, len), idx + 1, count, next, more);
                            }
                        },
                    }
                } else if tag == 7 {
                    lemma_number_more(t, 2, more);
                    match number_at(t, 2) {
                        Err(_) => {},
                        Ok((name, u)) => {
                            let next = Pool {
                                classes: pool.classes.insert(idx as usize, name as usize),
                                ..pool
                            };
                            lemma_pool_more(u, idx + 1, count, next, more);
                        },
                    }
                } else {
                    match skipped_constant(tag) {
                        None => {},
                        Some(n) => {
                            let next = if tag == 5 || tag == 6 {
                                idx + 2
                            } else {
                                idx + 1
                            };
                            lemma_pool_more(behind(t, n), next, count, pool, more);
                            if n <= t.len() {
                                lemma_behind_more(t, n, more);
                            } else {
                                assert(pool_from(behind(t, n), next, count, pool) matches Ok((_, r))
                                    ==> r.len() == 0);
                            }
                        },
                    }
                }
            },
        }
    }
}

proof fn lemma_attributes_more(s: Seq<u8>, n: nat, more: Seq<u8>)
    ensures
        behind_attributes(s, n) matches Ok(rest) ==> behind_attributes(s + more, n) == Ok::<
            Seq<u8>,
            ClassError,
        >(rest + more),
    decreases n,
{
    if n > 0 {
        lemma_number_behind_more(s, 2, 4, more);
        match number_at(behind(s, 2), 4) {
            Err(_) => {},
            Ok((len, t)) => {
                if len <= t.len() {
                    lemma_behind_more(t, len, more);
                    lemma_attributes_more(behind(t, len), (n - 1) as nat, more);
                }
            },
        }
    }
}

proof fn lemma_members_more(s: Seq<u8>, n: nat, more: Seq<u8>)
    ensures
        behind_members(s, n) matches Ok(rest) ==> behind_members(s + more, n) == Ok::<
            Seq<u8>,
            ClassError,
        >(rest + more),
    decreases n,
{
    if n > 0 {
        lemma_number_behind_more(s, 6, 2, more);
        match number_at(behind(s, 6), 2) {
            Err(_) => {},
            Ok((k, t)) => {
                lemma_attributes_more(t, k, more);
                match behind_attributes(t, k) {
                    Err(_) => {},
                    Ok(u) => lemma_members_more(u, (n - 1) as nat, more),
                }
            },
        }
    }
}

proof fn lemma_member_list_more(s: Seq<u8>, more: Seq<u8>)
    ensures
        behind_member_list(s) matches Ok(rest) ==> behind_member_list(s + more) == Ok::<
            Seq<u8>,
            ClassError,
        >(rest + more),
{
    lemma_number_more(s, 2, more);
    match number_at(s, 2) {
        Err(_) => {},
        Ok((n, t)) => lemma_members_more(t, n, more),
    }
}

proof fn lemma_source_file_more(
    s: Seq<u8>,
    n: nat,
    texts: Map<usize, Seq<char>>,
    more: Seq<u8>,
)
    ensures
        source_file_among(s, n, texts) is Ok ==> source_file_among(s + more, n, texts)
            == source_file_among(s, n, texts),
    decreases n,
{
    if n > 0 {
        lemma_number_more(s, 2, more);
        match number_at(s, 2) {
            Err(_) => {},
            Ok((_, t)) => {
                lemma_number_more(t, 4, more);
                match number_at(t, 4) {
                    Err(_) => {},
                    Ok((len, u)) => {
                        lemma_number_more(u, 2, more);
                        if len <= u.len() {
                            lemma_behind_more(u, len, more);
                            lemma_source_file_more(behind(u, len), (n - 1) as nat, texts, more);
                        } else {
                            reveal_with_fuel(source_file_among, 2);
                        }
                    },
                }
            },
        }
    }
}

/// What follows a class file does not change what it says.
pub proof fn law_bytes_behind_a_class_file_do_not_matter(data: Seq<u8>, more: Seq<u8>)
    ensures
        class_info(data) is Ok ==> class_info(data + more) == class_info(data),
{
    lemma_number_more(data, 4, more);
    if class_info(data) is Ok {
        let s = number_at(data, 4)->Ok_0.1;
        lemma_number_behind_more(s, 4, 2, more);
        let (count, t) = number_at(behind(s, 4), 2)->Ok_0;
        let none = Pool { texts: Map::empty(), classes: Map::empty() };
        lemma_pool_more(t, 1, count, none, more);
        let (pool, u) = pool_of(data)->Ok_0;
        lemma_number_behind_more(u, 2, 2, more);
        let (_, v) = number_at(behind(u, 2), 2)->Ok_0;
        lemma_number_behind_more(v, 2, 2, more);
        let (interfaces, w) = number_at(behind(v, 2), 2)->Ok_0;
        assert(interfaces * 2 <= w.len()) by {
            if interfaces * 2 > w.len() {
                assert(number_at(behind(w, interfaces * 2), 2) is Err);
            }
        }
        lemma_behind_more(w, interfaces * 2, more);
        let fields = behind(w, interfaces * 2);
        lemma_member_list_more(fields, more);
        let methods = behind_member_list(fields)->Ok_0;
        lemma_member_list_more(methods, more);
        let attributes = behind_member_list(methods)->Ok_0;
        lemma_number_more(attributes, 2, more);
        let (n, x) = number_at(attributes, 2)->Ok_0;
        lemma_source_file_more(x, n, pool.texts, more);
    }
}

// ---------------------------------------------------------------------------
// Reading
// ---------------------------------------------------------------------------

/// What of `data` is still to be read.
spec fn rest(data: Seq<u8>, pos: usize) -> Seq<u8> {
    data.subrange(pos as int, data.len() as int)
}

/// Moves on by `n` bytes, or to the end.
fn skip(data: &[u8], pos: &mut usize, n: usize)
    requires
        *old(pos) <= data@.len(),
    ensures
        *final(pos) <= data@.len(),
        rest(data@, *final(pos)) == behind(rest(data@, *old(pos)), n as nat),
{
    if n >= data.len() - *pos {
        *pos = data.len();
    } else {
        *pos = *pos + n;
    }
    assert(rest(data@, *pos) =~= behind(rest(data@, *old(pos)), n as nat));
}

fn read_number(data: &[u8], pos: &mut usize, width: u8) -> (r: Result<usize, ClassError>)
    requires
        1 <= width <= 4,
        *old(pos) <= data@.len(),
    ensures
        *final(pos) <= data@.len(),
        match number_at(rest(data@, *old(pos)), width as nat) {
            Err(e) => r == Err::<usize, ClassError>(e),
            Ok((n, s)) => r == Ok::<usize, ClassError>(n as usize) && n < crate::wire::be_range(
                width as nat,
            ) && n <= u32::MAX && s == rest(data@, *final(pos)),
        },
{
    let w: usize = width as usize;
    if data.len() - *pos < w {
        return Err(ClassError::Underrun);
    }
    let n = take_be(data, *pos, width);
    *pos = *pos + w;
    proof {
        let s = rest(data@, *old(pos));
        lemma_be_ranges();
        assert(s.subrange(0, width as int) =~= data@.subrange(*old(pos) as int, *old(pos) + width));
        assert(behind(s, width as nat) =~= rest(data@, *pos));
    }
    Ok(n as usize)
}

/// The views of texts, by their keys.
spec fn texts_of(m: Map<usize, String>) -> Map<usize, Seq<char>> {
    m.map_values(|s: String| s@)
}

fn read_pool(data: &[u8], pos: &mut usize, texts: &mut HashMap<usize, String>, classes: &mut HashMap<
    usize,
    usize,
>) -> (r: Result<(), ClassError>)
    requires
        *old(pos) <= data@.len(),
        old(texts)@ == Map::<usize, String>::empty(),
        old(classes)@ == Map::<usize, usize>::empty(),
    ensures
        *final(pos) <= data@.len(),
        match number_at(rest(data@, *old(pos)), 2) {
            Err(e) => r == Err::<(), ClassError>(e),
            Ok((count, s)) => match pool_from(
                s,
                1,
                count,
                Pool { texts: Map::empty(), classes: Map::empty() },
            ) {
                Err(e) => r == Err::<(), ClassError>(e),
                Ok((pool, s)) => r is Ok && pool.texts == texts_of(final(texts)@) && pool.classes
                    == final(classes)@ && s == rest(data@, *final(pos)),
            },
        },
{
    let count = read_number(data, pos, 2)?;
    let ghost want = pool_from(
        rest(data@, *pos),
        1,
        count as nat,
        Pool { texts: Map::empty(), classes: Map::empty() },
    );
    proof {
        lemma_be_ranges();
        assert(texts_of(texts@) =~= Map::empty());
    }
    let mut idx: usize = 1;
    while idx < count
        invariant
            count < 0x1_0000,
            1 <= idx <= 0x1_0002,
            *pos <= data@.len(),
            number_at(rest(data@, *old(pos)), 2) matches Ok((n, s)) && want == pool_from(
                s,
                1,
                n,
                Pool { texts: Map::empty(), classes: Map::empty() },
            ),
            want == pool_from(
                rest(data@, *pos),
                idx as nat,
                count as nat,
                Pool { texts: texts_of(texts@), classes: classes@ },
            ),
        decreases count + 2 - idx,
    {
        let ghost old_texts = texts@;
        let tag = read_number(data, pos, 1)?;
        if tag == 1 {
            let len = read_number(data, pos, 2)?;
            if len > data.len() - *pos {
                return Err(ClassError::TruncatedUtf8);
            }
            let text = lossy_text(&data[*pos..*pos + len]);
            proof {
                assert(rest(data@, *pos).subrange(0, len as int) =~= data@.subrange(
                    *pos as int,
                    *pos + len,
                ));
            }
            skip(data, pos, len);
            texts.insert(idx, text);
            proof {
                assert(texts_of(texts@) =~= texts_of(old_texts).insert(idx, text@));
            }
            idx += 1;
        } else if tag == 7 {
            let name = read_number(data, pos, 2)?;
            classes.insert(idx, name);
            idx += 1;
        } else if tag == 3 || tag == 4 {
            skip(data, pos, 4);
            idx += 1;
        } else if tag == 5 || tag == 6 {
            skip(data, pos, 8);
            idx += 2;
        } else if tag == 8 || tag == 16 || tag == 19 || tag == 20 {
            skip(data, pos, 2);
            idx += 1;
        } else if tag == 9 || tag == 10 || tag == 11 || tag == 12 || tag == 17 || tag == 18 {
            skip(data, pos, 4);
            idx += 1;
        } else if tag == 15 {
            skip(data, pos, 3);
            idx += 1;
        } else {
            return Err(ClassError::UnknownTag(tag as u8));
        }
    }
    Ok(())
}

fn skip_attributes(data: &[u8], pos: &mut usize) -> (r: Result<(), ClassError>)
    requires
        *old(pos) <= data@.len(),
    ensures
        *final(pos) <= data@.len(),
        match behind_attribute_list(rest(data@, *old(pos))) {
            Err(e) => r == Err::<(), ClassError>(e),
            Ok(s) => r is Ok && s == rest(data@, *final(pos)),
        },
{
    let count = read_number(data, pos, 2)?;
    let ghost want = behind_attributes(rest(data@, *pos), count as nat);
    let mut i: usize = 0;
    while i < count
        invariant
            i <= count,
            *pos <= data@.len(),
            want == behind_attribute_list(rest(data@, *old(pos))),
            want == behind_attributes(rest(data@, *pos), (count - i) as nat),
        decreases count - i,
    {
        skip(data, pos, 2);
        let len = read_number(data, pos, 4)?;
        if len > data.len() - *pos {
            return Err(ClassError::AttributeOverflow);
        }
        skip(data, pos, len);
        i += 1;
    }
    Ok(())
}

fn skip_members(data: &[u8], pos: &mut usize) -> (r: Result<(), ClassError>)
    requires
        *old(pos) <= data@.len(),
    ensures
        *final(pos) <= data@.len(),
        match behind_member_list(rest(data@, *old(pos))) {
            Err(e) => r == Err::<(), ClassError>(e),
            Ok(s) => r is Ok && s == rest(data@, *final(pos)),
        },
{
    let count = read_number(data, pos, 2)?;
    let ghost want = behind_members(rest(data@, *pos), count as nat);
    let mut i: usize = 0;
    while i < count
        invariant
            i <= count,
            *pos <= data@.len(),
            want == behind_member_list(rest(data@, *old(pos))),
            want == behind_members(rest(data@, *pos), (count - i) as nat),
        decreases count - i,
    {
        skip(data, pos, 6);
        skip_attributes(data, pos)?;
        i += 1;
    }
    Ok(())
}

fn find_source_file(data: &[u8], pos: &mut usize, texts: &HashMap<usize, String>) -> (r: Result<
    Option<String>,
    ClassError,
>)
    requires
        *old(pos) <= data@.len(),
    ensures
        match source_file_in(rest(data@, *old(pos)), texts_of(texts@)) {
            Err(e) => r == Err::<Option<String>, ClassError>(e),
            Ok(None) => r == Ok::<Option<String>, ClassError>(None),
            Ok(Some(file)) => r matches Ok(Some(s)) && s@ == file,
        },
{
    let count = read_number(data, pos, 2)?;
    let ghost want = source_file_among(rest(data@, *pos), count as nat, texts_of(texts@));
    let mut i: usize = 0;
    while i < count
        invariant
            i <= count,
            *pos <= data@.len(),
            want == source_file_in(rest(data@, *old(pos)), texts_of(texts@)),
            want == source_file_among(rest(data@, *pos), (count - i) as nat, texts_of(texts@)),
        decreases count - i,
    {
        let name = read_number(data, pos, 2)?;
        let len = read_number(data, pos, 4)?;
        let is_source_file = match texts.get(&name) {
            Some(text) => same_text(text.as_str(), "SourceFile"),
            None => false,
        };
        if is_source_file {
            let file = read_number(data, pos, 2)?;
            return match texts.get(&file) {
                Some(text) => Ok(Some(text.clone())),
                None => Ok(None),
            };
        }
        skip(data, pos, len);
        i += 1;
    }
    Ok(None)
}

/// Reads the name of the class in a class file, and the name of its source file, which is
/// missing where the class was compiled without it.
pub fn parse_class_info(data: &[u8]) -> (r: Result<(String, Option<String>), ClassError>)
    ensures
        match class_info(data@) {
            Err(e) => r matches Err(x) && x == e,
            Ok((name, file)) => {
                &&& r matches Ok((n, f))
                &&& n@ == name
                &&& match file {
                    None => f is None,
                    Some(t) => f matches Some(s) && s@ == t,
                }
            },
        },
{
    let mut pos: usize = 0;
    assert(rest(data@, pos) =~= data@);
    let magic = read_number(data, &mut pos, 4)?;
    if magic != 0xCAFE_BABE {
        return Err(ClassError::NotAClassFile);
    }
    skip(data, &mut pos, 4);
    let mut texts: HashMap<usize, String> = HashMap::new();
    let mut classes: HashMap<usize, usize> = HashMap::new();
    read_pool(data, &mut pos, &mut texts, &mut classes)?;
    skip(data, &mut pos, 2);
    let this = read_number(data, &mut pos, 2)?;
    let name = match classes.get(&this) {
        None => {
            return Err(ClassError::NoThisClass);
        },
        Some(index) => match texts.get(index) {
            None => {
                return Err(ClassError::NoClassName);
            },
            Some(text) => text.clone(),
        },
    };
    skip(data, &mut pos, 2);
    let interfaces = read_number(data, &mut pos, 2)?;
    proof {
        lemma_be_ranges();
    }
    skip(data, &mut pos, interfaces * 2);
    skip_members(data, &mut pos)?;
    skip_members(data, &mut pos)?;
    let file = find_source_file(data, &mut pos, &texts)?;
    Ok((name, file))
}

// ---------------------------------------------------------------------------
// What holds of class files
// ---------------------------------------------------------------------------

/// A number reads back as it was written, and what follows it is left.
pub proof fn law_class_numbers_read_back(n: nat, width: nat, rest: Seq<u8>)
    requires
        n < crate::wire::be_range(width),
    ensures
        number_at(be_bytes(n, width) + rest, width) == Ok::<(nat, Seq<u8>), ClassError>((n, rest)),
        behind(be_bytes(n, width) + rest, width) == rest,
{
    law_be_bytes_read_back(n, width);
    let s = be_bytes(n, width) + rest;
    assert(s.subrange(0, width as int) =~= be_bytes(n, width));
    assert(behind(s, width) =~= rest);
}

/// Bytes that are skipped are skipped by their number.
pub proof fn law_bytes_are_skipped_by_their_number(skipped: Seq<u8>, rest: Seq<u8>)
    ensures
        behind(skipped + rest, skipped.len()) == rest,
{
    assert(behind(skipped + rest, skipped.len()) =~= rest);
}

/// A text among the constants is kept under its index, and a class with the index of its name.
pub proof fn law_texts_and_classes_are_kept(
    text: Seq<u8>,
    name: u16,
    rest: Seq<u8>,
    idx: nat,
    count: nat,
    pool: Pool,
)
    requires
        idx < count,
        text.len() < 0x1_0000,
    ensures
        pool_from(seq![1u8] + be_bytes(text.len(), 2) + text + rest, idx, count, pool) == pool_from(
            rest,
            idx + 1,
            count,
            Pool { texts: pool.texts.insert(idx as usize, utf8_lossy(text)), ..pool },
        ),
        pool_from(seq![7u8] + be_bytes(name as nat, 2) + rest, idx, count, pool) == pool_from(
            rest,
            idx + 1,
            count,
            Pool { classes: pool.classes.insert(idx as usize, name as usize), ..pool },
        ),
{
    lemma_be_ranges();
    lemma_tag(1, be_bytes(text.len(), 2) + text + rest);
    assert(seq![1u8] + be_bytes(text.len(), 2) + text + rest =~= seq![1u8] + (be_bytes(
        text.len(),
        2,
    ) + text + rest));
    assert(be_bytes(text.len(), 2) + text + rest =~= be_bytes(text.len(), 2) + (text + rest));
    law_class_numbers_read_back(text.len(), 2, text + rest);
    assert((text + rest).subrange(0, text.len() as int) =~= text);
    law_bytes_are_skipped_by_their_number(text, rest);
    lemma_tag(7, be_bytes(name as nat, 2) + rest);
    assert(seq![7u8] + be_bytes(name as nat, 2) + rest =~= seq![7u8] + (be_bytes(name as nat, 2)
        + rest));
    law_class_numbers_read_back(name as nat, 2, rest);
}

proof fn lemma_tag(tag: u8, rest: Seq<u8>)
    ensures
        number_at(seq![tag] + rest, 1) == Ok::<(nat, Seq<u8>), ClassError>((tag as nat, rest)),
{
    reveal_with_fuel(be_bytes, 2);
    assert(be_bytes(tag as nat, 1) =~= seq![tag]);
    lemma_be_ranges();
    law_class_numbers_read_back(tag as nat, 1, rest);
}

/// How many bytes follow the tag of a constant that is no text and no class.
pub open spec fn is_constant_of(tag: u8, content: nat) -> bool {
    ||| content == 2 && (tag == 8 || tag == 16 || tag == 19 || tag == 20)
    ||| content == 3 && tag == 15
    ||| content == 4 && (tag == 3 || tag == 4 || 9 <= tag <= 12 || tag == 17 || tag == 18)
    ||| content == 8 && (tag == 5 || tag == 6)
}

/// Every other constant is passed over by its length. A long or a double takes two indices, any
/// other one.
pub proof fn law_other_constants_are_passed_over(
    tag: u8,
    content: Seq<u8>,
    rest: Seq<u8>,
    idx: nat,
    count: nat,
    pool: Pool,
)
    requires
        idx < count,
        is_constant_of(tag, content.len()),
    ensures
        pool_from(seq![tag] + content + rest, idx, count, pool) == pool_from(
            rest,
            if tag == 5 || tag == 6 {
                idx + 2
            } else {
                idx + 1
            },
            count,
            pool,
        ),
{
    lemma_tag(tag, content + rest);
    assert(seq![tag] + content + rest =~= seq![tag] + (content + rest));
    law_bytes_are_skipped_by_their_number(content, rest);
}

/// A constant of any other kind is not known, and stops the reading; and the constants end where
/// the count says.
pub proof fn law_unknown_constants_stop(tag: u8, rest: Seq<u8>, idx: nat, count: nat, pool: Pool)
    ensures
        idx < count && (tag == 0 || tag == 2 || tag == 13 || tag == 14 || tag > 20) ==> pool_from(
            seq![tag] + rest,
            idx,
            count,
            pool,
        ) == Err::<(Pool, Seq<u8>), ClassError>(ClassError::UnknownTag(tag)),
        idx >= count ==> pool_from(rest, idx, count, pool) == Ok::<(Pool, Seq<u8>), ClassError>(
            (pool, rest),
        ),
{
    lemma_tag(tag, rest);
}

/// An attribute as it is written: the index of its name, its length, and its content.
pub open spec fn attribute_bytes(name: u16, content: Seq<u8>) -> Seq<u8> {
    be_bytes(name as nat, 2) + be_bytes(content.len(), 4) + content
}

/// Attributes are passed over one by one, each with its whole content; fields and methods each
/// with their three numbers and all their attributes.
pub proof fn law_attributes_and_members_are_passed_over(
    name: u16,
    content: Seq<u8>,
    head: Seq<u8>,
    count: u16,
    rest: Seq<u8>,
    n: nat,
)
    requires
        content.len() < 0x1_0000_0000,
        head.len() == 6,
    ensures
        behind_attributes(attribute_bytes(name, content) + rest, n + 1) == behind_attributes(
            rest,
            n,
        ),
        behind_attributes(rest, 0) == Ok::<Seq<u8>, ClassError>(rest),
        behind_attribute_list(be_bytes(count as nat, 2) + rest) == behind_attributes(
            rest,
            count as nat,
        ),
        behind_members(head + rest, n + 1) == match behind_attribute_list(rest) {
            Ok(more) => behind_members(more, n),
            Err(e) => Err(e),
        },
        behind_members(rest, 0) == Ok::<Seq<u8>, ClassError>(rest),
        behind_member_list(be_bytes(count as nat, 2) + rest) == behind_members(rest, count as nat),
{
    lemma_be_ranges();
    lemma_attribute(name, content, rest);
    law_class_numbers_read_back(count as nat, 2, rest);
    law_bytes_are_skipped_by_their_number(head, rest);
}

proof fn lemma_attribute(name: u16, content: Seq<u8>, rest: Seq<u8>)
    requires
        content.len() < 0x1_0000_0000,
    ensures
        ({
            let s = attribute_bytes(name, content) + rest;
            let t = be_bytes(content.len(), 4) + (content + rest);
            &&& number_at(s, 2) == Ok::<(nat, Seq<u8>), ClassError>((name as nat, t))
            &&& behind(s, 2) == t
            &&& number_at(t, 4) == Ok::<(nat, Seq<u8>), ClassError>(
                (content.len(), content + rest),
            )
            &&& behind(content + rest, content.len()) == rest
        }),
{
    lemma_be_ranges();
    let s = attribute_bytes(name, content) + rest;
    let t = be_bytes(content.len(), 4) + (content + rest);
    assert(s =~= be_bytes(name as nat, 2) + t);
    law_class_numbers_read_back(name as nat, 2, t);
    law_class_numbers_read_back(content.len(), 4, content + rest);
    law_bytes_are_skipped_by_their_number(content, rest);
}

/// The source file is the text that the first attribute called `SourceFile` points to; attributes
/// of other names are passed over.
pub proof fn law_source_file_is_the_text_pointed_to(
    name: u16,
    content: Seq<u8>,
    file: u16,
    rest: Seq<u8>,
    n: nat,
    texts: Map<usize, Seq<char>>,
)
    requires
        content.len() < 0x1_0000_0000,
    ensures
        texts.contains_key(name as usize) && texts[name as usize] == seq![
            'S',
            'o',
            'u',
            'r',
            'c',
            'e',
            'F',
            'i',
            'l',
            'e',
        ] ==> source_file_among(
            attribute_bytes(name, be_bytes(file as nat, 2)) + rest,
            n + 1,
            texts,
        ) == Ok::<Option<Seq<char>>, ClassError>(
            if texts.contains_key(file as usize) {
                Some(texts[file as usize])
            } else {
                None
            },
        ),
        !(texts.contains_key(name as usize) && texts[name as usize] == seq![
            'S',
            'o',
            'u',
            'r',
            'c',
            'e',
            'F',
            'i',
            'l',
            'e',
        ]) ==> source_file_among(attribute_bytes(name, content) + rest, n + 1, texts)
            == source_file_among(rest, n, texts),
        source_file_among(rest, 0, texts) == Ok::<Option<Seq<char>>, ClassError>(None),
        source_file_in(be_bytes(name as nat, 2) + rest, texts) == source_file_among(
            rest,
            name as nat,
            texts,
        ),
{
    reveal_strlit("SourceFile");
    assert("SourceFile"@ =~= seq!['S', 'o', 'u', 'r', 'c', 'e', 'F', 'i', 'l', 'e']);
    lemma_be_ranges();
    lemma_be_bytes_len(file as nat, 2);
    lemma_attribute(name, be_bytes(file as nat, 2), rest);
    law_class_numbers_read_back(file as nat, 2, rest);
    lemma_attribute(name, content, rest);
    law_class_numbers_read_back(name as nat, 2, rest);
}

/// A class file starts with its four magic bytes and its version; its constants follow, and behind
/// them its flags, its own index, its superclass, its interfaces, its fields, its methods and its
/// attributes. The class's name is the text that its constant points to, and its source file is
/// what its own attributes say.
pub proof fn law_class_file_reads_back(
    version: Seq<u8>,
    count: u16,
    constants: Seq<u8>,
    flags: Seq<u8>,
    this: u16,
    parent: Seq<u8>,
    interfaces: Seq<u8>,
    members: Seq<u8>,
    methods: Seq<u8>,
    attributes: Seq<u8>,
    pool: Pool,
)
    requires
        version.len() == 4,
        flags.len() == 2,
        parent.len() == 2,
        interfaces.len() % 2 == 0 && interfaces.len() / 2 < 0x1_0000,
        pool_from(
            constants + (flags + be_bytes(this as nat, 2) + parent + be_bytes(
                interfaces.len() / 2,
                2,
            ) + interfaces + members),
            1,
            count as nat,
            Pool { texts: Map::empty(), classes: Map::empty() },
        ) == Ok::<(Pool, Seq<u8>), ClassError>(
            (
                pool,
                flags + be_bytes(this as nat, 2) + parent + be_bytes(interfaces.len() / 2, 2)
                    + interfaces + members,
            ),
        ),
        behind_member_list(members) == Ok::<Seq<u8>, ClassError>(methods),
        behind_member_list(methods) == Ok::<Seq<u8>, ClassError>(attributes),
    ensures
        ({
            let data = seq![0xcau8, 0xfeu8, 0xbau8, 0xbeu8] + version + be_bytes(count as nat, 2)
                + (constants + (flags + be_bytes(this as nat, 2) + parent + be_bytes(
                interfaces.len() / 2,
                2,
            ) + interfaces + members));
            &&& !pool.classes.contains_key(this as usize) ==> class_info(data) == Err::<
                (Seq<char>, Option<Seq<char>>),
                ClassError,
            >(ClassError::NoThisClass)
            &&& pool.classes.contains_key(this as usize) && !pool.texts.contains_key(
                pool.classes[this as usize],
            ) ==> class_info(data) == Err::<(Seq<char>, Option<Seq<char>>), ClassError>(
                ClassError::NoClassName,
            )
            &&& pool.classes.contains_key(this as usize) && pool.texts.contains_key(
                pool.classes[this as usize],
            ) ==> class_info(data) == match source_file_in(attributes, pool.texts) {
                Ok(file) => Ok::<(Seq<char>, Option<Seq<char>>), ClassError>(
                    (pool.texts[pool.classes[this as usize]], file),
                ),
                Err(e) => Err(e),
            }
        }),
{
    let n = interfaces.len() / 2;
    let tail = flags + be_bytes(this as nat, 2) + parent + be_bytes(n, 2) + interfaces + members;
    lemma_behind_constants(flags, this, parent, interfaces, members);
    lemma_constants_start(version, count, constants + tail);
}

/// What follows the constants, number by number.
proof fn lemma_behind_constants(
    flags: Seq<u8>,
    this: u16,
    parent: Seq<u8>,
    interfaces: Seq<u8>,
    members: Seq<u8>,
)
    requires
        flags.len() == 2,
        parent.len() == 2,
        interfaces.len() % 2 == 0 && interfaces.len() / 2 < 0x1_0000,
    ensures
        ({
            let n = interfaces.len() / 2;
            let tail = flags + be_bytes(this as nat, 2) + parent + be_bytes(n, 2) + interfaces
                + members;
            let a2 = parent + (be_bytes(n, 2) + (interfaces + members));
            &&& number_at(behind(tail, 2), 2) == Ok::<(nat, Seq<u8>), ClassError>(
                (this as nat, a2),
            )
            &&& number_at(behind(a2, 2), 2) == Ok::<(nat, Seq<u8>), ClassError>(
                (n, interfaces + members),
            )
            &&& behind(interfaces + members, n * 2) == members
        }),
{
    lemma_be_ranges();
    let n = interfaces.len() / 2;
    let a4 = interfaces + members;
    let a3 = be_bytes(n, 2) + a4;
    let a2 = parent + a3;
    let a1 = be_bytes(this as nat, 2) + a2;
    assert(flags + be_bytes(this as nat, 2) + parent + be_bytes(n, 2) + interfaces + members
        =~= flags + a1);
    law_bytes_are_skipped_by_their_number(flags, a1);
    law_class_numbers_read_back(this as nat, 2, a2);
    law_bytes_are_skipped_by_their_number(parent, a3);
    law_class_numbers_read_back(n, 2, a4);
    law_bytes_are_skipped_by_their_number(interfaces, members);
}

/// How a class file starts.
proof fn lemma_constants_start(version: Seq<u8>, count: u16, body: Seq<u8>)
    requires
        version.len() == 4,
    ensures
        pool_of(
            seq![0xcau8, 0xfeu8, 0xbau8, 0xbeu8] + version + be_bytes(count as nat, 2) + body,
        ) == pool_from(
            body,
            1,
            count as nat,
            Pool { texts: Map::empty(), classes: Map::empty() },
        ),
{
    lemma_be_ranges();
    let magic = seq![0xcau8, 0xfeu8, 0xbau8, 0xbeu8];
    let counted = be_bytes(count as nat, 2) + body;
    assert(magic + version + be_bytes(count as nat, 2) + body =~= magic + (version + counted));
    assert(be_bytes(0xCAFE_BABE, 4) =~= magic) by {
        reveal_with_fuel(be_bytes, 5);
    }
    law_class_numbers_read_back(0xCAFE_BABE, 4, version + counted);
    law_bytes_are_skipped_by_their_number(version, counted);
    law_class_numbers_read_back(count as nat, 2, body);
}

/// What does not start with the four magic bytes is no class file.
pub proof fn law_other_files_are_no_class_files(data: Seq<u8>)
    requires
        data.len() >= 4,
        data.take(4) != seq![0xcau8, 0xfeu8, 0xbau8, 0xbeu8],
    ensures
        class_info(data) == Err::<(Seq<char>, Option<Seq<char>>), ClassError>(
            ClassError::NotAClassFile,
        ),
{
    let head = data.subrange(0, 4);
    assert(head =~= data.take(4));
    crate::wire::law_be_value_writes_back(head);
    reveal_with_fuel(be_bytes, 5);
    assert(be_bytes(0xCAFE_BABE, 4) =~= seq![0xcau8, 0xfeu8, 0xbau8, 0xbeu8]);
}

/// A file that ends inside a number, a text or an attribute is no class file, and it is said where
/// it falls short.
pub proof fn law_class_files_that_end_too_early(
    s: Seq<u8>,
    width: nat,
    len: nat,
    name: u16,
    idx: nat,
    count: nat,
    pool: Pool,
)
    requires
        s.len() < len < 0x1_0000,
    ensures
        s.len() < width ==> number_at(s, width) == Err::<(nat, Seq<u8>), ClassError>(
            ClassError::Underrun,
        ),
        s.len() < 4 ==> class_info(s) == Err::<(Seq<char>, Option<Seq<char>>), ClassError>(
            ClassError::Underrun,
        ),
        idx < count ==> pool_from(seq![1u8] + be_bytes(len, 2) + s, idx, count, pool) == Err::<
            (Pool, Seq<u8>),
            ClassError,
        >(ClassError::TruncatedUtf8),
        behind_attributes(be_bytes(name as nat, 2) + be_bytes(len, 4) + s, 1) == Err::<
            Seq<u8>,
            ClassError,
        >(ClassError::AttributeOverflow),
{
    lemma_be_ranges();
    lemma_tag(1, be_bytes(len, 2) + s);
    assert(seq![1u8] + be_bytes(len, 2) + s =~= seq![1u8] + (be_bytes(len, 2) + s));
    law_class_numbers_read_back(len, 2, s);
    assert(be_bytes(name as nat, 2) + be_bytes(len, 4) + s =~= be_bytes(name as nat, 2) + (be_bytes(
        len,
        4,
    ) + s));
    law_class_numbers_read_back(name as nat, 2, be_bytes(len, 4) + s);
    law_class_numbers_read_back(len, 4, s);
}

} // verus!
