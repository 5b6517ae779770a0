//! Text as sequences of characters: white space, lines, searching, numbers.

use vstd::prelude::*;
use vstd::utf8::{decode_utf8, valid_utf8};

verus! {

// ---------------------------------------------------------------------------
// Strings and characters
// ---------------------------------------------------------------------------

/// `String::push` appends the given character to the end of the string.
pub assume_specification[ String::push ](s: &mut String, c: char)
    ensures
        final(s)@ == old(s)@.push(c),
;

/// `std::str::Utf8Error`, which says where bytes stop being UTF-8.
#[verifier::external_type_specification]
#[verifier::external_body]
pub struct ExUtf8Error(std::str::Utf8Error);

/// The error of `std::str::from_utf8` on bytes that are not UTF-8.
pub uninterp spec fn utf8_error(bytes: Seq<u8>) -> std::str::Utf8Error;

/// Calls `std::str::from_utf8`, which takes exactly the well-formed UTF-8 sequences and gives
/// the characters that they encode. Its error on other bytes depends on them alone; what it holds
/// is left unsaid.
#[verifier::external_body]
pub(crate) fn utf8_text(bytes: &[u8]) -> (r: Result<String, std::str::Utf8Error>)
    ensures
        match r {
            Ok(s) => valid_utf8(bytes@) && s@ == decode_utf8(bytes@),
            Err(e) => !valid_utf8(bytes@) && e == utf8_error(bytes@),
        },
{
    match std::str::from_utf8(bytes) {
        Ok(s) => Ok(s.to_string()),
        Err(e) => Err(e),
    }
}

/// How `Display` writes a `std::str::Utf8Error`.
pub uninterp spec fn utf8_error_text(e: std::str::Utf8Error) -> Seq<char>;

/// Formats a `std::str::Utf8Error` by its `Display`. The result depends on the error alone; the
/// words are left unsaid.
#[verifier::external_body]
pub(crate) fn error_text(e: &std::str::Utf8Error) -> (s: String)
    ensures
        s@ == utf8_error_text(*e),
{
    e.to_string()
}

/// What the error of `String::from_utf8` says of bytes that are not UTF-8.
pub uninterp spec fn utf8_fault(bytes: Seq<u8>) -> Seq<char>;

/// Calls `String::from_utf8`, which takes exactly the well-formed UTF-8 sequences and gives the
/// text that they encode. What its error says of other bytes depends on them alone; the words
/// are left unsaid.
#[verifier::external_body]
pub(crate) fn text_from_utf8(bytes: &[u8]) -> (r: Result<String, String>)
    ensures
        match r {
            Ok(s) => valid_utf8(bytes@) && s@ == decode_utf8(bytes@),
            Err(why) => !valid_utf8(bytes@) && why@ == utf8_fault(bytes@),
        },
{
    match String::from_utf8(bytes.to_vec()) {
        Ok(s) => Ok(s),
        Err(e) => Err(e.to_string()),
    }
}

/// What `String::from_utf8_lossy` makes of bytes that need not be UTF-8.
pub uninterp spec fn utf8_lossy(bytes: Seq<u8>) -> Seq<char>;

/// Calls `String::from_utf8_lossy`. Its result depends on the bytes alone; where they are UTF-8
/// it is the text that they encode. What it puts in place of malformed bytes is left unsaid.
#[verifier::external_body]
pub(crate) fn lossy_text(bytes: &[u8]) -> (s: String)
    ensures
        s@ == utf8_lossy(bytes@),
        valid_utf8(bytes@) ==> s@ == decode_utf8(bytes@),
{
    String::from_utf8_lossy(bytes).into_owned()
}

/// The characters of a string, in order.
pub fn chars_of(s: &str) -> (v: Vec<char>)
    ensures
        v@ == s@,
{
    let mut v: Vec<char> = Vec::new();
    for c in it: s.chars()
        invariant
            it.seq() == s@,
            v@ == s@.take(it.index() as int),
    {
        v.push(c);
    }
    assert(s@.take(s@.len() as int) =~= s@);
    v
}

/// The string made of the given characters.
pub fn string_of(chars: &[char]) -> (s: String)
    ensures
        s@ == chars@,
{
    let mut s: String = String::new();
    let mut i: usize = 0;
    while i < chars.len()
        invariant
            i <= chars@.len(),
            s@ == chars@.take(i as int),
        decreases chars@.len() - i,
    {
        s.push(chars[i]);
        i += 1;
        assert(chars@.take(i as int) =~= chars@.take(i - 1).push(chars@[i - 1]));
    }
    assert(chars@.take(i as int) =~= chars@);
    s
}

/// A string of its own with the same characters.
pub fn owned(s: &str) -> (t: String)
    ensures
        t@ == s@,
{
    string_of(chars_of(s).as_slice())
}

/// Whether two character sequences are the same.
pub fn same_chars(a: &[char], b: &[char]) -> (r: bool)
    ensures
        r == (a@ == b@),
{
    if a.len() != b.len() {
        return false;
    }
    let mut i: usize = 0;
    while i < a.len()
        invariant
            i <= a@.len(),
            a@.len() == b@.len(),
            a@.take(i as int) == b@.take(i as int),
        decreases a@.len() - i,
    {
        if a[i] != b[i] {
            return false;
        }
        i += 1;
        assert(a@.take(i as int) =~= a@.take(i - 1).push(a@[i - 1]));
        assert(b@.take(i as int) =~= b@.take(i - 1).push(b@[i - 1]));
    }
    assert(a@.take(i as int) =~= a@);
    assert(b@.take(i as int) =~= b@);
    true
}

/// Whether two strings hold the same text.
pub fn same_text(a: &str, b: &str) -> (r: bool)
    ensures
        r == (a@ == b@),
{
    let x = chars_of(a);
    let y = chars_of(b);
    same_chars(x.as_slice(), y.as_slice())
}

/// The part of `s` from index `from` up to, not with, index `to`.
pub fn slice_of(s: &[char], from: usize, to: usize) -> (v: Vec<char>)
    requires
        from <= to <= s@.len(),
    ensures
        v@ == s@.subrange(from as int, to as int),
{
    let mut v: Vec<char> = Vec::new();
    let mut i: usize = from;
    while i < to
        invariant
            from <= i <= to <= s@.len(),
            v@ == s@.subrange(from as int, i as int),
        decreases to - i,
    {
        v.push(s[i]);
        i += 1;
        assert(s@.subrange(from as int, i as int) =~= s@.subrange(from as int, i - 1).push(
            s@[i - 1],
        ));
    }
    v
}

/// The texts that a vector of strings holds.
pub open spec fn texts(v: Seq<String>) -> Seq<Seq<char>> {
    v.map_values(|s: String| s@)
}

/// Whether some element of `list` holds the text `s`.
pub open spec fn has_text(list: Seq<String>, s: Seq<char>) -> bool {
    exists|i: int| 0 <= i < list.len() && #[trigger] list[i]@ == s
}

/// A text is in a list just where it is among the list's texts.
pub proof fn lemma_has_text(list: Seq<String>, s: Seq<char>)
    ensures
        has_text(list, s) == texts(list).contains(s),
{
    if has_text(list, s) {
        let i = choose|i: int| 0 <= i < list.len() && (#[trigger] list[i])@ == s;
        assert(texts(list)[i] == s);
    }
    if texts(list).contains(s) {
        let i = choose|i: int| 0 <= i < texts(list).len() && texts(list)[i] == s;
        assert(list[i]@ == s);
    }
}

pub fn list_has(list: &[String], s: &str) -> (r: bool)
    ensures
        r == has_text(list@, s@),
{
    let mut i: usize = 0;
    while i < list.len()
        invariant
            i <= list@.len(),
            forall|j: int| 0 <= j < i ==> #[trigger] list@[j]@ != s@,
        decreases list@.len() - i,
    {
        if same_text(list[i].as_str(), s) {
            return true;
        }
        i += 1;
    }
    false
}

// ---------------------------------------------------------------------------
// White space
// ---------------------------------------------------------------------------

/// The characters with the Unicode property `White_Space`.
pub open spec fn is_space(c: char) -> bool {
    ||| '\u{9}' <= c <= '\u{d}'
    ||| c == ' '
    ||| c == '\u{85}'
    ||| c == '\u{a0}'
    ||| c == '\u{1680}'
    ||| '\u{2000}' <= c <= '\u{200a}'
    ||| c == '\u{2028}'
    ||| c == '\u{2029}'
    ||| c == '\u{202f}'
    ||| c == '\u{205f}'
    ||| c == '\u{3000}'
}

pub fn char_is_space(c: char) -> (r: bool)
    ensures
        r == is_space(c),
{
    ('\u{9}' <= c && c <= '\u{d}') || c == ' ' || c == '\u{85}' || c == '\u{a0}' || c == '\u{1680}'
        || ('\u{2000}' <= c && c <= '\u{200a}') || c == '\u{2028}' || c == '\u{2029}'
        || c == '\u{202f}' || c == '\u{205f}' || c == '\u{3000}'
}

/// `s` without the white space that it begins with.
pub open spec fn trim_start(s: Seq<char>) -> Seq<char>
    decreases s.len(),
{
    if s.len() > 0 && is_space(s[0]) {
        trim_start(s.drop_first())
    } else {
        s
    }
}

/// `s` without the white space that it ends with.
pub open spec fn trim_end(s: Seq<char>) -> Seq<char>
    decreases s.len(),
{
    if s.len() > 0 && is_space(s.last()) {
        trim_end(s.drop_last())
    } else {
        s
    }
}

/// `s` without the white space at both ends.
pub open spec fn trim(s: Seq<char>) -> Seq<char> {
    trim_end(trim_start(s))
}

/// The number of white space characters that `s` begins with.
pub fn leading_spaces(s: &[char]) -> (n: usize)
    ensures
        n <= s@.len(),
        trim_start(s@) == s@.skip(n as int),
        forall|i: int| 0 <= i < n ==> is_space(#[trigger] s@[i]),
        n < s@.len() ==> !is_space(s@[n as int]),
{
    let mut n: usize = 0;
    assert(s@.skip(0) =~= s@);
    while n < s.len() && char_is_space(s[n])
        invariant
            n <= s@.len(),
            trim_start(s@) == trim_start(s@.skip(n as int)),
            forall|i: int| 0 <= i < n ==> is_space(#[trigger] s@[i]),
        decreases s@.len() - n,
    {
        n += 1;
        assert(s@.skip(n - 1).drop_first() =~= s@.skip(n as int));
    }
    n
}

/// `s` without the white space at both ends.
pub fn trimmed(s: &[char]) -> (v: Vec<char>)
    ensures
        v@ == trim(s@),
{
    let from: usize = leading_spaces(s);
    let mut to: usize = s.len();
    assert(s@.subrange(from as int, to as int) =~= s@.skip(from as int));
    while to > from && char_is_space(s[to - 1])
        invariant
            from <= to <= s@.len(),
            trim(s@) == trim_end(s@.subrange(from as int, to as int)),
        decreases to,
    {
        to -= 1;
        assert(s@.subrange(from as int, to + 1).drop_last() =~= s@.subrange(
            from as int,
            to as int,
        ));
    }
    slice_of(s, from, to)
}

// ---------------------------------------------------------------------------
// Searching
// ---------------------------------------------------------------------------

/// Whether `p` stands in `s` at index `i`.
pub open spec fn occurs_at(s: Seq<char>, p: Seq<char>, i: int) -> bool {
    &&& 0 <= i
    &&& i + p.len() <= s.len()
    &&& s.subrange(i, i + p.len()) == p
}

/// Whether `p` stands somewhere in `s`.
pub open spec fn contains(s: Seq<char>, p: Seq<char>) -> bool {
    exists|i: int| occurs_at(s, p, i)
}

/// Whether `s` begins with `p`.
pub open spec fn starts_with(s: Seq<char>, p: Seq<char>) -> bool {
    occurs_at(s, p, 0)
}

/// Whether `p` stands in `s` at index `i`.
pub fn is_at(s: &[char], p: &[char], i: usize) -> (r: bool)
    ensures
        r == occurs_at(s@, p@, i as int),
{
    if p.len() > s.len() || i > s.len() - p.len() {
        return false;
    }
    let part = slice_of(s, i, i + p.len());
    same_chars(part.as_slice(), p)
}

pub fn has_part(s: &[char], p: &str) -> (r: bool)
    ensures
        r == contains(s@, p@),
{
    let pattern = chars_of(p);
    let mut i: usize = 0;
    while i < s.len()
        invariant
            i <= s@.len(),
            pattern@ == p@,
            forall|j: int| 0 <= j < i ==> !occurs_at(s@, p@, j),
        decreases s@.len() - i,
    {
        if is_at(s, pattern.as_slice(), i) {
            assert(occurs_at(s@, p@, i as int));
            return true;
        }
        i += 1;
    }
    if is_at(s, pattern.as_slice(), i) {
        assert(occurs_at(s@, p@, i as int));
        return true;
    }
    false
}

pub fn has_prefix(s: &[char], p: &str) -> (r: bool)
    ensures
        r == starts_with(s@, p@),
{
    let pattern = chars_of(p);
    is_at(s, pattern.as_slice(), 0)
}

/// The index of the first `c` in `s`, or the length of `s` where there is none.
pub open spec fn index_of(s: Seq<char>, c: char) -> int
    decreases s.len(),
{
    if s.len() == 0 || s[0] == c {
        0
    } else {
        1 + index_of(s.drop_first(), c)
    }
}

pub proof fn lemma_index_of(s: Seq<char>, c: char)
    ensures
        0 <= index_of(s, c) <= s.len(),
        index_of(s, c) < s.len() ==> s[index_of(s, c)] == c,
        forall|i: int| 0 <= i < index_of(s, c) ==> #[trigger] s[i] != c,
    decreases s.len(),
{
    if s.len() == 0 || s[0] == c {
    } else {
        let t = s.drop_first();
        lemma_index_of(t, c);
        assert forall|i: int| 0 <= i < index_of(s, c) implies #[trigger] s[i] != c by {
            if i > 0 {
                assert(t[i - 1] == s[i]);
            }
        }
    }
}

/// `index_of` is the only index with its two properties.
pub proof fn lemma_index_of_unique(s: Seq<char>, c: char, n: int)
    requires
        0 <= n <= s.len(),
        n < s.len() ==> s[n] == c,
        forall|i: int| 0 <= i < n ==> #[trigger] s[i] != c,
    ensures
        index_of(s, c) == n,
{
    lemma_index_of(s, c);
    let m = index_of(s, c);
    if m < n {
        assert(s[m] != c);
    } else if n < m {
        assert(s[n] != c);
    }
}

pub fn first_index(s: &[char], c: char) -> (n: usize)
    ensures
        n == index_of(s@, c),
        n <= s@.len(),
{
    let mut n: usize = 0;
    while n < s.len() && s[n] != c
        invariant
            n <= s@.len(),
            forall|i: int| 0 <= i < n ==> #[trigger] s@[i] != c,
        decreases s@.len() - n,
    {
        n += 1;
    }
    proof {
        lemma_index_of_unique(s@, c, n as int);
    }
    n
}

/// The index of the first `c` in `s` from `from` on, or the length of `s` where there is none.
pub fn next_index(s: &[char], from: usize, c: char) -> (n: usize)
    requires
        from <= s@.len(),
    ensures
        n == from + index_of(s@.skip(from as int), c),
        from <= n <= s@.len(),
{
    let ghost tail = s@.skip(from as int);
    let mut n: usize = from;
    while n < s.len() && s[n] != c
        invariant
            from <= n <= s@.len(),
            tail == s@.skip(from as int),
            forall|i: int| 0 <= i < n - from ==> #[trigger] tail[i] != c,
        decreases s@.len() - n,
    {
        assert(tail[n - from] == s@[n as int]);
        n += 1;
    }
    proof {
        if n < s@.len() {
            assert(tail[n - from] == s@[n as int]);
        }
        lemma_index_of_unique(tail, c, n - from);
    }
    n
}

/// The index of the last `c` in `s`, or -1 where there is none.
pub open spec fn last_index_of(s: Seq<char>, c: char) -> int
    decreases s.len(),
{
    if s.len() == 0 {
        -1
    } else if s.last() == c {
        s.len() - 1
    } else {
        last_index_of(s.drop_last(), c)
    }
}

pub proof fn lemma_last_index_of(s: Seq<char>, c: char)
    ensures
        -1 <= last_index_of(s, c) < s.len(),
        last_index_of(s, c) >= 0 ==> s[last_index_of(s, c)] == c,
        forall|i: int| last_index_of(s, c) < i < s.len() ==> #[trigger] s[i] != c,
    decreases s.len(),
{
    if s.len() == 0 || s.last() == c {
    } else {
        let t = s.drop_last();
        lemma_last_index_of(t, c);
        assert forall|i: int| last_index_of(s, c) < i < s.len() implies #[trigger] s[i] != c by {
            if i < t.len() {
                assert(t[i] == s[i]);
            }
        }
    }
}

pub fn last_index(s: &[char], c: char) -> (r: Option<usize>)
    ensures
        match r {
            Some(n) => n == last_index_of(s@, c) && n < s@.len(),
            None => last_index_of(s@, c) == -1,
        },
{
    let mut n: usize = s.len();
    assert(s@.take(n as int) =~= s@);
    while n > 0
        invariant
            n <= s@.len(),
            last_index_of(s@, c) == last_index_of(s@.take(n as int), c),
        decreases n,
    {
        assert(s@.take(n as int).last() == s@[n - 1]);
        assert(s@.take(n as int).drop_last() =~= s@.take(n - 1));
        n -= 1;
        if s[n] == c {
            return Some(n);
        }
    }
    None
}

// ---------------------------------------------------------------------------
// Lines and lists
// ---------------------------------------------------------------------------

/// `s` without a carriage return at its end.
pub open spec fn without_cr(s: Seq<char>) -> Seq<char> {
    if s.len() > 0 && s.last() == '\r' {
        s.drop_last()
    } else {
        s
    }
}

/// The lines of `s`. A line ends at a line feed, which it does not hold, nor the
/// carriage return right before it; what follows the last line feed is a line
/// where it is not empty.
pub open spec fn lines(s: Seq<char>) -> Seq<Seq<char>>
    decreases s.len(),
    via lines_decreases
{
    let n = index_of(s, '\n');
    if s.len() == 0 {
        seq![]
    } else if n == s.len() {
        seq![s]
    } else {
        seq![without_cr(s.take(n))] + lines(s.skip(n + 1))
    }
}

#[via_fn]
proof fn lines_decreases(s: Seq<char>) {
    lemma_index_of(s, '\n');
}

/// The contents of a vector of character vectors.
pub open spec fn rows(v: Seq<Vec<char>>) -> Seq<Seq<char>> {
    v.map_values(|r: Vec<char>| r@)
}

pub fn split_lines(s: &[char]) -> (v: Vec<Vec<char>>)
    ensures
        rows(v@) == lines(s@),
{
    let mut v: Vec<Vec<char>> = Vec::new();
    let mut from: usize = 0;
    assert(s@.skip(0) =~= s@);
    assert(rows(v@) + lines(s@) =~= lines(s@));
    while from < s.len()
        invariant
            from <= s@.len(),
            rows(v@) + lines(s@.skip(from as int)) == lines(s@),
        decreases s@.len() - from,
    {
        let ghost before = rows(v@);
        let ghost rest = s@.skip(from as int);
        let n: usize = next_index(s, from, '\n');
        let ghost k = n - from;
        proof {
            lemma_index_of(rest, '\n');
        }
        if n == s.len() {
            let line = slice_of(s, from, n);
            assert(line@ =~= rest);
            v.push(line);
            assert(rows(v@) =~= before.push(rest));
            assert(lines(rest) =~= seq![rest]);
            assert(before + seq![rest] =~= before.push(rest));
            return v;
        }
        let to: usize = if n > from && s[n - 1] == '\r' {
            n - 1
        } else {
            n
        };
        let line = slice_of(s, from, to);
        assert(line@ =~= without_cr(rest.take(k)));
        let ghost lv = line@;
        v.push(line);
        from = n + 1;
        assert(rows(v@) =~= before.push(lv));
        assert(rest.skip(k + 1) =~= s@.skip(from as int));
        assert(before + (seq![lv] + lines(s@.skip(from as int))) =~= before.push(lv) + lines(
            s@.skip(from as int),
        ));
    }
    assert(s@.skip(from as int) =~= Seq::<char>::empty());
    assert(rows(v@) + lines(s@.skip(from as int)) =~= rows(v@));
    v
}

/// The elements of `parts` in order, with `sep` between each two.
pub open spec fn join(parts: Seq<Seq<char>>, sep: Seq<char>) -> Seq<char>
    decreases parts.len(),
{
    if parts.len() == 0 {
        seq![]
    } else if parts.len() == 1 {
        parts[0]
    } else {
        join(parts.drop_last(), sep) + sep + parts.last()
    }
}

/// Appends text to a string.
pub fn append(s: &mut String, t: &str)
    ensures
        final(s)@ == old(s)@ + t@,
{
    let t = chars_of(t);
    let mut i: usize = 0;
    assert(t@.take(0) =~= seq![]);
    assert(s@ + t@.take(0) =~= s@);
    while i < t.len()
        invariant
            i <= t@.len(),
            s@ == old(s)@ + t@.take(i as int),
        decreases t@.len() - i,
    {
        s.push(t[i]);
        i += 1;
        assert(t@.take(i as int) =~= t@.take(i - 1).push(t@[i - 1]));
        assert(s@ =~= old(s)@ + t@.take(i as int));
    }
    assert(t@.take(i as int) =~= t@);
}

pub fn join_texts(parts: &[String], sep: &str) -> (s: String)
    ensures
        s@ == join(texts(parts@), sep@),
{
    let mut s: String = String::new();
    let mut i: usize = 0;
    let ghost all = texts(parts@);
    assert(all.take(0) =~= seq![]);
    while i < parts.len()
        invariant
            i <= parts@.len(),
            all == texts(parts@),
            s@ == join(all.take(i as int), sep@),
        decreases parts@.len() - i,
    {
        if i > 0 {
            append(&mut s, sep);
        }
        append(&mut s, parts[i].as_str());
        i += 1;
        assert(all.take(i as int).drop_last() =~= all.take(i - 1));
        assert(all.take(i as int).last() == parts@[i - 1]@);
        if i == 1 {
            assert(s@ =~= all.take(1)[0]);
        }
    }
    assert(all.take(i as int) =~= all);
    s
}

// ---------------------------------------------------------------------------
// What holds of texts
// ---------------------------------------------------------------------------

/// One text stands in another at an index just where its characters stand there one by one; it is
/// part of it where it stands at some index, and the start of it where it stands at the first.
pub proof fn law_parts_are_runs_of_characters(s: Seq<char>, p: Seq<char>, i: int)
    ensures
        occurs_at(s, p, i) <==> 0 <= i && i + p.len() <= s.len() && forall|k: int|
            0 <= k < p.len() ==> #[trigger] p[k] == s[i + k],
        occurs_at(s, p, i) ==> contains(s, p),
        contains(s, p) ==> exists|j: int| #[trigger] occurs_at(s, p, j),
        starts_with(s, p) <==> p.len() <= s.len() && s.take(p.len() as int) == p,
{
    if 0 <= i && i + p.len() <= s.len() {
        let t = s.subrange(i, i + p.len());
        if forall|k: int| 0 <= k < p.len() ==> #[trigger] p[k] == s[i + k] {
            assert(t =~= p);
        }
        if t == p {
            assert forall|k: int| 0 <= k < p.len() implies #[trigger] p[k] == s[i + k] by {
                assert(t[k] == s[i + k]);
            }
        }
    }
    if p.len() <= s.len() {
        assert(s.subrange(0, p.len() as int) =~= s.take(p.len() as int));
    }
}

/// What is left of a text without the white space at its ends is a run of its characters: all
/// before and behind it is white space, and it neither starts nor ends with any.
pub proof fn law_trimming_takes_off_white_space(s: Seq<char>) -> (from: int)
    ensures
        0 <= from,
        from + trim(s).len() <= s.len(),
        trim(s) == s.subrange(from, from + trim(s).len()),
        forall|i: int| 0 <= i < from ==> is_space(#[trigger] s[i]),
        forall|i: int| from + trim(s).len() <= i < s.len() ==> is_space(#[trigger] s[i]),
        trim(s).len() > 0 ==> !is_space(trim(s)[0]) && !is_space(trim(s).last()),
{
    lemma_trim_start(s);
    let t = trim_start(s);
    let from = s.len() - t.len();
    lemma_trim_end(t);
    let u = trim_end(t);
    assert(u =~= s.subrange(from, from + u.len()));
    assert forall|i: int| from + u.len() <= i < s.len() implies is_space(#[trigger] s[i]) by {
        assert(s[i] == t[i - from]);
    }
    if u.len() > 0 {
        assert(u[0] == t[0]);
    }
    from
}

proof fn lemma_trim_start(s: Seq<char>)
    ensures
        trim_start(s).len() <= s.len(),
        trim_start(s) == s.skip(s.len() - trim_start(s).len()),
        forall|i: int| 0 <= i < s.len() - trim_start(s).len() ==> is_space(#[trigger] s[i]),
        trim_start(s).len() > 0 ==> !is_space(trim_start(s)[0]),
    decreases s.len(),
{
    if s.len() > 0 && is_space(s[0]) {
        let t = s.drop_first();
        lemma_trim_start(t);
        let u = trim_start(s);
        assert(u =~= s.skip(s.len() - u.len()));
        assert forall|i: int| 0 <= i < s.len() - u.len() implies is_space(#[trigger] s[i]) by {
            if i > 0 {
                assert(s[i] == t[i - 1]);
            }
        }
    } else {
        assert(s =~= s.skip(0));
    }
}

proof fn lemma_trim_end(s: Seq<char>)
    ensures
        trim_end(s).len() <= s.len(),
        trim_end(s) == s.take(trim_end(s).len() as int),
        forall|i: int| trim_end(s).len() <= i < s.len() ==> is_space(#[trigger] s[i]),
        trim_end(s).len() > 0 ==> !is_space(trim_end(s).last()),
    decreases s.len(),
{
    if s.len() > 0 && is_space(s.last()) {
        let t = s.drop_last();
        lemma_trim_end(t);
        let u = trim_end(s);
        assert(u =~= s.take(u.len() as int));
        assert forall|i: int| u.len() <= i < s.len() implies is_space(#[trigger] s[i]) by {
            if i < t.len() {
                assert(s[i] == t[i]);
            }
        }
    } else {
        assert(s =~= s.take(s.len() as int));
    }
}

/// A line goes up to the next line feed, and what follows it are the lines of the rest. What ends
/// without a line feed is a line, unless it is empty.
pub proof fn law_lines_end_at_line_feeds(line: Seq<char>, rest: Seq<char>)
    requires
        forall|i: int| 0 <= i < line.len() ==> #[trigger] line[i] != '\n',
    ensures
        lines(line + seq!['\n'] + rest) == seq![line] + lines(rest) || line.len() > 0 && line.last()
            == '\r',
        lines(line + seq!['\r', '\n'] + rest) == seq![line] + lines(rest),
        line.len() > 0 ==> lines(line) == seq![line],
        lines(Seq::empty()) == Seq::<Seq<char>>::empty(),
{
    let s = line + seq!['\n'] + rest;
    let n = line.len() as int;
    assert forall|i: int| 0 <= i < n implies #[trigger] s[i] != '\n' by {
        assert(s[i] == line[i]);
    }
    lemma_index_of_unique(s, '\n', n);
    assert(s.take(n) =~= line);
    assert(s.skip(n + 1) =~= rest);
    let t = line + seq!['\r', '\n'] + rest;
    assert forall|i: int| 0 <= i < n + 1 implies #[trigger] t[i] != '\n' by {
        if i < n {
            assert(t[i] == line[i]);
        }
    }
    lemma_index_of_unique(t, '\n', n + 1);
    assert(t.take(n + 1) =~= line.push('\r'));
    assert(line.push('\r').drop_last() =~= line);
    assert(t.skip(n + 2) =~= rest);
    if line.len() > 0 {
        lemma_index_of_unique(line, '\n', n);
    }
}

/// Joined texts are the first of them, and then the others, with what is put between them.
pub proof fn law_joining_goes_from_text_to_text(first: Seq<char>, rest: Seq<Seq<char>>, sep: Seq<char>)
    ensures
        join(seq![first], sep) == first,
        rest.len() > 0 ==> join(seq![first] + rest, sep) == first + sep + join(rest, sep),
        join(Seq::empty(), sep) == Seq::<char>::empty(),
    decreases rest.len(),
{
    let all = seq![first] + rest;
    if rest.len() == 1 {
        assert(all.drop_last() =~= seq![first]);
        assert(all.last() == rest[0]);
        assert(rest =~= seq![rest[0]]);
    } else if rest.len() > 1 {
        let less = rest.drop_last();
        law_joining_goes_from_text_to_text(first, less, sep);
        assert(all.drop_last() =~= seq![first] + less);
        assert(all.last() == rest.last());
        assert(first + sep + join(less, sep) + sep + rest.last() =~= first + sep + (join(less, sep)
            + sep + rest.last()));
    }
}

/// White space is the space, the tab, the line ends and what Unicode adds to them; no other ASCII
/// character is.
pub proof fn law_white_space_in_ascii(c: char)
    ensures
        c < '\u{80}' ==> (is_space(c) <==> c == ' ' || '\u{9}' <= c <= '\u{d}'),
{
}

/// Beyond ASCII white space is what Unicode takes for it.
pub proof fn law_white_space_beyond_ascii(c: char)
    requires
        c >= '\u{80}',
    ensures
        is_space(c) <==> c as u32 == 0x85 || c as u32 == 0xa0 || c as u32 == 0x1680 || 0x2000
            <= c as u32 <= 0x200a || c as u32 == 0x2028 || c as u32 == 0x2029 || c as u32 == 0x202f
            || c as u32 == 0x205f || c as u32 == 0x3000,
{
}

} // verus!
