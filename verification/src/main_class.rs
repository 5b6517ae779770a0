//! Finding the classes that a program can be started with.

use vstd::prelude::*;
use vstd::utf8::encode_utf8;
use crate::files::{file_text, text_of, Entry, Tree};
use crate::list::views;
use crate::path::{
    extension, is_name, join_path, joined, law_extension_follows_the_last_dot,
    law_paths_within_go_on, name_stem, parts, parts_within, path_extension, stem, within,
};
use crate::text::{
    char_is_space, chars_of, has_prefix, is_at, is_space, join, join_texts, law_joining_goes_from_text_to_text,
    law_lines_end_at_line_feeds, law_trimming_takes_off_white_space,
    leading_spaces, lines, occurs_at, rows, same_text, slice_of, split_lines, starts_with, string_of, texts, trim,
    trim_start, trimmed,
};

verus! {

/// A class or file with a `main` entry point.
#[derive(Debug, PartialEq, Eq)]
pub struct MainClass {
    /// Fully qualified class name (e.g. `com.example.Main`).
    pub fully_qualified_name: String,
    /// Path to the source file.
    pub source_file: String,
}

pub struct MainClassView {
    pub fully_qualified_name: Seq<char>,
    pub source_file: Seq<char>,
}

impl View for MainClass {
    type V = MainClassView;

    open spec fn view(&self) -> MainClassView {
        MainClassView {
            fully_qualified_name: self.fully_qualified_name@,
            source_file: self.source_file@,
        }
    }
}

impl Clone for MainClass {
    fn clone(&self) -> (r: MainClass)
        ensures
            r@ == self@,
    {
        MainClass {
            fully_qualified_name: self.fully_qualified_name.clone(),
            source_file: self.source_file.clone(),
        }
    }
}

/// A source file could not be read as text.
#[derive(Debug, PartialEq, Eq)]
pub struct Unreadable {
    pub why: String,
}

// ---------------------------------------------------------------------------
// What counts as an entry point
// ---------------------------------------------------------------------------

/// Whether a character can be part of a name in a program.
pub open spec fn is_name_char(c: char) -> bool {
    ||| 'a' <= c <= 'z'
    ||| 'A' <= c <= 'Z'
    ||| '0' <= c <= '9'
    ||| c == '_'
    ||| c == '$'
    ||| c >= '\u{80}' && !is_space(c)
}

/// Whether a name can start at index `i`: none goes on there.
pub open spec fn starts_name(s: Seq<char>, i: int) -> bool {
    i == 0 || !is_name_char(s[i - 1])
}

/// Whether `w` stands in `s` at index `i`, and is not part of a longer name.
pub open spec fn word_at(s: Seq<char>, w: Seq<char>, i: int) -> bool {
    &&& occurs_at(s, w, i)
    &&& starts_name(s, i)
    &&& i + w.len() == s.len() || !is_name_char(s[i + w.len()])
}

pub open spec fn has_word(s: Seq<char>, w: Seq<char>) -> bool {
    exists|i: int| word_at(s, w, i)
}

/// What follows the end of a block comment that `s` starts inside of; none where it does not end.
pub open spec fn behind_comment(s: Seq<char>) -> Option<Seq<char>>
    decreases s.len(),
{
    if s.len() < 2 {
        None
    } else if s[0] == '*' && s[1] == '/' {
        Some(s.skip(2))
    } else {
        behind_comment(s.skip(1))
    }
}

/// `s` without the white space and the block comments that it starts with.
pub open spec fn behind_blanks(s: Seq<char>) -> Seq<char>
    decreases s.len(),
    via behind_blanks_decreases
{
    if s.len() > 0 && is_space(s[0]) {
        behind_blanks(s.skip(1))
    } else if s.len() > 1 && s[0] == '/' && s[1] == '*' {
        match behind_comment(s.skip(2)) {
            None => s,
            Some(rest) => behind_blanks(rest),
        }
    } else {
        s
    }
}

#[via_fn]
proof fn behind_blanks_decreases(s: Seq<char>) {
    if s.len() > 1 {
        lemma_behind_comment(s.skip(2));
    }
}

proof fn lemma_behind_comment(s: Seq<char>)
    ensures
        behind_comment(s) matches Some(rest) ==> rest.len() < s.len(),
    decreases s.len(),
{
    if s.len() >= 2 && !(s[0] == '*' && s[1] == '/') {
        lemma_behind_comment(s.skip(1));
    }
}

/// Where the white space and the block comments from index `i` on end.
pub open spec fn next_mark(s: Seq<char>, i: int) -> int {
    s.len() - behind_blanks(s.skip(i)).len()
}

/// Whether the arguments of a program are spoken of: an array of strings, or any number of them.
pub open spec fn takes_arguments(s: Seq<char>) -> bool {
    exists|i: int| #[trigger]
        starts_name(s, i) && (occurs_at(s, "String[]"@, i) || occurs_at(s, "String..."@, i))
}

/// Whether the word at index `i` is the `void` of a `public static void main` that takes the
/// arguments of a program.
pub open spec fn java_main_at(line: Seq<char>, i: int) -> bool {
    let name = next_mark(line, i + 4);
    let bracket = next_mark(line, name + 4);
    &&& word_at(line, "void"@, i)
    &&& word_at(line, "main"@, name)
    &&& bracket < line.len() && line[bracket] == '('
    &&& takes_arguments(line.skip(bracket + 1))
    &&& has_word(line.take(i), "public"@)
    &&& has_word(line.take(i), "static"@)
}

/// A `public static void main`, with its modifiers in any order, on one line.
pub open spec fn java_main_line(line: Seq<char>) -> bool {
    exists|i: int| java_main_at(line, i)
}

/// Whether the word at index `i` is the name of a `main` that takes the arguments of a program,
/// with `void` or `def`, or static without either.
pub open spec fn groovy_main_at(line: Seq<char>, i: int) -> bool {
    &&& word_at(line, "main"@, i)
    &&& i + 4 < line.len() && line[i + 4] == '('
    &&& takes_arguments(line.skip(i + 5))
    &&& has_word(line.take(i), "void"@) || has_word(line.take(i), "def"@) || has_word(
        line.take(i),
        "static"@,
    )
}

/// A `main` of Groovy, on one line.
pub open spec fn groovy_main_line(line: Seq<char>) -> bool {
    exists|i: int| groovy_main_at(line, i)
}

/// How far a line is indented, in bytes of UTF-8.
pub open spec fn indent(line: Seq<char>) -> nat {
    encode_utf8(line.take(line.len() - trim_start(line).len())).len()
}

/// A `fun main` that is not indented by more than one block.
pub open spec fn kotlin_main_line(line: Seq<char>) -> bool {
    indent(line) <= 4 && starts_with(trim(line), "fun main("@)
}

pub open spec fn java_main(src: Seq<char>) -> bool {
    exists|i: int| 0 <= i < lines(src).len() && java_main_line(#[trigger] lines(src)[i])
}

pub open spec fn groovy_main(src: Seq<char>) -> bool {
    exists|i: int| 0 <= i < lines(src).len() && groovy_main_line(#[trigger] lines(src)[i])
}

pub open spec fn kotlin_main(src: Seq<char>) -> bool {
    exists|i: int| 0 <= i < lines(src).len() && kotlin_main_line(#[trigger] lines(src)[i])
}

fn char_is_name(c: char) -> (r: bool)
    ensures
        r == is_name_char(c),
{
    ('a' <= c && c <= 'z') || ('A' <= c && c <= 'Z') || ('0' <= c && c <= '9') || c == '_' || c == '$'
        || (c >= '\u{80}' && !char_is_space(c))
}

fn name_can_start(s: &[char], i: usize) -> (r: bool)
    requires
        i <= s@.len(),
    ensures
        r == starts_name(s@, i as int),
{
    i == 0 || !char_is_name(s[i - 1])
}

fn is_word(s: &[char], w: &[char], i: usize) -> (r: bool)
    requires
        i <= s@.len(),
    ensures
        r == word_at(s@, w@, i as int),
{
    is_at(s, w, i) && name_can_start(s, i) && (w.len() == s.len() - i || !char_is_name(
        s[i + w.len()],
    ))
}

fn find_word(s: &[char], w: &str) -> (r: bool)
    ensures
        r == has_word(s@, w@),
{
    let word = chars_of(w);
    let mut i: usize = 0;
    loop
        invariant
            i <= s@.len(),
            word@ == w@,
            forall|j: int| 0 <= j < i ==> !word_at(s@, w@, j),
        decreases s@.len() - i,
    {
        if is_word(s, word.as_slice(), i) {
            assert(word_at(s@, w@, i as int));
            return true;
        }
        if i == s.len() {
            return false;
        }
        i += 1;
    }
}

fn skip_comment(s: &[char], i: usize) -> (r: Option<usize>)
    requires
        i <= s@.len(),
    ensures
        match behind_comment(s@.skip(i as int)) {
            None => r is None,
            Some(rest) => r matches Some(n) && i < n <= s@.len() && rest == s@.skip(n as int),
        },
{
    let mut n: usize = i;
    while s.len() - n >= 2
        invariant
            i <= n <= s@.len(),
            behind_comment(s@.skip(i as int)) == behind_comment(s@.skip(n as int)),
        decreases s@.len() - n,
    {
        let ghost rest = s@.skip(n as int);
        assert(rest[0] == s@[n as int] && rest[1] == s@[n + 1]);
        assert(rest.skip(2) =~= s@.skip(n + 2));
        assert(rest.skip(1) =~= s@.skip(n + 1));
        if s[n] == '*' && s[n + 1] == '/' {
            return Some(n + 2);
        }
        n += 1;
    }
    None
}

fn skip_blanks(s: &[char], i: usize) -> (n: usize)
    requires
        i <= s@.len(),
    ensures
        n == next_mark(s@, i as int),
        i <= n <= s@.len(),
{
    let mut n: usize = i;
    while n < s.len()
        invariant
            i <= n <= s@.len(),
            behind_blanks(s@.skip(i as int)) == behind_blanks(s@.skip(n as int)),
        decreases s@.len() - n,
    {
        let ghost rest = s@.skip(n as int);
        proof {
            assert(rest[0] == s@[n as int]);
            assert(rest.skip(1) =~= s@.skip(n + 1));
            if n + 1 < s@.len() {
                assert(rest[1] == s@[n + 1]);
                assert(rest.skip(2) =~= s@.skip(n + 2));
            }
        }
        if char_is_space(s[n]) {
            n += 1;
        } else if s.len() - n > 1 && s[n] == '/' && s[n + 1] == '*' {
            match skip_comment(s, n + 2) {
                None => {
                    return n;
                },
                Some(k) => {
                    n = k;
                },
            }
        } else {
            return n;
        }
    }
    n
}

fn has_arguments(s: &[char], from: usize) -> (r: bool)
    requires
        from <= s@.len(),
    ensures
        r == takes_arguments(s@.skip(from as int)),
{
    let rest = slice_of(s, from, s.len());
    let rest = rest.as_slice();
    assert(rest@ =~= s@.skip(from as int));
    let array = chars_of("String[]");
    let any = chars_of("String...");
    let mut i: usize = 0;
    loop
        invariant
            i <= rest@.len(),
            rest@ == s@.skip(from as int),
            array@ == "String[]"@,
            any@ == "String..."@,
            forall|j: int|
                0 <= j < i ==> !(#[trigger] starts_name(rest@, j) && (occurs_at(
                    rest@,
                    "String[]"@,
                    j,
                ) || occurs_at(rest@, "String..."@, j))),
        decreases rest@.len() - i,
    {
        if name_can_start(rest, i) && (is_at(rest, array.as_slice(), i) || is_at(
            rest,
            any.as_slice(),
            i,
        )) {
            assert(starts_name(rest@, i as int));
            return true;
        }
        if i == rest.len() {
            return false;
        }
        i += 1;
    }
}

fn is_java_main_at(line: &[char], i: usize) -> (r: bool)
    requires
        i <= line@.len(),
    ensures
        r == java_main_at(line@, i as int),
{
    proof {
        reveal_strlit("void");
        reveal_strlit("main");
    }
    let result = chars_of("void");
    let name = chars_of("main");
    if !is_word(line, result.as_slice(), i) {
        return false;
    }
    assert(i + 4 <= line.len());
    let at = skip_blanks(line, i + 4);
    if !is_word(line, name.as_slice(), at) {
        return false;
    }
    assert(at + 4 <= line.len());
    let bracket = skip_blanks(line, at + 4);
    if bracket == line.len() || line[bracket] != '(' {
        return false;
    }
    let modifiers = slice_of(line, 0, i);
    assert(modifiers@ =~= line@.take(i as int));
    has_arguments(line, bracket + 1) && find_word(modifiers.as_slice(), "public") && find_word(
        modifiers.as_slice(),
        "static",
    )
}

fn is_java_main_line(line: &[char]) -> (r: bool)
    ensures
        r == java_main_line(line@),
{
    let mut i: usize = 0;
    loop
        invariant
            i <= line@.len(),
            forall|j: int| 0 <= j < i ==> !java_main_at(line@, j),
        decreases line@.len() - i,
    {
        if is_java_main_at(line, i) {
            assert(java_main_at(line@, i as int));
            return true;
        }
        if i == line.len() {
            assert forall|j: int| !java_main_at(line@, j) by {
                assert(word_at(line@, "void"@, j) ==> 0 <= j <= line@.len());
            }
            return false;
        }
        i += 1;
    }
}

fn is_groovy_main_at(line: &[char], i: usize) -> (r: bool)
    requires
        i <= line@.len(),
    ensures
        r == groovy_main_at(line@, i as int),
{
    proof {
        reveal_strlit("main");
    }
    let name = chars_of("main");
    if !is_word(line, name.as_slice(), i) || line.len() - i < 5 || line[i + 4] != '(' {
        return false;
    }
    let modifiers = slice_of(line, 0, i);
    let modifiers = modifiers.as_slice();
    assert(modifiers@ =~= line@.take(i as int));
    has_arguments(line, i + 5) && (find_word(modifiers, "void") || find_word(modifiers, "def")
        || find_word(modifiers, "static"))
}

fn is_groovy_main_line(line: &[char]) -> (r: bool)
    ensures
        r == groovy_main_line(line@),
{
    let mut i: usize = 0;
    loop
        invariant
            i <= line@.len(),
            forall|j: int| 0 <= j < i ==> !groovy_main_at(line@, j),
        decreases line@.len() - i,
    {
        if is_groovy_main_at(line, i) {
            assert(groovy_main_at(line@, i as int));
            return true;
        }
        if i == line.len() {
            assert forall|j: int| !groovy_main_at(line@, j) by {
                assert(word_at(line@, "main"@, j) ==> 0 <= j <= line@.len());
            }
            return false;
        }
        i += 1;
    }
}

fn is_kotlin_main_line(line: &[char]) -> (r: bool)
    ensures
        r == kotlin_main_line(line@),
{
    let n = leading_spaces(line);
    let blank = string_of(slice_of(line, 0, n).as_slice());
    proof {
        assert(blank@ =~= line@.take(line@.len() - trim_start(line@).len()));
    }
    if blank.as_str().as_bytes().len() > 4 {
        return false;
    }
    let t = trimmed(line);
    has_prefix(t.as_slice(), "fun main(")
}

pub fn has_java_main(src: &str) -> (r: bool)
    ensures
        r == java_main(src@),
{
    let all = split_lines(chars_of(src).as_slice());
    let mut i: usize = 0;
    while i < all.len()
        invariant
            i <= all@.len(),
            rows(all@) == lines(src@),
            forall|k: int| 0 <= k < i ==> !java_main_line(#[trigger] lines(src@)[k]),
        decreases all@.len() - i,
    {
        assert(rows(all@)[i as int] == all@[i as int]@);
        if is_java_main_line(all[i].as_slice()) {
            assert(java_main_line(lines(src@)[i as int]));
            return true;
        }
        i += 1;
    }
    false
}

pub fn has_groovy_main(src: &str) -> (r: bool)
    ensures
        r == groovy_main(src@),
{
    let all = split_lines(chars_of(src).as_slice());
    let mut i: usize = 0;
    while i < all.len()
        invariant
            i <= all@.len(),
            rows(all@) == lines(src@),
            forall|k: int| 0 <= k < i ==> !groovy_main_line(#[trigger] lines(src@)[k]),
        decreases all@.len() - i,
    {
        assert(rows(all@)[i as int] == all@[i as int]@);
        if is_groovy_main_line(all[i].as_slice()) {
            assert(groovy_main_line(lines(src@)[i as int]));
            return true;
        }
        i += 1;
    }
    false
}

pub fn has_kotlin_main(src: &str) -> (r: bool)
    ensures
        r == kotlin_main(src@),
{
    let all = split_lines(chars_of(src).as_slice());
    let mut i: usize = 0;
    while i < all.len()
        invariant
            i <= all@.len(),
            rows(all@) == lines(src@),
            forall|k: int| 0 <= k < i ==> !kotlin_main_line(#[trigger] lines(src@)[k]),
        decreases all@.len() - i,
    {
        assert(rows(all@)[i as int] == all@[i as int]@);
        if is_kotlin_main_line(all[i].as_slice()) {
            assert(kotlin_main_line(lines(src@)[i as int]));
            return true;
        }
        i += 1;
    }
    false
}

// ---------------------------------------------------------------------------
// Class names from paths
// ---------------------------------------------------------------------------

/// The parts of a relative path, without the extension of the last. A last name that comes to
/// `.` that way says nothing, unless it is the only one.
pub open spec fn name_parts(rel: Seq<Seq<char>>) -> Seq<Seq<char>> {
    if rel.len() == 0 || !is_name(rel.last()) {
        rel
    } else if stem(rel.last()) == "."@ && rel.len() > 1 {
        rel.drop_last()
    } else {
        rel.drop_last().push(stem(rel.last()))
    }
}

/// The class name that a source file's place below its source root stands for: the directories
/// and the file's name without its extension, with dots between them.
pub open spec fn fqn(source_root: Seq<char>, file: Seq<char>) -> Option<Seq<char>> {
    match within(source_root, file) {
        None => None,
        Some(rel) => if rel.len() == 0 {
            None
        } else {
            Some(join(name_parts(rel), "."@))
        },
    }
}

fn strings_of(v: &[Vec<char>], n: usize) -> (r: Vec<String>)
    requires
        n <= v@.len(),
    ensures
        texts(r@) == rows(v@).take(n as int),
{
    let mut r: Vec<String> = Vec::new();
    let mut i: usize = 0;
    assert(texts(r@) =~= rows(v@).take(0));
    while i < n
        invariant
            i <= n <= v@.len(),
            texts(r@) == rows(v@).take(i as int),
        decreases n - i,
    {
        let ghost before = texts(r@);
        let s = string_of(v[i].as_slice());
        r.push(s);
        assert(texts(r@) =~= before.push(s@));
        i += 1;
        assert(texts(r@) =~= rows(v@).take(i as int));
    }
    r
}

/// Derives the fully qualified class name of `file` below `source_root`.
pub fn derive_fqn(source_root: &str, file: &str) -> (r: Option<String>)
    ensures
        match fqn(source_root@, file@) {
            None => r is None,
            Some(name) => r matches Some(s) && s@ == name,
        },
{
    let rel = match parts_within(source_root, file) {
        None => {
            return None;
        },
        Some(rel) => rel,
    };
    let n = rel.len();
    if n == 0 {
        assert(rows(rel@).len() == 0);
        return None;
    }
    let ghost all = rows(rel@);
    assert(all.last() == rel@.last()@);
    let last = string_of(rel[n - 1].as_slice());
    let named = !same_text(last.as_str(), "/") && !same_text(last.as_str(), ".") && !same_text(
        last.as_str(),
        "..",
    );
    let mut parts: Vec<String>;
    if !named {
        parts = strings_of(rel.as_slice(), n);
        assert(texts(parts@) =~= all);
    } else {
        let bare = string_of(name_stem(rel[n - 1].as_slice()).as_slice());
        parts = strings_of(rel.as_slice(), n - 1);
        assert(texts(parts@) =~= all.drop_last());
        if n == 1 || !same_text(bare.as_str(), ".") {
            let ghost before = texts(parts@);
            parts.push(bare);
            assert(texts(parts@) =~= before.push(bare@));
        }
    }
    assert(texts(parts@) == name_parts(all));
    Some(join_texts(parts.as_slice(), "."))
}

// ---------------------------------------------------------------------------
// Walking the source roots
// ---------------------------------------------------------------------------

/// Whether the file at `path` with this content holds an entry point; an error where it is a
/// source file that cannot be read.
pub open spec fn detected(path: Seq<char>, bytes: Result<Vec<u8>, String>) -> Result<bool, Seq<char>> {
    match extension(path) {
        None => Ok(false),
        Some(ext) => if ext == "java"@ || ext == "groovy"@ || ext == "kt"@ {
            match text_of(bytes) {
                Err(why) => Err(why),
                Ok(src) => Ok(
                    if ext == "java"@ {
                        java_main(src)
                    } else if ext == "groovy"@ {
                        groovy_main(src)
                    } else {
                        kotlin_main(src)
                    },
                ),
            }
        } else {
            Ok(false)
        },
    }
}

/// The main classes that one file gives.
pub open spec fn mains_in_file(root: Seq<char>, path: Seq<char>, bytes: Result<Vec<u8>, String>) -> Result<
    Seq<MainClassView>,
    Seq<char>,
> {
    match detected(path, bytes) {
        Err(why) => Err(why),
        Ok(false) => Ok(seq![]),
        Ok(true) => match fqn(root, path) {
            None => Ok(seq![]),
            Some(name) => Ok(
                seq![MainClassView { fully_qualified_name: name, source_file: path }],
            ),
        },
    }
}

/// `found` and then `more`, where both could be had; else why the first file that could not be
/// read could not.
pub open spec fn then_mains(
    found: Result<Seq<MainClassView>, Seq<char>>,
    more: Result<Seq<MainClassView>, Seq<char>>,
) -> Result<Seq<MainClassView>, Seq<char>> {
    match found {
        Err(why) => Err(why),
        Ok(a) => match more {
            Err(why) => Err(why),
            Ok(b) => Ok(a + b),
        },
    }
}

/// The main classes among the entries of the directory `dir` below `root`, in order.
pub open spec fn mains_in(root: Seq<char>, dir: Seq<char>, entries: Seq<Entry>) -> Result<
    Seq<MainClassView>,
    Seq<char>,
>
    decreases entries,
{
    if entries.len() == 0 {
        Ok(seq![])
    } else {
        then_mains(
            mains_in(root, dir, entries.drop_last()),
            match entries.last() {
                Entry::File { name, bytes } => mains_in_file(root, joined(dir, name@), bytes),
                Entry::Dir { name, entries: below } => mains_in(
                    root,
                    joined(dir, name@),
                    below@,
                ),
            },
        )
    }
}

/// The main classes below all source roots, in order.
pub open spec fn main_classes(roots: Seq<Tree>) -> Result<Seq<MainClassView>, Seq<char>>
    decreases roots.len(),
{
    if roots.len() == 0 {
        Ok(seq![])
    } else {
        then_mains(
            main_classes(roots.drop_last()),
            mains_in(roots.last().path@, roots.last().path@, roots.last().entries@),
        )
    }
}

/// Whether a source text holds an entry point of the language that the extension stands for.
pub open spec fn holds_entry_point(ext: Seq<char>, src: Seq<char>) -> bool {
    ||| ext == seq!['j', 'a', 'v', 'a'] && java_main(src)
    ||| ext == seq!['g', 'r', 'o', 'o', 'v', 'y'] && groovy_main(src)
    ||| ext == seq!['k', 't'] && kotlin_main(src)
}

/// Texts with a dot behind each.
pub open spec fn each_with_dot(texts: Seq<Seq<char>>) -> Seq<Seq<char>> {
    Seq::new(texts.len(), |i: int| texts[i].push('.'))
}

/// A file's main class is named by where the file stands: in a source file of any of the three
/// languages that holds an entry point, it is the directories below the source root and the
/// file's name without its extension, with dots between them.
pub proof fn law_main_class_is_named_by_its_place(
    root: Seq<char>,
    dirs: Seq<Seq<char>>,
    name: Seq<char>,
    ext: Seq<char>,
    path: Seq<char>,
    bytes: Result<Vec<u8>, String>,
    src: Seq<char>,
)
    requires
        parts(path) == parts(root) + dirs.push(name + seq!['.'] + ext),
        name.len() > 0,
        name != seq!['.'],
        text_of(bytes) == Ok::<Seq<char>, Seq<char>>(src),
        holds_entry_point(ext, src),
    ensures
        mains_in_file(root, path, bytes) == Ok::<Seq<MainClassView>, Seq<char>>(
            seq![
                MainClassView {
                    fully_qualified_name: each_with_dot(dirs).flatten() + name,
                    source_file: path,
                },
            ],
        ),
{
    reveal_strlit("java");
    reveal_strlit("groovy");
    reveal_strlit("kt");
    reveal_strlit(".");
    reveal_strlit("..");
    reveal_strlit("/");
    assert("java"@ =~= seq!['j', 'a', 'v', 'a']);
    assert("groovy"@ =~= seq!['g', 'r', 'o', 'o', 'v', 'y']);
    assert("kt"@ =~= seq!['k', 't']);
    assert("."@ =~= seq!['.']);
    assert(".."@ =~= seq!['.', '.']);
    let file = name + seq!['.'] + ext;
    assert(!ext.contains('.'));
    law_extension_follows_the_last_dot(name, ext);
    let rel = dirs.push(file);
    law_paths_within_go_on(root, path, rel);
    assert(rel.last() == file);
    assert(parts(path).last() == file);
    assert(file.len() > 2);
    assert(is_name(file));
    assert(rel.drop_last() =~= dirs);
    assert(ext[1] != 'r' || ext.len() == 6);
    lemma_dotted(dirs, name);
}

proof fn lemma_dotted(dirs: Seq<Seq<char>>, name: Seq<char>)
    ensures
        join(dirs.push(name), seq!['.']) == each_with_dot(dirs).flatten() + name,
    decreases dirs.len(),
{
    let pieces = each_with_dot(dirs);
    if dirs.len() == 0 {
        assert(dirs.push(name) =~= seq![name]);
        law_joining_goes_from_text_to_text(name, seq![], seq!['.']);
        assert(pieces =~= seq![]);
        assert(pieces.flatten() + name =~= name);
    } else {
        let rest = dirs.drop_first();
        lemma_dotted(rest, name);
        assert(dirs.push(name) =~= seq![dirs[0]] + rest.push(name));
        law_joining_goes_from_text_to_text(dirs[0], rest.push(name), seq!['.']);
        let after = each_with_dot(rest);
        assert(pieces.drop_first() =~= after);
        assert(pieces.flatten() =~= pieces[0] + after.flatten());
        assert(pieces[0] =~= dirs[0] + seq!['.']);
        assert(dirs[0] + seq!['.'] + (after.flatten() + name) =~= pieces.flatten() + name);
    }
}

/// A file gives a main class only where it stands below the source root and holds an entry point
/// of its language; it stops the search only where it is a source file that cannot be read.
pub proof fn law_other_files_give_no_main_class(
    root: Seq<char>,
    path: Seq<char>,
    bytes: Result<Vec<u8>, String>,
)
    ensures
        match mains_in_file(root, path, bytes) {
            Ok(found) => found.len() == 0 || found.len() == 1 && within(root, path) is Some
                && extension(path) is Some && text_of(bytes) is Ok && holds_entry_point(
                extension(path)->0,
                text_of(bytes)->Ok_0,
            ),
            Err(why) => text_of(bytes) == Err::<Seq<char>, Seq<char>>(why) && extension(path) is Some
                && (extension(path)->0 == seq!['j', 'a', 'v', 'a'] || extension(path)->0
                == seq!['g', 'r', 'o', 'o', 'v', 'y'] || extension(path)->0 == seq!['k', 't']),
        },
{
    reveal_strlit("java");
    reveal_strlit("groovy");
    reveal_strlit("kt");
    assert("java"@ =~= seq!['j', 'a', 'v', 'a']);
    assert("groovy"@ =~= seq!['g', 'r', 'o', 'o', 'v', 'y']);
    assert("kt"@ =~= seq!['k', 't']);
}

/// An unreadable file among the first entries is not forgotten by looking at more.
proof fn lemma_mains_fail(root: Seq<char>, dir: Seq<char>, entries: Seq<Entry>, n: int)
    requires
        0 <= n <= entries.len(),
        mains_in(root, dir, entries.take(n)) is Err,
    ensures
        mains_in(root, dir, entries) == mains_in(root, dir, entries.take(n)),
    decreases entries.len() - n,
{
    if n < entries.len() {
        assert(entries.take(n + 1).drop_last() =~= entries.take(n));
        lemma_mains_fail(root, dir, entries, n + 1);
    } else {
        assert(entries.take(n) =~= entries);
    }
}

proof fn lemma_main_classes_fail(roots: Seq<Tree>, n: int)
    requires
        0 <= n <= roots.len(),
        main_classes(roots.take(n)) is Err,
    ensures
        main_classes(roots) == main_classes(roots.take(n)),
    decreases roots.len() - n,
{
    if n < roots.len() {
        assert(roots.take(n + 1).drop_last() =~= roots.take(n));
        lemma_main_classes_fail(roots, n + 1);
    } else {
        assert(roots.take(n) =~= roots);
    }
}

/// Whether `r` and the list `out`, which started as `before`, say what `want` says.
spec fn collected(
    r: Result<(), Unreadable>,
    before: Seq<MainClassView>,
    out: Seq<MainClassView>,
    want: Result<Seq<MainClassView>, Seq<char>>,
) -> bool {
    match want {
        Err(why) => r matches Err(e) && e.why@ == why,
        Ok(found) => r is Ok && out == before + found,
    }
}

fn detect(path: &str, bytes: &Result<Vec<u8>, String>) -> (r: Result<bool, Unreadable>)
    ensures
        match detected(path@, *bytes) {
            Err(why) => r matches Err(e) && e.why@ == why,
            Ok(b) => r matches Ok(x) && x == b,
        },
{
    let ext = match path_extension(path) {
        None => {
            return Ok(false);
        },
        Some(ext) => ext,
    };
    let java = same_text(ext.as_str(), "java");
    let groovy = same_text(ext.as_str(), "groovy");
    if !java && !groovy && !same_text(ext.as_str(), "kt") {
        return Ok(false);
    }
    match file_text(bytes) {
        Err(why) => Err(Unreadable { why }),
        Ok(src) => if java {
            Ok(has_java_main(src.as_str()))
        } else if groovy {
            Ok(has_groovy_main(src.as_str()))
        } else {
            Ok(has_kotlin_main(src.as_str()))
        },
    }
}

fn collect_from_file(root: &str, path: String, bytes: &Result<Vec<u8>, String>, out: &mut Vec<MainClass>)
    -> (r: Result<(), Unreadable>)
    ensures
        collected(r, views(old(out)@), views(final(out)@), mains_in_file(root@, path@, *bytes)),
{
    let ghost before = views(out@);
    match detect(path.as_str(), bytes) {
        Err(e) => Err(e),
        Ok(false) => {
            assert(views(out@) =~= before + seq![]);
            Ok(())
        },
        Ok(true) => {
            match derive_fqn(root, path.as_str()) {
                None => {
                    assert(views(out@) =~= before + seq![]);
                },
                Some(name) => {
                    let found = MainClass { fully_qualified_name: name, source_file: path };
                    out.push(found);
                    assert(views(out@) =~= before + seq![found@]);
                },
            }
            Ok(())
        },
    }
}

fn collect_main_classes(root: &str, dir: &str, entries: &Vec<Entry>, out: &mut Vec<MainClass>)
    -> (r: Result<(), Unreadable>)
    ensures
        collected(r, views(old(out)@), views(final(out)@), mains_in(root@, dir@, entries@)),
    decreases entries,
{
    let ghost before = views(out@);
    let mut i: usize = 0;
    assert(entries@.take(0) =~= seq![]);
    assert(views(out@) =~= before + seq![]);
    while i < entries.len()
        invariant
            i <= entries@.len(),
            before == views(old(out)@),
            mains_in(root@, dir@, entries@.take(i as int)) matches Ok(found) && views(out@)
                == before + found,
        decreases entries@.len() - i,
    {
        let ghost so_far = views(out@);
        proof {
            assert(entries@.take(i + 1).drop_last() =~= entries@.take(i as int));
            assert(entries@.take(i + 1).last() == entries@[i as int]);
        }
        let entry = &entries[i];
        let step = match entry {
            Entry::File { name, bytes } => {
                let path = join_path(dir, name.as_str());
                collect_from_file(root, path, bytes, out)
            },
            Entry::Dir { name, entries: below } => {
                let path = join_path(dir, name.as_str());
                assert(decreases_to!(entries => entries@[i as int]));
                collect_main_classes(root, path.as_str(), below, out)
            },
        };
        match step {
            Err(e) => {
                proof {
                    lemma_mains_fail(root@, dir@, entries@, i + 1);
                }
                return Err(e);
            },
            Ok(()) => {},
        }
        i += 1;
        proof {
            let old_found = mains_in(root@, dir@, entries@.take(i - 1))->Ok_0;
            let found = mains_in(root@, dir@, entries@.take(i as int))->Ok_0;
            assert(views(out@) =~= before + found);
        }
    }
    assert(entries@.take(i as int) =~= entries@);
    Ok(())
}

/// Scans source roots for source files with a `main` entry point: `.java`, `.groovy` and `.kt`
/// files. A source file that cannot be read ends the scan.
pub fn find_main_classes(source_roots: &[Tree]) -> (r: Result<Vec<MainClass>, Unreadable>)
    ensures
        match main_classes(source_roots@) {
            Err(why) => r matches Err(e) && e.why@ == why,
            Ok(found) => r matches Ok(v) && views(v@) == found,
        },
{
    let mut out: Vec<MainClass> = Vec::new();
    let mut i: usize = 0;
    assert(source_roots@.take(0) =~= seq![]);
    assert(views(out@) =~= seq![]);
    while i < source_roots.len()
        invariant
            i <= source_roots@.len(),
            main_classes(source_roots@.take(i as int)) matches Ok(found) && views(out@) == found,
        decreases source_roots@.len() - i,
    {
        proof {
            assert(source_roots@.take(i + 1).drop_last() =~= source_roots@.take(i as int));
            assert(source_roots@.take(i + 1).last() == source_roots@[i as int]);
        }
        let root = &source_roots[i];
        match collect_main_classes(
            root.path.as_str(),
            root.path.as_str(),
            &root.entries,
            &mut out,
        ) {
            Err(e) => {
                proof {
                    lemma_main_classes_fail(source_roots@, i + 1);
                }
                return Err(e);
            },
            Ok(()) => {},
        }
        i += 1;
    }
    assert(source_roots@.take(i as int) =~= source_roots@);
    Ok(out)
}

// ---------------------------------------------------------------------------
// What holds of entry points
// ---------------------------------------------------------------------------

/// A file holds an entry point where one of its lines does, be it the first or a later one.
pub proof fn law_any_line_can_hold_the_entry_point(line: Seq<char>, rest: Seq<char>)
    requires
        forall|i: int| 0 <= i < line.len() ==> #[trigger] line[i] != '\n',
        line.len() > 0 ==> line.last() != '\r',
    ensures
        java_main(line + seq!['\n'] + rest) <==> java_main_line(line) || java_main(rest),
        groovy_main(line + seq!['\n'] + rest) <==> groovy_main_line(line) || groovy_main(rest),
        kotlin_main(line + seq!['\n'] + rest) <==> kotlin_main_line(line) || kotlin_main(rest),
        line.len() > 0 ==> (java_main(line) <==> java_main_line(line)),
        line.len() > 0 ==> (groovy_main(line) <==> groovy_main_line(line)),
        line.len() > 0 ==> (kotlin_main(line) <==> kotlin_main_line(line)),
        !java_main(Seq::empty()) && !groovy_main(Seq::empty()) && !kotlin_main(Seq::empty()),
{
    law_lines_end_at_line_feeds(line, rest);
    let all = lines(line + seq!['\n'] + rest);
    let more = lines(rest);
    assert(all =~= seq![line] + more);
    assert(all[0] == line);
    assert forall|i: int| 0 <= i < more.len() implies #[trigger] more[i] == all[i + 1] by {}
    assert forall|i: int| 0 < i < all.len() implies #[trigger] all[i] == more[i - 1] by {}
    if java_main(rest) {
        let i = choose|i: int| 0 <= i < more.len() && java_main_line(#[trigger] more[i]);
        assert(java_main_line(all[i + 1]));
    }
    if groovy_main(rest) {
        let i = choose|i: int| 0 <= i < more.len() && groovy_main_line(#[trigger] more[i]);
        assert(groovy_main_line(all[i + 1]));
    }
    if kotlin_main(rest) {
        let i = choose|i: int| 0 <= i < more.len() && kotlin_main_line(#[trigger] more[i]);
        assert(kotlin_main_line(all[i + 1]));
    }
    if line.len() > 0 {
        assert(lines(line)[0] == line);
    }
}

/// The characters of names are letters, digits, the underscore and the dollar sign, and beyond
/// ASCII all but white space.
pub proof fn law_characters_of_names(c: char)
    ensures
        c < '\u{80}' ==> (is_name_char(c) <==> 'a' <= c <= 'z' || 'A' <= c <= 'Z' || '0' <= c <= '9'
            || c == '_' || c == '$'),
        c >= '\u{80}' ==> (is_name_char(c) <==> !is_space(c)),
{
}

/// A word stands in a text where it stands alone: not as part of a longer name.
pub proof fn law_words_stand_alone(before: Seq<char>, w: Seq<char>, after: Seq<char>)
    requires
        before.len() > 0 ==> !is_name_char(before.last()),
        after.len() > 0 ==> !is_name_char(after[0]),
    ensures
        has_word(before + w + after, w),
        word_at(before + w + after, w, before.len() as int),
{
    let s = before + w + after;
    let i = before.len() as int;
    assert(s.subrange(i, i + w.len()) =~= w);
    assert(word_at(s, w, i));
}

/// Where a word is found, its characters stand there, and no name goes on before or behind.
pub proof fn law_found_words_stand_alone(s: Seq<char>, w: Seq<char>, i: int)
    requires
        word_at(s, w, i),
    ensures
        0 <= i && i + w.len() <= s.len(),
        s.subrange(i, i + w.len()) == w,
        i > 0 ==> !is_name_char(s[i - 1]),
        i + w.len() < s.len() ==> !is_name_char(s[i + w.len()]),
{
}

/// White space and block comments in front are passed over, and nothing else is.
pub proof fn law_blanks_are_passed_over(blanks: Seq<char>, comment: Seq<char>, rest: Seq<char>)
    requires
        forall|i: int| 0 <= i < blanks.len() ==> is_space(#[trigger] blanks[i]),
        forall|i: int| 0 <= i < comment.len() - 1 ==> !ends_comment(comment, i),
    ensures
        behind_blanks(blanks + rest) == behind_blanks(rest),
        behind_blanks(seq!['/', '*'] + comment + seq!['*', '/'] + rest) == behind_blanks(rest),
        rest.len() > 0 && !is_space(rest[0]) && rest[0] != '/' ==> behind_blanks(rest) == rest,
    decreases blanks.len(),
{
    let s = seq!['/', '*'] + comment + seq!['*', '/'] + rest;
    lemma_comment_ends(comment, rest);
    assert(s[0] == '/' && s[1] == '*');
    assert(s.skip(2) =~= comment + seq!['*', '/'] + rest);
    assert(!is_space('/'));
    if blanks.len() > 0 {
        let less = blanks.skip(1);
        assert forall|i: int| 0 <= i < less.len() implies is_space(#[trigger] less[i]) by {
            assert(less[i] == blanks[i + 1]);
        }
        law_blanks_are_passed_over(less, comment, rest);
        assert(is_space(blanks[0]));
        assert((blanks + rest)[0] == blanks[0]);
        assert((blanks + rest).skip(1) =~= less + rest);
    } else {
        assert(blanks + rest =~= rest);
    }
}

/// Whether a block comment ends at index `i`.
pub open spec fn ends_comment(s: Seq<char>, i: int) -> bool {
    s[i] == '*' && s[i + 1] == '/'
}

proof fn lemma_comment_ends(comment: Seq<char>, rest: Seq<char>)
    requires
        forall|i: int| 0 <= i < comment.len() - 1 ==> !ends_comment(comment, i),
    ensures
        behind_comment(comment + seq!['*', '/'] + rest) == Some(rest),
    decreases comment.len(),
{
    let s = comment + seq!['*', '/'] + rest;
    if comment.len() == 0 {
        assert(s[0] == '*' && s[1] == '/');
        assert(s.skip(2) =~= rest);
    } else {
        let less = comment.skip(1);
        assert forall|i: int| 0 <= i < less.len() - 1 implies !ends_comment(less, i) by {
            assert(!ends_comment(comment, i + 1));
        }
        lemma_comment_ends(less, rest);
        assert(s[0] == comment[0]);
        if comment.len() > 1 {
            assert(!ends_comment(comment, 0));
            assert(s[1] == comment[1]);
        } else {
            assert(s[1] == '*');
        }
        assert(s.skip(1) =~= less + seq!['*', '/'] + rest);
    }
}

/// Whether an array of strings, or any number of strings, is spoken of at index `i`.
pub open spec fn speaks_of_strings(s: Seq<char>, i: int) -> bool {
    &&& i == 0 || !is_name_char(s[i - 1])
    &&& 0 <= i
    &&& {
        ||| i + 8 <= s.len() && s.subrange(i, i + 8) == "String[]"@
        ||| i + 9 <= s.len() && s.subrange(i, i + 9) == "String..."@
    }
}

/// The arguments of a program are an array of strings, or any number of them; nothing else is.
pub proof fn law_arguments_are_strings(before: Seq<char>, after: Seq<char>, s: Seq<char>)
    ensures
        before.len() == 0 || !is_name_char(before.last()) ==> takes_arguments(
            before + "String[]"@ + after,
        ) && takes_arguments(before + "String..."@ + after),
        takes_arguments(s) ==> exists|i: int| #[trigger] speaks_of_strings(s, i),
{
    reveal_strlit("String[]");
    reveal_strlit("String...");
    if before.len() == 0 || !is_name_char(before.last()) {
        let a = before + "String[]"@ + after;
        let b = before + "String..."@ + after;
        let i = before.len() as int;
        assert(a.subrange(i, i + "String[]"@.len()) =~= "String[]"@);
        assert(b.subrange(i, i + "String..."@.len()) =~= "String..."@);
        assert(starts_name(a, i));
        assert(starts_name(b, i));
    }
    if takes_arguments(s) {
        let i = choose|i: int| #[trigger]
            starts_name(s, i) && (occurs_at(s, "String[]"@, i) || occurs_at(s, "String..."@, i));
        assert(speaks_of_strings(s, i));
    }
}

/// A Java entry point is a method `main` that is `public` and `static`, in any order and with other
/// modifiers among them, that returns `void`, and that takes the arguments of a program; with white
/// space as it may be.
pub proof fn law_java_entry_points(
    modifiers: Seq<char>,
    gap: Seq<char>,
    blank: Seq<char>,
    arguments: Seq<char>,
)
    requires
        has_word(modifiers, "public"@),
        has_word(modifiers, "static"@),
        !is_name_char(modifiers.last()),
        gap.len() > 0,
        forall|i: int| 0 <= i < gap.len() ==> is_space(#[trigger] gap[i]),
        forall|i: int| 0 <= i < blank.len() ==> is_space(#[trigger] blank[i]),
        takes_arguments(arguments),
    ensures
        java_main_line(
            modifiers + seq!['v', 'o', 'i', 'd'] + gap + seq!['m', 'a', 'i', 'n'] + blank
                + seq!['('] + arguments,
        ),
{
    reveal_strlit("void");
    reveal_strlit("main");
    reveal_strlit("public");
    assert("void"@ =~= seq!['v', 'o', 'i', 'd']);
    assert("main"@ =~= seq!['m', 'a', 'i', 'n']);
    let line = modifiers + seq!['v', 'o', 'i', 'd'] + gap + seq!['m', 'a', 'i', 'n'] + blank
        + seq!['('] + arguments;
    let i = modifiers.len() as int;
    let name = i + 4 + gap.len();
    let bracket = name + 4 + blank.len();
    let tail = seq!['('] + arguments;
    let from_main = seq!['m', 'a', 'i', 'n'] + blank + tail;
    assert(modifiers.len() > 0) by {
        let k = choose|k: int| word_at(modifiers, "public"@, k);
        assert(k + 6 <= modifiers.len());
    }
    assert(line.take(i) =~= modifiers);
    assert(line.subrange(i, i + 4) =~= "void"@);
    assert(line[i - 1] == modifiers.last());
    assert(line[i + 4] == gap[0]);
    assert(is_space(gap[0]));
    assert(!is_name_char(gap[0]));
    assert(line.skip(i + 4) =~= gap + from_main);
    law_blanks_are_passed_over(gap, seq![], from_main);
    assert(from_main[0] == 'm');
    assert(behind_blanks(from_main) == from_main);
    assert(next_mark(line, i + 4) == name);
    assert(line.subrange(name, name + 4) =~= "main"@);
    assert(line[name - 1] == gap.last());
    assert(is_space(gap[gap.len() - 1]));
    assert(line.skip(name + 4) =~= blank + tail);
    law_blanks_are_passed_over(blank, seq![], tail);
    assert(tail[0] == '(');
    assert(behind_blanks(tail) == tail);
    assert(next_mark(line, name + 4) == bracket);
    assert(line[bracket] == '(');
    if blank.len() > 0 {
        assert(line[name + 4] == blank[0]);
        assert(is_space(blank[0]));
    } else {
        assert(line[name + 4] == '(');
    }
    assert(line.skip(bracket + 1) =~= arguments);
    assert(java_main_at(line, i));
}

/// A line that is taken for a Java entry point has the words `public` and `static` before the word
/// `void`, and the word `main` and a bracket behind it, and takes the arguments of a program behind
/// the bracket.
pub proof fn law_java_entry_points_have_all_words(line: Seq<char>) -> (r: (int, int, int))
    requires
        java_main_line(line),
    ensures
        word_at(line, "void"@, r.0),
        has_word(line.take(r.0), "public"@),
        has_word(line.take(r.0), "static"@),
        word_at(line, "main"@, r.1),
        line.skip(r.1) == behind_blanks(line.skip(r.0 + 4)),
        r.2 < line.len() && line[r.2] == '(',
        line.skip(r.2) == behind_blanks(line.skip(r.1 + 4)),
        takes_arguments(line.skip(r.2 + 1)),
{
    let i = choose|i: int| java_main_at(line, i);
    let name = next_mark(line, i + 4);
    let bracket = next_mark(line, name + 4);
    reveal_strlit("void");
    reveal_strlit("main");
    assert("void"@.len() == 4 && "main"@.len() == 4);
    lemma_behind_blanks(line.skip(i + 4));
    lemma_behind_blanks(line.skip(name + 4));
    let a = behind_blanks(line.skip(i + 4));
    let b = behind_blanks(line.skip(name + 4));
    assert(line.skip(i + 4).skip(line.skip(i + 4).len() - a.len()) =~= line.skip(name));
    assert(line.skip(name + 4).skip(line.skip(name + 4).len() - b.len()) =~= line.skip(bracket));
    (i, name, bracket)
}

proof fn lemma_behind_blanks(s: Seq<char>)
    ensures
        behind_blanks(s).len() <= s.len(),
        behind_blanks(s) == s.skip(s.len() - behind_blanks(s).len()),
    decreases s.len(),
{
    if s.len() > 0 && is_space(s[0]) {
        lemma_behind_blanks(s.skip(1));
        let t = behind_blanks(s);
        assert(s.skip(1).skip(s.skip(1).len() - t.len()) =~= s.skip(s.len() - t.len()));
    } else if s.len() > 1 && s[0] == '/' && s[1] == '*' {
        lemma_comment_is_a_part(s.skip(2));
        match behind_comment(s.skip(2)) {
            None => {
                assert(s.skip(0) =~= s);
            },
            Some(rest) => {
                lemma_behind_blanks(rest);
                let t = behind_blanks(s);
                assert(rest.skip(rest.len() - t.len()) =~= s.skip(s.len() - t.len()));
            },
        }
    } else {
        assert(s.skip(0) =~= s);
    }
}

proof fn lemma_comment_is_a_part(s: Seq<char>)
    ensures
        behind_comment(s) matches Some(rest) ==> rest.len() < s.len() && rest == s.skip(
            s.len() - rest.len(),
        ),
    decreases s.len(),
{
    if s.len() >= 2 && !(s[0] == '*' && s[1] == '/') {
        lemma_comment_is_a_part(s.skip(1));
        if let Some(rest) = behind_comment(s) {
            assert(s.skip(1).skip(s.skip(1).len() - rest.len()) =~= s.skip(s.len() - rest.len()));
        }
    }
}

/// A Groovy entry point is a `main` with `void`, `def` or `static` before it that takes the
/// arguments of a program.
pub proof fn law_groovy_entry_points(modifiers: Seq<char>, arguments: Seq<char>, line: Seq<char>)
    ensures
        modifiers.len() > 0 && !is_name_char(modifiers.last()) && (has_word(modifiers, "void"@)
            || has_word(modifiers, "def"@) || has_word(modifiers, "static"@)) && takes_arguments(
            arguments,
        ) ==> groovy_main_line(modifiers + seq!['m', 'a', 'i', 'n', '('] + arguments),
        groovy_main_line(line) ==> exists|i: int| #[trigger]
            word_at(line, "main"@, i) && line[i + 4] == '(' && takes_arguments(line.skip(i + 5)) && (
            has_word(line.take(i), "void"@) || has_word(line.take(i), "def"@) || has_word(
                line.take(i),
                "static"@,
            )),
{
    reveal_strlit("main");
    assert("main"@ =~= seq!['m', 'a', 'i', 'n']);
    if modifiers.len() > 0 && !is_name_char(modifiers.last()) && (has_word(modifiers, "void"@)
        || has_word(modifiers, "def"@) || has_word(modifiers, "static"@)) && takes_arguments(
        arguments,
    ) {
        let s = modifiers + seq!['m', 'a', 'i', 'n', '('] + arguments;
        let i = modifiers.len() as int;
        assert(s.take(i) =~= modifiers);
        assert(s.subrange(i, i + 4) =~= "main"@);
        assert(s[i - 1] == modifiers.last());
        assert(s[i + 4] == '(');
        assert(s.skip(i + 5) =~= arguments);
        assert(groovy_main_at(s, i));
    }
    if groovy_main_line(line) {
        let i = choose|i: int| groovy_main_at(line, i);
        assert(word_at(line, "main"@, i));
    }
}

/// A Kotlin entry point is a `fun main` behind white space of at most four bytes: four spaces, or
/// four tabs.
pub proof fn law_kotlin_entry_points(spaces: Seq<char>, rest: Seq<char>, line: Seq<char>)
    requires
        forall|i: int| 0 <= i < spaces.len() ==> is_space(#[trigger] spaces[i]),
    ensures
        kotlin_main_line(
            spaces + seq!['f', 'u', 'n', ' ', 'm', 'a', 'i', 'n', '('] + rest,
        ) <==> encode_utf8(spaces).len() <= 4,
        (forall|i: int| 0 <= i < spaces.len() ==> #[trigger] spaces[i] == ' ') ==> encode_utf8(
            spaces,
        ).len() == spaces.len(),
        kotlin_main_line(line) ==> exists|i: int| #[trigger]
            occurs_at(line, "fun main("@, i) && forall|j: int|
                0 <= j < i ==> is_space(#[trigger] line[j]),
{
    reveal_strlit("fun main(");
    let mark = seq!['f', 'u', 'n', ' ', 'm', 'a', 'i', 'n', '('];
    assert("fun main("@ =~= mark);
    let s = spaces + mark + rest;
    let t = mark + rest;
    assert(s =~= spaces + t);
    lemma_spaces(spaces, t);
    assert(s.take(spaces.len() as int) =~= spaces);
    let from = law_trimming_takes_off_white_space(s);
    if from > spaces.len() {
        assert(s[spaces.len() as int] == 'f');
        assert(!is_space('f'));
    }
    assert(trim_start(s) == t);
    if from < spaces.len() {
        assert(s[from] == spaces[from]);
        if trim(s).len() > 0 {
            assert(trim(s)[0] == s[from]);
        } else {
            assert(s[spaces.len() as int] == 'f');
            assert(!is_space('f'));
        }
    }
    assert(from == spaces.len());
    if trim(s).len() < 9 {
        let k = from + 8;
        assert(s[k] == '(');
        assert(!is_space('('));
    }
    assert(trim(s).subrange(0, 9) =~= mark);
    if kotlin_main_line(line) {
        let f = law_trimming_takes_off_white_space(line);
        assert(trim(line).subrange(0, 9) =~= mark);
        assert(line.subrange(f, f + 9) =~= mark) by {
            assert forall|k: int| 0 <= k < 9 implies line.subrange(f, f + 9)[k] == mark[k] by {
                assert(trim(line).subrange(0, 9)[k] == trim(line)[k]);
                assert(trim(line)[k] == line[f + k]);
            }
        }
        assert(occurs_at(line, "fun main("@, f));
    }
}

proof fn lemma_spaces(spaces: Seq<char>, t: Seq<char>)
    requires
        forall|i: int| 0 <= i < spaces.len() ==> is_space(#[trigger] spaces[i]),
        t.len() > 0,
        !is_space(t[0]),
    ensures
        trim_start(spaces + t) == t,
        (forall|i: int| 0 <= i < spaces.len() ==> #[trigger] spaces[i] == ' ') ==> encode_utf8(
            spaces,
        ).len() == spaces.len(),
    decreases spaces.len(),
{
    if forall|i: int| 0 <= i < spaces.len() ==> #[trigger] spaces[i] == ' ' {
        assert(vstd::utf8::is_ascii_chars(spaces));
        vstd::utf8::is_ascii_chars_encode_utf8(spaces);
    }
    if spaces.len() == 0 {
        assert(spaces + t =~= t);
    } else {
        let less = spaces.drop_first();
        assert forall|i: int| 0 <= i < less.len() implies is_space(#[trigger] less[i]) by {
            assert(less[i] == spaces[i + 1]);
        }
        lemma_spaces(less, t);
        assert(is_space(spaces[0]));
        assert((spaces + t)[0] == spaces[0]);
        assert((spaces + t).drop_first() =~= less + t);
    }
}

/// Where a file stands below its source root by no name at all, or outside of it, it has no class
/// name.
pub proof fn law_only_files_below_the_root_have_class_names(root: Seq<char>, file: Seq<char>)
    ensures
        fqn(root, file) is Some <==> exists|rel: Seq<Seq<char>>|
            rel.len() > 0 && parts(file) == #[trigger] (parts(root) + rel),
{
    match within(root, file) {
        None => {
            assert forall|rel: Seq<Seq<char>>|
                rel.len() > 0 implies parts(file) != #[trigger] (parts(root) + rel) by {
                law_paths_within_go_on(root, file, rel);
            }
        },
        Some(rel) => {
            law_paths_within_go_on(root, file, rel);
            assert(parts(file) == parts(root) + rel);
        },
    }
}

/// The class name of any file below the source root is the directories on the way and the file's
/// name up to its extension, with dots between them.
pub proof fn law_class_names_follow_the_directories(
    root: Seq<char>,
    dirs: Seq<Seq<char>>,
    name: Seq<char>,
    file: Seq<char>,
)
    requires
        parts(file) == parts(root) + dirs.push(name),
        name != seq!['/'],
        name != seq!['.'],
        name != seq!['.', '.'],
        stem(name) != seq!['.'],
    ensures
        fqn(root, file) == Some(each_with_dot(dirs).flatten() + stem(name)),
{
    reveal_strlit(".");
    reveal_strlit("..");
    reveal_strlit("/");
    assert("."@ =~= seq!['.']);
    assert(".."@ =~= seq!['.', '.']);
    assert("/"@ =~= seq!['/']);
    let rel = dirs.push(name);
    law_paths_within_go_on(root, file, rel);
    assert(rel.last() == name);
    assert(rel.drop_last() =~= dirs);
    lemma_dotted(dirs, stem(name));
}

} // verus!
