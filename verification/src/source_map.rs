//! Which source file a class was compiled from, and which classes a source file gave.

use vstd::prelude::*;
use crate::class_file::{class_info, parse_class_info};
use crate::files::{file_text, text_of, Entry, Tree};
use crate::path::{
    extension, file_name, join_path, joined, parts, path_extension, path_file_name, same_rows,
    split_path,
};
use crate::text::{
    char_is_space, chars_of, first_index, has_prefix, has_text, index_of, is_space, last_index,
    last_index_of, lemma_index_of, lemma_last_index_of, lines, list_has, next_index, rows,
    same_chars, same_text, slice_of, split_lines, starts_with, string_of, texts, trim, trimmed,
};

verus! {

// ---------------------------------------------------------------------------
// The map
// ---------------------------------------------------------------------------

/// What has been put into a map: each class with its source file, in order.
pub type Log = Seq<(Seq<char>, Seq<char>)>;

/// The source file that a class was last put in with.
pub open spec fn source_of(log: Log, class: Seq<char>) -> Option<Seq<char>>
    decreases log.len(),
{
    if log.len() == 0 {
        None
    } else if log.last().0 == class {
        Some(log.last().1)
    } else {
        source_of(log.drop_last(), class)
    }
}

/// `list` without `class`.
pub open spec fn without(list: Seq<Seq<char>>, class: Seq<char>) -> Seq<Seq<char>>
    decreases list.len(),
{
    if list.len() == 0 {
        seq![]
    } else if list.last() == class {
        without(list.drop_last(), class)
    } else {
        without(list.drop_last(), class).push(list.last())
    }
}

/// The classes whose source file now is the one whose path has the parts `p`, in the order in
/// which they were last put in.
pub open spec fn classes_of(log: Log, p: Seq<Seq<char>>) -> Seq<Seq<char>>
    decreases log.len(),
{
    if log.len() == 0 {
        seq![]
    } else if parts(log.last().1) == p {
        without(classes_of(log.drop_last(), p), log.last().0).push(log.last().0)
    } else {
        without(classes_of(log.drop_last(), p), log.last().0)
    }
}

/// The classes of one source file.
struct Group {
    parts: Vec<Vec<char>>,
    classes: Vec<String>,
}

/// A map in both directions between binary class names and source files.
pub struct SourceMap {
    by_class: Vec<(String, String)>,
    by_source: Vec<Group>,
}

spec fn logged(v: Seq<(String, String)>) -> Log {
    v.map_values(|e: (String, String)| (e.0@, e.1@))
}

impl View for SourceMap {
    type V = Log;

    closed spec fn view(&self) -> Log {
        logged(self.by_class@)
    }
}

proof fn lemma_classes_of_none(log: Log, p: Seq<Seq<char>>)
    requires
        forall|i: int| 0 <= i < log.len() ==> parts(#[trigger] log[i].1) != p,
    ensures
        classes_of(log, p) == Seq::<Seq<char>>::empty(),
    decreases log.len(),
{
    if log.len() > 0 {
        assert(log.last() == log[log.len() - 1]);
        assert(parts(log[log.len() - 1].1) != p);
        let t = log.drop_last();
        assert forall|i: int| 0 <= i < t.len() implies parts(#[trigger] t[i].1) != p by {
            assert(t[i] == log[i]);
        }
        lemma_classes_of_none(t, p);
    }
}

proof fn lemma_without(list: Seq<Seq<char>>, class: Seq<char>)
    ensures
        forall|c: Seq<char>| #[trigger]
            without(list, class).contains(c) <==> list.contains(c) && c != class,
        list.no_duplicates() ==> without(list, class).no_duplicates(),
    decreases list.len(),
{
    if list.len() > 0 {
        let less = list.drop_last();
        let kept = without(less, class);
        lemma_without(less, class);
        assert forall|c: Seq<char>| #[trigger] without(list, class).contains(c) <==> list.contains(c)
            && c != class by {
            if list.contains(c) && c != list.last() {
                let i = choose|i: int| 0 <= i < list.len() && list[i] == c;
                assert(less[i] == c);
            }
            if less.contains(c) {
                let i = choose|i: int| 0 <= i < less.len() && less[i] == c;
                assert(list[i] == c);
            }
            if list.last() != class {
                lemma_contains_push(kept, list.last(), c);
            }
            assert(list[list.len() - 1] == list.last());
        }
        if list.no_duplicates() {
            assert forall|i: int, j: int| 0 <= i < less.len() && 0 <= j < less.len() && i
                != j implies less[i] != less[j] by {
                assert(less[i] == list[i] && less[j] == list[j]);
            }
            assert(!less.contains(list.last())) by {
                if less.contains(list.last()) {
                    let i = choose|i: int| 0 <= i < less.len() && less[i] == list.last();
                    assert(list[i] == list[list.len() - 1]);
                }
            }
            if list.last() != class {
                lemma_push_no_duplicates(kept, list.last());
            }
        }
    }
}

proof fn lemma_contains_push(list: Seq<Seq<char>>, a: Seq<char>, c: Seq<char>)
    ensures
        list.push(a).contains(c) <==> list.contains(c) || c == a,
{
    if list.contains(c) {
        let i = choose|i: int| 0 <= i < list.len() && list[i] == c;
        assert(list.push(a)[i] == c);
    }
    if c == a {
        assert(list.push(a)[list.len() as int] == c);
    }
    if list.push(a).contains(c) && c != a {
        let i = choose|i: int| 0 <= i < list.push(a).len() && list.push(a)[i] == c;
        assert(list[i] == c);
    }
}

proof fn lemma_push_no_duplicates(list: Seq<Seq<char>>, a: Seq<char>)
    requires
        list.no_duplicates(),
        !list.contains(a),
    ensures
        list.push(a).no_duplicates(),
{
    let more = list.push(a);
    assert forall|i: int, j: int| 0 <= i < more.len() && 0 <= j < more.len() && i != j implies more[i]
        != more[j] by {
        if i < list.len() {
            assert(list.contains(list[i]));
        }
        if j < list.len() {
            assert(list.contains(list[j]));
        }
    }
}

proof fn lemma_without_absent(list: Seq<Seq<char>>, class: Seq<char>)
    requires
        forall|i: int| 0 <= i < list.len() ==> #[trigger] list[i] != class,
    ensures
        without(list, class) == list,
    decreases list.len(),
{
    if list.len() > 0 {
        let less = list.drop_last();
        assert(list[list.len() - 1] != class);
        assert forall|i: int| 0 <= i < less.len() implies #[trigger] less[i] != class by {
            assert(less[i] == list[i]);
        }
        lemma_without_absent(less, class);
        assert(less.push(list.last()) =~= list);
    }
}

/// The two directions undo each other: a class is among the classes of a source file just where
/// it maps to that file.
pub proof fn law_directions_are_inverse(log: Log, source: Seq<char>, class: Seq<char>)
    ensures
        classes_of(log, parts(source)).contains(class) <==> (source_of(log, class) matches Some(s)
            && parts(s) == parts(source)),
    decreases log.len(),
{
    if log.len() > 0 {
        let p = parts(source);
        let before = classes_of(log.drop_last(), p);
        law_directions_are_inverse(log.drop_last(), source, class);
        lemma_without(before, log.last().0);
        lemma_contains_push(without(before, log.last().0), log.last().0, class);
        assert(without(before, log.last().0).contains(class) <==> before.contains(class) && class
            != log.last().0);
    }
}

/// A class is among the classes of the source file that it maps to.
pub proof fn law_class_is_among_its_sources_classes(log: Log, class: Seq<char>)
    ensures
        source_of(log, class) matches Some(source) ==> classes_of(log, parts(source)).contains(
            class,
        ),
{
    match source_of(log, class) {
        None => {},
        Some(source) => law_directions_are_inverse(log, source, class),
    }
}

/// A class that is among the classes of a source file was put in with it.
pub proof fn law_classes_of_source_were_put_in(log: Log, p: Seq<Seq<char>>, class: Seq<char>)
    requires
        classes_of(log, p).contains(class),
    ensures
        exists|i: int| 0 <= i < log.len() && (#[trigger] log[i]).0 == class && parts(log[i].1) == p,
    decreases log.len(),
{
    if log.len() > 0 {
        let t = log.drop_last();
        if parts(log.last().1) == p && log.last().0 == class {
            assert(log[log.len() - 1].0 == class);
        } else {
            let before = classes_of(t, p);
            lemma_without(before, log.last().0);
            lemma_contains_push(without(before, log.last().0), log.last().0, class);
            assert(without(before, log.last().0).contains(class));
            law_classes_of_source_were_put_in(t, p, class);
            let i = choose|i: int|
                0 <= i < t.len() && (#[trigger] t[i]).0 == class && parts(t[i].1) == p;
            assert(log[i] == t[i]);
        }
    }
}

/// No class is listed twice for a source file.
pub proof fn law_classes_of_source_are_distinct(log: Log, p: Seq<Seq<char>>)
    ensures
        classes_of(log, p).no_duplicates(),
    decreases log.len(),
{
    if log.len() > 0 {
        let before = classes_of(log.drop_last(), p);
        let kept = without(before, log.last().0);
        law_classes_of_source_are_distinct(log.drop_last(), p);
        lemma_without(before, log.last().0);
        if parts(log.last().1) == p {
            assert(!kept.contains(log.last().0));
            lemma_push_no_duplicates(kept, log.last().0);
        }
    }
}

impl SourceMap {
    /// The groups are the classes by their source files.
    pub closed spec fn wf(&self) -> bool {
        let log = self@;
        let groups = self.by_source@;
        &&& forall|k: int|
            0 <= k < groups.len() ==> texts((#[trigger] groups[k]).classes@) == classes_of(
                log,
                rows(groups[k].parts@),
            )
        &&& forall|j: int, k: int|
            0 <= j < k < groups.len() ==> rows((#[trigger] groups[j]).parts@) != rows(
                (#[trigger] groups[k]).parts@,
            )
        &&& forall|i: int|
            0 <= i < log.len() ==> exists|k: int|
                0 <= k < groups.len() && rows((#[trigger] groups[k]).parts@) == parts(
                    (#[trigger] log[i]).1,
                )
    }

    /// A map with nothing in it.
    pub fn new() -> (m: SourceMap)
        ensures
            m.wf(),
            m@ == Log::empty(),
    {
        let m = SourceMap { by_class: Vec::new(), by_source: Vec::new() };
        assert(m@ =~= Log::empty());
        m
    }

    /// The source file of a binary class name (e.g. `"com/example/Main"`).
    pub fn source_for_class(&self, class_name: &str) -> (r: Option<&str>)
        ensures
            match source_of(self@, class_name@) {
                None => r is None,
                Some(s) => r matches Some(t) && t@ == s,
            },
    {
        let mut n: usize = self.by_class.len();
        let ghost log = self@;
        assert(log.take(n as int) =~= log);
        while n > 0
            invariant
                n <= self.by_class@.len(),
                log == logged(self.by_class@),
                source_of(log, class_name@) == source_of(log.take(n as int), class_name@),
            decreases n,
        {
            assert(log.take(n as int).last() == log[n - 1]);
            assert(log.take(n as int).drop_last() =~= log.take(n - 1));
            n -= 1;
            let entry = &self.by_class[n];
            if same_text(entry.0.as_str(), class_name) {
                return Some(entry.1.as_str());
            }
        }
        None
    }

    /// The index of the group with the given parts.
    fn group_of(&self, p: &Vec<Vec<char>>) -> (r: Option<usize>)
        ensures
            match r {
                Some(k) => k < self.by_source@.len() && rows(self.by_source@[k as int].parts@)
                    == rows(p@),
                None => forall|k: int|
                    0 <= k < self.by_source@.len() ==> rows(
                        (#[trigger] self.by_source@[k]).parts@,
                    ) != rows(p@),
            },
    {
        let mut k: usize = 0;
        while k < self.by_source.len()
            invariant
                k <= self.by_source@.len(),
                forall|j: int|
                    0 <= j < k ==> rows((#[trigger] self.by_source@[j]).parts@) != rows(p@),
            decreases self.by_source@.len() - k,
        {
            let q = &self.by_source[k].parts;
            if q.len() == p.len() && same_rows(q.as_slice(), p.as_slice(), p.len()) {
                assert(rows(q@).take(p@.len() as int) =~= rows(q@));
                assert(rows(p@).take(p@.len() as int) =~= rows(p@));
                return Some(k);
            }
            proof {
                if q@.len() == p@.len() {
                    assert(rows(q@).take(p@.len() as int) =~= rows(q@));
                    assert(rows(p@).take(p@.len() as int) =~= rows(p@));
                } else {
                    assert(rows(q@).len() != rows(p@).len());
                }
            }
            k += 1;
        }
        None
    }

    /// All binary class names that share the given source file.
    pub fn classes_for_source(&self, source: &str) -> (r: &[String])
        requires
            self.wf(),
        ensures
            texts(r@) == classes_of(self@, parts(source@)),
    {
        let p = split_path(source);
        match self.group_of(&p) {
            Some(k) => self.by_source[k].classes.as_slice(),
            None => {
                proof {
                    let log = self@;
                    assert forall|i: int| 0 <= i < log.len() implies parts(#[trigger] log[i].1)
                        != rows(p@) by {
                        assert(log[i].1 == log[i].1);
                        let k = choose|k: int|
                            0 <= k < self.by_source@.len() && rows(
                                (#[trigger] self.by_source@[k]).parts@,
                            ) == parts((#[trigger] log[i]).1);
                        assert(rows(self.by_source@[k].parts@) != rows(p@));
                    }
                    lemma_classes_of_none(log, rows(p@));
                }
                let r: &[String] = &[];
                assert(texts(r@) =~= Seq::<Seq<char>>::empty());
                r
            },
        }
    }

    pub fn is_empty(&self) -> (r: bool)
        ensures
            r == (self@.len() == 0),
    {
        self.by_class.len() == 0
    }

    /// Takes a class out of all groups.
    fn take_out(&mut self, class_name: &str)
        ensures
            final(self).by_class == old(self).by_class,
            final(self).by_source@.len() == old(self).by_source@.len(),
            forall|k: int|
                0 <= k < final(self).by_source@.len() ==> (#[trigger] final(self).by_source@[k]).parts
                    == old(self).by_source@[k].parts && texts(final(self).by_source@[k].classes@)
                    == without(texts(old(self).by_source@[k].classes@), class_name@),
    {
        let ghost before = self.by_source@;
        let mut k: usize = 0;
        while k < self.by_source.len()
            invariant
                k <= self.by_source@.len() == before.len(),
                self.by_class == old(self).by_class,
                forall|j: int|
                    0 <= j < k ==> (#[trigger] self.by_source@[j]).parts == before[j].parts && texts(
                        self.by_source@[j].classes@,
                    ) == without(texts(before[j].classes@), class_name@),
                forall|j: int| k <= j < before.len() ==> #[trigger] self.by_source@[j] == before[j],
            decreases before.len() - k,
        {
            remove_text(&mut self.by_source[k].classes, class_name);
            k += 1;
        }
    }

    /// Puts a class in with its source file, which takes the place of the one that it had.
    pub fn insert(&mut self, class_name: String, source: String)
        requires
            old(self).wf(),
        ensures
            final(self).wf(),
            final(self)@ == old(self)@.push((class_name@, source@)),
    {
        let ghost log = self@;
        let ghost groups = self.by_source@;
        let ghost name = class_name@;
        let p = split_path(source.as_str());
        let ghost pv = rows(p@);
        let ghost mut at: int = groups.len() as int;
        self.take_out(class_name.as_str());
        let ghost bare = self.by_source@;
        match self.group_of(&p) {
            Some(k) => {
                proof {
                    at = k as int;
                }
                self.by_source[k].classes.push(class_name.clone());
            },
            None => {
                proof {
                    assert forall|i: int| 0 <= i < log.len() implies parts(#[trigger] log[i].1)
                        != pv by {
                        let k = choose|k: int|
                            0 <= k < groups.len() && rows((#[trigger] groups[k]).parts@) == parts(
                                (#[trigger] log[i]).1,
                            );
                        assert(rows(bare[k].parts@) != pv);
                    }
                    lemma_classes_of_none(log, pv);
                }
                let mut classes: Vec<String> = Vec::new();
                classes.push(class_name.clone());
                self.by_source.push(Group { parts: p, classes });
            },
        }
        self.by_class.push((class_name, source));
        proof {
            let now = self@;
            let after = self.by_source@;
            assert(now =~= log.push((name, source@)));
            assert(now.drop_last() =~= log);
            assert forall|k: int| 0 <= k < after.len() implies texts(
                (#[trigger] after[k]).classes@,
            ) == classes_of(now, rows(after[k].parts@)) by {
                if k < groups.len() {
                    assert(bare[k].parts == groups[k].parts);
                    assert(rows(after[k].parts@) == rows(groups[k].parts@));
                    if rows(groups[k].parts@) == pv {
                        assert(texts(after[k].classes@) =~= texts(bare[k].classes@).push(name));
                    } else {
                        assert(after[k].classes@ == bare[k].classes@);
                    }
                } else {
                    assert(texts(after[k].classes@) =~= seq![name]);
                    assert(without(classes_of(log, pv), name).push(name) =~= seq![name]);
                }
            }
            assert forall|j: int, k: int| 0 <= j < k < after.len() implies rows(
                (#[trigger] after[j]).parts@,
            ) != rows((#[trigger] after[k]).parts@) by {
                assert(bare[j].parts == groups[j].parts);
                if k < groups.len() {
                    assert(bare[k].parts == groups[k].parts);
                }
            }
            assert forall|i: int| 0 <= i < now.len() implies exists|k: int|
                0 <= k < after.len() && rows((#[trigger] after[k]).parts@) == parts(
                    (#[trigger] now[i]).1,
                ) by {
                if i < log.len() {
                    assert(now[i] == log[i]);
                    let k = choose|k: int|
                        0 <= k < groups.len() && rows((#[trigger] groups[k]).parts@) == parts(
                            (#[trigger] log[i]).1,
                        );
                    assert(bare[k].parts == groups[k].parts);
                    assert(rows(after[k].parts@) == parts(now[i].1));
                } else {
                    assert(rows(after[at].parts@) == parts(now[i].1));
                }
            }
        }
    }
}

/// Takes a text out of a list.
fn remove_text(list: &mut Vec<String>, s: &str)
    ensures
        texts(final(list)@) == without(texts(old(list)@), s@),
{
    let ghost want = without(texts(list@), s@);
    let mut i: usize = 0;
    while i < list.len()
        invariant
            i <= list@.len(),
            want == without(texts(list@), s@),
            forall|j: int| 0 <= j < i ==> #[trigger] texts(list@)[j] != s@,
        decreases list@.len() - i,
    {
        let ghost before = texts(list@);
        if same_text(list[i].as_str(), s) {
            list.remove(i);
            proof {
                lemma_without_remove(before, i as int);
                assert(texts(list@) =~= before.remove(i as int));
            }
        } else {
            i += 1;
        }
    }
    proof {
        lemma_without_absent(texts(list@), s@);
    }
}

proof fn lemma_without_remove(list: Seq<Seq<char>>, i: int)
    requires
        0 <= i < list.len(),
    ensures
        without(list.remove(i), list[i]) == without(list, list[i]),
    decreases list.len(),
{
    if i < list.len() - 1 {
        let less = list.drop_last();
        lemma_without_remove(less, i);
        assert(list.remove(i).drop_last() =~= less.remove(i));
        assert(list.remove(i).last() == list.last());
    } else {
        assert(list.remove(i) =~= list.drop_last());
    }
}

// ---------------------------------------------------------------------------
// From a class name to a source file
// ---------------------------------------------------------------------------

/// The name of the class that a class is declared in, or its own where it is not inside one:
/// what stands before the first `$`.
pub open spec fn outermost(class_name: Seq<char>) -> Seq<char> {
    class_name.take(index_of(class_name, '$'))
}

/// The directory of a class's package: what stands before the last `/`.
pub open spec fn package_dir(class_name: Seq<char>) -> Seq<char> {
    if last_index_of(class_name, '/') < 0 {
        seq![]
    } else {
        class_name.take(last_index_of(class_name, '/'))
    }
}

/// A package as a declaration writes it, with dots.
pub open spec fn dotted(dir: Seq<char>) -> Seq<char> {
    dir.map_values(
        |c: char|
            if c == '/' {
                '.'
            } else {
                c
            },
    )
}

/// Where a Java file of the package `dir` stands below a source root.
pub open spec fn java_candidate(root: Seq<char>, dir: Seq<char>, source_file: Seq<char>) -> Seq<
    char,
> {
    if dir.len() == 0 {
        joined(root, source_file)
    } else {
        joined(joined(root, dir), source_file)
    }
}

/// The first source root's candidate that exists.
pub open spec fn java_source(
    roots: Seq<Tree>,
    dir: Seq<char>,
    source_file: Seq<char>,
    existing: Seq<String>,
) -> Option<Seq<char>>
    decreases roots.len(),
{
    if roots.len() == 0 {
        None
    } else if has_text(existing, java_candidate(roots[0].path@, dir, source_file)) {
        Some(java_candidate(roots[0].path@, dir, source_file))
    } else {
        java_source(roots.drop_first(), dir, source_file, existing)
    }
}

/// A line without its comments, each block comment a space, and whether a block comment is still
/// open at its end; `open` says whether one is at its start.
pub open spec fn uncommented(line: Seq<char>, open: bool) -> (Seq<char>, bool)
    decreases line.len(),
{
    if line.len() == 0 {
        (seq![], open)
    } else if open {
        if line.len() > 1 && line[0] == '*' && line[1] == '/' {
            uncommented(line.skip(2), false)
        } else {
            uncommented(line.skip(1), true)
        }
    } else if line.len() > 1 && line[0] == '/' && line[1] == '/' {
        (seq![], false)
    } else if line.len() > 1 && line[0] == '/' && line[1] == '*' {
        let rest = uncommented(line.skip(2), true);
        (seq![' '] + rest.0, rest.1)
    } else {
        let rest = uncommented(line.skip(1), false);
        (seq![line[0]] + rest.0, rest.1)
    }
}

/// Whether a line without its comments says nothing about packages: it is blank, or looks like a
/// line of a comment.
pub open spec fn is_silent(line: Seq<char>) -> bool {
    trim(line).len() == 0 || starts_with(trim(line), "*"@)
}

/// Whether a line without its comments declares a package.
pub open spec fn is_declaration(line: Seq<char>) -> bool {
    let t = trim(line);
    starts_with(t, "package"@) && t.len() > 7 && is_space(t[7])
}

/// The package that such a line declares, up to the semicolon where it has one.
pub open spec fn package_named(line: Seq<char>) -> Seq<char> {
    let t = trim(line).skip(8);
    trim(t.take(index_of(t, ';')))
}

/// The package that the first line with anything but comments declares; the default package,
/// which has no name, where it declares none. `open` says whether a block comment is open where
/// the lines start.
pub open spec fn declared_package(all: Seq<Seq<char>>, open: bool) -> Seq<char>
    decreases all.len(),
{
    if all.len() == 0 {
        seq![]
    } else {
        let (line, still_open) = uncommented(all[0], open);
        if is_silent(line) {
            declared_package(all.drop_first(), still_open)
        } else if is_declaration(line) {
            package_named(line)
        } else {
            seq![]
        }
    }
}

/// Whether a file declares the given package.
pub open spec fn declares(bytes: Result<Vec<u8>, String>, package: Seq<char>) -> bool {
    text_of(bytes) matches Ok(text) && declared_package(lines(text), false) == package
}

/// The first file among the entries of the directory `dir`, or below, that has the given name
/// and declares the given package.
pub open spec fn file_declaring(
    dir: Seq<char>,
    entries: Seq<Entry>,
    name: Seq<char>,
    package: Seq<char>,
) -> Option<Seq<char>>
    decreases entries,
{
    if entries.len() == 0 {
        None
    } else {
        match file_declaring(dir, entries.drop_last(), name, package) {
            Some(path) => Some(path),
            None => match entries.last() {
                Entry::File { name: own, bytes } => {
                    let path = joined(dir, own@);
                    if file_name(path) == Some(name) && declares(bytes, package) {
                        Some(path)
                    } else {
                        None
                    }
                },
                Entry::Dir { name: own, entries: below } => file_declaring(
                    joined(dir, own@),
                    below@,
                    name,
                    package,
                ),
            },
        }
    }
}

/// The first such file below any of the source roots.
pub open spec fn declaring_source(
    roots: Seq<Tree>,
    source_file: Seq<char>,
    package: Seq<char>,
) -> Option<Seq<char>>
    decreases roots.len(),
{
    if roots.len() == 0 {
        None
    } else {
        match file_declaring(roots[0].path@, roots[0].entries@, source_file, package) {
            Some(path) => Some(path),
            None => declaring_source(roots.drop_first(), source_file, package),
        }
    }
}

/// The source file of a class that was compiled from a file called `source_file`. A Java file
/// stands in the directory of its package. A Groovy or Kotlin file may stand anywhere, and is
/// told by the package that it declares.
pub open spec fn resolved(
    class_name: Seq<char>,
    source_file: Seq<char>,
    roots: Seq<Tree>,
    existing: Seq<String>,
) -> Option<Seq<char>> {
    let dir = package_dir(outermost(class_name));
    match extension(source_file) {
        None => None,
        Some(ext) => if ext == "java"@ {
            java_source(roots, dir, source_file, existing)
        } else if ext == "groovy"@ || ext == "kt"@ || ext == "kts"@ {
            declaring_source(roots, source_file, dotted(dir))
        } else {
            None
        },
    }
}

/// An inner or anonymous class has the source file that its outermost class would have.
pub proof fn law_inner_class_resolves_like_its_outermost(
    class_name: Seq<char>,
    source_file: Seq<char>,
    roots: Seq<Tree>,
    existing: Seq<String>,
)
    ensures
        resolved(class_name, source_file, roots, existing) == resolved(
            outermost(class_name),
            source_file,
            roots,
            existing,
        ),
{
    let outer = outermost(class_name);
    lemma_index_of(class_name, '$');
    lemma_index_of(outer, '$');
    let n = index_of(outer, '$');
    if n < outer.len() {
        assert(outer[n] == class_name[n]);
    }
    assert(outermost(outer) =~= outer);
}

/// Where a Java class's source file is found, it exists, and it is the candidate of one of the
/// source roots.
pub proof fn law_java_source_exists(
    roots: Seq<Tree>,
    dir: Seq<char>,
    source_file: Seq<char>,
    existing: Seq<String>,
)
    ensures
        java_source(roots, dir, source_file, existing) matches Some(path) ==> has_text(
            existing,
            path,
        ) && exists|i: int|
            0 <= i < roots.len() && path == java_candidate(
                (#[trigger] roots[i]).path@,
                dir,
                source_file,
            ),
    decreases roots.len(),
{
    if roots.len() > 0 {
        let rest = roots.drop_first();
        law_java_source_exists(rest, dir, source_file, existing);
        match java_source(roots, dir, source_file, existing) {
            None => {},
            Some(path) => {
                if path != java_candidate(roots[0].path@, dir, source_file) {
                    let i = choose|i: int|
                        0 <= i < rest.len() && path == java_candidate(
                            (#[trigger] rest[i]).path@,
                            dir,
                            source_file,
                        );
                    assert(roots[i + 1] == rest[i]);
                }
            },
        }
    }
}

/// Whether a file with the given content stands at `path`, in the directory `dir` with these
/// entries or below it.
pub open spec fn stands_in(
    dir: Seq<char>,
    entries: Seq<Entry>,
    path: Seq<char>,
    content: Result<Vec<u8>, String>,
) -> bool
    decreases entries,
{
    entries.len() > 0 && (stands_in(dir, entries.drop_last(), path, content)
        || match entries.last() {
        Entry::File { name, bytes } => path == joined(dir, name@) && bytes == content,
        Entry::Dir { name, entries: below } => stands_in(joined(dir, name@), below@, path, content),
    })
}

/// The content of the file that is found.
proof fn lemma_file_declaring(
    dir: Seq<char>,
    entries: Seq<Entry>,
    name: Seq<char>,
    package: Seq<char>,
) -> (content: Result<Vec<u8>, String>)
    requires
        file_declaring(dir, entries, name, package) is Some,
    ensures
        stands_in(dir, entries, file_declaring(dir, entries, name, package)->0, content),
        file_name(file_declaring(dir, entries, name, package)->0) == Some(name),
        declares(content, package),
    decreases entries,
{
    if file_declaring(dir, entries.drop_last(), name, package) is Some {
        lemma_file_declaring(dir, entries.drop_last(), name, package)
    } else {
        match entries.last() {
            Entry::File { name: own, bytes } => bytes,
            Entry::Dir { name: own, entries: below } => lemma_file_declaring(
                joined(dir, own@),
                below@,
                name,
                package,
            ),
        }
    }
}

/// Where the source file of a Groovy or Kotlin class is found, it stands below one of the source
/// roots, has the name that the class file gives, and declares the package of the class.
pub proof fn law_found_source_declares_the_package(
    roots: Seq<Tree>,
    source_file: Seq<char>,
    package: Seq<char>,
)
    ensures
        declaring_source(roots, source_file, package) matches Some(path) ==> file_name(path)
            == Some(source_file) && exists|i: int, content: Result<Vec<u8>, String>|
            0 <= i < roots.len() && #[trigger] stands_in(
                roots[i].path@,
                roots[i].entries@,
                path,
                content,
            ) && declares(content, package),
    decreases roots.len(),
{
    if roots.len() > 0 {
        let rest = roots.drop_first();
        let first = file_declaring(roots[0].path@, roots[0].entries@, source_file, package);
        if first is Some {
            let content = lemma_file_declaring(
                roots[0].path@,
                roots[0].entries@,
                source_file,
                package,
            );
            assert(stands_in(roots[0].path@, roots[0].entries@, first->0, content));
        } else {
            law_found_source_declares_the_package(rest, source_file, package);
            match declaring_source(rest, source_file, package) {
                None => {},
                Some(path) => {
                    let (i, content) = choose|i: int, content: Result<Vec<u8>, String>|
                        0 <= i < rest.len() && #[trigger] stands_in(
                            rest[i].path@,
                            rest[i].entries@,
                            path,
                            content,
                        ) && declares(content, package);
                    assert(roots[i + 1] == rest[i]);
                    assert(stands_in(
                        roots[i + 1].path@,
                        roots[i + 1].entries@,
                        path,
                        content,
                    ));
                },
            }
        }
    }
}

pub fn strip_inner_suffix(class_name: &[char]) -> (v: Vec<char>)
    ensures
        v@ == outermost(class_name@),
{
    let n = first_index(class_name, '$');
    let v = slice_of(class_name, 0, n);
    assert(v@ =~= outermost(class_name@));
    v
}

pub fn package_dir_of(class_name: &[char]) -> (v: Vec<char>)
    ensures
        v@ == package_dir(class_name@),
{
    proof {
        lemma_last_index_of(class_name@, '/');
    }
    let n: usize = match last_index(class_name, '/') {
        Some(n) => n,
        None => 0,
    };
    let v = slice_of(class_name, 0, n);
    assert(v@ =~= package_dir(class_name@));
    v
}

fn with_dots(dir: &[char]) -> (v: Vec<char>)
    ensures
        v@ == dotted(dir@),
{
    let mut v: Vec<char> = Vec::new();
    let mut i: usize = 0;
    while i < dir.len()
        invariant
            i <= dir@.len(),
            v@ == dotted(dir@).take(i as int),
        decreases dir@.len() - i,
    {
        let c = if dir[i] == '/' {
            '.'
        } else {
            dir[i]
        };
        v.push(c);
        i += 1;
        assert(v@ =~= dotted(dir@).take(i as int));
    }
    assert(v@ =~= dotted(dir@));
    v
}

/// Takes the comments out of a line.
fn strip_comments(line: &[char], open: bool) -> (r: (Vec<char>, bool))
    ensures
        (r.0@, r.1) == uncommented(line@, open),
{
    let ghost want = uncommented(line@, open);
    let mut out: Vec<char> = Vec::new();
    let mut inside = open;
    let mut i: usize = 0;
    assert(line@.skip(0) =~= line@);
    assert(out@ + want.0 =~= want.0);
    while i < line.len()
        invariant
            i <= line@.len(),
            want == uncommented(line@, open),
            want.0 == out@ + uncommented(line@.skip(i as int), inside).0,
            want.1 == uncommented(line@.skip(i as int), inside).1,
        decreases line@.len() - i,
    {
        let ghost rest = line@.skip(i as int);
        let ghost before = out@;
        let paired = i + 1 < line.len();
        proof {
            assert(rest[0] == line@[i as int]);
            if paired {
                assert(rest[1] == line@[i + 1]);
                assert(rest.skip(2) =~= line@.skip(i + 2));
            }
            assert(rest.skip(1) =~= line@.skip(i + 1));
        }
        if inside {
            if paired && line[i] == '*' && line[i + 1] == '/' {
                inside = false;
                i += 2;
            } else {
                i += 1;
            }
        } else if paired && line[i] == '/' && line[i + 1] == '/' {
            assert(out@ + Seq::<char>::empty() =~= out@);
            return (out, false);
        } else if paired && line[i] == '/' && line[i + 1] == '*' {
            out.push(' ');
            inside = true;
            i += 2;
            proof {
                let more = uncommented(line@.skip(i as int), true).0;
                assert(before + (seq![' '] + more) =~= out@ + more);
            }
        } else {
            out.push(line[i]);
            i += 1;
            proof {
                let more = uncommented(line@.skip(i as int), false).0;
                assert(before + (seq![line@[i - 1]] + more) =~= out@ + more);
            }
        }
    }
    assert(line@.skip(i as int) =~= seq![]);
    assert(out@ + Seq::<char>::empty() =~= out@);
    (out, inside)
}

/// What a trimmed line that declares a package names.
fn package_in(t: &[char]) -> (v: Vec<char>)
    requires
        t@.len() > 7,
    ensures
        v@ == trim(t@.skip(8).take(index_of(t@.skip(8), ';'))),
{
    let n = next_index(t, 8, ';');
    let name = slice_of(t, 8, n);
    assert(name@ =~= t@.skip(8).take(index_of(t@.skip(8), ';')));
    trimmed(name.as_slice())
}

fn package_of(text: &str) -> (v: Vec<char>)
    ensures
        v@ == declared_package(lines(text@), false),
{
    let all = split_lines(chars_of(text).as_slice());
    let ghost ls = lines(text@);
    let mut open = false;
    let mut i: usize = 0;
    assert(ls.skip(0) =~= ls);
    while i < all.len()
        invariant
            i <= all@.len(),
            rows(all@) == ls,
            declared_package(ls, false) == declared_package(ls.skip(i as int), open),
            ls == lines(text@),
        decreases all@.len() - i,
    {
        proof {
            assert(ls.skip(i as int)[0] == ls[i as int]);
            assert(ls[i as int] == all@[i as int]@);
            assert(ls.skip(i as int).drop_first() =~= ls.skip(i + 1));
            reveal_strlit("package");
        }
        let (line, still_open) = strip_comments(all[i].as_slice(), open);
        let t = trimmed(line.as_slice());
        if t.len() > 0 && !has_prefix(t.as_slice(), "*") {
            if t.len() > 7 && has_prefix(t.as_slice(), "package") && char_is_space(t[7]) {
                return package_in(t.as_slice());
            }
            let v: Vec<char> = Vec::new();
            assert(v@ =~= seq![]);
            return v;
        }
        open = still_open;
        i += 1;
    }
    let v: Vec<char> = Vec::new();
    assert(v@ =~= seq![]);
    v
}

pub fn file_package_matches(bytes: &Result<Vec<u8>, String>, expected: &[char]) -> (r: bool)
    ensures
        r == declares(*bytes, expected@),
{
    match file_text(bytes) {
        Err(_) => false,
        Ok(text) => {
            let package = package_of(text.as_str());
            same_chars(package.as_slice(), expected)
        },
    }
}

fn find_declaring(dir: &str, entries: &Vec<Entry>, name: &[char], package: &[char]) -> (r: Option<
    String,
>)
    ensures
        match file_declaring(dir@, entries@, name@, package@) {
            None => r is None,
            Some(path) => r matches Some(s) && s@ == path,
        },
    decreases entries,
{
    let mut i: usize = 0;
    assert(entries@.take(0) =~= seq![]);
    while i < entries.len()
        invariant
            i <= entries@.len(),
            file_declaring(dir@, entries@.take(i as int), name@, package@) is None,
        decreases entries@.len() - i,
    {
        proof {
            assert(entries@.take(i + 1).drop_last() =~= entries@.take(i as int));
            assert(entries@.take(i + 1).last() == entries@[i as int]);
            assert(decreases_to!(entries => entries@[i as int]));
        }
        let found = match &entries[i] {
            Entry::File { name: own, bytes } => {
                let path = join_path(dir, own.as_str());
                let named = match path_file_name(path.as_str()) {
                    Some(n) => same_chars(n.as_slice(), name),
                    None => false,
                };
                if named && file_package_matches(bytes, package) {
                    Some(path)
                } else {
                    None
                }
            },
            Entry::Dir { name: own, entries: below } => {
                let path = join_path(dir, own.as_str());
                find_declaring(path.as_str(), below, name, package)
            },
        };
        i += 1;
        if found.is_some() {
            proof {
                lemma_file_declaring_stays(dir@, entries@, name@, package@, i as int);
            }
            return found;
        }
    }
    assert(entries@.take(i as int) =~= entries@);
    None
}

/// What is found among the first entries is what is found among all.
proof fn lemma_file_declaring_stays(
    dir: Seq<char>,
    entries: Seq<Entry>,
    name: Seq<char>,
    package: Seq<char>,
    n: int,
)
    requires
        0 <= n <= entries.len(),
        file_declaring(dir, entries.take(n), name, package) is Some,
    ensures
        file_declaring(dir, entries, name, package) == file_declaring(
            dir,
            entries.take(n),
            name,
            package,
        ),
    decreases entries.len() - n,
{
    if n < entries.len() {
        assert(entries.take(n + 1).drop_last() =~= entries.take(n));
        lemma_file_declaring_stays(dir, entries, name, package, n + 1);
    } else {
        assert(entries.take(n) =~= entries);
    }
}

fn java_path(root: &str, dir: &str, source_file: &str) -> (s: String)
    ensures
        s@ == java_candidate(root@, dir@, source_file@),
{
    if chars_of(dir).len() == 0 {
        join_path(root, source_file)
    } else {
        let package = join_path(root, dir);
        join_path(package.as_str(), source_file)
    }
}

/// Finds the source file of a class. `existing` are the paths that exist, of those that
/// `paths_to_probe` names.
pub fn resolve_source(
    class_name: &str,
    source_file: &str,
    source_roots: &[Tree],
    existing: &[String],
) -> (r: Option<String>)
    ensures
        match resolved(class_name@, source_file@, source_roots@, existing@) {
            None => r is None,
            Some(path) => r matches Some(s) && s@ == path,
        },
{
    let ext = match path_extension(source_file) {
        None => {
            return None;
        },
        Some(ext) => ext,
    };
    let dir = package_dir_of(strip_inner_suffix(chars_of(class_name).as_slice()).as_slice());
    let ghost roots = source_roots@;
    assert(roots.skip(0) =~= roots);
    let mut i: usize = 0;
    if same_text(ext.as_str(), "java") {
        let package = string_of(dir.as_slice());
        while i < source_roots.len()
            invariant
                i <= roots.len(),
                roots == source_roots@,
                package@ == dir@,
                resolved(class_name@, source_file@, roots, existing@) == java_source(
                    roots,
                    dir@,
                    source_file@,
                    existing@,
                ),
                java_source(roots, dir@, source_file@, existing@) == java_source(
                    roots.skip(i as int),
                    dir@,
                    source_file@,
                    existing@,
                ),
            decreases roots.len() - i,
        {
            assert(roots.skip(i as int)[0] == roots[i as int]);
            assert(roots.skip(i as int).drop_first() =~= roots.skip(i + 1));
            let candidate = java_path(source_roots[i].path.as_str(), package.as_str(), source_file);
            if list_has(existing, candidate.as_str()) {
                return Some(candidate);
            }
            i += 1;
        }
        None
    } else if same_text(ext.as_str(), "groovy") || same_text(ext.as_str(), "kt") || same_text(
        ext.as_str(),
        "kts",
    ) {
        let name = chars_of(source_file);
        let package = with_dots(dir.as_slice());
        while i < source_roots.len()
            invariant
                i <= roots.len(),
                roots == source_roots@,
                name@ == source_file@,
                resolved(class_name@, source_file@, roots, existing@) == declaring_source(
                    roots,
                    source_file@,
                    package@,
                ),
                declaring_source(roots, source_file@, package@) == declaring_source(
                    roots.skip(i as int),
                    source_file@,
                    package@,
                ),
            decreases roots.len() - i,
        {
            assert(roots.skip(i as int)[0] == roots[i as int]);
            assert(roots.skip(i as int).drop_first() =~= roots.skip(i + 1));
            let root = &source_roots[i];
            match find_declaring(
                root.path.as_str(),
                &root.entries,
                name.as_slice(),
                package.as_slice(),
            ) {
                Some(path) => {
                    return Some(path);
                },
                None => {},
            }
            i += 1;
        }
        None
    } else {
        None
    }
}

// ---------------------------------------------------------------------------
// Building the map
// ---------------------------------------------------------------------------

/// A class together with the name of the file that it was compiled from.
struct CompiledClass {
    class_name: String,
    source_file: String,
}

spec fn compiled(v: Seq<CompiledClass>) -> Log {
    v.map_values(|c: CompiledClass| (c.class_name@, c.source_file@))
}

/// The class in the file at `path`, where that is a class file that names its source file.
pub open spec fn class_in_file(path: Seq<char>, bytes: Result<Vec<u8>, String>) -> Log {
    if extension(path) != Some("class"@) {
        seq![]
    } else {
        match bytes {
            Err(_) => seq![],
            Ok(b) => match class_info(b@) {
                Ok((name, Some(file))) => seq![(name, file)],
                _ => seq![],
            },
        }
    }
}

/// The classes among the entries of the directory `dir`, and below, in order.
pub open spec fn classes_in(dir: Seq<char>, entries: Seq<Entry>) -> Log
    decreases entries,
{
    if entries.len() == 0 {
        seq![]
    } else {
        classes_in(dir, entries.drop_last()) + match entries.last() {
            Entry::File { name, bytes } => class_in_file(joined(dir, name@), bytes),
            Entry::Dir { name, entries: below } => classes_in(joined(dir, name@), below@),
        }
    }
}

/// The classes below all directories of a class path, in order.
pub open spec fn classes_below(dirs: Seq<Tree>) -> Log
    decreases dirs.len(),
{
    if dirs.len() == 0 {
        seq![]
    } else {
        classes_below(dirs.drop_last()) + classes_in(dirs.last().path@, dirs.last().entries@)
    }
}

/// The classes whose source files can be found, each with its source file's path.
pub open spec fn resolved_log(classes: Log, roots: Seq<Tree>, existing: Seq<String>) -> Log
    decreases classes.len(),
{
    if classes.len() == 0 {
        seq![]
    } else {
        let before = resolved_log(classes.drop_last(), roots, existing);
        match resolved(classes.last().0, classes.last().1, roots, existing) {
            Some(path) => before.push((classes.last().0, path)),
            None => before,
        }
    }
}

proof fn lemma_not_resolved(
    classes: Log,
    roots: Seq<Tree>,
    existing: Seq<String>,
    class: Seq<char>,
)
    requires
        forall|k: int| 0 <= k < classes.len() ==> (#[trigger] classes[k]).0 != class,
    ensures
        source_of(resolved_log(classes, roots, existing), class) is None,
    decreases classes.len(),
{
    if classes.len() > 0 {
        let less = classes.drop_last();
        assert(classes[classes.len() - 1].0 != class);
        assert forall|k: int| 0 <= k < less.len() implies (#[trigger] less[k]).0 != class by {
            assert(less[k] == classes[k]);
        }
        lemma_not_resolved(less, roots, existing, class);
        lemma_one_more(classes, roots, existing);
    }
}

/// Dropping the last class undoes what it added.
proof fn lemma_one_more(classes: Log, roots: Seq<Tree>, existing: Seq<String>)
    requires
        classes.len() > 0,
    ensures
        resolved(classes.last().0, classes.last().1, roots, existing) is Some ==> resolved_log(
            classes,
            roots,
            existing,
        ).drop_last() == resolved_log(classes.drop_last(), roots, existing),
{
    let before = resolved_log(classes.drop_last(), roots, existing);
    match resolved(classes.last().0, classes.last().1, roots, existing) {
        None => {},
        Some(path) => {
            assert(before.push((classes.last().0, path)).drop_last() =~= before);
        },
    }
}

/// The map gives each class the source file that can be found for it, where no class is compiled
/// twice.
pub proof fn law_map_gives_what_is_found(
    classes: Log,
    roots: Seq<Tree>,
    existing: Seq<String>,
    i: int,
)
    requires
        0 <= i < classes.len(),
        forall|j: int, k: int|
            0 <= j < k < classes.len() ==> (#[trigger] classes[j]).0 != (#[trigger] classes[k]).0,
    ensures
        source_of(resolved_log(classes, roots, existing), classes[i].0) == resolved(
            classes[i].0,
            classes[i].1,
            roots,
            existing,
        ),
    decreases classes.len(),
{
    let less = classes.drop_last();
    lemma_one_more(classes, roots, existing);
    if i < classes.len() - 1 {
        assert(classes[i].0 != classes[classes.len() - 1].0);
        assert forall|j: int, k: int| 0 <= j < k < less.len() implies (#[trigger] less[j]).0 != (
        #[trigger] less[k]).0 by {
            assert(less[j] == classes[j] && less[k] == classes[k]);
        }
        assert(less[i] == classes[i]);
        law_map_gives_what_is_found(less, roots, existing, i);
    } else {
        assert forall|k: int| 0 <= k < less.len() implies (#[trigger] less[k]).0 != classes[i].0 by {
            assert(less[k] == classes[k]);
        }
        lemma_not_resolved(less, roots, existing, classes[i].0);
    }
}

/// An inner or anonymous class maps to the source file of the class that it is declared in, where
/// both name the same file and no class is compiled twice.
pub proof fn law_inner_class_maps_to_outer_source(
    classes: Log,
    roots: Seq<Tree>,
    existing: Seq<String>,
    outer: int,
    inner: int,
)
    requires
        0 <= outer < classes.len(),
        0 <= inner < classes.len(),
        forall|j: int, k: int|
            0 <= j < k < classes.len() ==> (#[trigger] classes[j]).0 != (#[trigger] classes[k]).0,
        outermost(classes[inner].0) == classes[outer].0,
        classes[inner].1 == classes[outer].1,
    ensures
        source_of(resolved_log(classes, roots, existing), classes[inner].0) == source_of(
            resolved_log(classes, roots, existing),
            classes[outer].0,
        ),
{
    law_map_gives_what_is_found(classes, roots, existing, outer);
    law_map_gives_what_is_found(classes, roots, existing, inner);
    law_inner_class_resolves_like_its_outermost(
        classes[inner].0,
        classes[inner].1,
        roots,
        existing,
    );
}

fn collect_from_file(path: &str, bytes: &Result<Vec<u8>, String>, out: &mut Vec<CompiledClass>)
    ensures
        compiled(final(out)@) == compiled(old(out)@) + class_in_file(path@, *bytes),
{
    let ghost before = compiled(out@);
    let is_class = match path_extension(path) {
        Some(ext) => same_text(ext.as_str(), "class"),
        None => false,
    };
    if is_class {
        match bytes {
            Ok(b) => match parse_class_info(b.as_slice()) {
                Ok((class_name, Some(source_file))) => {
                    let class = CompiledClass { class_name, source_file };
                    out.push(class);
                    assert(compiled(out@) =~= before + seq![
                        (class.class_name@, class.source_file@),
                    ]);
                    return;
                },
                _ => {},
            },
            Err(_) => {},
        }
    }
    assert(compiled(out@) =~= before + seq![]);
}

fn collect_from_dir(dir: &str, entries: &Vec<Entry>, out: &mut Vec<CompiledClass>)
    ensures
        compiled(final(out)@) == compiled(old(out)@) + classes_in(dir@, entries@),
    decreases entries,
{
    let ghost before = compiled(out@);
    let mut i: usize = 0;
    assert(entries@.take(0) =~= seq![]);
    assert(compiled(out@) =~= before + seq![]);
    while i < entries.len()
        invariant
            i <= entries@.len(),
            compiled(out@) == before + classes_in(dir@, entries@.take(i as int)),
        decreases entries@.len() - i,
    {
        proof {
            assert(entries@.take(i + 1).drop_last() =~= entries@.take(i as int));
            assert(entries@.take(i + 1).last() == entries@[i as int]);
            assert(decreases_to!(entries => entries@[i as int]));
        }
        match &entries[i] {
            Entry::File { name, bytes } => {
                let path = join_path(dir, name.as_str());
                collect_from_file(path.as_str(), bytes, out);
            },
            Entry::Dir { name, entries: below } => {
                let path = join_path(dir, name.as_str());
                collect_from_dir(path.as_str(), below, out);
            },
        }
        i += 1;
        assert(compiled(out@) =~= before + classes_in(dir@, entries@.take(i as int)));
    }
    assert(entries@.take(i as int) =~= entries@);
}

/// Reads all class files below the directories of a class path.
fn collect_classes(classpath_dirs: &[Tree]) -> (v: Vec<CompiledClass>)
    ensures
        compiled(v@) == classes_below(classpath_dirs@),
{
    let mut v: Vec<CompiledClass> = Vec::new();
    let mut i: usize = 0;
    assert(classpath_dirs@.take(0) =~= seq![]);
    assert(compiled(v@) =~= seq![]);
    while i < classpath_dirs.len()
        invariant
            i <= classpath_dirs@.len(),
            compiled(v@) == classes_below(classpath_dirs@.take(i as int)),
        decreases classpath_dirs@.len() - i,
    {
        assert(classpath_dirs@.take(i + 1).drop_last() =~= classpath_dirs@.take(i as int));
        let dir = &classpath_dirs[i];
        collect_from_dir(dir.path.as_str(), &dir.entries, &mut v);
        i += 1;
    }
    assert(classpath_dirs@.take(i as int) =~= classpath_dirs@);
    v
}

/// The paths whose existence decides where a class's source file is.
pub open spec fn candidates(class: (Seq<char>, Seq<char>), roots: Seq<Tree>) -> Seq<Seq<char>> {
    if extension(class.1) == Some("java"@) {
        roots.map_values(
            |root: Tree| java_candidate(root.path@, package_dir(outermost(class.0)), class.1),
        )
    } else {
        seq![]
    }
}

pub open spec fn all_candidates(classes: Log, roots: Seq<Tree>) -> Seq<Seq<char>>
    decreases classes.len(),
{
    if classes.len() == 0 {
        seq![]
    } else {
        all_candidates(classes.drop_last(), roots) + candidates(classes.last(), roots)
    }
}

fn push_candidates(class: &CompiledClass, source_roots: &[Tree], out: &mut Vec<String>)
    ensures
        texts(final(out)@) == texts(old(out)@) + candidates(
            (class.class_name@, class.source_file@),
            source_roots@,
        ),
{
    let ghost before = texts(out@);
    let ghost all = candidates((class.class_name@, class.source_file@), source_roots@);
    let is_java = match path_extension(class.source_file.as_str()) {
        Some(ext) => same_text(ext.as_str(), "java"),
        None => false,
    };
    if !is_java {
        assert(texts(out@) =~= before + all);
        return;
    }
    let name = chars_of(class.class_name.as_str());
    let dir = package_dir_of(strip_inner_suffix(name.as_slice()).as_slice());
    let package = string_of(dir.as_slice());
    let mut i: usize = 0;
    assert(texts(out@) =~= before + all.take(0));
    while i < source_roots.len()
        invariant
            i <= source_roots@.len() == all.len(),
            extension(class.source_file@) == Some("java"@),
            all == candidates((class.class_name@, class.source_file@), source_roots@),
            package@ == package_dir(outermost(class.class_name@)),
            texts(out@) == before + all.take(i as int),
        decreases source_roots@.len() - i,
    {
        let ghost so_far = texts(out@);
        let path = java_path(
            source_roots[i].path.as_str(),
            package.as_str(),
            class.source_file.as_str(),
        );
        assert(path@ == all[i as int]);
        out.push(path);
        i += 1;
        assert(texts(out@) =~= so_far.push(all[i - 1]));
        assert(texts(out@) =~= before + all.take(i as int));
    }
    assert(all.take(i as int) =~= all);
}

/// Names the paths whose existence `build_source_map` needs to know of.
pub fn paths_to_probe(classpath_dirs: &[Tree], source_roots: &[Tree]) -> (v: Vec<String>)
    ensures
        texts(v@) == all_candidates(classes_below(classpath_dirs@), source_roots@),
{
    let classes = collect_classes(classpath_dirs);
    let mut v: Vec<String> = Vec::new();
    let ghost all = compiled(classes@);
    let mut i: usize = 0;
    assert(all.take(0) =~= seq![]);
    assert(texts(v@) =~= seq![]);
    while i < classes.len()
        invariant
            i <= classes@.len(),
            all == compiled(classes@),
            texts(v@) == all_candidates(all.take(i as int), source_roots@),
        decreases classes@.len() - i,
    {
        assert(all.take(i + 1).drop_last() =~= all.take(i as int));
        assert(all.take(i + 1).last() == all[i as int]);
        push_candidates(&classes[i], source_roots, &mut v);
        i += 1;
    }
    assert(all.take(i as int) =~= all);
    v
}

/// Builds the map of the compiled classes below the directories of a class path and their
/// source files, as far as those can be found below the source roots. `existing` are the paths
/// that exist, of those that `paths_to_probe` names.
pub fn build_source_map(classpath_dirs: &[Tree], source_roots: &[Tree], existing: &[String]) -> (m:
    SourceMap)
    ensures
        m.wf(),
        m@ == resolved_log(classes_below(classpath_dirs@), source_roots@, existing@),
{
    let classes = collect_classes(classpath_dirs);
    let mut m = SourceMap::new();
    let ghost all = compiled(classes@);
    let mut i: usize = 0;
    assert(all.take(0) =~= seq![]);
    while i < classes.len()
        invariant
            i <= classes@.len(),
            all == compiled(classes@),
            m.wf(),
            m@ == resolved_log(all.take(i as int), source_roots@, existing@),
        decreases classes@.len() - i,
    {
        assert(all.take(i + 1).drop_last() =~= all.take(i as int));
        assert(all.take(i + 1).last() == all[i as int]);
        let class = &classes[i];
        match resolve_source(
            class.class_name.as_str(),
            class.source_file.as_str(),
            source_roots,
            existing,
        ) {
            Some(path) => {
                m.insert(class.class_name.clone(), path);
            },
            None => {},
        }
        i += 1;
    }
    assert(all.take(i as int) =~= all);
    m
}

} // verus!
