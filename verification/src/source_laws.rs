//! What holds of classes and the source files they come from.

use vstd::prelude::*;
use crate::class_file::class_info;
use crate::files::{text_of, Entry, Tree};
use crate::main_class::{
    each_with_dot, ends_comment, holds_entry_point, law_main_class_is_named_by_its_place,
    main_classes, mains_in, mains_in_file, MainClassView,
};
use crate::path::{
    extension, file_name, joined, law_joined_paths_go_on_below, law_slashes_part_names, names, parts,
};
use crate::source_map::{
    all_candidates, candidates, class_in_file, classes_below, classes_in, classes_of,
    declared_package, declares, declaring_source, dotted, file_declaring, java_candidate,
    java_source, outermost, package_dir, resolved, resolved_log, source_of, stands_in, uncommented,
    without, Log,
};
use crate::text::{
    has_text, index_of, is_space, last_index_of, lemma_index_of_unique, lemma_last_index_of, lines,
    trim,
};

verus! {

// ---------------------------------------------------------------------------
// The map
// ---------------------------------------------------------------------------

/// Once a class is put in with a source file, that is its source file, and it stands behind the
/// other classes of that file, and with no other file any more. No other class is moved.
pub proof fn law_a_class_goes_where_it_was_put_last(
    log: Log,
    class: Seq<char>,
    source: Seq<char>,
    other: Seq<char>,
    p: Seq<Seq<char>>,
)
    ensures
        source_of(log.push((class, source)), class) == Some(source),
        other != class ==> source_of(log.push((class, source)), other) == source_of(log, other),
        source_of(Seq::empty(), class) is None,
        classes_of(log.push((class, source)), p) == classes_of(log, p).filter(
            |c: Seq<char>| c != class,
        ) + if parts(source) == p {
            seq![class]
        } else {
            Seq::<Seq<char>>::empty()
        },
        classes_of(Seq::empty(), p).len() == 0,
{
    let all = log.push((class, source));
    assert(all.drop_last() =~= log);
    assert(all.last() == (class, source));
    lemma_without(classes_of(log, p), class);
    let kept = classes_of(log, p).filter(|c: Seq<char>| c != class);
    if parts(source) == p {
        assert(kept.push(class) =~= kept + seq![class]);
    } else {
        assert(kept =~= kept + Seq::<Seq<char>>::empty());
    }
}

proof fn lemma_without(list: Seq<Seq<char>>, class: Seq<char>)
    ensures
        without(list, class) == list.filter(|c: Seq<char>| c != class),
    decreases list.len(),
{
    reveal(Seq::filter);
    if list.len() > 0 {
        lemma_without(list.drop_last(), class);
    }
    assert(without(list, class) =~= list.filter(|c: Seq<char>| c != class));
}

// ---------------------------------------------------------------------------
// Where a source file stands
// ---------------------------------------------------------------------------

/// A class's outermost class is what stands before the first dollar sign; its package's directory
/// is what stands before the last slash; and a package is written with dots for the slashes.
pub proof fn law_class_names_are_taken_apart(a: Seq<char>, b: Seq<char>)
    ensures
        !a.contains('$') ==> outermost(a + seq!['$'] + b) == a && outermost(a) == a,
        !b.contains('/') ==> package_dir(a + seq!['/'] + b) == a && package_dir(b)
            == Seq::<char>::empty(),
        dotted(a).len() == a.len(),
        forall|i: int|
            0 <= i < a.len() ==> #[trigger] dotted(a)[i] == if a[i] == '/' {
                '.'
            } else {
                a[i]
            },
{
    if !a.contains('$') {
        let s = a + seq!['$'] + b;
        assert forall|i: int| 0 <= i < a.len() implies #[trigger] s[i] != '$' by {
            assert(s[i] == a[i]);
        }
        lemma_index_of_unique(s, '$', a.len() as int);
        assert(s.take(a.len() as int) =~= a);
        assert forall|i: int| 0 <= i < a.len() implies #[trigger] a[i] != '$' by {}
        lemma_index_of_unique(a, '$', a.len() as int);
        assert(a.take(a.len() as int) =~= a);
    }
    if !b.contains('/') {
        let s = a + seq!['/'] + b;
        lemma_last_index_of(s, '/');
        lemma_last_index_of(b, '/');
        let n = last_index_of(s, '/');
        let m = last_index_of(b, '/');
        assert(s[a.len() as int] == '/');
        if n > a.len() {
            assert(b[n - a.len() - 1] == '/');
        }
        if m >= 0 {
            assert(b[m] == '/');
        }
        assert(s.take(n) =~= a);
    }
}

/// A Java file of a package is looked for in the directory of the package below a source root.
pub proof fn law_java_files_stand_in_their_packages(
    root: Seq<char>,
    dir: Seq<char>,
    file: Seq<char>,
)
    requires
        root.len() > 0,
        dir.len() > 0 ==> dir[0] != '/',
        file.len() > 0,
        !file.contains('/'),
        file != seq!['.'],
    ensures
        parts(java_candidate(root, dir, file)) == parts(root) + names(dir) + seq![file],
{
    assert(file[0] != '/') by {
        assert(file.contains(file[0]));
    }
    law_slashes_part_names(file, seq![]);
    if dir.len() == 0 {
        law_joined_paths_go_on_below(root, file);
        law_slashes_part_names(dir, seq![]);
        assert(parts(root) + names(dir) + seq![file] =~= parts(root) + seq![file]);
    } else {
        law_joined_paths_go_on_below(root, dir);
        law_joined_paths_go_on_below(joined(root, dir), file);
    }
}

/// The source file of a Java class is the one of its package's directory below the first source
/// root that has it; and none is found only where no root has it.
pub proof fn law_the_first_root_that_has_the_file_counts(
    roots: Seq<Tree>,
    dir: Seq<char>,
    file: Seq<char>,
    existing: Seq<String>,
    i: int,
)
    requires
        0 <= i <= roots.len(),
        i < roots.len() ==> has_text(existing, java_candidate(roots[i].path@, dir, file)),
        forall|j: int|
            0 <= j < i ==> !has_text(
                existing,
                java_candidate((#[trigger] roots[j]).path@, dir, file),
            ),
    ensures
        java_source(roots, dir, file, existing) == if i < roots.len() {
            Some(java_candidate(roots[i].path@, dir, file))
        } else {
            None
        },
    decreases roots.len(),
{
    if i > 0 {
        let rest = roots.drop_first();
        assert(!has_text(existing, java_candidate(roots[0].path@, dir, file)));
        assert forall|j: int| 0 <= j < i - 1 implies !has_text(
            existing,
            java_candidate((#[trigger] rest[j]).path@, dir, file),
        ) by {
            assert(rest[j] == roots[j + 1]);
        }
        if i < roots.len() {
            assert(rest[i - 1] == roots[i]);
        }
        law_the_first_root_that_has_the_file_counts(rest, dir, file, existing, i - 1);
    }
}

/// A Groovy or Kotlin file of the name that declares the package is found wherever it stands below
/// a source root.
pub proof fn law_a_declaring_file_is_found(
    roots: Seq<Tree>,
    name: Seq<char>,
    package: Seq<char>,
    i: int,
    path: Seq<char>,
    content: Result<Vec<u8>, String>,
)
    requires
        0 <= i < roots.len(),
        stands_in(roots[i].path@, roots[i].entries@, path, content),
        file_name(path) == Some(name),
        declares(content, package),
    ensures
        declaring_source(roots, name, package) is Some,
        (forall|j: int|
            0 <= j < i ==> file_declaring(
                (#[trigger] roots[j]).path@,
                roots[j].entries@,
                name,
                package,
            ) is None) ==> declaring_source(roots, name, package) == file_declaring(
            roots[i].path@,
            roots[i].entries@,
            name,
            package,
        ),
    decreases roots.len(),
{
    if i == 0 {
        lemma_declaring_file(roots[0].path@, roots[0].entries@, name, package, path, content);
    } else {
        let rest = roots.drop_first();
        assert(rest[i - 1] == roots[i]);
        law_a_declaring_file_is_found(rest, name, package, i - 1, path, content);
        if forall|j: int|
            0 <= j < i ==> file_declaring(
                (#[trigger] roots[j]).path@,
                roots[j].entries@,
                name,
                package,
            ) is None {
            assert forall|j: int| 0 <= j < i - 1 implies file_declaring(
                (#[trigger] rest[j]).path@,
                rest[j].entries@,
                name,
                package,
            ) is None by {
                assert(rest[j] == roots[j + 1]);
            }
            assert(file_declaring(roots[0].path@, roots[0].entries@, name, package) is None);
        }
    }
}

proof fn lemma_declaring_file(
    dir: Seq<char>,
    entries: Seq<Entry>,
    name: Seq<char>,
    package: Seq<char>,
    path: Seq<char>,
    content: Result<Vec<u8>, String>,
)
    requires
        stands_in(dir, entries, path, content),
        file_name(path) == Some(name),
        declares(content, package),
    ensures
        file_declaring(dir, entries, name, package) is Some,
    decreases entries,
{
    if stands_in(dir, entries.drop_last(), path, content) {
        lemma_declaring_file(dir, entries.drop_last(), name, package, path, content);
    } else {
        match entries.last() {
            Entry::File { name: own, bytes } => {},
            Entry::Dir { name: own, entries: below } => {
                assert(decreases_to!(entries => entries[entries.len() - 1]));
                lemma_declaring_file(joined(dir, own@), below@, name, package, path, content);
            },
        }
    }
}

/// A class is looked for by the language of its source file: a Java file in its package's
/// directory; a Groovy or Kotlin file, or a Kotlin script, by the package that it declares; and
/// the file of any other language is not found.
pub proof fn law_sources_are_found_by_language(
    class: Seq<char>,
    file: Seq<char>,
    roots: Seq<Tree>,
    existing: Seq<String>,
)
    ensures
        extension(file) == Some(seq!['j', 'a', 'v', 'a']) ==> resolved(class, file, roots, existing)
            == java_source(roots, package_dir(outermost(class)), file, existing),
        extension(file) == Some(seq!['g', 'r', 'o', 'o', 'v', 'y']) || extension(file) == Some(
            seq!['k', 't'],
        ) || extension(file) == Some(seq!['k', 't', 's']) ==> resolved(class, file, roots, existing)
            == declaring_source(roots, file, dotted(package_dir(outermost(class)))),
        extension(file) is None || (extension(file)->0 != seq!['j', 'a', 'v', 'a'] && extension(
            file,
        )->0 != seq!['g', 'r', 'o', 'o', 'v', 'y'] && extension(file)->0 != seq!['k', 't']
            && extension(file)->0 != seq!['k', 't', 's']) ==> resolved(class, file, roots, existing)
            is None,
{
    reveal_strlit("java");
    reveal_strlit("groovy");
    reveal_strlit("kt");
    reveal_strlit("kts");
    assert("java"@ =~= seq!['j', 'a', 'v', 'a']);
    assert("groovy"@ =~= seq!['g', 'r', 'o', 'o', 'v', 'y']);
    assert("kt"@ =~= seq!['k', 't']);
    assert("kts"@ =~= seq!['k', 't', 's']);
}

/// The places of Java files that are looked at are all those below all source roots, for each
/// class in turn; other files have none.
pub proof fn law_all_places_of_java_files_are_looked_at(
    classes: Log,
    class: (Seq<char>, Seq<char>),
    roots: Seq<Tree>,
    i: int,
)
    ensures
        extension(class.1) == Some(seq!['j', 'a', 'v', 'a']) ==> candidates(class, roots).len()
            == roots.len(),
        extension(class.1) == Some(seq!['j', 'a', 'v', 'a']) && 0 <= i < roots.len() ==> candidates(
            class,
            roots,
        )[i] == java_candidate(roots[i].path@, package_dir(outermost(class.0)), class.1),
        extension(class.1) != Some(seq!['j', 'a', 'v', 'a']) ==> candidates(class, roots).len()
            == 0,
        all_candidates(classes, roots) == classes.map_values(
            |c: (Seq<char>, Seq<char>)| candidates(c, roots),
        ).flatten(),
    decreases classes.len(),
{
    reveal_strlit("java");
    assert("java"@ =~= seq!['j', 'a', 'v', 'a']);
    let lists = classes.map_values(|c: (Seq<char>, Seq<char>)| candidates(c, roots));
    if classes.len() > 0 {
        let less = classes.drop_last();
        law_all_places_of_java_files_are_looked_at(less, class, roots, i);
        let b = less.map_values(|c: (Seq<char>, Seq<char>)| candidates(c, roots));
        assert(lists =~= b.push(candidates(classes.last(), roots)));
        b.lemma_flatten_push(candidates(classes.last(), roots));
    } else {
        assert(lists =~= seq![]);
    }
}

/// The map gets all classes whose source files are found, in their order, each with the file that
/// is found; and no others.
pub proof fn law_all_classes_with_sources_are_mapped(
    classes: Log,
    roots: Seq<Tree>,
    existing: Seq<String>,
)
    ensures
        resolved_log(classes, roots, existing) == classes.filter(
            |c: (Seq<char>, Seq<char>)| resolved(c.0, c.1, roots, existing) is Some,
        ).map_values(
            |c: (Seq<char>, Seq<char>)| (c.0, resolved(c.0, c.1, roots, existing)->0),
        ),
    decreases classes.len(),
{
    reveal(Seq::filter);
    if classes.len() > 0 {
        law_all_classes_with_sources_are_mapped(classes.drop_last(), roots, existing);
    }
    assert(resolved_log(classes, roots, existing) =~= classes.filter(
        |c: (Seq<char>, Seq<char>)| resolved(c.0, c.1, roots, existing) is Some,
    ).map_values(|c: (Seq<char>, Seq<char>)| (c.0, resolved(c.0, c.1, roots, existing)->0)));
}

// ---------------------------------------------------------------------------
// The package that a file declares
// ---------------------------------------------------------------------------

/// Whether a comment starts at index `i`.
pub open spec fn starts_comment(s: Seq<char>, i: int) -> bool {
    s[i] == '/' && (s[i + 1] == '/' || s[i + 1] == '*')
}

/// Whether a text holds no comment, and none that starts where it ends.
pub open spec fn has_no_comment(s: Seq<char>) -> bool {
    &&& s.len() > 0 ==> s.last() != '/'
    &&& forall|i: int| 0 <= i < s.len() - 1 ==> !starts_comment(s, i)
}

/// A line in which no comment starts has none.
pub proof fn law_lines_without_comments_stay(line: Seq<char>)
    requires
        forall|i: int| 0 <= i < line.len() - 1 ==> !starts_comment(line, i),
    ensures
        uncommented(line, false) == (line, false),
    decreases line.len(),
{
    if line.len() > 0 {
        let rest = line.skip(1);
        assert forall|i: int| 0 <= i < rest.len() - 1 implies !starts_comment(rest, i) by {
            assert(!starts_comment(line, i + 1));
        }
        if line.len() > 1 {
            assert(!starts_comment(line, 0));
        }
        law_lines_without_comments_stay(rest);
        assert(seq![line[0]] + rest =~= line);
    }
}

/// A comment goes from two slashes to the end of the line, and from a slash and an asterisk to an
/// asterisk and a slash, be it on another line. What stands outside of comments is kept, with a
/// space for each block comment.
pub proof fn law_comments_are_taken_out(before: Seq<char>, comment: Seq<char>, rest: Seq<char>)
    requires
        has_no_comment(before),
        forall|i: int| 0 <= i < comment.len() - 1 ==> !ends_comment(comment, i),
    ensures
        uncommented(before + seq!['/', '/'] + rest, false) == (before, false),
        uncommented(before + seq!['/', '*'] + comment, false) == (before.push(' '), true),
        uncommented(comment, true) == (Seq::<char>::empty(), true),
        uncommented(comment + seq!['*', '/'] + rest, true) == uncommented(rest, false),
        uncommented(before + seq!['/', '*'] + comment + seq!['*', '/'] + rest, false) == (
            before.push(' ') + uncommented(rest, false).0,
            uncommented(rest, false).1,
        ),
    decreases before.len() + comment.len(),
{
    lemma_open_comment(comment, rest);
    let a = before + seq!['/', '/'] + rest;
    let b = before + seq!['/', '*'] + comment;
    let c = before + seq!['/', '*'] + comment + seq!['*', '/'] + rest;
    if before.len() == 0 {
        assert(a[0] == '/' && a[1] == '/');
        assert(uncommented(a, false) == (Seq::<char>::empty(), false));
        assert(before =~= Seq::<char>::empty());
        assert(b[0] == '/' && b[1] == '*');
        assert(b.skip(2) =~= comment);
        assert(seq![' '] + Seq::<char>::empty() =~= before.push(' '));
        assert(c[0] == '/' && c[1] == '*');
        assert(c.skip(2) =~= comment + seq!['*', '/'] + rest);
        assert(seq![' '] + uncommented(rest, false).0 =~= before.push(' ') + uncommented(
            rest,
            false,
        ).0);
    } else {
        let less = before.skip(1);
        assert(has_no_comment(less)) by {
            if less.len() > 0 {
                assert(less.last() == before.last());
            }
            assert forall|i: int| 0 <= i < less.len() - 1 implies !starts_comment(less, i) by {
                assert(!starts_comment(before, i + 1));
            }
        }
        law_comments_are_taken_out(less, comment, rest);
        assert(a[0] == before[0] && b[0] == before[0] && c[0] == before[0]);
        if before.len() > 1 {
            assert(!starts_comment(before, 0));
            assert(a[1] == before[1] && b[1] == before[1] && c[1] == before[1]);
        } else {
            assert(before.last() == before[0]);
        }
        assert(a.skip(1) =~= less + seq!['/', '/'] + rest);
        assert(b.skip(1) =~= less + seq!['/', '*'] + comment);
        assert(c.skip(1) =~= less + seq!['/', '*'] + comment + seq!['*', '/'] + rest);
        assert(seq![before[0]] + less =~= before);
        assert(seq![before[0]] + less.push(' ') =~= before.push(' '));
        assert(seq![before[0]] + (less.push(' ') + uncommented(rest, false).0) =~= before.push(' ')
            + uncommented(rest, false).0);
    }
}

proof fn lemma_open_comment(comment: Seq<char>, rest: Seq<char>)
    requires
        forall|i: int| 0 <= i < comment.len() - 1 ==> !ends_comment(comment, i),
    ensures
        uncommented(comment, true) == (Seq::<char>::empty(), true),
        uncommented(comment + seq!['*', '/'] + rest, true) == uncommented(rest, false),
    decreases comment.len(),
{
    let s = comment + seq!['*', '/'] + rest;
    if comment.len() == 0 {
        assert(s[0] == '*' && s[1] == '/');
        assert(s.skip(2) =~= rest);
    } else {
        let less = comment.skip(1);
        assert forall|i: int| 0 <= i < less.len() - 1 implies !ends_comment(less, i) by {
            assert(!ends_comment(comment, i + 1));
        }
        lemma_open_comment(less, rest);
        assert(s[0] == comment[0]);
        if comment.len() > 1 {
            assert(!ends_comment(comment, 0));
            assert(s[1] == comment[1]);
        } else {
            assert(s[1] == '*');
        }
        assert(s.skip(1) =~= less + seq!['*', '/'] + rest);
    }
}

/// The package is the one that the first line with anything outside of comments declares. Lines
/// that are blank there, or go on with an asterisk, are passed over; a line that starts with the
/// word `package` and white space declares what follows, up to a semicolon; and where the first
/// line with anything declares none, there is none.
pub proof fn law_the_first_line_with_anything_declares(
    line: Seq<char>,
    rest: Seq<Seq<char>>,
    open: bool,
)
    ensures
        ({
            let (text, still_open) = uncommented(line, open);
            let t = trim(text);
            let declared = declared_package(seq![line] + rest, open);
            &&& t.len() == 0 || t[0] == '*' ==> declared == declared_package(rest, still_open)
            &&& t.len() > 0 && t[0] != '*' && t.len() > 7 && t.take(7) == seq![
                'p',
                'a',
                'c',
                'k',
                'a',
                'g',
                'e',
            ] && is_space(t[7]) ==> declared == trim(t.skip(8).take(index_of(t.skip(8), ';')))
            &&& t.len() > 0 && t[0] != '*' && !(t.len() > 7 && t.take(7) == seq![
                'p',
                'a',
                'c',
                'k',
                'a',
                'g',
                'e',
            ] && is_space(t[7])) ==> declared.len() == 0
        }),
        declared_package(Seq::empty(), open).len() == 0,
{
    reveal_strlit("*");
    reveal_strlit("package");
    assert("*"@ =~= seq!['*']);
    assert("package"@ =~= seq!['p', 'a', 'c', 'k', 'a', 'g', 'e']);
    let all = seq![line] + rest;
    assert(all.drop_first() =~= rest);
    assert(all[0] == line);
    let t = trim(uncommented(line, open).0);
    if t.len() > 0 {
        assert(t.subrange(0, 1) =~= seq![t[0]]);
        assert(seq![t[0]] == seq!['*'] <==> t[0] == '*') by {
            assert(seq![t[0]][0] == t[0]);
            assert(seq!['*'][0] == '*');
        }
    }
    if t.len() >= 7 {
        assert(t.subrange(0, 7) =~= t.take(7));
    }
}

/// A text goes up to its first semicolon.
pub proof fn law_declarations_end_at_the_semicolon(name: Seq<char>, rest: Seq<char>)
    requires
        !name.contains(';'),
    ensures
        ({
            let s = name + seq![';'] + rest;
            &&& s.take(index_of(s, ';')) == name
            &&& name.take(index_of(name, ';')) == name
        }),
{
    let s = name + seq![';'] + rest;
    assert forall|i: int| 0 <= i < name.len() implies #[trigger] s[i] != ';' by {
        assert(s[i] == name[i]);
    }
    lemma_index_of_unique(s, ';', name.len() as int);
    assert(s.take(name.len() as int) =~= name);
    assert forall|i: int| 0 <= i < name.len() implies #[trigger] name[i] != ';' by {}
    lemma_index_of_unique(name, ';', name.len() as int);
    assert(name.take(name.len() as int) =~= name);
}

/// A file declares the package of its text; one that is not text declares none.
pub proof fn law_a_file_declares_the_package_of_its_text(
    bytes: Result<Vec<u8>, String>,
    package: Seq<char>,
)
    ensures
        declares(bytes, package) <==> text_of(bytes) is Ok && declared_package(
            lines(text_of(bytes)->Ok_0),
            false,
        ) == package,
{
}

// ---------------------------------------------------------------------------
// Looking through directories
// ---------------------------------------------------------------------------

/// A file stands below a directory where it is one of its entries, or stands below one of its
/// subdirectories, by the names on the way.
pub proof fn law_files_stand_where_their_names_lead(
    dir: Seq<char>,
    entries: Seq<Entry>,
    path: Seq<char>,
    content: Result<Vec<u8>, String>,
    i: int,
)
    requires
        0 <= i < entries.len(),
    ensures
        entries[i] matches Entry::File { name, bytes } ==> stands_in(
            dir,
            entries,
            joined(dir, name@),
            bytes,
        ),
        entries[i] matches Entry::Dir { name, entries: below } ==> (stands_in(
            joined(dir, name@),
            below@,
            path,
            content,
        ) ==> stands_in(dir, entries, path, content)),
    decreases entries.len(),
{
    if i < entries.len() - 1 {
        let less = entries.drop_last();
        assert(less[i] == entries[i]);
        law_files_stand_where_their_names_lead(dir, less, path, content, i);
    } else {
        assert(entries[i] == entries.last());
    }
}

/// The class of every class file that names its source file is found, wherever the file stands
/// below a directory of the class path; and every class that is found is that of such a file.
pub proof fn law_all_class_files_are_found(
    dir: Seq<char>,
    entries: Seq<Entry>,
    class: (Seq<char>, Seq<char>),
)
    ensures
        classes_in(dir, entries).contains(class) <==> exists|path: Seq<char>, content: Result<Vec<u8>, String>| #[trigger]
            stands_in(dir, entries, path, content) && is_class_file_of(path, content, class),
    decreases entries,
{
    if entries.len() > 0 {
        let less = entries.drop_last();
        law_all_class_files_are_found(dir, less, class);
        let before = classes_in(dir, less);
        let more = match entries.last() {
            Entry::File { name, bytes } => class_in_file(joined(dir, name@), bytes),
            Entry::Dir { name, entries: below } => classes_in(joined(dir, name@), below@),
        };
        lemma_contains_both(before, more, class);
        match entries.last() {
            Entry::File { name, bytes } => {
                let path = joined(dir, name@);
                lemma_class_in_file(path, bytes, class);
                if more.contains(class) {
                    assert(stands_in(dir, entries, path, bytes));
                }
            },
            Entry::Dir { name, entries: below } => {
                assert(decreases_to!(entries => entries[entries.len() - 1]));
                law_all_class_files_are_found(joined(dir, name@), below@, class);
                if more.contains(class) {
                    let (path, content) = choose|path: Seq<char>, content: Result<Vec<u8>, String>| #[trigger]
                        stands_in(joined(dir, name@), below@, path, content) && is_class_file_of(
                            path,
                            content,
                            class,
                        );
                    assert(stands_in(dir, entries, path, content));
                }
            },
        }
        if before.contains(class) {
            let (path, content) = choose|path: Seq<char>, content: Result<Vec<u8>, String>| #[trigger]
                stands_in(dir, less, path, content) && is_class_file_of(path, content, class);
            assert(stands_in(dir, entries, path, content));
        }
        if exists|path: Seq<char>, content: Result<Vec<u8>, String>| #[trigger]
            stands_in(dir, entries, path, content) && is_class_file_of(path, content, class) {
            let (path, content) = choose|path: Seq<char>, content: Result<Vec<u8>, String>| #[trigger]
                stands_in(dir, entries, path, content) && is_class_file_of(path, content, class);
            if !stands_in(dir, less, path, content) {
                match entries.last() {
                    Entry::File { name, bytes } => {},
                    Entry::Dir { name, entries: below } => {
                        assert(stands_in(joined(dir, name@), below@, path, content));
                    },
                }
            }
        }
    } else {
        assert(classes_in(dir, entries) =~= seq![]);
    }
}

/// Whether a file is a class file of the class, and says of it that it was compiled from the file
/// of the given name.
pub open spec fn is_class_file_of(
    path: Seq<char>,
    content: Result<Vec<u8>, String>,
    class: (Seq<char>, Seq<char>),
) -> bool {
    &&& extension(path) == Some(seq!['c', 'l', 'a', 's', 's'])
    &&& content matches Ok(b) && class_info(b@) == Ok::<
        (Seq<char>, Option<Seq<char>>),
        crate::class_file::ClassError,
    >((class.0, Some(class.1)))
}

proof fn lemma_class_in_file(
    path: Seq<char>,
    content: Result<Vec<u8>, String>,
    class: (Seq<char>, Seq<char>),
)
    ensures
        class_in_file(path, content).contains(class) <==> is_class_file_of(path, content, class),
{
    reveal_strlit("class");
    assert("class"@ =~= seq!['c', 'l', 'a', 's', 's']);
    let found = class_in_file(path, content);
    if is_class_file_of(path, content, class) {
        assert(found[0] == class);
    }
    if found.contains(class) {
        let i = choose|i: int| 0 <= i < found.len() && found[i] == class;
        assert(found[0] == class);
    }
}

proof fn lemma_contains_both<A>(a: Seq<A>, b: Seq<A>, x: A)
    ensures
        (a + b).contains(x) <==> a.contains(x) || b.contains(x),
{
    if a.contains(x) {
        let i = choose|i: int| 0 <= i < a.len() && a[i] == x;
        assert((a + b)[i] == x);
    }
    if b.contains(x) {
        let i = choose|i: int| 0 <= i < b.len() && b[i] == x;
        assert((a + b)[a.len() + i] == x);
    }
    if (a + b).contains(x) {
        let i = choose|i: int| 0 <= i < (a + b).len() && (a + b)[i] == x;
        if i < a.len() {
            assert(a[i] == x);
        } else {
            assert(b[i - a.len()] == x);
        }
    }
}

/// Classes are found in the order of the entries, and of the directories of the class path.
pub proof fn law_classes_are_found_in_order(
    dir: Seq<char>,
    a: Seq<Entry>,
    b: Seq<Entry>,
    dirs: Seq<Tree>,
)
    ensures
        classes_in(dir, a + b) == classes_in(dir, a) + classes_in(dir, b),
        classes_below(dirs) == dirs.map_values(
            |t: Tree| classes_in(t.path@, t.entries@),
        ).flatten(),
    decreases b.len() + dirs.len(),
{
    if b.len() == 0 {
        assert(a + b =~= a);
        assert(classes_in(dir, a) + classes_in(dir, b) =~= classes_in(dir, a));
    } else {
        law_classes_are_found_in_order(dir, a, b.drop_last(), Seq::empty());
        assert((a + b).drop_last() =~= a + b.drop_last());
        assert((a + b).last() == b.last());
        let last = match b.last() {
            Entry::File { name, bytes } => class_in_file(joined(dir, name@), bytes),
            Entry::Dir { name, entries: below } => classes_in(joined(dir, name@), below@),
        };
        assert(classes_in(dir, a) + classes_in(dir, b.drop_last()) + last =~= classes_in(dir, a)
            + (classes_in(dir, b.drop_last()) + last));
    }
    let lists = dirs.map_values(|t: Tree| classes_in(t.path@, t.entries@));
    if dirs.len() > 0 {
        let less = dirs.drop_last();
        law_classes_are_found_in_order(dir, a, Seq::empty(), less);
        let before = less.map_values(|t: Tree| classes_in(t.path@, t.entries@));
        let last = classes_in(dirs.last().path@, dirs.last().entries@);
        assert(lists =~= before.push(last));
        before.lemma_flatten_push(last);
    } else {
        assert(lists =~= seq![]);
    }
}

/// Where all source files can be read, the main class of every file that has one is found,
/// wherever the file stands below the source root; and every main class that is found is that of
/// such a file.
pub proof fn law_all_main_classes_are_found(
    root: Seq<char>,
    dir: Seq<char>,
    entries: Seq<Entry>,
    m: MainClassView,
)
    requires
        mains_in(root, dir, entries) is Ok,
    ensures
        mains_in(root, dir, entries)->Ok_0.contains(m) <==> exists|path: Seq<char>, content: Result<Vec<u8>, String>| #[trigger]
            stands_in(dir, entries, path, content) && mains_in_file(root, path, content) == Ok::<
                Seq<MainClassView>,
                Seq<char>,
            >(seq![m]),
    decreases entries,
{
    if entries.len() > 0 {
        let less = entries.drop_last();
        law_all_main_classes_are_found(root, dir, less, m);
        let before = mains_in(root, dir, less)->Ok_0;
        let last = match entries.last() {
            Entry::File { name, bytes } => mains_in_file(root, joined(dir, name@), bytes),
            Entry::Dir { name, entries: below } => mains_in(root, joined(dir, name@), below@),
        };
        let more = last->Ok_0;
        lemma_contains_both(before, more, m);
        match entries.last() {
            Entry::File { name, bytes } => {
                let path = joined(dir, name@);
                if more.contains(m) {
                    let i = choose|i: int| 0 <= i < more.len() && more[i] == m;
                    assert(more =~= seq![m]);
                    assert(stands_in(dir, entries, path, bytes));
                }
                if mains_in_file(root, path, bytes) == Ok::<Seq<MainClassView>, Seq<char>>(
                    seq![m],
                ) {
                    assert(more[0] == m);
                }
            },
            Entry::Dir { name, entries: below } => {
                assert(decreases_to!(entries => entries[entries.len() - 1]));
                law_all_main_classes_are_found(root, joined(dir, name@), below@, m);
                if more.contains(m) {
                    let (path, content) = choose|path: Seq<char>, content: Result<Vec<u8>, String>| #[trigger]
                        stands_in(joined(dir, name@), below@, path, content) && mains_in_file(
                            root,
                            path,
                            content,
                        ) == Ok::<Seq<MainClassView>, Seq<char>>(seq![m]);
                    assert(stands_in(dir, entries, path, content));
                }
            },
        }
        if before.contains(m) {
            let (path, content) = choose|path: Seq<char>, content: Result<Vec<u8>, String>| #[trigger]
                stands_in(dir, less, path, content) && mains_in_file(root, path, content) == Ok::<
                    Seq<MainClassView>,
                    Seq<char>,
                >(seq![m]);
            assert(stands_in(dir, entries, path, content));
        }
        if exists|path: Seq<char>, content: Result<Vec<u8>, String>| #[trigger]
            stands_in(dir, entries, path, content) && mains_in_file(root, path, content) == Ok::<
                Seq<MainClassView>,
                Seq<char>,
            >(seq![m]) {
            let (path, content) = choose|path: Seq<char>, content: Result<Vec<u8>, String>| #[trigger]
                stands_in(dir, entries, path, content) && mains_in_file(root, path, content)
                    == Ok::<Seq<MainClassView>, Seq<char>>(seq![m]);
            if !stands_in(dir, less, path, content) {
                match entries.last() {
                    Entry::File { name, bytes } => {
                        assert(more[0] == m);
                    },
                    Entry::Dir { name, entries: below } => {
                        assert(stands_in(joined(dir, name@), below@, path, content));
                    },
                }
            }
        }
    } else {
        assert(mains_in(root, dir, entries)->Ok_0 =~= seq![]);
    }
}

/// Main classes are found in the order of the entries and of the source roots; the first file that
/// cannot be read stops the search, and says why.
pub proof fn law_main_classes_are_found_in_order(
    root: Seq<char>,
    dir: Seq<char>,
    a: Seq<Entry>,
    b: Seq<Entry>,
    roots: Seq<Tree>,
    next: Tree,
)
    ensures
        match (mains_in(root, dir, a), mains_in(root, dir, b)) {
            (Ok(x), Ok(y)) => mains_in(root, dir, a + b) == Ok::<Seq<MainClassView>, Seq<char>>(
                x + y,
            ),
            (Err(why), _) => mains_in(root, dir, a + b) == Err::<Seq<MainClassView>, Seq<char>>(why),
            (Ok(_), Err(why)) => mains_in(root, dir, a + b) == Err::<Seq<MainClassView>, Seq<char>>(
                why,
            ),
        },
        match (main_classes(roots), mains_in(next.path@, next.path@, next.entries@)) {
            (Ok(x), Ok(y)) => main_classes(roots.push(next)) == Ok::<
                Seq<MainClassView>,
                Seq<char>,
            >(x + y),
            (Err(why), _) => main_classes(roots.push(next)) == Err::<
                Seq<MainClassView>,
                Seq<char>,
            >(why),
            (Ok(_), Err(why)) => main_classes(roots.push(next)) == Err::<
                Seq<MainClassView>,
                Seq<char>,
            >(why),
        },
        main_classes(Seq::empty()) == Ok::<Seq<MainClassView>, Seq<char>>(seq![]),
    decreases b.len(),
{
    assert(roots.push(next).drop_last() =~= roots);
    if b.len() == 0 {
        assert(a + b =~= a);
        if let Ok(x) = mains_in(root, dir, a) {
            assert(x + Seq::<MainClassView>::empty() =~= x);
        }
    } else {
        let less = b.drop_last();
        law_main_classes_are_found_in_order(root, dir, a, less, roots, next);
        assert((a + b).drop_last() =~= a + less);
        assert((a + b).last() == b.last());
        let last = match b.last() {
            Entry::File { name, bytes } => mains_in_file(root, joined(dir, name@), bytes),
            Entry::Dir { name, entries: below } => mains_in(root, joined(dir, name@), below@),
        };
        match (mains_in(root, dir, a), mains_in(root, dir, less), last) {
            (Ok(x), Ok(y), Ok(z)) => {
                assert(x + y + z =~= x + (y + z));
            },
            _ => {},
        }
    }
}

/// Where a source file of any of the three languages that holds an entry point stands below a
/// source root, and all source files can be read, the main class is found that is named by the
/// directories on the way and the file's name, with dots between them.
pub proof fn law_the_main_class_of_a_file_is_found(
    root: Seq<char>,
    entries: Seq<Entry>,
    dirs: Seq<Seq<char>>,
    name: Seq<char>,
    ext: Seq<char>,
    path: Seq<char>,
    bytes: Result<Vec<u8>, String>,
    src: Seq<char>,
)
    requires
        mains_in(root, root, entries) is Ok,
        stands_in(root, entries, path, bytes),
        parts(path) == parts(root) + dirs.push(name + seq!['.'] + ext),
        name.len() > 0,
        name != seq!['.'],
        text_of(bytes) == Ok::<Seq<char>, Seq<char>>(src),
        holds_entry_point(ext, src),
    ensures
        mains_in(root, root, entries)->Ok_0.contains(
            MainClassView {
                fully_qualified_name: each_with_dot(dirs).flatten() + name,
                source_file: path,
            },
        ),
{
    law_main_class_is_named_by_its_place(root, dirs, name, ext, path, bytes, src);
    let m = MainClassView {
        fully_qualified_name: each_with_dot(dirs).flatten() + name,
        source_file: path,
    };
    law_all_main_classes_are_found(root, root, entries, m);
}

} // verus!
