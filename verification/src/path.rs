//! Paths as text, as Unix writes them: with `/`, and nothing else, between their parts.

use vstd::prelude::*;
use crate::text::{
    append, chars_of, index_of, last_index, last_index_of, lemma_index_of, lemma_last_index_of,
    lemma_index_of_unique, next_index, rows, same_chars, slice_of, string_of,
};

verus! {

/// A piece of a path between two slashes, unless it is empty or means the directory it is in.
pub open spec fn kept(piece: Seq<char>) -> Seq<Seq<char>> {
    if piece.len() == 0 || piece == "."@ {
        seq![]
    } else {
        seq![piece]
    }
}

/// The pieces of a path that are kept.
pub open spec fn names(s: Seq<char>) -> Seq<Seq<char>>
    decreases s.len(),
    via names_decreases
{
    let n = index_of(s, '/');
    if n == s.len() {
        kept(s)
    } else {
        kept(s.take(n)) + names(s.skip(n + 1))
    }
}

#[via_fn]
proof fn names_decreases(s: Seq<char>) {
    lemma_index_of(s, '/');
}

/// Whether a path starts at the root.
pub open spec fn is_absolute(s: Seq<char>) -> bool {
    s.len() > 0 && s[0] == '/'
}

/// The parts of a path: `/` where it starts at the root, `.` where it starts at the current
/// directory and says so, and the pieces that are kept.
pub open spec fn parts(s: Seq<char>) -> Seq<Seq<char>> {
    if is_absolute(s) {
        seq!["/"@] + names(s)
    } else if s.take(index_of(s, '/')) == "."@ {
        seq!["."@] + names(s)
    } else {
        names(s)
    }
}

/// Whether two texts are the same path.
pub open spec fn same_path(a: Seq<char>, b: Seq<char>) -> bool {
    parts(a) == parts(b)
}

/// `rel` taken from `base`; just `rel` where it starts at the root.
pub open spec fn joined(base: Seq<char>, rel: Seq<char>) -> Seq<char> {
    if is_absolute(rel) {
        rel
    } else if base.len() == 0 || base.last() == '/' {
        base + rel
    } else {
        base + seq!['/'] + rel
    }
}

/// Whether a part is the name of a file or directory.
pub open spec fn is_name(part: Seq<char>) -> bool {
    part != "/"@ && part != "."@ && part != ".."@
}

/// The name of the file or directory that a path leads to, unless it ends in `..` or at the
/// root.
pub open spec fn file_name(s: Seq<char>) -> Option<Seq<char>> {
    if parts(s).len() > 0 && is_name(parts(s).last()) {
        Some(parts(s).last())
    } else {
        None
    }
}

/// A name without its extension.
pub open spec fn stem(name: Seq<char>) -> Seq<char> {
    if last_index_of(name, '.') <= 0 {
        name
    } else {
        name.take(last_index_of(name, '.'))
    }
}

/// What follows the last dot of a name, unless the name starts there.
pub open spec fn name_extension(name: Seq<char>) -> Option<Seq<char>> {
    if last_index_of(name, '.') <= 0 {
        None
    } else {
        Some(name.skip(last_index_of(name, '.') + 1))
    }
}

/// The extension of the file that a path leads to.
pub open spec fn extension(s: Seq<char>) -> Option<Seq<char>> {
    match file_name(s) {
        None => None,
        Some(name) => name_extension(name),
    }
}

/// Where a path that starts with `base` goes on from there; none where it does not.
pub open spec fn within(base: Seq<char>, s: Seq<char>) -> Option<Seq<Seq<char>>> {
    if parts(base).len() <= parts(s).len() && parts(s).take(parts(base).len() as int) == parts(
        base,
    ) {
        Some(parts(s).skip(parts(base).len() as int))
    } else {
        None
    }
}

/// Two texts that are the same path as a third are the same path.
pub proof fn law_same_path_is_equivalence(a: Seq<char>, b: Seq<char>, c: Seq<char>)
    ensures
        same_path(a, a),
        same_path(a, b) ==> same_path(b, a),
        same_path(a, b) && same_path(b, c) ==> same_path(a, c),
{
}

fn is_dot(s: &[char], from: usize, to: usize) -> (r: bool)
    requires
        from <= to <= s@.len(),
    ensures
        r == (s@.subrange(from as int, to as int) == "."@),
{
    proof {
        reveal_strlit(".");
    }
    let r = to - from == 1 && s[from] == '.';
    proof {
        let t = s@.subrange(from as int, to as int);
        if r {
            assert(t =~= "."@);
        } else if t == "."@ {
            assert(t.len() == 1 && t[0] == '.');
        }
    }
    r
}

fn push_names(s: &[char], out: &mut Vec<Vec<char>>)
    ensures
        rows(final(out)@) == rows(old(out)@) + names(s@),
{
    let ghost start = rows(out@);
    let mut from: usize = 0;
    assert(s@.skip(0) =~= s@);
    loop
        invariant_except_break
            from <= s@.len(),
            rows(out@) + names(s@.skip(from as int)) == start + names(s@),
        ensures
            rows(out@) == start + names(s@),
        decreases s@.len() - from,
    {
        let ghost rest = s@.skip(from as int);
        let ghost before = rows(out@);
        let n: usize = next_index(s, from, '/');
        let ghost k = n - from;
        proof {
            lemma_index_of(rest, '/');
            assert(s@.subrange(from as int, n as int) =~= rest.take(k));
        }
        if n > from && !is_dot(s, from, n) {
            let piece = slice_of(s, from, n);
            out.push(piece);
            assert(rows(out@) =~= before.push(piece@));
            assert(piece@ =~= rest.take(k));
        }
        assert(rows(out@) =~= before + kept(rest.take(k)));
        if n == s.len() {
            assert(rest.take(k) =~= rest);
            break;
        }
        from = n + 1;
        proof {
            assert(rest.skip(k + 1) =~= s@.skip(from as int));
            assert(before + (kept(rest.take(k)) + names(s@.skip(from as int))) =~= rows(out@)
                + names(s@.skip(from as int)));
        }
    }
}

/// The parts of a path.
pub fn split_path(s: &str) -> (v: Vec<Vec<char>>)
    ensures
        rows(v@) == parts(s@),
{
    let chars = chars_of(s);
    let mut v: Vec<Vec<char>> = Vec::new();
    let first: usize = next_index(chars.as_slice(), 0, '/');
    proof {
        assert(chars@.skip(0) =~= chars@);
        assert(chars@.subrange(0, first as int) =~= chars@.take(first as int));
        assert(rows(v@) =~= seq![]);
    }
    if chars.len() > 0 && chars[0] == '/' {
        let root = chars_of("/");
        v.push(root);
        assert(rows(v@) =~= seq!["/"@]);
    } else if is_dot(chars.as_slice(), 0, first) {
        let here = chars_of(".");
        v.push(here);
        assert(rows(v@) =~= seq!["."@]);
    }
    push_names(chars.as_slice(), &mut v);
    assert(rows(v@) =~= parts(s@));
    v
}

/// Whether two lists of parts start with the same `n` parts.
pub fn same_rows(a: &[Vec<char>], b: &[Vec<char>], n: usize) -> (r: bool)
    requires
        n <= a@.len(),
        n <= b@.len(),
    ensures
        r == (rows(a@).take(n as int) == rows(b@).take(n as int)),
{
    let mut i: usize = 0;
    while i < n
        invariant
            i <= n <= a@.len(),
            n <= b@.len(),
            forall|k: int| 0 <= k < i ==> #[trigger] rows(a@)[k] == rows(b@)[k],
        decreases n - i,
    {
        if !same_chars(a[i].as_slice(), b[i].as_slice()) {
            assert(rows(a@).take(n as int)[i as int] != rows(b@).take(n as int)[i as int]);
            return false;
        }
        i += 1;
    }
    assert(rows(a@).take(n as int) =~= rows(b@).take(n as int));
    true
}

/// Whether two texts are the same path.
pub fn is_same_path(a: &str, b: &str) -> (r: bool)
    ensures
        r == same_path(a@, b@),
{
    let x = split_path(a);
    let y = split_path(b);
    if x.len() != y.len() {
        assert(parts(a@).len() != parts(b@).len());
        return false;
    }
    assert(rows(x@).take(x@.len() as int) =~= parts(a@));
    assert(rows(y@).take(x@.len() as int) =~= parts(b@));
    same_rows(x.as_slice(), y.as_slice(), x.len())
}

/// `rel` taken from `base`.
pub fn join_path(base: &str, rel: &str) -> (s: String)
    ensures
        s@ == joined(base@, rel@),
{
    let b = chars_of(base);
    let r = chars_of(rel);
    let mut s: String = String::new();
    if r.len() > 0 && r[0] == '/' {
        append(&mut s, rel);
        assert(s@ =~= rel@);
        return s;
    }
    append(&mut s, base);
    if b.len() > 0 && b[b.len() - 1] != '/' {
        s.push('/');
    }
    append(&mut s, rel);
    assert(s@ =~= joined(base@, rel@));
    s
}

fn part_is_name(part: &[char]) -> (r: bool)
    ensures
        r == is_name(part@),
{
    let root = chars_of("/");
    let here = chars_of(".");
    let up = chars_of("..");
    !same_chars(part, root.as_slice()) && !same_chars(part, here.as_slice()) && !same_chars(
        part,
        up.as_slice(),
    )
}

/// The name of the file or directory that a path leads to.
pub fn path_file_name(s: &str) -> (r: Option<Vec<char>>)
    ensures
        match file_name(s@) {
            None => r is None,
            Some(name) => r matches Some(v) && v@ == name,
        },
{
    let mut v = split_path(s);
    proof {
        assert(rows(v@) == parts(s@));
        if v@.len() > 0 {
            assert(rows(v@).last() == v@.last()@);
        }
    }
    match v.pop() {
        None => None,
        Some(last) => if part_is_name(last.as_slice()) {
            Some(last)
        } else {
            None
        },
    }
}

/// A name without its extension.
pub fn name_stem(name: &[char]) -> (v: Vec<char>)
    ensures
        v@ == stem(name@),
{
    proof {
        lemma_last_index_of(name@, '.');
    }
    let to: usize = match last_index(name, '.') {
        Some(n) => if n == 0 {
            name.len()
        } else {
            n
        },
        None => name.len(),
    };
    let v = slice_of(name, 0, to);
    assert(v@ =~= stem(name@));
    v
}

/// The extension of the file that a path leads to.
pub fn path_extension(s: &str) -> (r: Option<String>)
    ensures
        match extension(s@) {
            None => r is None,
            Some(ext) => r matches Some(t) && t@ == ext,
        },
{
    match path_file_name(s) {
        None => None,
        Some(name) => {
            proof {
                lemma_last_index_of(name@, '.');
            }
            match last_index(name.as_slice(), '.') {
                Some(n) => if n == 0 {
                    None
                } else {
                    let ext = slice_of(name.as_slice(), n + 1, name.len());
                    assert(ext@ =~= name@.skip(n + 1));
                    Some(string_of(ext.as_slice()))
                },
                None => None,
            }
        },
    }
}

/// The parts of a path behind those of `base`; none where it does not start with them.
pub fn parts_within(base: &str, s: &str) -> (r: Option<Vec<Vec<char>>>)
    ensures
        match within(base@, s@) {
            None => r is None,
            Some(rel) => r matches Some(v) && rows(v@) == rel,
        },
{
    let b = split_path(base);
    let v = split_path(s);
    if b.len() > v.len() {
        assert(parts(base@).len() > parts(s@).len());
        return None;
    }
    assert(rows(b@).take(b@.len() as int) =~= parts(base@));
    if !same_rows(b.as_slice(), v.as_slice(), b.len()) {
        return None;
    }
    let mut rel: Vec<Vec<char>> = Vec::new();
    let mut i: usize = b.len();
    while i < v.len()
        invariant
            b@.len() <= i <= v@.len(),
            rows(rel@) == rows(v@).subrange(b@.len() as int, i as int),
        decreases v@.len() - i,
    {
        let ghost before = rows(rel@);
        let part = slice_of(v[i].as_slice(), 0, v[i].len());
        assert(part@ =~= rows(v@)[i as int]);
        rel.push(part);
        i += 1;
        assert(rows(rel@) =~= before.push(part@));
        assert(rows(rel@) =~= rows(v@).subrange(b@.len() as int, i as int));
    }
    assert(rows(rel@) =~= parts(s@).skip(parts(base@).len() as int));
    Some(rel)
}

// ---------------------------------------------------------------------------
// What holds of paths
// ---------------------------------------------------------------------------

/// The names of a path are those before a slash and those behind it. A text without a slash is a
/// name, unless it is empty or a dot. No name holds a slash.
pub proof fn law_slashes_part_names(a: Seq<char>, b: Seq<char>)
    ensures
        names(a + seq!['/'] + b) == names(a) + names(b),
        !a.contains('/') ==> names(a) == if a.len() == 0 || a == seq!['.'] {
            Seq::<Seq<char>>::empty()
        } else {
            seq![a]
        },
        forall|i: int|
            0 <= i < names(a).len() ==> {
                let n = #[trigger] names(a)[i];
                !n.contains('/') && n.len() > 0 && n != seq!['.']
            },
    decreases a.len(),
{
    reveal_strlit(".");
    assert("."@ =~= seq!['.']);
    let s = a + seq!['/'] + b;
    lemma_index_of(a, '/');
    let n = index_of(a, '/');
    if n == a.len() {
        assert forall|i: int| 0 <= i < n implies #[trigger] s[i] != '/' by {
            assert(s[i] == a[i]);
        }
        lemma_index_of_unique(s, '/', n);
        assert(s.take(n) =~= a);
        assert(s.skip(n + 1) =~= b);
        assert(!a.contains('/'));
    } else {
        assert(a[n] == '/');
        assert forall|i: int| 0 <= i < n implies #[trigger] s[i] != '/' by {
            assert(s[i] == a[i]);
        }
        assert(s[n] == '/');
        lemma_index_of_unique(s, '/', n);
        let head = a.take(n);
        let rest = a.skip(n + 1);
        assert(s.take(n) =~= head);
        assert(s.skip(n + 1) =~= rest + seq!['/'] + b);
        law_slashes_part_names(rest, b);
        assert(kept(head) + (names(rest) + names(b)) =~= kept(head) + names(rest) + names(b));
        assert forall|i: int| 0 <= i < names(a).len() implies {
            let n = #[trigger] names(a)[i];
            !n.contains('/') && n.len() > 0 && n != seq!['.']
        } by {
            if i < kept(head).len() {
                assert(names(a)[i] == head);
                assert(!head.contains('/'));
            } else {
                assert(names(a)[i] == names(rest)[i - kept(head).len()]);
            }
        }
    }
}

/// A path that starts with a slash starts at the root and goes on by its names; one that starts
/// with the current directory says so; any other is its names.
pub proof fn law_parts_are_names(s: Seq<char>)
    ensures
        s.len() > 0 && s[0] == '/' ==> parts(s) == seq![seq!['/']] + names(s),
        s == seq!['.'] || (s.len() > 1 && s[0] == '.' && s[1] == '/') ==> parts(s)
            == seq![seq!['.']] + names(s),
        s.len() == 0 ==> parts(s).len() == 0,
        s.len() > 0 && s[0] != '/' && s[0] != '.' ==> parts(s) == names(s),
        s.len() > 1 && s[0] == '.' && s[1] != '/' ==> parts(s) == names(s),
{
    reveal_strlit(".");
    reveal_strlit("/");
    assert("."@ =~= seq!['.']);
    assert("/"@ =~= seq!['/']);
    lemma_index_of(s, '/');
    let n = index_of(s, '/');
    if s == seq!['.'] || (s.len() > 1 && s[0] == '.' && s[1] == '/') {
        assert(n == 1);
        assert(s.take(1) =~= seq!['.']);
    } else if s.take(n) == "."@ {
        assert(s.take(n)[0] == '.' && s.take(n).len() == 1);
        assert(s[0] == '.');
        assert(n == 1);
    }
}

/// What is taken from a directory goes on below it: the parts of the directory, and then the
/// names of what was taken, which is no way up from the root.
pub proof fn law_joined_paths_go_on_below(base: Seq<char>, rel: Seq<char>)
    requires
        base.len() > 0,
        rel.len() > 0,
        rel[0] != '/',
    ensures
        parts(joined(base, rel)) == parts(base) + names(rel),
{
    let s = joined(base, rel);
    if base.last() == '/' {
        let b = base.drop_last();
        assert(s =~= b + seq!['/'] + rel);
        assert(base =~= b + seq!['/'] + seq![]);
        law_slashes_part_names(b, rel);
        law_slashes_part_names(b, seq![]);
        law_slashes_part_names(seq![], seq![]);
    } else {
        law_slashes_part_names(base, rel);
    }
    assert(names(s) =~= names(base) + names(rel));
    law_parts_are_names(s);
    law_parts_are_names(base);
    assert(s[0] == base[0]);
    reveal_strlit(".");
    reveal_strlit("/");
    assert("."@ =~= seq!['.']);
    assert("/"@ =~= seq!['/']);
    if base.len() > 1 {
        assert(s[1] == base[1]);
    }
    if base.len() == 1 && base[0] == '.' {
        assert(base =~= seq!['.']);
        assert(s[1] == '/');
    }
    assert(parts(s) =~= parts(base) + names(rel));
}

/// The file that a path leads to is the last of its names; a single name taken from a directory
/// is the file.
pub proof fn law_file_is_the_last_name(base: Seq<char>, name: Seq<char>)
    requires
        base.len() > 0,
        name.len() > 0,
        !name.contains('/'),
        name != seq!['.'],
        name != seq!['.', '.'],
    ensures
        parts(joined(base, name)) == parts(base).push(name),
        file_name(joined(base, name)) == Some(name),
        extension(joined(base, name)) == name_extension(name),
        within(base, joined(base, name)) == Some(seq![name]),
{
    assert(name[0] != '/') by {
        assert(name.contains(name[0]));
    }
    law_joined_paths_go_on_below(base, name);
    law_slashes_part_names(name, seq![]);
    let all = parts(joined(base, name));
    assert(all =~= parts(base).push(name));
    reveal_strlit(".");
    reveal_strlit("/");
    reveal_strlit("..");
    assert("."@ =~= seq!['.']);
    assert("/"@ =~= seq!['/']);
    assert(".."@ =~= seq!['.', '.']);
    assert(seq!['/'].contains('/')) by {
        assert(seq!['/'][0] == '/');
    }
    assert(all.take(parts(base).len() as int) =~= parts(base));
    assert(all.skip(parts(base).len() as int) =~= seq![name]);
}

/// A name goes up to its last dot, and its extension is what follows: where the last dot is not
/// its first character. A name without such a dot has no extension.
pub proof fn law_extension_follows_the_last_dot(a: Seq<char>, b: Seq<char>)
    requires
        !b.contains('.'),
    ensures
        a.len() > 0 ==> stem(a + seq!['.'] + b) == a && name_extension(a + seq!['.'] + b) == Some(
            b,
        ),
        stem(b) == b && name_extension(b) is None,
        stem(seq!['.'] + b) == seq!['.'] + b && name_extension(seq!['.'] + b) is None,
{
    let s = a + seq!['.'] + b;
    lemma_last_index_of(s, '.');
    lemma_last_index_of(b, '.');
    let d = seq!['.'] + b;
    lemma_last_index_of(d, '.');
    let n = last_index_of(s, '.');
    let m = last_index_of(b, '.');
    let k = last_index_of(d, '.');
    assert(s[a.len() as int] == '.');
    assert(d[0] == '.');
    if n > a.len() {
        assert(b[n - a.len() - 1] == '.');
    }
    if k > 0 {
        assert(b[k - 1] == '.');
    }
    if m >= 0 {
        assert(b[m] == '.');
    }
    assert(n == a.len());
    assert(s.take(n) =~= a);
    assert(s.skip(n + 1) =~= b);
}

/// A path starts with another just where it goes on from there by some parts, and those are what
/// it goes on by.
pub proof fn law_paths_within_go_on(base: Seq<char>, s: Seq<char>, rel: Seq<Seq<char>>)
    ensures
        within(base, s) == Some(rel) <==> parts(s) == parts(base) + rel,
{
    let n = parts(base).len() as int;
    if parts(s) == parts(base) + rel {
        assert(parts(s).take(n) =~= parts(base));
        assert(parts(s).skip(n) =~= rel);
    }
    if within(base, s) == Some(rel) {
        assert(parts(s) =~= parts(s).take(n) + parts(s).skip(n));
    }
}

/// Two texts are the same path just where they have the same parts: more slashes than one, dots
/// between slashes and a slash at the end make no difference.
pub proof fn law_paths_with_the_same_parts_are_the_same(a: Seq<char>, b: Seq<char>)
    ensures
        same_path(a, b) <==> parts(a) == parts(b),
        a.len() > 0 ==> same_path(a + seq!['/', '/'] + b, a + seq!['/'] + b),
        a.len() > 0 ==> same_path(a + seq!['/', '.', '/'] + b, a + seq!['/'] + b),
        a.len() > 0 && a != seq!['.'] ==> same_path(a + seq!['/'], a),
{
    if a.len() > 0 {
        let x = a + seq!['/'] + b;
        let y = a + seq!['/', '/'] + b;
        let z = a + seq!['/', '.', '/'] + b;
        let e = a + seq!['/'];
        law_slashes_part_names(a, b);
        law_slashes_part_names(a, seq!['/'] + b);
        law_slashes_part_names(seq![], b);
        assert(seq![] + seq!['/'] + b =~= seq!['/'] + b);
        assert(y =~= a + seq!['/'] + (seq!['/'] + b));
        assert(names(y) =~= names(x));
        law_slashes_part_names(a, seq!['.', '/'] + b);
        law_slashes_part_names(seq!['.'], b);
        assert(seq!['.'] + seq!['/'] + b =~= seq!['.', '/'] + b);
        assert(z =~= a + seq!['/'] + (seq!['.', '/'] + b));
        assert(!seq!['.'].contains('/'));
        assert(names(z) =~= names(x));
        law_slashes_part_names(a, seq![]);
        assert(e =~= a + seq!['/'] + seq![]);
        assert(names(e) =~= names(a));
        law_parts_are_names(a);
        law_parts_are_names(x);
        law_parts_are_names(y);
        law_parts_are_names(z);
        law_parts_are_names(e);
        assert(x[0] == a[0] && y[0] == a[0] && z[0] == a[0] && e[0] == a[0]);
        if a.len() > 1 {
            assert(x[1] == a[1] && y[1] == a[1] && z[1] == a[1] && e[1] == a[1]);
        } else {
            assert(x[1] == '/' && y[1] == '/' && z[1] == '/' && e[1] == '/');
            if a[0] == '.' {
                assert(a =~= seq!['.']);
            }
        }
    }
}

/// A path that ends at the root, in the current directory or in the one above leads to no file,
/// and has no extension.
pub proof fn law_paths_that_end_in_no_name_lead_to_no_file(s: Seq<char>)
    ensures
        parts(s).len() == 0 || parts(s).last() == seq!['/'] || parts(s).last() == seq!['.']
            || parts(s).last() == seq!['.', '.'] <==> file_name(s) is None,
        file_name(s) is None ==> extension(s) is None,
        file_name(s) matches Some(name) ==> name == parts(s).last() && extension(s)
            == name_extension(name),
{
    reveal_strlit(".");
    reveal_strlit("/");
    reveal_strlit("..");
    assert("."@ =~= seq!['.']);
    assert("/"@ =~= seq!['/']);
    assert(".."@ =~= seq!['.', '.']);
}

} // verus!
