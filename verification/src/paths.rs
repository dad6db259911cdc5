//! File paths as texts, with `/` between their names.

use crate::text::{
    chars_of, find_char, first_index, join, joined, lemma_index_from, owned, same, string_between,
    string_of, texts,
};
use vstd::prelude::*;

verus! {

broadcast use vstd::string::group_string_axioms;

/// Whether a path starts at the root.
pub open spec fn is_absolute(p: Seq<char>) -> bool {
    p.len() > 0 && p[0] == '/'
}

/// Whether a path starts at the root.
pub fn absolute(p: &str) -> (r: bool)
    ensures
        r == is_absolute(p@),
{
    let c = chars_of(p);
    c.len() > 0 && c[0] == '/'
}

/// A path below another; an absolute path stands for itself.
pub open spec fn path_join(base: Seq<char>, child: Seq<char>) -> Seq<char> {
    if is_absolute(child) || base.len() == 0 {
        child
    } else if base.last() == '/' {
        base + child
    } else {
        base + seq!['/'] + child
    }
}

/// A path below another; an absolute path stands for itself.
pub fn join_path(base: &str, child: &str) -> (r: String)
    ensures
        r@ == path_join(base@, child@),
{
    let b = chars_of(base);
    if absolute(child) || b.len() == 0 {
        owned(child)
    } else {
        let mut out = string_of(&b);
        if b[b.len() - 1] != '/' {
            out.push('/');
        }
        out.append(child);
        assert(out@ =~= path_join(base@, child@));
        out
    }
}

/// The names in a path, without empty ones and those that stand for the
/// directory itself.
pub open spec fn names_in(p: Seq<char>) -> Seq<Seq<char>>
    decreases p.len(),
{
    if p.len() == 0 {
        seq![]
    } else {
        let i = first_index(p, '/');
        proof {
            lemma_index_from(p, '/', 0);
        }
        let name = p.take(i);
        let rest = if i < p.len() {
            names_in(p.skip(i + 1))
        } else {
            seq![]
        };
        if name.len() == 0 || name == "."@ {
            rest
        } else {
            seq![name] + rest
        }
    }
}

/// The names in a path.
pub fn path_names(p: &str) -> (r: Vec<String>)
    ensures
        texts(r@) == names_in(p@),
{
    let s = chars_of(p);
    let mut out: Vec<String> = Vec::new();
    let mut pos: usize = 0;
    proof {
        assert(s@.skip(0) =~= s@);
        assert(texts(out@) + names_in(s@) =~= names_in(s@));
    }
    while pos < s.len()
        invariant
            pos <= s@.len(),
            texts(out@) + names_in(s@.skip(pos as int)) == names_in(s@),
        decreases s@.len() - pos,
    {
        let rest = vstd::slice::slice_subrange(&s, pos, s.len());
        assert(rest@ =~= s@.skip(pos as int));
        let i = find_char(rest, '/');
        let name = string_between(rest, 0, i);
        assert(name@ =~= rest@.take(i as int));
        let ghost before = texts(out@);
        let ghost tail = if i < rest@.len() {
            names_in(rest@.skip(i + 1))
        } else {
            seq![]
        };
        let empty = i == 0;
        if !empty && !same(name.as_str(), ".") {
            let ghost n = name@;
            out.push(name);
            assert(texts(out@) =~= before.push(n));
            assert(before.push(n) + tail =~= before + (seq![n] + tail));
        }
        assert(texts(out@) + tail == names_in(s@));
        if i < rest.len() {
            assert(s@.skip(pos + i + 1) =~= rest@.skip(i + 1));
            pos = pos + i + 1;
        } else {
            assert(s@.skip(s@.len() as int) =~= Seq::<char>::empty());
            assert(names_in(Seq::<char>::empty()) =~= Seq::<Seq<char>>::empty());
            pos = s.len();
        }
    }
    proof {
        assert(s@.skip(pos as int) =~= Seq::<char>::empty());
        assert(texts(out@) + Seq::<Seq<char>>::empty() =~= texts(out@));
    }
    out
}

/// A path without names that stand for the directory itself and without
/// separators that separate nothing.
pub open spec fn cleaned(p: Seq<char>) -> Seq<char> {
    if is_absolute(p) {
        seq!['/'] + joined(names_in(p), "/"@)
    } else {
        joined(names_in(p), "/"@)
    }
}

/// A path without names that stand for the directory itself.
pub fn clean_path(p: &str) -> (r: String)
    ensures
        r@ == cleaned(p@),
{
    let names = path_names(p);
    let body = join(&names, "/");
    if absolute(p) {
        let mut out = String::new();
        out.push('/');
        out.append(body.as_str());
        assert(out@ =~= cleaned(p@));
        out
    } else {
        body
    }
}

/// The name of the file that a path leads to, if it names one.
pub open spec fn file_name_of(p: Seq<char>) -> Option<Seq<char>> {
    let names = names_in(p);
    if names.len() == 0 || names.last() == ".."@ {
        None
    } else {
        Some(names.last())
    }
}

/// The last position that holds `c`; -1 if none does.
pub open spec fn last_index(s: Seq<char>, c: char) -> int
    decreases s.len(),
{
    if s.len() == 0 {
        -1
    } else if s.last() == c {
        s.len() - 1
    } else {
        last_index(s.drop_last(), c)
    }
}

/// One more than the last position that holds `c`; zero if none does.
pub fn find_last(s: &[char], c: char) -> (r: usize)
    ensures
        r == last_index(s@, c) + 1,
        r <= s@.len(),
{
    let mut i: usize = s.len();
    assert(s@.take(i as int) =~= s@);
    while i > 0
        invariant
            i <= s@.len(),
            last_index(s@, c) == last_index(s@.take(i as int), c),
        decreases i,
    {
        if s[i - 1] == c {
            return i;
        }
        assert(s@.take(i as int).drop_last() =~= s@.take(i - 1));
        i -= 1;
    }
    0
}

/// A file's name and its extension: what stands before and behind the last dot.
/// A name has no extension where it has no dot or only one at its start.
pub open spec fn split_extension(name: Seq<char>) -> (Seq<char>, Seq<char>) {
    let i = last_index(name, '.');
    if i <= 0 {
        (name, seq![])
    } else {
        (name.take(i), name.skip(i + 1))
    }
}

/// The extension of the file that a path leads to; empty where it has none.
pub open spec fn extension_of(p: Seq<char>) -> Seq<char> {
    match file_name_of(p) {
        Some(name) => split_extension(name).1,
        None => seq![],
    }
}

/// The name without extension of the file that a path leads to.
pub open spec fn stem_of(p: Seq<char>) -> Option<Seq<char>> {
    match file_name_of(p) {
        Some(name) => Some(split_extension(name).0),
        None => None,
    }
}

fn split_name(name: &str) -> (r: (String, String))
    ensures
        (r.0@, r.1@) == split_extension(name@),
{
    let c = chars_of(name);
    let i = find_last(&c, '.');
    if i <= 1 {
        let e = String::new();
        assert(e@ =~= Seq::<char>::empty());
        (string_of(&c), e)
    } else {
        let a = string_between(&c, 0, i - 1);
        let b = string_between(&c, i, c.len());
        assert(a@ =~= name@.take(i - 1));
        assert(b@ =~= name@.skip(i as int));
        (a, b)
    }
}

/// The extension of the file that a path leads to; empty where it has none.
pub fn extension(p: &str) -> (r: String)
    ensures
        r@ == extension_of(p@),
{
    let names = path_names(p);
    if names.len() == 0 || same(names[names.len() - 1].as_str(), "..") {
        let e = String::new();
        assert(e@ =~= Seq::<char>::empty());
        e
    } else {
        split_name(names[names.len() - 1].as_str()).1
    }
}

/// The name without extension of the file that a path leads to.
pub fn file_stem(p: &str) -> (r: Option<String>)
    ensures
        crate::text::opt_text(r) == stem_of(p@),
{
    let names = path_names(p);
    if names.len() == 0 || same(names[names.len() - 1].as_str(), "..") {
        None
    } else {
        Some(split_name(names[names.len() - 1].as_str()).0)
    }
}

// ---------------------------------------------------------------------------
// What paths are made of
// ---------------------------------------------------------------------------

/// A relative path below a directory has the directory in front, one slash, and
/// the path behind it; an absolute path stands for itself, and so does one below
/// no directory.
pub proof fn paths_are_joined_with_one_slash(dir: Seq<char>, child: Seq<char>)
    requires
        dir.len() == 0 || dir.last() != '/',
    ensures
        child.len() > 0 && child[0] == '/' ==> path_join(dir, child) == child,
        dir.len() == 0 ==> path_join(dir, child) == child,
        dir.len() > 0 && (child.len() == 0 || child[0] != '/') ==> path_join(dir, child) == dir
            + seq!['/'] + child && path_join(dir + seq!['/'], child) == dir + seq!['/'] + child,
{
}

proof fn lemma_name_then(name: Seq<char>, rest: Seq<char>)
    requires
        name.len() > 0,
        !name.contains('/'),
        name != "."@,
    ensures
        names_in(name + seq!['/'] + rest) == seq![name] + names_in(rest),
        names_in(name) == seq![name],
{
    let s = name + seq!['/'] + rest;
    lemma_index_from(s, '/', 0);
    let i = first_index(s, '/');
    assert(s[name.len() as int] == '/');
    assert(i == name.len()) by {
        if i < name.len() {
            assert(name[i] == '/');
        }
    }
    assert(s.take(i) =~= name);
    assert(s.skip(i + 1) =~= rest);
    lemma_index_from(name, '/', 0);
    let k = first_index(name, '/');
    if k < name.len() {
        assert(name.contains(name[k]));
    }
    assert(name.take(k) =~= name);
    assert(seq![name] + Seq::<Seq<char>>::empty() =~= seq![name]);
}

/// The names in a path are what lies between its slashes, in order; empty ones
/// and dots do not count.
pub proof fn names_lie_between_slashes(name: Seq<char>, rest: Seq<char>)
    requires
        name.len() > 0,
        !name.contains('/'),
        name != "."@,
    ensures
        names_in(name + seq!['/'] + rest) == seq![name] + names_in(rest),
        names_in(name) == seq![name],
        names_in(seq!['/'] + rest) == names_in(rest),
        names_in(seq!['.', '/'] + rest) == names_in(rest),
        names_in(seq![]) == Seq::<Seq<char>>::empty(),
{
    lemma_name_then(name, rest);
    let a = seq!['/'] + rest;
    lemma_index_from(a, '/', 0);
    assert(a[0] == '/');
    assert(a.skip(1) =~= rest);
    reveal_strlit(".");
    let b = seq!['.', '/'] + rest;
    lemma_index_from(b, '/', 0);
    assert(b[0] == '.' && b[1] == '/');
    assert(first_index(b, '/') == 1);
    assert(b.take(1) =~= "."@);
    assert(b.skip(2) =~= rest);
}

proof fn lemma_last_dot(stem: Seq<char>, ext: Seq<char>)
    requires
        !ext.contains('.'),
    ensures
        last_index(stem + seq!['.'] + ext, '.') == stem.len(),
    decreases ext.len(),
{
    let s = stem + seq!['.'] + ext;
    if ext.len() == 0 {
        assert(s.last() == '.');
    } else {
        assert(ext.contains(ext[ext.len() - 1]));
        assert forall|i: int| 0 <= i < ext.drop_last().len() implies ext.drop_last()[i] != '.' by {
            assert(ext.contains(ext[i]));
        }
        lemma_last_dot(stem, ext.drop_last());
        assert(s.drop_last() =~= stem + seq!['.'] + ext.drop_last());
    }
}

/// A file's extension is what stands behind the last dot of its name, and its
/// stem what stands before; a name without a dot is all stem.
pub proof fn extensions_stand_behind_the_last_dot(stem: Seq<char>, ext: Seq<char>)
    requires
        stem.len() > 0,
        !stem.contains('/'),
        !ext.contains('/'),
        !ext.contains('.'),
        stem != "."@ || ext.len() > 0,
        stem + seq!['.'] + ext != ".."@,
    ensures
        extension_of(stem + seq!['.'] + ext) == ext,
        stem_of(stem + seq!['.'] + ext) == Some(stem),
        !stem.contains('.') ==> extension_of(stem).len() == 0 && stem_of(stem) == Some(stem),
{
    let name = stem + seq!['.'] + ext;
    assert(!name.contains('/')) by {
        if name.contains('/') {
            let i = choose|i: int| 0 <= i < name.len() && name[i] == '/';
            if i < stem.len() {
                assert(stem[i] == '/');
            } else if i > stem.len() {
                assert(ext[i - stem.len() - 1] == '/');
            }
        }
    }
    reveal_strlit(".");
    reveal_strlit("..");
    assert(name.len() >= 2);
    lemma_name_then(name, Seq::empty());
    lemma_last_dot(stem, ext);
    assert(name.take(stem.len() as int) =~= stem);
    assert(name.skip(stem.len() as int + 1) =~= ext);
    if !stem.contains('.') {
        assert(stem != "."@) by {
            if stem == "."@ {
                assert(stem[0] == '.');
            }
        }
        assert(stem != ".."@) by {
            if stem == ".."@ {
                assert(stem[0] == '.');
            }
        }
        lemma_name_then(stem, Seq::empty());
        lemma_no_last(stem, '.');
    }
}

proof fn lemma_no_last(s: Seq<char>, c: char)
    requires
        !s.contains(c),
    ensures
        last_index(s, c) == -1,
    decreases s.len(),
{
    if s.len() > 0 {
        assert(s.contains(s[s.len() - 1]));
        assert forall|i: int| 0 <= i < s.drop_last().len() implies s.drop_last()[i] != c by {
            assert(s.contains(s[i]));
        }
        lemma_no_last(s.drop_last(), c);
    }
}

} // verus!
