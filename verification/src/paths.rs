//! Paths as the tools see them: `/`-separated text, by the rules of
//! `std::path::Path` on Unix. On Windows `Path` also takes `\` as a
//! separator and calls a path absolute only with a drive or UNC prefix
//! (`C:\x`, `\\server\share`); those rules are not modelled here, so what
//! this module states holds of the Unix build.
use vstd::prelude::*;
use vstd::string::StringExecFns;

use crate::text::{chars_of, string_from_range};

verus! {

/// A path is absolute when it starts at the root `/` (the Unix rule).
pub open spec fn is_absolute(p: Seq<char>) -> bool {
    p.len() > 0 && p[0] == '/'
}

/// `base` joined with `rel` as `Path::join` does on Unix: an absolute `rel` replaces
/// `base`; otherwise a separator is put between them unless `base` is empty
/// or already ends in one.
pub open spec fn join_path(base: Seq<char>, rel: Seq<char>) -> Seq<char> {
    if is_absolute(rel) {
        rel
    } else if base.len() > 0 && base.last() != '/' {
        base + seq!['/'] + rel
    } else {
        base + rel
    }
}

/// `path` taken relative to `working_dir` when it is relative and there is one.
pub open spec fn resolved(path: Seq<char>, working_dir: Option<Seq<char>>) -> Seq<char> {
    if is_absolute(path) {
        path
    } else {
        match working_dir {
            Some(wd) => join_path(wd, path),
            None => path,
        }
    }
}

/// The directory a search starts from: the given path resolved against the
/// working directory, else the working directory, else `.`.
pub open spec fn search_root_spec(path: Option<Seq<char>>, working_dir: Option<Seq<char>>) -> Seq<char> {
    match path {
        Some(p) => resolved(p, working_dir),
        None => match working_dir {
            Some(wd) => wd,
            None => seq!['.'],
        },
    }
}

fn starts_with_root(p: &str) -> (b: bool)
    ensures
        b == is_absolute(p@),
{
    let cs = chars_of(p);
    cs.len() > 0 && cs[0] == '/'
}

/// Joins two paths as `Path::join` does on Unix.
pub fn join(base: &str, rel: &str) -> (r: String)
    ensures
        r@ == join_path(base@, rel@),
{
    if starts_with_root(rel) {
        return String::from_str(rel);
    }
    let b = chars_of(base);
    let mut out = String::from_str(base);
    if b.len() > 0 && b[b.len() - 1] != '/' {
        out.push('/');
    }
    out.push_str(rel);
    out
}

/// Resolves `path` against `working_dir` by the Unix path rules: an
/// absolute path, or any path when there is no working directory, is kept;
/// a relative one is joined to the working directory.
pub fn resolve_path(path: &str, working_dir: Option<&String>) -> (r: String)
    ensures
        r@ == resolved(path@, match working_dir {
            Some(wd) => Some(wd@),
            None => None,
        }),
{
    if starts_with_root(path) {
        String::from_str(path)
    } else {
        match working_dir {
            Some(wd) => join(wd.as_str(), path),
            None => String::from_str(path),
        }
    }
}

/// The directory a search starts from: `path` resolved against
/// `working_dir` when given, else `working_dir`, else `.`.
pub fn search_root(path: Option<&String>, working_dir: Option<&String>) -> (r: String)
    ensures
        r@ == search_root_spec(
            match path {
                Some(p) => Some(p@),
                None => None,
            },
            match working_dir {
                Some(wd) => Some(wd@),
                None => None,
            },
        ),
{
    match path {
        Some(p) => resolve_path(p.as_str(), working_dir),
        None => match working_dir {
            Some(wd) => wd.clone(),
            None => {
                let mut s = String::new();
                s.push('.');
                s
            },
        },
    }
}

// ---------------------------------------------------------------------------
// File names and extensions
// ---------------------------------------------------------------------------

/// Index of the last `c` in `s`, or -1.
pub open spec fn last_index_of(s: Seq<char>, c: char) -> int
    decreases s.len(),
{
    if s.len() == 0 {
        -1
    } else if s.last() == c {
        s.len() - 1
    } else {
        last_index_of(s.drop_last(), c)
    }
}

pub proof fn lemma_last_index_of(s: Seq<char>, c: char)
    ensures
        -1 <= last_index_of(s, c) < s.len(),
        last_index_of(s, c) >= 0 ==> s[last_index_of(s, c)] == c,
        forall|j: int| last_index_of(s, c) < j < s.len() ==> s[j] != c,
    decreases s.len(),
{
    if s.len() > 0 && s.last() != c {
        lemma_last_index_of(s.drop_last(), c);
        assert forall|j: int| last_index_of(s, c) < j < s.len() implies s[j] != c by {
            if j < s.len() - 1 {
                assert(s[j] == s.drop_last()[j]);
            }
        }
    }
}

/// The last `/`-separated part of `p` that is neither empty nor `.` (on
/// Unix `/` is the only separator).
pub open spec fn last_component(p: Seq<char>) -> Option<Seq<char>>
    decreases p.len(),
{
    let k = last_index_of(p, '/');
    let seg = p.skip(k + 1);
    if seg.len() > 0 && seg != seq!['.'] {
        Some(seg)
    } else if k < 0 {
        None
    } else {
        proof {
            lemma_last_index_of(p, '/');
        }
        last_component(p.take(k))
    }
}

/// The file name of `p`, as `Path::file_name` gives it on Unix: none when the path
/// ends in `..` or has no normal part.
pub open spec fn file_name(p: Seq<char>) -> Option<Seq<char>> {
    match last_component(p) {
        Some(c) => if c == seq!['.', '.'] {
            None
        } else {
            Some(c)
        },
        None => None,
    }
}

/// The extension of a file name, as `Path::extension` gives it: what follows
/// the last `.`, unless there is no `.` or the only one starts the name.
pub open spec fn extension_of(name: Seq<char>) -> Option<Seq<char>> {
    let j = last_index_of(name, '.');
    if j <= 0 {
        None
    } else {
        Some(name.skip(j + 1))
    }
}

/// The extension of the path's file name.
pub open spec fn path_extension(p: Seq<char>) -> Option<Seq<char>> {
    match file_name(p) {
        Some(n) => extension_of(n),
        None => None,
    }
}

/// Finds the last `c` in `cs[..to]`.
fn find_last(cs: &Vec<char>, to: usize, c: char) -> (r: Option<usize>)
    requires
        to <= cs.len(),
    ensures
        match r {
            Some(k) => k as int == last_index_of(cs@.take(to as int), c),
            None => last_index_of(cs@.take(to as int), c) == -1,
        },
{
    let mut i: usize = to;
    proof {
        lemma_last_index_of(cs@.take(to as int), c);
    }
    while i > 0
        invariant
            i <= to <= cs.len(),
            last_index_of(cs@.take(to as int), c) == last_index_of(cs@.take(i as int), c),
        decreases i,
    {
        let ghost t = cs@.take(i as int);
        assert(t.last() == cs@[i - 1]);
        if cs[i - 1] == c {
            return Some(i - 1);
        }
        assert(t.drop_last() =~= cs@.take(i - 1));
        i -= 1;
    }
    None
}

/// The extension of the file name of `path`, as `Path::extension` gives it
/// on Unix.
pub fn extension(path: &str) -> (r: Option<String>)
    ensures
        match path_extension(path@) {
            Some(e) => r is Some && r->0@ == e,
            None => r is None,
        },
{
    let cs = chars_of(path);
    let mut to: usize = cs.len();
    assert(cs@.take(to as int) =~= path@);
    let mut name: Option<(usize, usize)> = None;
    loop
        invariant
            to <= cs.len(),
            name is None ==> last_component(path@) == last_component(cs@.take(to as int)),
            name matches Some((a, b)) ==> a <= b <= cs.len() && last_component(path@) == Some(
                cs@.subrange(a as int, b as int),
            ),
        ensures
            name matches Some((a, b)) && a <= b <= cs.len() && last_component(path@) == Some(
                cs@.subrange(a as int, b as int),
            ),
        decreases to + (if name is None { 1int } else { 0int }),
    {
        if name.is_some() {
            break;
        }
        let ghost p = cs@.take(to as int);
        let k = find_last(&cs, to, '/');
        proof {
            lemma_last_index_of(p, '/');
        }
        let seg_start: usize = match k {
            Some(k) => k + 1,
            None => 0,
        };
        proof {
            lemma_last_index_of(p, '/');
            assert(p.skip(last_index_of(p, '/') + 1) =~= cs@.subrange(seg_start as int, to as int));
        }
        let len = to - seg_start;
        if len > 0 && !(len == 1 && cs[seg_start] == '.') {
            proof {
                if cs@.subrange(seg_start as int, to as int) == seq!['.'] {
                    assert(cs@.subrange(seg_start as int, to as int)[0] == cs@[seg_start as int]);
                }
            }
            name = Some((seg_start, to));
        } else {
            proof {
                if len == 1 {
                    assert(cs@.subrange(seg_start as int, to as int) =~= seq!['.']);
                }
            }
            match k {
                None => {
                    return None;
                },
                Some(k) => {
                    assert(p.take(k as int) =~= cs@.take(k as int));
                    to = k;
                },
            }
        }
    }
    let (a, b) = match name {
        Some(ab) => ab,
        None => {
            return None;
        },
    };
    let ghost n = cs@.subrange(a as int, b as int);
    if b - a == 2 && cs[a] == '.' && cs[a + 1] == '.' {
        assert(n =~= seq!['.', '.']);
        return None;
    }
    proof {
        if n == seq!['.', '.'] {
            assert(n[0] == cs@[a as int] && n[1] == cs@[a + 1]);
        }
    }
    let seg = string_from_range(&cs, a, b);
    let sc = chars_of(seg.as_str());
    let n_len = sc.len();
    assert(sc@.take(n_len as int) =~= n);
    proof {
        lemma_last_index_of(n, '.');
    }
    match find_last(&sc, n_len, '.') {
        None => None,
        Some(j) => {
            if j == 0 {
                None
            } else {
                let e = string_from_range(&sc, j + 1, n_len);
                assert(e@ =~= n.skip(j + 1));
                Some(e)
            }
        },
    }
}

// ---------------------------------------------------------------------------
// Laws
// ---------------------------------------------------------------------------

/// An absolute path resolves to itself, whatever the working directory.
pub proof fn lemma_absolute_ignores_working_dir(path: Seq<char>, working_dir: Option<Seq<char>>)
    requires
        is_absolute(path),
    ensures
        resolved(path, working_dir) == path,
{
}

/// Against an absolute working directory every path resolves to an absolute
/// one, and resolving it again changes nothing.
pub proof fn lemma_resolve_idempotent(path: Seq<char>, wd: Seq<char>)
    requires
        is_absolute(wd),
    ensures
        is_absolute(resolved(path, Some(wd))),
        resolved(resolved(path, Some(wd)), Some(wd)) == resolved(path, Some(wd)),
{
    let r = resolved(path, Some(wd));
    if !is_absolute(path) {
        if wd.last() != '/' {
            assert(r[0] == wd[0]);
        } else {
            assert(r[0] == wd[0]);
        }
    }
}

} // verus!
