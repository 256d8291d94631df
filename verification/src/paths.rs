//! Paths and URLs as texts whose segments are parted by `/`.

use crate::text::{append, from_chars, matches_at, matches_at_exec, to_chars};
use vstd::prelude::*;

verus! {

/// The position of the last `c` in `s`, or -1 where there is none.
pub open spec fn last_index_of(s: Seq<char>, c: char) -> int
    decreases s.len(),
{
    if s.len() == 0 {
        -1
    } else if s.last() == c {
        s.len() - 1
    } else {
        last_index_of(s.drop_last(), c)
    }
}

/// `p` without the slashes at its end.
pub open spec fn trim_end_slashes(p: Seq<char>) -> Seq<char>
    decreases p.len(),
{
    if p.len() > 0 && p.last() == '/' {
        trim_end_slashes(p.drop_last())
    } else {
        p
    }
}

/// `p` without what does not count at its end: slashes, and segments that
/// are a single dot.
pub open spec fn trim_end(p: Seq<char>) -> Seq<char>
    decreases p.len(),
{
    if p.len() > 0 && p.last() == '/' {
        trim_end(p.drop_last())
    } else if p.len() >= 2 && p.last() == '.' && p[p.len() - 2] == '/' {
        trim_end(p.take(p.len() - 2))
    } else {
        p
    }
}

/// `p` without the slashes at its start.
pub open spec fn trim_start_slashes(p: Seq<char>) -> Seq<char>
    decreases p.len(),
{
    if p.len() > 0 && p[0] == '/' {
        trim_start_slashes(p.skip(1))
    } else {
        p
    }
}

/// The last segment of `p`, slashes and single dots at the end set aside:
/// the name of the file or directory. A path of slashes and dots alone has
/// none, nor has one that ends in `..`.
pub open spec fn file_name(p: Seq<char>) -> Option<Seq<char>> {
    let t = trim_end(p);
    let name = t.skip(last_index_of(t, '/') + 1);
    if name.len() == 0 || name == seq!['.', '.'] || name == seq!['.'] {
        None
    } else {
        Some(name)
    }
}

/// Whether the name `name` has an extension: a dot that is not its first
/// character.
pub open spec fn name_has_extension(name: Seq<char>) -> bool {
    last_index_of(name, '.') > 0
}

/// Whether the path `p` names a file with an extension.
pub open spec fn has_extension(p: Seq<char>) -> bool {
    match file_name(p) {
        Some(name) => name_has_extension(name),
        None => false,
    }
}

/// The file name of `p` up to its extension.
pub open spec fn file_stem(p: Seq<char>) -> Option<Seq<char>> {
    match file_name(p) {
        Some(name) => if name_has_extension(name) {
            Some(name.take(last_index_of(name, '.')))
        } else {
            Some(name)
        },
        None => None,
    }
}

/// The directory that holds `p`: `p` up to its last segment. The root and
/// the empty path have none; a single relative segment lies in the empty
/// directory.
pub open spec fn parent(p: Seq<char>) -> Option<Seq<char>> {
    let t = trim_end(p);
    if t.len() == 0 {
        None
    } else {
        let i = last_index_of(t, '/');
        if i < 0 {
            Some(Seq::<char>::empty())
        } else {
            let d = trim_end(t.take(i));
            if d.len() == 0 {
                Some(seq!['/'])
            } else {
                Some(d)
            }
        }
    }
}

/// `rel` below the directory `base`; a `rel` that starts at the root
/// stands for itself.
pub open spec fn join(base: Seq<char>, rel: Seq<char>) -> Seq<char> {
    if rel.len() > 0 && rel[0] == '/' {
        rel
    } else if base.len() == 0 {
        rel
    } else if base.last() == '/' {
        base + rel
    } else {
        base + seq!['/'] + rel
    }
}

/// Whether `path` lies at or below `base`, segment by segment.
pub open spec fn lies_below(path: Seq<char>, base: Seq<char>) -> bool {
    let b = trim_end_slashes(base);
    matches_at(path, b, 0) && (path.len() == b.len() || path[b.len() as int] == '/')
}

/// `path` as seen from `base`: a relative path as it is, as is any path
/// seen from the empty base; an absolute one without the prefix `base`, and
/// nothing where it does not lie below `base`.
pub open spec fn relative_to(path: Seq<char>, base: Seq<char>) -> Option<Seq<char>> {
    if path.len() > 0 && path[0] == '/' && base.len() > 0 {
        if lies_below(path, base) {
            Some(trim_start_slashes(path.skip(trim_end_slashes(base).len() as int)))
        } else {
            None
        }
    } else {
        Some(path)
    }
}

/// The position of the last `c` in `s`.
fn last_index_of_exec(s: &Vec<char>, n: usize, c: char) -> (r: Option<usize>)
    requires
        n <= s.len(),
    ensures
        match r {
            Some(i) => i < n && last_index_of(s@.take(n as int), c) == i,
            None => last_index_of(s@.take(n as int), c) == -1,
        },
{
    let mut i: usize = n;
    while i > 0
        invariant
            i <= n,
            n <= s.len(),
            last_index_of(s@.take(n as int), c) == last_index_of(s@.take(i as int), c),
        decreases i,
    {
        proof {
            assert(s@.take(i as int).drop_last() =~= s@.take(i - 1));
            assert(s@.take(i as int).last() == s@[i - 1]);
        }
        if s[i - 1] == c {
            return Some(i - 1);
        }
        i = i - 1;
    }
    None
}

/// The length of `s` without the slashes at its end.
fn trimmed_len(s: &Vec<char>, n: usize) -> (r: usize)
    requires
        n <= s.len(),
    ensures
        r <= n,
        trim_end_slashes(s@.take(n as int)) == s@.take(r as int),
{
    let mut i: usize = n;
    while i > 0 && s[i - 1] == '/'
        invariant
            i <= n,
            n <= s.len(),
            trim_end_slashes(s@.take(n as int)) == trim_end_slashes(s@.take(i as int)),
        decreases i,
    {
        proof {
            assert(s@.take(i as int).drop_last() =~= s@.take(i - 1));
            assert(s@.take(i as int).last() == s@[i - 1]);
        }
        i = i - 1;
    }
    proof {
        if i > 0 {
            assert(s@.take(i as int).last() == s@[i - 1]);
        }
    }
    i
}

/// The length of `s` without what does not count at its end.
fn trimmed_end(s: &Vec<char>, n: usize) -> (r: usize)
    requires
        n <= s.len(),
    ensures
        r <= n,
        trim_end(s@.take(n as int)) == s@.take(r as int),
{
    let mut i: usize = n;
    let mut more: bool = true;
    while more
        invariant
            i <= n,
            n <= s.len(),
            trim_end(s@.take(n as int)) == trim_end(s@.take(i as int)),
            !more ==> trim_end(s@.take(i as int)) == s@.take(i as int),
        decreases i + if more { 1nat } else { 0nat },
    {
        let ghost t = s@.take(i as int);
        proof {
            if i > 0 {
                assert(t.last() == s@[i - 1]);
                assert(t.drop_last() =~= s@.take(i - 1));
            }
            if i >= 2 {
                assert(t[t.len() - 2] == s@[i - 2]);
                assert(t.take(t.len() - 2) =~= s@.take(i - 2));
            }
        }
        if i > 0 && s[i - 1] == '/' {
            i = i - 1;
        } else if i >= 2 && s[i - 1] == '.' && s[i - 2] == '/' {
            i = i - 2;
        } else {
            more = false;
        }
    }
    i
}

/// The number of slashes at the start of `s`, from position `from` on.
fn leading_slashes_end(s: &Vec<char>, from: usize) -> (r: usize)
    requires
        from <= s.len(),
    ensures
        from <= r <= s.len(),
        trim_start_slashes(s@.skip(from as int)) == s@.skip(r as int),
{
    let mut i: usize = from;
    while i < s.len() && s[i] == '/'
        invariant
            from <= i <= s.len(),
            trim_start_slashes(s@.skip(from as int)) == trim_start_slashes(s@.skip(i as int)),
        decreases s.len() - i,
    {
        proof {
            assert(s@.skip(i as int).skip(1) =~= s@.skip(i + 1));
        }
        i = i + 1;
    }
    i
}

/// The characters of `s` from `from` up to `to`.
pub(crate) fn slice(s: &Vec<char>, from: usize, to: usize) -> (out: Vec<char>)
    requires
        from <= to <= s.len(),
    ensures
        out@ == s@.subrange(from as int, to as int),
{
    let mut out: Vec<char> = Vec::new();
    let mut i: usize = from;
    while i < to
        invariant
            from <= i <= to,
            to <= s.len(),
            out@ == s@.subrange(from as int, i as int),
        decreases to - i,
    {
        out.push(s[i]);
        i = i + 1;
        assert(out@ =~= s@.subrange(from as int, i as int));
    }
    out
}

/// The bounds of the file name within `s`.
fn file_name_bounds(s: &Vec<char>) -> (r: Option<(usize, usize)>)
    ensures
        match r {
            Some((from, to)) => from <= to <= s.len() && file_name(s@) == Some(
                s@.subrange(from as int, to as int),
            ),
            None => file_name(s@) is None,
        },
{
    proof {
        assert(s@.take(s.len() as int) =~= s@);
    }
    let to = trimmed_end(s, s.len());
    let from = match last_index_of_exec(s, to, '/') {
        Some(i) => i + 1,
        None => 0,
    };
    proof {
        assert(s@.take(to as int).skip(from as int) =~= s@.subrange(from as int, to as int));
    }
    if to - from == 0 {
        return None;
    }
    if to - from == 2 && s[from] == '.' && s[from + 1] == '.' {
        assert(s@.subrange(from as int, to as int) =~= seq!['.', '.']);
        return None;
    }
    if to - from == 1 && s[from] == '.' {
        assert(s@.subrange(from as int, to as int) =~= seq!['.']);
        return None;
    }
    proof {
        let name = s@.subrange(from as int, to as int);
        if name == seq!['.', '.'] {
            assert(name.len() == 2);
            assert(name[0] == '.' && name[1] == '.');
        }
        if name == seq!['.'] {
            assert(name.len() == 1);
            assert(name[0] == '.');
        }
    }
    Some((from, to))
}

/// The position that ends the stem of the name `s[from..to]`.
fn stem_end(s: &Vec<char>, from: usize, to: usize) -> (r: (usize, bool))
    requires
        from <= to <= s.len(),
    ensures
        from <= r.0 <= to,
        r.1 == name_has_extension(s@.subrange(from as int, to as int)),
        r.1 ==> r.0 - from == last_index_of(s@.subrange(from as int, to as int), '.'),
        !r.1 ==> r.0 == to,
{
    let name = slice(s, from, to);
    proof {
        assert(name@.take(name.len() as int) =~= name@);
    }
    match last_index_of_exec(&name, name.len(), '.') {
        Some(i) => if i > 0 {
            (from + i, true)
        } else {
            (to, false)
        },
        None => (to, false),
    }
}

/// The file name of `path`.
pub fn file_name_exec(path: &str) -> (r: Option<String>)
    ensures
        match r {
            Some(name) => file_name(path@) == Some(name@),
            None => file_name(path@) is None,
        },
{
    let s = to_chars(path);
    match file_name_bounds(&s) {
        Some((from, to)) => Some(from_chars(&slice(&s, from, to))),
        None => None,
    }
}

/// Whether `path` names a file with an extension.
pub fn has_extension_exec(path: &str) -> (r: bool)
    ensures
        r == has_extension(path@),
{
    let s = to_chars(path);
    match file_name_bounds(&s) {
        Some((from, to)) => stem_end(&s, from, to).1,
        None => false,
    }
}

/// The file name of `path` up to its extension.
pub fn file_stem_exec(path: &str) -> (r: Option<String>)
    ensures
        match r {
            Some(stem) => file_stem(path@) == Some(stem@),
            None => file_stem(path@) is None,
        },
{
    let s = to_chars(path);
    match file_name_bounds(&s) {
        Some((from, to)) => {
            let end = stem_end(&s, from, to);
            proof {
                let name = s@.subrange(from as int, to as int);
                if end.1 {
                    assert(name.take(end.0 - from) =~= s@.subrange(from as int, end.0 as int));
                }
            }
            Some(from_chars(&slice(&s, from, end.0)))
        },
        None => None,
    }
}

/// The directory that holds `path`.
pub fn parent_exec(path: &str) -> (r: Option<String>)
    ensures
        match r {
            Some(dir) => parent(path@) == Some(dir@),
            None => parent(path@) is None,
        },
{
    let s = to_chars(path);
    proof {
        assert(s@.take(s.len() as int) =~= s@);
    }
    let to = trimmed_end(&s, s.len());
    if to == 0 {
        return None;
    }
    match last_index_of_exec(&s, to, '/') {
        None => Some(String::new()),
        Some(i) => {
            proof {
                assert(s@.take(to as int).take(i as int) =~= s@.take(i as int));
            }
            let end = trimmed_end(&s, i);
            if end == 0 {
                let mut root: Vec<char> = Vec::new();
                root.push('/');
                assert(root@ =~= seq!['/']);
                Some(from_chars(&root))
            } else {
                proof {
                    assert(s@.take(end as int) =~= s@.subrange(0, end as int));
                }
                Some(from_chars(&slice(&s, 0, end)))
            }
        },
    }
}

/// `path` without the slashes at its start.
pub fn trim_start_slashes_exec(path: &str) -> (out: String)
    ensures
        out@ == trim_start_slashes(path@),
{
    let s = to_chars(path);
    proof {
        assert(s@.skip(0) =~= s@);
    }
    let from = leading_slashes_end(&s, 0);
    proof {
        assert(s@.skip(from as int) =~= s@.subrange(from as int, s.len() as int));
    }
    from_chars(&slice(&s, from, s.len()))
}

/// `rel` below the directory `base`.
pub fn join_exec(base: &str, rel: &str) -> (out: String)
    ensures
        out@ == join(base@, rel@),
{
    let b = to_chars(base);
    let r = to_chars(rel);
    if r.len() > 0 && r[0] == '/' {
        return from_chars(&r);
    }
    if b.len() == 0 {
        return from_chars(&r);
    }
    let mut out: Vec<char> = Vec::new();
    append(&mut out, &b);
    if b[b.len() - 1] != '/' {
        out.push('/');
    }
    append(&mut out, &r);
    assert(out@ =~= join(base@, rel@));
    from_chars(&out)
}

/// `path` as seen from `base`.
pub fn make_relative(path: &str, base: &str) -> (r: Option<String>)
    ensures
        match r {
            Some(rel) => relative_to(path@, base@) == Some(rel@),
            None => relative_to(path@, base@) is None,
        },
{
    let p = to_chars(path);
    let b = to_chars(base);
    if p.len() == 0 || p[0] != '/' || b.len() == 0 {
        return Some(from_chars(&p));
    }
    proof {
        assert(b@.take(b.len() as int) =~= b@);
    }
    let n = trimmed_len(&b, b.len());
    let prefix = slice(&b, 0, n);
    proof {
        assert(b@.take(n as int) =~= b@.subrange(0, n as int));
    }
    if !matches_at_exec(&p, &prefix, 0) {
        return None;
    }
    if p.len() != n && p[n] != '/' {
        return None;
    }
    let from = leading_slashes_end(&p, n);
    proof {
        assert(p@.skip(from as int) =~= p@.subrange(from as int, p.len() as int));
    }
    Some(from_chars(&slice(&p, from, p.len())))
}

} // verus!
