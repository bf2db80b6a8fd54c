//! Unix path handling on strings: the final component of a path, its
//! extension, replacing the extension, and joining a relative name onto a
//! directory.
use vstd::prelude::*;
use crate::text::chars_of;
use vstd::string::StrSliceExecFns;

verus! {

/// Index of the last occurrence of `c` in `s`, or -1.
pub open spec fn last_index_of(s: Seq<char>, c: char) -> int
    decreases s.len(),
{
    if s.len() == 0 {
        -1
    } else if s.last() == c {
        s.len() - 1
    } else {
        last_index_of(s.drop_last(), c)
    }
}

/// `p` without its trailing separators and trailing `.` components, which
/// name no file of their own.
pub open spec fn trim_end(p: Seq<char>) -> Seq<char>
    decreases p.len(),
{
    if p.len() > 0 && p.last() == '/' {
        trim_end(p.drop_last())
    } else if p.len() >= 2 && p.last() == '.' && p[p.len() - 2] == '/' {
        trim_end(p.drop_last())
    } else {
        p
    }
}

/// Index in `p` where the final component starts.
pub open spec fn name_start(p: Seq<char>) -> int {
    last_index_of(trim_end(p), '/') + 1
}

/// The final component of `p`, if it names a file or directory: absent for
/// an empty path, the root, `.` and a path that ends in `..`.
pub open spec fn file_name(p: Seq<char>) -> Option<Seq<char>> {
    let t = trim_end(p);
    let n = t.subrange(name_start(p), t.len() as int);
    if n.len() == 0 || n == seq!['.'] || n == seq!['.', '.'] {
        None
    } else {
        Some(n)
    }
}

/// The extension of `p`: what follows the last `.` of the file name, unless
/// that `.` is the first character of the name or there is none.
pub open spec fn extension(p: Seq<char>) -> Option<Seq<char>> {
    match file_name(p) {
        Some(n) => {
            let d = last_index_of(n, '.');
            if d <= 0 {
                None
            } else {
                Some(n.subrange(d + 1, n.len() as int))
            }
        },
        None => None,
    }
}

/// Index in `p` where the stem of the file name (the name without its
/// extension) ends.
pub open spec fn stem_end(p: Seq<char>) -> int {
    let t = trim_end(p);
    let n = t.subrange(name_start(p), t.len() as int);
    let d = last_index_of(n, '.');
    if d <= 0 {
        t.len() as int
    } else {
        name_start(p) + d
    }
}

/// `p` with its extension replaced by `ext` (removed when `ext` is empty);
/// unchanged when `p` has no file name.
pub open spec fn with_extension(p: Seq<char>, ext: Seq<char>) -> Seq<char> {
    if file_name(p) is None {
        p
    } else if ext.len() == 0 {
        p.subrange(0, stem_end(p))
    } else {
        p.subrange(0, stem_end(p)) + seq!['.'] + ext
    }
}

/// `name` pushed onto `base`: an absolute `name` replaces `base`, otherwise a
/// separator is put between them unless `base` is empty or already ends in one.
pub open spec fn join(base: Seq<char>, name: Seq<char>) -> Seq<char> {
    if name.len() > 0 && name[0] == '/' {
        name
    } else if base.len() > 0 && base.last() != '/' {
        base + seq!['/'] + name
    } else {
        base + name
    }
}

pub proof fn lemma_last_index_of_bounds(s: Seq<char>, c: char)
    ensures
        -1 <= last_index_of(s, c) < s.len(),
        last_index_of(s, c) >= 0 ==> s[last_index_of(s, c)] == c,
        forall|j: int| last_index_of(s, c) < j < s.len() ==> s[j] != c,
    decreases s.len(),
{
    if s.len() > 0 && s.last() != c {
        lemma_last_index_of_bounds(s.drop_last(), c);
        assert forall|j: int| last_index_of(s, c) < j < s.len() implies s[j] != c by {
            if j < s.len() - 1 {
                assert(s[j] == s.drop_last()[j]);
            }
        }
    }
}

/// A path made of a non-empty `q` that does not end in a separator, a `.` and
/// a text `e` free of separators and dots has the extension `e`, however many
/// dots `q` holds.
pub proof fn lemma_extension_of_suffix(q: Seq<char>, e: Seq<char>)
    requires
        q.len() > 0,
        q.last() != '/',
        e.len() > 0,
        forall|i: int| 0 <= i < e.len() ==> e[i] != '/' && e[i] != '.',
    ensures
        extension(q + seq!['.'] + e) == Some(e),
{
    let p = q + seq!['.'] + e;
    assert(p.last() == e.last());
    assert(trim_end(p) == p);
    lemma_last_index_of_bounds(p, '/');
    let l = last_index_of(p, '/');
    assert forall|j: int| q.len() <= j < p.len() implies p[j] != '/' && (j > q.len() ==> p[j] != '.') by {
        if j > q.len() {
            assert(p[j] == e[j - q.len() - 1]);
        }
    }
    assert(p[q.len() - 1] == q.last());
    assert(l < q.len() - 1);
    let n = p.subrange(l + 1, p.len() as int);
    assert(name_start(p) == l + 1);
    assert(n.len() >= 3);
    assert(file_name(p) == Some(n));
    let d = q.len() - (l + 1);
    assert(n[d] == '.');
    lemma_last_index_of_bounds(n, '.');
    let ld = last_index_of(n, '.');
    assert forall|j: int| d < j < n.len() implies n[j] != '.' by {
        assert(n[j] == p[j + l + 1]);
    }
    if ld < d {
        assert(n[d] != '.');
    }
    if ld > d {
        assert(n[ld] == '.');
    }
    assert(ld == d);
    assert(n.subrange(d + 1, n.len() as int) =~= e);
}

/// A path without any `.` has no extension.
pub proof fn lemma_no_dot_no_extension(p: Seq<char>)
    requires
        forall|i: int| 0 <= i < p.len() ==> p[i] != '.',
    ensures
        extension(p) is None,
{
    if let Some(n) = file_name(p) {
        let t = trim_end(p);
        lemma_trim_end_prefix(p);
        lemma_last_index_of_bounds(t, '/');
        lemma_last_index_of_bounds(n, '.');
        let d = last_index_of(n, '.');
        if d >= 0 {
            assert(n[d] == t[name_start(p) + d]);
            assert(t[name_start(p) + d] == p[name_start(p) + d]);
        }
    }
}

proof fn lemma_trim_end_prefix(p: Seq<char>)
    ensures
        trim_end(p).len() <= p.len(),
        trim_end(p) == p.subrange(0, trim_end(p).len() as int),
    decreases p.len(),
{
    if p.len() > 0 && p.last() == '/' {
        lemma_trim_end_prefix(p.drop_last());
    } else if p.len() >= 2 && p.last() == '.' && p[p.len() - 2] == '/' {
        lemma_trim_end_prefix(p.drop_last());
    } else {
        assert(p == p.subrange(0, p.len() as int));
    }
}

/// One past the index of the last occurrence of `c` in `v[start..end]`
/// (relative to `start`), or 0 when there is none.
fn find_last(v: &Vec<char>, start: usize, end: usize, c: char) -> (r: usize)
    requires
        start <= end <= v.len(),
    ensures
        r == last_index_of(v@.subrange(start as int, end as int), c) + 1,
{
    let mut n: usize = end;
    while n > start
        invariant
            start <= n <= end <= v.len(),
            last_index_of(v@.subrange(start as int, end as int), c) == last_index_of(
                v@.subrange(start as int, n as int),
                c,
            ),
        decreases n,
    {
        assert(v@.subrange(start as int, n as int).drop_last() =~= v@.subrange(
            start as int,
            n - 1,
        ));
        if v[n - 1] == c {
            return n - start;
        }
        n = n - 1;
    }
    0
}

/// Length of `trim_end(v)`.
fn trimmed_len(v: &Vec<char>) -> (r: usize)
    ensures
        trim_end(v@) == v@.subrange(0, r as int),
        r <= v.len(),
{
    let mut n: usize = v.len();
    assert(v@ =~= v@.subrange(0, n as int));
    loop
        invariant
            n <= v.len(),
            trim_end(v@) == trim_end(v@.subrange(0, n as int)),
        decreases n,
    {
        if n > 0 {
            assert(v@.subrange(0, n as int).drop_last() =~= v@.subrange(0, n - 1));
        }
        if n > 0 && v[n - 1] == '/' {
            n = n - 1;
        } else if n >= 2 && v[n - 1] == '.' && v[n - 2] == '/' {
            n = n - 1;
        } else {
            return n;
        }
    }
}

/// Bounds of the final component of `v`: `(start, end)` with
/// `end == trim_end(v).len()`.
fn name_bounds(v: &Vec<char>) -> (r: (usize, usize))
    ensures
        r.0 == name_start(v@),
        r.1 == trim_end(v@).len(),
        r.0 <= r.1 <= v.len(),
        trim_end(v@) == v@.subrange(0, r.1 as int),
        trim_end(v@).subrange(r.0 as int, r.1 as int) == v@.subrange(r.0 as int, r.1 as int),
{
    let end = trimmed_len(v);
    let last = find_last(v, 0, end, '/');
    proof {
        lemma_last_index_of_bounds(v@.subrange(0, end as int), '/');
        assert(v@.subrange(0, end as int).subrange(last as int, end as int) =~= v@.subrange(
            last as int,
            end as int,
        ));
    }
    (last, end)
}

/// Whether `v[s..e]` is empty, `.` or `..`.
fn is_empty_or_dots(v: &Vec<char>, s: usize, e: usize) -> (r: bool)
    requires
        s <= e <= v.len(),
    ensures
        r == ({
            let n = v@.subrange(s as int, e as int);
            n.len() == 0 || n == seq!['.'] || n == seq!['.', '.']
        }),
{
    let ghost n = v@.subrange(s as int, e as int);
    assert(seq!['.'].len() == 1 && seq!['.', '.'].len() == 2);
    if e == s {
        true
    } else if e - s == 1 {
        if v[s] == '.' {
            assert(n =~= seq!['.']);
            true
        } else {
            assert(n[0] != seq!['.'][0]);
            false
        }
    } else if e - s == 2 {
        if v[s] == '.' && v[s + 1] == '.' {
            assert(n =~= seq!['.', '.']);
            true
        } else {
            assert(n[0] != '.' || n[1] != '.');
            false
        }
    } else {
        false
    }
}

/// The final component of the path `p` (see `file_name`).
pub fn path_file_name(p: &str) -> (r: Option<String>)
    ensures
        r matches Some(n) ==> file_name(p@) == Some(n@),
        r is None ==> file_name(p@) is None,
{
    let v = chars_of(p);
    let (s, e) = name_bounds(&v);
    if is_empty_or_dots(&v, s, e) {
        None
    } else {
        Some(String::from_str(p.substring_char(s, e)))
    }
}

/// The extension of the path `p` (see `extension`).
pub fn path_extension(p: &str) -> (r: Option<String>)
    ensures
        r matches Some(x) ==> extension(p@) == Some(x@),
        r is None ==> extension(p@) is None,
{
    let v = chars_of(p);
    let (s, e) = name_bounds(&v);
    if is_empty_or_dots(&v, s, e) {
        return None;
    }
    let d = find_last(&v, s, e, '.');
    proof {
        lemma_last_index_of_bounds(v@.subrange(s as int, e as int), '.');
    }
    if d <= 1 {
        None
    } else {
        proof {
            assert(v@.subrange(s as int, e as int).subrange(d as int, (e - s) as int)
                =~= v@.subrange(s + d, e as int));
        }
        Some(String::from_str(p.substring_char(s + d, e)))
    }
}

/// The path `p` with its extension replaced by `ext` (see `with_extension`).
pub fn path_with_extension(p: &str, ext: &str) -> (r: String)
    ensures
        r@ == with_extension(p@, ext@),
{
    let v = chars_of(p);
    let (s, e) = name_bounds(&v);
    if is_empty_or_dots(&v, s, e) {
        return String::from_str(p);
    }
    let d = find_last(&v, s, e, '.');
    proof {
        lemma_last_index_of_bounds(v@.subrange(s as int, e as int), '.');
        lemma_trim_end_prefix(v@);
    }
    let stem = if d <= 1 { e } else { s + d - 1 };
    let mut r = String::from_str(p.substring_char(0, stem));
    if ext.unicode_len() > 0 {
        r.append(".");
        r.append(ext);
        proof {
            reveal_strlit(".");
            assert(r@ =~= p@.subrange(0, stem as int) + seq!['.'] + ext@);
        }
    }
    r
}

/// `name` pushed onto the directory path `base` (see `join`).
pub fn path_join(base: &str, name: &str) -> (r: String)
    ensures
        r@ == join(base@, name@),
{
    let bv = chars_of(base);
    let nv = chars_of(name);
    if nv.len() > 0 && nv[0] == '/' {
        return String::from_str(name);
    }
    let mut r = String::from_str(base);
    if bv.len() > 0 && bv[bv.len() - 1] != '/' {
        r.append("/");
        proof {
            reveal_strlit("/");
            assert("/"@ =~= seq!['/']);
        }
    }
    r.append(name);
    r
}

} // verus!
