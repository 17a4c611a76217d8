//! Unix paths held as text: the components that the separator `/` delimits,
//! the last name of a path, its parent, its stem and extension, and joining.
use vstd::prelude::*;

use crate::text::chars_of;

verus! {

/// A path begins at the root when its first character is the separator.
pub open spec fn has_root(s: Seq<char>) -> bool {
    s.len() > 0 && s[0] == '/'
}

/// A relative path whose first component is `.` (the path `.` itself or one that starts with `./`).
pub open spec fn has_cur_dir(s: Seq<char>) -> bool {
    !has_root(s) && s.len() > 0 && s[0] == '.' && (s.len() == 1 || s[1] == '/')
}

/// Where the body of the path begins: after the root, or after a leading `.` component.
/// Nothing before it is ever trimmed away.
pub open spec fn body_start(s: Seq<char>) -> int {
    if has_root(s) || has_cur_dir(s) {
        1
    } else {
        0
    }
}

/// The index at which the last piece of `s` begins: just after the last separator
/// at or after `lo`, or `lo` when there is none.
pub open spec fn piece_start(s: Seq<char>, lo: int) -> int
    decreases s.len(),
{
    if s.len() == 0 || s.len() <= lo {
        lo
    } else if s.last() == '/' {
        s.len() as int
    } else {
        piece_start(s.drop_last(), lo)
    }
}

/// Where `s` is cut to drop its last piece together with the separator before it.
pub open spec fn piece_cut(s: Seq<char>, lo: int) -> int {
    let p = piece_start(s, lo);
    if p > lo {
        p - 1
    } else {
        lo
    }
}

/// A piece that names no component: the empty piece between two separators, or `.`.
pub open spec fn is_void_piece(p: Seq<char>) -> bool {
    p.len() == 0 || p == seq!['.']
}

/// `s` without its trailing separators and `.` pieces, keeping everything before `lo`.
pub open spec fn trim_back(s: Seq<char>, lo: int) -> Seq<char>
    decreases s.len(),
{
    if lo < 0 || s.len() <= lo {
        s
    } else {
        let p = piece_start(s, lo);
        if is_void_piece(s.subrange(p, s.len() as int)) {
            proof {
                lemma_piece_start_bounds(s, lo);
            }
            trim_back(s.subrange(0, piece_cut(s, lo)), lo)
        } else {
            s
        }
    }
}

/// `s` with its trailing separators and `.` pieces removed.
pub open spec fn normalize_back(s: Seq<char>) -> Seq<char> {
    trim_back(s, body_start(s))
}

/// The final component of the path, when it is a name: not the root, not `.`, not `..`.
pub open spec fn file_name(s: Seq<char>) -> Option<Seq<char>> {
    let lo = body_start(s);
    let t = trim_back(s, lo);
    if t.len() <= lo {
        None
    } else {
        let last = t.subrange(piece_start(t, lo), t.len() as int);
        if last == seq!['.', '.'] {
            None
        } else {
            Some(last)
        }
    }
}

/// The path without its final component; `None` for the root and for the empty path.
pub open spec fn parent(s: Seq<char>) -> Option<Seq<char>> {
    let lo = body_start(s);
    let t = trim_back(s, lo);
    if t.len() > lo {
        Some(trim_back(t.subrange(0, piece_cut(t, lo)), lo))
    } else if has_cur_dir(s) {
        Some(Seq::empty())
    } else {
        None
    }
}

/// The index of the last `.` in `n`, or -1.
pub open spec fn last_dot(n: Seq<char>) -> int
    decreases n.len(),
{
    if n.len() == 0 {
        -1
    } else if n.last() == '.' {
        n.len() - 1
    } else {
        last_dot(n.drop_last())
    }
}

/// The name without its extension; a name that starts with its only dot, or has none, is all stem.
pub open spec fn stem_of(n: Seq<char>) -> Seq<char> {
    let d = last_dot(n);
    if d <= 0 {
        n
    } else {
        n.subrange(0, d)
    }
}

/// What follows the last dot of the name, unless that dot is its first character.
pub open spec fn extension_of(n: Seq<char>) -> Option<Seq<char>> {
    let d = last_dot(n);
    if d <= 0 {
        None
    } else {
        Some(n.subrange(d + 1, n.len() as int))
    }
}

pub open spec fn file_stem(s: Seq<char>) -> Option<Seq<char>> {
    match file_name(s) {
        Some(n) => Some(stem_of(n)),
        None => None,
    }
}

pub open spec fn extension(s: Seq<char>) -> Option<Seq<char>> {
    match file_name(s) {
        Some(n) => extension_of(n),
        None => None,
    }
}

/// `s` followed by `p`: a path from the root replaces `s`; otherwise a separator
/// goes between them unless `s` is empty or already ends with one.
pub open spec fn join(s: Seq<char>, p: Seq<char>) -> Seq<char> {
    if has_root(p) {
        p
    } else if s.len() > 0 && s.last() != '/' {
        s + seq!['/'] + p
    } else {
        s + p
    }
}

/// A name that can stand as one component of a path.
pub open spec fn is_plain_name(n: Seq<char>) -> bool {
    &&& n.len() > 0
    &&& !n.contains('/')
    &&& n != seq!['.']
    &&& n != seq!['.', '.']
}

pub proof fn lemma_piece_start_bounds(s: Seq<char>, lo: int)
    requires
        0 <= lo,
    ensures
        lo <= piece_start(s, lo),
        s.len() >= lo ==> piece_start(s, lo) <= s.len(),
        s.len() > lo && piece_start(s, lo) > lo ==> s[piece_start(s, lo) - 1] == '/',
        forall|i: int| piece_start(s, lo) <= i < s.len() ==> s[i] != '/',
    decreases s.len(),
{
    if s.len() > lo && s.last() != '/' {
        lemma_piece_start_bounds(s.drop_last(), lo);
        assert forall|i: int| piece_start(s, lo) <= i < s.len() implies s[i] != '/' by {
            if i < s.len() - 1 {
                assert(s.drop_last()[i] == s[i]);
            }
        }
    }
}

pub proof fn lemma_trim_back_prefix(s: Seq<char>, lo: int)
    requires
        0 <= lo <= s.len(),
    ensures
        lo <= trim_back(s, lo).len() <= s.len(),
        trim_back(s, lo) == s.subrange(0, trim_back(s, lo).len() as int),
        trim_back(s, lo).len() > lo ==> !is_void_piece(
            trim_back(s, lo).subrange(
                piece_start(trim_back(s, lo), lo),
                trim_back(s, lo).len() as int,
            ),
        ),
    decreases s.len(),
{
    if s.len() > lo {
        lemma_piece_start_bounds(s, lo);
        let p = piece_start(s, lo);
        if is_void_piece(s.subrange(p, s.len() as int)) {
            let r = s.subrange(0, piece_cut(s, lo));
            lemma_trim_back_prefix(r, lo);
            assert(trim_back(s, lo) == trim_back(r, lo));
            let t = trim_back(r, lo);
            assert(t == s.subrange(0, t.len() as int));
        }
    }
    assert(s == s.subrange(0, s.len() as int));
}

/// The length at which `chars[..len]` ends its last piece-free stretch: the index of
/// `piece_start(chars[..len], lo)`.
fn piece_start_exec(chars: &Vec<char>, len: usize, lo: usize) -> (r: usize)
    requires
        lo <= len <= chars.len(),
    ensures
        r == piece_start(chars@.subrange(0, len as int), lo as int),
        lo <= r <= len,
{
    let mut i = len;
    while i > lo && chars[i - 1] != '/'
        invariant
            lo <= i <= len <= chars.len(),
            piece_start(chars@.subrange(0, len as int), lo as int) == piece_start(
                chars@.subrange(0, i as int),
                lo as int,
            ),
        decreases i,
    {
        assert(chars@.subrange(0, i as int).drop_last() =~= chars@.subrange(0, i - 1));
        i = i - 1;
    }
    i
}

fn body_start_exec(chars: &Vec<char>) -> (r: usize)
    ensures
        r == body_start(chars@),
{
    if chars.len() > 0 && chars[0] == '/' {
        1
    } else if chars.len() > 0 && chars[0] == '.' && (chars.len() == 1 || chars[1] == '/') {
        1
    } else {
        0
    }
}

/// The length of `trim_back(chars[..len], lo)`.
fn trim_back_exec(chars: &Vec<char>, len: usize, lo: usize) -> (r: usize)
    requires
        lo <= len <= chars.len(),
    ensures
        chars@.subrange(0, r as int) == trim_back(chars@.subrange(0, len as int), lo as int),
        lo <= r <= len,
{
    let mut n = len;
    loop
        invariant
            lo <= n <= len <= chars.len(),
            trim_back(chars@.subrange(0, len as int), lo as int) == trim_back(
                chars@.subrange(0, n as int),
                lo as int,
            ),
        decreases n,
    {
        if n <= lo {
            return n;
        }
        let ghost s = chars@.subrange(0, n as int);
        let p = piece_start_exec(chars, n, lo);
        proof {
            lemma_piece_start_bounds(s, lo as int);
        }
        let void = p == n || (n - p == 1 && chars[p] == '.');
        assert(void == is_void_piece(s.subrange(p as int, s.len() as int))) by {
            let q = s.subrange(p as int, s.len() as int);
            assert(q.len() == n - p);
            if n - p == 1 {
                assert(q[0] == chars@[p as int]);
                if chars[p as int] == '.' {
                    assert(q =~= seq!['.']);
                } else {
                    assert(q[0] != seq!['.'][0]);
                }
            } else if q.len() != 0 {
                assert(q.len() != seq!['.'].len());
            }
        }
        if !void {
            return n;
        }
        let cut = if p > lo {
            p - 1
        } else {
            lo
        };
        assert(s.subrange(0, cut as int) =~= chars@.subrange(0, cut as int));
        n = cut;
    }
}

/// Where the final name of the path lies in `chars`, when it has one.
fn name_bounds(chars: &Vec<char>) -> (r: Option<(usize, usize)>)
    ensures
        match r {
            Some((a, b)) => a <= b <= chars.len() && file_name(chars@) == Some(
                chars@.subrange(a as int, b as int),
            ),
            None => file_name(chars@) is None,
        },
{
    let lo = body_start_exec(chars);
    assert(chars@.subrange(0, chars.len() as int) =~= chars@);
    let t = trim_back_exec(chars, chars.len(), lo);
    if t <= lo {
        return None;
    }
    let p = piece_start_exec(chars, t, lo);
    let ghost tt = chars@.subrange(0, t as int);
    assert(tt.subrange(p as int, t as int) =~= chars@.subrange(p as int, t as int));
    if t - p == 2 && chars[p] == '.' && chars[p + 1] == '.' {
        assert(chars@.subrange(p as int, t as int) =~= seq!['.', '.']);
        return None;
    }
    assert(chars@.subrange(p as int, t as int) != seq!['.', '.']) by {
        if t - p == 2 {
            let q = chars@.subrange(p as int, t as int);
            assert(q[0] == chars@[p as int]);
            assert(q[1] == chars@[p + 1]);
            assert(q[0] != seq!['.', '.'][0] || q[1] != seq!['.', '.'][1]);
        }
    }
    Some((p, t))
}

/// The index, counted from `from`, of the last `.` in `chars[from..to]`.
fn last_dot_exec(chars: &Vec<char>, from: usize, to: usize) -> (r: Option<usize>)
    requires
        from <= to <= chars.len(),
    ensures
        match r {
            Some(d) => last_dot(chars@.subrange(from as int, to as int)) == d,
            None => last_dot(chars@.subrange(from as int, to as int)) == -1,
        },
{
    let mut i = to;
    while i > from && chars[i - 1] != '.'
        invariant
            from <= i <= to <= chars.len(),
            last_dot(chars@.subrange(from as int, to as int)) == last_dot(
                chars@.subrange(from as int, i as int),
            ),
        decreases i,
    {
        assert(chars@.subrange(from as int, i as int).drop_last() =~= chars@.subrange(
            from as int,
            i - 1,
        ));
        i = i - 1;
    }
    if i == from {
        None
    } else {
        Some(i - 1 - from)
    }
}

/// The final component of the path when it is a name: `Path::file_name`.
pub fn path_file_name(path: &str) -> (r: Option<String>)
    ensures
        match r {
            Some(n) => file_name(path@) == Some(n@),
            None => file_name(path@) is None,
        },
{
    let chars = chars_of(path);
    match name_bounds(&chars) {
        Some((a, b)) => Some(String::from_str(path.substring_char(a, b))),
        None => None,
    }
}

/// The final name without its extension: `Path::file_stem`.
pub fn path_file_stem(path: &str) -> (r: Option<String>)
    ensures
        match r {
            Some(n) => file_stem(path@) == Some(n@),
            None => file_stem(path@) is None,
        },
{
    let chars = chars_of(path);
    match name_bounds(&chars) {
        Some((a, b)) => {
            match last_dot_exec(&chars, a, b) {
                Some(d) if d > 0 => {
                    proof {
                        lemma_last_dot_bounds(chars@.subrange(a as int, b as int));
                    }
                    assert(chars@.subrange(a as int, b as int).subrange(0, d as int)
                        =~= chars@.subrange(a as int, a + d));
                    Some(String::from_str(path.substring_char(a, a + d)))
                },
                _ => Some(String::from_str(path.substring_char(a, b))),
            }
        },
        None => None,
    }
}

/// What follows the last dot of the final name: `Path::extension`.
pub fn path_extension(path: &str) -> (r: Option<String>)
    ensures
        match r {
            Some(e) => extension(path@) == Some(e@),
            None => extension(path@) is None,
        },
{
    let chars = chars_of(path);
    match name_bounds(&chars) {
        Some((a, b)) => {
            match last_dot_exec(&chars, a, b) {
                Some(d) if d > 0 => {
                    proof {
                        lemma_last_dot_bounds(chars@.subrange(a as int, b as int));
                    }
                    assert(chars@.subrange(a as int, b as int).subrange(d + 1, b - a)
                        =~= chars@.subrange(a + d + 1, b as int));
                    Some(String::from_str(path.substring_char(a + d + 1, b)))
                },
                _ => None,
            }
        },
        None => None,
    }
}

/// The path without its final component: `Path::parent`.
pub fn path_parent(path: &str) -> (r: Option<String>)
    ensures
        match r {
            Some(p) => parent(path@) == Some(p@),
            None => parent(path@) is None,
        },
{
    let chars = chars_of(path);
    let lo = body_start_exec(&chars);
    assert(chars@.subrange(0, chars.len() as int) =~= chars@);
    let t = trim_back_exec(&chars, chars.len(), lo);
    if t > lo {
        let p = piece_start_exec(&chars, t, lo);
        let cut = if p > lo {
            p - 1
        } else {
            lo
        };
        let ghost tt = chars@.subrange(0, t as int);
        assert(tt.subrange(0, cut as int) =~= chars@.subrange(0, cut as int));
        let e = trim_back_exec(&chars, cut, lo);
        Some(String::from_str(path.substring_char(0, e)))
    } else if chars.len() > 0 && chars[0] == '.' && (chars.len() == 1 || chars[1] == '/') {
        Some(String::new())
    } else {
        None
    }
}

/// `base` followed by `tail`: `Path::join`.
pub fn path_join(base: &str, tail: &str) -> (r: String)
    ensures
        r@ == join(base@, tail@),
{
    let b = chars_of(base);
    let t = chars_of(tail);
    if t.len() > 0 && t[0] == '/' {
        return String::from_str(tail);
    }
    let mut r = String::from_str(base);
    if b.len() > 0 && b[b.len() - 1] != '/' {
        let sep = "/";
        proof {
            reveal_strlit("/");
        }
        r.append(sep);
    }
    r.append(tail);
    r
}

pub proof fn lemma_last_dot_bounds(n: Seq<char>)
    ensures
        -1 <= last_dot(n) < n.len(),
        last_dot(n) >= 0 ==> n[last_dot(n)] == '.',
        forall|i: int| last_dot(n) < i < n.len() ==> n[i] != '.',
    decreases n.len(),
{
    if n.len() > 0 && n.last() != '.' {
        lemma_last_dot_bounds(n.drop_last());
        assert forall|i: int| last_dot(n) < i < n.len() implies n[i] != '.' by {
            if i < n.len() - 1 {
                assert(n.drop_last()[i] == n[i]);
            }
        }
    }
}

} // verus!
