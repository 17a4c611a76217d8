//! What holds of the path operations taken together.
use vstd::prelude::*;

use crate::path::{
    body_start, extension, file_name, file_stem, has_cur_dir, has_root, is_plain_name, is_void_piece,
    join, last_dot, lemma_last_dot_bounds, lemma_piece_start_bounds, lemma_trim_back_prefix,
    normalize_back, parent, piece_start, trim_back,
};

verus! {

pub proof fn lemma_piece_start_no_sep_suffix(a: Seq<char>, b: Seq<char>, lo: int)
    requires
        0 <= lo <= a.len(),
        !b.contains('/'),
    ensures
        piece_start(a + b, lo) == piece_start(a, lo),
    decreases b.len(),
{
    if b.len() > 0 {
        let ab = a + b;
        assert(ab.last() == b.last());
        assert(b.contains(b.last()) ==> b.last() != '/');
        assert(b.contains(b[b.len() - 1]));
        assert(ab.drop_last() =~= a + b.drop_last());
        assert forall|c: char| b.drop_last().contains(c) implies b.contains(c) by {
            let i = choose|i: int| 0 <= i < b.drop_last().len() && b.drop_last()[i] == c;
            assert(b[i] == c);
        }
        lemma_piece_start_no_sep_suffix(a, b.drop_last(), lo);
    } else {
        assert(a + b =~= a);
    }
}

/// Where the last piece of `join(d, n)` begins, for a plain name `n`.
proof fn lemma_join_piece(d: Seq<char>, n: Seq<char>)
    requires
        is_plain_name(n),
    ensures
        body_start(join(d, n)) == body_start(d),
        join(d, n).len() > body_start(d),
        piece_start(join(d, n), body_start(d)) == join(d, n).len() - n.len(),
        join(d, n).subrange(join(d, n).len() - n.len(), join(d, n).len() as int) == n,
        trim_back(join(d, n), body_start(d)) == join(d, n),
{
    let j = join(d, n);
    let lo = body_start(d);
    assert(!has_root(n)) by {
        assert(n.contains(n[0]));
    }
    if d.len() == 0 {
        assert(j =~= n);
        assert(!has_cur_dir(n)) by {
            if n.len() > 1 {
                assert(n.contains(n[1]));
            } else if n.len() == 1 && n[0] == '.' {
                assert(n =~= seq!['.']);
            }
        }
        assert(Seq::<char>::empty() + n =~= n);
        lemma_piece_start_no_sep_suffix(Seq::<char>::empty(), n, 0);
    } else {
        let a = if d.last() != '/' {
            d + seq!['/']
        } else {
            d
        };
        assert(j =~= a + n);
        assert(a.len() >= 1 && a.last() == '/');
        assert(j[0] == d[0]);
        if d.len() == 1 {
            if d[0] == '.' {
                assert(j[1] == '/');
            }
        } else {
            assert(j[1] == d[1]);
        }
        assert(body_start(j) == lo);
        assert(lo <= a.len());
        lemma_piece_start_no_sep_suffix(a, n, lo);
        assert(piece_start(a, lo) == a.len());
        assert(j.subrange(a.len() as int, j.len() as int) =~= n);
    }
    lemma_piece_start_bounds(j, lo);
    assert(!is_void_piece(n)) by {
        if n.len() == 1 && n[0] == '.' {
            assert(n =~= seq!['.']);
        }
    }
}

/// The name of a path, when it has one, is a plain name: non-empty, free of separators,
/// neither `.` nor `..`.
pub proof fn law_file_name_is_plain(s: Seq<char>)
    ensures
        file_name(s) matches Some(n) ==> is_plain_name(n),
{
    let lo = body_start(s);
    lemma_trim_back_prefix(s, lo);
    let t = trim_back(s, lo);
    if t.len() > lo {
        lemma_piece_start_bounds(t, lo);
        let p = piece_start(t, lo);
        let last = t.subrange(p, t.len() as int);
        assert(!last.contains('/')) by {
            if last.contains('/') {
                let i = choose|i: int| 0 <= i < last.len() && last[i] == '/';
                assert(t[p + i] == '/');
            }
        }
    }
}

/// Joining a plain name onto a path gives a path whose name is that name.
pub proof fn law_join_file_name(d: Seq<char>, n: Seq<char>)
    requires
        is_plain_name(n),
    ensures
        file_name(join(d, n)) == Some(n),
{
    lemma_join_piece(d, n);
}

/// Joining a plain name onto a path gives a path whose parent is that path without
/// its trailing separators and `.` pieces.
pub proof fn law_join_parent(d: Seq<char>, n: Seq<char>)
    requires
        is_plain_name(n),
    ensures
        parent(join(d, n)) == Some(normalize_back(d)),
{
    lemma_join_piece(d, n);
    let j = join(d, n);
    let lo = body_start(d);
    let k = j.len() - n.len();
    if d.len() == 0 {
        assert(j.subrange(0, lo) =~= d);
    } else if d.last() != '/' {
        assert(j.subrange(0, k - 1) =~= d);
    } else if d.len() > lo {
        assert(j.subrange(0, k - 1) =~= d.drop_last());
        assert(piece_start(d, lo) == d.len());
        assert(d.subrange(d.len() as int, d.len() as int) =~= Seq::<char>::empty());
        assert(d.subrange(0, d.len() - 1) =~= d.drop_last());
    } else {
        assert(j.subrange(0, lo) =~= d);
    }
}

/// The name of a path is its stem, then a dot and its extension when it has one.
pub proof fn law_stem_and_extension(s: Seq<char>)
    ensures
        file_stem(s) is Some <==> file_name(s) is Some,
        extension(s) matches Some(e) ==> file_name(s) == Some(
            file_stem(s).unwrap() + seq!['.'] + e,
        ),
        extension(s) is None ==> file_stem(s) == file_name(s),
{
    if let Some(n) = file_name(s) {
        lemma_last_dot_bounds(n);
        let d = last_dot(n);
        if d > 0 {
            assert(n =~= n.subrange(0, d) + seq!['.'] + n.subrange(d + 1, n.len() as int));
        }
    }
}

} // verus!
