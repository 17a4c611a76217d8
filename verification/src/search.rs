//! Which replays the search box lets through, and where they fall in the grid.
use vstd::prelude::*;

use crate::path::{file_stem, path_file_stem};
use crate::text::chars_of;

verus! {

/// The Unicode lower case of a text, as `str::to_lowercase` maps it.
pub uninterp spec fn lowercase(s: Seq<char>) -> Seq<char>;

/// `str::to_lowercase`. The contract claims only that the result is `lowercase` of the
/// argument: the Unicode case tables are not written out here.
#[verifier::external_body]
fn to_lowercase(s: &str) -> (r: String)
    ensures
        r@ == lowercase(s@),
{
    s.to_lowercase()
}

/// `needle` occurs in `hay` as a stretch of consecutive characters.
pub open spec fn text_contains(hay: Seq<char>, needle: Seq<char>) -> bool {
    exists|i: int|
        0 <= i && i + needle.len() <= hay.len() && #[trigger] hay.subrange(i, i + needle.len())
            == needle
}

/// A replay matches the search when the lower case of its file stem contains the
/// lower case of the query; a path without a stem matches nothing.
pub open spec fn matches_search(entry: Seq<char>, query: Seq<char>) -> bool {
    match file_stem(entry) {
        Some(stem) => text_contains(lowercase(stem), lowercase(query)),
        None => false,
    }
}

/// The indices of the entries that match the search, in order.
pub open spec fn matching_indices(entries: Seq<Seq<char>>, query: Seq<char>) -> Seq<int>
    decreases entries.len(),
{
    if entries.len() == 0 {
        Seq::empty()
    } else {
        let rest = matching_indices(entries.drop_last(), query);
        if matches_search(entries.last(), query) {
            rest.push(entries.len() - 1)
        } else {
            rest
        }
    }
}

/// The texts of a list of strings.
pub open spec fn views_of(s: Seq<String>) -> Seq<Seq<char>> {
    s.map_values(|x: String| x@)
}

/// Whether `needle` occurs in `hay`.
fn contains_chars(hay: &Vec<char>, needle: &Vec<char>) -> (r: bool)
    ensures
        r == text_contains(hay@, needle@),
{
    if needle.len() > hay.len() {
        return false;
    }
    let last = hay.len() - needle.len();
    let mut i: usize = 0;
    while i <= last
        invariant
            last == hay.len() - needle.len(),
            needle.len() <= hay.len(),
            i <= last + 1,
            forall|k: int| 0 <= k < i ==> #[trigger] hay@.subrange(k, k + needle.len()) != needle@,
        decreases last + 1 - i,
    {
        let mut j: usize = 0;
        while j < needle.len() && hay[i + j] == needle[j]
            invariant
                i <= last,
                last == hay.len() - needle.len(),
                j <= needle.len(),
                forall|m: int| 0 <= m < j ==> hay@[i + m] == needle@[m],
            decreases needle.len() - j,
        {
            j = j + 1;
        }
        if j == needle.len() {
            assert(hay@.subrange(i as int, i + needle.len()) =~= needle@);
            return true;
        }
        assert(hay@.subrange(i as int, i + needle.len())[j as int] != needle@[j as int]);
        i = i + 1;
    }
    assert forall|k: int| 0 <= k && k + needle.len() <= hay.len() implies #[trigger] hay@.subrange(
        k,
        k + needle.len(),
    ) != needle@ by {}
    false
}

/// Whether the replay at `entry` is shown for the search `query`.
pub fn search_matches(entry: &str, query: &str) -> (r: bool)
    ensures
        r == matches_search(entry@, query@),
{
    match path_file_stem(entry) {
        Some(stem) => {
            let hay = to_lowercase(stem.as_str());
            let needle = to_lowercase(query);
            let hay_chars = chars_of(hay.as_str());
            let needle_chars = chars_of(needle.as_str());
            contains_chars(&hay_chars, &needle_chars)
        },
        None => false,
    }
}

/// The replays that the search lets through, each with its index in `replays`.
pub fn filter_replays(replays: &Vec<String>, query: &str) -> (r: Vec<(usize, String)>)
    ensures
        r.len() == matching_indices(views_of(replays@), query@).len(),
        forall|k: int|
            0 <= k < r.len() ==> (#[trigger] r@[k]).0 == matching_indices(
                views_of(replays@),
                query@,
            )[k] && r@[k].0 < replays.len() && r@[k].1@ == replays@[r@[k].0 as int]@,
{
    let ghost views = views_of(replays@);
    let mut r: Vec<(usize, String)> = Vec::new();
    let mut i: usize = 0;
    while i < replays.len()
        invariant
            i <= replays.len(),
            views == views_of(replays@),
            r.len() == matching_indices(views.take(i as int), query@).len(),
            forall|k: int|
                0 <= k < r.len() ==> (#[trigger] r@[k]).0 == matching_indices(
                    views.take(i as int),
                    query@,
                )[k] && r@[k].0 < replays.len() && r@[k].1@ == replays@[r@[k].0 as int]@,
        decreases replays.len() - i,
    {
        let ghost prev = matching_indices(views.take(i as int), query@);
        assert(views.take(i + 1).drop_last() =~= views.take(i as int));
        assert(views.take(i + 1).last() == replays[i as int]@);
        let ghost old_r = r@;
        let hit = search_matches(replays[i].as_str(), query);
        if hit {
            r.push((i, replays[i].clone()));
        }
        proof {
            let next = matching_indices(views.take(i + 1), query@);
            if hit {
                assert(next == prev.push(i as int));
            } else {
                assert(next == prev);
            }
            assert forall|k: int| 0 <= k < r.len() implies (#[trigger] r@[k]).0 == next[k] && r@[k].0
                < replays.len() && r@[k].1@ == replays@[r@[k].0 as int]@ by {
                if k < old_r.len() {
                    assert(r@[k] == old_r[k]);
                }
            }
        }
        i = i + 1;
    }
    assert(views.take(replays.len() as int) =~= views);
    r
}

/// How many rows a grid of `columns` columns takes for `count` replays; never fewer
/// than one unless there are more columns than that.
pub fn total_rows(count: usize, columns: usize) -> (r: usize)
    requires
        columns > 0,
        count + columns - 1 <= usize::MAX,
    ensures
        r == (if count + columns - 1 > 1 {
            count + columns - 1
        } else {
            1
        }) / (columns as int),
{
    let span = count + (columns - 1);
    let span = if span > 1 {
        span
    } else {
        1
    };
    span / columns
}

/// The position in the filtered list of the cell at `row` and `column`, when a replay
/// stands there.
pub fn grid_slot(row: usize, column: usize, columns: usize, count: usize) -> (r: Option<usize>)
    ensures
        r == (if row * columns + column < count {
            Some((row * columns + column) as usize)
        } else {
            None
        }),
{
    match row.checked_mul(columns) {
        Some(start) => match start.checked_add(column) {
            Some(idx) => if idx < count {
                Some(idx)
            } else {
                None
            },
            None => None,
        },
        None => {
            assert(row * columns + column >= count) by (nonlinear_arith)
                requires
                    row * columns > usize::MAX,
                    count <= usize::MAX,
                    column >= 0,
            ;
            None
        },
    }
}

/// The search ignores case: queries with the same lower case let the same replays through.
pub proof fn law_search_ignores_case(entry: Seq<char>, q1: Seq<char>, q2: Seq<char>)
    requires
        lowercase(q1) == lowercase(q2),
    ensures
        matches_search(entry, q1) == matches_search(entry, q2),
{
}

/// A text contains every stretch of it, wherever it stands.
pub proof fn law_contains_anywhere(a: Seq<char>, n: Seq<char>, b: Seq<char>)
    ensures
        text_contains(a + n + b, n),
{
    let h = a + n + b;
    assert(h.subrange(a.len() as int, a.len() as int + n.len()) =~= n);
}

/// A text contains only what stands in it: some text before it and some after.
pub proof fn law_contains_only_occurrences(h: Seq<char>, n: Seq<char>)
    requires
        text_contains(h, n),
    ensures
        exists|a: Seq<char>, b: Seq<char>| h == a + n + b,
{
    let i = choose|i: int|
        0 <= i && i + n.len() <= h.len() && #[trigger] h.subrange(i, i + n.len()) == n;
    let a = h.subrange(0, i);
    let b = h.subrange(i + n.len(), h.len() as int);
    assert(h =~= a + n + b);
}

/// A replay is shown when the lower case of the query stands anywhere in the lower
/// case of its stem.
pub proof fn law_search_finds_word_in_stem(
    entry: Seq<char>,
    query: Seq<char>,
    before: Seq<char>,
    after: Seq<char>,
)
    requires
        file_stem(entry) is Some,
        lowercase(file_stem(entry).unwrap()) == before + lowercase(query) + after,
    ensures
        matches_search(entry, query),
{
    law_contains_anywhere(before, lowercase(query), after);
}

} // verus!
