//! The order in which replays are listed: by a key read from each file, ties kept in
//! the order in which the files were found.
use vstd::prelude::*;

use crate::path::file_stem;
use crate::text::chars_of;
use crate::videoutils::{get_creation_date, get_mod_date, get_name, get_size, FileMetadata, FsError};

verus! {

/// What the replays are sorted by.
#[derive(Clone, Copy, PartialEq, Eq, Structural)]
pub enum Sorting {
    CreationDate,
    ModificationDate,
    Name,
    Size,
}

/// The key of one replay. A key that could not be read sorts before every key that could.
pub enum SortKey {
    Missing,
    Time(i128),
    Text(String),
    Size(u64),
}

/// Lexicographic order on texts, character by character; a proper prefix comes first.
pub open spec fn text_lt(a: Seq<char>, b: Seq<char>) -> bool
    decreases a.len(),
{
    if b.len() == 0 {
        false
    } else if a.len() == 0 {
        true
    } else if a[0] != b[0] {
        (a[0] as int) < (b[0] as int)
    } else {
        text_lt(a.drop_first(), b.drop_first())
    }
}

/// A key as plain values: the kind of key, its number, its text.
pub open spec fn key_view(k: SortKey) -> (int, int, Seq<char>) {
    match k {
        SortKey::Missing => (0, 0, Seq::empty()),
        SortKey::Time(t) => (1, t as int, Seq::empty()),
        SortKey::Text(s) => (2, 0, s@),
        SortKey::Size(n) => (3, n as int, Seq::empty()),
    }
}

/// The strict order on keys.
pub open spec fn key_lt(a: SortKey, b: SortKey) -> bool {
    let (ra, xa, sa) = key_view(a);
    let (rb, xb, sb) = key_view(b);
    ra < rb || (ra == rb && (xa < xb || (xa == xb && text_lt(sa, sb))))
}

/// Whether the entry at index `i` goes before the one at index `j`: a smaller key
/// first, and among equal keys the one found first.
pub open spec fn goes_before(keys: Seq<SortKey>, i: int, j: int) -> bool {
    key_lt(keys[i], keys[j]) || (key_view(keys[i]) == key_view(keys[j]) && i < j)
}

/// `order` lists every index of `keys` once, in the order of a stable sort by key.
pub open spec fn is_stable_order(keys: Seq<SortKey>, order: Seq<usize>) -> bool {
    &&& order.len() == keys.len()
    &&& forall|p: int| 0 <= p < order.len() ==> order[p] < keys.len()
    &&& forall|p: int, q: int|
        0 <= p < q < order.len() ==> goes_before(keys, order[p] as int, order[q] as int)
}

/// The key that a sort by `sorting` gives to the file at `path`, whose metadata
/// (or the error that reading it gave) is `metadata`.
pub open spec fn is_key_for(
    sorting: Sorting,
    path: Seq<char>,
    metadata: Result<FileMetadata, FsError>,
    key: SortKey,
) -> bool {
    match sorting {
        Sorting::CreationDate => key == match metadata {
            Ok(m) => match m.created {
                Ok(t) => SortKey::Time(t.nanos),
                Err(_) => SortKey::Missing,
            },
            Err(_) => SortKey::Missing,
        },
        Sorting::ModificationDate => key == match metadata {
            Ok(m) => match m.modified {
                Ok(t) => SortKey::Time(t.nanos),
                Err(_) => SortKey::Missing,
            },
            Err(_) => SortKey::Missing,
        },
        Sorting::Name => match file_stem(path) {
            Some(n) => key matches SortKey::Text(s) && s@ == n,
            None => key is Missing,
        },
        Sorting::Size => key == match metadata {
            Ok(m) => SortKey::Size(m.len),
            Err(_) => SortKey::Missing,
        },
    }
}

/// The key by which a replay is sorted.
pub fn sort_key(sorting: Sorting, path: &str, metadata: Result<FileMetadata, FsError>) -> (r:
    SortKey)
    ensures
        is_key_for(sorting, path@, metadata, r),
{
    match sorting {
        Sorting::CreationDate => match get_creation_date(metadata) {
            Ok(t) => SortKey::Time(t.nanos),
            Err(_) => SortKey::Missing,
        },
        Sorting::ModificationDate => match get_mod_date(metadata) {
            Ok(t) => SortKey::Time(t.nanos),
            Err(_) => SortKey::Missing,
        },
        Sorting::Name => match get_name(path) {
            Ok(n) => SortKey::Text(n),
            Err(_) => SortKey::Missing,
        },
        Sorting::Size => match get_size(metadata) {
            Ok(n) => SortKey::Size(n),
            Err(_) => SortKey::Missing,
        },
    }
}

pub proof fn lemma_text_lt_irreflexive(a: Seq<char>)
    ensures
        !text_lt(a, a),
    decreases a.len(),
{
    if a.len() > 0 {
        lemma_text_lt_irreflexive(a.drop_first());
    }
}

pub proof fn lemma_text_lt_transitive(a: Seq<char>, b: Seq<char>, c: Seq<char>)
    requires
        text_lt(a, b),
        text_lt(b, c),
    ensures
        text_lt(a, c),
    decreases a.len(),
{
    if a.len() > 0 && b.len() > 0 && c.len() > 0 && a[0] == b[0] && b[0] == c[0] {
        lemma_text_lt_transitive(a.drop_first(), b.drop_first(), c.drop_first());
    }
}

pub proof fn lemma_text_lt_total(a: Seq<char>, b: Seq<char>)
    ensures
        text_lt(a, b) || text_lt(b, a) || a == b,
        !(text_lt(a, b) && text_lt(b, a)),
    decreases a.len(),
{
    if a.len() > 0 && b.len() > 0 && a[0] == b[0] {
        lemma_text_lt_total(a.drop_first(), b.drop_first());
        if a.drop_first() == b.drop_first() {
            assert(a =~= seq![a[0]] + a.drop_first());
            assert(b =~= seq![b[0]] + b.drop_first());
        }
    } else if a.len() > 0 && b.len() > 0 {
        assert((a[0] as int) != (b[0] as int));
    } else if a.len() == 0 && b.len() == 0 {
        assert(a =~= b);
    }
}

/// `key_lt` is a strict total order on key views.
pub proof fn lemma_key_order(a: SortKey, b: SortKey, c: SortKey)
    ensures
        !key_lt(a, a),
        key_lt(a, b) ==> !key_lt(b, a),
        key_lt(a, b) || key_lt(b, a) || key_view(a) == key_view(b),
        key_lt(a, b) && key_lt(b, c) ==> key_lt(a, c),
        key_lt(a, b) && key_view(b) == key_view(c) ==> key_lt(a, c),
        key_view(a) == key_view(b) && key_lt(b, c) ==> key_lt(a, c),
{
    let (ra, xa, sa) = key_view(a);
    let (rb, xb, sb) = key_view(b);
    let (rc, xc, sc) = key_view(c);
    lemma_text_lt_irreflexive(sa);
    lemma_text_lt_total(sa, sb);
    if text_lt(sa, sb) && text_lt(sb, sc) {
        lemma_text_lt_transitive(sa, sb, sc);
    }
}

/// Lexicographic comparison of two texts.
fn text_less(a: &Vec<char>, b: &Vec<char>) -> (r: bool)
    ensures
        r == text_lt(a@, b@),
{
    let mut i: usize = 0;
    assert(a@.subrange(0, a.len() as int) =~= a@);
    assert(b@.subrange(0, b.len() as int) =~= b@);
    while i < a.len() && i < b.len() && a[i] == b[i]
        invariant
            i <= a.len(),
            i <= b.len(),
            text_lt(a@, b@) == text_lt(a@.subrange(i as int, a.len() as int), b@.subrange(i as int, b.len() as int)),
        decreases a.len() - i,
    {
        let ghost sa = a@.subrange(i as int, a.len() as int);
        let ghost sb = b@.subrange(i as int, b.len() as int);
        assert(sa.drop_first() =~= a@.subrange(i + 1, a.len() as int));
        assert(sb.drop_first() =~= b@.subrange(i + 1, b.len() as int));
        i = i + 1;
    }
    let ghost sa = a@.subrange(i as int, a.len() as int);
    let ghost sb = b@.subrange(i as int, b.len() as int);
    if i == b.len() {
        false
    } else if i == a.len() {
        true
    } else {
        assert(sa[0] == a[i as int] && sb[0] == b[i as int]);
        a[i] < b[i]
    }
}

/// Whether key `a` sorts strictly before key `b`.
pub fn key_less(a: &SortKey, b: &SortKey) -> (r: bool)
    ensures
        r == key_lt(*a, *b),
{
    match (a, b) {
        (SortKey::Missing, SortKey::Missing) => false,
        (SortKey::Missing, _) => true,
        (_, SortKey::Missing) => false,
        (SortKey::Time(x), SortKey::Time(y)) => *x < *y,
        (SortKey::Time(_), _) => true,
        (_, SortKey::Time(_)) => false,
        (SortKey::Text(x), SortKey::Text(y)) => {
            let xs = chars_of(x.as_str());
            let ys = chars_of(y.as_str());
            text_less(&xs, &ys)
        },
        (SortKey::Text(_), _) => true,
        (_, SortKey::Text(_)) => false,
        (SortKey::Size(x), SortKey::Size(y)) => *x < *y,
    }
}

/// The indices of `keys` in the order of a stable sort by key.
pub fn stable_order(keys: &Vec<SortKey>) -> (order: Vec<usize>)
    ensures
        is_stable_order(keys@, order@),
{
    let n = keys.len();
    let mut order: Vec<usize> = Vec::new();
    for i in 0..n
        invariant
            n == keys.len(),
            order.len() == i,
            forall|p: int| 0 <= p < order.len() ==> order[p] < i,
            forall|p: int, q: int|
                0 <= p < q < order.len() ==> goes_before(keys@, order[p] as int, order[q] as int),
    {
        let mut j = order.len();
        while j > 0 && key_less(&keys[i], &keys[order[j - 1]])
            invariant
                n == keys.len(),
                i < n,
                j <= order.len() == i,
                forall|p: int| 0 <= p < order.len() ==> order[p] < i,
                forall|q: int| j <= q < order.len() ==> key_lt(keys@[i as int], keys@[order[q] as int]),
            decreases j,
        {
            j = j - 1;
        }
        proof {
            assert forall|p: int| 0 <= p < j implies !key_lt(keys@[i as int], keys@[order[p] as int]) by {
                let last = order[j - 1] as int;
                assert(!key_lt(keys@[i as int], keys@[last]));
                if p < j - 1 {
                    assert(goes_before(keys@, order[p] as int, last));
                    lemma_key_order(keys@[i as int], keys@[order[p] as int], keys@[last]);
                }
            }
        }
        let ghost old_order = order@;
        order.insert(j, i);
        proof {
            assert forall|p: int, q: int| 0 <= p < q < order.len() implies goes_before(
                keys@,
                order[p] as int,
                order[q] as int,
            ) by {
                if p == j {
                    assert(order[q] == old_order[q - 1]);
                } else if q == j {
                    assert(order[p] == old_order[p]);
                    lemma_key_order(keys@[i as int], keys@[order[p] as int], keys@[i as int]);
                } else {
                    let op = if p < j { p } else { p - 1 };
                    let oq = if q < j { q } else { q - 1 };
                    assert(order[p] == old_order[op]);
                    assert(order[q] == old_order[oq]);
                }
            }
        }
    }
    order
}

spec fn lists(o: Seq<usize>, k: int) -> bool {
    exists|p: int| 0 <= p < o.len() && o[p] == k
}

/// An injective listing of indices below `n` that has `n` entries lists every one of them.
proof fn lemma_order_covers(o: Seq<usize>, n: int)
    requires
        o.len() == n,
        forall|p: int| 0 <= p < n ==> o[p] < n,
        forall|p: int, q: int| 0 <= p < q < n ==> o[p] != o[q],
    ensures
        forall|k: int| 0 <= k < n ==> #[trigger] lists(o, k),
{
    let oi = o.map_values(|x: usize| x as int);
    assert(oi.no_duplicates()) by {
        assert forall|i: int, j: int| 0 <= i < oi.len() && 0 <= j < oi.len() && i != j implies oi[i]
            != oi[j] by {
            if i < j {
                assert(o[i] != o[j]);
            } else {
                assert(o[j] != o[i]);
            }
        }
    }
    oi.unique_seq_to_set();
    vstd::set_lib::lemma_int_range(0, n);
    vstd::seq_lib::seq_to_set_is_finite(oi);
    assert(oi.to_set().subset_of(vstd::set_lib::set_int_range(0, n))) by {
        assert forall|k: int| oi.to_set().contains(k) implies vstd::set_lib::set_int_range(
            0,
            n,
        ).contains(k) by {
            let p = choose|p: int| 0 <= p < oi.len() && oi[p] == k;
            assert(o[p] < n);
        }
    }
    vstd::set_lib::lemma_subset_equality(oi.to_set(), vstd::set_lib::set_int_range(0, n));
    assert forall|k: int| 0 <= k < n implies #[trigger] lists(o, k) by {
        assert(vstd::set_lib::set_int_range(0, n).contains(k));
        assert(oi.to_set().contains(k));
        let p = choose|p: int| 0 <= p < oi.len() && oi[p] == k;
        assert(o[p] == k);
    }
}

proof fn lemma_goes_before_asymmetric(keys: Seq<SortKey>, i: int, j: int)
    requires
        0 <= i < keys.len(),
        0 <= j < keys.len(),
    ensures
        !(goes_before(keys, i, j) && goes_before(keys, j, i)),
{
    lemma_key_order(keys[i], keys[j], keys[i]);
    lemma_key_order(keys[j], keys[i], keys[j]);
}

proof fn lemma_orders_agree_upto(keys: Seq<SortKey>, o1: Seq<usize>, o2: Seq<usize>, p: int)
    requires
        is_stable_order(keys, o1),
        is_stable_order(keys, o2),
        0 <= p < keys.len(),
    ensures
        forall|r: int| 0 <= r <= p ==> o1[r] == o2[r],
    decreases p,
{
    let n = keys.len() as int;
    if p > 0 {
        lemma_orders_agree_upto(keys, o1, o2, p - 1);
    }
    assert forall|x: int, y: int| 0 <= x < y < n implies o1[x] != o1[y] && o2[x] != o2[y] by {
        lemma_goes_before_asymmetric(keys, o1[x] as int, o1[x] as int);
        lemma_goes_before_asymmetric(keys, o2[x] as int, o2[x] as int);
    }
    lemma_order_covers(o1, n);
    lemma_order_covers(o2, n);
    let a = o1[p];
    let b = o2[p];
    assert(0 <= a < n);
    assert(0 <= b < n);
    assert(lists(o2, a as int));
    assert(lists(o1, b as int));
    let q = choose|q: int| 0 <= q < n && o2[q] == a;
    let q2 = choose|q: int| 0 <= q < n && o1[q] == b;
    if q < p {
        assert(o1[q] == o2[q]);
    }
    if q2 < p {
        assert(o1[q2] == o2[q2]);
    }
    if q != p && q2 != p {
        assert(goes_before(keys, b as int, a as int));
        assert(goes_before(keys, a as int, b as int));
        lemma_goes_before_asymmetric(keys, a as int, b as int);
    }
}

/// A stable sort has one outcome: two orders that both list every index once,
/// sorted by key with ties in index order, are the same order.
pub proof fn law_stable_order_unique(keys: Seq<SortKey>, o1: Seq<usize>, o2: Seq<usize>)
    requires
        is_stable_order(keys, o1),
        is_stable_order(keys, o2),
    ensures
        o1 == o2,
{
    if keys.len() > 0 {
        lemma_orders_agree_upto(keys, o1, o2, keys.len() - 1);
    }
    assert(o1 =~= o2);
}

/// Dates are ordered by their full value: an earlier time sorts first.
pub proof fn law_time_keys_by_value(x: i128, y: i128)
    ensures
        key_lt(SortKey::Time(x), SortKey::Time(y)) <==> x < y,
{
}

/// Sizes are ordered by their full value: a smaller file sorts first.
pub proof fn law_size_keys_by_value(x: u64, y: u64)
    ensures
        key_lt(SortKey::Size(x), SortKey::Size(y)) <==> x < y,
{
}

/// A key that could not be read sorts before every key that could, and after none.
pub proof fn law_missing_keys_first(k: SortKey)
    ensures
        key_lt(SortKey::Missing, k) <==> !(k is Missing),
        !key_lt(k, SortKey::Missing),
{
}

proof fn lemma_text_lt_common_prefix(p: Seq<char>, u: Seq<char>, v: Seq<char>)
    ensures
        text_lt(p + u, p + v) == text_lt(u, v),
    decreases p.len(),
{
    if p.len() > 0 {
        assert((p + u).drop_first() =~= p.drop_first() + u);
        assert((p + v).drop_first() =~= p.drop_first() + v);
        lemma_text_lt_common_prefix(p.drop_first(), u, v);
    } else {
        assert(p + u =~= u);
        assert(p + v =~= v);
    }
}

/// Names are ordered character by character: after a common beginning, the smaller
/// character sorts first, and a name sorts before any longer name that it begins.
pub proof fn law_text_keys_lexicographic(
    a: String,
    b: String,
    common: Seq<char>,
    c: char,
    d: char,
    x: Seq<char>,
    y: Seq<char>,
)
    ensures
        a@ == common + seq![c] + x && b@ == common + seq![d] + y && (c as int) < (d as int)
            ==> key_lt(SortKey::Text(a), SortKey::Text(b)),
        a@ == common && b@ == common + seq![c] + x ==> key_lt(SortKey::Text(a), SortKey::Text(b)),
{
    if a@ == common + seq![c] + x && b@ == common + seq![d] + y && (c as int) < (d as int) {
        assert(a@ =~= common + (seq![c] + x));
        assert(b@ =~= common + (seq![d] + y));
        lemma_text_lt_common_prefix(common, seq![c] + x, seq![d] + y);
        assert((seq![c] + x)[0] == c);
        assert((seq![d] + y)[0] == d);
    }
    if a@ == common && b@ == common + seq![c] + x {
        assert(a@ =~= common + Seq::<char>::empty());
        assert(b@ =~= common + (seq![c] + x));
        lemma_text_lt_common_prefix(common, Seq::<char>::empty(), seq![c] + x);
    }
}

} // verus!
