//! The orders of the catalog: by title for listings and numeric selectors,
//! most recently changed first for search. Sorting is stable, so that the
//! place of every entry is settled by the order and the input alone.

use vstd::prelude::*;
use crate::catalog::CatalogEntry;
use crate::text::{
    bytes_before, bytes_lt, lemma_bytes_before_asymmetric, lemma_bytes_before_irreflexive,
    lemma_bytes_before_total, lemma_bytes_before_transitive, lowercase_of, to_lowercase, utf8,
};

verus! {

/// The two orders in which the catalog is walked.
#[derive(Debug, Clone, Copy, PartialEq, Eq, Structural)]
pub enum SortOrder {
    /// By title without regard to case, then by id: the order of listings
    /// and of numeric selectors.
    ByTitle,
    /// Most recently changed first: the order of search.
    Newest,
}

/// The key by which titles are ordered: the UTF-8 bytes of the title in
/// lower case.
pub open spec fn title_key(e: CatalogEntry) -> Seq<u8> {
    utf8(lowercase_of(e.title@))
}

/// The key by which ids are ordered: the UTF-8 bytes of the id.
pub open spec fn id_key(e: CatalogEntry) -> Seq<u8> {
    utf8(e.id@)
}

/// Whether a pair of keys comes strictly before another: by the title
/// keys, and for equal title keys by the id keys.
pub open spec fn keys_before(
    title_a: Seq<u8>,
    id_a: Seq<u8>,
    title_b: Seq<u8>,
    id_b: Seq<u8>,
) -> bool {
    bytes_before(title_a, title_b) || (title_a == title_b && bytes_before(id_a, id_b))
}

/// Whether `a` comes strictly before `b` in an order.
pub open spec fn before(order: SortOrder, a: CatalogEntry, b: CatalogEntry) -> bool {
    match order {
        SortOrder::ByTitle => keys_before(title_key(a), id_key(a), title_key(b), id_key(b)),
        SortOrder::Newest => a.updated_at > b.updated_at,
    }
}

/// Where a new entry goes into entries that are in order: behind the
/// leading entries that come strictly before it.
pub open spec fn insert_point(sorted: Seq<CatalogEntry>, x: CatalogEntry, order: SortOrder) -> int
    decreases sorted.len(),
{
    if sorted.len() == 0 || !before(order, sorted[0], x) {
        0
    } else {
        1 + insert_point(sorted.drop_first(), x, order)
    }
}

/// The entries in an order, with entries that the order does not tell
/// apart left as they stood. Each entry, from the last to the first, goes
/// in at its `insert_point`.
pub open spec fn sorted_entries(s: Seq<CatalogEntry>, order: SortOrder) -> Seq<CatalogEntry>
    decreases s.len(),
{
    if s.len() == 0 {
        s
    } else {
        let rest = sorted_entries(s.drop_first(), order);
        rest.insert(insert_point(rest, s[0], order), s[0])
    }
}

/// Whether no entry comes strictly before an earlier one.
pub open spec fn in_order(s: Seq<CatalogEntry>, order: SortOrder) -> bool {
    forall|i: int, j: int| 0 <= i < j < s.len() ==> !before(order, #[trigger] s[j], #[trigger] s[i])
}

/// No two entries come before each other.
pub proof fn lemma_before_asymmetric(order: SortOrder, a: CatalogEntry, b: CatalogEntry)
    requires
        before(order, a, b),
    ensures
        !before(order, b, a),
{
    if order == SortOrder::ByTitle {
        if bytes_before(title_key(a), title_key(b)) {
            lemma_bytes_before_asymmetric(title_key(a), title_key(b));
            lemma_bytes_before_irreflexive(title_key(a));
        } else {
            lemma_bytes_before_asymmetric(id_key(a), id_key(b));
            lemma_bytes_before_irreflexive(title_key(a));
        }
    }
}

/// An entry that comes before another comes before, or has behind it, any
/// third.
pub proof fn lemma_before_splits(
    order: SortOrder,
    a: CatalogEntry,
    b: CatalogEntry,
    c: CatalogEntry,
)
    requires
        before(order, a, c),
    ensures
        before(order, a, b) || before(order, b, c),
{
    if order == SortOrder::ByTitle {
        let (ta, tb, tc) = (title_key(a), title_key(b), title_key(c));
        let (ia, ib, ic) = (id_key(a), id_key(b), id_key(c));
        lemma_bytes_before_total(ta, tb);
        lemma_bytes_before_total(ia, ib);
        if bytes_before(tb, ta) {
            if bytes_before(ta, tc) {
                lemma_bytes_before_transitive(tb, ta, tc);
            }
        } else if ta == tb {
            if !bytes_before(ta, tc) && bytes_before(ib, ia) {
                lemma_bytes_before_transitive(ib, ia, ic);
            }
        }
    }
}

proof fn lemma_insert_point_bounds(sorted: Seq<CatalogEntry>, x: CatalogEntry, order: SortOrder)
    ensures
        0 <= insert_point(sorted, x, order) <= sorted.len(),
        forall|k: int|
            0 <= k < insert_point(sorted, x, order) ==> before(order, #[trigger] sorted[k], x),
        insert_point(sorted, x, order) < sorted.len() ==> !before(
            order,
            sorted[insert_point(sorted, x, order)],
            x,
        ),
    decreases sorted.len(),
{
    if sorted.len() == 0 || !before(order, sorted[0], x) {
    } else {
        let rest = sorted.drop_first();
        lemma_insert_point_bounds(rest, x, order);
        let p = insert_point(rest, x, order);
        assert forall|k: int| 0 <= k < p + 1 implies before(order, #[trigger] sorted[k], x) by {
            if k > 0 {
                assert(sorted[k] == rest[k - 1]);
            }
        }
        if p + 1 < sorted.len() {
            assert(sorted[p + 1] == rest[p]);
        }
    }
}

proof fn lemma_insert_point_is(
    sorted: Seq<CatalogEntry>,
    x: CatalogEntry,
    order: SortOrder,
    p: int,
)
    requires
        0 <= p <= sorted.len(),
        forall|k: int| 0 <= k < p ==> before(order, #[trigger] sorted[k], x),
        p < sorted.len() ==> !before(order, sorted[p], x),
    ensures
        insert_point(sorted, x, order) == p,
    decreases sorted.len(),
{
    if p > 0 {
        let rest = sorted.drop_first();
        assert(before(order, sorted[0], x));
        assert forall|k: int| 0 <= k < p - 1 implies before(order, #[trigger] rest[k], x) by {
            assert(rest[k] == sorted[k + 1]);
        }
        if p - 1 < rest.len() {
            assert(rest[p - 1] == sorted[p]);
        }
        lemma_insert_point_is(rest, x, order, p - 1);
    }
}

/// Sorting keeps every entry, as often as it stood in the input.
pub proof fn lemma_sorted_entries_permutes(s: Seq<CatalogEntry>, order: SortOrder)
    ensures
        sorted_entries(s, order).to_multiset() == s.to_multiset(),
        sorted_entries(s, order).len() == s.len(),
    decreases s.len(),
{
    if s.len() == 0 {
    } else {
        let rest = sorted_entries(s.drop_first(), order);
        lemma_sorted_entries_permutes(s.drop_first(), order);
        lemma_insert_point_bounds(rest, s[0], order);
        vstd::seq_lib::to_multiset_insert(rest, insert_point(rest, s[0], order), s[0]);
        vstd::seq_lib::to_multiset_insert(s.drop_first(), 0, s[0]);
        assert(s.drop_first().insert(0, s[0]) =~= s);
    }
}

/// Sorted entries are in order: none comes strictly before an earlier one.
pub proof fn lemma_sorted_entries_in_order(s: Seq<CatalogEntry>, order: SortOrder)
    ensures
        in_order(sorted_entries(s, order), order),
    decreases s.len(),
{
    if s.len() == 0 {
    } else {
        let x = s[0];
        let rest = sorted_entries(s.drop_first(), order);
        lemma_sorted_entries_in_order(s.drop_first(), order);
        lemma_insert_point_bounds(rest, x, order);
        let p = insert_point(rest, x, order);
        let out = rest.insert(p, x);
        assert forall|i: int, j: int| 0 <= i < j < out.len() implies !before(
            order,
            #[trigger] out[j],
            #[trigger] out[i],
        ) by {
            if j < p {
                assert(out[i] == rest[i] && out[j] == rest[j]);
            } else if j == p {
                assert(out[i] == rest[i]);
                assert(before(order, rest[i], x));
                lemma_before_asymmetric(order, rest[i], x);
            } else if i < p {
                assert(out[i] == rest[i] && out[j] == rest[j - 1]);
            } else if i == p {
                assert(out[j] == rest[j - 1]);
                if j - 1 > p {
                    assert(!before(order, rest[j - 1], rest[p]));
                }
                if before(order, rest[j - 1], x) {
                    lemma_before_splits(order, rest[j - 1], rest[p], x);
                }
            } else {
                assert(out[i] == rest[i - 1] && out[j] == rest[j - 1]);
            }
        }
    }
}

/// The test for an entry that an order does not tell apart from `e`:
/// neither comes before the other.
pub open spec fn ranks_with(order: SortOrder, e: CatalogEntry) -> spec_fn(CatalogEntry) -> bool {
    |x: CatalogEntry| !before(order, x, e) && !before(order, e, x)
}

proof fn lemma_filter_none(s: Seq<CatalogEntry>, f: spec_fn(CatalogEntry) -> bool)
    requires
        forall|k: int| 0 <= k < s.len() ==> !f(#[trigger] s[k]),
    ensures
        s.filter(f) == Seq::<CatalogEntry>::empty(),
    decreases s.len(),
{
    reveal(Seq::filter);
    if s.len() > 0 {
        assert forall|k: int| 0 <= k < s.drop_last().len() implies !f(
            #[trigger] s.drop_last()[k],
        ) by {
            assert(s.drop_last()[k] == s[k]);
        }
        lemma_filter_none(s.drop_last(), f);
    }
}

/// Sorting is stable: the entries that the order does not tell apart from
/// a given one stand in the output as they stood in the input.
pub proof fn lemma_sorted_entries_stable(s: Seq<CatalogEntry>, order: SortOrder, e: CatalogEntry)
    ensures
        sorted_entries(s, order).filter(ranks_with(order, e)) == s.filter(ranks_with(order, e)),
    decreases s.len(),
{
    let f = ranks_with(order, e);
    if s.len() == 0 {
    } else {
        let x = s[0];
        let tail = s.drop_first();
        let rest = sorted_entries(tail, order);
        lemma_sorted_entries_stable(tail, order, e);
        lemma_insert_point_bounds(rest, x, order);
        let p = insert_point(rest, x, order);
        let low = rest.take(p);
        let high = rest.skip(p);
        assert(rest =~= low + high);
        assert(rest.insert(p, x) =~= low + (seq![x] + high));
        Seq::filter_distributes_over_add(low, high, f);
        Seq::filter_distributes_over_add(low, seq![x] + high, f);
        high.lemma_filter_prepend(x, f);
        assert(s =~= seq![x] + tail);
        tail.lemma_filter_prepend(x, f);
        if f(x) {
            assert forall|k: int| 0 <= k < low.len() implies !f(#[trigger] low[k]) by {
                assert(low[k] == rest[k]);
                assert(before(order, rest[k], x));
                if f(low[k]) {
                    lemma_before_splits(order, rest[k], e, x);
                }
            }
            lemma_filter_none(low, f);
            assert(low.filter(f) + high.filter(f) =~= high.filter(f));
            assert(low.filter(f) + (seq![x] + high.filter(f)) =~= seq![x] + high.filter(f));
        }
    }
}

/// Whether a title in lower case with its id comes strictly before
/// another: by the titles, and for one title by the ids. The titles are
/// taken as they are.
pub fn titled_before(title_a: &str, id_a: &str, title_b: &str, id_b: &str) -> (r: bool)
    ensures
        r == keys_before(utf8(title_a@), utf8(id_a@), utf8(title_b@), utf8(id_b@)),
{
    proof {
        lemma_bytes_before_total(utf8(title_a@), utf8(title_b@));
        lemma_bytes_before_irreflexive(utf8(title_a@));
        if bytes_before(utf8(title_b@), utf8(title_a@)) {
            lemma_bytes_before_asymmetric(utf8(title_b@), utf8(title_a@));
        }
    }
    if bytes_lt(title_a.as_bytes(), title_b.as_bytes()) {
        true
    } else if bytes_lt(title_b.as_bytes(), title_a.as_bytes()) {
        false
    } else {
        bytes_lt(id_a.as_bytes(), id_b.as_bytes())
    }
}

/// Whether an entry comes strictly before another in an order.
pub fn entry_before(a: &CatalogEntry, b: &CatalogEntry, order: SortOrder) -> (r: bool)
    ensures
        r == before(order, *a, *b),
{
    match order {
        SortOrder::ByTitle => {
            let title_a = to_lowercase(a.title.as_str());
            let title_b = to_lowercase(b.title.as_str());
            titled_before(title_a.as_str(), a.id.as_str(), title_b.as_str(), b.id.as_str())
        },
        SortOrder::Newest => a.updated_at > b.updated_at,
    }
}

/// Puts entries in an order, leaving entries that the order does not tell
/// apart as they stood.
pub fn sort_entries(entries: Vec<CatalogEntry>, order: SortOrder) -> (out: Vec<CatalogEntry>)
    ensures
        out@ == sorted_entries(entries@, order),
        in_order(out@, order),
        out@.to_multiset() == entries@.to_multiset(),
        out@.len() == entries@.len(),
{
    let ghost all = entries@;
    let mut rest = entries;
    let mut out: Vec<CatalogEntry> = Vec::new();
    assert(all.subrange(all.len() as int, all.len() as int) =~= Seq::<CatalogEntry>::empty());
    while rest.len() > 0
        invariant
            rest@.len() <= all.len(),
            rest@ == all.subrange(0, rest@.len() as int),
            out@ == sorted_entries(all.subrange(rest@.len() as int, all.len() as int), order),
        decreases rest@.len(),
    {
        let ghost n = rest@.len() as int;
        let x = rest.pop().unwrap();
        let ghost tail = all.subrange(n, all.len() as int);
        let ghost grown = all.subrange(n - 1, all.len() as int);
        assert(x == all[n - 1]);
        assert(grown[0] == x);
        assert(grown.drop_first() =~= tail);
        let mut p: usize = 0;
        while p < out.len() && entry_before(&out[p], &x, order)
            invariant
                p <= out@.len(),
                forall|k: int| 0 <= k < p ==> before(order, #[trigger] out@[k], x),
            decreases out@.len() - p,
        {
            p += 1;
        }
        proof {
            lemma_insert_point_is(out@, x, order, p as int);
        }
        out.insert(p, x);
        assert(rest@ =~= all.subrange(0, n - 1));
    }
    assert(all.subrange(0, all.len() as int) =~= all);
    proof {
        lemma_sorted_entries_in_order(all, order);
        lemma_sorted_entries_permutes(all, order);
    }
    out
}

} // verus!
