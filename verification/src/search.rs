//! Search: by title alone, or deep, into the user names and notes of the
//! records whose title does not hold the query.

use vstd::prelude::*;
use crate::catalog::CatalogEntry;
use crate::order::{sort_entries, sorted_entries, SortOrder};
use crate::text::{contains_bytes, lowercase_of, str_contains, to_lowercase, utf8};

verus! {

/// One result of a search: the record, and the fields in which the query
/// was found.
#[derive(Debug)]
pub struct SearchHit {
    pub id: String,
    pub title: String,
    pub in_title: bool,
    pub in_username: bool,
    pub in_notes: bool,
}

/// Whether a text holds a needle, without regard to the text's case. The
/// needle is taken as it is.
pub open spec fn text_holds(text: Seq<char>, needle: Seq<char>) -> bool {
    contains_bytes(utf8(lowercase_of(text)), utf8(needle))
}

/// The hit for an entry whose title holds the needle.
pub open spec fn title_hit(e: CatalogEntry) -> SearchHit {
    SearchHit { id: e.id, title: e.title, in_title: true, in_username: false, in_notes: false }
}

/// The hit, if any, for an entry by its title alone.
pub open spec fn hit_by_title(needle: Seq<char>) -> spec_fn(CatalogEntry) -> Option<SearchHit> {
    |e: CatalogEntry|
        if text_holds(e.title@, needle) {
            Some(title_hit(e))
        } else {
            None
        }
}

/// The first `limit` elements of a sequence; all of them for a limit of
/// zero.
pub open spec fn limited<T>(s: Seq<T>, limit: usize) -> Seq<T> {
    if limit == 0 || s.len() <= limit {
        s
    } else {
        s.take(limit as int)
    }
}

/// The hits of a search by title: the entries whose title holds the query
/// without regard to case, most recently changed first, cut to the limit.
pub open spec fn title_hits(entries: Seq<CatalogEntry>, query: Seq<char>, limit: usize) -> Seq<
    SearchHit,
> {
    limited(
        sorted_entries(entries, SortOrder::Newest).filter_map(hit_by_title(lowercase_of(query))),
        limit,
    )
}

proof fn lemma_hits_prefix(view: Seq<CatalogEntry>, f: spec_fn(CatalogEntry) -> Option<SearchHit>, i: int)
    requires
        0 <= i <= view.len(),
    ensures
        view.take(i).filter_map(f).len() <= view.filter_map(f).len(),
        view.filter_map(f).take(view.take(i).filter_map(f).len() as int) == view.take(i).filter_map(
            f,
        ),
    decreases view.len() - i,
{
    if i < view.len() {
        view.lemma_filter_map_take_succ(f, i);
        lemma_hits_prefix(view, f, i + 1);
        let small = view.take(i).filter_map(f);
        let big = view.take(i + 1).filter_map(f);
        let all = view.filter_map(f);
        assert(all.take(small.len() as int) =~= all.take(big.len() as int).take(small.len() as int));
        assert(big.take(small.len() as int) =~= small);
    } else {
        assert(view.take(i) =~= view);
        assert(view.filter_map(f).take(view.filter_map(f).len() as int) =~= view.filter_map(f));
    }
}

/// Whether a text holds a needle, without regard to the text's case.
pub fn holds(text: &str, needle: &str) -> (r: bool)
    ensures
        r == text_holds(text@, needle@),
{
    let lowered = to_lowercase(text);
    str_contains(lowered.as_str(), needle)
}

/// Searches the titles of the catalog for a query, without regard to
/// case, most recently changed entries first, and stops at `limit` hits;
/// a limit of zero is no limit.
pub fn search(entries: Vec<CatalogEntry>, query: &str, limit: usize) -> (hits: Vec<SearchHit>)
    ensures
        hits@ == title_hits(entries@, query@, limit),
{
    let needle = to_lowercase(query);
    let view = sort_entries(entries, SortOrder::Newest);
    let ghost f = hit_by_title(needle@);
    let mut hits: Vec<SearchHit> = Vec::new();
    let mut i: usize = 0;
    assert(view@.take(0) =~= Seq::<CatalogEntry>::empty());
    while i < view.len() && !(limit > 0 && hits.len() >= limit)
        invariant
            i <= view@.len(),
            f == hit_by_title(needle@),
            hits@ == view@.take(i as int).filter_map(f),
            limit > 0 ==> hits@.len() <= limit,
        decreases view@.len() - i,
    {
        proof {
            view@.lemma_filter_map_take_succ(f, i as int);
        }
        if holds(view[i].title.as_str(), needle.as_str()) {
            hits.push(
                SearchHit {
                    id: view[i].id.clone(),
                    title: view[i].title.clone(),
                    in_title: true,
                    in_username: false,
                    in_notes: false,
                },
            );
        }
        i += 1;
    }
    proof {
        lemma_hits_prefix(view@, f, i as int);
        if i == view@.len() {
            assert(view@.take(i as int) =~= view@);
        }
    }
    hits
}

/// A search that also looks into the records whose title does not hold
/// the query. It walks the catalog, most recently changed entries first,
/// and asks its caller for one record at a time: each record that is asked
/// for costs the caller one decryption, and none is asked for once the
/// limit is reached.
#[derive(Debug)]
pub struct DeepSearch {
    /// The catalog, most recently changed entries first.
    pub view: Vec<CatalogEntry>,
    /// The query in lower case.
    pub needle: String,
    /// The most hits wanted; zero for no limit.
    pub limit: usize,
    /// The position of the entry that is looked at next.
    pub next: usize,
    /// The hits so far.
    pub hits: Vec<SearchHit>,
}

/// Whether a search has as many hits as it wants.
pub open spec fn is_full(hits: Seq<SearchHit>, limit: usize) -> bool {
    limit > 0 && hits.len() >= limit
}

/// The hit, if any, for an entry whose title does not hold the needle, by
/// the user name and the notes of its record.
pub open spec fn hit_by_fields(
    e: CatalogEntry,
    needle: Seq<char>,
    username: Seq<char>,
    notes: Seq<char>,
) -> Option<SearchHit> {
    if text_holds(username, needle) || text_holds(notes, needle) {
        Some(
            SearchHit {
                id: e.id,
                title: e.title,
                in_title: false,
                in_username: text_holds(username, needle),
                in_notes: text_holds(notes, needle),
            },
        )
    } else {
        None
    }
}

/// Where a deep search stands after it has taken every hit by title from
/// position `next` on, up to the first entry that it cannot judge by its
/// title, the limit, or the end: the position reached and the hits.
pub open spec fn scan_titles(
    view: Seq<CatalogEntry>,
    needle: Seq<char>,
    limit: usize,
    next: int,
    hits: Seq<SearchHit>,
) -> (int, Seq<SearchHit>)
    decreases view.len() - next,
{
    if next < 0 || next >= view.len() || is_full(hits, limit) || !text_holds(
        view[next].title@,
        needle,
    ) {
        (next, hits)
    } else {
        scan_titles(view, needle, limit, next + 1, hits.push(title_hit(view[next])))
    }
}

/// The user name and the notes of the record of an entry.
pub type Fields = spec_fn(CatalogEntry) -> (Seq<char>, Seq<char>);

/// The hit, if any, for an entry: by its title, or else by the fields of
/// its record.
pub open spec fn hit_for(needle: Seq<char>, fields: Fields) -> spec_fn(CatalogEntry) -> Option<
    SearchHit,
> {
    |e: CatalogEntry|
        if text_holds(e.title@, needle) {
            Some(title_hit(e))
        } else {
            hit_by_fields(e, needle, fields(e).0, fields(e).1)
        }
}

/// The hits of a deep search of a view: the hit of each entry that has
/// one, in the order of the view, cut to the limit.
pub open spec fn deep_hits(
    view: Seq<CatalogEntry>,
    needle: Seq<char>,
    limit: usize,
    fields: Fields,
) -> Seq<SearchHit> {
    limited(view.filter_map(hit_for(needle, fields)), limit)
}

/// The hits that a deep search ends with when it stands at a position with
/// some hits and every record it asks for has the given fields.
pub open spec fn deep_run(
    view: Seq<CatalogEntry>,
    needle: Seq<char>,
    limit: usize,
    fields: Fields,
    next: int,
    hits: Seq<SearchHit>,
) -> Seq<SearchHit>
    decreases view.len() - next,
{
    if next < 0 || next >= view.len() || is_full(hits, limit) {
        hits
    } else {
        deep_run(
            view,
            needle,
            limit,
            fields,
            next + 1,
            match hit_for(needle, fields)(view[next]) {
                Some(hit) => hits.push(hit),
                None => hits,
            },
        )
    }
}

/// Taking the hits by title, as `advance` does, does not change what a
/// deep search ends with.
pub proof fn lemma_advance_keeps_run(
    view: Seq<CatalogEntry>,
    needle: Seq<char>,
    limit: usize,
    fields: Fields,
    next: int,
    hits: Seq<SearchHit>,
)
    ensures
        deep_run(view, needle, limit, fields, next, hits) == deep_run(
            view,
            needle,
            limit,
            fields,
            scan_titles(view, needle, limit, next, hits).0,
            scan_titles(view, needle, limit, next, hits).1,
        ),
    decreases view.len() - next,
{
    if next < 0 || next >= view.len() || is_full(hits, limit) || !text_holds(
        view[next].title@,
        needle,
    ) {
    } else {
        lemma_advance_keeps_run(
            view,
            needle,
            limit,
            fields,
            next + 1,
            hits.push(title_hit(view[next])),
        );
    }
}

/// Taking the fields of the record that was asked for, as `supply` does,
/// does not change what a deep search ends with.
pub proof fn lemma_supply_keeps_run(
    view: Seq<CatalogEntry>,
    needle: Seq<char>,
    limit: usize,
    fields: Fields,
    next: int,
    hits: Seq<SearchHit>,
)
    requires
        0 <= next < view.len(),
        !is_full(hits, limit),
        !text_holds(view[next].title@, needle),
    ensures
        deep_run(view, needle, limit, fields, next, hits) == deep_run(
            view,
            needle,
            limit,
            fields,
            next + 1,
            match hit_by_fields(view[next], needle, fields(view[next]).0, fields(view[next]).1) {
                Some(hit) => hits.push(hit),
                None => hits,
            },
        ),
{
}

proof fn lemma_deep_run_from(
    view: Seq<CatalogEntry>,
    needle: Seq<char>,
    limit: usize,
    fields: Fields,
    next: int,
    hits: Seq<SearchHit>,
)
    requires
        0 <= next <= view.len(),
        hits == view.take(next).filter_map(hit_for(needle, fields)),
        limit > 0 ==> hits.len() <= limit,
    ensures
        deep_run(view, needle, limit, fields, next, hits) == deep_hits(view, needle, limit, fields),
    decreases view.len() - next,
{
    let g = hit_for(needle, fields);
    lemma_hits_prefix(view, g, next);
    if next >= view.len() {
        assert(view.take(next) =~= view);
    } else if is_full(hits, limit) {
    } else {
        view.lemma_filter_map_take_succ(g, next);
        let grown = match g(view[next]) {
            Some(hit) => hits.push(hit),
            None => hits,
        };
        assert(grown =~= view.take(next + 1).filter_map(g));
        lemma_deep_run_from(view, needle, limit, fields, next + 1, grown);
    }
}

/// A deep search that runs to its end finds the hit of each entry that has
/// one, in the order of the view, up to the limit.
pub proof fn lemma_deep_run_finds_all(
    view: Seq<CatalogEntry>,
    needle: Seq<char>,
    limit: usize,
    fields: Fields,
)
    ensures
        deep_run(view, needle, limit, fields, 0, Seq::<SearchHit>::empty()) == deep_hits(
            view,
            needle,
            limit,
            fields,
        ),
{
    assert(view.take(0) =~= Seq::<CatalogEntry>::empty());
    assert(view.take(0).filter_map(hit_for(needle, fields)) =~= Seq::<SearchHit>::empty());
    lemma_deep_run_from(view, needle, limit, fields, 0, Seq::<SearchHit>::empty());
}

impl DeepSearch {
    /// Whether the search is over: the catalog is walked through or the
    /// limit is reached.
    pub open spec fn is_over(self) -> bool {
        self.next >= self.view@.len() || is_full(self.hits@, self.limit)
    }

    /// Starts a search of the catalog for a query.
    pub fn start(entries: Vec<CatalogEntry>, query: &str, limit: usize) -> (s: DeepSearch)
        ensures
            s.view@ == sorted_entries(entries@, SortOrder::Newest),
            s.needle@ == lowercase_of(query@),
            s.limit == limit,
            s.next == 0,
            s.hits@.len() == 0,
    {
        DeepSearch {
            view: sort_entries(entries, SortOrder::Newest),
            needle: to_lowercase(query),
            limit,
            next: 0,
            hits: Vec::new(),
        }
    }

    /// Takes the hits by title from the current position on, and returns
    /// the id of the next record that must be looked into, or nothing when
    /// the search is over.
    pub fn advance(&mut self) -> (want: Option<String>)
        ensures
            final(self).view == old(self).view,
            final(self).needle == old(self).needle,
            final(self).limit == old(self).limit,
            (final(self).next as int, final(self).hits@) == scan_titles(
                old(self).view@,
                old(self).needle@,
                old(self).limit,
                old(self).next as int,
                old(self).hits@,
            ),
            ({
                let after = *final(self);
                match want {
                    Some(id) => !after.is_over() && id == after.view@[after.next as int].id
                        && !text_holds(after.view@[after.next as int].title@, after.needle@),
                    None => after.is_over(),
                }
            }),
    {
        while self.next < self.view.len() && !(self.limit > 0 && self.hits.len() >= self.limit)
            && holds(self.view[self.next].title.as_str(), self.needle.as_str())
            invariant
                self.view == old(self).view,
                self.needle == old(self).needle,
                self.limit == old(self).limit,
                scan_titles(self.view@, self.needle@, self.limit, self.next as int, self.hits@)
                    == scan_titles(
                    old(self).view@,
                    old(self).needle@,
                    old(self).limit,
                    old(self).next as int,
                    old(self).hits@,
                ),
            decreases self.view@.len() - self.next,
        {
            let hit = SearchHit {
                id: self.view[self.next].id.clone(),
                title: self.view[self.next].title.clone(),
                in_title: true,
                in_username: false,
                in_notes: false,
            };
            self.hits.push(hit);
            self.next += 1;
        }
        if self.next < self.view.len() && !(self.limit > 0 && self.hits.len() >= self.limit) {
            Some(self.view[self.next].id.clone())
        } else {
            None
        }
    }

    /// Takes the user name and the notes of the record that `advance`
    /// asked for, records a hit if either holds the query, and moves on.
    /// A search that stands at the end is left as it is.
    pub fn supply(&mut self, username: &str, notes: &str)
        ensures
            final(self).view == old(self).view,
            final(self).needle == old(self).needle,
            final(self).limit == old(self).limit,
            old(self).next >= old(self).view@.len() ==> *final(self) == *old(self),
            old(self).next < old(self).view@.len() ==> final(self).next == old(self).next + 1
                && final(self).hits@ == match hit_by_fields(
                old(self).view@[old(self).next as int],
                old(self).needle@,
                username@,
                notes@,
            ) {
                Some(hit) => old(self).hits@.push(hit),
                None => old(self).hits@,
            },
    {
        if self.next >= self.view.len() {
            return ;
        }
        let in_username = holds(username, self.needle.as_str());
        let in_notes = holds(notes, self.needle.as_str());
        if in_username || in_notes {
            let hit = SearchHit {
                id: self.view[self.next].id.clone(),
                title: self.view[self.next].title.clone(),
                in_title: false,
                in_username,
                in_notes,
            };
            self.hits.push(hit);
        }
        self.next += 1;
    }
}


} // verus!
