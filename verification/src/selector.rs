//! Selectors: a record is chosen by its position in the listing or by the
//! start of its id.

use vstd::prelude::*;
use crate::catalog::{load_catalog_sorted, CatalogEntry};
use crate::error::{SelectorError, VaultError};
use crate::order::{id_key, sorted_entries, SortOrder};
use crate::text::{is_prefix, lowercase_of, str_starts_with, to_lowercase, trim, trimmed, utf8};

verus! {

/// Whether a character is one of the digits `0` to `9`.
pub open spec fn is_digit_char(c: char) -> bool {
    '0' <= c <= '9'
}

/// Whether a text is made of digits alone. The empty text is.
pub open spec fn all_digits(s: Seq<char>) -> bool {
    forall|i: int| 0 <= i < s.len() ==> is_digit_char(#[trigger] s[i])
}

/// The number that a text of digits stands for, in base ten.
pub open spec fn digits_value(s: Seq<char>) -> nat
    decreases s.len(),
{
    if s.len() == 0 {
        0
    } else {
        digits_value(s.drop_last()) * 10 + (s.last() as nat - 48) as nat
    }
}

/// The text of the id prefix that a selector stands for: the selector,
/// trimmed and in lower case.
pub open spec fn prefix_text(sel: Seq<char>) -> Seq<char> {
    lowercase_of(trimmed(sel))
}

/// The test for an id that starts with a prefix.
pub open spec fn id_has_prefix(prefix: Seq<u8>) -> spec_fn(CatalogEntry) -> bool {
    |e: CatalogEntry| is_prefix(prefix, id_key(e))
}

/// The entries whose id starts with a prefix, in their order.
pub open spec fn matching(view: Seq<CatalogEntry>, prefix: Seq<u8>) -> Seq<CatalogEntry> {
    view.filter(id_has_prefix(prefix))
}

/// The shortest id prefix that a selector may give, in characters.
pub const MIN_PREFIX_LEN: usize = 4;

/// What a position resolves to in a view of the catalog: the id of the
/// entry at the position, counted from one, that a text of digits stands
/// for, and `IndexOutOfRange` for any other text or position.
pub open spec fn index_outcome(view: Seq<CatalogEntry>, digits: Seq<char>) -> Result<
    String,
    VaultError,
> {
    if all_digits(digits) && 1 <= digits_value(digits) <= view.len() {
        Ok(view[digits_value(digits) - 1].id)
    } else {
        Err(VaultError::Selector(SelectorError::IndexOutOfRange))
    }
}

/// What an id prefix resolves to in a view of the catalog: `TooShort` for
/// a prefix of fewer than four characters, `NoMatch` where no id starts
/// with it, `Ambiguous` where two or more do, and otherwise the id of the
/// one entry whose id starts with it. The prefix is taken as it is.
pub open spec fn prefix_outcome(view: Seq<CatalogEntry>, prefix: Seq<char>) -> Result<
    String,
    VaultError,
> {
    let found = matching(view, utf8(prefix));
    if prefix.len() < MIN_PREFIX_LEN {
        Err(VaultError::Selector(SelectorError::TooShort))
    } else if found.len() == 0 {
        Err(VaultError::Selector(SelectorError::NoMatch))
    } else if found.len() >= 2 {
        Err(VaultError::Selector(SelectorError::Ambiguous))
    } else {
        Ok(found[0].id)
    }
}

/// What a selector resolves to in a view of the catalog.
///
/// A selector of digits alone is a position in the view, counted from one.
/// Any other selector, trimmed and in lower case, is an id prefix: of at
/// least four characters, and the start of exactly one entry's id.
pub open spec fn resolve_outcome(view: Seq<CatalogEntry>, sel: Seq<char>) -> Result<
    String,
    VaultError,
> {
    if all_digits(sel) {
        index_outcome(view, sel)
    } else {
        prefix_outcome(view, prefix_text(sel))
    }
}

proof fn lemma_digits_step(s: Seq<char>, i: int)
    requires
        0 <= i < s.len(),
    ensures
        digits_value(s.take(i + 1)) == digits_value(s.take(i)) * 10 + (s[i] as nat - 48) as nat,
{
    assert(s.take(i + 1).drop_last() =~= s.take(i));
    assert(s.take(i + 1).last() == s[i]);
}

/// Whether a text is made of digits alone.
pub fn is_all_digits(s: &str) -> (r: bool)
    ensures
        r == all_digits(s@),
{
    let n = s.unicode_len();
    let mut i: usize = 0;
    while i < n
        invariant
            n == s@.len(),
            i <= n,
            forall|k: int| 0 <= k < i ==> is_digit_char(#[trigger] s@[k]),
        decreases n - i,
    {
        let c = s.get_char(i);
        if !(c >= '0' && c <= '9') {
            return false;
        }
        i += 1;
    }
    true
}

/// The number that a text of digits stands for, if it is at most `cap`.
fn digits_up_to(s: &str, cap: usize) -> (r: Option<usize>)
    requires
        all_digits(s@),
    ensures
        match r {
            Some(n) => n == digits_value(s@) && n <= cap,
            None => digits_value(s@) > cap,
        },
{
    let n = s.unicode_len();
    let mut acc: usize = 0;
    let mut i: usize = 0;
    assert(s@.take(0) =~= Seq::<char>::empty());
    while i < n
        invariant
            n == s@.len(),
            i <= n,
            all_digits(s@),
            acc == digits_value(s@.take(i as int)),
            acc <= cap,
        decreases n - i,
    {
        let c = s.get_char(i);
        assert(is_digit_char(s@[i as int]));
        let d: u128 = ((c as u32) - 48) as u128;
        let next: u128 = (acc as u128) * 10 + d;
        proof {
            lemma_digits_step(s@, i as int);
        }
        if next > cap as u128 {
            proof {
                lemma_digits_grow(s@, i as int + 1);
            }
            return None;
        }
        acc = next as usize;
        i += 1;
    }
    assert(s@.take(n as int) =~= s@);
    Some(acc)
}

proof fn lemma_digits_grow(s: Seq<char>, i: int)
    requires
        0 <= i <= s.len(),
        all_digits(s),
    ensures
        digits_value(s.take(i)) <= digits_value(s),
    decreases s.len() - i,
{
    if i < s.len() {
        lemma_digits_step(s, i);
        assert(is_digit_char(s[i]));
        lemma_digits_grow(s, i + 1);
    } else {
        assert(s.take(i) =~= s);
    }
}

/// Resolves a position, written in digits and counted from one, in a
/// view of the catalog.
pub fn resolve_index(view: &Vec<CatalogEntry>, digits: &str) -> (r: Result<String, VaultError>)
    ensures
        r == index_outcome(view@, digits@),
{
    if !is_all_digits(digits) {
        return Err(VaultError::Selector(SelectorError::IndexOutOfRange));
    }
    match digits_up_to(digits, view.len()) {
        Some(n) => {
            if n == 0 {
                Err(VaultError::Selector(SelectorError::IndexOutOfRange))
            } else {
                Ok(view[n - 1].id.clone())
            }
        },
        None => Err(VaultError::Selector(SelectorError::IndexOutOfRange)),
    }
}

/// Resolves an id prefix, taken as it is, in a view of the catalog.
pub fn resolve_prefix(view: &Vec<CatalogEntry>, prefix: &str) -> (r: Result<String, VaultError>)
    ensures
        r == prefix_outcome(view@, prefix@),
{
    if prefix.unicode_len() < MIN_PREFIX_LEN {
        return Err(VaultError::Selector(SelectorError::TooShort));
    }
    let ghost pred = id_has_prefix(utf8(prefix@));
    let mut count: usize = 0;
    let mut first: usize = 0;
    let mut i: usize = 0;
    assert(view@.take(0) =~= Seq::<CatalogEntry>::empty());
    proof {
        reveal(Seq::filter);
    }
    assert(view@.take(0).filter(pred).len() == 0);
    while i < view.len()
        invariant
            i <= view@.len(),
            pred == id_has_prefix(utf8(prefix@)),
            count <= 2,
            count == 2 ==> view@.take(i as int).filter(pred).len() >= 2,
            count < 2 ==> view@.take(i as int).filter(pred).len() == count,
            count >= 1 ==> first < i && view@[first as int] == view@.take(i as int).filter(pred)[0],
        decreases view@.len() - i,
    {
        let hit = str_starts_with(view[i].id.as_str(), prefix);
        proof {
            assert(view@.take(i + 1) =~= view@.take(i as int).push(view@[i as int]));
            view@.take(i as int).lemma_filter_push(view@[i as int], pred);
            assert(hit == pred(view@[i as int]));
        }
        if hit {
            if count == 0 {
                first = i;
            }
            if count < 2 {
                count += 1;
            }
        }
        i += 1;
    }
    assert(view@.take(view@.len() as int) =~= view@);
    if count == 0 {
        Err(VaultError::Selector(SelectorError::NoMatch))
    } else if count >= 2 {
        Err(VaultError::Selector(SelectorError::Ambiguous))
    } else {
        Ok(view[first].id.clone())
    }
}

/// Resolves a selector in a view of the catalog: a selector of digits
/// alone as a position, any other, trimmed and in lower case, as an id
/// prefix.
pub fn resolve_in_view(view: &Vec<CatalogEntry>, sel: &str) -> (r: Result<String, VaultError>)
    ensures
        r == resolve_outcome(view@, sel@),
{
    if is_all_digits(sel) {
        resolve_index(view, sel)
    } else {
        let prefix = to_lowercase(trim(sel));
        resolve_prefix(view, prefix.as_str())
    }
}

/// Resolves a selector to the id of one record: a number is a position in
/// the catalog as it is listed, counted from one, and anything else is an
/// id prefix.
pub fn resolve_selector_to_id(entries: Vec<CatalogEntry>, sel: &str) -> (r: Result<
    String,
    VaultError,
>)
    ensures
        r == resolve_outcome(sorted_entries(entries@, SortOrder::ByTitle), sel@),
{
    let view = load_catalog_sorted(entries);
    resolve_in_view(&view, sel)
}

} // verus!
