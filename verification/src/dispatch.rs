//! From a typed query to the rows that answer it.

use vstd::prelude::*;
use crate::bookmark::Bookmark;
use crate::item::{default_item, empty, empty_item, record_item, views, DisplayItem, ItemView};
use crate::matcher::{
    all_fit, fits, is_match, is_ranked, names_fit, rank, ranked_records, text_fits,
};
use crate::text::{
    ascii_lowercase, is_blank, lemma_ascii_lowercase_idempotent, lemma_trimmed, trimmed,
};

verus! {

/// The rows for a ranking: one row per ranked bookmark, in ranking order, or
/// the single no-match row when the ranking is empty.
pub open spec fn rows_for(
    ranked: Seq<Bookmark>,
    query: Seq<char>,
    default_search_url: Seq<char>,
) -> Seq<ItemView> {
    if ranked.len() == 0 {
        seq![default_item(query, default_search_url)]
    } else {
        ranked.map_values(|record: Bookmark| record_item(record))
    }
}

/// The query as it is matched: without surrounding white space and in ASCII
/// lower case.
pub open spec fn normalized(raw: Seq<char>) -> Seq<char> {
    ascii_lowercase(trimmed(raw))
}

/// The rows for a query, if any was given: the prompt row when the query is
/// absent or blank, and otherwise the rows for the ranking of the bookmarks
/// under the normalized query.
pub open spec fn answer(
    bookmarks: Seq<Bookmark>,
    query: Option<Seq<char>>,
    default_search_url: Seq<char>,
) -> Seq<ItemView> {
    match query {
        Some(raw) if normalized(raw).len() > 0 => rows_for(
            ranked_records(normalized(raw), bookmarks),
            normalized(raw),
            default_search_url,
        ),
        _ => seq![empty_item(default_search_url)],
    }
}

/// Whether no name of the collection matches the query.
pub open spec fn none_match(bookmarks: Seq<Bookmark>, query: Seq<char>) -> bool {
    forall|i: int| 0 <= i < bookmarks.len() ==> !is_match((#[trigger] bookmarks[i]).name@, query)
}

/// Turns a ranking into rows: each ranked bookmark becomes its row, in the
/// same order; an empty ranking becomes the one no-match row, which quotes
/// the query.
pub fn rows(ranked: &Vec<Bookmark>, query: &str, default_search_url: &str) -> (items: Vec<
    DisplayItem,
>)
    ensures
        views(items@) == rows_for(ranked@, query@, default_search_url@),
{
    if ranked.len() == 0 {
        let items = vec![crate::item::default(query, default_search_url)];
        assert(views(items@) =~= rows_for(ranked@, query@, default_search_url@));
        return items;
    }
    let mut items: Vec<DisplayItem> = Vec::new();
    let mut k: usize = 0;
    while k < ranked.len()
        invariant
            k <= ranked.len(),
            items.len() == k,
            forall|j: int| 0 <= j < k ==> (#[trigger] items[j])@ == record_item(ranked[j]),
        decreases ranked.len() - k,
    {
        items.push(ranked[k].to_item());
        k += 1;
    }
    assert(views(items@) =~= rows_for(ranked@, query@, default_search_url@));
    items
}

/// The rows for a query that is not blank: the matching bookmarks in ranking
/// order, or the one no-match row when none matches.
pub fn to_items(bookmarks: &Vec<Bookmark>, query: &str, default_search_url: &str) -> (items: Vec<
    DisplayItem,
>)
    requires
        fits(query@),
        all_fit(bookmarks@),
    ensures
        is_ranked(query@, bookmarks@, ranked_records(query@, bookmarks@)),
        views(items@) == rows_for(
            ranked_records(query@, bookmarks@),
            query@,
            default_search_url@,
        ),
        forall|record: Bookmark| #[trigger]
            ranked_records(query@, bookmarks@).contains(record) <==> bookmarks@.contains(record)
                && is_match(record.name@, query@),
        none_match(bookmarks@, query@) ==> views(items@) == seq![
            default_item(query@, default_search_url@),
        ],
{
    let ranked = rank(query, bookmarks);
    proof {
        if none_match(bookmarks@, query@) && ranked.len() > 0 {
            assert(ranked@.contains(ranked[0]));
        }
    }
    rows(&ranked, query, default_search_url)
}

/// The text of a query, if there is one.
pub open spec fn query_text(query: Option<&str>) -> Option<Seq<char>> {
    match query {
        Some(raw) => Some(raw@),
        None => None,
    }
}

/// Whether a query can be answered: unless it is absent or blank, it must be
/// short enough to be scored once normalized, and so must every bookmark
/// name.
pub open spec fn is_answerable(bookmarks: Seq<Bookmark>, query: Option<Seq<char>>) -> bool {
    match query {
        Some(raw) if normalized(raw).len() > 0 => fits(normalized(raw)) && all_fit(bookmarks),
        _ => true,
    }
}

/// Answers a query as it was typed. Without a query, or with one that is
/// blank, the answer is the one prompt row, whatever the bookmarks are, and
/// nothing is ranked. Otherwise the query is trimmed and folded to lower
/// case, and the answer is that of `to_items` for it: the rows of the
/// bookmarks that match, in ranking order, or the one no-match row.
pub fn dispatch(bookmarks: &Vec<Bookmark>, query: Option<&str>, default_search_url: &str) -> (items:
    Vec<DisplayItem>)
    requires
        is_answerable(bookmarks@, query_text(query)),
    ensures
        views(items@) == answer(bookmarks@, query_text(query), default_search_url@),
        query is None || is_blank(query.unwrap()@) ==> views(items@) == seq![
            empty_item(default_search_url@),
        ],
        query is Some && !is_blank(query.unwrap()@) ==> is_ranked(
            normalized(query.unwrap()@),
            bookmarks@,
            ranked_records(normalized(query.unwrap()@), bookmarks@),
        ),
{
    if let Some(raw) = query {
        let folded = raw.trim().to_ascii_lowercase();
        proof {
            lemma_trimmed(raw@);
            lemma_ascii_lowercase_idempotent(trimmed(raw@));
        }
        if !folded.as_str().is_empty() {
            return to_items(bookmarks, folded.as_str(), default_search_url);
        }
    }
    let items = vec![empty(default_search_url)];
    assert(views(items@) =~= seq![empty_item(default_search_url@)]);
    items
}

/// Answers a query like `dispatch`, where it can be answered. There is no
/// answer exactly when the query is not blank and, once normalized, is too
/// long to be scored, or a bookmark name is.
pub fn try_dispatch(bookmarks: &Vec<Bookmark>, query: Option<&str>, default_search_url: &str) -> (
    answered: Option<Vec<DisplayItem>>)
    ensures
        answered is Some <==> is_answerable(bookmarks@, query_text(query)),
        answered matches Some(items) ==> views(items@) == answer(
            bookmarks@,
            query_text(query),
            default_search_url@,
        ),
        answered is Some && query is Some && !is_blank(query.unwrap()@) ==> is_ranked(
            normalized(query.unwrap()@),
            bookmarks@,
            ranked_records(normalized(query.unwrap()@), bookmarks@),
        ),
{
    let answerable = match query {
        Some(raw) => {
            let folded = raw.trim().to_ascii_lowercase();
            folded.as_str().is_empty() || (text_fits(folded.as_str()) && names_fit(bookmarks))
        },
        None => true,
    };
    if answerable {
        Some(dispatch(bookmarks, query, default_search_url))
    } else {
        None
    }
}

} // verus!
