//! Reading the bookmark collection from its JSON form: an object whose
//! fields each hold an array of entries, every entry an object with the
//! texts `title` and `href`.

use vstd::prelude::*;
use vstd::seq_lib::lemma_flatten_concat;
use crate::bookmark::Bookmark;
use crate::document::{digit_runs_fit, digits_fit, parse_json, parsed_json, tree_of, Json};

verus! {

/// Why a collection could not be read.
#[derive(Debug, Clone, Copy, PartialEq, Eq)]
pub enum LoadError {
    /// The text holds a run of more than `MAX_DIGIT_RUN` digits, which the
    /// parser cannot take.
    TooManyDigits,
    /// The text is not JSON.
    InvalidJson,
    /// The entry at this place of the document, counted from zero over all
    /// groups, lacks the text `title` or the text `href`. It is the first
    /// such entry.
    MalformedEntry { index: usize },
}

/// Whether a value can stand for a bookmark: it has a title and a link.
pub open spec fn is_entry(value: Json) -> bool {
    value.field_text("title"@) is Some && value.field_text("href"@) is Some
}

/// The bookmark that an entry stands for.
pub open spec fn bookmark_of(value: Json) -> Bookmark {
    Bookmark { name: value.field_text("title"@).unwrap(), link: value.field_text("href"@).unwrap() }
}

/// The groups of a document: for each field of the top-level object, the
/// members of the array that it holds.
pub open spec fn groups_of(document: Json) -> Seq<Seq<Json>> {
    document.object_values().map_values(|group: Json| group.array_items())
}

/// The entries of a document: the members of all its groups, in document
/// order.
pub open spec fn entries_of(document: Json) -> Seq<Json> {
    groups_of(document).flatten()
}

/// Whether all of the given values can stand for bookmarks.
pub open spec fn all_entries(values: Seq<Json>) -> bool {
    forall|i: int| 0 <= i < values.len() ==> is_entry(#[trigger] values[i])
}

/// The bookmarks that the given entries stand for.
pub open spec fn bookmarks_from(entries: Seq<Json>) -> Seq<Bookmark> {
    entries.map_values(|entry: Json| bookmark_of(entry))
}

/// The bookmarks that the entries of a document stand for.
pub open spec fn bookmarks_of(document: Json) -> Seq<Bookmark> {
    bookmarks_from(entries_of(document))
}

/// Whether every entry of the document can stand for a bookmark.
pub open spec fn is_collection(document: Json) -> bool {
    all_entries(entries_of(document))
}

/// Whether `index` is the place of the first entry that cannot stand for a
/// bookmark.
pub open spec fn is_first_malformed(document: Json, index: int) -> bool {
    &&& 0 <= index < entries_of(document).len()
    &&& !is_entry(entries_of(document)[index])
    &&& forall|i: int| 0 <= i < index ==> is_entry(#[trigger] entries_of(document)[i])
}

/// What reading a document gives: its bookmarks, or the place of its first
/// malformed entry.
pub open spec fn collected(document: Json, outcome: Result<Vec<Bookmark>, LoadError>) -> bool {
    match outcome {
        Ok(list) => is_collection(document) && list@ == bookmarks_of(document),
        Err(LoadError::MalformedEntry { index }) => is_first_malformed(document, index as int),
        Err(_) => false,
    }
}

impl Bookmark {
    /// The bookmark of an entry, or `None` when the value lacks the text
    /// `title` or the text `href`.
    pub fn try_from_json_value(value: &Json) -> (made: Option<Bookmark>)
        ensures
            made is Some <==> is_entry(*value),
            made matches Some(bookmark) ==> bookmark == bookmark_of(*value),
    {
        match value.text_field("title") {
            Some(title) => match value.text_field("href") {
                Some(href) => Some(Bookmark { name: title.clone(), link: href.clone() }),
                None => None,
            },
            None => None,
        }
    }

    /// The bookmark of an entry: its name is the entry's `title`, its link
    /// the entry's `href`.
    pub fn from_json_value(value: &Json) -> (bookmark: Bookmark)
        requires
            is_entry(*value),
        ensures
            bookmark == bookmark_of(*value),
    {
        Bookmark::try_from_json_value(value).unwrap()
    }
}

/// The groups before place `upto`, flattened, begin the entries of the
/// document, and the group at `upto` follows them.
proof fn lemma_entries_prefix(document: Json, upto: int)
    requires
        0 <= upto < groups_of(document).len(),
    ensures
        groups_of(document).take(upto + 1).flatten() == groups_of(document).take(upto).flatten()
            + groups_of(document)[upto],
        groups_of(document).take(upto + 1).flatten().len() <= entries_of(document).len(),
        forall|i: int|
            0 <= i < groups_of(document).take(upto + 1).flatten().len() ==> entries_of(document)[i]
                == #[trigger] groups_of(document).take(upto + 1).flatten()[i],
{
    let groups = groups_of(document);
    let head = groups.take(upto + 1);
    let tail = groups.skip(upto + 1);
    assert(head =~= groups.take(upto).push(groups[upto]));
    groups.take(upto).lemma_flatten_push(groups[upto]);
    assert(head + tail =~= groups);
    lemma_flatten_concat(head, tail);
}

/// Appends the bookmarks of a group to `list`, up to the first member that
/// cannot stand for a bookmark, and tells the place of that member in the
/// group.
fn push_group(items: &Vec<Json>, list: &mut Vec<Bookmark>) -> (stopped: Option<usize>)
    ensures
        match stopped {
            Some(at) => {
                &&& at < items.len()
                &&& !is_entry(items[at as int])
                &&& all_entries(items@.take(at as int))
                &&& final(list)@ == old(list)@ + bookmarks_from(items@.take(at as int))
            },
            None => all_entries(items@) && final(list)@ == old(list)@ + bookmarks_from(items@),
        },
{
    let mut m: usize = 0;
    while m < items.len()
        invariant
            m <= items.len(),
            all_entries(items@.take(m as int)),
            list@ == old(list)@ + bookmarks_from(items@.take(m as int)),
        decreases items.len() - m,
    {
        match Bookmark::try_from_json_value(&items[m]) {
            Some(bookmark) => {
                list.push(bookmark);
                assert(items@.take(m + 1) =~= items@.take(m as int).push(items[m as int]));
                assert(list@ =~= old(list)@ + bookmarks_from(items@.take(m + 1)));
            },
            None => {
                return Some(m);
            },
        }
        m += 1;
    }
    assert(items@.take(items.len() as int) =~= items@);
    None
}

/// Reads the bookmarks of a parsed document, in document order. A top-level
/// value that is no object has no groups, and a field that holds no array
/// has no entries. Reading stops at the first entry that lacks a title or a
/// link and reports its place.
pub fn collect(document: &Json) -> (outcome: Result<Vec<Bookmark>, LoadError>)
    ensures
        collected(*document, outcome),
{
    let mut list: Vec<Bookmark> = Vec::new();
    let ghost groups = groups_of(*document);
    if let Json::Object(fields) = document {
        let mut g: usize = 0;
        assert(groups.take(0).flatten() =~= Seq::<Json>::empty());
        while g < fields.len()
            invariant
                g <= fields.len(),
                document.fields() == fields@,
                groups == groups_of(*document),
                groups.len() == fields.len(),
                all_entries(groups.take(g as int).flatten()),
                list@ == bookmarks_from(groups.take(g as int).flatten()),
            decreases fields.len() - g,
        {
            let ghost done = groups.take(g as int).flatten();
            proof {
                lemma_entries_prefix(*document, g as int);
            }
            if let Json::Array(items) = &fields[g].1 {
                assert(groups[g as int] == items@);
                match push_group(items, &mut list) {
                    Some(at) => {
                        proof {
                            let entries = entries_of(*document);
                            let index = done.len() + at;
                            assert(entries[index] == (done + items@)[index]);
                            assert forall|i: int| 0 <= i < index implies is_entry(
                                #[trigger] entries[i],
                            ) by {
                                assert(entries[i] == (done + items@)[i]);
                                if i >= done.len() {
                                    let within = i - done.len();
                                    assert(items@.take(at as int)[within] == items[within]);
                                }
                            }
                        }
                        return Err(LoadError::MalformedEntry { index: list.len() });
                    },
                    None => {
                        assert(list@ =~= bookmarks_from(done + items@));
                    },
                }
            } else {
                assert(groups[g as int] =~= Seq::<Json>::empty());
                assert(done + groups[g as int] =~= done);
            }
            g += 1;
        }
        assert(groups.take(fields.len() as int) =~= groups);
    } else {
        assert(groups =~= Seq::<Seq<Json>>::empty());
        assert(entries_of(*document) =~= Seq::<Json>::empty());
        assert(list@ =~= bookmarks_of(*document));
    }
    Ok(list)
}

/// Whether a text can be read as a bookmark collection: its runs of digits
/// are short enough for the parser, it is JSON, and every entry of the
/// document has a title and a link.
pub open spec fn is_readable(json: Seq<char>) -> bool {
    &&& digits_fit(json)
    &&& parsed_json(json) matches Some(document)
    &&& is_collection(document)
}

/// Reads a bookmark collection from JSON text: the bookmarks of the parsed
/// document, in document order.
pub fn read_bookmarks(json: String) -> (list: Vec<Bookmark>)
    requires
        is_readable(json@),
    ensures
        list@ == bookmarks_of(parsed_json(json@).unwrap()),
{
    let value = parse_json(json.as_str()).unwrap();
    let document = tree_of(&value);
    collect(&document).unwrap()
}

/// Reads a bookmark collection from JSON text, where the text can be read.
/// A text with too long a run of digits, a text that is not JSON, and a
/// document with a malformed entry are reported instead, in this order. The
/// text is parsed once to test it and once more to read it.
pub fn try_read_bookmarks(json: String) -> (outcome: Result<Vec<Bookmark>, LoadError>)
    ensures
        match outcome {
            Ok(list) => is_readable(json@) && list@ == bookmarks_of(parsed_json(json@).unwrap()),
            Err(LoadError::TooManyDigits) => !digits_fit(json@),
            Err(LoadError::InvalidJson) => digits_fit(json@) && parsed_json(json@) is None,
            Err(LoadError::MalformedEntry { index }) => {
                &&& digits_fit(json@)
                &&& parsed_json(json@) matches Some(document)
                &&& is_first_malformed(document, index as int)
            },
        },
{
    if !digit_runs_fit(json.as_str()) {
        return Err(LoadError::TooManyDigits);
    }
    match parse_json(json.as_str()) {
        Ok(value) => {
            let document = tree_of(&value);
            match collect(&document) {
                Ok(_) => Ok(read_bookmarks(json)),
                Err(error) => Err(error),
            }
        },
        Err(_) => Err(LoadError::InvalidJson),
    }
}

} // verus!
