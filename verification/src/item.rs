//! The rows that are handed to the launcher for display.

use vstd::prelude::*;
use vstd::string::StringExecFns;
use crate::bookmark::Bookmark;

verus! {

/// One result row: the text shown, the caption under it, and the payload
/// that is passed on when the row is chosen.
#[derive(Debug, PartialEq, Eq)]
pub struct DisplayItem {
    pub title: String,
    pub subtitle: String,
    pub arg: String,
}

/// The three texts of a row.
pub struct ItemView {
    pub title: Seq<char>,
    pub subtitle: Seq<char>,
    pub arg: Seq<char>,
}

impl View for DisplayItem {
    type V = ItemView;

    open spec fn view(&self) -> ItemView {
        ItemView { title: self.title@, subtitle: self.subtitle@, arg: self.arg@ }
    }
}

/// The texts of each row of a list.
pub open spec fn views(items: Seq<DisplayItem>) -> Seq<ItemView> {
    items.map_values(|item: DisplayItem| item@)
}

/// The row of a bookmark: its name, the caption for links, and its link.
pub open spec fn record_item(record: Bookmark) -> ItemView {
    ItemView { title: record.name@, subtitle: "Open in browser"@, arg: record.link@ }
}

/// The row shown while nothing has been typed.
pub open spec fn empty_item(default_search_url: Seq<char>) -> ItemView {
    ItemView {
        title: "Search for bookmarks"@,
        subtitle: "Open them →"@,
        arg: default_search_url,
    }
}

/// The row shown when no bookmark matches the query; its title quotes the
/// query.
pub open spec fn default_item(query: Seq<char>, default_search_url: Seq<char>) -> ItemView {
    ItemView {
        title: "nothing found for "@ + query + ", try search on website"@,
        subtitle: "Open them →"@,
        arg: default_search_url,
    }
}

impl Bookmark {
    /// The row that shows this bookmark.
    pub fn to_item(&self) -> (item: DisplayItem)
        ensures
            item@ == record_item(*self),
    {
        DisplayItem {
            title: self.name.clone(),
            subtitle: String::from_str("Open in browser"),
            arg: self.link.clone(),
        }
    }
}

/// The row for the time before a query is typed. It leads to the default
/// search destination.
pub fn empty(default_search_url: &str) -> (item: DisplayItem)
    ensures
        item@ == empty_item(default_search_url@),
{
    DisplayItem {
        title: String::from_str("Search for bookmarks"),
        subtitle: String::from_str("Open them →"),
        arg: String::from_str(default_search_url),
    }
}

/// The row for a query that matches no bookmark. It names the query and
/// leads to the default search destination.
pub fn default(query: &str, default_search_url: &str) -> (item: DisplayItem)
    ensures
        item@ == default_item(query@, default_search_url@),
{
    let title = String::from_str("nothing found for ").concat(query).concat(
        ", try search on website",
    );
    DisplayItem {
        title,
        subtitle: String::from_str("Open them →"),
        arg: String::from_str(default_search_url),
    }
}

} // verus!
