//! The bookmark record.

use vstd::prelude::*;
use crate::text::{chars_of, contains, is_substring, unicode_lowercase};

verus! {

/// A named link. Only the name takes part in matching; the link is the
/// payload that is opened when the bookmark is chosen.
#[derive(Debug, PartialEq, Eq)]
pub struct Bookmark {
    pub name: String,
    pub link: String,
}

impl Bookmark {
    /// A bookmark with the given name and link.
    pub fn new(name: String, link: String) -> (bookmark: Bookmark)
        ensures
            bookmark.name == name,
            bookmark.link == link,
    {
        Bookmark { name, link }
    }

    /// Whether the query occurs, as it is written, in the lower-case form of
    /// the name.
    pub fn find(&self, query: String) -> (found: bool)
        ensures
            found == is_substring(query@, unicode_lowercase(self.name@)),
    {
        let lowered = self.name.as_str().to_lowercase();
        let name = chars_of(lowered.as_str());
        let wanted = chars_of(query.as_str());
        contains(&name, &wanted)
    }
}

impl Clone for Bookmark {
    fn clone(&self) -> (copy: Bookmark)
        ensures
            copy == *self,
    {
        Bookmark { name: self.name.clone(), link: self.link.clone() }
    }
}

} // verus!
