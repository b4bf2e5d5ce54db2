//! Ranking of named bookmarks against a typed query fragment.
//!
//! A [`Bookmark`] is a name with a link. [`rank`] scores every bookmark name
//! against the query with a fuzzy subsequence matcher, drops the names that do
//! not match, and orders the rest from best to worst, keeping the given order
//! among equal scores.

pub mod bookmark;
pub mod dispatch;
pub mod document;
pub mod item;
pub mod loader;
pub mod matcher;
pub mod ranking;
pub mod text;

pub use bookmark::Bookmark;
pub use dispatch::{dispatch, rows, to_items, try_dispatch};
pub use document::{digit_runs_fit, Json, MAX_DIGIT_RUN};
pub use item::{empty, DisplayItem};
pub use loader::{collect, read_bookmarks, try_read_bookmarks, LoadError};
pub use matcher::{names_fit, rank, text_fits, MAX_TEXT_CHARS};
pub use ranking::rank_order;
