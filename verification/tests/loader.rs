use bookmark_search::{
    collect, digit_runs_fit, read_bookmarks, try_read_bookmarks, Bookmark, Json, LoadError,
    MAX_DIGIT_RUN,
};

fn bookmark(name: &str, link: &str) -> Bookmark {
    Bookmark { name: String::from(name), link: String::from(link) }
}

fn text(value: &str) -> Json {
    Json::Text(String::from(value))
}

fn object(fields: Vec<(&str, Json)>) -> Json {
    Json::Object(fields.into_iter().map(|(key, value)| (String::from(key), value)).collect())
}

fn entry(title: &str, href: &str) -> Json {
    object(vec![("title", text(title)), ("href", text(href))])
}

#[test]
fn reads_entries_of_all_groups_in_document_order() {
    let json = r#"{
        "work": [
            {"title": "Dashboard", "href": "http://a"},
            {"title": "Dash Reports", "href": "http://b", "tags": ["x", 1]}
        ],
        "empty": [],
        "home": [
            {"href": "http://c", "title": "Other"}
        ]
    }"#;
    let expected = vec![
        bookmark("Dashboard", "http://a"),
        bookmark("Dash Reports", "http://b"),
        bookmark("Other", "http://c"),
    ];
    assert_eq!(read_bookmarks(String::from(json)), expected);
    assert_eq!(try_read_bookmarks(String::from(json)), Ok(expected));
}

#[test]
fn reads_long_and_escaped_texts() {
    let json = r#"{"g": [{"title": "A title that is rather longer than thirty bytes \"quoted\"", "href": "http://a/é"}]}"#;
    let expected =
        vec![bookmark("A title that is rather longer than thirty bytes \"quoted\"", "http://a/é")];
    assert_eq!(read_bookmarks(String::from(json)), expected);
    assert_eq!(try_read_bookmarks(String::from(json)), Ok(expected));
}

#[test]
fn rejects_text_that_is_not_json() {
    assert_eq!(try_read_bookmarks(String::from("{\"work\": [")), Err(LoadError::InvalidJson));
    assert_eq!(try_read_bookmarks(String::from("{")), Err(LoadError::InvalidJson));
    assert_eq!(try_read_bookmarks(String::from("")), Err(LoadError::InvalidJson));
    assert_eq!(try_read_bookmarks(String::from("not json")), Err(LoadError::InvalidJson));
}

#[test]
fn reports_the_first_malformed_entry() {
    let json = r#"{
        "work": [{"title": "Dashboard", "href": "http://a"}],
        "home": [
            {"title": "No link"},
            {"href": "http://no-title"}
        ]
    }"#;
    assert_eq!(try_read_bookmarks(String::from(json)), Err(LoadError::MalformedEntry { index: 1 }));
}

#[test]
fn rejects_fields_that_hold_no_text() {
    let json = r#"{"g": [{"title": 7, "href": "http://a"}]}"#;
    assert_eq!(try_read_bookmarks(String::from(json)), Err(LoadError::MalformedEntry { index: 0 }));
    let json = r#"{"g": [{"title": "a", "href": null}]}"#;
    assert_eq!(try_read_bookmarks(String::from(json)), Err(LoadError::MalformedEntry { index: 0 }));
    let json = r#"{"g": ["just text"]}"#;
    assert_eq!(try_read_bookmarks(String::from(json)), Err(LoadError::MalformedEntry { index: 0 }));
}

#[test]
fn a_document_without_groups_has_no_bookmarks() {
    assert_eq!(read_bookmarks(String::from("{}")), vec![]);
    assert_eq!(read_bookmarks(String::from("[]")), vec![]);
    assert_eq!(try_read_bookmarks(String::from("17")), Ok(vec![]));
    let others = r#"{"a": 1, "b": "text", "c": {"d": []}}"#;
    assert_eq!(try_read_bookmarks(String::from(others)), Ok(vec![]));
}

#[test]
fn a_repeated_key_keeps_its_last_value() {
    let json = r#"{"g": [{"title": "old", "href": "http://a", "title": "new"}]}"#;
    assert_eq!(read_bookmarks(String::from(json)), vec![bookmark("new", "http://a")]);
}

#[test]
fn collect_reads_a_tree() {
    let document = object(vec![
        ("first", Json::Array(vec![entry("A", "http://a")])),
        ("skipped", Json::Number),
        ("second", Json::Array(vec![entry("B", "http://b"), entry("C", "http://c")])),
    ]);
    assert_eq!(
        collect(&document),
        Ok(vec![bookmark("A", "http://a"), bookmark("B", "http://b"), bookmark("C", "http://c")])
    );
}

#[test]
fn collect_reports_the_place_of_the_first_malformed_entry() {
    let document = object(vec![
        ("first", Json::Array(vec![entry("A", "http://a"), entry("B", "http://b")])),
        ("second", Json::Array(vec![entry("C", "http://c"), Json::Null, Json::Boolean(true)])),
    ]);
    assert_eq!(collect(&document), Err(LoadError::MalformedEntry { index: 3 }));
}

#[test]
fn collect_of_a_value_that_is_no_object_is_empty() {
    assert_eq!(collect(&Json::Null), Ok(vec![]));
    assert_eq!(collect(&Json::Array(vec![entry("A", "http://a")])), Ok(vec![]));
    assert_eq!(collect(&text("x")), Ok(vec![]));
}

#[test]
fn text_field_finds_text_only() {
    let value = object(vec![
        ("title", text("Dashboard")),
        ("count", Json::Number),
        ("title", text("shadowed")),
    ]);
    assert_eq!(value.text_field("title"), Some(&String::from("Dashboard")));
    assert_eq!(value.text_field("count"), None);
    assert_eq!(value.text_field("href"), None);
    assert_eq!(text("title").text_field("title"), None);
}

#[test]
fn from_json_value_takes_title_and_href() {
    let value = entry("Dashboard", "http://www.test.blub");
    assert_eq!(Bookmark::from_json_value(&value), bookmark("Dashboard", "http://www.test.blub"));
    assert_eq!(Bookmark::try_from_json_value(&value), Some(bookmark("Dashboard", "http://www.test.blub")));
}

#[test]
fn try_from_json_value_needs_both_texts() {
    assert_eq!(Bookmark::try_from_json_value(&object(vec![("title", text("a"))])), None);
    assert_eq!(Bookmark::try_from_json_value(&object(vec![("href", text("a"))])), None);
    assert_eq!(
        Bookmark::try_from_json_value(&object(vec![("title", Json::Null), ("href", text("a"))])),
        None
    );
    assert_eq!(Bookmark::try_from_json_value(&Json::Array(vec![])), None);
}

#[test]
fn reports_an_entry_without_a_link() {
    let json = r#"{"a":[{"title":"T"}]}"#.to_string();
    assert_eq!(try_read_bookmarks(json), Err(LoadError::MalformedEntry { index: 0 }));
}

#[test]
fn digit_runs_fit_measures_the_longest_run() {
    assert!(digit_runs_fit(""));
    assert!(digit_runs_fit("no digits"));
    assert!(digit_runs_fit(&"7".repeat(MAX_DIGIT_RUN)));
    assert!(!digit_runs_fit(&"7".repeat(MAX_DIGIT_RUN + 1)));
    let broken = format!("{}.{}", "1".repeat(MAX_DIGIT_RUN), "2".repeat(MAX_DIGIT_RUN));
    assert!(digit_runs_fit(&broken));
    let late = format!("a1b{}", "0".repeat(MAX_DIGIT_RUN + 1));
    assert!(!digit_runs_fit(&late));
    let other_digits = "٣".repeat(MAX_DIGIT_RUN + 1);
    assert!(digit_runs_fit(&other_digits));
}

#[test]
fn refuses_a_fraction_that_is_too_long() {
    let json = format!(r#"{{"n": 0.{}}}"#, "0".repeat(MAX_DIGIT_RUN + 1));
    assert_eq!(try_read_bookmarks(json), Err(LoadError::TooManyDigits));
    let json = format!(r#"{{"g": [{{"title": "{}", "href": "h"}}]}}"#, "1".repeat(MAX_DIGIT_RUN + 1));
    assert_eq!(try_read_bookmarks(json), Err(LoadError::TooManyDigits));
}

#[test]
fn reads_the_longest_fraction() {
    let json = format!(
        r#"{{"n": 0.{}, "g": [{{"title": "T", "href": "h"}}]}}"#,
        "0".repeat(MAX_DIGIT_RUN)
    );
    assert_eq!(try_read_bookmarks(json), Ok(vec![bookmark("T", "h")]));
    let json = format!(
        r#"{{"n": 1{}.{}e{}, "g": []}}"#,
        "9".repeat(MAX_DIGIT_RUN - 1),
        "9".repeat(MAX_DIGIT_RUN),
        "9".repeat(MAX_DIGIT_RUN)
    );
    assert_eq!(try_read_bookmarks(json), Ok(vec![]));
}

#[test]
fn digits_are_tested_before_the_syntax() {
    let json = format!("not json {}", "0".repeat(MAX_DIGIT_RUN + 1));
    assert_eq!(try_read_bookmarks(json), Err(LoadError::TooManyDigits));
}
