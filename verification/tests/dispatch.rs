use bookmark_search::{
    dispatch, empty, names_fit, rank, rows, text_fits, to_items, try_dispatch, Bookmark, DisplayItem,
    MAX_TEXT_CHARS,
};

fn bookmark(name: &str, link: &str) -> Bookmark {
    Bookmark { name: String::from(name), link: String::from(link) }
}

fn item(title: &str, subtitle: &str, arg: &str) -> DisplayItem {
    DisplayItem { title: String::from(title), subtitle: String::from(subtitle), arg: String::from(arg) }
}

fn sample() -> Vec<Bookmark> {
    vec![
        bookmark("Dashboard", "http://a"),
        bookmark("Dash Reports", "http://b"),
        bookmark("Other", "http://c"),
    ]
}

fn prompt() -> Vec<DisplayItem> {
    vec![item("Search for bookmarks", "Open them →", "http://search")]
}

#[test]
fn empty_is_the_prompt_row() {
    assert_eq!(vec![empty("http://search")], prompt());
}

#[test]
fn default_quotes_the_query() {
    assert_eq!(
        bookmark_search::item::default("dash", "http://search"),
        item("nothing found for dash, try search on website", "Open them →", "http://search")
    );
    assert_eq!(
        bookmark_search::item::default("", ""),
        item("nothing found for , try search on website", "Open them →", "")
    );
}

#[test]
fn rows_of_a_ranking_keep_its_order() {
    let ranked = vec![bookmark("B", "http://b"), bookmark("A", "http://a")];
    assert_eq!(
        rows(&ranked, "q", "http://search"),
        vec![
            item("B", "Open in browser", "http://b"),
            item("A", "Open in browser", "http://a"),
        ]
    );
}

#[test]
fn rows_of_an_empty_ranking_are_the_no_match_row() {
    assert_eq!(
        rows(&Vec::new(), "q", "http://search"),
        vec![item("nothing found for q, try search on website", "Open them →", "http://search")]
    );
}

#[test]
fn to_items_shows_the_ranking() {
    let records = sample();
    let items = to_items(&records, "dash", "http://search");
    let expected: Vec<DisplayItem> = rank("dash", &records).iter().map(|record| record.to_item()).collect();
    assert_eq!(items.len(), 2);
    assert_eq!(items, expected);
}

#[test]
fn to_items_without_a_match_is_one_no_match_row() {
    assert_eq!(
        to_items(&sample(), "zzzzz_not_present", "http://search"),
        vec![item(
            "nothing found for zzzzz_not_present, try search on website",
            "Open them →",
            "http://search"
        )]
    );
    assert_eq!(
        to_items(&Vec::new(), "dash", "http://search"),
        vec![item("nothing found for dash, try search on website", "Open them →", "http://search")]
    );
}

#[test]
fn dispatch_without_a_query_prompts() {
    assert_eq!(dispatch(&sample(), None, "http://search"), prompt());
}

#[test]
fn dispatch_with_a_blank_query_prompts() {
    assert_eq!(dispatch(&sample(), Some(""), "http://search"), prompt());
    assert_eq!(dispatch(&sample(), Some("   "), "http://search"), prompt());
    assert_eq!(dispatch(&sample(), Some(" \t\n\u{a0}\u{3000}"), "http://search"), prompt());
    assert_eq!(dispatch(&Vec::new(), Some(" "), "http://search"), prompt());
}

#[test]
fn dispatch_trims_and_folds_the_query() {
    let records = sample();
    let expected = to_items(&records, "dash", "http://search");
    assert_eq!(dispatch(&records, Some("  DaSh\n"), "http://search"), expected);
    assert_eq!(dispatch(&records, Some("dash"), "http://search"), expected);
}

#[test]
fn dispatch_keeps_inner_white_space() {
    let records = sample();
    assert_eq!(
        dispatch(&records, Some(" dash r "), "http://search"),
        vec![item("Dash Reports", "Open in browser", "http://b")]
    );
}

#[test]
fn dispatch_without_a_match_quotes_the_normalized_query() {
    assert_eq!(
        dispatch(&sample(), Some("  ZZZ  "), "http://search"),
        vec![item("nothing found for zzz, try search on website", "Open them →", "http://search")]
    );
}

#[test]
fn text_fits_counts_characters() {
    assert!(text_fits(""));
    assert!(text_fits(&"é".repeat(MAX_TEXT_CHARS)));
    assert!(!text_fits(&"a".repeat(MAX_TEXT_CHARS + 1)));
}

#[test]
fn names_fit_looks_at_every_name() {
    assert!(names_fit(&Vec::new()));
    assert!(names_fit(&sample()));
    let mut records = sample();
    records.push(bookmark(&"a".repeat(MAX_TEXT_CHARS + 1), "http://long"));
    records.push(bookmark("short", "http://short"));
    assert!(!names_fit(&records));
    let long_link = vec![bookmark("short", &"a".repeat(MAX_TEXT_CHARS + 1))];
    assert!(names_fit(&long_link));
}

#[test]
fn try_dispatch_answers_like_dispatch() {
    let records = sample();
    assert_eq!(
        try_dispatch(&records, Some(" Dash "), "http://search"),
        Some(dispatch(&records, Some(" Dash "), "http://search"))
    );
    assert_eq!(try_dispatch(&records, None, "http://search"), Some(prompt()));
    assert_eq!(try_dispatch(&records, Some("  "), "http://search"), Some(prompt()));
}

#[test]
fn try_dispatch_refuses_texts_that_are_too_long() {
    let long = "a".repeat(MAX_TEXT_CHARS + 1);
    assert_eq!(try_dispatch(&sample(), Some(&long), "http://search"), None);
    let records = vec![bookmark(&long, "http://long")];
    assert_eq!(try_dispatch(&records, Some("a"), "http://search"), None);
}

#[test]
fn try_dispatch_prompts_whatever_the_lengths() {
    let long = "a".repeat(MAX_TEXT_CHARS + 1);
    let records = vec![bookmark(&long, "http://long")];
    assert_eq!(try_dispatch(&records, None, "http://search"), Some(prompt()));
    assert_eq!(try_dispatch(&records, Some(" "), "http://search"), Some(prompt()));
    let blank = " ".repeat(MAX_TEXT_CHARS + 1);
    assert_eq!(try_dispatch(&sample(), Some(&blank), "http://search"), Some(prompt()));
}

#[test]
fn try_dispatch_measures_the_trimmed_query() {
    let padded = format!("  {}  ", "z".repeat(MAX_TEXT_CHARS));
    let records = vec![bookmark("Dashboard", "http://a")];
    let answered = try_dispatch(&records, Some(&padded), "http://search").unwrap();
    assert_eq!(answered.len(), 1);
    assert_eq!(answered[0].arg, "http://search");
}

#[test]
fn try_dispatch_takes_the_longest_query() {
    let longest = "z".repeat(MAX_TEXT_CHARS);
    let records = vec![bookmark("Dashboard", "http://a")];
    let answered = try_dispatch(&records, Some(&longest), "http://search").unwrap();
    assert_eq!(answered.len(), 1);
    assert_eq!(answered[0].subtitle, "Open them →");
}
