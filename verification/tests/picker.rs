//! The tag picker.

use tagger_neo::tag_picker::{PickerInput, TagPicker, TagSort};

fn tags() -> Vec<(String, usize)> {
    [
        ("blue eyes", 4),
        ("red eyes", 2),
        ("blue hair", 9),
        ("1girl", 7),
    ]
    .into_iter()
    .map(|(tag, count)| (tag.to_owned(), count))
    .collect()
}

#[test]
fn substring_prefix_and_suffix_matching() {
    let data = tags();
    let mut picker = TagPicker::new();
    picker.set_query("blue");
    assert_eq!(
        picker.filtered_visible_tags(&data),
        vec!["blue eyes", "blue hair"]
    );

    picker.set_prefix(true);
    assert_eq!(
        picker.filtered_visible_tags(&data),
        vec!["blue eyes", "blue hair"]
    );
    picker.set_query("eyes");
    picker.set_prefix(false);
    picker.set_suffix(true);
    assert_eq!(
        picker.filtered_visible_tags(&data),
        vec!["blue eyes", "red eyes"]
    );
}

#[test]
fn regex_and_invalid_regex_are_safe() {
    let data = tags();
    let mut picker = TagPicker::new();
    picker.set_regex(true);
    picker.set_query(r"^blue .+");
    assert_eq!(
        picker.filtered_visible_tags(&data),
        vec!["blue eyes", "blue hair"]
    );
    picker.set_query("[");
    assert_eq!(picker.filtered_visible_tags(&data).len(), data.len());
}

#[test]
fn sorting_is_deterministic_and_supports_descending() {
    let data = tags();
    let mut picker = TagPicker::new();
    picker.set_sort(TagSort::Frequency);
    assert_eq!(
        picker.filtered_visible_tags(&data),
        vec!["red eyes", "blue eyes", "1girl", "blue hair"]
    );
    picker.set_descending(true);
    assert_eq!(
        picker.filtered_visible_tags(&data),
        vec!["blue hair", "1girl", "blue eyes", "red eyes"]
    );

    picker.set_sort(TagSort::Length);
    picker.set_descending(false);
    assert_eq!(
        picker.filtered_visible_tags(&data),
        vec!["1girl", "red eyes", "blue eyes", "blue hair"]
    );
}

#[test]
fn visible_selection_preserves_hidden_tags() {
    let data = tags();
    let mut picker = TagPicker::new();
    picker.set_selected_tags(&vec!["1girl".to_owned(), "not-visible".to_owned()]);
    picker.set_query("blue");
    assert!(picker.select_visible(&data));
    assert!(picker.selected_tags().contains("1girl"));
    assert!(picker.selected_tags().contains("not-visible"));
    assert!(picker.selected_tags().contains("blue eyes"));
    assert!(picker.clear_visible(&data));
    assert_eq!(picker.selected_tags().len(), 2);
}

#[test]
fn order_ignores_case_and_matching_does_not() {
    let data: Vec<(String, usize)> = ["\u{c9}b", "\u{e9}a", "B", "a"]
        .iter()
        .map(|tag| (tag.to_string(), 1))
        .collect();
    let mut picker = TagPicker::new();
    assert_eq!(
        picker.filtered_visible_tags(&data),
        vec!["a", "B", "\u{e9}a", "\u{c9}b"]
    );
    picker.set_query("b");
    assert_eq!(picker.filtered_visible_tags(&data), vec!["\u{c9}b"]);
}

#[test]
fn prefix_and_suffix_patterns_are_anchored() {
    let data = tags();
    let mut picker = TagPicker::new();
    picker.set_regex(true);
    picker.set_query("blue|eyes");
    picker.set_prefix(true);
    assert_eq!(
        picker.filtered_visible_tags(&data),
        vec!["blue eyes", "blue hair"]
    );
    picker.set_prefix(false);
    picker.set_suffix(true);
    assert_eq!(
        picker.filtered_visible_tags(&data),
        vec!["blue eyes", "red eyes"]
    );
}

#[test]
fn an_invalid_pattern_says_why() {
    let mut picker = TagPicker::new();
    assert!(picker.regex_valid());
    assert_eq!(picker.regex_error_message(), None);
    picker.set_query("[");
    assert!(!picker.regex_valid());
    picker.set_query("(");
    assert!(!picker.regex_valid());
    picker.set_regex(true);
    assert!(!picker.regex_valid());
    assert!(picker.regex_error_message().unwrap().contains("unclosed group"));
}

#[test]
fn clicks_and_buttons_change_the_selection() {
    let data = tags();
    let mut picker = TagPicker::new();
    let entries = picker.visible_entries(&data);
    let click = PickerInput {
        select_visible: false,
        clear_visible: false,
        clicked: Some("1girl".to_owned()),
    };
    assert!(picker.respond(&entries, &click).changed);
    assert!(picker.selected_tags_ref().contains("1girl"));
    assert!(picker.respond(&entries, &click).changed);
    assert!(picker.selected_tags_ref().is_empty());
    let all = PickerInput { select_visible: true, clear_visible: false, clicked: None };
    assert!(picker.respond(&entries, &all).changed);
    assert_eq!(picker.selected_tags().len(), 4);
    assert!(!picker.respond(&entries, &all).changed);
    let none = PickerInput { select_visible: false, clear_visible: true, clicked: None };
    assert!(picker.respond(&entries, &none).changed);
    assert_eq!(picker.selected_tags().len(), 0);
}
