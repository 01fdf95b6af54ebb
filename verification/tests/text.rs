//! Texts, paths, orders and tag lists.

use std::path::Path;
use tagger_neo::filter::{read_query, FilterMode, TagFilter};
use tagger_neo::frequency::{sort_tags, Frequencies, TagSortKey};
use tagger_neo::order::{comes_before, sorted_unique, SortDirection};
use tagger_neo::paths::{
    canonical_path, extension, file_name, file_stem, is_supported_image, join_path, parent,
    with_extension,
};
use tagger_neo::tags::{deduplicate_tags, format_tags, normalize_terms, parse_tags, tags_without};
use tagger_neo::text::{
    contains, decimal_text, ends_with, eq_ignore_ascii_case, first_chars, replace, space,
    starts_with, to_ascii_lower, trim,
};

fn strings(list: &[&str]) -> Vec<String> {
    list.iter().map(|text| text.to_string()).collect()
}

#[test]
fn white_space_is_that_of_unicode() {
    for code in 0..=0x10_ffffu32 {
        if let Some(c) = char::from_u32(code) {
            assert_eq!(space(c), c.is_whitespace(), "{code:x}");
        }
    }
    for text in ["", " ", "a", " a b\t", "\u{3000}x\u{a0}", "\r\n"] {
        assert_eq!(trim(text), text.trim());
    }
}

#[test]
fn texts_are_compared_searched_and_changed() {
    let samples = ["", "a", "aa", "aba", "Blue Hair", "blue hair", "\u{e9}A", "\u{c9}a", "aXbXc"];
    for a in samples {
        assert_eq!(to_ascii_lower(a), a.to_ascii_lowercase());
        for count in 0..4 {
            assert_eq!(first_chars(a, count), a.chars().take(count).collect::<String>());
        }
        for b in samples {
            assert_eq!(eq_ignore_ascii_case(a, b), a.eq_ignore_ascii_case(b));
            assert_eq!(comes_before(a, b), a < b);
            assert_eq!(starts_with(a, b), a.starts_with(b));
            assert_eq!(ends_with(a, b), a.ends_with(b));
            assert_eq!(contains(a, b), a.contains(b));
            let expected = if b.is_empty() { a.to_owned() } else { a.replace(b, "-") };
            assert_eq!(replace(a, b, "-"), expected, "{a} {b}");
        }
    }
    for number in [0u128, 7, 10, 999, 1_000, u64::MAX as u128] {
        assert_eq!(decimal_text(number), number.to_string());
    }
}

#[test]
fn paths_are_taken_apart() {
    let samples = [
        "", "/", ".", "..", "a", "a/", "a/b", "/a", "a/b.c", "a/.b", "a/b.c.d", "a/b.", "a/..",
        "a/.", "a//b", "./a", "/a/b/", "a./b", "a/.b.c", "//a", "a/./b", "/..", "...", "/.",
    ];
    for text in samples {
        let path = Path::new(text);
        let name = path.file_name().map(|part| part.to_str().unwrap().to_owned());
        assert_eq!(file_name(text), name, "{text}");
        let stem = path.file_stem().map(|part| part.to_str().unwrap().to_owned());
        assert_eq!(file_stem(text), stem, "{text}");
        let found = path.extension().map(|part| part.to_str().unwrap().to_owned());
        assert_eq!(extension(text), found, "{text}");
        let up = path.parent().map(|parent| parent.to_str().unwrap().to_owned());
        assert_eq!(parent(text), up, "{text}");
        assert_eq!(
            Path::new(&with_extension(text, "txt")),
            path.with_extension("txt").as_path(),
            "{text}"
        );
        for other in samples {
            assert_eq!(
                canonical_path(text) == canonical_path(other),
                path == Path::new(other),
                "{text} {other}"
            );
            assert_eq!(
                Path::new(&join_path(text, other)),
                path.join(other).as_path(),
                "{text} {other}"
            );
        }
    }
}

#[test]
fn images_are_told_by_their_extension() {
    for name in ["a.jpg", "a.JPEG", "b/a.png", "a.webp", "a.bmp", "a.Tiff"] {
        assert!(is_supported_image(name), "{name}");
    }
    for name in ["a.gif", "a.tif", "png", ".png", "a.txt", "a.png/"] {
        let expected = Path::new(name).extension().map_or(false, |found| found == "png");
        assert_eq!(is_supported_image(name), expected, "{name}");
    }
}

#[test]
fn captions_are_read_and_written() {
    assert_eq!(parse_tags(" a , b\n c\r\n, ,d"), vec!["a", "b", "c", "d"]);
    assert_eq!(format_tags(&strings(&["a", "b c"])), "a, b c");
    let tags = strings(&["1girl", "blue hair", "\u{732b}"]);
    assert_eq!(parse_tags(&format_tags(&tags)), tags);
    assert_eq!(normalize_terms(&strings(&["a, b", " ", "c"])), vec!["a", "b", "c"]);
    let mut repeated = strings(&["A", "b", "a", "B", "c"]);
    deduplicate_tags(&mut repeated);
    assert_eq!(repeated, vec!["A", "b", "c"]);
    let again = repeated.clone();
    deduplicate_tags(&mut repeated);
    assert_eq!(repeated, again);
    assert_eq!(tags_without(&strings(&["A", "b", "a"]), "a"), vec!["b"]);
}

#[test]
fn lists_are_put_in_order() {
    assert_eq!(sorted_unique(&strings(&["b", "a", "b", "C"])), vec!["C", "a", "b"]);
    let all = strings(&["x", "long", "x", "mid", "Mid"]);
    let counts = Frequencies::of(&all);
    assert_eq!(counts.count("x"), 2);
    assert_eq!(counts.get("none"), None);
    let mut list = strings(&["mid", "x", "long"]);
    list = sort_tags(&list, TagSortKey::Length, SortDirection::Descending, &counts);
    assert_eq!(list, vec!["long", "mid", "x"]);
    list = sort_tags(&list, TagSortKey::Frequency, SortDirection::Descending, &counts);
    assert_eq!(list[0], "x");
    list = sort_tags(&list, TagSortKey::Alphabetical, SortDirection::Ascending, &counts);
    assert_eq!(list, vec!["long", "mid", "x"]);
}

#[test]
fn filters_look_for_whole_tags() {
    let tags = strings(&["Blue Hair", "smile"]);
    let none: Vec<String> = Vec::new();
    assert!(TagFilter::default().matches(&tags));
    assert!(TagFilter::and(&strings(&["blue hair", "SMILE"]), &none).matches(&tags));
    assert!(!TagFilter::and(&strings(&["blue"]), &none).matches(&tags));
    assert!(TagFilter::or(&strings(&["cat", "smile"]), &none).matches(&tags));
    assert!(!TagFilter::new(&none, &strings(&["smile"]), FilterMode::Or).matches(&tags));
    let query = read_query(" smile, -cat, ", FilterMode::And);
    assert_eq!(query.included, vec!["smile"]);
    assert_eq!(query.excluded, vec!["cat"]);
    assert!(query.matches(&tags));
}
