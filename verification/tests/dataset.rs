//! Loading, editing, searching and saving of datasets.

use tagger_neo::dataset::Dataset;
use tagger_neo::edits::BatchOperation;
use tagger_neo::filter::{FilterMode, TagFilter};
use tagger_neo::frequency::TagSortKey;
use tagger_neo::order::SortDirection;
use tagger_neo::storage::{caption_extension, DatasetError, FoundFile};

fn strings(list: &[&str]) -> Vec<String> {
    list.iter().map(|text| text.to_string()).collect()
}

fn found(path: &str, caption: Option<&[u8]>) -> FoundFile {
    FoundFile {
        path: path.to_owned(),
        caption: caption.map(|bytes| bytes.to_vec()),
    }
}

fn dataset_fixture() -> Dataset {
    let files = [
        found("data/z\u{00e9}.PNG", Some("cat, 1girl\n, cat\r\n".as_bytes())),
        found("data/nested/a.jpg", Some("blue hair, smile".as_bytes())),
        found("data/ignored.gif", None),
    ];
    Dataset::load("data", &files).unwrap()
}

#[test]
fn recursively_loads_supported_images_and_captions() {
    let dataset = dataset_fixture();
    assert_eq!(dataset.len(), 2);
    assert_eq!(dataset.items[0].stem(), "a");
    assert_eq!(dataset.items[0].tags, vec!["blue hair", "smile"]);
    assert_eq!(dataset.items[1].tags, vec!["cat", "1girl", "cat"]);
    assert!(dataset.items.iter().all(|item| !item.is_modified()));
}

#[test]
fn missing_caption_is_empty_and_invalid_utf8_is_error() {
    let empty = found("data/empty.webp", None);
    assert!(Dataset::load("data", &[empty]).unwrap().items[0].tags.is_empty());
    let files = [
        found("data/empty.webp", None),
        found("data/bad.png", Some(&[0xff, 0xfe])),
    ];
    assert!(Dataset::load("data", &files).is_err());
}

#[test]
fn custom_caption_extension_and_filename_fallback_are_supported() {
    let missing = [found("data/blue_hair.png", None)];
    let fallback = Dataset::load_with_options("data", &missing, "caption", true).unwrap();
    assert_eq!(fallback.items[0].tags, vec!["blue hair"]);
    assert!(fallback.items[0].is_modified());
    let there = [found("data/blue_hair.png", Some(b"1girl\nsolo, smile"))];
    let loaded = Dataset::load_with_options("data", &there, ".caption", false).unwrap();
    assert_eq!(loaded.items[0].tags, vec!["1girl", "solo", "smile"]);
    assert_eq!(loaded.items[0].tag_path, "data/blue_hair.caption");
}

#[test]
fn selection_and_filters_support_and_or_and_exclusion() {
    let mut dataset = dataset_fixture();
    assert!(dataset.set_selected(0, true));
    assert_eq!(dataset.selected_indices(), vec![0]);
    assert_eq!(
        dataset.filtered_indices(&TagFilter::and(&strings(&["blue hair"]), &[])),
        vec![0]
    );
    assert_eq!(
        dataset.filtered_indices(&TagFilter::and(&strings(&["cat", "1girl"]), &[])),
        vec![1]
    );
    assert!(
        dataset.filtered_indices(&TagFilter::or(&strings(&["cat", "smile"]), &strings(&["cat"])))
            == vec![0]
    );
    assert!(!dataset.toggle_selected(0));
}

#[test]
fn individual_edit_and_dirty_tracking() {
    let mut dataset = dataset_fixture();
    assert!(dataset.set_tag_text(0, " new, tag "));
    assert_eq!(dataset.items[0].tags, vec!["new", "tag"]);
    assert!(dataset.is_modified(0));
    assert!(!dataset.set_tag_text(0, "new, tag"));
    assert!(dataset.add_tag(0, "third"));
    assert!(dataset.remove_tag(0, "THIRD"));
    assert!(dataset.deduplicate_item(1));
    assert_eq!(dataset.items[1].tags, vec!["cat", "1girl"]);
    dataset.mark_saved();
    assert!(!dataset.has_unsaved_changes());
}

#[test]
fn batch_operations_and_regex_are_applied_to_selection() {
    let mut dataset = dataset_fixture();
    dataset.select_all();
    assert_eq!(dataset.batch_prepend("quality"), 2);
    assert_eq!(dataset.batch_append("score_9, "), 2);
    assert_eq!(dataset.batch_remove("smile"), 1);
    assert_eq!(
        dataset
            .batch_replace_regex(r"score_(\d)", "score_${1}_high")
            .unwrap(),
        2
    );
    assert_eq!(dataset.batch_remove_regex(r"^1girl$").unwrap(), 1);
    assert!(dataset.items[0].tags.contains(&"score_9_high".to_owned()));
    assert!(!dataset.items[0].tags.contains(&"smile".to_owned()));
    assert!(!dataset.items[1].tags.contains(&"1girl".to_owned()));
}

#[test]
fn undo_redo_tracks_only_real_changes_and_new_edits_clear_redo() {
    let mut dataset = dataset_fixture();
    dataset.select_all();
    assert_eq!(dataset.batch_append("x"), 2);
    assert!(dataset.can_undo());
    assert!(dataset.undo());
    assert!(!dataset.items[0].tags.contains(&"x".to_owned()));
    assert!(dataset.redo());
    assert!(dataset.items[0].tags.contains(&"x".to_owned()));
    assert!(dataset.set_tag_text(0, "different"));
    assert!(!dataset.can_redo());
    assert_eq!(
        dataset
            .apply_to_selected(&BatchOperation::Remove("absent".to_owned()))
            .unwrap(),
        0
    );
}

#[test]
fn sorting_and_search_are_deterministic() {
    let mut dataset = dataset_fixture();
    dataset.sort_by_name(false);
    assert_eq!(dataset.items[0].stem(), "z\u{00e9}");
    assert_eq!(
        dataset.search("cat, -1girl", FilterMode::And),
        Vec::<usize>::new()
    );
    assert_eq!(dataset.search("cat, smile", FilterMode::Or), vec![0, 1]);
}

#[test]
fn save_all_writes_captions_and_clears_dirty_state() {
    let mut dataset = dataset_fixture();
    dataset.set_tag_text(0, "one, two");
    let tasks = dataset.save_all();
    let count = tasks.len();
    assert_eq!(count, 1);
    assert_eq!(tasks[0].tag_path, dataset.items[0].tag_path);
    assert_eq!(tasks[0].text, "one, two");
    assert_eq!(dataset.finish_save(count), Some(1));
    assert!(!dataset.has_unsaved_changes());
}

#[test]
fn optional_save_backup_uses_numbered_sidecar() {
    let mut dataset = dataset_fixture();
    dataset.set_tag_text(0, "changed");
    let tasks = dataset.save_all_with_backups(true);
    assert_eq!(tasks.len(), 1);
    assert!(tasks[0].backup);
    assert_eq!(tasks[0].text, "changed");
    assert_eq!(
        tagger_neo::file_ops::caption_backup(&tasks[0].tag_path, 0),
        Some("data/nested/a.000".to_owned())
    );
}

#[test]
fn invalid_regex_does_not_change_history_or_tags() {
    let mut dataset = dataset_fixture();
    dataset.select_all();
    let before = dataset.items[0].tags.clone();
    assert!(dataset.batch_replace_regex("[", "x").is_err());
    assert_eq!(dataset.items[0].tags, before);
    assert!(!dataset.can_undo());
}

#[test]
fn frequencies_and_common_tags_are_deterministic() {
    let mut dataset = dataset_fixture();
    dataset.items[0].tags = strings(&["z", "a", "z", "b"]);
    dataset.items[1].tags = strings(&["b", "a", "d"]);
    let frequencies = dataset.tag_frequencies(&[0, 1, 1, 99]);
    assert_eq!(frequencies.get("a"), Some(&2));
    assert_eq!(frequencies.get("b"), Some(&2));
    assert_eq!(frequencies.get("z"), Some(&2));
    assert_eq!(frequencies.get("d"), Some(&1));
    assert_eq!(dataset.common_tags(&[0, 1]), vec!["a", "b"]);
    assert!(dataset.common_tags(&[]).is_empty());
}

#[test]
fn common_tag_replacement_preserves_positions_and_has_one_undo_step() {
    let mut dataset = dataset_fixture();
    dataset.items[0].tags = strings(&["A", "A", "B", "C"]);
    dataset.items[1].tags = strings(&["A", "B", "D"]);
    dataset.mark_saved();

    assert_eq!(
        dataset.replace_common_tags(&[0, 1], &strings(&["X", "Y", "Z"]), false),
        2
    );
    assert_eq!(dataset.items[0].tags, vec!["X", "X", "Y", "C", "Z"]);
    assert_eq!(dataset.items[1].tags, vec!["X", "Y", "D", "Z"]);
    assert!(dataset.undo());
    assert_eq!(dataset.items[0].tags, vec!["A", "A", "B", "C"]);
    assert_eq!(dataset.items[1].tags, vec!["A", "B", "D"]);
    assert!(!dataset.can_undo());

    assert_eq!(
        dataset.replace_common_tags(&[0, 1], &strings(&["", "Q"]), true),
        2
    );
    assert_eq!(dataset.items[0].tags, vec!["Q", "C"]);
    assert_eq!(dataset.items[1].tags, vec!["Q", "D"]);
}

#[test]
fn tag_sorting_uses_dataset_frequency_and_one_undo_step() {
    let mut dataset = dataset_fixture();
    dataset.items[0].tags = strings(&["z", "a", "z"]);
    dataset.items[1].tags = strings(&["a", "b"]);
    dataset.mark_saved();

    assert_eq!(
        dataset.sort_tags_in_items(&[0, 1], TagSortKey::Frequency, SortDirection::Ascending),
        2
    );
    assert_eq!(dataset.items[0].tags, vec!["a", "z", "z"]);
    assert_eq!(dataset.items[1].tags, vec!["b", "a"]);
    assert!(dataset.undo());
    assert_eq!(dataset.items[0].tags, vec!["z", "a", "z"]);
    assert_eq!(dataset.items[1].tags, vec!["a", "b"]);
}

#[test]
fn caption_and_selected_tag_replacement_support_literal_and_regex() {
    let mut dataset = dataset_fixture();
    dataset.items[0].tags = strings(&["1boy", "blue hair", "1boy, extra"]);
    dataset.items[1].tags = strings(&["1boy", "red hair"]);
    dataset.mark_saved();

    assert_eq!(
        dataset
            .replace_caption(&[0, 1], "boy", "girl", false)
            .unwrap(),
        2
    );
    assert_eq!(
        dataset.items[0].tags,
        vec!["1girl", "blue hair", "1girl", "extra"]
    );
    assert!(dataset.undo());

    assert_eq!(
        dataset
            .replace_selected_tags(
                &[0, 1],
                &strings(&["1boy", "blue hair"]),
                r"^(1)boy$|^blue",
                "${1}girl",
                true,
            )
            .unwrap(),
        2
    );
    assert_eq!(
        dataset.items[0].tags,
        vec!["1girl", "girl hair", "1boy, extra"]
    );
    assert_eq!(dataset.items[1].tags, vec!["1girl", "red hair"]);
    assert!(dataset.undo());
    assert_eq!(dataset.items[0].tags[0], "1boy");
}

#[test]
fn truncate_tag_count_limits_tags_and_undoes_as_one_batch() {
    let mut dataset = dataset_fixture();
    dataset.items[0].tags = strings(&["a", "b", "c"]);
    dataset.items[1].tags = strings(&["d"]);
    dataset.mark_saved();
    assert_eq!(dataset.truncate_tags(&[0, 1], 2), 1);
    assert_eq!(dataset.items[0].tags, vec!["a", "b"]);
    assert!(!dataset.items[1].is_modified());
    assert!(dataset.undo());
    assert_eq!(dataset.items[0].tags, vec!["a", "b", "c"]);
}

#[test]
fn undo_after_sort_restores_tags_by_image_path() {
    let mut dataset = dataset_fixture();
    let first_path = dataset.items[0].image_path.clone();
    let second_path = dataset.items[1].image_path.clone();
    dataset.set_tag_text(0, "edited");
    dataset.sort_by_name(false);
    assert!(dataset.undo());
    let first = dataset
        .items
        .iter()
        .find(|item| item.image_path == first_path)
        .unwrap();
    let second = dataset
        .items
        .iter()
        .find(|item| item.image_path == second_path)
        .unwrap();
    assert_eq!(first.tags, vec!["blue hair", "smile"]);
    assert_eq!(second.tags, vec!["cat", "1girl", "cat"]);
}

#[test]
fn load_order_does_not_depend_on_the_order_of_the_files() {
    let forward = [
        found("data/b.png", None),
        found("data/A.png", None),
        found("data/a.png", None),
    ];
    let backward = [
        found("data/a.png", None),
        found("data/A.png", None),
        found("data/b.png", None),
    ];
    let one = Dataset::load("data", &forward).unwrap();
    let other = Dataset::load("data", &backward).unwrap();
    let names = |data: &Dataset| -> Vec<String> {
        data.items.iter().map(|item| item.image_path.clone()).collect()
    };
    assert_eq!(names(&one), names(&other));
    assert_eq!(names(&one), vec!["data/A.png", "data/a.png", "data/b.png"]);
}

#[test]
fn extensions_are_checked() {
    assert_eq!(caption_extension(" .txt ").unwrap(), "txt");
    assert_eq!(caption_extension("..cap.txt").unwrap(), "cap.txt");
    for bad in ["", " . ", "a/b", "a\\b", "a:b"] {
        assert!(matches!(
            caption_extension(bad),
            Err(DatasetError::InvalidExtension(_))
        ));
    }
    let files = [found("data/a.png", Some(b"x"))];
    let error = Dataset::load_with_options("data", &files, "a/b", false).err().unwrap();
    assert_eq!(error.message(), "invalid caption extension: a/b");
    let unreadable = [found("data/a.png", Some(&[0xc3, 0x28]))];
    let error = Dataset::load("data", &unreadable).err().unwrap();
    assert!(matches!(&error, DatasetError::NotText(path) if path == "data/a.txt"));
    assert_eq!(error.message(), "failed to read data/a.txt as UTF-8");
}

#[test]
fn saved_captions_load_as_they_were() {
    let mut dataset = dataset_fixture();
    dataset.set_tag_text(1, "b\u{e4}r, \u{732b}\nthird");
    let tasks = dataset.save_all();
    assert_eq!(tasks[0].text, "b\u{e4}r, \u{732b}, third");
    let again = Dataset::load("data", &[found("data/z\u{e9}.PNG", Some(tasks[0].text.as_bytes()))]);
    assert_eq!(again.unwrap().items[0].tags, dataset.items[1].tags);
    assert_eq!(dataset.finish_save(7), None);
    assert!(dataset.has_unsaved_changes());
}

#[test]
fn undo_and_redo_give_the_same_items_back() {
    let mut dataset = dataset_fixture();
    let before: Vec<Vec<String>> = dataset.items.iter().map(|item| item.tags.clone()).collect();
    let updates = vec![(0, "one".to_owned()), (1, "two, three".to_owned()), (9, "x".to_owned())];
    assert_eq!(dataset.set_tag_texts(&updates), 2);
    let after: Vec<Vec<String>> = dataset.items.iter().map(|item| item.tags.clone()).collect();
    assert!(dataset.undo());
    let back: Vec<Vec<String>> = dataset.items.iter().map(|item| item.tags.clone()).collect();
    assert_eq!(back, before);
    assert!(!dataset.can_undo());
    assert!(dataset.redo());
    let forth: Vec<Vec<String>> = dataset.items.iter().map(|item| item.tags.clone()).collect();
    assert_eq!(forth, after);
    dataset.clear_history();
    assert!(!dataset.can_undo() && !dataset.undo() && !dataset.redo());
}

#[test]
fn a_tag_that_is_not_there_is_not_removed_and_redo_stays() {
    let mut dataset = dataset_fixture();
    dataset.set_tag_text(0, "x");
    dataset.undo();
    assert!(dataset.can_redo());
    assert!(!dataset.remove_tag(0, "absent"));
    assert!(dataset.can_redo());
    assert!(!dataset.can_undo());
    assert!(dataset.redo());
    assert_eq!(dataset.items[0].tags, vec!["x"]);
}

#[test]
fn errors_of_patterns_name_the_pattern() {
    let mut dataset = dataset_fixture();
    dataset.select_all();
    assert_eq!(
        dataset.batch_replace_regex("[", "x").unwrap_err().message(),
        "invalid replace regular expression: ["
    );
    assert_eq!(
        dataset.batch_remove_regex("(").unwrap_err().message(),
        "invalid remove regular expression: ("
    );
    assert_eq!(
        dataset.replace_caption(&[0], "[", "x", true).unwrap_err().message(),
        "invalid caption replacement regular expression: ["
    );
    assert_eq!(
        dataset
            .replace_selected_tags(&[0], &strings(&["smile"]), "[", "x", true)
            .unwrap_err()
            .message(),
        "invalid selected-tag replacement regular expression: ["
    );
    assert!(!dataset.can_undo());
}

#[test]
fn literal_replacements_change_text_inside_tags() {
    let mut dataset = dataset_fixture();
    dataset.select_all();
    assert_eq!(dataset.batch_replace("hair", "eyes"), 1);
    assert_eq!(dataset.items[0].tags, vec!["blue eyes", "smile"]);
    assert_eq!(dataset.deduplicate_selected(), 1);
    assert_eq!(dataset.items[1].tags, vec!["cat", "1girl"]);
}
