//! The editor: what its controls do.

use tagger_neo::actions::{model_is_there, uses_shared_folder};
use tagger_neo::editor::{
    Batch, BatchTarget, Editor, Panel, ReplaceTarget, Status, WorkerEvent,
};
use tagger_neo::filter::FilterMode;
use tagger_neo::grid::{card_at, card_tag, card_title, more_tags, row_count, Modifiers};
use tagger_neo::json::{Json, JsonRecord};
use tagger_neo::metadata::{KohyaMetadata, Location, Platform};
use tagger_neo::session::EditKeys;
use tagger_neo::settings::{clamp_unit, Preferences};
use tagger_neo::storage::FoundFile;
use tagger_neo::suggestions::{suggest_tags, PendingTags};
use tagger_neo::tagger::{TagCategory, TagPrediction, Wd14Model};
use tagger_neo::thumbnails::{Thumbnail, Thumbnails, MAX_CACHED_THUMBNAILS};

fn found(path: &str, caption: &str) -> FoundFile {
    FoundFile {
        path: path.to_owned(),
        caption: Some(caption.as_bytes().to_vec()),
    }
}

fn files() -> Vec<FoundFile> {
    vec![
        found("data/a.png", "cat, smile"),
        found("data/b.png", "dog, smile"),
        found("data/c.png", "cat, dog"),
    ]
}

fn editor() -> Editor {
    let mut editor = Editor::new();
    assert!(editor.open("data", &files()));
    editor
}

fn tags(editor: &Editor, index: usize) -> Vec<String> {
    editor.data.as_ref().unwrap().items[index].tags.clone()
}

fn nothing_held() -> Modifiers {
    Modifiers { shift: false, ctrl: false, alt: false }
}

fn prediction(tag: &str, confidence: f32, category: TagCategory) -> TagPrediction {
    TagPrediction { tag: tag.to_owned(), confidence: confidence.to_bits(), category }
}

#[test]
fn an_opened_dataset_is_named_in_the_status() {
    let editor = editor();
    assert_eq!(editor.status.text(), "data \u{b7} 3");
    assert_eq!(editor.current, Some(0));
    assert_eq!(editor.root(), Some("data".to_owned()));
    assert_eq!(editor.counts(), (3, 0, 0));
    let mut empty = Editor::new();
    assert!(empty.open("data", &[]));
    assert_eq!(empty.current, None);
}

#[test]
fn a_refused_dataset_leaves_the_old_one() {
    let mut editor = editor();
    editor.settings.caption_extension = "a/b".to_owned();
    assert!(!editor.open("other", &files()));
    assert_eq!(editor.status.text(), "\u{26a0} invalid caption extension: a/b");
    assert_eq!(editor.root(), Some("data".to_owned()));
    editor.settings.caption_extension = "txt".to_owned();
    assert!(editor.reload("data", &[found("data/x.png", "one")]));
    assert_eq!(editor.counts(), (1, 0, 0));
}

#[test]
fn filters_show_what_they_match() {
    let mut editor = editor();
    assert_eq!(editor.visible(), vec![0, 1, 2]);
    editor.filters.included = "CAT".to_owned();
    assert_eq!(editor.visible(), vec![0, 2]);
    editor.filters.excluded = "dog, smile".to_owned();
    assert_eq!(editor.visible(), Vec::<usize>::new());
    editor.filters.negative_mode = FilterMode::And;
    assert_eq!(editor.visible(), vec![0, 2]);
    editor.set_filter(None);
    assert_eq!(editor.visible(), vec![0, 2]);
    assert!(!editor.filters.positive_enabled);
    editor.set_positive_mode(FilterMode::Or);
    editor.positive_picker.set_selected_tags(&vec!["dog".to_owned()]);
    editor.set_filter(Some(FilterMode::Or));
    assert_eq!(editor.visible(), vec![0, 2]);
    editor.clear_filters();
    assert_eq!(editor.visible(), vec![0, 1, 2]);
    editor.check_item(1, true);
    editor.filters.checked_only = true;
    assert_eq!(editor.visible(), vec![1]);
    let stats = editor.tag_stats(&[0, 1, 2]);
    assert_eq!(
        stats,
        vec![("cat".to_owned(), 2), ("dog".to_owned(), 2), ("smile".to_owned(), 2)]
    );
}

#[test]
fn the_other_filter_is_kept_when_one_is_cleared() {
    let mut editor = editor();
    editor.filters.included = "cat".to_owned();
    editor.filters.excluded = "dog".to_owned();
    editor.clear_filter();
    assert_eq!(editor.filters.included, "");
    assert_eq!(editor.filters.excluded, "dog");
    editor.filters.shows_positive = false;
    editor.clear_filter();
    assert_eq!(editor.filters.excluded, "");
}

#[test]
fn captions_are_written_when_the_item_changes() {
    let mut editor = editor();
    editor.sync_caption();
    assert_eq!(editor.caption, "cat, smile");
    editor.commit_caption();
    assert!(!editor.has_unsaved_changes());
    editor.caption = "one, two".to_owned();
    editor.choose_item(2);
    assert_eq!(tags(&editor, 0), vec!["one", "two"]);
    editor.sync_caption();
    assert_eq!(editor.caption, "cat, dog");
    editor.caption = "three".to_owned();
    editor.select_panel(Panel::Batch);
    assert_eq!(tags(&editor, 2), vec!["three"]);
    editor.undo();
    editor.undo();
    assert!(!editor.has_unsaved_changes());
    assert!(editor.can_redo() && !editor.can_undo());
}

#[test]
fn a_caption_is_written_to_the_visible_items_only() {
    let mut editor = editor();
    editor.filters.included = "dog".to_owned();
    editor.caption = "new".to_owned();
    editor.apply_caption_to_visible();
    assert_eq!(editor.status.text(), "\u{2713} 2");
    assert_eq!(tags(&editor, 0), vec!["cat", "smile"]);
    assert_eq!(tags(&editor, 1), vec!["new"]);
    editor.undo();
    assert_eq!(tags(&editor, 1), vec!["dog", "smile"]);
    assert_eq!(tags(&editor, 2), vec!["cat", "dog"]);
}

#[test]
fn keys_belong_to_a_text_that_is_edited() {
    let mut editor = editor();
    let keys = EditKeys { undo: false, redo: false, check: true, uncheck: false };
    editor.edit_keys(keys, true);
    assert!(editor.checked_indices().is_empty());
    editor.edit_keys(keys, false);
    assert_eq!(editor.checked_indices(), vec![0]);
    editor.edit_keys(EditKeys { check: false, uncheck: true, ..keys }, false);
    assert!(editor.checked_indices().is_empty());
}

#[test]
fn picked_tags_are_put_into_the_caption() {
    let mut editor = editor();
    editor.begin_picking();
    assert_eq!(editor.edit_picker.selected_tags().len(), 2);
    editor.edit_picker.set_selected_tags(&vec!["smile".to_owned(), "dog".to_owned()]);
    editor.finish_picking();
    assert_eq!(tags(&editor, 0), vec!["smile", "dog"]);
}

#[test]
fn batch_edits_are_for_their_target() {
    let mut editor = editor();
    editor.filters.included = "cat".to_owned();
    editor.form.batch = Batch::Append;
    editor.form.first = "x, y".to_owned();
    assert!(editor.can_run_batch());
    editor.run_batch();
    assert_eq!(editor.status.text(), "\u{2713} 2");
    assert_eq!(tags(&editor, 0), vec!["cat", "smile", "x", "y"]);
    assert_eq!(tags(&editor, 1), vec!["dog", "smile"]);
    editor.form.target = BatchTarget::Current;
    editor.form.batch = Batch::Prepend;
    editor.run_batch();
    assert_eq!(tags(&editor, 0), vec!["x", "y", "cat", "smile", "x", "y"]);
    editor.form.batch = Batch::Dedupe;
    editor.run_batch();
    assert_eq!(tags(&editor, 0), vec!["x", "y", "cat", "smile"]);
    editor.form.batch = Batch::Sort;
    editor.run_batch();
    assert_eq!(tags(&editor, 0), vec!["cat", "smile", "x", "y"]);
    editor.settings.truncate_count = 3;
    editor.form.batch = Batch::Truncate;
    editor.run_batch();
    assert_eq!(tags(&editor, 0), vec!["cat", "smile", "x"]);
    editor.form.target = BatchTarget::Checked;
    assert!(!editor.can_run_batch());
}

#[test]
fn batch_replacements_need_what_they_are_for() {
    let mut editor = editor();
    editor.form.batch = Batch::Remove;
    assert!(!editor.can_run_batch());
    editor.click_tag(0, "smile", nothing_held());
    assert!(editor.can_run_batch());
    editor.run_batch();
    assert_eq!(tags(&editor, 0), vec!["cat"]);
    assert_eq!(tags(&editor, 1), vec!["dog"]);
    editor.form.batch = Batch::Replace;
    editor.form.first = "[".to_owned();
    editor.form.regex = true;
    editor.run_batch();
    assert_eq!(
        editor.status.text(),
        "\u{26a0} invalid selected-tag replacement regular expression: ["
    );
    editor.form.replace_target = ReplaceTarget::Each;
    editor.run_batch();
    assert_eq!(
        editor.status.text(),
        "\u{26a0} invalid replace regular expression: ["
    );
    editor.form.regex = false;
    editor.form.first = "at".to_owned();
    editor.form.second = "ow".to_owned();
    editor.run_batch();
    assert_eq!(tags(&editor, 0), vec!["cow"]);
    editor.form.replace_target = ReplaceTarget::Caption;
    editor.form.first = ", ".to_owned();
    editor.form.second = " and ".to_owned();
    editor.run_batch();
    assert_eq!(tags(&editor, 2), vec!["cow and dog"]);
}

#[test]
fn common_tags_are_edited_in_their_places() {
    let mut editor = editor();
    editor.check_item(0, true);
    editor.check_item(1, true);
    editor.form.target = BatchTarget::Checked;
    editor.refresh_common();
    assert_eq!(editor.form.common_edit, "smile");
    editor.run_batch();
    assert_eq!(editor.status.text(), "\u{2713} 0");
    editor.form.common_edit = "grin, new".to_owned();
    editor.run_batch();
    assert_eq!(tags(&editor, 0), vec!["cat", "grin", "new"]);
    assert_eq!(tags(&editor, 1), vec!["dog", "grin", "new"]);
    assert_eq!(tags(&editor, 2), vec!["cat", "dog"]);
    editor.refresh_common();
    assert_eq!(editor.form.common_edit, "grin, new");
}

#[test]
fn changes_are_not_lost_without_asking() {
    let mut editor = editor();
    assert!(editor.request_open());
    editor.sync_caption();
    editor.caption = "changed".to_owned();
    assert!(!editor.request_open());
    assert!(editor.questions.open);
    assert!(!editor.saved_before_open());
    let tasks = editor.save().unwrap();
    assert_eq!(tasks.len(), 1);
    assert_eq!(tasks[0].text, "changed");
    editor.finish_save(Err("disk".to_owned()));
    assert_eq!(editor.status.text(), "\u{26a0} disk");
    assert!(!editor.request_close());
    assert!(editor.questions.exit);
    assert!(!editor.saved_before_exit());
    editor.cancel_exit();
    editor.finish_save(Ok(1));
    assert_eq!(editor.status.text(), "\u{2713} 1");
    assert!(editor.saved_before_open());
    assert!(!editor.questions.open);
    assert!(editor.saved_before_exit());
    assert!(editor.request_close());
}

#[test]
fn another_extension_is_not_saved_to() {
    let mut editor = editor();
    editor.settings.caption_extension = " .TXT".to_owned();
    assert!(editor.save().is_none());
    assert_eq!(editor.status.text(), "\u{26a0} .ext \u{21bb}");
    editor.settings.caption_extension = " .txt".to_owned();
    assert!(editor.save().is_some());
    assert!(Editor::new().save().is_none());
}

#[test]
fn files_are_deleted_when_the_user_agrees() {
    let mut editor = editor();
    assert!(editor.can_delete());
    assert!(!editor.can_move());
    editor.files.destination = " out ".to_owned();
    assert!(editor.can_move());
    assert_eq!(editor.destination(), "out");
    editor.form.target = BatchTarget::Current;
    editor.plan_delete();
    let plan = editor.take_delete().unwrap();
    assert_eq!(plan.groups.len(), 1);
    assert_eq!(plan.groups[0].image_path, "data/a.png");
    assert_eq!(plan.groups[0].tag_path, "data/a.txt");
    assert!(editor.take_delete().is_none());
    editor.plan_delete();
    editor.cancel_delete();
    assert!(editor.questions.delete.is_none());
    editor.plan_delete();
    assert!(editor.start_download());
    assert!(!editor.can_delete());
    assert!(editor.take_delete().is_none());
    assert_eq!(editor.status.text(), "\u{26a0} WD14 \u{2026}");
    editor.finish_files(Ok(2));
    assert_eq!(editor.status.text(), "\u{2713} 2");
    editor.finish_files(Err("no".to_owned()));
    assert_eq!(editor.status.text(), "\u{26a0} no");
}

#[test]
fn metadata_is_taken_over_in_one_step() {
    let mut editor = editor();
    let here = Location { platform: Platform::Unix, current_dir: "/work".to_owned() };
    let mut record = JsonRecord::new();
    record.insert("tags".to_owned(), Json::Text("one, two".to_owned()));
    let mut records = JsonRecord::new();
    records.insert("b".to_owned(), Json::Record(record));
    editor.import_metadata(&KohyaMetadata { records }, &here);
    assert_eq!(editor.status.text(), "\u{2713} JSON 1");
    assert_eq!(tags(&editor, 1), vec!["one", "two"]);
    assert_eq!(tags(&editor, 0), vec!["cat", "smile"]);
    let entries = editor.export_entries();
    assert_eq!(entries[1], ("data/b.png".to_owned(), "one, two".to_owned()));
    assert_eq!(entries.len(), 3);
    editor.finish_export(Ok(3));
    assert_eq!(editor.status.text(), "\u{2713} JSON 3");
    editor.finish_export(Err("x".to_owned()));
    assert_eq!(editor.status.text(), "\u{26a0} x");
}

#[test]
fn the_tagger_changes_captions_when_it_is_done() {
    let mut editor = editor();
    assert!(editor.start_tagging(&[]).is_none());
    let jobs = editor.start_tagging(&[0, 2, 9]).unwrap();
    assert_eq!(jobs, vec!["data/a.png", "data/c.png"]);
    assert!(editor.start_tagging(&[1]).is_none());
    assert!(!editor.start_download());
    assert_eq!(editor.worker.text, "ConvNeXt v2");
    assert!(!editor.handle_event(WorkerEvent::Progress {
        text: "half".to_owned(),
        share: 1.5f32.to_bits(),
    }));
    assert_eq!(editor.worker.share, 1.0f32.to_bits());
    let event = WorkerEvent::Predictions(PendingTags {
        image_path: "data/a.png".to_owned(),
        predictions: vec![prediction("long_hair", 0.9, TagCategory::General)],
    });
    assert!(!editor.handle_event(event));
    assert_eq!(tags(&editor, 0), vec!["cat", "smile"]);
    assert!(editor.handle_event(WorkerEvent::Done));
    assert_eq!(editor.status.text(), "\u{2713} WD14");
    assert_eq!(tags(&editor, 0), vec!["long hair"]);
    assert_eq!(tags(&editor, 2), vec!["cat", "dog"]);
    editor.undo();
    assert_eq!(tags(&editor, 0), vec!["cat", "smile"]);
}

#[test]
fn a_tagger_that_is_stopped_changes_nothing() {
    for (event, status) in [
        (WorkerEvent::Cancelled, "\u{d7} WD14"),
        (WorkerEvent::Failed("bad".to_owned()), "\u{26a0} bad"),
    ] {
        let mut editor = editor();
        editor.start_tagging(&[0]).unwrap();
        editor.handle_event(WorkerEvent::Predictions(PendingTags {
            image_path: "data/a.png".to_owned(),
            predictions: vec![prediction("x", 0.9, TagCategory::General)],
        }));
        assert!(!editor.is_free());
        assert!(editor.handle_event(event));
        assert_eq!(editor.status.text(), status);
        assert!(editor.worker.pending.is_empty());
        assert!(editor.is_free());
        assert!(!editor.has_unsaved_changes());
    }
}

#[test]
fn predictions_are_written_as_the_settings_say() {
    let predictions = vec![
        prediction("blue_hair", 0.9, TagCategory::General),
        prediction("safe", 0.8, TagCategory::Rating),
        prediction("alice", 0.7, TagCategory::Character),
        prediction("bad_tag", 0.6, TagCategory::General),
    ];
    let mut settings = Preferences::default();
    settings.undesired = " Bad_Tag, ".to_owned();
    let current = vec!["alice".to_owned(), "own".to_owned()];
    assert_eq!(
        suggest_tags(&settings, &current, &predictions),
        vec!["blue hair", "safe", "alice"]
    );
    settings.character_first = true;
    settings.spaces = false;
    assert_eq!(
        suggest_tags(&settings, &current, &predictions),
        vec!["alice", "blue_hair", "safe"]
    );
    settings.append = true;
    assert_eq!(
        suggest_tags(&settings, &current, &predictions),
        vec!["alice", "own", "blue_hair", "safe"]
    );
}

#[test]
fn clicks_on_tags_do_what_the_keys_say() {
    let mut editor = editor();
    editor.click_tag(0, "cat", Modifiers { ctrl: true, ..nothing_held() });
    assert_eq!(editor.visible(), vec![0, 2]);
    editor.click_tag(0, "cat", Modifiers { ctrl: true, ..nothing_held() });
    assert_eq!(editor.visible(), vec![0, 1, 2]);
    editor.click_tag(0, "cat", Modifiers { alt: true, ..nothing_held() });
    assert_eq!(editor.visible(), vec![1]);
    editor.click_tag(0, "cat", Modifiers { shift: true, ctrl: true, alt: true });
    assert_eq!(tags(&editor, 0), vec!["smile"]);
    editor.click_tag(0, "dog", nothing_held());
    assert!(editor.batch_picker.selected_tags_ref().contains("dog"));
    editor.undo();
    assert!(editor.can_redo());
    editor.click_tag(0, "absent", Modifiers { shift: true, ..nothing_held() });
    assert!(editor.can_redo());
}

#[test]
fn check_marks_are_set_for_what_is_visible() {
    let mut editor = editor();
    editor.filters.included = "cat".to_owned();
    editor.select_visible();
    assert_eq!(editor.checked_indices(), vec![0, 2]);
    editor.filters.included = "dog".to_owned();
    editor.invert_visible();
    assert_eq!(editor.checked_indices(), vec![0, 1]);
    editor.invert_visible();
    assert_eq!(editor.checked_indices(), vec![0, 2]);
    editor.clear_selection();
    assert!(editor.checked_indices().is_empty());
}

#[test]
fn cards_have_places_and_short_texts() {
    assert_eq!(row_count(0, 3), 0);
    assert_eq!(row_count(6, 3), 2);
    assert_eq!(row_count(7, 3), 3);
    assert_eq!(card_at(2, 0, 3, 7), Some(6));
    assert_eq!(card_at(2, 1, 3, 7), None);
    assert_eq!(card_at(usize::MAX, 1, 3, 7), None);
    let mut editor = Editor::new();
    editor.open("data", &[found("data/a_very_long_file_name.png", "1, 2, 3, 4, 5")]);
    let item = &editor.data.as_ref().unwrap().items[0];
    assert_eq!(card_title(item), "a_very_long_file_n");
    assert_eq!(card_tag("0123456789abcdefgh"), "0123456789abcde");
    assert_eq!(more_tags(item), Some("+2".to_owned()));
}

#[test]
fn settings_are_kept_and_reset() {
    let mut editor = Editor::new();
    let mut settings = Preferences::default();
    settings.general = 7.0f32.to_bits();
    settings.character = (-1.0f32).to_bits();
    settings.wd14_model = Wd14Model::Eva02LargeV3;
    editor.apply_preferences(settings);
    let kept = editor.preferences();
    assert_eq!(kept.general, 1.0f32.to_bits());
    assert_eq!(kept.character, 0.0f32.to_bits());
    assert_eq!(kept.wd14_model, Wd14Model::Eva02LargeV3);
    assert_eq!(editor.tagger_options().general_threshold, 1.0f32.to_bits());
    editor.reset_preferences();
    assert_eq!(editor.preferences().wd14_model, Wd14Model::default());
    for value in [0.0f32, 0.35, 1.0, -0.0, 2.0, -3.0, f32::INFINITY, f32::NEG_INFINITY] {
        assert_eq!(clamp_unit(value.to_bits()), value.clamp(0.0, 1.0).to_bits());
    }
}

#[test]
fn the_default_model_may_lie_in_the_shared_folder() {
    assert!(uses_shared_folder(Wd14Model::default(), true));
    assert!(!uses_shared_folder(Wd14Model::default(), false));
    assert!(!uses_shared_folder(Wd14Model::VitV3, true));
    assert!(model_is_there(Wd14Model::VitV3, true, false));
    assert!(!model_is_there(Wd14Model::VitV3, false, true));
}

#[test]
fn thumbnails_are_kept_up_to_a_limit() {
    let mut thumbnails = Thumbnails::new();
    assert!(matches!(thumbnails.look_up("a.png"), Thumbnail::Missing));
    for i in 0..MAX_CACHED_THUMBNAILS {
        assert!(thumbnails.keep(&format!("{i}.png")).is_empty());
    }
    assert_eq!(thumbnails.keep("last.png"), vec!["0.png"]);
    assert!(matches!(thumbnails.look_up("last.png"), Thumbnail::Kept));
    assert!(matches!(thumbnails.look_up("0.png"), Thumbnail::Missing));
    thumbnails.mark_broken("bad.png");
    assert!(matches!(thumbnails.look_up("bad.png"), Thumbnail::Broken));
}

#[test]
fn status_texts_are_short() {
    assert_eq!(Status::Nothing.text(), "");
    assert_eq!(Status::Done(0).text(), "\u{2713} 0");
    assert_eq!(Status::Failure("x".to_owned()).text(), "\u{26a0} x");
}

#[test]
fn only_visible_images_are_tagged() {
    let mut editor = editor();
    editor.filters.included = "dog".to_owned();
    let visible = editor.visible();
    assert_eq!(
        editor.start_tagging(&visible),
        Some(vec!["data/b.png".to_owned(), "data/c.png".to_owned()])
    );
    let event = WorkerEvent::Predictions(PendingTags {
        image_path: "data/elsewhere.png".to_owned(),
        predictions: vec![prediction("x", 0.9, TagCategory::General)],
    });
    editor.handle_event(event);
    editor.handle_event(WorkerEvent::Done);
    assert!(!editor.has_unsaved_changes());
    assert!(!editor.can_undo());
}

#[test]
fn preferences_default_and_round_trip_wd14_model() {
    let old_preferences = Preferences::default();
    assert_eq!(old_preferences.wd14_model, Wd14Model::default());

    let preferences = Preferences {
        wd14_model: Wd14Model::Eva02LargeV3,
        ..Preferences::default()
    };
    let mut editor = Editor::new();
    editor.apply_preferences(preferences);
    let restored = editor.preferences();
    assert_eq!(restored.wd14_model, Wd14Model::Eva02LargeV3);
}
