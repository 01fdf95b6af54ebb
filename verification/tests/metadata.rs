//! Metadata documents: reading, matching of keys, exporting.

use serde_json::Value;
use tagger_neo::json::{Json, JsonRecord};
use tagger_neo::metadata::{
    normalized_absolute_path, write_metadata, KohyaMetadata, Location, MetadataError,
    MetadataExportMode, MetadataExportOptions, MetadataKeyMode, MetadataWriteMode, Platform,
};

fn here() -> Location {
    Location {
        platform: Platform::Unix,
        current_dir: "/work".to_owned(),
    }
}

fn to_json(value: &Value) -> Json {
    match value {
        Value::Null => Json::Null,
        Value::Bool(yes) => Json::Bool(*yes),
        Value::Number(number) => Json::Number(number.to_string()),
        Value::String(text) => Json::Text(text.clone()),
        Value::Array(values) => Json::List(values.iter().map(to_json).collect()),
        Value::Object(entries) => {
            let mut record = JsonRecord::new();
            for (key, value) in entries {
                record.insert(key.clone(), to_json(value));
            }
            Json::Record(record)
        }
    }
}

fn document(text: &str) -> KohyaMetadata {
    match to_json(&serde_json::from_str(text).unwrap()) {
        Json::Record(records) => KohyaMetadata { records },
        _ => panic!("not a record"),
    }
}

fn field<'a>(document: &'a KohyaMetadata, key: &str, name: &str) -> &'a Json {
    match document.record(key) {
        Some(Json::Record(record)) => record.get(name).unwrap(),
        _ => panic!("no record"),
    }
}

fn entry(path: &str, text: &str) -> (String, String) {
    (path.to_owned(), text.to_owned())
}

#[test]
fn reads_stem_records_and_combines_caption_before_tags() {
    let metadata = document(
        r#"{
            "image_001": {"caption":"a caption", "tags":"one, two", "hash":"keep"},
            "image_002": {"tags":{"three":1,"four":1}},
            "image_003": {"caption":"caption only"}
        }"#,
    );
    assert_eq!(
        metadata.tags_for_image(&here(), "dir/image_001.png"),
        Some("a caption, one, two".to_owned())
    );
    assert_eq!(
        metadata.tags_for_image(&here(), "dir/image_002.jpg"),
        Some("four, three".to_owned())
    );
    assert_eq!(
        metadata.tags_for_image(&here(), "dir/image_003.webp"),
        Some("caption only".to_owned())
    );
    assert_eq!(metadata.tags_for_image(&here(), "dir/missing.png"), None);
}

#[test]
fn absolute_path_keys_take_precedence_over_stems() {
    let image_path = "dir/image.png";
    let absolute_key = normalized_absolute_path(&here(), image_path);
    assert_eq!(absolute_key, "/work/dir/image.png");
    let mut stem = JsonRecord::new();
    stem.insert("tags".to_owned(), Json::Text("stem".to_owned()));
    let mut absolute = JsonRecord::new();
    absolute.insert("tags".to_owned(), Json::Text("absolute".to_owned()));
    let mut records = JsonRecord::new();
    records.insert("image".to_owned(), Json::Record(stem));
    records.insert(absolute_key.clone(), Json::Record(absolute));
    let metadata = KohyaMetadata { records };
    assert_eq!(
        metadata.key_for_image(&here(), image_path),
        Some(absolute_key.as_str())
    );
    assert_eq!(
        metadata.tags_for_image(&here(), image_path),
        Some("absolute".to_owned())
    );
}

#[test]
fn overwrite_and_merge_preserve_expected_fields() {
    let text = r#"{
        "old": {"tags":"untouched", "custom":true},
        "keep": {"caption":"keep caption", "custom":7}
    }"#;
    let merged = write_metadata(
        document(text),
        &[entry("dir/new.png", "caption value")],
        MetadataExportOptions {
            mode: MetadataExportMode::Caption,
            write_mode: MetadataWriteMode::Merge,
            key_mode: MetadataKeyMode::Stem,
        },
        &here(),
    )
    .unwrap();
    assert_eq!(merged.count, 1);
    let merged = merged.document;
    assert!(matches!(field(&merged, "old", "custom"), Json::Bool(true)));
    assert!(matches!(field(&merged, "new", "caption"), Json::Text(text) if text == "caption value"));

    let overwritten = write_metadata(
        merged,
        &[entry("dir/new.png", "new tags")],
        MetadataExportOptions {
            mode: MetadataExportMode::Tags,
            write_mode: MetadataWriteMode::Overwrite,
            key_mode: MetadataKeyMode::Stem,
        },
        &here(),
    )
    .unwrap()
    .document;
    assert_eq!(overwritten.len(), 1);
    match field(&overwritten, "new", "tags") {
        Json::List(list) => {
            assert_eq!(list.len(), 1);
            assert!(matches!(&list[0], Json::Text(text) if text == "new tags"));
        }
        _ => panic!("no list"),
    }
    assert!(overwritten.record("old").is_none());
}

#[test]
fn atomic_write_leaves_valid_json_and_supports_empty_merge() {
    let options = MetadataExportOptions::default();
    let nothing = write_metadata(KohyaMetadata::default(), &[], options, &here()).unwrap();
    assert_eq!(nothing.count, 0);
    assert!(nothing.document.is_empty());
    let one = write_metadata(
        KohyaMetadata::default(),
        &[entry("dir/one.png", "one")],
        options,
        &here(),
    )
    .unwrap();
    assert_eq!(
        one.document.tags_for_image(&here(), "dir/one.png"),
        Some("one".to_owned())
    );
}

#[test]
fn duplicate_stem_keys_are_rejected_without_writing() {
    let result = write_metadata(
        KohyaMetadata::default(),
        &[entry("dir/a/same.png", "one"), entry("dir/b/same.jpg", "two")],
        MetadataExportOptions::default(),
        &here(),
    );
    let error = result.unwrap_err();
    assert!(matches!(&error, MetadataError::DuplicateKey(key) if key == "same"));
    assert_eq!(
        error.message(),
        "duplicate metadata key `same`; use absolute-path keys for datasets with duplicate stems"
    );
}

#[test]
fn an_image_without_a_stem_has_no_key() {
    let error = write_metadata(
        KohyaMetadata::default(),
        &[entry("..", "one")],
        MetadataExportOptions::default(),
        &here(),
    )
    .unwrap_err();
    assert!(matches!(error, MetadataError::MissingStem));
}

#[test]
fn file_names_are_preferred_over_stems() {
    let metadata = document(
        r#"{
            "a": {"tags":"stem"},
            "a.png": {"tags":"name"}
        }"#,
    );
    assert_eq!(metadata.key_for_image(&here(), "dir/a.png"), Some("a.png"));
    assert_eq!(metadata.key_for_image(&here(), "dir/a.jpg"), Some("a"));
    assert_eq!(metadata.raw_tags_for_image(&here(), "dir/a.jpg"), Some("stem".to_owned()));
    assert_eq!(metadata.caption_for_image(&here(), "dir/a.jpg"), None);
}

#[test]
fn paths_are_compared_as_the_platform_does() {
    let windows = Location {
        platform: Platform::Windows,
        current_dir: "C:/work".to_owned(),
    };
    let metadata = document(r#"{"D:\\Data\\A.PNG": {"tags":"there"}}"#);
    assert_eq!(
        metadata.tags_for_image(&windows, "d:/data/a.png"),
        Some("there".to_owned())
    );
    let unix = document(r#"{"/Data/A.png": {"tags":"there"}}"#);
    assert_eq!(unix.tags_for_image(&here(), "/Data/A.png"), Some("there".to_owned()));
    assert_eq!(normalized_absolute_path(&windows, "D:\\x\\Y"), "d:/x/y");
}

#[test]
fn windows_paths_keep_their_drive_or_take_that_of_the_directory() {
    let at = |current_dir: &str, path: &str| {
        let here = Location {
            platform: Platform::Windows,
            current_dir: current_dir.to_owned(),
        };
        normalized_absolute_path(&here, path)
    };
    assert_eq!(at("C:/w", "/x"), "c:/x");
    assert_eq!(at("C:\\w", "\\x"), "c:/x");
    assert_eq!(at("C:/w", "D:x"), "d:x");
    assert_eq!(at("C:/w", "D:/x"), "d:/x");
    assert_eq!(at("C:/w", "x/y/"), "c:/w/x/y");
    assert_eq!(at("C:\\", "x"), "c:/x");
    assert_eq!(at("C:", "x"), "c:x");
    assert_eq!(at(".", "/x"), "/x");
    assert_eq!(at("//server/share/w", "/x"), "//server/share/x");
    assert_eq!(at("C:/w", "\\\\server\\share\\x"), "//server/share/x");
    assert_eq!(at("C:/w", "//x"), "c://x");
}

#[test]
fn a_key_with_a_drive_is_found_without_one() {
    let here = Location {
        platform: Platform::Windows,
        current_dir: "C:/w".to_owned(),
    };
    let options = MetadataExportOptions {
        mode: MetadataExportMode::Tags,
        write_mode: MetadataWriteMode::Overwrite,
        key_mode: MetadataKeyMode::AbsolutePath,
    };
    let entries = [entry("/a/x.png", "one"), entry("D:x.png", "two")];
    let document = write_metadata(KohyaMetadata::default(), &entries, options, &here)
        .unwrap()
        .document;
    assert!(document.record("c:/a/x.png").is_some());
    assert!(document.record("d:x.png").is_some());
    assert_eq!(document.tags_for_image(&here, "C:\\a\\x.png"), Some("one".to_owned()));
    assert_eq!(document.tags_for_image(&here, "D:x.png"), Some("two".to_owned()));
}

#[test]
fn exported_tags_are_read_back() {
    let options = MetadataExportOptions {
        mode: MetadataExportMode::Tags,
        write_mode: MetadataWriteMode::Overwrite,
        key_mode: MetadataKeyMode::AbsolutePath,
    };
    let entries = [entry("a/same.png", "one, two"), entry("b/same.png", "three")];
    let update = write_metadata(KohyaMetadata::default(), &entries, options, &here()).unwrap();
    assert_eq!(update.count, 2);
    assert_eq!(
        update.document.tags_for_image(&here(), "a/same.png"),
        Some("one, two".to_owned())
    );
    assert_eq!(
        update.document.tags_for_image(&here(), "b/same.png"),
        Some("three".to_owned())
    );
}

#[test]
fn exported_captions_are_read_back() {
    let update = write_metadata(
        KohyaMetadata::default(),
        &[entry("a/one.png", " a cat, on a mat "), entry("a/two.png", " ")],
        MetadataExportOptions::captions(),
        &here(),
    )
    .unwrap();
    assert_eq!(
        update.document.tags_for_image(&here(), "a/one.png"),
        Some("a cat, on a mat".to_owned())
    );
    assert_eq!(update.document.tags_for_image(&here(), "a/two.png"), None);
}
