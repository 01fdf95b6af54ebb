//! Metadata documents: reading the tags of images and exporting them.
//!
//! A metadata document is a JSON object whose image records are keyed by a stem
//! (for example, `image_001`), a file name or an absolute image path. Fields
//! that an export does not write (hashes, resolutions, dataset statistics, and
//! so on) survive it unchanged.

use vstd::prelude::*;

use crate::json::{Json, JsonRecord};
use crate::order::{
    lemma_ordered_unique, lemma_text_irreflexive, lemma_text_transitive, strictly_ordered,
    text_before,
};
use crate::paths::{
    extension, extension_of, file_name, file_stem, is_rooted, join_path, joined_path, name_of,
    rooted, stem_of,
};
use crate::tag_set::TagSet;
use crate::tags::{caption, glue, parse_tags, parsed};
use crate::text::{
    ascii_lowered, chars_of, eq_ignore_ascii_case, group_texts, join, joined, nonblank,
    same_ignoring_case, same_text, string_of, texts, to_ascii_lower, trim, trimmed,
};

verus! {

// ----- Options -------------------------------------------------------------

/// Which field should be written to each metadata record.
#[derive(Clone, Copy, Debug, Default, PartialEq, Eq, Structural)]
pub enum MetadataExportMode {
    /// Write the editor's tags to the `tags` field.
    #[default]
    Tags,
    /// Write the editor's tag string to the `caption` field.
    Caption,
}

/// How an export interacts with an existing document.
#[derive(Clone, Copy, Debug, Default, PartialEq, Eq, Structural)]
pub enum MetadataWriteMode {
    /// Preserve existing records and fields, updating only the selected field
    /// for records supplied to the export.
    #[default]
    Merge,
    /// Replace the complete document with the supplied image records.
    Overwrite,
}

/// How image paths become keys during export.
#[derive(Clone, Copy, Debug, Default, PartialEq, Eq, Structural)]
pub enum MetadataKeyMode {
    /// Use the image filename without its extension.
    #[default]
    Stem,
    /// Use the normalized absolute image path.
    AbsolutePath,
}

/// Options for [`write_metadata`].
#[derive(Clone, Copy, Debug, Default, PartialEq, Eq, Structural)]
pub struct MetadataExportOptions {
    pub mode: MetadataExportMode,
    pub write_mode: MetadataWriteMode,
    pub key_mode: MetadataKeyMode,
}

impl MetadataExportOptions {
    /// Export `tags` records while preserving existing metadata.
    pub fn tags() -> (options: MetadataExportOptions)
        ensures
            options == (MetadataExportOptions {
                mode: MetadataExportMode::Tags,
                write_mode: MetadataWriteMode::Merge,
                key_mode: MetadataKeyMode::Stem,
            }),
    {
        MetadataExportOptions {
            mode: MetadataExportMode::Tags,
            write_mode: MetadataWriteMode::Merge,
            key_mode: MetadataKeyMode::Stem,
        }
    }

    /// Export `caption` records while preserving existing metadata.
    pub fn captions() -> (options: MetadataExportOptions)
        ensures
            options == (MetadataExportOptions {
                mode: MetadataExportMode::Caption,
                write_mode: MetadataWriteMode::Merge,
                key_mode: MetadataKeyMode::Stem,
            }),
    {
        MetadataExportOptions {
            mode: MetadataExportMode::Caption,
            write_mode: MetadataWriteMode::Merge,
            key_mode: MetadataKeyMode::Stem,
        }
    }
}

// ----- Paths and keys ------------------------------------------------------

/// The rules by which paths are compared.
#[derive(Clone, Copy, Debug, PartialEq, Eq, Structural)]
pub enum Platform {
    /// Case matters, and only `/` separates components.
    Unix,
    /// Case does not matter, `\` separates components too, and a path may
    /// begin with a drive.
    Windows,
}

/// Where paths are read: the platform, and the directory that relative paths
/// start from.
#[derive(Debug)]
pub struct Location {
    pub platform: Platform,
    pub current_dir: String,
}

/// Where paths are read.
#[verifier::ext_equal]
pub struct LocationView {
    pub platform: Platform,
    pub current_dir: Seq<char>,
}

impl View for Location {
    type V = LocationView;

    open spec fn view(&self) -> LocationView {
        LocationView { platform: self.platform, current_dir: self.current_dir@ }
    }
}

/// Whether two texts name the same thing on a platform.
pub open spec fn same_on(platform: Platform, a: Seq<char>, b: Seq<char>) -> bool {
    match platform {
        Platform::Unix => a == b,
        Platform::Windows => same_ignoring_case(a, b),
    }
}

/// Whether a character is an ASCII letter.
pub open spec fn is_letter(c: char) -> bool {
    'a' <= c <= 'z' || 'A' <= c <= 'Z'
}

/// Whether a path begins with a drive.
pub open spec fn has_drive(path: Seq<char>) -> bool {
    path.len() >= 2 && is_letter(path[0]) && path[1] == ':'
}

/// Whether a character separates the components of a path on Windows.
pub open spec fn is_slash(c: char) -> bool {
    c == '/' || c == '\\'
}

/// The place of the first separator from a place on, or the end of the path.
pub open spec fn next_slash(path: Seq<char>, from: int) -> int
    decreases path.len() - from,
{
    if from < 0 || from >= path.len() {
        path.len() as int
    } else if is_slash(path[from]) {
        from
    } else {
        next_slash(path, from + 1)
    }
}

/// The length of what a path on Windows begins with in front of its root: a drive,
/// or the server and the share of a network path such as `\\server\share`.
pub open spec fn prefix_length(path: Seq<char>) -> int {
    if has_drive(path) {
        2
    } else if path.len() >= 2 && is_slash(path[0]) && is_slash(path[1]) {
        let server = next_slash(path, 2);
        let share = next_slash(path, server + 1);
        if server > 2 && share > server + 1 {
            share
        } else {
            0
        }
    } else {
        0
    }
}

/// Whether a path is absolute.
pub open spec fn is_absolute_on(platform: Platform, path: Seq<char>) -> bool {
    match platform {
        Platform::Unix => is_rooted(path),
        Platform::Windows => if has_drive(path) {
            path.len() >= 3 && is_slash(path[2])
        } else {
            prefix_length(path) > 0
        },
    }
}

/// `path` seen from `base` on Windows: a path with a drive or a share stands alone,
/// one that starts at the root keeps the drive or the share of `base`, and any
/// other one is below `base`. What begins with `\\?\` is read as a network path
/// too, and its components are kept as they are.
pub open spec fn joined_on_windows(base: Seq<char>, path: Seq<char>) -> Seq<char> {
    if prefix_length(path) > 0 {
        path
    } else if path.len() > 0 && is_slash(path[0]) {
        base.take(prefix_length(base)) + path
    } else if base.len() == 0 || is_slash(base.last()) || (has_drive(base) && base.len() == 2) {
        base + path
    } else {
        base.push('/') + path
    }
}

/// `path` seen from `base`.
pub open spec fn joined_on(platform: Platform, base: Seq<char>, path: Seq<char>) -> Seq<char> {
    match platform {
        Platform::Unix => joined_path(base, path),
        Platform::Windows => joined_on_windows(base, path),
    }
}

/// Whether a key looks like an absolute path.
pub open spec fn looks_absolute(platform: Platform, key: Seq<char>) -> bool {
    is_absolute_on(platform, key) || has_drive(key)
}

/// A path with `/` for `\`.
pub open spec fn forward(path: Seq<char>) -> Seq<char> {
    path.map_values(
        |c: char|
            if c == '\\' {
                '/'
            } else {
                c
            },
    )
}

/// A path without the slashes at its end, but for one that is the whole path.
pub open spec fn without_end_slashes(path: Seq<char>) -> Seq<char>
    decreases path.len(),
{
    if path.len() > 1 && path.last() == '/' {
        without_end_slashes(path.drop_last())
    } else {
        path
    }
}

/// The normalized absolute spelling of a path.
pub open spec fn absolute_text(here: LocationView, path: Seq<char>) -> Seq<char> {
    let whole = joined_on(here.platform, here.current_dir, path);
    let text = without_end_slashes(forward(whole));
    match here.platform {
        Platform::Unix => text,
        Platform::Windows => ascii_lowered(text),
    }
}

/// The part of a path that the file name is read from, with `/` between its
/// components.
pub open spec fn name_text(platform: Platform, path: Seq<char>) -> Seq<char> {
    match platform {
        Platform::Unix => path,
        Platform::Windows => forward(path.skip(prefix_length(path))),
    }
}

/// How well a key matches an image, if it does. An absolute path is better than
/// a file name, which is better than a stem; then come paths whose stem, or
/// whose file name, is that of the image.
pub open spec fn match_score(here: LocationView, key: Seq<char>, image: Seq<char>) -> Option<nat> {
    let text = trimmed(key);
    let platform = here.platform;
    let image_text = name_text(platform, image);
    let key_text = name_text(platform, text);
    if text.len() == 0 {
        None
    } else if looks_absolute(platform, text) && same_on(
        platform,
        absolute_text(here, text),
        absolute_text(here, image),
    ) {
        Some(100)
    } else {
        match (name_of(image_text), stem_of(image_text)) {
            (Some(name), Some(stem)) => if same_on(platform, text, name) {
                Some(90)
            } else if same_on(platform, text, stem) {
                Some(80)
            } else if extension_of(key_text) is Some && same_on(
                platform,
                stem_of(key_text)->0,
                stem,
            ) {
                Some(70)
            } else if name_of(key_text) is Some && same_on(platform, name_of(key_text)->0, name) {
                Some(60)
            } else {
                None
            },
            _ => None,
        }
    }
}

/// Whether a key is the one that fits an image best; of two that fit equally
/// well, the one that comes first.
pub open spec fn is_best_key(
    records: Map<Seq<char>, Json>,
    here: LocationView,
    image: Seq<char>,
    key: Seq<char>,
) -> bool {
    &&& records.contains_key(key)
    &&& match_score(here, key, image) is Some
    &&& forall|other: Seq<char>| #[trigger]
        records.contains_key(other) && match_score(here, other, image) is Some ==> {
            ||| match_score(here, other, image)->0 < match_score(here, key, image)->0
            ||| match_score(here, other, image)->0 == match_score(here, key, image)->0 && (other
                == key || text_before(key, other))
        }
}

/// The key that fits an image best, if one does.
pub open spec fn best_key(
    records: Map<Seq<char>, Json>,
    here: LocationView,
    image: Seq<char>,
) -> Option<Seq<char>> {
    if exists|key: Seq<char>| is_best_key(records, here, image, key) {
        Some(choose|key: Seq<char>| is_best_key(records, here, image, key))
    } else {
        None
    }
}

/// Only one key fits an image best.
pub proof fn lemma_best_key(
    records: Map<Seq<char>, Json>,
    here: LocationView,
    image: Seq<char>,
    key: Seq<char>,
)
    requires
        is_best_key(records, here, image, key),
    ensures
        best_key(records, here, image) == Some(key),
{
    let other = choose|other: Seq<char>| is_best_key(records, here, image, other);
    assert(is_best_key(records, here, image, other));
    assert(records.contains_key(other) && records.contains_key(key));
    if other != key {
        assert(text_before(key, other) && text_before(other, key));
        lemma_text_transitive(key, other, key);
        lemma_text_irreflexive(key);
    }
}

fn same_text_on(platform: Platform, a: &str, b: &str) -> (same: bool)
    ensures
        same == same_on(platform, a@, b@),
{
    match platform {
        Platform::Unix => same_text(a, b),
        Platform::Windows => eq_ignore_ascii_case(a, b),
    }
}

fn starts_with_drive(chars: &Vec<char>) -> (yes: bool)
    ensures
        yes == has_drive(chars@),
{
    chars.len() >= 2 && (('a' <= chars[0] && chars[0] <= 'z') || ('A' <= chars[0] && chars[0]
        <= 'Z')) && chars[1] == ':'
}

fn slash(c: char) -> (yes: bool)
    ensures
        yes == is_slash(c),
{
    c == '/' || c == '\\'
}

fn slash_from(chars: &Vec<char>, from: usize) -> (place: usize)
    ensures
        place == next_slash(chars@, from as int),
        place <= chars@.len(),
        from <= chars@.len() ==> from <= place,
{
    let mut place: usize = from;
    while place < chars.len() && !slash(chars[place])
        invariant
            from <= place,
            from <= chars@.len() ==> place <= chars@.len(),
            next_slash(chars@, place as int) == next_slash(chars@, from as int),
        decreases chars@.len() - place,
    {
        place = place + 1;
    }
    if place < chars.len() {
        place
    } else {
        chars.len()
    }
}

fn prefix_end(chars: &Vec<char>) -> (end: usize)
    ensures
        end == prefix_length(chars@),
        end <= chars@.len(),
{
    if starts_with_drive(chars) {
        return 2;
    }
    if chars.len() < 2 || !slash(chars[0]) || !slash(chars[1]) {
        return 0;
    }
    let server: usize = slash_from(chars, 2);
    if server == chars.len() {
        return 0;
    }
    let share: usize = slash_from(chars, server + 1);
    if server > 2 && share > server + 1 {
        share
    } else {
        0
    }
}

fn join_on_windows(base: &str, path: &str) -> (result: String)
    ensures
        result@ == joined_on_windows(base@, path@),
{
    let chars = chars_of(path);
    if prefix_end(&chars) > 0 {
        return path.to_owned();
    }
    let base_chars = chars_of(base);
    if chars.len() > 0 && slash(chars[0]) {
        let end: usize = prefix_end(&base_chars);
        let mut result = string_of(&base_chars, 0, end);
        assert(result@ =~= base@.take(end as int));
        result.append(path);
        return result;
    }
    let mut result = base.to_owned();
    let length: usize = base_chars.len();
    if length > 0 && !slash(base_chars[length - 1]) && !(length == 2 && starts_with_drive(
        &base_chars,
    )) {
        result.push('/');
    }
    result.append(path);
    result
}

fn join_on(here: &Location, path: &str) -> (result: String)
    ensures
        result@ == joined_on(here@.platform, here@.current_dir, path@),
{
    match here.platform {
        Platform::Unix => join_path(here.current_dir.as_str(), path),
        Platform::Windows => join_on_windows(here.current_dir.as_str(), path),
    }
}

fn absolute_on(platform: Platform, path: &str) -> (yes: bool)
    ensures
        yes == is_absolute_on(platform, path@),
{
    match platform {
        Platform::Unix => rooted(path),
        Platform::Windows => {
            let chars = chars_of(path);
            if starts_with_drive(&chars) {
                chars.len() >= 3 && slash(chars[2])
            } else {
                prefix_end(&chars) > 0
            }
        },
    }
}

/// Whether a key looks like an absolute path.
pub fn is_absolute_path(platform: Platform, key: &str) -> (yes: bool)
    ensures
        yes == looks_absolute(platform, key@),
{
    absolute_on(platform, key) || starts_with_drive(&chars_of(key))
}

fn forward_slashes(path: &str) -> (result: String)
    ensures
        result@ == forward(path@),
{
    let chars = chars_of(path);
    let mut result = String::new();
    for i in 0..chars.len()
        invariant
            chars@ == path@,
            result@ == forward(chars@.take(i as int)),
    {
        let c = chars[i];
        result.push(
            if c == '\\' {
                '/'
            } else {
                c
            },
        );
        assert(result@ =~= forward(chars@.take(i + 1)));
    }
    assert(chars@.take(chars@.len() as int) =~= chars@);
    result
}

/// The normalized absolute spelling of a path.
pub fn normalized_absolute_path(here: &Location, path: &str) -> (text: String)
    ensures
        text@ == absolute_text(here@, path@),
{
    let whole = join_on(here, path);
    let spelled = forward_slashes(whole.as_str());
    let chars = chars_of(spelled.as_str());
    let mut end: usize = chars.len();
    assert(chars@.take(end as int) =~= chars@);
    while end > 1 && chars[end - 1] == '/'
        invariant
            end <= chars@.len(),
            without_end_slashes(chars@.take(end as int)) == without_end_slashes(chars@),
        decreases end,
    {
        assert(chars@.take(end as int).drop_last() =~= chars@.take(end - 1));
        end = end - 1;
    }
    let text = string_of(&chars, 0, end);
    assert(text@ =~= chars@.take(end as int));
    match here.platform {
        Platform::Unix => text,
        Platform::Windows => to_ascii_lower(text.as_str()),
    }
}

fn name_part(platform: Platform, path: &str) -> (text: String)
    ensures
        text@ == name_text(platform, path@),
{
    match platform {
        Platform::Unix => path.to_owned(),
        Platform::Windows => {
            let chars = chars_of(path);
            let from: usize = prefix_end(&chars);
            let rest = string_of(&chars, from, chars.len());
            assert(rest@ =~= path@.skip(from as int));
            forward_slashes(rest.as_str())
        },
    }
}

/// How well a key matches an image, if it does.
pub fn path_match_score(here: &Location, key: &str, image: &str) -> (score: Option<u8>)
    ensures
        match score {
            Some(score) => match_score(here@, key@, image@) == Some(score as nat),
            None => match_score(here@, key@, image@) is None,
        },
{
    let text = trim(key);
    let text = text.as_str();
    if text.is_empty() {
        return None;
    }
    let platform = here.platform;
    if is_absolute_path(platform, text) {
        let a = normalized_absolute_path(here, text);
        let b = normalized_absolute_path(here, image);
        if same_text_on(platform, a.as_str(), b.as_str()) {
            return Some(100);
        }
    }
    let image_text = name_part(platform, image);
    let name = match file_name(image_text.as_str()) {
        Some(name) => name,
        None => {
            return None;
        },
    };
    let stem = match file_stem(image_text.as_str()) {
        Some(stem) => stem,
        None => {
            return None;
        },
    };
    if same_text_on(platform, text, name.as_str()) {
        return Some(90);
    }
    if same_text_on(platform, text, stem.as_str()) {
        return Some(80);
    }
    let key_text = name_part(platform, text);
    let key_stem = file_stem(key_text.as_str());
    let key_extension = extension(key_text.as_str());
    match (key_stem, key_extension) {
        (Some(key_stem), Some(_)) => {
            if same_text_on(platform, key_stem.as_str(), stem.as_str()) {
                return Some(70);
            }
        },
        _ => {},
    }
    match file_name(key_text.as_str()) {
        Some(key_name) => {
            if same_text_on(platform, key_name.as_str(), name.as_str()) {
                return Some(60);
            }
        },
        None => {},
    }
    None
}

// ----- Text fields ---------------------------------------------------------

/// A text without the white space around it, unless nothing is left.
pub open spec fn nonempty(text: Seq<char>) -> Option<Seq<char>> {
    if trimmed(text).len() == 0 {
        None
    } else {
        Some(trimmed(text))
    }
}

/// A caption followed by tags, where there are any.
pub open spec fn combined(caption: Option<Seq<char>>, tags: Option<Seq<char>>) -> Option<
    Seq<char>,
> {
    let first = match caption {
        Some(text) => nonempty(text),
        None => None,
    };
    let second = match tags {
        Some(text) => nonempty(text),
        None => None,
    };
    match (first, second) {
        (Some(a), Some(b)) => Some(a + glue() + b),
        (Some(a), None) => Some(a),
        (None, Some(b)) => Some(b),
        (None, None) => None,
    }
}

/// The texts among the values of a list.
pub open spec fn texts_among(list: Seq<Json>) -> Seq<Seq<char>>
    decreases list.len(),
{
    if list.len() == 0 {
        Seq::<Seq<char>>::empty()
    } else {
        let rest = texts_among(list.drop_last());
        match list.last() {
            Json::Text(text) => rest.push(text@),
            _ => rest,
        }
    }
}

/// The keys of a record in order.
pub open spec fn ordered_keys(record: Map<Seq<char>, Json>) -> Seq<Seq<char>> {
    choose|keys: Seq<Seq<char>>|
        strictly_ordered(keys) && forall|key: Seq<char>| #[trigger]
            keys.contains(key) <==> record.contains_key(key)
}

/// The text of a field of a record: a text, the texts of a list, or, of the
/// `tags` field, the keys of a record.
pub open spec fn field_text(record: Json, field: Seq<char>) -> Option<Seq<char>> {
    match record {
        Json::Record(fields) => if fields@.contains_key(field) {
            match fields@[field] {
                Json::Text(text) => nonempty(text@),
                Json::List(list) => nonempty(joined(nonblank(texts_among(list@)), glue())),
                Json::Record(counts) => if field == "tags"@ {
                    nonempty(joined(nonblank(ordered_keys(counts@)), glue()))
                } else {
                    None
                },
                _ => None,
            }
        } else {
            None
        },
        _ => None,
    }
}

/// The text that the editor shows for a record: its caption, then its tags.
pub open spec fn record_text(record: Json) -> Option<Seq<char>> {
    combined(field_text(record, "caption"@), field_text(record, "tags"@))
}

/// Whether an optional text is the expected one.
pub open spec fn is_text(text: Option<String>, expected: Option<Seq<char>>) -> bool {
    match text {
        Some(text) => expected == Some(text@),
        None => expected is None,
    }
}

fn nonempty_text(text: &str) -> (result: Option<String>)
    ensures
        is_text(result, nonempty(text@)),
{
    let result = trim(text);
    if result.as_str().is_empty() {
        None
    } else {
        Some(result)
    }
}

/// The entries that are not blank, joined to one text, unless nothing is left.
fn joined_entries(entries: &Vec<String>) -> (result: Option<String>)
    ensures
        is_text(result, nonempty(joined(nonblank(texts(entries@)), glue()))),
{
    broadcast use group_texts;

    let ghost all = texts(entries@);
    let mut parts: Vec<String> = Vec::new();
    for i in 0..entries.len()
        invariant
            all == texts(entries@),
            texts(parts@) == nonblank(all.take(i as int)),
    {
        assert(all.take(i + 1).drop_last() =~= all.take(i as int));
        assert(all.take(i + 1).last() == entries@[i as int]@);
        let part = trim(entries[i].as_str());
        if !part.as_str().is_empty() {
            parts.push(part);
        }
    }
    assert(all.take(entries@.len() as int) =~= all);
    proof {
        reveal_strlit(", ");
        assert(", "@ =~= glue());
    }
    let text = join(&parts, ", ");
    nonempty_text(text.as_str())
}

fn list_texts(list: &Vec<Json>) -> (result: Vec<String>)
    ensures
        texts(result@) == texts_among(list@),
{
    broadcast use group_texts;

    let mut result: Vec<String> = Vec::new();
    for i in 0..list.len()
        invariant
            texts(result@) == texts_among(list@.take(i as int)),
    {
        assert(list@.take(i + 1).drop_last() =~= list@.take(i as int));
        match &list[i] {
            Json::Text(text) => {
                result.push(text.clone());
            },
            _ => {},
        }
    }
    assert(list@.take(list@.len() as int) =~= list@);
    result
}

/// Combines optional caption and tags strings, the caption first.
pub fn combine_caption_and_tags(caption: Option<&str>, tags: Option<&str>) -> (result: Option<
    String,
>)
    ensures
        is_text(
            result,
            combined(
                match caption {
                    Some(text) => Some(text@),
                    None => None,
                },
                match tags {
                    Some(text) => Some(text@),
                    None => None,
                },
            ),
        ),
{
    let first = match caption {
        Some(text) => nonempty_text(text),
        None => None,
    };
    let second = match tags {
        Some(text) => nonempty_text(text),
        None => None,
    };
    match (first, second) {
        (Some(a), Some(b)) => {
            proof {
                reveal_strlit(", ");
                assert(", "@ =~= glue());
            }
            let mut text = a;
            text.append(", ");
            text.append(b.as_str());
            Some(text)
        },
        (Some(a), None) => Some(a),
        (None, Some(b)) => Some(b),
        (None, None) => None,
    }
}

fn record_text_field(record: &Json, field: &str) -> (result: Option<String>)
    ensures
        is_text(result, field_text(*record, field@)),
{
    match record {
        Json::Record(fields) => match fields.get(field) {
            Some(value) => match value {
                Json::Text(text) => nonempty_text(text.as_str()),
                Json::List(list) => {
                    let entries = list_texts(list);
                    joined_entries(&entries)
                },
                Json::Record(counts) => {
                    if same_text(field, "tags") {
                        let keys = counts.keys();
                        proof {
                            lemma_ordered_unique(texts(keys@), ordered_keys(counts@));
                        }
                        joined_entries(keys)
                    } else {
                        None
                    }
                },
                _ => None,
            },
            None => None,
        },
        _ => None,
    }
}

/// Extracts the editor-ready tag string from one record.
pub fn record_tag_string(record: &Json) -> (result: Option<String>)
    ensures
        is_text(result, record_text(*record)),
{
    let caption = record_text_field(record, "caption");
    let tags = record_text_field(record, "tags");
    let first = match &caption {
        Some(text) => Some(text.as_str()),
        None => None,
    };
    let second = match &tags {
        Some(text) => Some(text.as_str()),
        None => None,
    };
    combine_caption_and_tags(first, second)
}

// ----- Documents -----------------------------------------------------------

/// The JSON object stored by a metadata file.
#[derive(Debug)]
pub struct KohyaMetadata {
    pub records: JsonRecord,
}

/// A more generic name for callers that do not need the format's name.
pub type MetadataDocument = KohyaMetadata;

impl Default for KohyaMetadata {
    fn default() -> (document: KohyaMetadata)
        ensures
            document.records@ == Map::<Seq<char>, Json>::empty(),
    {
        KohyaMetadata { records: JsonRecord::new() }
    }
}

impl KohyaMetadata {
    /// Returns a record by its exact JSON key.
    pub fn record(&self, key: &str) -> (value: Option<&Json>)
        ensures
            match value {
                Some(value) => self.records@.contains_key(key@) && *value == self.records@[key@],
                None => !self.records@.contains_key(key@),
            },
    {
        self.records.get(key)
    }

    /// Returns the number of root entries, including bookkeeping fields.
    pub fn len(&self) -> (count: usize)
        ensures
            self.records@.dom().finite(),
            count == self.records@.len(),
    {
        self.records.len()
    }

    /// Returns whether the document has no entries.
    pub fn is_empty(&self) -> (yes: bool)
        ensures
            yes == (self.records@ == Map::<Seq<char>, Json>::empty()),
    {
        self.records.is_empty()
    }

    /// Finds the best matching metadata key for an image path.
    ///
    /// Absolute-path keys are preferred over filename keys, which are in turn
    /// preferred over stems. This means datasets containing duplicate stems
    /// still resolve correctly when their metadata uses absolute paths.
    pub fn key_for_image(&self, here: &Location, image_path: &str) -> (key: Option<&str>)
        ensures
            match key {
                Some(key) => best_key(self.records@, here@, image_path@) == Some(key@)
                    && is_best_key(self.records@, here@, image_path@, key@),
                None => best_key(self.records@, here@, image_path@) is None && forall|key: Seq<char>|
                    #[trigger]
                    self.records@.contains_key(key) ==> match_score(here@, key, image_path@) is None,
            },
    {
        let ghost records = self.records@;
        let keys = self.records.keys();
        let ghost all = texts(keys@);
        let mut best: Option<(u8, usize)> = None;
        for i in 0..keys.len()
            invariant
                all == texts(keys@),
                strictly_ordered(all),
                match best {
                    Some((score, at)) => {
                        &&& at < i
                        &&& match_score(here@, all[at as int], image_path@) == Some(score as nat)
                        &&& forall|k: int|
                            0 <= k < i && match_score(here@, #[trigger] all[k], image_path@) is Some
                                ==> {
                                ||| match_score(here@, all[k], image_path@)->0 < score
                                ||| match_score(here@, all[k], image_path@)->0 == score && at <= k
                            }
                    },
                    None => forall|k: int|
                        0 <= k < i ==> match_score(here@, #[trigger] all[k], image_path@) is None,
                },
        {
            assert(all[i as int] == keys@[i as int]@);
            match path_match_score(here, keys[i].as_str(), image_path) {
                Some(score) => {
                    let better = match best {
                        Some((best_score, _)) => score > best_score,
                        None => true,
                    };
                    if better {
                        best = Some((score, i));
                    }
                },
                None => {},
            }
        }
        match best {
            Some((_, at)) => {
                proof {
                    let key = all[at as int];
                    assert(all.contains(key));
                    assert forall|other: Seq<char>| #[trigger]
                        records.contains_key(other) && match_score(
                            here@,
                            other,
                            image_path@,
                        ) is Some implies {
                        ||| match_score(here@, other, image_path@)->0 < match_score(
                            here@,
                            key,
                            image_path@,
                        )->0
                        ||| match_score(here@, other, image_path@)->0 == match_score(
                            here@,
                            key,
                            image_path@,
                        )->0 && (other == key || text_before(key, other))
                    } by {
                        assert(all.contains(other));
                        let k = choose|k: int| 0 <= k < all.len() && all[k] == other;
                        if at < k {
                            assert(text_before(all[at as int], all[k]));
                        }
                    }
                    assert(is_best_key(records, here@, image_path@, key));
                    lemma_best_key(records, here@, image_path@, key);
                }
                Some(keys[at].as_str())
            },
            None => {
                proof {
                    assert forall|key: Seq<char>| #[trigger]
                        records.contains_key(key) implies match_score(
                        here@,
                        key,
                        image_path@,
                    ) is None by {
                        assert(all.contains(key));
                        let k = choose|k: int| 0 <= k < all.len() && all[k] == key;
                        assert(match_score(here@, all[k], image_path@) is None);
                    }
                }
                None
            },
        }
    }

    /// The record that fits an image best.
    fn record_for_image(&self, here: &Location, image_path: &str) -> (record: Option<&Json>)
        ensures
            match record {
                Some(record) => best_key(self.records@, here@, image_path@) matches Some(key)
                    && *record == self.records@[key],
                None => best_key(self.records@, here@, image_path@) is None,
            },
    {
        match self.key_for_image(here, image_path) {
            Some(key) => self.records.get(key),
            None => None,
        }
    }

    /// Returns the raw `tags` value for an image, if it is a string, array, or
    /// frequency-map object.
    pub fn raw_tags_for_image(&self, here: &Location, image_path: &str) -> (text: Option<String>)
        ensures
            is_text(
                text,
                match best_key(self.records@, here@, image_path@) {
                    Some(key) => field_text(self.records@[key], "tags"@),
                    None => None,
                },
            ),
    {
        match self.record_for_image(here, image_path) {
            Some(record) => record_text_field(record, "tags"),
            None => None,
        }
    }

    /// Returns the raw `caption` value for an image.
    pub fn caption_for_image(&self, here: &Location, image_path: &str) -> (text: Option<String>)
        ensures
            is_text(
                text,
                match best_key(self.records@, here@, image_path@) {
                    Some(key) => field_text(self.records@[key], "caption"@),
                    None => None,
                },
            ),
    {
        match self.record_for_image(here, image_path) {
            Some(record) => record_text_field(record, "caption"),
            None => None,
        }
    }

    /// Returns the editor-ready tag string for an image.
    ///
    /// When both fields exist, the caption is placed first and the tags follow
    /// it, separated by `, `. Empty or non-string fields are ignored.
    pub fn tags_for_image(&self, here: &Location, image_path: &str) -> (text: Option<String>)
        ensures
            is_text(text, image_text(self.records@, here@, image_path@)),
    {
        match self.record_for_image(here, image_path) {
            Some(record) => record_tag_string(record),
            None => None,
        }
    }
}

/// The text that the editor shows for an image.
pub open spec fn image_text(
    records: Map<Seq<char>, Json>,
    here: LocationView,
    image: Seq<char>,
) -> Option<Seq<char>> {
    match best_key(records, here, image) {
        Some(key) => record_text(records[key]),
        None => None,
    }
}

// ----- Export --------------------------------------------------------------

/// What is in a field: a text, a list of texts, or something else.
#[verifier::ext_equal]
pub enum ValueView {
    Text(Seq<char>),
    Texts(Seq<Seq<char>>),
    Other(Json),
}

/// What is under a key of a document: a record of fields, or something else.
#[verifier::ext_equal]
pub enum RecordView {
    Fields(Map<Seq<char>, ValueView>),
    Other(Json),
}

/// Whether every value of a list is a text.
pub open spec fn only_texts(list: Seq<Json>) -> bool {
    forall|i: int| 0 <= i < list.len() ==> #[trigger] list[i] is Text
}

/// What is in a field.
pub open spec fn value_view(value: Json) -> ValueView {
    match value {
        Json::Text(text) => ValueView::Text(text@),
        Json::List(list) => if only_texts(list@) {
            ValueView::Texts(texts_among(list@))
        } else {
            ValueView::Other(value)
        },
        _ => ValueView::Other(value),
    }
}

/// What is under a key of a document.
pub open spec fn record_view(record: Json) -> RecordView {
    match record {
        Json::Record(fields) => RecordView::Fields(fields@.map_values(|v: Json| value_view(v))),
        _ => RecordView::Other(record),
    }
}

/// What is under the keys of a document.
pub open spec fn document_view(records: Map<Seq<char>, Json>) -> Map<Seq<char>, RecordView> {
    records.map_values(|record: Json| record_view(record))
}

/// The key of an image in an export.
pub open spec fn export_key(here: LocationView, key_mode: MetadataKeyMode, image: Seq<char>) -> Option<
    Seq<char>,
> {
    match key_mode {
        MetadataKeyMode::Stem => stem_of(name_text(here.platform, image)),
        MetadataKeyMode::AbsolutePath => Some(absolute_text(here, image)),
    }
}

/// The field that an export writes.
pub open spec fn export_field(mode: MetadataExportMode) -> Seq<char> {
    match mode {
        MetadataExportMode::Tags => "tags"@,
        MetadataExportMode::Caption => "caption"@,
    }
}

/// What an export writes for a tag string.
pub open spec fn export_value(mode: MetadataExportMode, text: Seq<char>) -> ValueView {
    match mode {
        MetadataExportMode::Tags => ValueView::Texts(parsed(text)),
        MetadataExportMode::Caption => ValueView::Text(trimmed(text)),
    }
}

/// The fields under a key: none where there is no record.
pub open spec fn fields_under(document: Map<Seq<char>, RecordView>, key: Seq<char>) -> Map<
    Seq<char>,
    ValueView,
> {
    if document.contains_key(key) {
        match document[key] {
            RecordView::Fields(fields) => fields,
            RecordView::Other(_) => Map::empty(),
        }
    } else {
        Map::empty()
    }
}

/// A document after one image was exported.
pub open spec fn with_entry(
    document: Map<Seq<char>, RecordView>,
    key: Seq<char>,
    mode: MetadataExportMode,
    text: Seq<char>,
) -> Map<Seq<char>, RecordView> {
    document.insert(
        key,
        RecordView::Fields(
            fields_under(document, key).insert(export_field(mode), export_value(mode, text)),
        ),
    )
}

/// A document after images with their tag strings were exported.
pub open spec fn exported(
    document: Map<Seq<char>, RecordView>,
    entries: Seq<(String, String)>,
    options: MetadataExportOptions,
    here: LocationView,
) -> Map<Seq<char>, RecordView>
    decreases entries.len(),
{
    if entries.len() == 0 {
        document
    } else {
        let (path, text) = entries.last();
        with_entry(
            exported(document, entries.drop_last(), options, here),
            export_key(here, options.key_mode, path@)->0,
            options.mode,
            text@,
        )
    }
}

/// Whether the first `count` images have keys, each of them another one.
pub open spec fn distinct_keys(
    entries: Seq<(String, String)>,
    count: int,
    options: MetadataExportOptions,
    here: LocationView,
) -> bool {
    &&& forall|i: int|
        0 <= i < count ==> export_key(here, options.key_mode, (#[trigger] entries[i]).0@) is Some
    &&& forall|i: int, j: int|
        0 <= i < j < count ==> export_key(here, options.key_mode, (#[trigger] entries[i]).0@)
            != export_key(here, options.key_mode, (#[trigger] entries[j]).0@)
}

/// Whether a key is that of one of the first `count` images.
pub open spec fn key_among(
    entries: Seq<(String, String)>,
    count: int,
    options: MetadataExportOptions,
    here: LocationView,
    key: Seq<char>,
) -> bool {
    exists|i: int|
        0 <= i < count && export_key(here, options.key_mode, (#[trigger] entries[i]).0@) == Some(key)
}

/// Why an export was refused.
#[derive(Debug)]
pub enum MetadataError {
    /// An image path has no stem to be used as a key.
    MissingStem,
    /// Two images have the same key.
    DuplicateKey(String),
}

impl MetadataError {
    /// What the error says.
    pub fn message(&self) -> (text: String)
        ensures
            text@ == match *self {
                MetadataError::MissingStem => "cannot use an image path without a filename stem as metadata key"@,
                MetadataError::DuplicateKey(key) => "duplicate metadata key `"@ + key@
                    + "`; use absolute-path keys for datasets with duplicate stems"@,
            },
    {
        match self {
            MetadataError::MissingStem => "cannot use an image path without a filename stem as metadata key".to_owned(),
            MetadataError::DuplicateKey(key) => {
                let mut text = "duplicate metadata key `".to_owned();
                text.append(key.as_str());
                text.append("`; use absolute-path keys for datasets with duplicate stems");
                text
            },
        }
    }
}

/// A document after an export, and the number of images that it wrote.
#[derive(Debug)]
pub struct MetadataUpdate {
    pub document: KohyaMetadata,
    pub count: usize,
}

/// Whether an export has the given result. It is refused at the first image
/// that has no key, or the key of an earlier one.
pub open spec fn is_export_result(
    result: Result<MetadataUpdate, MetadataError>,
    existing: Map<Seq<char>, Json>,
    entries: Seq<(String, String)>,
    options: MetadataExportOptions,
    here: LocationView,
) -> bool {
    let start = if options.write_mode == MetadataWriteMode::Merge {
        document_view(existing)
    } else {
        Map::empty()
    };
    match result {
        Ok(update) => {
            &&& distinct_keys(entries, entries.len() as int, options, here)
            &&& update.count == entries.len()
            &&& document_view(update.document.records@) == exported(start, entries, options, here)
        },
        Err(MetadataError::MissingStem) => exists|i: int|
            {
                &&& 0 <= i < entries.len()
                &&& distinct_keys(entries, i, options, here)
                &&& export_key(here, options.key_mode, (#[trigger] entries[i]).0@) is None
            },
        Err(MetadataError::DuplicateKey(key)) => exists|i: int|
            {
                &&& 0 <= i < entries.len()
                &&& distinct_keys(entries, i, options, here)
                &&& export_key(here, options.key_mode, (#[trigger] entries[i]).0@) == Some(key@)
                &&& key_among(entries, i, options, here, key@)
            },
    }
}

fn metadata_key(here: &Location, key_mode: MetadataKeyMode, path: &str) -> (key: Option<String>)
    ensures
        is_text(key, export_key(here@, key_mode, path@)),
{
    match key_mode {
        MetadataKeyMode::Stem => {
            let text = name_part(here.platform, path);
            file_stem(text.as_str())
        },
        MetadataKeyMode::AbsolutePath => Some(normalized_absolute_path(here, path)),
    }
}

fn text_values(list: &Vec<String>) -> (values: Vec<Json>)
    ensures
        only_texts(values@),
        texts_among(values@) == texts(list@),
{
    broadcast use group_texts;

    let mut values: Vec<Json> = Vec::new();
    let ghost all = texts(list@);
    for i in 0..list.len()
        invariant
            all == texts(list@),
            values@.len() == i,
            only_texts(values@),
            texts_among(values@) == all.take(i as int),
    {
        let ghost before = values@;
        values.push(Json::Text(list[i].clone()));
        assert(values@.drop_last() =~= before);
        assert(texts_among(values@) =~= all.take(i + 1));
    }
    assert(all.take(list@.len() as int) =~= all);
    values
}

fn written_value(mode: MetadataExportMode, text: &str) -> (value: Json)
    ensures
        value_view(value) == export_value(mode, text@),
{
    match mode {
        MetadataExportMode::Tags => {
            let tags = parse_tags(text);
            Json::List(text_values(&tags))
        },
        MetadataExportMode::Caption => Json::Text(trim(text)),
    }
}

/// A record with the field of an export written.
fn updated_record(record: Option<Json>, mode: MetadataExportMode, text: &str) -> (result: Json)
    ensures
        record_view(result) == RecordView::Fields(
            (match record {
                Some(Json::Record(fields)) => fields@.map_values(|v: Json| value_view(v)),
                _ => Map::<Seq<char>, ValueView>::empty(),
            }).insert(export_field(mode), export_value(mode, text@)),
        ),
{
    let mut fields = match record {
        Some(Json::Record(fields)) => fields,
        _ => {
            let fields = JsonRecord::new();
            assert(fields@.map_values(|v: Json| value_view(v)) =~= Map::<
                Seq<char>,
                ValueView,
            >::empty());
            fields
        },
    };
    let ghost before = fields@;
    let value = written_value(mode, text);
    let field = match mode {
        MetadataExportMode::Tags => "tags".to_owned(),
        MetadataExportMode::Caption => "caption".to_owned(),
    };
    fields.insert(field, value);
    assert(fields@.map_values(|v: Json| value_view(v)) =~= before.map_values(
        |v: Json| value_view(v),
    ).insert(export_field(mode), export_value(mode, text@)));
    Json::Record(fields)
}

/// Writes image tag strings to a metadata document.
///
/// Each entry is an image path and its tag string. Tags are written as a list;
/// captions are written as a text. In merge mode, the fields and records of the
/// existing document are retained; in overwrite mode, only the supplied records
/// are written.
pub fn write_metadata(
    existing: KohyaMetadata,
    entries: &[(String, String)],
    options: MetadataExportOptions,
    here: &Location,
) -> (result: Result<MetadataUpdate, MetadataError>)
    ensures
        is_export_result(result, existing.records@, entries@, options, here@),
{
    let mut document = if options.write_mode == MetadataWriteMode::Merge {
        existing
    } else {
        KohyaMetadata::default()
    };
    let ghost start = document_view(document.records@);
    assert(options.write_mode != MetadataWriteMode::Merge ==> start =~= Map::<
        Seq<char>,
        RecordView,
    >::empty());
    let mut keys = TagSet::new();
    assert(entries@.take(0) =~= Seq::empty());
    for i in 0..entries.len()
        invariant
            options.write_mode == MetadataWriteMode::Merge ==> start == document_view(
                existing.records@,
            ),
            options.write_mode != MetadataWriteMode::Merge ==> start == Map::<
                Seq<char>,
                RecordView,
            >::empty(),
            distinct_keys(entries@, i as int, options, here@),
            forall|key: Seq<char>| #[trigger]
                keys@.contains(key) <==> key_among(entries@, i as int, options, here@, key),
            document_view(document.records@) == exported(
                start,
                entries@.take(i as int),
                options,
                here@,
            ),
    {
        assert(entries@.take(i + 1).drop_last() =~= entries@.take(i as int));
        assert(entries@.take(i + 1).last() == entries@[i as int]);
        let entry = &entries[i];
        let key = match metadata_key(here, options.key_mode, entry.0.as_str()) {
            Some(key) => key,
            None => {
                return Err(MetadataError::MissingStem);
            },
        };
        let ghost name = key@;
        assert(export_key(here@, options.key_mode, entries@[i as int].0@) == Some(name));
        let ghost known = keys@;
        if !keys.insert(key.as_str()) {
            return Err(MetadataError::DuplicateKey(key));
        }
        proof {
            assert forall|a: int, b: int| 0 <= a < b < i + 1 implies export_key(
                here@,
                options.key_mode,
                (#[trigger] entries@[a]).0@,
            ) != export_key(here@, options.key_mode, (#[trigger] entries@[b]).0@) by {
                if b == i && export_key(here@, options.key_mode, entries@[a].0@) == Some(name) {
                    assert(key_among(entries@, i as int, options, here@, name));
                }
            }
            assert forall|k: Seq<char>| #[trigger] keys@.contains(k) <==> key_among(
                entries@,
                i + 1,
                options,
                here@,
                k,
            ) by {
                if key_among(entries@, i as int, options, here@, k) {
                    let a = choose|a: int|
                        0 <= a < i && export_key(
                            here@,
                            options.key_mode,
                            (#[trigger] entries@[a]).0@,
                        ) == Some(k);
                    assert(export_key(here@, options.key_mode, entries@[a].0@) == Some(k));
                }
                if key_among(entries@, i + 1, options, here@, k) {
                    let a = choose|a: int|
                        0 <= a < i + 1 && export_key(
                            here@,
                            options.key_mode,
                            (#[trigger] entries@[a]).0@,
                        ) == Some(k);
                    if a < i {
                        assert(key_among(entries@, i as int, options, here@, k));
                    }
                }
                assert(keys@.contains(k) <==> known.contains(k) || k == name);
            }
        }
        let ghost before = document.records@;
        let ghost seen = document_view(before);
        let previous = document.records.insert(key.clone(), Json::Null);
        let record = updated_record(previous, options.mode, entry.1.as_str());
        proof {
            if before.contains_key(name) {
                assert(seen[name] == record_view(before[name]));
            }
            assert(record_view(record) == RecordView::Fields(
                fields_under(seen, name).insert(
                    export_field(options.mode),
                    export_value(options.mode, entry.1@),
                ),
            ));
        }
        document.records.insert(key, record);
        assert(document_view(document.records@) =~= seen.insert(name, record_view(record)));
    }
    assert(entries@.take(entries@.len() as int) =~= entries@);
    Ok(MetadataUpdate { document, count: entries.len() })
}

/// The same as [`write_metadata`].
pub fn export_metadata(
    existing: KohyaMetadata,
    entries: &[(String, String)],
    options: MetadataExportOptions,
    here: &Location,
) -> (result: Result<MetadataUpdate, MetadataError>)
    ensures
        is_export_result(result, existing.records@, entries@, options, here@),
{
    write_metadata(existing, entries, options, here)
}

} // verus!
