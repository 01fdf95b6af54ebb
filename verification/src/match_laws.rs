//! Which record of a metadata document is for an image, and what its text is.

use vstd::prelude::*;

use crate::json::Json;
use crate::metadata::{
    absolute_text, combined, distinct_keys, document_view, export_key, exported, field_text,
    forward, image_text, is_absolute_on, is_best_key, is_export_result, key_among, lemma_best_key,
    match_score, name_text, next_slash, record_text, texts_among, without_end_slashes, LocationView,
    MetadataError, MetadataExportMode, MetadataExportOptions, MetadataKeyMode, MetadataUpdate,
    MetadataWriteMode, Platform, RecordView, ValueView,
};
use crate::metadata_laws::{law_export_keeps, law_export_writes, lemma_plain_ends};
use crate::order::{lemma_text_total, lemma_text_transitive, text_before};
use crate::path_laws::{in_directory, is_name, law_images_by_extension, law_names_stand_last};
use crate::paths::{extension_of, is_rooted, joined_path, name_of, stem_of, stem_of_name};
use crate::tags::{glue, parsed};
use crate::text::{
    ascii_lowered, is_separator, joined, lemma_split_nonempty, lemma_trimmed_fixpoint,
    lemma_trimmed_ignores_space, lemma_trimmed_is_trimmed, nonblank, same_ignoring_case, split,
    trimmed, Separators,
};
use crate::text_laws::{law_separator_parts_lists, lemma_nonblank_add};

verus! {

// ----- The best key --------------------------------------------------------

/// Whether a key is for an image at all.
pub open spec fn fits_image(here: LocationView, key: Seq<char>, image: Seq<char>) -> bool {
    match_score(here, key, image) is Some
}

/// The best among the keys of a finite set.
proof fn lemma_best_among(
    keys: Set<Seq<char>>,
    here: LocationView,
    image: Seq<char>,
    some: Seq<char>,
) -> (best: Seq<char>)
    requires
        keys.finite(),
        keys.contains(some),
        fits_image(here, some, image),
    ensures
        keys.contains(best),
        fits_image(here, best, image),
        forall|other: Seq<char>| #[trigger]
            keys.contains(other) && fits_image(here, other, image) ==> {
                ||| match_score(here, other, image)->0 < match_score(here, best, image)->0
                ||| match_score(here, other, image)->0 == match_score(here, best, image)->0 && (
                other == best || text_before(best, other))
            },
    decreases keys.len(),
{
    let fewer = keys.remove(some);
    if exists|other: Seq<char>| #[trigger] fewer.contains(other) && fits_image(here, other, image) {
        let other = choose|other: Seq<char>| #[trigger]
            fewer.contains(other) && fits_image(here, other, image);
        let rest = lemma_best_among(fewer, here, image, other);
        let a = match_score(here, some, image)->0;
        let b = match_score(here, rest, image)->0;
        lemma_text_total(some, rest);
        if a > b || (a == b && text_before(some, rest)) {
            assert forall|key: Seq<char>| #[trigger]
                keys.contains(key) && fits_image(here, key, image) implies {
                ||| match_score(here, key, image)->0 < a
                ||| match_score(here, key, image)->0 == a && (key == some || text_before(some, key))
            } by {
                if key != some {
                    assert(fewer.contains(key));
                    if key != rest && text_before(rest, key) && text_before(some, rest) {
                        lemma_text_transitive(some, rest, key);
                    }
                }
            }
            some
        } else {
            assert forall|key: Seq<char>| #[trigger]
                keys.contains(key) && fits_image(here, key, image) implies {
                ||| match_score(here, key, image)->0 < b
                ||| match_score(here, key, image)->0 == b && (key == rest || text_before(rest, key))
            } by {
                if key != some {
                    assert(fewer.contains(key));
                }
            }
            rest
        }
    } else {
        assert forall|key: Seq<char>| #[trigger]
            keys.contains(key) && fits_image(here, key, image) implies key == some by {
            if key != some {
                assert(fewer.contains(key));
            }
        }
        some
    }
}

/// The text for an image comes from the record whose key fits it most closely,
/// the first of those in the order of the keys, and from no other: where that
/// record has no text there is none. Where no key fits there is none either.
pub proof fn law_closest_record_is_used(
    records: Map<Seq<char>, Json>,
    here: LocationView,
    image: Seq<char>,
) -> (key: Seq<char>)
    requires
        records.dom().finite(),
    ensures
        (exists|other: Seq<char>| #[trigger]
            records.contains_key(other) && fits_image(here, other, image)) ==> {
            &&& records.contains_key(key)
            &&& image_text(records, here, image) == record_text(records[key])
            &&& forall|other: Seq<char>| #[trigger]
                records.contains_key(other) && fits_image(here, other, image) ==> {
                    &&& match_score(here, key, image)->0 >= match_score(here, other, image)->0
                    &&& match_score(here, key, image)->0 == match_score(here, other, image)->0
                        && other != key ==> text_before(key, other)
                }
        },
        !(exists|other: Seq<char>| #[trigger]
            records.contains_key(other) && fits_image(here, other, image)) ==> image_text(
            records,
            here,
            image,
        ) is None,
{
    if exists|other: Seq<char>| #[trigger]
        records.contains_key(other) && fits_image(here, other, image) {
        let other = choose|other: Seq<char>| #[trigger]
            records.contains_key(other) && fits_image(here, other, image);
        assert(records.dom().contains(other));
        let key = lemma_best_among(records.dom(), here, image, other);
        assert(forall|other: Seq<char>| #[trigger]
            records.contains_key(other) == records.dom().contains(other));
        assert(is_best_key(records, here, image, key));
        lemma_best_key(records, here, image, key);
        key
    } else {
        if exists|key: Seq<char>| is_best_key(records, here, image, key) {
            let key = choose|key: Seq<char>| is_best_key(records, here, image, key);
            assert(records.contains_key(key) && fits_image(here, key, image));
        }
        Seq::empty()
    }
}

/// How closely keys fit an image, from the closest on: the path itself, the name
/// of the file, its stem, and then a name with that stem and another extension or
/// in another directory. A key that is none of these does not fit.
pub proof fn law_how_closely_keys_fit(
    here: LocationView,
    image: Seq<char>,
    whole: Seq<char>,
    name: Seq<char>,
    stem: Seq<char>,
    loose: Seq<char>,
    other: Seq<char>,
)
    requires
        here.platform == Platform::Unix,
        name_of(image) == Some(name),
        stem_of(image) == Some(stem),
        trimmed(whole) == whole,
        trimmed(name) == name && name.len() > 0 && !is_rooted(name),
        trimmed(stem) == stem && stem.len() > 0 && !is_rooted(stem),
        trimmed(loose) == loose,
        is_rooted(whole) && absolute_text(here, whole) == absolute_text(here, image),
        stem != name,
        loose.len() > 0 && loose != name && loose != stem,
        is_rooted(loose) ==> absolute_text(here, loose) != absolute_text(here, image),
        extension_of(loose) is Some && stem_of(loose) == Some(stem) || name_of(loose) == Some(name),
        trimmed(other) != name && trimmed(other) != stem,
        is_rooted(trimmed(other)) ==> absolute_text(here, trimmed(other)) != absolute_text(
            here,
            image,
        ),
        stem_of(trimmed(other)) != Some(stem),
        name_of(trimmed(other)) != Some(name),
        !has_letter_drive(trimmed(other)),
        !has_letter_drive(name),
        !has_letter_drive(stem),
        !has_letter_drive(loose),
    ensures
        fits_image(here, whole, image),
        fits_image(here, name, image),
        fits_image(here, stem, image),
        fits_image(here, loose, image),
        match_score(here, whole, image)->0 > match_score(here, name, image)->0,
        match_score(here, name, image)->0 > match_score(here, stem, image)->0,
        match_score(here, stem, image)->0 > match_score(here, loose, image)->0,
        !fits_image(here, other, image),
{
}

/// Whether a text begins with the letter of a drive.
pub open spec fn has_letter_drive(text: Seq<char>) -> bool {
    &&& text.len() >= 2
    &&& 'a' <= text[0] <= 'z' || 'A' <= text[0] <= 'Z'
    &&& text[1] == ':'
}

// ----- The text of a record ------------------------------------------------

proof fn lemma_split_behind(kind: Separators, c: char, text: Seq<char>)
    requires
        !is_separator(kind, c),
    ensures
        split(kind, seq![c] + text) == seq![seq![c] + split(kind, text)[0]] + split(
            kind,
            text,
        ).drop_first(),
    decreases text.len(),
{
    let all = seq![c] + text;
    lemma_split_nonempty(kind, text);
    if text.len() == 0 {
        assert(all.drop_last() =~= Seq::<char>::empty());
        assert(split(kind, all.drop_last()) =~= seq![Seq::<char>::empty()]);
        assert(split(kind, text) =~= seq![Seq::<char>::empty()]);
        assert(all.last() == c);
        assert(Seq::<char>::empty().push(c) =~= seq![c] + Seq::<char>::empty());
        assert(split(kind, all) =~= seq![seq![c] + split(kind, text)[0]] + split(
            kind,
            text,
        ).drop_first());
    } else {
        let less = text.drop_last();
        lemma_split_behind(kind, c, less);
        lemma_split_nonempty(kind, less);
        assert(all.drop_last() =~= seq![c] + less);
        assert(all.last() == text.last());
        let parts = split(kind, less);
        let more = split(kind, all.drop_last());
        if is_separator(kind, text.last()) {
            assert(split(kind, all) =~= seq![seq![c] + split(kind, text)[0]] + split(
                kind,
                text,
            ).drop_first());
        } else if parts.len() == 1 {
            assert(split(kind, text)[0] =~= parts[0].push(text.last()));
            assert(more.last() =~= seq![c] + parts[0]);
            assert((seq![c] + parts[0]).push(text.last()) =~= seq![c] + parts[0].push(text.last()));
            assert(split(kind, all) =~= seq![seq![c] + split(kind, text)[0]] + split(
                kind,
                text,
            ).drop_first());
        } else {
            assert(more.last() == parts.last());
            assert(split(kind, all) =~= seq![seq![c] + split(kind, text)[0]] + split(
                kind,
                text,
            ).drop_first());
        }
    }
}

proof fn lemma_space_in_front(text: Seq<char>)
    ensures
        parsed(seq![' '] + text) == parsed(text),
{
    let kind = Separators::Caption;
    let parts = split(kind, text);
    lemma_split_nonempty(kind, text);
    lemma_split_behind(kind, ' ', text);
    let first = seq![' '] + parts[0];
    lemma_nonblank_add(seq![first], parts.drop_first());
    lemma_nonblank_add(seq![parts[0]], parts.drop_first());
    assert(seq![parts[0]] + parts.drop_first() =~= parts);
    lemma_trimmed_ignores_space(seq![' '], parts[0]);
    assert(seq![first].drop_last() =~= Seq::<Seq<char>>::empty());
    assert(seq![parts[0]].drop_last() =~= Seq::<Seq<char>>::empty());
    assert(nonblank(seq![first]) =~= nonblank(seq![parts[0]]));
}

/// The text of a record lists the tags of its caption and then those of its
/// tags, either of which may be missing; there is none where both are missing or
/// blank.
pub proof fn law_caption_and_tags_are_combined(caption: Seq<char>, tags: Seq<char>)
    ensures
        combined(None, None) is None,
        combined(Some(caption), None) == if trimmed(caption).len() == 0 {
            None
        } else {
            Some(trimmed(caption))
        },
        combined(None, Some(tags)) == combined(Some(tags), None),
        trimmed(tags).len() == 0 ==> combined(Some(caption), Some(tags)) == combined(
            Some(caption),
            None,
        ),
        trimmed(caption).len() == 0 ==> combined(Some(caption), Some(tags)) == combined(
            None,
            Some(tags),
        ),
        trimmed(caption).len() > 0 && trimmed(tags).len() > 0 ==> {
            &&& combined(Some(caption), Some(tags)) matches Some(text)
            &&& parsed(text) == parsed(trimmed(caption)) + parsed(trimmed(tags))
        },
{
    if trimmed(caption).len() > 0 && trimmed(tags).len() > 0 {
        let a = trimmed(caption);
        let b = trimmed(tags);
        let text = a + glue() + b;
        assert(text =~= a.push(',') + (seq![' '] + b));
        law_separator_parts_lists(Separators::Caption, a, ',', seq![' '] + b);
        lemma_space_in_front(b);
    }
}

/// Of the entries of a list those are read that are texts, in their order.
pub proof fn law_texts_are_read_from_lists(list: Seq<Json>)
    ensures
        texts_among(list) == list.filter(|entry: Json| entry is Text).map_values(
            |entry: Json| entry->Text_0@,
        ),
    decreases list.len(),
{
    reveal(Seq::filter);
    let keep = |entry: Json| entry is Text;
    let read = |entry: Json| entry->Text_0@;
    if list.len() > 0 {
        let less = list.drop_last();
        law_texts_are_read_from_lists(less);
        if keep(list.last()) {
            assert(list.filter(keep).map_values(read) =~= less.filter(keep).map_values(read).push(
                read(list.last()),
            ));
        }
    } else {
        assert(texts_among(list) =~= list.filter(keep).map_values(read));
    }
}

/// What a field of a record says: a text says itself, without the white space
/// around it, and nothing where it is blank; a list says its texts, joined, and
/// nothing where none is more than blank; the tags may also be the names of counts.
/// A field that is missing, or something else, says nothing.
pub proof fn law_fields_are_read(record: Json, fields: Map<Seq<char>, Json>, field: Seq<char>)
    requires
        record matches Json::Record(map) && map@ == fields,
    ensures
        !fields.contains_key(field) ==> field_text(record, field) is None,
        fields.contains_key(field) ==> match fields[field] {
            Json::Text(text) => field_text(record, field) == if trimmed(text@).len() == 0 {
                None
            } else {
                Some(trimmed(text@))
            },
            Json::List(list) => {
                let text = joined(nonblank(texts_among(list@)), glue());
                field_text(record, field) == if trimmed(text).len() == 0 {
                    None
                } else {
                    Some(trimmed(text))
                }
            },
            Json::Record(_) => field != "tags"@ ==> field_text(record, field) is None,
            _ => field_text(record, field) is None,
        },
{
}

/// The text of a record is that of its caption and its tags.
pub proof fn law_records_are_read(record: Json)
    ensures
        record_text(record) == combined(
            field_text(record, "caption"@),
            field_text(record, "tags"@),
        ),
        !(record is Record) ==> record_text(record) is None,
{
}

proof fn lemma_end_slash(path: Seq<char>)
    requires
        path.len() > 0,
    ensures
        without_end_slashes(path.push('/')) == without_end_slashes(path),
{
    assert(path.push('/').drop_last() =~= path);
}

/// Where paths have one root, an absolute path stands for itself, a relative one
/// for what it names below the current directory, and slashes at the end make no
/// difference.
pub proof fn law_absolute_paths(here: LocationView, path: Seq<char>)
    requires
        here.platform == Platform::Unix,
        path.len() > 0,
        path.last() != '/',
        forall|i: int| 0 <= i < path.len() ==> #[trigger] path[i] != '\\',
        forall|i: int| 0 <= i < here.current_dir.len() ==> #[trigger] here.current_dir[i] != '\\',
    ensures
        is_rooted(path) ==> absolute_text(here, path) == path,
        !is_rooted(path) && here.current_dir.len() > 0 && here.current_dir.last() != '/'
            ==> absolute_text(here, path) == here.current_dir.push('/') + path,
        absolute_text(here, path.push('/')) == absolute_text(here, path),
{
    let base = here.current_dir;
    if is_rooted(path) {
        assert(forward(path) =~= path);
    } else if base.len() > 0 && base.last() != '/' {
        assert(forward(base.push('/') + path) =~= base.push('/') + path);
    }
    let whole = joined_path(base, path);
    assert(path.push('/')[0] == path[0]);
    assert(joined_path(base, path.push('/')) =~= whole.push('/'));
    assert(forward(whole.push('/')) =~= forward(whole).push('/'));
    lemma_end_slash(forward(whole));
}

/// Where paths have drives, a path with one stands for itself wherever it is
/// seen from, and neither case nor the direction of its slashes makes a difference.
pub proof fn law_paths_with_drives(
    here: LocationView,
    there: LocationView,
    a: Seq<char>,
    b: Seq<char>,
)
    requires
        here.platform == Platform::Windows,
        there.platform == Platform::Windows,
        has_letter_drive(a),
        has_letter_drive(b),
        same_ignoring_case(forward(a), forward(b)),
    ensures
        absolute_text(here, a) == absolute_text(there, b),
        absolute_text(here, a.push('/')) == absolute_text(here, a),
        absolute_text(here, a.push('\\')) == absolute_text(here, a),
        a.last() != '/' && a.last() != '\\' ==> absolute_text(here, a) == ascii_lowered(
            forward(a),
        ),
{
    lemma_plain_ends(forward(a));
    lemma_plain_ends(forward(b));
    assert(forward(a.push('/')) =~= forward(a).push('/'));
    assert(forward(a.push('\\')) =~= forward(a).push('/'));
    lemma_end_slash(forward(a));
    assert(forward(a).last() == '/' <==> a.last() == '/' || a.last() == '\\');
}

/// A path below the current directory, where paths have drives, is joined to it
/// with a slash.
pub proof fn law_relative_paths_with_drives(here: LocationView, path: Seq<char>)
    requires
        here.platform == Platform::Windows,
        path.len() > 0,
        !has_letter_drive(path),
        path[0] != '/' && path[0] != '\\',
        path.last() != '/' && path.last() != '\\',
        here.current_dir.len() > 2,
        here.current_dir.last() != '/' && here.current_dir.last() != '\\',
    ensures
        absolute_text(here, path) == ascii_lowered(forward(here.current_dir.push('/') + path)),
{
    let whole = here.current_dir.push('/') + path;
    assert(forward(whole).last() == path.last());
}

// ----- What is exported ----------------------------------------------------

/// The key of an image in an exported document is the stem of its file, or its
/// absolute path, as is asked.
pub proof fn law_export_keys(
    here: LocationView,
    directory: Seq<char>,
    stem: Seq<char>,
    extension: Seq<char>,
)
    requires
        here.platform == Platform::Unix,
        stem.len() > 0,
        is_name(stem.push('.') + extension),
        forall|i: int| 0 <= i < extension.len() ==> #[trigger] extension[i] != '.',
    ensures
        ({
            let image = in_directory(directory, stem.push('.') + extension);
            &&& export_key(here, MetadataKeyMode::Stem, image) == Some(stem)
            &&& export_key(here, MetadataKeyMode::AbsolutePath, image) == Some(
                absolute_text(here, image),
            )
        }),
{
    law_images_by_extension(directory, stem, extension);
}

/// An exported record has, beside what it had, the tags as a list of texts, or
/// the caption as one text without the white space around it.
pub proof fn law_exported_fields(
    document: Map<Seq<char>, RecordView>,
    entries: Seq<(String, String)>,
    options: MetadataExportOptions,
    here: LocationView,
    i: int,
)
    requires
        distinct_keys(entries, entries.len() as int, options, here),
        0 <= i < entries.len(),
    ensures
        ({
            let key = export_key(here, options.key_mode, entries[i].0@)->0;
            let after = exported(document, entries, options, here);
            &&& after.contains_key(key)
            &&& after[key] matches RecordView::Fields(fields)
            &&& options.mode == MetadataExportMode::Tags ==> fields.contains_key("tags"@)
                && fields["tags"@] == ValueView::Texts(parsed(entries[i].1@))
            &&& options.mode == MetadataExportMode::Caption ==> fields.contains_key("caption"@)
                && fields["caption"@] == ValueView::Text(trimmed(entries[i].1@))
        }),
{
    law_export_writes(document, entries, options, here, i);
}

/// An export succeeds if and only if every image has a key and no two have the
/// same. It then tells how many images there are; it keeps the records of the
/// document that is there where it is to be merged with, and otherwise holds no
/// others than its own.
pub proof fn law_when_exports_succeed(
    result: Result<MetadataUpdate, MetadataError>,
    existing: Map<Seq<char>, Json>,
    entries: Seq<(String, String)>,
    options: MetadataExportOptions,
    here: LocationView,
    key: Seq<char>,
)
    requires
        is_export_result(result, existing, entries, options, here),
    ensures
        result is Ok <==> {
            &&& forall|i: int|
                0 <= i < entries.len() ==> export_key(
                    here,
                    options.key_mode,
                    (#[trigger] entries[i]).0@,
                ) is Some
            &&& forall|i: int, j: int|
                0 <= i < j < entries.len() ==> export_key(
                    here,
                    options.key_mode,
                    (#[trigger] entries[i]).0@,
                ) != export_key(here, options.key_mode, (#[trigger] entries[j]).0@)
        },
        result matches Ok(update) ==> {
            let after = document_view(update.document.records@);
            &&& update.count == entries.len()
            &&& options.write_mode == MetadataWriteMode::Merge && existing.contains_key(key)
                ==> after.contains_key(key)
            &&& options.write_mode != MetadataWriteMode::Merge && after.contains_key(key)
                ==> exists|i: int|
                0 <= i < entries.len() && export_key(
                    here,
                    options.key_mode,
                    (#[trigger] entries[i]).0@,
                ) == Some(key)
        },
{
    match result {
        Ok(update) => {
            let start = if options.write_mode == MetadataWriteMode::Merge {
                document_view(existing)
            } else {
                Map::empty()
            };
            law_export_keeps(start, entries, options, here, key, Seq::empty());
            if key_among(entries, entries.len() as int, options, here, key) {
                let i = choose|i: int|
                    0 <= i < entries.len() && export_key(
                        here,
                        options.key_mode,
                        (#[trigger] entries[i]).0@,
                    ) == Some(key);
                law_export_writes(start, entries, options, here, i);
            }
        },
        Err(MetadataError::MissingStem) => {},
        Err(MetadataError::DuplicateKey(twice)) => {
            let i = choose|i: int|
                {
                    &&& 0 <= i < entries.len()
                    &&& distinct_keys(entries, i, options, here)
                    &&& export_key(here, options.key_mode, (#[trigger] entries[i]).0@) == Some(
                        twice@,
                    )
                    &&& key_among(entries, i, options, here, twice@)
                };
            let k = choose|k: int|
                0 <= k < i && export_key(here, options.key_mode, (#[trigger] entries[k]).0@)
                    == Some(twice@);
            assert(export_key(here, options.key_mode, entries[k].0@) == export_key(
                here,
                options.key_mode,
                entries[i].0@,
            ));
        },
    }
}

/// White space around a key makes no difference, and a blank key fits nothing.
pub proof fn law_keys_are_trimmed(here: LocationView, key: Seq<char>, image: Seq<char>)
    ensures
        match_score(here, key, image) == match_score(here, trimmed(key), image),
        trimmed(key).len() == 0 ==> !fits_image(here, key, image),
{
    lemma_trimmed_is_trimmed(key);
    lemma_trimmed_fixpoint(trimmed(key));
}

/// Where paths have drives, the name of a file stands behind the last slash of
/// either direction, and case makes no difference to what a name fits.
pub proof fn law_names_with_drives(
    here: LocationView,
    image: Seq<char>,
    directory: Seq<char>,
    name: Seq<char>,
    stem: Seq<char>,
    key: Seq<char>,
)
    requires
        here.platform == Platform::Windows,
        has_letter_drive(image),
        image.skip(2) == directory.push('\\') + name,
        is_name(name),
        forall|i: int| 0 <= i < name.len() ==> #[trigger] name[i] != '\\',
        stem == stem_of_name(name),
        trimmed(key) == key,
        key.len() > 0,
    ensures
        name_of(name_text(Platform::Windows, image)) == Some(name),
        same_ignoring_case(key, name) ==> fits_image(here, key, image) && match_score(
            here,
            key,
            image,
        )->0 >= 90,
        same_ignoring_case(key, stem) ==> fits_image(here, key, image) && match_score(
            here,
            key,
            image,
        )->0 >= 80,
{
    assert(forward(image.skip(2)) =~= in_directory(forward(directory), name));
    law_names_stand_last(forward(directory), name);
}

proof fn lemma_next_slash(path: Seq<char>, from: int, at: int)
    requires
        0 <= from <= at <= path.len(),
        at < path.len() ==> path[at] == '/' || path[at] == '\\',
        forall|i: int| from <= i < at ==> #[trigger] path[i] != '/' && path[i] != '\\',
    ensures
        next_slash(path, from) == at,
    decreases at - from,
{
    if from < at {
        assert(path[from] != '/' && path[from] != '\\');
        lemma_next_slash(path, from + 1, at);
    }
}

/// A path into a shared folder, which begins with two slashes, a server and a
/// folder, stands for itself wherever it is seen from.
pub proof fn law_paths_into_shared_folders(
    here: LocationView,
    server: Seq<char>,
    folder: Seq<char>,
    rest: Seq<char>,
)
    requires
        here.platform == Platform::Windows,
        server.len() > 0,
        folder.len() > 0,
        forall|i: int| 0 <= i < server.len() ==> #[trigger] server[i] != '/' && server[i] != '\\',
        forall|i: int| 0 <= i < folder.len() ==> #[trigger] folder[i] != '/' && folder[i] != '\\',
        rest.len() > 1,
        rest[0] == '\\',
        rest.last() != '/' && rest.last() != '\\',
    ensures
        ({
            let path = seq!['\\', '\\'] + server + seq!['\\'] + folder + rest;
            &&& is_absolute_on(Platform::Windows, path)
            &&& absolute_text(here, path) == ascii_lowered(forward(path))
        }),
{
    let path = seq!['\\', '\\'] + server + seq!['\\'] + folder + rest;
    let a = 2 + server.len() as int;
    let b = a + 1 + folder.len();
    assert forall|i: int| 2 <= i < a implies #[trigger] path[i] != '/' && path[i] != '\\' by {
        assert(path[i] == server[i - 2]);
    }
    assert(path[a] == '\\');
    assert forall|i: int| a + 1 <= i < b implies #[trigger] path[i] != '/' && path[i] != '\\' by {
        assert(path[i] == folder[i - a - 1]);
    }
    assert(path[b] == rest[0]);
    lemma_next_slash(path, 2, a);
    lemma_next_slash(path, a + 1, b);
    assert(path[0] == '\\' && path[1] == '\\');
    assert(path.last() == rest.last());
    assert(forward(path).last() == rest.last());
}

} // verus!
