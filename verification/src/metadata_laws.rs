//! Laws of the metadata documents: what an export keeps, and what is read back
//! of it.

use vstd::prelude::*;

use crate::json::Json;
use crate::metadata::{
    absolute_text, distinct_keys, document_view, export_field, export_key, export_value, exported,
    fields_under, forward, has_drive, image_text, is_absolute_on, is_best_key, joined_on, key_among,
    lemma_best_key, match_score, nonempty, record_text, record_view, same_on, value_view,
    without_end_slashes, LocationView, MetadataExportMode, MetadataExportOptions, MetadataKeyMode,
    Platform, RecordView, ValueView,
};
use crate::order::text_before;
use crate::tags::{
    all_tags, caption, glue, is_tag, law_caption_round_trip, law_parsed_are_tags, parsed,
};
use crate::text::{
    ascii_lower, ascii_lowered, is_trimmed, joined, lemma_trimmed_fixpoint,
    lemma_trimmed_is_trimmed, nonblank, same_ignoring_case, trimmed,
};

verus! {

/// A document keeps every record that an export does not write, and every field
/// of a written record but the one that is written.
pub proof fn law_export_keeps(
    document: Map<Seq<char>, RecordView>,
    entries: Seq<(String, String)>,
    options: MetadataExportOptions,
    here: LocationView,
    key: Seq<char>,
    field: Seq<char>,
)
    requires
        distinct_keys(entries, entries.len() as int, options, here),
    ensures
        !key_among(entries, entries.len() as int, options, here, key) ==> {
            &&& exported(document, entries, options, here).contains_key(key)
                <==> document.contains_key(key)
            &&& document.contains_key(key) ==> exported(document, entries, options, here)[key]
                == document[key]
        },
        field != export_field(options.mode) ==> {
            let before = fields_under(document, key);
            let after = fields_under(exported(document, entries, options, here), key);
            &&& after.contains_key(field) <==> before.contains_key(field)
            &&& before.contains_key(field) ==> after[field] == before[field]
        },
    decreases entries.len(),
{
    if entries.len() > 0 {
        let rest = entries.drop_last();
        assert(distinct_keys(rest, rest.len() as int, options, here)) by {
            assert forall|i: int| 0 <= i < rest.len() implies export_key(
                here,
                options.key_mode,
                (#[trigger] rest[i]).0@,
            ) is Some by {
                assert(export_key(here, options.key_mode, entries[i].0@) is Some);
            }
            assert forall|i: int, j: int| 0 <= i < j < rest.len() implies export_key(
                here,
                options.key_mode,
                (#[trigger] rest[i]).0@,
            ) != export_key(here, options.key_mode, (#[trigger] rest[j]).0@) by {
                assert(export_key(here, options.key_mode, entries[i].0@) != export_key(
                    here,
                    options.key_mode,
                    entries[j].0@,
                ));
            }
        }
        law_export_keeps(document, rest, options, here, key, field);
        let last = entries[entries.len() - 1];
        assert(export_key(here, options.key_mode, last.0@) is Some);
        if key_among(rest, rest.len() as int, options, here, key) {
            let i = choose|i: int|
                0 <= i < rest.len() && export_key(here, options.key_mode, (#[trigger] rest[i]).0@)
                    == Some(key);
            assert(export_key(here, options.key_mode, entries[i].0@) == Some(key));
        }
    }
}

/// What an export leaves under the key of an image: the record that was there,
/// with the written field.
pub proof fn law_export_writes(
    document: Map<Seq<char>, RecordView>,
    entries: Seq<(String, String)>,
    options: MetadataExportOptions,
    here: LocationView,
    i: int,
)
    requires
        distinct_keys(entries, entries.len() as int, options, here),
        0 <= i < entries.len(),
    ensures
        ({
            let key = export_key(here, options.key_mode, entries[i].0@)->0;
            let after = exported(document, entries, options, here);
            &&& after.contains_key(key)
            &&& after[key] == RecordView::Fields(
                fields_under(document, key).insert(
                    export_field(options.mode),
                    export_value(options.mode, entries[i].1@),
                ),
            )
        }),
    decreases entries.len(),
{
    let rest = entries.drop_last();
    let key = export_key(here, options.key_mode, entries[i].0@)->0;
    assert(distinct_keys(rest, rest.len() as int, options, here)) by {
        assert forall|a: int| 0 <= a < rest.len() implies export_key(
            here,
            options.key_mode,
            (#[trigger] rest[a]).0@,
        ) is Some by {
            assert(export_key(here, options.key_mode, entries[a].0@) is Some);
        }
        assert forall|a: int, b: int| 0 <= a < b < rest.len() implies export_key(
            here,
            options.key_mode,
            (#[trigger] rest[a]).0@,
        ) != export_key(here, options.key_mode, (#[trigger] rest[b]).0@) by {
            assert(export_key(here, options.key_mode, entries[a].0@) != export_key(
                here,
                options.key_mode,
                entries[b].0@,
            ));
        }
    }
    assert(export_key(here, options.key_mode, entries[i].0@) is Some);
    if i < rest.len() {
        law_export_writes(document, rest, options, here, i);
        assert(rest[i] == entries[i]);
        assert(export_key(here, options.key_mode, entries[i].0@) != export_key(
            here,
            options.key_mode,
            entries[entries.len() - 1].0@,
        ));
        assert(export_key(here, options.key_mode, entries[entries.len() - 1].0@) is Some);
    } else {
        assert(!key_among(rest, rest.len() as int, options, here, key)) by {
            if key_among(rest, rest.len() as int, options, here, key) {
                let a = choose|a: int|
                    0 <= a < rest.len() && export_key(
                        here,
                        options.key_mode,
                        (#[trigger] rest[a]).0@,
                    ) == Some(key);
                assert(export_key(here, options.key_mode, entries[a].0@) == Some(key));
                assert(export_key(here, options.key_mode, entries[a].0@) != export_key(
                    here,
                    options.key_mode,
                    entries[i].0@,
                ));
            }
        }
        law_export_keeps(document, rest, options, here, key, Seq::empty());
        let before = exported(document, rest, options, here);
        assert(fields_under(before, key) == fields_under(document, key));
    }
}

proof fn lemma_nonblank_tags(tags: Seq<Seq<char>>)
    requires
        all_tags(tags),
    ensures
        nonblank(tags) == tags,
    decreases tags.len(),
{
    if tags.len() > 0 {
        assert(is_tag(tags[tags.len() - 1]));
        lemma_nonblank_tags(tags.drop_last());
        lemma_trimmed_fixpoint(tags.last());
        assert(tags.drop_last().push(tags.last()) =~= tags);
    } else {
        assert(tags =~= Seq::<Seq<char>>::empty());
    }
}

proof fn lemma_caption_trimmed(tags: Seq<Seq<char>>)
    requires
        all_tags(tags),
        tags.len() > 0,
    ensures
        caption(tags).len() > 0,
        caption(tags)[0] == tags[0][0],
        caption(tags).last() == tags.last().last(),
        is_trimmed(caption(tags)),
        trimmed(caption(tags)) == caption(tags),
    decreases tags.len(),
{
    assert(is_tag(tags[0]));
    assert(is_tag(tags[tags.len() - 1]));
    if tags.len() > 1 {
        let rest = tags.drop_last();
        assert(rest[0] == tags[0]);
        lemma_caption_trimmed(rest);
    } else {
        assert(tags.drop_last().len() == 0);
        assert(caption(tags) =~= tags[0]);
    }
    lemma_trimmed_fixpoint(caption(tags));
}

/// The text of a record with the given list of tags and no caption.
proof fn lemma_record_text(record: Json, tags: Seq<Seq<char>>)
    requires
        all_tags(tags),
        record_view(record) matches RecordView::Fields(fields) && fields.contains_key("tags"@)
            && fields["tags"@] == ValueView::Texts(tags) && !fields.contains_key("caption"@),
    ensures
        record_text(record) == if tags.len() == 0 {
            None
        } else {
            Some(caption(tags))
        },
{
    match record {
        Json::Record(fields) => {
            let view = fields@.map_values(|v: Json| value_view(v));
            assert(view.contains_key("tags"@) <==> fields@.contains_key("tags"@));
            assert(view["tags"@] == value_view(fields@["tags"@]));
            assert(view.contains_key("caption"@) <==> fields@.contains_key("caption"@));
            lemma_nonblank_tags(tags);
            if tags.len() > 0 {
                lemma_caption_trimmed(tags);
            } else {
                assert(joined(tags, glue()) =~= Seq::<char>::empty());
                lemma_trimmed_fixpoint(Seq::<char>::empty());
            }
        },
        _ => {},
    }
}

/// Tags that are exported to a new document are read back, for every image for
/// which no other key is better than its own.
pub proof fn law_export_reads_back(
    records: Map<Seq<char>, Json>,
    entries: Seq<(String, String)>,
    options: MetadataExportOptions,
    here: LocationView,
    i: int,
)
    requires
        distinct_keys(entries, entries.len() as int, options, here),
        document_view(records) == exported(Map::empty(), entries, options, here),
        options.mode == MetadataExportMode::Tags,
        0 <= i < entries.len(),
        is_best_key(
            records,
            here,
            entries[i].0@,
            export_key(here, options.key_mode, entries[i].0@)->0,
        ),
    ensures
        image_text(records, here, entries[i].0@) == if parsed(entries[i].1@).len() == 0 {
            None
        } else {
            Some(caption(parsed(entries[i].1@)))
        },
        image_text(records, here, entries[i].0@) matches Some(text) ==> parsed(text) == parsed(
            entries[i].1@,
        ),
{
    let key = export_key(here, options.key_mode, entries[i].0@)->0;
    let tags = parsed(entries[i].1@);
    law_export_writes(Map::empty(), entries, options, here, i);
    lemma_best_key(records, here, entries[i].0@, key);
    law_parsed_are_tags(entries[i].1@);
    assert(document_view(records)[key] == record_view(records[key]));
    reveal_strlit("tags");
    reveal_strlit("caption");
    assert("tags"@.len() != "caption"@.len());
    lemma_record_text(records[key], tags);
    law_caption_round_trip(tags);
}

/// The text of a record with the given caption and no tags.
proof fn lemma_record_caption(record: Json, text: Seq<char>)
    requires
        record_view(record) matches RecordView::Fields(fields) && fields.contains_key("caption"@)
            && fields["caption"@] == ValueView::Text(trimmed(text)) && !fields.contains_key(
            "tags"@,
        ),
    ensures
        record_text(record) == nonempty(text),
{
    match record {
        Json::Record(fields) => {
            let view = fields@.map_values(|v: Json| value_view(v));
            assert(view.contains_key("caption"@) <==> fields@.contains_key("caption"@));
            assert(view["caption"@] == value_view(fields@["caption"@]));
            assert(view.contains_key("tags"@) <==> fields@.contains_key("tags"@));
            lemma_trimmed_is_trimmed(text);
            lemma_trimmed_fixpoint(trimmed(text));
        },
        _ => {},
    }
}

/// Captions that are exported to a new document are read back without the white
/// space around them, for every image for which no other key is better than its
/// own.
pub proof fn law_caption_export_reads_back(
    records: Map<Seq<char>, Json>,
    entries: Seq<(String, String)>,
    options: MetadataExportOptions,
    here: LocationView,
    i: int,
)
    requires
        distinct_keys(entries, entries.len() as int, options, here),
        document_view(records) == exported(Map::empty(), entries, options, here),
        options.mode == MetadataExportMode::Caption,
        0 <= i < entries.len(),
        is_best_key(
            records,
            here,
            entries[i].0@,
            export_key(here, options.key_mode, entries[i].0@)->0,
        ),
    ensures
        image_text(records, here, entries[i].0@) == nonempty(entries[i].1@),
{
    let key = export_key(here, options.key_mode, entries[i].0@)->0;
    law_export_writes(Map::empty(), entries, options, here, i);
    lemma_best_key(records, here, entries[i].0@, key);
    assert(document_view(records)[key] == record_view(records[key]));
    reveal_strlit("tags");
    reveal_strlit("caption");
    assert("tags"@.len() != "caption"@.len());
    lemma_record_caption(records[key], entries[i].1@);
}

// ----- Absolute keys -------------------------------------------------------

proof fn lemma_without_end_slashes(path: Seq<char>)
    ensures
        without_end_slashes(path).len() <= path.len(),
        without_end_slashes(without_end_slashes(path)) == without_end_slashes(path),
        forall|i: int|
            0 <= i < without_end_slashes(path).len() ==> #[trigger] without_end_slashes(path)[i]
                == path[i],
    decreases path.len(),
{
    if path.len() > 1 && path.last() == '/' {
        lemma_without_end_slashes(path.drop_last());
    }
}

/// Slashes at the end and case are independent of each other.
pub proof fn lemma_plain_ends(path: Seq<char>)
    ensures
        ascii_lowered(without_end_slashes(path)) == without_end_slashes(ascii_lowered(path)),
    decreases path.len(),
{
    let lower = ascii_lowered(path);
    if path.len() > 1 {
        assert(lower.last() == ascii_lower(path.last()));
        assert(lower.last() == '/' <==> path.last() == '/');
        assert(lower.drop_last() =~= ascii_lowered(path.drop_last()));
        lemma_plain_ends(path.drop_last());
    }
}

/// Whether a path is the same from wherever it is seen: it is absolute or, on
/// Windows, has a drive.
pub open spec fn stands_alone(platform: Platform, path: Seq<char>) -> bool {
    is_absolute_on(platform, path) || (platform == Platform::Windows && has_drive(path))
}

proof fn lemma_absolute_again(here: LocationView, path: Seq<char>)
    requires
        stands_alone(here.platform, absolute_text(here, path)),
    ensures
        absolute_text(here, absolute_text(here, path)) == absolute_text(here, path),
{
    let whole = joined_on(here.platform, here.current_dir, path);
    let plain = without_end_slashes(forward(whole));
    let key = absolute_text(here, path);
    lemma_without_end_slashes(forward(whole));
    assert forall|i: int| 0 <= i < key.len() implies key[i] != '\\' by {
        assert(plain[i] == forward(whole)[i]);
        assert(plain[i] != '\\');
    }
    assert(forward(key) =~= key);
    if here.platform == Platform::Windows {
        lemma_plain_ends(plain);
        assert(without_end_slashes(key) == key);
        assert(ascii_lowered(key) =~= key);
    }
}

/// Tags that are exported under absolute paths to a new document are read back
/// for every image.
pub proof fn law_absolute_export_reads_back(
    records: Map<Seq<char>, Json>,
    entries: Seq<(String, String)>,
    options: MetadataExportOptions,
    here: LocationView,
    i: int,
)
    requires
        distinct_keys(entries, entries.len() as int, options, here),
        document_view(records) == exported(Map::empty(), entries, options, here),
        options.mode == MetadataExportMode::Tags,
        options.key_mode == MetadataKeyMode::AbsolutePath,
        0 <= i < entries.len(),
        forall|k: int|
            0 <= k < entries.len() ==> {
                let key = absolute_text(here, (#[trigger] entries[k]).0@);
                stands_alone(here.platform, key) && is_trimmed(key)
            },
    ensures
        image_text(records, here, entries[i].0@) == if parsed(entries[i].1@).len() == 0 {
            None
        } else {
            Some(caption(parsed(entries[i].1@)))
        },
{
    let image = entries[i].0@;
    let key = absolute_text(here, image);
    law_export_writes(Map::empty(), entries, options, here, i);
    assert(document_view(records).contains_key(key));
    lemma_trimmed_fixpoint(key);
    lemma_absolute_again(here, image);
    assert(same_ignoring_case(key, key));
    assert(match_score(here, key, image) == Some(100nat));
    assert forall|other: Seq<char>| #[trigger]
        records.contains_key(other) && match_score(here, other, image) is Some implies {
        ||| match_score(here, other, image)->0 < match_score(here, key, image)->0
        ||| match_score(here, other, image)->0 == match_score(here, key, image)->0 && (other == key
            || text_before(key, other))
    } by {
        assert(document_view(records).contains_key(other));
        if !key_among(entries, entries.len() as int, options, here, other) {
            law_export_keeps(Map::empty(), entries, options, here, other, Seq::empty());
        }
        let k = choose|k: int|
            0 <= k < entries.len() && export_key(here, options.key_mode, (#[trigger] entries[k]).0@)
                == Some(other);
        lemma_trimmed_fixpoint(other);
        lemma_absolute_again(here, entries[k].0@);
        if same_on(here.platform, other, key) && here.platform == Platform::Windows {
            lemma_lowered_absolute(here, image);
            lemma_lowered_absolute(here, entries[k].0@);
        }
    }
    assert(is_best_key(records, here, image, key));
    law_export_reads_back(records, entries, options, here, i);
}

proof fn lemma_lowered_absolute(here: LocationView, path: Seq<char>)
    requires
        here.platform == Platform::Windows,
    ensures
        ascii_lowered(absolute_text(here, path)) == absolute_text(here, path),
{
    assert(ascii_lowered(absolute_text(here, path)) =~= absolute_text(here, path));
}

} // verus!
