//! What is saved, loaded, named and chosen among files.

use vstd::prelude::*;
use vstd::utf8::{decode_utf8, valid_utf8};

use crate::dataset::Dataset;
use crate::download::{are_plausible_labels, is_plausible_model, part_of};
use crate::editor::{EditorView, StatusView};
use crate::file_ops::{
    all_chosen, backup_path, backup_suffix, chosen_files, file_error_text, found_backups, has_path,
    is_move_plan, is_selection, law_files_are_named_once, movable, target_among, target_of,
    unique_paths, Destination, FileChoice, FileError, FileGroup, GroupProbe, Move, MoveAction,
    MoveRun, CAPTION_BACKUP_COUNT,
};
use crate::item::ItemView;
use crate::path_laws::{
    in_directory, is_name, law_extensions_are_exchanged, law_images_by_extension,
};
use crate::paths::{canonical, extended, joined_path, name_of};
use crate::session::{is_loaded, with_data};
use crate::storage::{
    all_saved, caption_suffix, found_views, in_load_order, is_load_result, is_unreadable, loaded,
    name_tags, spaced, unsaved_captions, without_dots, DatasetError, FoundFile, FoundView, SaveView,
};
use crate::tagger::{csv_header, csv_rows, is_label_row};
use crate::tagger_laws::is_good_row;
use crate::tags::{caption, lemma_contains_push, parsed};
use crate::text::{digit, finishes_with, texts, trimmed};
use crate::text_laws::number_of;
use crate::thumbnails::{latest, Thumbnail, Thumbnails};

verus! {

// ----- Saving --------------------------------------------------------------

/// A save writes the items whose tags are others than those last saved, in
/// their order, each with its caption, to its own file, and no other item.
pub proof fn law_unsaved_items_are_written(items: Seq<ItemView>, backup: bool)
    ensures
        unsaved_captions(items, backup) == items.filter(
            |item: ItemView| item.tags != item.original,
        ).map_values(
            |item: ItemView|
                SaveView {
                    tag_path: item.tag_path,
                    image_path: item.image_path,
                    text: caption(item.tags),
                    backup,
                },
        ),
    decreases items.len(),
{
    reveal(Seq::filter);
    let keep = |item: ItemView| item.tags != item.original;
    let task = |item: ItemView|
        SaveView {
            tag_path: item.tag_path,
            image_path: item.image_path,
            text: caption(item.tags),
            backup,
        };
    if items.len() > 0 {
        let less = items.drop_last();
        law_unsaved_items_are_written(less, backup);
        if keep(items.last()) {
            assert(items.filter(keep) =~= less.filter(keep).push(items.last()));
            assert(items.filter(keep).map_values(task) =~= less.filter(keep).map_values(task).push(
                task(items.last()),
            ));
        }
    } else {
        assert(unsaved_captions(items, backup) =~= items.filter(keep).map_values(task));
    }
}

/// After a save the tags of every item are those last saved, and nothing else
/// of it has changed.
pub proof fn law_saved_items(items: Seq<ItemView>, i: int)
    requires
        0 <= i < items.len(),
    ensures
        all_saved(items).len() == items.len(),
        all_saved(items)[i].original == items[i].tags,
        all_saved(items)[i].tags == items[i].tags,
        all_saved(items)[i].image_path == items[i].image_path,
        all_saved(items)[i].tag_path == items[i].tag_path,
        all_saved(items)[i].selected == items[i].selected,
{
}

// ----- Loading -------------------------------------------------------------

/// Each image that is loaded is an item. Its tags are those that its caption
/// file lists, and count as saved; without a caption file they are what its name
/// says, where that is asked, and count as not saved; it is not checked.
pub proof fn law_loaded_items(
    root: Seq<char>,
    found: Seq<FoundView>,
    suffix: Seq<char>,
    fallback: bool,
    i: int,
)
    requires
        0 <= i < in_load_order(found).len(),
    ensures
        ({
            let file = in_load_order(found)[i];
            let data = loaded(root, found, suffix, fallback);
            let item = data.items[i];
            &&& data.root == root
            &&& data.items.len() == in_load_order(found).len()
            &&& data.undo.len() == 0 && data.redo.len() == 0
            &&& item.image_path == file.path
            &&& item.tag_path == extended(file.path, suffix)
            &&& !item.selected
            &&& match file.caption {
                Some(bytes) => item.tags == parsed(decode_utf8(bytes)) && item.original
                    == item.tags,
                None => item.original.len() == 0 && (if fallback {
                    item.tags == name_tags(file.path)
                } else {
                    item.tags.len() == 0
                }),
            }
        }),
{
}

/// The extension of caption files is what the setting says, without white space
/// around it and without the dots in front.
pub proof fn law_caption_extension(setting: Seq<char>) -> (dots: int)
    ensures
        0 <= dots <= trimmed(setting).len(),
        forall|i: int| 0 <= i < dots ==> #[trigger] trimmed(setting)[i] == '.',
        caption_suffix(setting) == trimmed(setting).skip(dots),
        caption_suffix(setting).len() > 0 ==> caption_suffix(setting)[0] != '.',
{
    lemma_dots(trimmed(setting))
}

proof fn lemma_dots(text: Seq<char>) -> (dots: int)
    ensures
        0 <= dots <= text.len(),
        forall|i: int| 0 <= i < dots ==> #[trigger] text[i] == '.',
        without_dots(text) == text.skip(dots),
        without_dots(text).len() > 0 ==> without_dots(text)[0] != '.',
    decreases text.len(),
{
    if text.len() > 0 && text[0] == '.' {
        let rest = text.drop_first();
        let dots = lemma_dots(rest);
        assert forall|i: int| 0 <= i < dots + 1 implies #[trigger] text[i] == '.' by {
            if i > 0 {
                assert(rest[i - 1] == '.');
            }
        }
        assert(rest.skip(dots) =~= text.skip(dots + 1));
        dots + 1
    } else {
        assert(text.skip(0) =~= text);
        0
    }
}

// ----- Backups -------------------------------------------------------------

/// The number of a backup is written with three digits that stand for it.
pub proof fn law_backups_are_numbered(number: nat)
    requires
        number < 1000,
    ensures
        backup_suffix(number).len() == 3,
        number_of(backup_suffix(number)) == number,
{
    let all = backup_suffix(number);
    let two = all.drop_last();
    let one = two.drop_last();
    assert(one.drop_last() =~= Seq::<char>::empty());
    assert(one.last() == digit(number / 100));
    assert(two.last() == digit(number / 10 % 10));
    assert(number_of(one.drop_last()) == 0);
    assert(number_of(one) == number / 100);
    assert(number_of(two) == 10 * (number / 100) + number / 10 % 10);
}

/// The backups that are found are those with a number that stands for a regular
/// file, in the order of the numbers.
pub proof fn law_backups_are_found_by_number(
    tag_path: Seq<char>,
    regular: Seq<bool>,
    count: nat,
) -> (numbers: Seq<nat>)
    ensures
        found_backups(tag_path, regular, count).len() == numbers.len(),
        forall|k: int|
            0 <= k < numbers.len() ==> #[trigger] found_backups(tag_path, regular, count)[k]
                == backup_path(tag_path, numbers[k]),
        forall|a: int, b: int|
            0 <= a < b < numbers.len() ==> #[trigger] numbers[a] < #[trigger] numbers[b],
        forall|number: nat| #[trigger]
            numbers.contains(number) <==> number < count && number < regular.len()
                && regular[number as int],
    decreases count,
{
    if count == 0 {
        Seq::<nat>::empty()
    } else {
        let last = (count - 1) as nat;
        let rest = law_backups_are_found_by_number(tag_path, regular, last);
        if last < regular.len() && regular[last as int] {
            let numbers = rest.push(last);
            assert forall|number: nat| #[trigger] numbers.contains(number) <==> number < count
                && number < regular.len() && regular[number as int] by {
                lemma_contains_push(rest, last, number);
                assert(rest.contains(number) <==> number < last && number < regular.len()
                    && regular[number as int]);
            }
            assert forall|a: int, b: int| 0 <= a < b < numbers.len() implies #[trigger] numbers[a]
                < #[trigger] numbers[b] by {
                assert(rest.contains(rest[a]));
            }
            numbers
        } else {
            assert forall|number: nat| #[trigger] rest.contains(number) <==> number < count
                && number < regular.len() && regular[number as int] by {
                assert(rest.contains(number) <==> number < last && number < regular.len()
                    && regular[number as int]);
            }
            rest
        }
    }
}

// ----- Choosing and moving -------------------------------------------------

/// The files of one item that are chosen are those of the kinds that are asked
/// for, where they exist: the image, the caption file, and the backups.
pub proof fn law_chosen_files(
    group: FileGroup,
    probe: GroupProbe,
    choice: FileChoice,
    path: Seq<char>,
)
    ensures
        chosen_files(group, probe, choice).contains(path) <==> {
            ||| choice.image && probe.image && path == group.image_path@
            ||| choice.caption && probe.caption && path == group.tag_path@
            ||| choice.backups && exists|number: nat|
                number < CAPTION_BACKUP_COUNT && number < probe.backups@.len()
                    && probe.backups@[number as int] && path == #[trigger] backup_path(
                    group.tag_path@,
                    number,
                )
        },
{
    let count = CAPTION_BACKUP_COUNT as nat;
    let all = chosen_files(group, probe, choice);
    let image = if choice.image && probe.image {
        seq![group.image_path@]
    } else {
        Seq::<Seq<char>>::empty()
    };
    let text = if choice.caption && probe.caption {
        seq![group.tag_path@]
    } else {
        Seq::<Seq<char>>::empty()
    };
    let found = found_backups(group.tag_path@, probe.backups@, count);
    let numbers = law_backups_are_found_by_number(group.tag_path@, probe.backups@, count);
    if all.contains(path) {
        let k = choose|k: int| 0 <= k < all.len() && all[k] == path;
        let n = image.len() + text.len();
        if k >= n {
            assert(all[k] == found[k - n]);
            assert(numbers.contains(numbers[k - n]));
            assert(path == backup_path(group.tag_path@, numbers[k - n]));
        }
    }
    if choice.image && probe.image && path == group.image_path@ {
        assert(all[0] == path);
    }
    if choice.caption && probe.caption && path == group.tag_path@ {
        assert(all[image.len() as int] == path);
    }
    if choice.backups && exists|number: nat|
        number < count && number < probe.backups@.len() && probe.backups@[number as int] && path
            == #[trigger] backup_path(group.tag_path@, number) {
        let number = choose|number: nat|
            number < count && number < probe.backups@.len() && probe.backups@[number as int] && path
                == #[trigger] backup_path(group.tag_path@, number);
        assert(numbers.contains(number));
        let k = choose|k: int| 0 <= k < numbers.len() && numbers[k] == number;
        assert(found[k] == path);
        assert(all[image.len() + text.len() + k] == path);
    }
}

/// The files of several items are those of each in turn.
pub proof fn law_files_of_each_item(
    groups: Seq<FileGroup>,
    probes: Seq<GroupProbe>,
    choice: FileChoice,
)
    ensures
        all_chosen(groups, probes, choice) == Seq::new(
            groups.len(),
            |i: int| chosen_files(groups[i], probes[i], choice),
        ).flatten(),
    decreases groups.len(),
{
    let parts = Seq::new(groups.len(), |i: int| chosen_files(groups[i], probes[i], choice));
    if groups.len() > 0 {
        let less = groups.drop_last();
        law_files_of_each_item(less, probes, choice);
        let fewer = Seq::new(less.len(), |i: int| chosen_files(less[i], probes[i], choice));
        let last = chosen_files(groups.last(), probes[groups.len() - 1], choice);
        assert(parts =~= fewer.push(last));
        fewer.lemma_flatten_push(last);
    } else {
        assert(parts.flatten() =~= Seq::<Seq<char>>::empty());
    }
}

/// A path that comes up again is left out, and the first that names a file
/// stays: what is left of a list of paths begins with what is left of each of its
/// beginnings.
pub proof fn law_first_path_stays(paths: Seq<Seq<char>>, n: int)
    requires
        0 <= n <= paths.len(),
    ensures
        unique_paths(paths.take(n)).len() <= unique_paths(paths).len(),
        unique_paths(paths).take(unique_paths(paths.take(n)).len() as int) == unique_paths(
            paths.take(n),
        ),
    decreases paths.len(),
{
    let all = unique_paths(paths);
    let first = unique_paths(paths.take(n));
    if n == paths.len() {
        assert(paths.take(n) =~= paths);
        assert(all.take(all.len() as int) =~= all);
    } else {
        let less = paths.drop_last();
        law_first_path_stays(less, n);
        assert(less.take(n) =~= paths.take(n));
        assert(all.take(first.len() as int) =~= unique_paths(less).take(first.len() as int));
    }
}

/// A file that is moved keeps its name, under the destination.
pub proof fn law_moved_files_keep_their_name(source: Seq<char>, destination: Seq<char>)
    ensures
        target_of(source, destination) is Some <==> name_of(source) is Some,
        name_of(source) matches Some(name) ==> target_of(source, destination) == Some(
            joined_path(destination, name),
        ),
{
}

// ----- When loading fails --------------------------------------------------

/// A dataset is loaded if and only if the extension of caption files is one, and
/// every caption file that was found holds text. Otherwise the extension is told,
/// or the first caption file that holds none.
pub proof fn law_when_loading_fails(
    result: Result<Dataset, DatasetError>,
    root: Seq<char>,
    found: Seq<FoundView>,
    setting: Seq<char>,
    fallback: bool,
)
    requires
        is_load_result(result, root, found, setting, fallback),
    ensures
        ({
            let suffix = caption_suffix(setting);
            let files = in_load_order(found);
            let named = suffix.len() > 0 && forall|k: int|
                0 <= k < suffix.len() ==> #[trigger] suffix[k] != '/' && suffix[k] != '\\'
                    && suffix[k] != ':';
            let readable = |file: FoundView|
                file.caption matches Some(bytes) ==> valid_utf8(bytes);
            &&& result is Ok <==> named && forall|i: int|
                0 <= i < files.len() ==> readable(#[trigger] files[i])
            &&& (result matches Err(DatasetError::InvalidExtension(_))) <==> !named
            &&& forall|i: int|
                named && 0 <= i < files.len() && !readable(#[trigger] files[i]) && (forall|k: int|
                    0 <= k < i ==> readable(#[trigger] files[k])) ==> {
                    &&& result matches Err(DatasetError::NotText(path))
                    &&& path@ == extended(files[i].path, suffix)
                }
        }),
{
    let suffix = caption_suffix(setting);
    let files = in_load_order(found);
    let readable = |file: FoundView| file.caption matches Some(bytes) ==> valid_utf8(bytes);
    assert forall|i: int| 0 <= i < files.len() implies (is_unreadable(#[trigger] files[i])
        <==> !readable(files[i])) by {}
    match result {
        Err(DatasetError::NotText(path)) => {
            let at = choose|at: int|
                {
                    &&& 0 <= at < files.len()
                    &&& is_unreadable(#[trigger] files[at])
                    &&& path@ == extended(files[at].path, suffix)
                    &&& forall|k: int| 0 <= k < at ==> !is_unreadable(#[trigger] files[k])
                };
            assert(!readable(files[at]));
            assert forall|i: int|
                0 <= i < files.len() && !readable(#[trigger] files[i]) && (forall|k: int|
                    0 <= k < i ==> readable(#[trigger] files[k])) implies i == at by {
                if at < i {
                    assert(readable(files[at]));
                } else if i < at {
                    assert(!is_unreadable(files[i]));
                }
            }
        },
        _ => {},
    }
}

/// A backup stands beside its caption file, with the number in place of the
/// extension, so that backups with different numbers differ.
pub proof fn law_backups_stand_beside_captions(
    directory: Seq<char>,
    stem: Seq<char>,
    extension: Seq<char>,
    a: nat,
    b: nat,
)
    requires
        stem.len() > 0,
        is_name(stem.push('.') + extension),
        forall|i: int| 0 <= i < extension.len() ==> #[trigger] extension[i] != '.',
        a < 1000,
        b < 1000,
    ensures
        backup_path(in_directory(directory, stem.push('.') + extension), a) == in_directory(
            directory,
            stem.push('.') + backup_suffix(a),
        ),
        a != b ==> backup_path(in_directory(directory, stem.push('.') + extension), a)
            != backup_path(in_directory(directory, stem.push('.') + extension), b),
{
    law_extensions_are_exchanged(directory, stem, extension, backup_suffix(a));
    law_extensions_are_exchanged(directory, stem, extension, backup_suffix(b));
    law_backups_are_numbered(a);
    law_backups_are_numbered(b);
    let p = in_directory(directory, stem.push('.') + backup_suffix(a));
    let q = in_directory(directory, stem.push('.') + backup_suffix(b));
    let n = directory.len() as int + 1 + stem.len() + 1;
    assert(p.skip(n) =~= backup_suffix(a));
    assert(q.skip(n) =~= backup_suffix(b));
}

/// A download is kept beside its target until it is whole, under a name that is
/// never that of the target.
pub proof fn law_parts_stand_beside_targets(
    directory: Seq<char>,
    stem: Seq<char>,
    extension: Seq<char>,
)
    requires
        stem.len() > 0,
        is_name(stem.push('.') + extension),
        extension.len() > 0,
        forall|i: int| 0 <= i < extension.len() ==> #[trigger] extension[i] != '.',
    ensures
        part_of(in_directory(directory, stem.push('.') + extension)) == in_directory(
            directory,
            stem.push('.') + (extension + ".part"@),
        ),
        part_of(in_directory(directory, stem.push('.') + extension)) != in_directory(
            directory,
            stem.push('.') + extension,
        ),
{
    reveal_strlit(".part");
    law_images_by_extension(directory, stem, extension);
    law_extensions_are_exchanged(directory, stem, extension, extension + ".part"@);
    assert(in_directory(directory, stem.push('.') + (extension + ".part"@)).len() == in_directory(
        directory,
        stem.push('.') + extension,
    ).len() + 5);
}

/// A file that is there is used where it is as large as it has to be, and labels
/// only where they can be read as well.
pub proof fn law_plausible_files(length: Option<u64>, bytes: Option<Seq<u8>>)
    ensures
        is_plausible_model(length) <==> (length matches Some(length) && length >= 1_000_000),
        are_plausible_labels(bytes) ==> (bytes matches Some(bytes) && bytes.len() >= 1_000),
        are_plausible_labels(bytes) ==> csv_rows(bytes->0).len() > 0 && forall|i: int|
            0 <= i < csv_rows(bytes->0).len() ==> is_good_row(#[trigger] csv_rows(bytes->0)[i]),
        ({
            let rows = csv_rows(bytes->0);
            &&& bytes is Some && bytes->0.len() >= 1_000
            &&& csv_header(bytes->0) matches Some(names) && names.len() >= 3 && names[0]
                == "tag_id"@ && names[1] == "name"@ && names[2] == "category"@
            &&& rows.len() > 0
            &&& forall|i: int| 0 <= i < rows.len() ==> is_good_row(#[trigger] rows[i])
        }) ==> are_plausible_labels(bytes),
{
    if bytes is Some {
        let rows = csv_rows(bytes->0);
        assert forall|i: int| 0 <= i < rows.len() implies (is_label_row(#[trigger] rows[i])
            <==> is_good_row(rows[i])) by {}
        if are_plausible_labels(bytes) {
            assert forall|i: int| 0 <= i < rows.len() implies is_good_row(#[trigger] rows[i]) by {
                assert(is_label_row(rows[i]));
            }
        }
        if forall|i: int| 0 <= i < rows.len() ==> is_good_row(#[trigger] rows[i]) {
            assert forall|i: int| 0 <= i < rows.len() implies is_label_row(#[trigger] rows[i]) by {
                assert(is_good_row(rows[i]));
            }
        }
    }
}

/// Of a list of thumbnails the last ones are kept, in their order.
pub proof fn law_latest_thumbnails(list: Seq<Seq<char>>, count: nat, i: int)
    requires
        0 <= i < latest(list, count).len(),
    ensures
        latest(list, count).len() == if list.len() < count {
            list.len()
        } else {
            count
        },
        latest(list, count)[i] == list[list.len() - latest(list, count).len() + i],
{
}

/// What the name of a file says is its stem, with spaces for underscores and
/// without the white space around it, as one tag; a stem that is blank says
/// nothing.
pub proof fn law_names_as_tags(directory: Seq<char>, stem: Seq<char>, extension: Seq<char>)
    requires
        stem.len() > 0,
        is_name(stem.push('.') + extension),
        forall|i: int| 0 <= i < extension.len() ==> #[trigger] extension[i] != '.',
    ensures
        ({
            let tags = name_tags(in_directory(directory, stem.push('.') + extension));
            let words = Seq::new(
                stem.len(),
                |i: int|
                    if stem[i] == '_' {
                        ' '
                    } else {
                        stem[i]
                    },
            );
            tags == if trimmed(words).len() == 0 {
                Seq::<Seq<char>>::empty()
            } else {
                seq![trimmed(words)]
            }
        }),
{
    law_images_by_extension(directory, stem, extension);
    let words = Seq::new(
        stem.len(),
        |i: int|
            if stem[i] == '_' {
                ' '
            } else {
                stem[i]
            },
    );
    assert(spaced(stem) =~= words);
}

/// Files are moved one after the other until all are; after a failure those that
/// were moved are moved back, the last one first.
pub proof fn law_moves_go_on(done: usize, left: usize, stuck: Vec<usize>, count: nat)
    ensures
        (MoveRun::Moving { done }).action(count) == if done < count {
            MoveAction::Move(done)
        } else {
            MoveAction::Finished
        },
        left > 0 ==> (MoveRun::TakingBack { left, stuck }).action(count) == MoveAction::MoveBack(
            (left - 1) as usize,
        ),
        left == 0 ==> ((MoveRun::TakingBack { left, stuck }).action(count) == MoveAction::Restored
            <==> stuck@.len() == 0),
        left == 0 ==> ((MoveRun::TakingBack { left, stuck }).action(count)
            == MoveAction::NotRestored <==> stuck@.len() > 0),
{
}

/// A dataset that can be loaded takes the place of the one that was open, and is
/// shown from its first item; one that cannot leaves everything as it is but for
/// the status, which tells of the failure.
pub proof fn law_opened_or_told(
    before: EditorView,
    after: EditorView,
    root: Seq<char>,
    found: Seq<FoundFile>,
    status: StatusView,
)
    requires
        is_loaded(before, after, root, found, status),
    ensures
        ({
            let suffix = caption_suffix(before.settings.caption_extension);
            let fallback = before.settings.filename_fallback;
            let files = in_load_order(found_views(found));
            let named = suffix.len() > 0 && forall|k: int|
                0 <= k < suffix.len() ==> #[trigger] suffix[k] != '/' && suffix[k] != '\\'
                    && suffix[k] != ':';
            let readable = |file: FoundView|
                file.caption matches Some(bytes) ==> valid_utf8(bytes);
            if named && forall|i: int| 0 <= i < files.len() ==> readable(#[trigger] files[i]) {
                &&& after.data == Some(loaded(root, found_views(found), suffix, fallback))
                &&& after.status == status
                &&& files.len() > 0 ==> after.current == Some(0usize)
                &&& files.len() == 0 ==> after.current is None
                &&& after.loaded_extension == before.settings.caption_extension
            } else {
                &&& after.status is Failure
                &&& after == (EditorView { status: after.status, ..before })
            }
        }),
{
    let settings = before.settings;
    let result = choose|result: Result<Dataset, DatasetError>|
        {
            &&& #[trigger] is_load_result(
                result,
                root,
                found_views(found),
                settings.caption_extension,
                settings.filename_fallback,
            )
            &&& match result {
                Ok(data) => after == (EditorView { status, ..with_data(before, data@) }),
                Err(error) => after == (EditorView {
                    status: StatusView::Failure(error.text()),
                    ..before
                }),
            }
        };
    law_when_loading_fails(
        result,
        root,
        found_views(found),
        settings.caption_extension,
        settings.filename_fallback,
    );
}

/// What a failure with files says ends with the path that it is about.
pub proof fn law_file_errors_name_their_path(path: String)
    ensures
        finishes_with(file_error_text(FileError::NoCaptionName(path)), path@),
        finishes_with(file_error_text(FileError::NoFileName(path)), path@),
        finishes_with(file_error_text(FileError::SameDestination(path)), path@),
        finishes_with(file_error_text(FileError::DestinationExists(path)), path@),
        finishes_with(file_error_text(FileError::NotDirectory(path)), path@),
{
    lemma_ends_with("caption path has no file name: "@, path@);
    lemma_ends_with("source path has no file name: "@, path@);
    lemma_ends_with("multiple selected files have the same destination: "@, path@);
    lemma_ends_with("destination file already exists: "@, path@);
    lemma_ends_with("destination is not a directory: "@, path@);
}

proof fn lemma_ends_with(front: Seq<char>, end: Seq<char>)
    ensures
        finishes_with(front + end, end),
{
    let all = front + end;
    assert(all.subrange(all.len() - end.len(), all.len() as int) =~= end);
}

proof fn lemma_all_chosen(
    groups: Seq<FileGroup>,
    probes: Seq<GroupProbe>,
    choice: FileChoice,
    path: Seq<char>,
)
    ensures
        all_chosen(groups, probes, choice).contains(path) <==> exists|i: int|
            0 <= i < groups.len() && chosen_files(#[trigger] groups[i], probes[i], choice).contains(
                path,
            ),
    decreases groups.len(),
{
    let all = all_chosen(groups, probes, choice);
    if groups.len() > 0 {
        let less = groups.drop_last();
        let n = groups.len() - 1;
        let rest = all_chosen(less, probes, choice);
        let here = chosen_files(groups[n], probes[n], choice);
        lemma_all_chosen(less, probes, choice, path);
        if all.contains(path) {
            let k = choose|k: int| 0 <= k < all.len() && all[k] == path;
            if k < rest.len() {
                assert(rest[k] == path);
                assert(rest.contains(path));
                let i = choose|i: int|
                    0 <= i < less.len() && chosen_files(
                        #[trigger] less[i],
                        probes[i],
                        choice,
                    ).contains(path);
                assert(groups[i] == less[i]);
            } else {
                assert(here[k - rest.len()] == path);
                assert(here.contains(path));
            }
        }
        if exists|i: int|
            0 <= i < groups.len() && chosen_files(
                #[trigger] groups[i],
                probes[i],
                choice,
            ).contains(path) {
            let i = choose|i: int|
                0 <= i < groups.len() && chosen_files(
                    #[trigger] groups[i],
                    probes[i],
                    choice,
                ).contains(path);
            if i < n {
                assert(less[i] == groups[i]);
                assert(rest.contains(path));
                let k = choose|k: int| 0 <= k < rest.len() && rest[k] == path;
                assert(all[k] == path);
            } else {
                let k = choose|k: int| 0 <= k < here.len() && here[k] == path;
                assert(all[rest.len() + k] == path);
            }
        }
    } else {
        assert(!all.contains(path));
    }
}

/// The files of several items can be listed if and only if the backups are not
/// asked for or every caption file has a name. Every file that is listed is one
/// that is chosen of some item, every file that is chosen is listed, and none is
/// listed twice, whatever the spelling of its path.
pub proof fn law_what_is_listed(
    result: Result<Vec<String>, FileError>,
    groups: Seq<FileGroup>,
    probes: Seq<GroupProbe>,
    choice: FileChoice,
    i: int,
    path: Seq<char>,
)
    requires
        is_selection(result, groups, probes, choice),
        0 <= i < groups.len(),
    ensures
        result is Ok <==> (choice.backups ==> forall|k: int|
            0 <= k < groups.len() ==> name_of((#[trigger] groups[k]).tag_path@) is Some),
        result matches Ok(files) ==> {
            &&& texts(files@).contains(path) ==> exists|k: int|
                0 <= k < groups.len() && chosen_files(
                    #[trigger] groups[k],
                    probes[k],
                    choice,
                ).contains(path)
            &&& chosen_files(groups[i], probes[i], choice).contains(path) ==> exists|k: int|
                0 <= k < files@.len() && canonical(#[trigger] texts(files@)[k]) == canonical(path)
            &&& forall|a: int, b: int|
                0 <= a < b < files@.len() ==> canonical(#[trigger] texts(files@)[a]) != canonical(
                    #[trigger] texts(files@)[b],
                )
        },
{
    match result {
        Ok(files) => {
            let all = all_chosen(groups, probes, choice);
            let listed = texts(files@);
            law_files_are_named_once(all);
            lemma_all_chosen(groups, probes, choice, path);
            if listed.contains(path) {
                let k = choose|k: int| 0 <= k < listed.len() && listed[k] == path;
                assert(all.contains(unique_paths(all)[k]));
            }
            if chosen_files(groups[i], probes[i], choice).contains(path) {
                assert(all.contains(path));
                let k = choose|k: int| 0 <= k < all.len() && all[k] == path;
                assert(has_path(unique_paths(all), all[k]));
                let j = choose|j: int|
                    0 <= j < listed.len() && canonical(#[trigger] listed[j]) == canonical(path);
                assert(canonical(texts(files@)[j]) == canonical(path));
            }
        },
        Err(_) => {},
    }
}

/// Files can be moved if and only if there are none, or there is a place for
/// them: nothing but a directory at the destination, a name for each, nothing where
/// it is to go, and no two that are to go to the same place. Each then goes under
/// its name to the destination.
pub proof fn law_what_is_moved(
    result: Result<Vec<Move>, FileError>,
    sources: Seq<Seq<char>>,
    destination: Seq<char>,
    at: Destination,
    occupied: Seq<bool>,
)
    requires
        is_move_plan(result, sources, destination, at, occupied),
    ensures
        result is Ok <==> {
            &&& sources.len() == 0 || at != Destination::Other
            &&& forall|i: int|
                0 <= i < sources.len() ==> name_of(#[trigger] sources[i]) is Some && !(i
                    < occupied.len() && occupied[i])
            &&& forall|i: int, j: int|
                0 <= i < j < sources.len() ==> canonical(
                    joined_path(destination, name_of(#[trigger] sources[i])->0),
                ) != canonical(joined_path(destination, name_of(#[trigger] sources[j])->0))
        },
        result matches Ok(plan) ==> {
            &&& plan@.len() == sources.len()
            &&& forall|i: int|
                0 <= i < sources.len() ==> (#[trigger] plan@[i]).source@ == sources[i]
                    && plan@[i].target@ == joined_path(destination, name_of(sources[i])->0)
        },
{
    match result {
        Ok(plan) => {
            assert(movable(sources, destination, occupied, sources.len() as int));
            assert forall|i: int| 0 <= i < sources.len() implies name_of(#[trigger] sources[i]) is Some
                && !(i < occupied.len() && occupied[i]) by {
                assert(target_of(sources[i], destination) is Some);
            }
            assert forall|i: int, j: int| 0 <= i < j < sources.len() implies canonical(
                joined_path(destination, name_of(#[trigger] sources[i])->0),
            ) != canonical(joined_path(destination, name_of(#[trigger] sources[j])->0)) by {
                assert(canonical(target_of(sources[i], destination)->0) != canonical(
                    target_of(sources[j], destination)->0,
                ));
            }
        },
        Err(FileError::SameDestination(path)) => {
            let i = choose|i: int|
                {
                    &&& 0 <= i < sources.len()
                    &&& movable(sources, destination, occupied, i)
                    &&& target_of(#[trigger] sources[i], destination) == Some(path@)
                    &&& target_among(sources, destination, i, path@)
                };
            let j = choose|j: int|
                0 <= j < i && canonical(target_of(#[trigger] sources[j], destination)->0)
                    == canonical(path@);
            assert(name_of(sources[i]) is Some && target_of(sources[j], destination) is Some);
            assert(canonical(joined_path(destination, name_of(sources[j])->0)) == canonical(
                joined_path(destination, name_of(sources[i])->0),
            ));
        },
        Err(FileError::NoFileName(path)) => {},
        Err(FileError::DestinationExists(path)) => {},
        Err(_) => {},
    }
}

/// What is known of the thumbnail of an image is the same for every spelling of
/// its path: it is kept, or else the image is known not to be readable, or else it
/// has to be read.
pub proof fn law_thumbnails_are_known_by_file(
    thumbnails: Thumbnails,
    a: Seq<char>,
    b: Seq<char>,
)
    requires
        canonical(a) == canonical(b),
    ensures
        thumbnails.state(a) == thumbnails.state(b),
        thumbnails.state(a) == Thumbnail::Kept <==> texts(thumbnails.kept@).contains(canonical(a)),
        thumbnails.state(a) == Thumbnail::Missing <==> !texts(thumbnails.kept@).contains(
            canonical(a),
        ) && !thumbnails.broken@.contains(canonical(a)),
{
}

} // verus!
