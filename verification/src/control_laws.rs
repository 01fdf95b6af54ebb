//! What the text field, the keys, the grid and the background work do.

use vstd::prelude::*;

use crate::actions::{
    deletable, exported, files_done, follows, groups_at, image_paths, tagging_started,
};
use crate::dataset::{redone, undone, DatasetView};
use crate::dataset_laws::{law_edit_of_one_item, law_marks_are_for_what_is_meant, same_but_checked};
use crate::editor::{
    items_of, status_text, target_places, visible_places, EditorView, GroupView, QuestionsView,
    StatusView, WorkerEvent,
};
use crate::editor_laws::{is_shown, lemma_visible};
use crate::grid::{rows_of, tag_clicked, visible_marked, Modifiers};
use crate::item::ItemView;
use crate::session::{
    after_keys, committed, exit_agreed, extension_changed, open_answered, synced, told_busy,
    with_data, written_to, EditKeys,
};
use crate::storage::caption_suffix;
use crate::tags::{caption, parsed};
use crate::text::{begins_with, decimal, finishes_with, is_trimmed, lemma_trimmed_fixpoint};
use crate::text_laws::law_decimal_stands_for_its_number;

verus! {

// ----- The text field ------------------------------------------------------

/// Whether nothing but the dataset differs between two states of the editor.
pub open spec fn same_but_data(a: EditorView, b: EditorView) -> bool {
    a == (EditorView { data: a.data, ..b })
}

/// The text of the text field is written to the item that it was filled in for:
/// that item has the tags that the text lists, and everything else stays. Where
/// the field is for no item, nothing is written.
pub proof fn law_text_is_written_to_its_item(editor: EditorView, data: DatasetView, i: int)
    requires
        editor.data == Some(data),
        data.items.len() <= usize::MAX,
        0 <= i < data.items.len(),
    ensures
        same_but_data(committed(editor), editor),
        items_of(committed(editor)).len() == data.items.len(),
        items_of(committed(editor))[i] == if editor.caption_for == Some(i as usize) {
            ItemView { tags: parsed(editor.caption), ..data.items[i] }
        } else {
            data.items[i]
        },
        editor.caption_for is None ==> committed(editor) == editor,
{
    match editor.caption_for {
        Some(k) => {
            if k < data.items.len() {
                law_edit_of_one_item(data, k as int, parsed(editor.caption), i);
            }
        },
        None => {},
    }
}

/// The text field is filled in where another item became the current one, with
/// the caption of that item; a text that was typed for the current one is kept.
pub proof fn law_text_field_follows_the_item(editor: EditorView, i: usize)
    requires
        i < items_of(editor).len(),
        editor.current == Some(i),
    ensures
        synced(editor).caption_for == Some(i),
        synced(editor).caption == if editor.caption_for == Some(i) {
            editor.caption
        } else {
            caption(items_of(editor)[i as int].tags)
        },
        synced(editor).data == editor.data,
        synced(editor).current == editor.current,
        synced(editor).filters == editor.filters,
        synced(editor).form == editor.form,
        synced(editor).status == editor.status,
{
}

// ----- Keys ----------------------------------------------------------------

/// Each key does its own work and nothing else: going back, going forth, giving
/// the current item a check mark, and taking it away. No key does nothing.
pub proof fn law_each_key_does_its_work(editor: EditorView, data: DatasetView, i: int)
    requires
        editor.data == Some(data),
        data.items.len() <= usize::MAX,
        0 <= i < data.items.len(),
    ensures
        ({
            let none = EditKeys { undo: false, redo: false, check: false, uncheck: false };
            let back = after_keys(editor, EditKeys { undo: true, ..none });
            let forth = after_keys(editor, EditKeys { redo: true, ..none });
            let on = after_keys(editor, EditKeys { check: true, ..none });
            let off = after_keys(editor, EditKeys { uncheck: true, ..none });
            &&& after_keys(editor, none) == editor
            &&& back.data == Some(undone(data)) && back.caption_for is None
            &&& forth.data == Some(redone(data)) && forth.caption_for is None
            &&& same_but_data(on, editor) && same_but_data(off, editor)
            &&& same_but_checked(items_of(on)[i], data.items[i])
            &&& same_but_checked(items_of(off)[i], data.items[i])
            &&& items_of(on)[i].selected == (data.items[i].selected || editor.current == Some(
                i as usize,
            ))
            &&& items_of(off)[i].selected == (data.items[i].selected && editor.current != Some(
                i as usize,
            ))
        }),
{
    match editor.current {
        Some(k) => {
            law_marks_are_for_what_is_meant(data, k as int, true, Seq::empty(), i);
            law_marks_are_for_what_is_meant(data, k as int, false, Seq::empty(), i);
        },
        None => {},
    }
}

// ----- The grid ------------------------------------------------------------

/// A click on a tag goes by the key that is held: with shift it takes the tag
/// from the item and leaves every selection, and otherwise it leaves the dataset
/// and turns the tag in one selection, that of the wanted tags with control, that
/// of the unwanted ones with alt, and that of batch edits with no key.
pub proof fn law_clicks_go_by_the_key(
    editor: EditorView,
    index: int,
    tag: Seq<char>,
    held: Modifiers,
    other: Seq<char>,
)
    requires
        other != tag,
    ensures
        ({
            let after = tag_clicked(editor, index, tag, held);
            let wanted = !held.shift && held.ctrl;
            let unwanted = !held.shift && !held.ctrl && held.alt;
            let plain = !held.shift && !held.ctrl && !held.alt;
            &&& !held.shift ==> after.data == editor.data
            &&& !wanted ==> after.positive == editor.positive
            &&& !unwanted ==> after.negative == editor.negative
            &&& !plain ==> after.batch == editor.batch
            &&& after.edit == editor.edit && after.filters == editor.filters
            &&& after.current == editor.current
            &&& wanted ==> {
                &&& after.positive.selected.contains(tag) != editor.positive.selected.contains(tag)
                &&& after.positive.selected.contains(other) == editor.positive.selected.contains(
                    other,
                )
            }
            &&& unwanted ==> {
                &&& after.negative.selected.contains(tag) != editor.negative.selected.contains(tag)
                &&& after.negative.selected.contains(other) == editor.negative.selected.contains(
                    other,
                )
            }
            &&& plain ==> {
                &&& after.batch.selected.contains(tag) != editor.batch.selected.contains(tag)
                &&& after.batch.selected.contains(other) == editor.batch.selected.contains(other)
            }
        }),
{
}

/// To check the visible items checks those that the filters show and no others;
/// to turn their marks turns those and no others.
pub proof fn law_visible_items_are_marked(editor: EditorView, data: DatasetView, i: int)
    requires
        editor.data == Some(data),
        data.items.len() <= usize::MAX,
        0 <= i < data.items.len(),
    ensures
        same_but_data(visible_marked(editor, false), editor),
        same_but_data(visible_marked(editor, true), editor),
        same_but_checked(items_of(visible_marked(editor, false))[i], data.items[i]),
        same_but_checked(items_of(visible_marked(editor, true))[i], data.items[i]),
        items_of(visible_marked(editor, false))[i].selected == (data.items[i].selected || is_shown(
            editor,
            data.items[i],
        )),
        items_of(visible_marked(editor, true))[i].selected == (data.items[i].selected != is_shown(
            editor,
            data.items[i],
        )),
{
    law_marks_are_for_what_is_meant(data, 0, false, visible_places(editor), i);
    lemma_visible(editor, i);
}

/// The rows of the grid hold all its places, and no row is without one.
pub proof fn law_no_row_is_empty(count: nat, columns: nat)
    requires
        columns > 0,
    ensures
        rows_of(count, columns) * columns >= count,
        count > 0 ==> (rows_of(count, columns) - 1) * columns < count,
        count == 0 ==> rows_of(count, columns) == 0,
{
    let q = (count / columns) as int;
    let c = columns as int;
    vstd::arithmetic::div_mod::lemma_fundamental_div_mod(count as int, c);
    assert(c * q == q * c) by (nonlinear_arith);
    assert((q + 1) * c == q * c + c) by (nonlinear_arith);
    assert((q - 1) * c == q * c - c) by (nonlinear_arith);
    if count == 0 {
        assert(q == 0) by (nonlinear_arith)
            requires
                q == 0int / c,
                c > 0,
        ;
    }
}

// ----- Files ---------------------------------------------------------------

/// The files of listed items are those of each in turn, their images likewise,
/// and what is exported is the caption of each item under its image.
pub proof fn law_items_stand_for_their_files(items: Seq<ItemView>, indices: Seq<usize>, k: int)
    requires
        forall|j: int| 0 <= j < indices.len() ==> #[trigger] indices[j] < items.len(),
        0 <= k < indices.len(),
    ensures
        groups_at(items, indices).len() == indices.len(),
        groups_at(items, indices)[k].image_path == items[indices[k] as int].image_path,
        groups_at(items, indices)[k].tag_path == items[indices[k] as int].tag_path,
        image_paths(items, indices).len() == indices.len(),
        image_paths(items, indices)[k] == items[indices[k] as int].image_path,
        exported(items).len() == items.len(),
        exported(items)[indices[k] as int].0 == items[indices[k] as int].image_path,
        exported(items)[indices[k] as int].1 == caption(items[indices[k] as int].tags),
    decreases indices.len(),
{
    let rest = indices.drop_last();
    assert forall|j: int| 0 <= j < rest.len() implies #[trigger] rest[j] < items.len() by {
        assert(indices[j] < items.len());
    }
    assert(indices[indices.len() - 1] < items.len());
    if rest.len() == 0 {
        assert(groups_at(items, rest) =~= Seq::<GroupView>::empty());
        assert(image_paths(items, rest) =~= Seq::<Seq<char>>::empty());
    } else if k < rest.len() {
        law_items_stand_for_their_files(items, rest, k);
    } else {
        law_items_stand_for_their_files(items, rest, 0);
    }
}

/// Files can be deleted if and only if nothing is unsaved, no tagger is at work,
/// some item is meant and some kind of file is chosen.
pub proof fn law_when_files_can_be_deleted(editor: EditorView)
    ensures
        deletable(editor) <==> {
            &&& forall|i: int|
                0 <= i < items_of(editor).len() ==> (#[trigger] items_of(editor)[i]).tags
                    == items_of(editor)[i].original
            &&& !editor.worker.busy
            &&& exists|k: int|
                0 <= k < target_places(editor).len() && #[trigger] target_places(editor)[k] >= 0
            &&& editor.files.choice.image || editor.files.choice.caption
                || editor.files.choice.backups
        },
{
    if target_places(editor).len() > 0 {
        assert(target_places(editor)[0] >= 0);
    }
}

// ----- Background work -----------------------------------------------------

/// While the tagger is at work its reports change nothing but what is known of
/// it: progress its text and its share, predictions the list of those that wait,
/// at whose end they are put. Where it is cancelled or fails, those are dropped and
/// the dataset stays.
pub proof fn law_reports_of_the_tagger(before: EditorView, event: WorkerEvent, after: EditorView)
    requires
        follows(before, event, after),
    ensures
        !(event is Done) ==> after.data == before.data,
        !(event is Done) ==> after.caption_for == before.caption_for,
        event is Progress || event is Predictions ==> {
            &&& after.status == before.status
            &&& after.worker.busy == before.worker.busy
        },
        event is Progress ==> after.worker.pending == before.worker.pending,
        event matches WorkerEvent::Predictions(tags) ==> {
            &&& after.worker.pending.len() == before.worker.pending.len() + 1
            &&& after.worker.pending.last() == tags@
            &&& after.worker.pending.drop_last() == before.worker.pending
        },
        event is Done || event is Cancelled || event is Failed ==> {
            &&& !after.worker.busy
            &&& after.worker.pending.len() == 0
        },
        event is Done ==> after.status == StatusView::Tagged && after.caption_for is None,
        event is Cancelled ==> after.status == StatusView::Cancelled,
        event matches WorkerEvent::Failed(cause) ==> after.status == StatusView::Failure(cause@),
        after.filters == before.filters,
        after.form == before.form,
        after.current == before.current,
        after.settings == before.settings,
{
    match event {
        WorkerEvent::Predictions(tags) => {
            assert(after.worker.pending.drop_last() =~= before.worker.pending);
        },
        _ => {},
    }
}

/// A tagger that is set to work is busy with nothing done, and nothing else
/// changes.
pub proof fn law_tagger_starts_afresh(editor: EditorView)
    ensures
        tagging_started(editor).worker.busy,
        tagging_started(editor).worker.pending.len() == 0,
        tagging_started(editor).worker.share == 0,
        tagging_started(editor) == (EditorView {
            worker: tagging_started(editor).worker,
            ..editor
        }),
{
}

/// A dataset that is opened is shown from its first item, with nothing else
/// changed but what is known of its captions.
pub proof fn law_opened_at_its_first_item(editor: EditorView, data: DatasetView)
    ensures
        with_data(editor, data).data == Some(data),
        data.items.len() > 0 ==> with_data(editor, data).current == Some(0usize),
        data.items.len() == 0 ==> with_data(editor, data).current is None,
        with_data(editor, data).caption_for is None,
        with_data(editor, data).loaded_extension == editor.settings.caption_extension,
        with_data(editor, data).settings == editor.settings,
        with_data(editor, data).filters == editor.filters,
        with_data(editor, data).form == editor.form,
{
}

// ----- What is told --------------------------------------------------------

/// The line of the status tells its number, its path or its cause: lines that
/// are equal tell the same.
pub proof fn law_status_tells_what_happened(
    a: usize,
    b: usize,
    path: Seq<char>,
    cause: Seq<char>,
    other: Seq<char>,
)
    ensures
        status_text(StatusView::Nothing).len() == 0,
        status_text(StatusView::Done(a)) == "✓ "@ + decimal(a as nat),
        status_text(StatusView::JsonDone(a)) == "✓ JSON "@ + decimal(a as nat),
        status_text(StatusView::Opened { path, count: a }) == path + " · "@ + decimal(a as nat),
        status_text(StatusView::Failure(cause)) == "⚠ "@ + cause,
        status_text(StatusView::Done(a)) == status_text(StatusView::Done(b)) ==> a == b,
        status_text(StatusView::JsonDone(a)) == status_text(StatusView::JsonDone(b)) ==> a == b,
        status_text(StatusView::Opened { path, count: a }) == status_text(
            StatusView::Opened { path, count: b },
        ) ==> a == b,
        begins_with(status_text(StatusView::Opened { path, count: a }), path),
        status_text(StatusView::Failure(cause)) == status_text(StatusView::Failure(other)) ==> cause
            == other,
        finishes_with(status_text(StatusView::Failure(cause)), cause),
{
    law_decimal_stands_for_its_number(a as nat);
    law_decimal_stands_for_its_number(b as nat);
    lemma_same_ends("✓ "@, decimal(a as nat), decimal(b as nat));
    lemma_same_ends("✓ JSON "@, decimal(a as nat), decimal(b as nat));
    lemma_same_ends(path + " · "@, decimal(a as nat), decimal(b as nat));
    lemma_same_ends("⚠ "@, cause, other);
    let opened = status_text(StatusView::Opened { path, count: a });
    assert(opened.subrange(0, path.len() as int) =~= path);
    let failed = status_text(StatusView::Failure(cause));
    assert(failed.subrange(failed.len() - cause.len(), failed.len() as int) =~= cause);
}

proof fn lemma_same_ends(front: Seq<char>, a: Seq<char>, b: Seq<char>)
    ensures
        front + a == front + b ==> a == b,
{
    assert((front + a).skip(front.len() as int) =~= a);
    assert((front + b).skip(front.len() as int) =~= b);
}

/// The end of work on files is told with the number of files or with the cause,
/// and changes nothing else. A tagger that is at work is told of where it is in
/// the way.
pub proof fn law_outcomes_are_told(editor: EditorView, count: usize, cause: Seq<char>)
    ensures
        files_done(editor, Ok(count)).status == StatusView::Done(count),
        files_done(editor, Err(cause)).status == StatusView::Failure(cause),
        files_done(editor, Ok(count)) == (EditorView {
            status: StatusView::Done(count),
            ..editor
        }),
        files_done(editor, Err(cause)) == (EditorView {
            status: StatusView::Failure(cause),
            ..editor
        }),
        editor.worker.busy ==> told_busy(editor).status == StatusView::Busy,
        !editor.worker.busy ==> told_busy(editor) == editor,
        told_busy(editor) == (EditorView { status: told_busy(editor).status, ..editor }),
{
}

/// The answers to a question settle that question and nothing else.
pub proof fn law_answers_settle_their_question(editor: EditorView)
    ensures
        !open_answered(editor).questions.open,
        open_answered(editor) == (EditorView {
            questions: QuestionsView { open: false, ..editor.questions },
            ..editor
        }),
        exit_agreed(editor).questions.may_exit,
        exit_agreed(editor) == (EditorView {
            questions: QuestionsView { may_exit: true, ..editor.questions },
            ..editor
        }),
{
}

/// The extension of caption files counts as changed where it is another than
/// that of the captions that were loaded, but for dots in front and, in the setting,
/// white space around it.
pub proof fn law_when_the_extension_changed(editor: EditorView, extension: Seq<char>)
    requires
        extension.len() > 0,
        extension[0] != '.',
        is_trimmed(extension),
    ensures
        editor.loaded_extension == extension && editor.settings.caption_extension == extension
            ==> !extension_changed(editor),
        editor.loaded_extension == extension && caption_suffix(editor.settings.caption_extension)
            != extension ==> extension_changed(editor),
        editor.loaded_extension == seq!['.'] + extension && editor.settings.caption_extension
            == extension ==> !extension_changed(editor),
{
    lemma_trimmed_fixpoint(extension);
    assert((seq!['.'] + extension).drop_first() =~= extension);
}

/// The text of the text field that is written to an item by name gives that item
/// the tags that it lists, and leaves every other item and everything else.
pub proof fn law_text_is_written_where_asked(
    editor: EditorView,
    data: DatasetView,
    target: Option<usize>,
    i: int,
)
    requires
        editor.data == Some(data),
        data.items.len() <= usize::MAX,
        0 <= i < data.items.len(),
    ensures
        same_but_data(written_to(editor, target), editor),
        items_of(written_to(editor, target)).len() == data.items.len(),
        items_of(written_to(editor, target))[i] == if target == Some(i as usize) {
            ItemView { tags: parsed(editor.caption), ..data.items[i] }
        } else {
            data.items[i]
        },
{
    let named = EditorView { caption_for: target, ..editor };
    law_text_is_written_to_its_item(named, data, i);
    assert(committed(named).data == written_to(editor, target).data);
}

} // verus!
