//! Laws that span the controls of the editor.

use vstd::prelude::*;

use crate::actions::{image_paths, tagging_done};
use crate::batch::{every_tag, lemma_texts_set_len, text_changes, texts_edited, texts_set};
use crate::dataset::{
    batch_lists, common_of, edited, item_edited, listed, redone, retagged, undone, DatasetView,
};
use crate::editor::{
    items_of, negative_terms, positive_terms, shows_item, target_places, visible_places,
    BatchTarget, EditorView, StatusView,
};
use crate::edits::change_of;
use crate::frequency::frequencies;
use crate::grid::{marked, tag_clicked, tag_removed, toggled, Modifiers};
use crate::history::snapshot_of;
use crate::item::ItemView;
use crate::laws::{
    distinct_paths, is_clean, law_batch_keeps_others, law_common_edit_is_clean,
    law_edit_stays_clean, law_operations_are_clean, law_places, law_replacements_are_clean,
    law_sorted_and_shortened_are_clean, law_undo_restores_by_path, lemma_snapshot_clean,
};
use crate::panels::{
    batch_edit, batch_refusal, batch_run, comma_parts, form_operation, selected_search,
};
use crate::paths::canonical;
use crate::session::{captioned, committed, same_caption, synced, texts_applied};
use crate::settings::{ranged, PreferencesView};
use crate::suggestions::{is_item_of, item_of, prediction_updates, PendingView};
use crate::tag_set::ordered_list;
use crate::tags::{
    all_clean, all_tags, law_caption_round_trip, law_parsed_are_tags, law_without, parsed, without,
};
use crate::text::{has_ignoring_case, same_ignoring_case, trimmed};

verus! {

// ----- What an operation is for --------------------------------------------

/// Whether the filters of the editor show an item.
pub open spec fn is_shown(editor: EditorView, item: ItemView) -> bool {
    shows_item(editor.filters, positive_terms(editor), negative_terms(editor), item)
}

/// The items that are visible are those that the filters show.
pub proof fn lemma_visible(editor: EditorView, i: int)
    requires
        items_of(editor).len() <= usize::MAX,
        0 <= i < items_of(editor).len(),
    ensures
        listed(visible_places(editor), i) <==> is_shown(editor, items_of(editor)[i]),
{
    let positive = positive_terms(editor);
    let negative = negative_terms(editor);
    law_places(
        items_of(editor),
        |item: ItemView| shows_item(editor.filters, positive, negative, item),
    );
}

/// A batch edit is for the items that its target names and for no others: those
/// that the filters show, those that are checked, or the current one. Whatever
/// it does, every other item stays as it is, and of these only the tags change.
pub proof fn law_batch_is_for_its_target(editor: EditorView, data: DatasetView, i: int)
    requires
        editor.data == Some(data),
        data.items.len() <= usize::MAX,
        0 <= i < data.items.len(),
    ensures
        items_of(batch_run(editor)).len() == data.items.len(),
        ({
            let targeted = match editor.form.target {
                BatchTarget::Visible => is_shown(editor, data.items[i]),
                BatchTarget::Checked => data.items[i].selected,
                BatchTarget::Current => editor.current == Some(i as usize),
            };
            items_of(batch_run(editor))[i] == if targeted && batch_refusal(editor, data) is None {
                ItemView { tags: batch_edit(editor, data, data.items[i].tags), ..data.items[i] }
            } else {
                data.items[i]
            }
        }),
{
    let indices = target_places(editor);
    let edit = |tags: Seq<Seq<char>>| batch_edit(editor, data, tags);
    law_batch_keeps_others(data, indices, edit, i);
    match editor.form.target {
        BatchTarget::Visible => {
            lemma_visible(editor, i);
        },
        BatchTarget::Checked => {
            law_places(data.items, |item: ItemView| item.selected);
        },
        BatchTarget::Current => {
            match editor.current {
                Some(index) => {
                    assert(indices =~= seq![index]);
                    if index == i {
                        assert(indices[0] == i);
                    }
                },
                None => {},
            }
        },
    }
}

/// A batch edit with a pattern that is refused leaves the dataset as it is.
pub proof fn law_refused_batch_changes_nothing(editor: EditorView, data: DatasetView)
    requires
        editor.data == Some(data),
        batch_refusal(editor, data) is Some,
    ensures
        batch_run(editor) == (EditorView { status: batch_run(editor).status, ..editor }),
        batch_run(editor).status is Failure,
{
}

// ----- Updates of captions -------------------------------------------------

/// Whether some update is for an item.
pub open spec fn updates_item(updates: Seq<(usize, Seq<char>)>, i: int) -> bool {
    exists|k: int| 0 <= k < updates.len() && (#[trigger] updates[k]).0 == i
}

/// Updates of captions leave every item alone that none of them is for.
pub proof fn law_updates_keep_others(
    items: Seq<ItemView>,
    updates: Seq<(usize, Seq<char>)>,
    i: int,
)
    requires
        0 <= i < items.len(),
        !updates_item(updates, i),
    ensures
        texts_set(items, updates).len() == items.len(),
        texts_set(items, updates)[i] == items[i],
    decreases updates.len(),
{
    lemma_texts_set_len(items, updates);
    if updates.len() > 0 {
        let rest = updates.drop_last();
        if updates_item(rest, i) {
            let k = choose|k: int| 0 <= k < rest.len() && (#[trigger] rest[k]).0 == i;
            assert(updates[k].0 == i);
        }
        lemma_texts_set_len(items, rest);
        law_updates_keep_others(items, rest, i);
        assert(updates[updates.len() - 1].0 != i);
    }
}

/// Where all updates of an item are the same text, the item has its tags.
proof fn lemma_updated(
    items: Seq<ItemView>,
    updates: Seq<(usize, Seq<char>)>,
    text: Seq<char>,
    i: int,
)
    requires
        0 <= i < items.len(),
        updates_item(updates, i),
        forall|k: int| 0 <= k < updates.len() ==> (#[trigger] updates[k]).1 == text,
    ensures
        texts_set(items, updates)[i].tags == parsed(text),
    decreases updates.len(),
{
    let rest = updates.drop_last();
    lemma_texts_set_len(items, rest);
    assert(updates[updates.len() - 1].1 == text);
    if updates.last().0 != i {
        let k = choose|k: int| 0 <= k < updates.len() && (#[trigger] updates[k]).0 == i;
        assert(rest[k].0 == i);
        assert forall|k: int| 0 <= k < rest.len() implies (#[trigger] rest[k]).1 == text by {
            assert(updates[k].1 == text);
        }
        lemma_updated(items, rest, text, i);
    }
}

/// Without a change, the items stay as they are.
pub proof fn lemma_no_changes(items: Seq<ItemView>, updates: Seq<(usize, Seq<char>)>)
    requires
        text_changes(items, updates) == 0,
    ensures
        texts_set(items, updates) == items,
    decreases updates.len(),
{
    if updates.len() > 0 {
        let rest = updates.drop_last();
        lemma_texts_set_len(items, rest);
        lemma_no_changes(items, rest);
        assert(texts_set(items, updates) =~= items);
    } else {
        assert(texts_set(items, updates) =~= items);
    }
}

/// A caption that is written to the visible items is written to those that the
/// filters show and to no others.
pub proof fn law_visible_captions(editor: EditorView, data: DatasetView, status: StatusView, i: int)
    requires
        editor.data == Some(data),
        data.items.len() <= usize::MAX,
        0 <= i < data.items.len(),
    ensures
        ({
            let updates = same_caption(visible_places(editor), editor.caption);
            items_of(texts_applied(editor, updates, status))[i] == if is_shown(
                editor,
                data.items[i],
            ) {
                ItemView { tags: parsed(editor.caption), ..data.items[i] }
            } else {
                data.items[i]
            }
        }),
{
    let shown = visible_places(editor);
    let updates = same_caption(shown, editor.caption);
    lemma_visible(editor, i);
    lemma_texts_set_len(data.items, updates);
    if text_changes(data.items, updates) == 0 {
        lemma_no_changes(data.items, updates);
    }
    if listed(shown, i) {
        let k = choose|k: int| 0 <= k < shown.len() && shown[k] == i;
        assert(updates[k].0 == i);
        lemma_updated(data.items, updates, editor.caption, i);
    } else {
        if updates_item(updates, i) {
            let k = choose|k: int| 0 <= k < updates.len() && (#[trigger] updates[k]).0 == i;
            assert(shown[k] == i);
        }
        law_updates_keep_others(data.items, updates, i);
    }
}

/// Updates of captions are one step of the history: undone, they leave the items
/// as they were.
pub proof fn law_undo_updates(data: DatasetView, updates: Seq<(usize, Seq<char>)>)
    requires
        distinct_paths(data.items),
        text_changes(data.items, updates) > 0,
    ensures
        undone(texts_edited(data, updates)).items == data.items,
        undone(texts_edited(data, updates)).undo == data.undo,
        undone(texts_edited(data, updates)).redo.len() == 1,
{
    let after = texts_edited(data, updates);
    let back = undone(after);
    lemma_texts_set_len(data.items, updates);
    assert(after.undo.last() == snapshot_of(data.items));
    assert forall|i: int| 0 <= i < data.items.len() implies back.items[i] == data.items[i] by {
        assert(after.items[i].image_path == data.items[i].image_path);
        law_undo_restores_by_path(data.items, after, i, i);
    }
    assert(back.items =~= data.items);
    assert(back.undo =~= data.undo);
}

/// Updates of captions that are undone and redone are as they were.
pub proof fn law_redo_updates(data: DatasetView, updates: Seq<(usize, Seq<char>)>)
    requires
        distinct_paths(data.items),
        text_changes(data.items, updates) > 0,
    ensures
        redone(undone(texts_edited(data, updates))) == texts_edited(data, updates),
{
    let after = texts_edited(data, updates);
    let back = undone(after);
    let forth = redone(back);
    law_undo_updates(data, updates);
    lemma_texts_set_len(data.items, updates);
    assert(distinct_paths(after.items)) by {
        assert forall|i: int, j: int| 0 <= i < j < after.items.len() implies canonical(
            (#[trigger] after.items[i]).image_path,
        ) != canonical((#[trigger] after.items[j]).image_path) by {
            assert(after.items[i].image_path == data.items[i].image_path);
            assert(after.items[j].image_path == data.items[j].image_path);
        }
    }
    assert(back.redo.last() == snapshot_of(after.items));
    assert forall|i: int| 0 <= i < after.items.len() implies forth.items[i] == after.items[i] by {
        assert(back.items[i] == data.items[i]);
        let mirrored = DatasetView { undo: back.redo, redo: Seq::empty(), ..back };
        assert(after.items[i].image_path == data.items[i].image_path);
        law_undo_restores_by_path(after.items, mirrored, i, i);
    }
    assert(forth.items =~= after.items);
    assert(forth.undo =~= after.undo);
    assert(forth.redo =~= after.redo);
}

proof fn lemma_texts_set_clean(items: Seq<ItemView>, updates: Seq<(usize, Seq<char>)>)
    requires
        forall|i: int| 0 <= i < items.len() ==> all_clean((#[trigger] items[i]).tags),
    ensures
        forall|i: int|
            0 <= i < items.len() ==> all_clean((#[trigger] texts_set(items, updates)[i]).tags),
    decreases updates.len(),
{
    if updates.len() > 0 {
        lemma_texts_set_clean(items, updates.drop_last());
        lemma_texts_set_len(items, updates.drop_last());
        law_parsed_are_tags(updates.last().1);
    }
}

/// Updates of captions keep a dataset clean.
pub proof fn law_updates_stay_clean(data: DatasetView, updates: Seq<(usize, Seq<char>)>)
    requires
        is_clean(data),
    ensures
        is_clean(texts_edited(data, updates)),
{
    let after = texts_edited(data, updates);
    lemma_texts_set_clean(data.items, updates);
    lemma_texts_set_len(data.items, updates);
    assert forall|k: int, path: Seq<char>|
        0 <= k < after.undo.len() && (#[trigger] after.undo[k].contains_key(path)) implies all_clean(
        after.undo[k][path],
    ) by {
        if k < data.undo.len() {
            assert(data.undo[k].contains_key(path));
        } else {
            lemma_snapshot_clean(data.items, path);
        }
    }
}

/// Every batch edit keeps a dataset clean.
pub proof fn law_batch_run_stays_clean(editor: EditorView, data: DatasetView)
    requires
        editor.data == Some(data),
        is_clean(data),
        forall|i: int| 0 <= i < data.items.len() ==> (#[trigger] data.items[i]).tags.len()
            <= usize::MAX,
    ensures
        batch_run(editor).data matches Some(after) && is_clean(after),
{
    let indices = target_places(editor);
    let edit = |tags: Seq<Seq<char>>| batch_edit(editor, data, tags);
    let lists = batch_lists(data.items, indices, edit);
    assert forall|i: int| 0 <= i < data.items.len() implies all_clean(#[trigger] lists[i]) by {
        let tags = data.items[i].tags;
        assert(all_clean(tags));
        let form = editor.form;
        let (search, replacement, regex) = selected_search(form);
        law_replacements_are_clean(
            tags,
            ordered_list(editor.batch.selected),
            change_of(search, replacement, regex),
        );
        law_replacements_are_clean(
            tags,
            Seq::empty(),
            change_of(form.first, form.second, form.regex),
        );
        law_common_edit_is_clean(
            tags,
            common_of(data.items, indices),
            comma_parts(form.common_edit),
            form.common_prepend,
        );
        law_sorted_and_shortened_are_clean(
            tags,
            frequencies(every_tag(data.items)),
            form.sort_key,
            form.sort_direction,
            editor.settings.truncate_count as nat,
        );
        match form_operation(form) {
            Some(operation) => {
                law_operations_are_clean(operation, tags);
            },
            None => {},
        }
        assert(all_clean(batch_edit(editor, data, tags)));
    }
    law_edit_stays_clean(data, lists);
}

// ----- The tagger ----------------------------------------------------------

/// Whether there are predictions for an image.
pub open spec fn is_predicted(pending: Seq<PendingView>, image: Seq<char>) -> bool {
    exists|k: int|
        0 <= k < pending.len() && canonical((#[trigger] pending[k]).image_path) == canonical(image)
}

proof fn lemma_prediction_targets(
    settings: PreferencesView,
    items: Seq<ItemView>,
    pending: Seq<PendingView>,
    i: int,
)
    requires
        items.len() <= usize::MAX,
        0 <= i < items.len(),
        updates_item(prediction_updates(settings, items, pending), i),
    ensures
        is_predicted(pending, items[i].image_path),
    decreases pending.len(),
{
    let updates = prediction_updates(settings, items, pending);
    if pending.len() > 0 {
        let rest = pending.drop_last();
        let before = prediction_updates(settings, items, rest);
        let k = choose|k: int| 0 <= k < updates.len() && (#[trigger] updates[k]).0 == i;
        if k < before.len() {
            assert(before[k].0 == i);
            lemma_prediction_targets(settings, items, rest, i);
            let j = choose|j: int|
                0 <= j < rest.len() && canonical((#[trigger] rest[j]).image_path) == canonical(
                    items[i].image_path,
                );
            assert(pending[j] == rest[j]);
        } else {
            let entry = pending.last();
            let place = item_of(items, entry.image_path);
            assert(place is Some);
            let chosen = choose|p: int| is_item_of(items, entry.image_path, p);
            assert(is_item_of(items, entry.image_path, chosen));
            assert(chosen == i);
            assert(pending[pending.len() - 1] == entry);
        }
    }
}

/// When the tagger is done, every item stays as it is for whose image there are
/// no predictions, and of the others only the tags change.
pub proof fn law_tagging_is_for_its_images(editor: EditorView, data: DatasetView, i: int)
    requires
        editor.data == Some(data),
        data.items.len() <= usize::MAX,
        0 <= i < data.items.len(),
    ensures
        items_of(tagging_done(editor)).len() == data.items.len(),
        items_of(tagging_done(editor))[i] == (ItemView {
            tags: items_of(tagging_done(editor))[i].tags,
            ..data.items[i]
        }),
        !is_predicted(editor.worker.pending, data.items[i].image_path) ==> items_of(
            tagging_done(editor),
        )[i] == data.items[i],
{
    let updates = prediction_updates(editor.settings, data.items, editor.worker.pending);
    lemma_texts_set_len(data.items, updates);
    assert(texts_set(data.items, updates)[i].tags == texts_set(data.items, updates)[i].tags);
    if !is_predicted(editor.worker.pending, data.items[i].image_path) {
        if updates_item(updates, i) {
            lemma_prediction_targets(editor.settings, data.items, editor.worker.pending, i);
        }
        law_updates_keep_others(data.items, updates, i);
    }
}

proof fn lemma_image_paths(items: Seq<ItemView>, indices: Seq<usize>, path: Seq<char>)
    ensures
        image_paths(items, indices).contains(path) <==> exists|i: int|
            0 <= i < items.len() && listed(indices, i) && (#[trigger] items[i]).image_path == path,
    decreases indices.len(),
{
    let paths = image_paths(items, indices);
    if indices.len() > 0 {
        let rest = indices.drop_last();
        let before = image_paths(items, rest);
        let last = indices.last();
        lemma_image_paths(items, rest, path);
        if paths.contains(path) {
            let k = choose|k: int| 0 <= k < paths.len() && paths[k] == path;
            if k < before.len() {
                assert(before[k] == path);
                assert(before.contains(path));
                let i = choose|i: int|
                    0 <= i < items.len() && listed(rest, i) && (#[trigger] items[i]).image_path
                        == path;
                let j = choose|j: int| 0 <= j < rest.len() && rest[j] == i;
                assert(indices[j] == i);
                assert(listed(indices, i));
            } else {
                assert(indices[indices.len() - 1] == last);
                assert(listed(indices, last as int));
                assert(items[last as int].image_path == path);
            }
        }
        if exists|i: int|
            0 <= i < items.len() && listed(indices, i) && (#[trigger] items[i]).image_path == path {
            let i = choose|i: int|
                0 <= i < items.len() && listed(indices, i) && (#[trigger] items[i]).image_path
                    == path;
            let j = choose|j: int| 0 <= j < indices.len() && indices[j] == i;
            if j < rest.len() {
                assert(rest[j] == i);
                assert(listed(rest, i));
                assert(before.contains(path));
                let k = choose|k: int| 0 <= k < before.len() && before[k] == path;
                assert(paths[k] == path);
            } else {
                assert(paths[paths.len() - 1] == path);
            }
        }
    } else {
        assert(paths =~= Seq::empty());
    }
}

/// The tagger is set to work on the images of the visible items: on those of the
/// items that the filters show, and on no others.
pub proof fn law_visible_images_are_tagged(editor: EditorView, path: Seq<char>)
    requires
        items_of(editor).len() <= usize::MAX,
    ensures
        image_paths(items_of(editor), visible_places(editor)).contains(path) <==> exists|i: int|
            0 <= i < items_of(editor).len() && is_shown(editor, #[trigger] items_of(editor)[i])
                && items_of(editor)[i].image_path == path,
{
    let items = items_of(editor);
    let shown = visible_places(editor);
    lemma_image_paths(items, shown, path);
    assert forall|i: int| 0 <= i < items.len() implies (listed(shown, i) <==> is_shown(
        editor,
        #[trigger] items[i],
    )) by {
        lemma_visible(editor, i);
    }
}

// ----- Looking without changing --------------------------------------------

/// To look at an item changes nothing: a caption that was filled in and not
/// edited is written back as it was.
pub proof fn law_looking_changes_nothing(editor: EditorView, data: DatasetView)
    requires
        editor.data == Some(data),
        editor.caption_for != editor.current,
        forall|i: int| 0 <= i < data.items.len() ==> all_tags((#[trigger] data.items[i]).tags),
    ensures
        committed(synced(editor)) == synced(editor),
{
    let shown = synced(editor);
    match shown.caption_for {
        Some(index) => {
            if index < data.items.len() {
                let tags = data.items[index as int].tags;
                assert(all_tags(tags));
                law_caption_round_trip(tags);
                let lists = Seq::new(
                    data.items.len(),
                    |i: int|
                        if i == index {
                            tags
                        } else {
                            data.items[i].tags
                        },
                );
                assert(retagged(data.items, lists) =~= data.items);
                assert(item_edited(data, index as int, tags) == edited(data, lists));
                assert(captioned(data, index as int, shown.caption) == data);
            }
        },
        None => {},
    }
}

/// A second click on a tag takes the first one back.
pub proof fn law_second_click_takes_back(
    editor: EditorView,
    index: int,
    tag: Seq<char>,
    held: Modifiers,
)
    requires
        !held.shift,
    ensures
        tag_clicked(tag_clicked(editor, index, tag, held), index, tag, held) == editor,
{
    assert(toggled(toggled(editor.positive.selected, tag), tag) =~= editor.positive.selected);
    assert(toggled(toggled(editor.negative.selected, tag), tag) =~= editor.negative.selected);
    assert(toggled(toggled(editor.batch.selected, tag), tag) =~= editor.batch.selected);
    assert(tag_clicked(tag_clicked(editor, index, tag, held), index, tag, held) =~= editor);
}

proof fn lemma_without_none(tags: Seq<Seq<char>>, value: Seq<char>)
    requires
        !has_ignoring_case(tags, value),
    ensures
        without(tags, value) == tags,
    decreases tags.len(),
{
    if tags.len() > 0 {
        let rest = tags.drop_last();
        assert(!same_ignoring_case(tags[tags.len() - 1], value));
        assert(!has_ignoring_case(rest, value)) by {
            if has_ignoring_case(rest, value) {
                let i = choose|i: int|
                    0 <= i < rest.len() && same_ignoring_case(#[trigger] rest[i], value);
                assert(same_ignoring_case(tags[i], value));
            }
        }
        lemma_without_none(rest, value);
        assert(rest.push(tags.last()) =~= tags);
    } else {
        assert(without(tags, value) =~= tags);
    }
}

/// To remove a tag is a step of the history, after which nothing can be redone,
/// where the item has the tag. Where it has not, everything stays as it is, and
/// what could be redone still can.
pub proof fn law_only_real_removals_count(data: DatasetView, index: int, tag: Seq<char>)
    requires
        0 <= index < data.items.len(),
    ensures
        ({
            let after = tag_removed(data, index, tag);
            if trimmed(tag).len() > 0 && has_ignoring_case(data.items[index].tags, trimmed(tag)) {
                &&& after.undo == data.undo.push(snapshot_of(data.items))
                &&& after.redo.len() == 0
                &&& after.items[index].tags == without(data.items[index].tags, trimmed(tag))
            } else {
                after == data
            }
        }),
{
    let tags = data.items[index].tags;
    let value = trimmed(tag);
    law_without(tags, value);
    if !has_ignoring_case(tags, value) {
        lemma_without_none(tags, value);
    } else if value.len() > 0 {
        let fewer = without(tags, value);
        let lists = Seq::new(
            data.items.len(),
            |i: int|
                if i == index {
                    fewer
                } else {
                    data.items[i].tags
                },
        );
        assert(item_edited(data, index, fewer) == edited(data, lists));
        assert(retagged(data.items, lists)[index].tags == fewer);
    }
}

/// Check marks that are turned over twice are as they were.
pub proof fn law_turned_twice(data: DatasetView, indices: Seq<usize>)
    ensures
        marked(marked(data, indices, true), indices, true) == data,
{
    let twice = marked(marked(data, indices, true), indices, true);
    assert forall|i: int| 0 <= i < data.items.len() implies twice.items[i] == data.items[i] by {
        assert(marked(data, indices, true).items[i].selected == if listed(indices, i) {
            !data.items[i].selected
        } else {
            data.items[i].selected
        });
    }
    assert(twice.items =~= data.items);
}

/// Settings that were brought into their range stay as they are when they are
/// kept and taken over again.
pub proof fn law_settings_settle(settings: PreferencesView)
    ensures
        ranged(ranged(settings)) == ranged(settings),
{
}

} // verus!
