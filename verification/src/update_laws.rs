//! What imported and predicted captions make of the items.

use vstd::prelude::*;

use crate::actions::{metadata_updates, tagging_done};
use crate::batch::{lemma_texts_set_len, text_changes, texts_edited, texts_set};
use crate::dataset::{change_count, DatasetView};
use crate::editor::{
    items_of, negative_terms, positive_terms, shows_item, visible_places, EditorView, StatusView,
};
use crate::editor_laws::{law_updates_keep_others, lemma_no_changes, updates_item};
use crate::item::ItemView;
use crate::json::Json;
use crate::laws::{distinct_paths, law_places};
use crate::metadata::{image_text, LocationView};
use crate::panels::{batch_refusal, batch_run};
use crate::paths::canonical;
use crate::session::{changes_of, same_caption, texts_applied};
use crate::settings::PreferencesView;
use crate::suggestions::{is_item_of, item_of, prediction_updates, suggested_tags, PendingView};
use crate::tags::{caption, parsed};

verus! {

// ----- Updates of captions -------------------------------------------------

/// The last update of an item decides.
pub proof fn law_last_update_decides(
    items: Seq<ItemView>,
    updates: Seq<(usize, Seq<char>)>,
    k: int,
)
    requires
        0 <= k < updates.len(),
        updates[k].0 < items.len(),
        forall|j: int| k < j < updates.len() ==> (#[trigger] updates[j]).0 != updates[k].0,
    ensures
        texts_set(items, updates).len() == items.len(),
        texts_set(items, updates)[updates[k].0 as int] == (ItemView {
            tags: parsed(updates[k].1),
            ..items[updates[k].0 as int]
        }),
    decreases updates.len(),
{
    let rest = updates.drop_last();
    let i = updates[k].0 as int;
    lemma_texts_set_len(items, updates);
    lemma_texts_set_len(items, rest);
    if k < rest.len() {
        assert(rest[k] == updates[k]);
        assert forall|j: int| k < j < rest.len() implies (#[trigger] rest[j]).0 != rest[k].0 by {
            assert(updates[j].0 != updates[k].0);
        }
        law_last_update_decides(items, rest, k);
        assert(updates[updates.len() - 1].0 != updates[k].0);
    } else {
        assert(texts_set(items, rest)[i] == (ItemView {
            tags: texts_set(items, rest)[i].tags,
            ..items[i]
        }));
    }
}

proof fn lemma_change_one(items: Seq<ItemView>, before: Seq<ItemView>, i: int, tags: Seq<Seq<char>>)
    requires
        items.len() == before.len(),
        0 <= i < items.len(),
        before[i].tags == items[i].tags,
    ensures
        change_count(items, before.update(i, (ItemView { tags, ..before[i] }))) == change_count(
            items,
            before,
        ) + if items[i].tags != tags {
            1int
        } else {
            0int
        },
    decreases items.len(),
{
    let after = before.update(i, (ItemView { tags, ..before[i] }));
    if i == items.len() - 1 {
        assert(after.drop_last() =~= before.drop_last());
    } else {
        lemma_change_one(items.drop_last(), before.drop_last(), i, tags);
        assert(after.drop_last() =~= before.drop_last().update(
            i,
            (ItemView { tags, ..before.drop_last()[i] }),
        ));
        assert(after.last() == before.last());
    }
}

/// Where no item is updated twice, the number of changes is the number of items
/// whose tags are others than before.
pub proof fn law_changes_are_counted_by_item(items: Seq<ItemView>, updates: Seq<(usize, Seq<char>)>)
    requires
        forall|a: int, b: int|
            0 <= a < b < updates.len() ==> (#[trigger] updates[a]).0 != (#[trigger] updates[b]).0,
    ensures
        text_changes(items, updates) == change_count(items, texts_set(items, updates)),
    decreases updates.len(),
{
    if updates.len() == 0 {
        lemma_same_count(items);
    } else {
        let rest = updates.drop_last();
        let before = texts_set(items, rest);
        let (index, text) = updates.last();
        lemma_texts_set_len(items, rest);
        law_changes_are_counted_by_item(items, rest);
        if index < items.len() {
            if updates_item(rest, index as int) {
                let k = choose|k: int| 0 <= k < rest.len() && (#[trigger] rest[k]).0 == index;
                assert(updates[k].0 != updates[updates.len() - 1].0);
            }
            law_updates_keep_others(items, rest, index as int);
            lemma_change_one(items, before, index as int, parsed(text));
        }
    }
}

proof fn lemma_same_count(items: Seq<ItemView>)
    ensures
        change_count(items, items) == 0,
    decreases items.len(),
{
    if items.len() > 0 {
        lemma_same_count(items.drop_last());
    }
}

// ----- Metadata ------------------------------------------------------------

/// An item is updated from metadata exactly where the document has a text for
/// its image, once, with that text.
proof fn lemma_metadata_updates(
    items: Seq<ItemView>,
    records: Map<Seq<char>, Json>,
    here: LocationView,
)
    requires
        items.len() <= usize::MAX,
    ensures
        ({
            let updates = metadata_updates(items, records, here);
            &&& forall|k: int|
                0 <= k < updates.len() ==> (#[trigger] updates[k]).0 < items.len() && image_text(
                    records,
                    here,
                    items[updates[k].0 as int].image_path,
                ) == Some(updates[k].1)
            &&& forall|a: int, b: int|
                0 <= a < b < updates.len() ==> (#[trigger] updates[a]).0 < (#[trigger] updates[b]).0
            &&& forall|i: int|
                0 <= i < items.len() && image_text(records, here, items[i].image_path) is Some
                    ==> #[trigger] updates_item(updates, i)
        }),
    decreases items.len(),
{
    let updates = metadata_updates(items, records, here);
    if items.len() > 0 {
        let shorter = items.drop_last();
        let rest = metadata_updates(shorter, records, here);
        lemma_metadata_updates(shorter, records, here);
        assert forall|k: int| 0 <= k < rest.len() implies (#[trigger] updates[k]) == rest[k] && rest[k].0
            < shorter.len() && items[rest[k].0 as int] == shorter[rest[k].0 as int] by {}
        assert forall|i: int|
            0 <= i < items.len() && image_text(
                records,
                here,
                items[i].image_path,
            ) is Some implies #[trigger] updates_item(updates, i) by {
            if i < shorter.len() {
                assert(shorter[i] == items[i]);
                assert(updates_item(rest, i));
                let k = choose|k: int| 0 <= k < rest.len() && (#[trigger] rest[k]).0 == i;
                assert(updates[k].0 == i);
            } else {
                assert(updates[rest.len() as int].0 == i);
            }
        }
    }
}

/// After an import every item for whose image the document has a text has
/// exactly the tags that this text lists, every other item has the tags that it
/// had, and nothing but tags has changed. The number that is reported is the
/// number of items whose tags are others than before.
pub proof fn law_import_gives_each_item_its_text(
    editor: EditorView,
    data: DatasetView,
    records: Map<Seq<char>, Json>,
    here: LocationView,
    status: StatusView,
    i: int,
)
    requires
        editor.data == Some(data),
        data.items.len() <= usize::MAX,
        0 <= i < data.items.len(),
    ensures
        ({
            let updates = metadata_updates(data.items, records, here);
            let after = texts_applied(editor, updates, status);
            &&& items_of(after).len() == data.items.len()
            &&& items_of(after)[i].tags == match image_text(
                records,
                here,
                data.items[i].image_path,
            ) {
                Some(text) => parsed(text),
                None => data.items[i].tags,
            }
            &&& items_of(after)[i] == (ItemView { tags: items_of(after)[i].tags, ..data.items[i] })
            &&& changes_of(editor, updates) == change_count(data.items, items_of(after))
        }),
{
    let updates = metadata_updates(data.items, records, here);
    let after = texts_applied(editor, updates, status);
    lemma_metadata_updates(data.items, records, here);
    lemma_texts_set_len(data.items, updates);
    law_changes_are_counted_by_item(data.items, updates);
    if text_changes(data.items, updates) == 0 {
        lemma_no_changes(data.items, updates);
    }
    assert(items_of(after) == texts_set(data.items, updates));
    lemma_count_bound(data.items, items_of(after));
    if updates_item(updates, i) {
        let k = choose|k: int| 0 <= k < updates.len() && (#[trigger] updates[k]).0 == i;
        law_last_update_decides(data.items, updates, k);
    } else {
        law_updates_keep_others(data.items, updates, i);
    }
}

// ----- The tagger ----------------------------------------------------------

proof fn lemma_only_item(items: Seq<ItemView>, path: Seq<char>, i: int)
    requires
        distinct_paths(items),
        0 <= i < items.len(),
    ensures
        item_of(items, path) == Some(i) <==> canonical(items[i].image_path) == canonical(path),
{
    if canonical(items[i].image_path) == canonical(path) {
        assert(is_item_of(items, path, i));
        let p = choose|p: int| is_item_of(items, path, p);
        assert(is_item_of(items, path, p));
        if p < i {
            assert(canonical(items[p].image_path) != canonical(items[i].image_path));
        } else if i < p {
            assert(canonical(items[i].image_path) != canonical(items[p].image_path));
        }
    }
    if item_of(items, path) == Some(i) {
        let p = choose|p: int| is_item_of(items, path, p);
        assert(is_item_of(items, path, p));
    }
}

/// The updates from predictions end with that for the last of them that is for
/// an item.
proof fn lemma_prediction_update(
    settings: PreferencesView,
    items: Seq<ItemView>,
    pending: Seq<PendingView>,
    k: int,
    i: int,
) -> (at: int)
    requires
        items.len() <= usize::MAX,
        distinct_paths(items),
        0 <= i < items.len(),
        0 <= k < pending.len(),
        canonical(pending[k].image_path) == canonical(items[i].image_path),
        forall|j: int|
            k < j < pending.len() ==> canonical((#[trigger] pending[j]).image_path) != canonical(
                items[i].image_path,
            ),
    ensures
        ({
            let updates = prediction_updates(settings, items, pending);
            &&& 0 <= at < updates.len()
            &&& updates[at].0 == i
            &&& updates[at].1 == caption(
                suggested_tags(settings, items[i].tags, pending[k].predictions),
            )
            &&& forall|j: int| at < j < updates.len() ==> (#[trigger] updates[j]).0 != i
        }),
    decreases pending.len(),
{
    let updates = prediction_updates(settings, items, pending);
    let rest = pending.drop_last();
    let before = prediction_updates(settings, items, rest);
    lemma_only_item(items, pending.last().image_path, i);
    if k == pending.len() - 1 {
        before.len() as int
    } else {
        assert(rest[k] == pending[k]);
        assert forall|j: int| k < j < rest.len() implies canonical((#[trigger] rest[j]).image_path)
            != canonical(items[i].image_path) by {
            assert(pending[j] == rest[j]);
        }
        assert(canonical(pending[pending.len() - 1].image_path) != canonical(items[i].image_path));
        let at = lemma_prediction_update(settings, items, rest, k, i);
        match item_of(items, pending.last().image_path) {
            Some(p) => {
                let q = choose|q: int| is_item_of(items, pending.last().image_path, q);
                assert(is_item_of(items, pending.last().image_path, q));
                assert(p == q && p != i);
                assert forall|j: int| at < j < updates.len() implies (#[trigger] updates[j]).0
                    != i by {
                    if j < before.len() {
                        assert(updates[j] == before[j]);
                    }
                }
            },
            None => {},
        }
        at
    }
}

/// When the tagger is done, an item has the tags that are suggested from the
/// last predictions for its image.
pub proof fn law_tagging_writes_suggestions(
    editor: EditorView,
    data: DatasetView,
    k: int,
    i: int,
)
    requires
        editor.data == Some(data),
        data.items.len() <= usize::MAX,
        distinct_paths(data.items),
        0 <= i < data.items.len(),
        0 <= k < editor.worker.pending.len(),
        canonical(editor.worker.pending[k].image_path) == canonical(data.items[i].image_path),
        forall|j: int|
            k < j < editor.worker.pending.len() ==> canonical(
                (#[trigger] editor.worker.pending[j]).image_path,
            ) != canonical(data.items[i].image_path),
    ensures
        items_of(tagging_done(editor))[i].tags == parsed(
            caption(
                suggested_tags(
                    editor.settings,
                    data.items[i].tags,
                    editor.worker.pending[k].predictions,
                ),
            ),
        ),
{
    let updates = prediction_updates(editor.settings, data.items, editor.worker.pending);
    let at = lemma_prediction_update(editor.settings, data.items, editor.worker.pending, k, i);
    law_last_update_decides(data.items, updates, at);
    if text_changes(data.items, updates) == 0 {
        lemma_no_changes(data.items, updates);
    }
    assert(texts_edited(data, updates).items == texts_set(data.items, updates));
}

/// Of items whose images are the same file the first gets what is suggested, and
/// the others stay.
pub proof fn law_tagging_is_for_the_first_of_equals(
    editor: EditorView,
    data: DatasetView,
    i: int,
    j: int,
)
    requires
        editor.data == Some(data),
        data.items.len() <= usize::MAX,
        0 <= i < j < data.items.len(),
        canonical(data.items[i].image_path) == canonical(data.items[j].image_path),
    ensures
        items_of(tagging_done(editor))[j] == data.items[j],
{
    let updates = prediction_updates(editor.settings, data.items, editor.worker.pending);
    lemma_second_is_not_updated(editor.settings, data.items, editor.worker.pending, i, j);
    law_updates_keep_others(data.items, updates, j);
}

proof fn lemma_second_is_not_updated(
    settings: PreferencesView,
    items: Seq<ItemView>,
    pending: Seq<PendingView>,
    i: int,
    j: int,
)
    requires
        items.len() <= usize::MAX,
        0 <= i < j < items.len(),
        canonical(items[i].image_path) == canonical(items[j].image_path),
    ensures
        !updates_item(prediction_updates(settings, items, pending), j),
    decreases pending.len(),
{
    if pending.len() > 0 {
        let rest = pending.drop_last();
        let before = prediction_updates(settings, items, rest);
        let updates = prediction_updates(settings, items, pending);
        let path = pending.last().image_path;
        lemma_second_is_not_updated(settings, items, rest, i, j);
        if updates_item(updates, j) {
            let k = choose|k: int| 0 <= k < updates.len() && (#[trigger] updates[k]).0 == j;
            if k < before.len() {
                assert(before[k].0 == j);
            } else {
                let p = choose|p: int| is_item_of(items, path, p);
                assert(is_item_of(items, path, p));
                assert(p == j);
                assert(canonical(items[i].image_path) != canonical(path));
            }
        }
    }
}

// ----- What is reported ----------------------------------------------------

/// The number of changes that is reported after captions were written to the
/// visible items is the number of items whose tags are others than before.
pub proof fn law_visible_captions_are_counted(
    editor: EditorView,
    data: DatasetView,
    status: StatusView,
)
    requires
        editor.data == Some(data),
        data.items.len() <= usize::MAX,
    ensures
        ({
            let updates = same_caption(visible_places(editor), editor.caption);
            let after = texts_applied(editor, updates, status);
            &&& changes_of(editor, updates) == change_count(data.items, items_of(after))
            &&& after.status == status
            &&& after.caption_for is None
        }),
{
    let shown = visible_places(editor);
    let updates = same_caption(shown, editor.caption);
    let positive = positive_terms(editor);
    let negative = negative_terms(editor);
    law_places(
        data.items,
        |item: ItemView| shows_item(editor.filters, positive, negative, item),
    );
    assert forall|a: int, b: int| 0 <= a < b < updates.len() implies (#[trigger] updates[a]).0
        != (#[trigger] updates[b]).0 by {
        assert(shown[a] < shown[b]);
    }
    law_changes_are_counted_by_item(data.items, updates);
    lemma_texts_set_len(data.items, updates);
    lemma_count_bound(data.items, texts_set(data.items, updates));
    if text_changes(data.items, updates) == 0 {
        lemma_no_changes(data.items, updates);
    }
}

proof fn lemma_count_bound(before: Seq<ItemView>, after: Seq<ItemView>)
    ensures
        change_count(before, after) <= before.len(),
    decreases before.len(),
{
    if before.len() > 0 {
        lemma_count_bound(before.drop_last(), after.drop_last());
    }
}

/// The number that a batch edit reports is the number of items whose tags are
/// others than before; the text field and the list of common tags are filled in
/// anew after it, and nothing else changes.
pub proof fn law_batch_edits_are_counted(editor: EditorView, data: DatasetView)
    requires
        editor.data == Some(data),
        data.items.len() <= usize::MAX,
        batch_refusal(editor, data) is None,
    ensures
        ({
            let after = batch_run(editor);
            &&& after.status matches StatusView::Done(count)
            &&& count == change_count(data.items, items_of(after))
            &&& after.caption_for is None
            &&& after.form.common_source.len() == 0
            &&& after.filters == editor.filters
            &&& after.current == editor.current
            &&& after.batch == editor.batch
        }),
{
    lemma_count_bound(data.items, items_of(batch_run(editor)));
}

/// Captions that change no tags are no step of the history, and those that change
/// some are one step, after which nothing can be made again.
pub proof fn law_updates_are_one_step(data: DatasetView, updates: Seq<(usize, Seq<char>)>)
    ensures
        texts_set(data.items, updates) == data.items && (forall|a: int, b: int|
            0 <= a < b < updates.len() ==> (#[trigger] updates[a]).0 != (#[trigger] updates[b]).0)
            ==> texts_edited(data, updates) == data,
        texts_set(data.items, updates) != data.items ==> {
            &&& texts_edited(data, updates).items == texts_set(data.items, updates)
            &&& texts_edited(data, updates).undo.len() == data.undo.len() + 1
            &&& texts_edited(data, updates).undo.drop_last() == data.undo
            &&& texts_edited(data, updates).redo.len() == 0
        },
        texts_edited(data, updates).root == data.root,
{
    if text_changes(data.items, updates) == 0 {
        lemma_no_changes(data.items, updates);
    } else {
        assert(texts_edited(data, updates).undo.drop_last() =~= data.undo);
    }
    if texts_set(data.items, updates) == data.items && (forall|a: int, b: int|
        0 <= a < b < updates.len() ==> (#[trigger] updates[a]).0 != (#[trigger] updates[b]).0) {
        law_changes_are_counted_by_item(data.items, updates);
        lemma_same_count(data.items);
    }
}

/// Without a dataset a batch edit changes nothing that it could change, and
/// reports that.
pub proof fn law_batch_edits_of_nothing(editor: EditorView)
    requires
        editor.data is None,
    ensures
        batch_run(editor).data is None,
        batch_run(editor).status == StatusView::Done(0),
{
}

} // verus!
