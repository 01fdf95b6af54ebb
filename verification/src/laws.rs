//! Laws that span the operations of a dataset.

use vstd::prelude::*;

use crate::batch::shortened_list;
use crate::dataset::{
    batch_edited, batch_lists, change_count, edited, item_edited, listed, places, redone, retagged,
    undone, DatasetView,
};
use crate::edits::{
    caption_replaced, changed_text, common_additions, common_edited, common_replaced, each_replaced,
    operated, replacement_at, selected_replaced, without_matches, ChangeView, OperationView,
};
use crate::frequency::{from_last, sorted_tags, tag_ranks, TagSortKey};
use crate::history::snapshot_of;
use crate::item::ItemView;
use crate::order::{
    arrangement, goes_before, lemma_arrangement_exists, lemma_rank_asymmetric, rank_before,
    SortDirection,
};
use crate::paths::{canonical, is_image, stem_of};
use crate::sorting::{item_ranks, sorted_items, SortKey};
use crate::storage::{file_rank, file_ranks, images_among, in_load_order, loaded, spaced, FoundView};
use crate::tags::{
    all_clean, all_parsed, all_tags, caption, deduplicated, law_all_parsed_are_tags,
    law_all_parsed_fixpoint, law_deduplicated, law_parsed_are_tags, lemma_contains_push, parsed,
    without,
};
use crate::text::{is_trimmed, lemma_trimmed_is_trimmed, trimmed};

verus! {

// ----- Undo and redo -------------------------------------------------------

/// Whether no two items have the same path.
pub open spec fn distinct_paths(items: Seq<ItemView>) -> bool {
    forall|i: int, j: int|
        0 <= i < j < items.len() ==> canonical((#[trigger] items[i]).image_path) != canonical(
            (#[trigger] items[j]).image_path,
        )
}

proof fn lemma_snapshot_keys(items: Seq<ItemView>, key: Seq<char>)
    ensures
        snapshot_of(items).contains_key(key) <==> exists|i: int|
            0 <= i < items.len() && canonical((#[trigger] items[i]).image_path) == key,
    decreases items.len(),
{
    if items.len() > 0 {
        let rest = items.drop_last();
        lemma_snapshot_keys(rest, key);
        if exists|i: int| 0 <= i < items.len() && canonical((#[trigger] items[i]).image_path)
            == key {
            let i = choose|i: int|
                0 <= i < items.len() && canonical((#[trigger] items[i]).image_path) == key;
            if i < rest.len() {
                assert(canonical(rest[i].image_path) == key);
            }
        }
        if exists|i: int| 0 <= i < rest.len() && canonical((#[trigger] rest[i]).image_path) == key {
            let i = choose|i: int|
                0 <= i < rest.len() && canonical((#[trigger] rest[i]).image_path) == key;
            assert(canonical(items[i].image_path) == key);
        }
        assert(canonical(items[items.len() - 1].image_path) == canonical(items.last().image_path));
    }
}

proof fn lemma_snapshot_at(items: Seq<ItemView>, i: int)
    requires
        distinct_paths(items),
        0 <= i < items.len(),
    ensures
        snapshot_of(items).contains_key(canonical(items[i].image_path)),
        snapshot_of(items)[canonical(items[i].image_path)] == items[i].tags,
    decreases items.len(),
{
    let rest = items.drop_last();
    if i < rest.len() {
        assert(distinct_paths(rest)) by {
            assert forall|a: int, b: int| 0 <= a < b < rest.len() implies canonical(
                (#[trigger] rest[a]).image_path,
            ) != canonical((#[trigger] rest[b]).image_path) by {
                assert(canonical(items[a].image_path) != canonical(items[b].image_path));
            }
        }
        lemma_snapshot_at(rest, i);
        assert(rest[i] == items[i]);
        assert(canonical(items[i].image_path) != canonical(items[items.len() - 1].image_path));
    }
}

/// Undo gives each image the tags that it had when the step was entered,
/// whatever happened to the order of the items since then.
pub proof fn law_undo_restores_by_path(before: Seq<ItemView>, now: DatasetView, i: int, j: int)
    requires
        distinct_paths(before),
        now.undo.len() > 0,
        now.undo.last() == snapshot_of(before),
        0 <= i < before.len(),
        0 <= j < now.items.len(),
        canonical(now.items[j].image_path) == canonical(before[i].image_path),
    ensures
        undone(now).items[j] == (ItemView { tags: before[i].tags, ..now.items[j] }),
{
    lemma_snapshot_at(before, i);
}

/// An edit that is undone leaves the items as they were, and the history too,
/// but that the edit can be redone.
pub proof fn law_undo_edit(data: DatasetView, lists: Seq<Seq<Seq<char>>>)
    requires
        distinct_paths(data.items),
        edited(data, lists) != data,
    ensures
        undone(edited(data, lists)).items == data.items,
        undone(edited(data, lists)).undo == data.undo,
        undone(edited(data, lists)).redo.len() == 1,
{
    let after = edited(data, lists);
    let back = undone(after);
    assert(after.undo.last() == snapshot_of(data.items));
    assert forall|i: int| 0 <= i < data.items.len() implies back.items[i] == data.items[i] by {
        law_undo_restores_by_path(data.items, after, i, i);
    }
    assert(back.items =~= data.items);
    assert(back.undo =~= data.undo);
}

/// An edit that is undone and redone is as it was.
pub proof fn law_redo_edit(data: DatasetView, lists: Seq<Seq<Seq<char>>>)
    requires
        distinct_paths(data.items),
        edited(data, lists) != data,
    ensures
        redone(undone(edited(data, lists))) == edited(data, lists),
{
    let after = edited(data, lists);
    let back = undone(after);
    law_undo_edit(data, lists);
    assert(distinct_paths(after.items)) by {
        assert forall|a: int, b: int| 0 <= a < b < after.items.len() implies canonical(
            (#[trigger] after.items[a]).image_path,
        ) != canonical((#[trigger] after.items[b]).image_path) by {
            assert(canonical(data.items[a].image_path) != canonical(data.items[b].image_path));
        }
    }
    let again = redone(back);
    assert(back.redo.last() == snapshot_of(after.items));
    assert forall|i: int| 0 <= i < data.items.len() implies again.items[i] == after.items[i] by {
        lemma_snapshot_at(after.items, i);
    }
    assert(again.items =~= after.items);
    assert(again.undo =~= after.undo);
    assert(again.redo =~= after.redo);
    assert(again =~= after);
}

/// Only an edit that changes the tags of some item is entered in the history;
/// then it is one step, and nothing can be redone.
pub proof fn law_history_tracks_changes(data: DatasetView, lists: Seq<Seq<Seq<char>>>)
    ensures
        change_count(data.items, edited(data, lists).items) == 0 <==> edited(data, lists) == data,
        edited(data, lists) != data ==> edited(data, lists).undo == data.undo.push(
            snapshot_of(data.items),
        ) && edited(data, lists).redo.len() == 0,
{
    let after = edited(data, lists);
    lemma_change_count(data.items, after.items);
    if change_count(data.items, after.items) == 0 {
        assert forall|i: int| 0 <= i < data.items.len() implies retagged(data.items, lists)[i]
            == data.items[i] by {
            assert(data.items[i].tags == after.items[i].tags);
        }
        assert(retagged(data.items, lists) =~= data.items);
    }
}

proof fn lemma_change_count(before: Seq<ItemView>, after: Seq<ItemView>)
    requires
        before.len() == after.len(),
    ensures
        change_count(before, after) == 0 <==> forall|i: int|
            0 <= i < before.len() ==> (#[trigger] before[i]).tags == after[i].tags,
    decreases before.len(),
{
    if before.len() > 0 {
        let a = before.drop_last();
        let b = after.drop_last();
        lemma_change_count(a, b);
        if change_count(before, after) == 0 {
            assert forall|i: int| 0 <= i < before.len() implies (#[trigger] before[i]).tags
                == after[i].tags by {
                if i < a.len() {
                    assert(a[i].tags == b[i].tags);
                }
            }
        }
        if forall|i: int| 0 <= i < before.len() ==> (#[trigger] before[i]).tags == after[i].tags {
            assert forall|i: int| 0 <= i < a.len() implies (#[trigger] a[i]).tags == b[i].tags by {
                assert(before[i].tags == after[i].tags);
            }
            assert(before[before.len() - 1].tags == after[before.len() - 1].tags);
        }
    }
}

/// Undo after an edit and a change of the display order gives each image the
/// tags that it had before the edit.
pub proof fn law_undo_after_sort(
    data: DatasetView,
    lists: Seq<Seq<Seq<char>>>,
    key: SortKey,
    direction: SortDirection,
    j: int,
) -> (i: int)
    requires
        distinct_paths(data.items),
        data.items.len() <= usize::MAX,
        edited(data, lists) != data,
        0 <= j < data.items.len(),
    ensures
        ({
            let after = edited(data, lists);
            let sorted = DatasetView { items: sorted_items(after.items, key, direction), ..after };
            &&& 0 <= i < data.items.len()
            &&& undone(sorted).items[j] == data.items[i]
        }),
{
    let after = edited(data, lists);
    let sorted = DatasetView { items: sorted_items(after.items, key, direction), ..after };
    let ranks = item_ranks(after.items, key);
    let descending = direction == SortDirection::Descending;
    let order = arrangement(ranks, descending);
    lemma_arrangement_exists(ranks, descending);
    assert(order.contains(order[j]));
    let i = order[j] as int;
    assert(sorted.items[j] == after.items[i]);
    law_undo_restores_by_path(data.items, sorted, i, j);
    i
}

// ----- Targets -------------------------------------------------------------

/// The places of the items that a predicate holds of are those and no others,
/// in order.
pub proof fn law_places(items: Seq<ItemView>, keep: spec_fn(ItemView) -> bool)
    requires
        items.len() <= usize::MAX,
    ensures
        forall|i: int|
            #[trigger] listed(places(items, keep), i) <==> 0 <= i < items.len() && keep(items[i]),
        forall|a: int, b: int|
            0 <= a < b < places(items, keep).len() ==> #[trigger] places(items, keep)[a]
                < #[trigger] places(items, keep)[b],
        forall|a: int|
            0 <= a < places(items, keep).len() ==> #[trigger] places(items, keep)[a] < items.len(),
    decreases items.len(),
{
    let all = places(items, keep);
    if items.len() > 0 {
        let shorter = items.drop_last();
        let rest = places(shorter, keep);
        law_places(shorter, keep);
        assert forall|i: int| #[trigger] listed(all, i) <==> 0 <= i < items.len() && keep(
            items[i],
        ) by {
            if listed(all, i) {
                let k = choose|k: int| 0 <= k < all.len() && #[trigger] all[k] == i;
                if k < rest.len() {
                    assert(rest[k] == i);
                    assert(listed(rest, i));
                    assert(shorter[i] == items[i]);
                }
            }
            if 0 <= i < items.len() && keep(items[i]) {
                if i < shorter.len() {
                    assert(shorter[i] == items[i]);
                    assert(listed(rest, i));
                    let k = choose|k: int| 0 <= k < rest.len() && #[trigger] rest[k] == i;
                    assert(all[k] == i);
                } else {
                    assert(all[rest.len() as int] == i);
                }
            }
        }
        assert forall|a: int, b: int| 0 <= a < b < all.len() implies #[trigger] all[a]
            < #[trigger] all[b] by {
            assert(rest[a] < shorter.len());
            if b < rest.len() {
                assert(rest[a] < rest[b]);
            }
        }
        assert forall|a: int| 0 <= a < all.len() implies #[trigger] all[a] < items.len() by {
            if a < rest.len() {
                assert(rest[a] < shorter.len());
            }
        }
    }
}

/// A batch edit leaves every item alone that is not listed, and everything of
/// a listed one but its tags.
pub proof fn law_batch_keeps_others(
    data: DatasetView,
    indices: Seq<usize>,
    edit: spec_fn(Seq<Seq<char>>) -> Seq<Seq<char>>,
    i: int,
)
    requires
        0 <= i < data.items.len(),
    ensures
        batch_edited(data, indices, edit).items.len() == data.items.len(),
        batch_edited(data, indices, edit).root == data.root,
        batch_edited(data, indices, edit).items[i] == if listed(indices, i) {
            ItemView { tags: edit(data.items[i].tags), ..data.items[i] }
        } else {
            data.items[i]
        },
{
    let lists = batch_lists(data.items, indices, edit);
    assert(retagged(data.items, lists)[i] == (ItemView { tags: lists[i], ..data.items[i] }));
}

// ----- Tags stay trimmed and not empty -------------------------------------

/// Whether every item, and every snapshot of the history, has only tags that
/// are trimmed and not empty.
pub open spec fn is_clean(data: DatasetView) -> bool {
    &&& forall|i: int| 0 <= i < data.items.len() ==> all_clean((#[trigger] data.items[i]).tags)
    &&& forall|k: int, path: Seq<char>|
        0 <= k < data.undo.len() && (#[trigger] data.undo[k].contains_key(path)) ==> all_clean(
            data.undo[k][path],
        )
    &&& forall|k: int, path: Seq<char>|
        0 <= k < data.redo.len() && (#[trigger] data.redo[k].contains_key(path)) ==> all_clean(
            data.redo[k][path],
        )
}

/// A snapshot of clean items is clean.
pub proof fn lemma_snapshot_clean(items: Seq<ItemView>, path: Seq<char>)
    requires
        forall|i: int| 0 <= i < items.len() ==> all_clean((#[trigger] items[i]).tags),
        snapshot_of(items).contains_key(path),
    ensures
        all_clean(snapshot_of(items)[path]),
    decreases items.len(),
{
    let rest = items.drop_last();
    assert(all_clean(items[items.len() - 1].tags));
    if path != canonical(items.last().image_path) {
        assert forall|i: int| 0 <= i < rest.len() implies all_clean((#[trigger] rest[i]).tags) by {
            assert(all_clean(items[i].tags));
        }
        lemma_snapshot_clean(rest, path);
    }
}

/// An edit that gives only trimmed tags that are not empty keeps a dataset so.
pub proof fn law_edit_stays_clean(data: DatasetView, lists: Seq<Seq<Seq<char>>>)
    requires
        is_clean(data),
        forall|i: int| 0 <= i < data.items.len() ==> all_clean(#[trigger] lists[i]),
    ensures
        is_clean(edited(data, lists)),
{
    let after = edited(data, lists);
    assert forall|i: int| 0 <= i < after.items.len() implies all_clean(
        (#[trigger] after.items[i]).tags,
    ) by {
        assert(all_clean(lists[i]));
        assert(all_clean(data.items[i].tags));
    }
    assert forall|k: int, path: Seq<char>|
        0 <= k < after.undo.len() && (#[trigger] after.undo[k].contains_key(path)) implies all_clean(
        after.undo[k][path],
    ) by {
        if k < data.undo.len() {
            assert(data.undo[k].contains_key(path));
        } else {
            lemma_snapshot_clean(data.items, path);
        }
    }
}

/// A batch edit keeps a dataset clean where what it makes of a clean list is
/// clean.
pub proof fn law_batch_stays_clean(
    data: DatasetView,
    indices: Seq<usize>,
    edit: spec_fn(Seq<Seq<char>>) -> Seq<Seq<char>>,
)
    requires
        is_clean(data),
        forall|tags: Seq<Seq<char>>| all_clean(tags) ==> all_clean(#[trigger] edit(tags)),
    ensures
        is_clean(batch_edited(data, indices, edit)),
{
    let lists = batch_lists(data.items, indices, edit);
    assert forall|i: int| 0 <= i < data.items.len() implies all_clean(#[trigger] lists[i]) by {
        assert(all_clean(data.items[i].tags));
    }
    law_edit_stays_clean(data, lists);
}

/// An edit of one item keeps a dataset clean where its new tags are trimmed and
/// not empty.
pub proof fn law_item_edit_stays_clean(data: DatasetView, index: int, tags: Seq<Seq<char>>)
    requires
        is_clean(data),
        all_clean(tags),
    ensures
        is_clean(item_edited(data, index, tags)),
{
    let lists = Seq::new(
        data.items.len(),
        |i: int|
            if i == index {
                tags
            } else {
                data.items[i].tags
            },
    );
    assert forall|i: int| 0 <= i < data.items.len() implies all_clean(#[trigger] lists[i]) by {
        assert(all_clean(data.items[i].tags));
    }
    law_edit_stays_clean(data, lists);
    assert(item_edited(data, index, tags) == edited(data, lists));
}

/// The tags that the edits of one item give are trimmed and not empty: those of
/// a caption, those of a list, tags with more of them at the end, tags without
/// one of them, and tags without repetitions.
pub proof fn law_item_edits_are_clean(
    tags: Seq<Seq<char>>,
    text: Seq<char>,
    terms: Seq<Seq<char>>,
    value: Seq<char>,
)
    requires
        all_clean(tags),
    ensures
        all_clean(parsed(text)),
        all_clean(all_parsed(terms)),
        all_clean(tags + parsed(text)),
        all_clean(without(tags, value)),
        all_clean(deduplicated(tags)),
{
    law_parsed_are_tags(text);
    law_all_parsed_are_tags(terms);
    law_operations_are_clean(OperationView::Append(text), tags);
    law_operations_are_clean(OperationView::Deduplicate, tags);
    lemma_without_clean(tags, value);
}

/// Undo and redo keep a dataset clean.
pub proof fn law_undo_stays_clean(data: DatasetView)
    requires
        is_clean(data),
    ensures
        is_clean(undone(data)),
        is_clean(redone(data)),
{
    if data.undo.len() > 0 {
        let back = undone(data);
        let snapshot = data.undo[data.undo.len() - 1];
        assert forall|i: int| 0 <= i < back.items.len() implies all_clean(
            (#[trigger] back.items[i]).tags,
        ) by {
            assert(all_clean(data.items[i].tags));
            if snapshot.contains_key(canonical(data.items[i].image_path)) {
                assert(all_clean(snapshot[canonical(data.items[i].image_path)]));
            }
        }
        assert forall|k: int, path: Seq<char>|
            0 <= k < back.undo.len() && (
            #[trigger] back.undo[k].contains_key(path)) implies all_clean(back.undo[k][path]) by {
            assert(data.undo[k].contains_key(path));
        }
        assert forall|k: int, path: Seq<char>|
            0 <= k < back.redo.len() && (
            #[trigger] back.redo[k].contains_key(path)) implies all_clean(back.redo[k][path]) by {
            if k < data.redo.len() {
                assert(data.redo[k].contains_key(path));
            } else {
                lemma_snapshot_clean(data.items, path);
            }
        }
    }
    if data.redo.len() > 0 {
        let forth = redone(data);
        let snapshot = data.redo[data.redo.len() - 1];
        assert forall|i: int| 0 <= i < forth.items.len() implies all_clean(
            (#[trigger] forth.items[i]).tags,
        ) by {
            assert(all_clean(data.items[i].tags));
            if snapshot.contains_key(canonical(data.items[i].image_path)) {
                assert(all_clean(snapshot[canonical(data.items[i].image_path)]));
            }
        }
        assert forall|k: int, path: Seq<char>|
            0 <= k < forth.redo.len() && (
            #[trigger] forth.redo[k].contains_key(path)) implies all_clean(forth.redo[k][path]) by {
            assert(data.redo[k].contains_key(path));
        }
        assert forall|k: int, path: Seq<char>|
            0 <= k < forth.undo.len() && (
            #[trigger] forth.undo[k].contains_key(path)) implies all_clean(forth.undo[k][path]) by {
            if k < data.undo.len() {
                assert(data.undo[k].contains_key(path));
            } else {
                lemma_snapshot_clean(data.items, path);
            }
        }
    }
}

proof fn lemma_clean_add(a: Seq<Seq<char>>, b: Seq<Seq<char>>)
    requires
        all_clean(a),
        all_clean(b),
    ensures
        all_clean(a + b),
{
    assert forall|i: int| 0 <= i < (a + b).len() implies (#[trigger] (a + b)[i]).len() > 0
        && is_trimmed((a + b)[i]) by {
        if i < a.len() {
            assert((a + b)[i] == a[i]);
        } else {
            assert((a + b)[i] == b[i - a.len()]);
        }
    }
}

proof fn lemma_clean_push(a: Seq<Seq<char>>, tag: Seq<char>)
    requires
        all_clean(a),
        all_clean(seq![tag]),
    ensures
        all_clean(a.push(tag)),
{
    assert(a + seq![tag] =~= a.push(tag));
    lemma_clean_add(a, seq![tag]);
}

proof fn lemma_clean_rest(tags: Seq<Seq<char>>)
    requires
        all_clean(tags),
        tags.len() > 0,
    ensures
        all_clean(tags.drop_last()),
        all_clean(seq![tags.last()]),
{
    assert forall|i: int| 0 <= i < tags.drop_last().len() implies (
    #[trigger] tags.drop_last()[i]).len() > 0 && is_trimmed(tags.drop_last()[i]) by {
        assert(tags[i].len() > 0);
    }
    assert(tags[tags.len() - 1].len() > 0);
}

proof fn lemma_parsed_clean(text: Seq<char>)
    ensures
        all_clean(parsed(text)),
{
    law_parsed_are_tags(text);
}

proof fn lemma_all_parsed_clean(terms: Seq<Seq<char>>)
    ensures
        all_clean(all_parsed(terms)),
{
    law_all_parsed_are_tags(terms);
}

/// A replacement in whole captions leaves tags that are trimmed and not empty,
/// and one in selected tags keeps a list so.
pub proof fn law_replacements_are_clean(
    tags: Seq<Seq<char>>,
    selected: Seq<Seq<char>>,
    change: ChangeView,
)
    requires
        all_clean(tags),
    ensures
        all_clean(caption_replaced(tags, change)),
        all_clean(each_replaced(tags, change)),
        all_clean(selected_replaced(tags, selected, change)),
    decreases tags.len(),
{
    lemma_parsed_clean(changed_text(change, caption(tags)));
    lemma_all_parsed_clean(Seq::new(tags.len(), |i: int| changed_text(change, tags[i])));
    if tags.len() > 0 {
        lemma_clean_rest(tags);
        law_replacements_are_clean(tags.drop_last(), selected, change);
        let rest = selected_replaced(tags.drop_last(), selected, change);
        lemma_parsed_clean(changed_text(change, tags.last()));
        lemma_clean_add(rest, parsed(changed_text(change, tags.last())));
        lemma_clean_push(rest, tags.last());
    }
}

/// An edit of common tags keeps a list of tags trimmed and not empty.
pub proof fn law_common_edit_is_clean(
    tags: Seq<Seq<char>>,
    common: Seq<Seq<char>>,
    edited_tags: Seq<Seq<char>>,
    prepend_additions: bool,
)
    requires
        all_clean(tags),
    ensures
        all_clean(common_edited(tags, common, edited_tags, prepend_additions)),
{
    lemma_common_replaced_clean(tags, common, edited_tags);
    let kept = common_replaced(tags, common, edited_tags);
    let additions = common_additions(common, edited_tags);
    lemma_all_parsed_clean(edited_tags.skip(common.len() as int));
    lemma_clean_add(additions, kept);
    lemma_clean_add(kept, additions);
}

proof fn lemma_common_replaced_clean(
    tags: Seq<Seq<char>>,
    common: Seq<Seq<char>>,
    edited_tags: Seq<Seq<char>>,
)
    requires
        all_clean(tags),
    ensures
        all_clean(common_replaced(tags, common, edited_tags)),
    decreases tags.len(),
{
    if tags.len() > 0 {
        lemma_clean_rest(tags);
        lemma_common_replaced_clean(tags.drop_last(), common, edited_tags);
        let rest = common_replaced(tags.drop_last(), common, edited_tags);
        let at = common.index_of_first(tags.last())->0;
        if 0 <= at < edited_tags.len() {
            lemma_parsed_clean(edited_tags[at]);
        }
        lemma_clean_add(rest, replacement_at(edited_tags, at));
        lemma_clean_push(rest, tags.last());
    }
}

/// Every operation keeps a list of tags trimmed and not empty.
pub proof fn law_operations_are_clean(operation: OperationView, tags: Seq<Seq<char>>)
    requires
        all_clean(tags),
    ensures
        all_clean(operated(operation, tags)),
{
    match operation {
        OperationView::Append(value) => {
            lemma_parsed_clean(value);
            lemma_clean_add(tags, parsed(value));
        },
        OperationView::Prepend(value) => {
            lemma_parsed_clean(value);
            lemma_clean_add(parsed(value), tags);
        },
        OperationView::Remove(value) => {
            lemma_without_clean(tags, trimmed(value));
        },
        OperationView::RemoveRegex(pattern) => {
            lemma_without_matches_clean(tags, pattern);
        },
        OperationView::Replace { pattern, replacement } => {
            law_replacements_are_clean(tags, tags, ChangeView::Pattern { pattern, replacement });
        },
        OperationView::ReplaceLiteral { from, to } => {
            law_replacements_are_clean(tags, tags, ChangeView::Literal { from, to });
        },
        OperationView::Deduplicate => {
            law_deduplicated(tags);
            lemma_members_clean(deduplicated(tags), tags);
        },
    }
}

proof fn lemma_without_clean(tags: Seq<Seq<char>>, value: Seq<char>)
    requires
        all_clean(tags),
    ensures
        all_clean(without(tags, value)),
    decreases tags.len(),
{
    if tags.len() > 0 {
        lemma_clean_rest(tags);
        lemma_without_clean(tags.drop_last(), value);
        lemma_clean_push(without(tags.drop_last(), value), tags.last());
    }
}

proof fn lemma_without_matches_clean(tags: Seq<Seq<char>>, pattern: Seq<char>)
    requires
        all_clean(tags),
    ensures
        all_clean(without_matches(tags, pattern)),
    decreases tags.len(),
{
    if tags.len() > 0 {
        lemma_clean_rest(tags);
        lemma_without_matches_clean(tags.drop_last(), pattern);
        lemma_clean_push(without_matches(tags.drop_last(), pattern), tags.last());
    }
}

proof fn lemma_members_clean(part: Seq<Seq<char>>, tags: Seq<Seq<char>>)
    requires
        all_clean(tags),
        forall|i: int| 0 <= i < part.len() ==> tags.contains(#[trigger] part[i]),
    ensures
        all_clean(part),
{
    assert forall|i: int| 0 <= i < part.len() implies (#[trigger] part[i]).len() > 0
        && is_trimmed(part[i]) by {
        let k = choose|k: int| 0 <= k < tags.len() && tags[k] == part[i];
        assert(tags[k].len() > 0);
    }
}

/// Sorting and shortening keep a list of tags trimmed and not empty, and
/// shortening leaves at most the given number of tags: the first ones.
pub proof fn law_sorted_and_shortened_are_clean(
    tags: Seq<Seq<char>>,
    counts: Map<Seq<char>, nat>,
    key: TagSortKey,
    direction: SortDirection,
    count: nat,
)
    requires
        all_clean(tags),
        tags.len() <= usize::MAX,
    ensures
        all_clean(sorted_tags(counts, key, direction, tags)),
        all_clean(shortened_list(tags, count)),
        shortened_list(tags, count).len() <= count,
        shortened_list(tags, count).is_prefix_of(tags),
{
    let ranks = tag_ranks(counts, key, direction, tags);
    let descending = from_last(key, direction);
    let order = arrangement(ranks, descending);
    let sorted = sorted_tags(counts, key, direction, tags);
    lemma_arrangement_exists(ranks, descending);
    assert forall|i: int| 0 <= i < sorted.len() implies tags.contains(#[trigger] sorted[i]) by {
        assert(order.contains(order[i]));
        assert(tags[order[i] as int] == sorted[i]);
    }
    lemma_members_clean(sorted, tags);
    let short = shortened_list(tags, count);
    assert forall|i: int| 0 <= i < short.len() implies tags.contains(#[trigger] short[i]) by {
        assert(tags[i] == short[i]);
    }
    lemma_members_clean(short, tags);
}

/// A dataset that was loaded is clean.
pub proof fn law_loaded_is_clean(
    root: Seq<char>,
    found: Seq<FoundView>,
    suffix: Seq<char>,
    filename_fallback: bool,
)
    ensures
        is_clean(loaded(root, found, suffix, filename_fallback)),
{
    let data = loaded(root, found, suffix, filename_fallback);
    let files = in_load_order(found);
    assert forall|i: int| 0 <= i < data.items.len() implies all_clean(
        (#[trigger] data.items[i]).tags,
    ) by {
        let file = files[i];
        match file.caption {
            Some(bytes) => {
                lemma_parsed_clean(vstd::utf8::decode_utf8(bytes));
            },
            None => {
                match stem_of(file.path) {
                    Some(stem) => {
                        lemma_trimmed_is_trimmed(spaced(stem));
                    },
                    None => {},
                }
            },
        }
    }
}

// ----- Common tags ---------------------------------------------------------

/// Common tags that are left as they are leave every caption as it is.
pub proof fn law_common_unchanged(
    tags: Seq<Seq<char>>,
    common: Seq<Seq<char>>,
    prepend_additions: bool,
)
    requires
        all_tags(common),
    ensures
        common_edited(tags, common, common, prepend_additions) == tags,
{
    lemma_common_replaced_unchanged(tags, common);
    let none = Seq::<Seq<char>>::empty();
    assert(none + tags =~= tags);
    assert(tags + none =~= tags);
}

proof fn lemma_common_replaced_unchanged(tags: Seq<Seq<char>>, common: Seq<Seq<char>>)
    requires
        all_tags(common),
    ensures
        common_replaced(tags, common, common) == tags,
    decreases tags.len(),
{
    if tags.len() > 0 {
        let rest = tags.drop_last();
        let last = tags.last();
        lemma_common_replaced_unchanged(rest, common);
        assert(rest.push(last) =~= tags);
        if common.contains(last) {
            common.index_of_first_ensures(last);
            let at = common.index_of_first(last)->0;
            assert(common[at] == last);
            let single = seq![last];
            assert(all_tags(single));
            law_all_parsed_fixpoint(single);
            assert(single.drop_last() =~= Seq::<Seq<char>>::empty());
            assert(all_parsed(single.drop_last()) =~= Seq::<Seq<char>>::empty());
            assert(all_parsed(single) == Seq::<Seq<char>>::empty() + parsed(last));
            assert(Seq::<Seq<char>>::empty() + parsed(last) =~= parsed(last));
            assert(rest + seq![last] =~= tags);
        }
    } else {
        assert(tags =~= Seq::<Seq<char>>::empty());
    }
}

// ----- The order of loading ------------------------------------------------

/// Whether no two files have the same path.
pub open spec fn distinct_files(found: Seq<FoundView>) -> bool {
    forall|i: int, j: int|
        0 <= i < j < found.len() ==> (#[trigger] found[i]).path != (#[trigger] found[j]).path
}

/// Whether two lists hold the same files.
pub open spec fn same_files(a: Seq<FoundView>, b: Seq<FoundView>) -> bool {
    forall|file: FoundView| #[trigger] a.contains(file) <==> b.contains(file)
}

spec fn ordered_files(files: Seq<FoundView>) -> bool {
    forall|i: int, j: int|
        0 <= i < j < files.len() ==> rank_before(
            file_rank(#[trigger] files[i]),
            file_rank(#[trigger] files[j]),
        )
}

proof fn lemma_images_among(found: Seq<FoundView>)
    ensures
        forall|file: FoundView| #[trigger]
            images_among(found).contains(file) <==> found.contains(file) && is_image(file.path),
        distinct_files(found) ==> distinct_files(images_among(found)),
        images_among(found).len() <= found.len(),
    decreases found.len(),
{
    if found.len() > 0 {
        let rest = found.drop_last();
        let last = found.last();
        let images = images_among(rest);
        lemma_images_among(rest);
        assert(rest.push(last) =~= found);
        assert forall|file: FoundView| #[trigger] images_among(found).contains(file)
            <==> found.contains(file) && is_image(file.path) by {
            lemma_contains_push(rest, last, file);
            lemma_contains_push(images, last, file);
            assert(images.contains(file) <==> rest.contains(file) && is_image(file.path));
        }
        if distinct_files(found) {
            assert(distinct_files(rest)) by {
                assert forall|i: int, j: int| 0 <= i < j < rest.len() implies (
                #[trigger] rest[i]).path != (#[trigger] rest[j]).path by {
                    assert(found[i].path != found[j].path);
                }
            }
            let all = images_among(found);
            assert forall|i: int, j: int| 0 <= i < j < all.len() implies (#[trigger] all[i]).path
                != (#[trigger] all[j]).path by {
                if j < images.len() {
                    assert(images[i].path != images[j].path);
                } else {
                    assert(images.contains(images[i]));
                    let k = choose|k: int| 0 <= k < rest.len() && rest[k] == images[i];
                    assert(found[k].path != found[found.len() - 1].path);
                }
            }
        }
    }
}

proof fn lemma_load_order(found: Seq<FoundView>)
    requires
        distinct_files(found),
        found.len() <= usize::MAX,
    ensures
        ordered_files(in_load_order(found)),
        forall|file: FoundView| #[trigger]
            in_load_order(found).contains(file) <==> found.contains(file) && is_image(file.path),
{
    let images = images_among(found);
    let ranks = file_ranks(images);
    let order = arrangement(ranks, false);
    let files = in_load_order(found);
    lemma_images_among(found);
    lemma_arrangement_exists(ranks, false);
    assert forall|i: int, j: int| 0 <= i < j < files.len() implies rank_before(
        file_rank(#[trigger] files[i]),
        file_rank(#[trigger] files[j]),
    ) by {
        assert(order.contains(order[i]) && order.contains(order[j]));
        assert(goes_before(ranks, false, order[i] as int, order[j] as int));
        let a = order[i] as int;
        let b = order[j] as int;
        assert(a != b);
        if a < b {
            assert(images[a].path != images[b].path);
        } else {
            assert(images[b].path != images[a].path);
        }
    }
    assert forall|file: FoundView| #[trigger] files.contains(file) <==> images.contains(file) by {
        if files.contains(file) {
            let k = choose|k: int| 0 <= k < files.len() && files[k] == file;
            assert(order.contains(order[k]));
            assert(images[order[k] as int] == file);
        }
        if images.contains(file) {
            let k = choose|k: int| 0 <= k < images.len() && images[k] == file;
            assert(order.contains(k as usize));
            let p = choose|p: int| 0 <= p < order.len() && order[p] == k as usize;
            assert(files[p] == file);
        }
    }
}

proof fn lemma_ordered_files_prefix(a: Seq<FoundView>, b: Seq<FoundView>, n: int)
    requires
        ordered_files(a),
        ordered_files(b),
        same_files(a, b),
        0 <= n <= a.len(),
    ensures
        n <= b.len(),
        forall|i: int| 0 <= i < n ==> a[i] == b[i],
    decreases n,
{
    if n > 0 {
        let i = n - 1;
        lemma_ordered_files_prefix(a, b, i);
        assert(a.contains(a[i]));
        assert(b.contains(a[i]));
        let p = choose|p: int| 0 <= p < b.len() && b[p] == a[i];
        if p < i {
            assert(rank_before(file_rank(a[p]), file_rank(a[i])));
            lemma_rank_asymmetric(file_rank(a[i]), file_rank(a[i]));
        }
        if a[i] != b[i] {
            assert(b.contains(b[i]));
            assert(a.contains(b[i]));
            let q = choose|q: int| 0 <= q < a.len() && a[q] == b[i];
            if q < i {
                assert(rank_before(file_rank(b[q]), file_rank(b[i])));
                lemma_rank_asymmetric(file_rank(b[i]), file_rank(b[i]));
            }
            assert(rank_before(file_rank(b[i]), file_rank(b[p])));
            assert(rank_before(file_rank(a[i]), file_rank(a[q])));
            lemma_rank_asymmetric(file_rank(a[i]), file_rank(b[i]));
        }
    }
}

/// A dataset does not depend on the order in which its files were found.
pub proof fn law_load_order(
    root: Seq<char>,
    a: Seq<FoundView>,
    b: Seq<FoundView>,
    suffix: Seq<char>,
    filename_fallback: bool,
)
    requires
        distinct_files(a),
        distinct_files(b),
        same_files(a, b),
        a.len() <= usize::MAX,
        b.len() <= usize::MAX,
    ensures
        in_load_order(a) == in_load_order(b),
        loaded(root, a, suffix, filename_fallback) == loaded(root, b, suffix, filename_fallback),
{
    let x = in_load_order(a);
    let y = in_load_order(b);
    lemma_load_order(a);
    lemma_load_order(b);
    assert(same_files(x, y)) by {
        assert forall|file: FoundView| #[trigger] x.contains(file) <==> y.contains(file) by {
            assert(a.contains(file) <==> b.contains(file));
        }
    }
    lemma_ordered_files_prefix(x, y, x.len() as int);
    lemma_ordered_files_prefix(y, x, y.len() as int);
    assert(x =~= y);
}

} // verus!
