//! What the operations on a dataset change and what they count.

use vstd::prelude::*;

use crate::batch::every_tag;
use crate::dataset::{
    all_selected, any_listed, change_count, common_of, gathered, in_all, item_edited, listed,
    retagged, selection_set, undone, DatasetView,
};
use crate::frequency::{count_in, frequencies, occurrences};
use crate::grid::marked;
use crate::item::ItemView;
use crate::order::strictly_ordered;
use crate::paths::canonical;
use crate::tag_set::ordered_list;
use crate::text_laws::law_set_is_listed_in_order;

verus! {

// ----- Edits and marks -----------------------------------------------------

/// An edit of one item gives it its new tags, and leaves every other item, the
/// place of the dataset and everything else of the item as they are.
pub proof fn law_edit_of_one_item(data: DatasetView, index: int, tags: Seq<Seq<char>>, i: int)
    requires
        0 <= index < data.items.len(),
        0 <= i < data.items.len(),
    ensures
        ({
            let after = item_edited(data, index, tags);
            &&& after.items.len() == data.items.len()
            &&& after.root == data.root
            &&& after.items[index].tags == tags
            &&& after.items[index].image_path == data.items[index].image_path
            &&& after.items[index].tag_path == data.items[index].tag_path
            &&& after.items[index].selected == data.items[index].selected
            &&& after.items[index].original == data.items[index].original
            &&& i != index ==> after.items[i] == data.items[i]
        }),
{
    let lists = Seq::new(
        data.items.len(),
        |k: int|
            if k == index {
                tags
            } else {
                data.items[k].tags
            },
    );
    let items = retagged(data.items, lists);
    assert(items[i] == (ItemView { tags: lists[i], ..data.items[i] }));
    assert(items[index] == (ItemView { tags: lists[index], ..data.items[index] }));
}

/// Whether two items are the same but for being checked.
pub open spec fn same_but_checked(a: ItemView, b: ItemView) -> bool {
    &&& a.image_path == b.image_path
    &&& a.tag_path == b.tag_path
    &&& a.tags == b.tags
    &&& a.original == b.original
}

/// To check items is no edit: whichever way it is done, the history and the
/// items stay as they are but for their marks, and only the items that are meant
/// get one. Checking an item is for that item, checking all for all of them, and
/// checking a list of items for those; turning the marks of a list turns each.
pub proof fn law_marks_are_for_what_is_meant(
    data: DatasetView,
    index: int,
    selected: bool,
    indices: Seq<usize>,
    i: int,
)
    requires
        0 <= i < data.items.len(),
    ensures
        ({
            let one = selection_set(data, index, selected);
            let all = all_selected(data, selected);
            let some = marked(data, indices, false);
            let turned = marked(data, indices, true);
            &&& one.items.len() == all.items.len() == data.items.len()
            &&& some.items.len() == turned.items.len() == data.items.len()
            &&& one.root == data.root && all.root == data.root
            &&& some.root == data.root && turned.root == data.root
            &&& one.undo == data.undo && one.redo == data.redo
            &&& all.undo == data.undo && all.redo == data.redo
            &&& some.undo == data.undo && some.redo == data.redo
            &&& turned.undo == data.undo && turned.redo == data.redo
            &&& same_but_checked(one.items[i], data.items[i])
            &&& same_but_checked(all.items[i], data.items[i])
            &&& same_but_checked(some.items[i], data.items[i])
            &&& same_but_checked(turned.items[i], data.items[i])
            &&& one.items[i].selected == if i == index {
                selected
            } else {
                data.items[i].selected
            }
            &&& all.items[i].selected == selected
            &&& some.items[i].selected == (data.items[i].selected || exists|k: int|
                0 <= k < indices.len() && #[trigger] indices[k] == i)
            &&& turned.items[i].selected == (data.items[i].selected != exists|k: int|
                0 <= k < indices.len() && #[trigger] indices[k] == i)
        }),
{
}

/// The number of changes counts the items whose tags are others than before,
/// each once.
pub proof fn law_changes_are_counted_once(
    before: Seq<ItemView>,
    after: Seq<ItemView>,
    a: ItemView,
    b: ItemView,
)
    requires
        before.len() == after.len(),
    ensures
        change_count(before, before) == 0,
        change_count(before.push(a), after.push(b)) == change_count(before, after) + if a.tags
            == b.tags {
            0int
        } else {
            1int
        },
        change_count(before, after) <= before.len(),
    decreases before.len(),
{
    assert(before.push(a).drop_last() =~= before);
    assert(after.push(b).drop_last() =~= after);
    if before.len() > 0 {
        law_changes_are_counted_once(before.drop_last(), after.drop_last(), a, b);
    }
}

// ----- Counts --------------------------------------------------------------

/// A tag is counted as often as it stands in the list, and only what stands
/// there is counted.
pub proof fn law_tags_are_counted(list: Seq<Seq<char>>, tag: Seq<char>)
    ensures
        count_in(frequencies(list), tag) == list.to_multiset().count(tag),
        frequencies(list).contains_key(tag) <==> list.contains(tag),
    decreases list.len(),
{
    broadcast use vstd::seq_lib::group_to_multiset_ensures;

    lemma_occurrences_count(list, tag);
    if !list.contains(tag) {
        assert(list.to_multiset().count(tag) == 0);
    }
}

proof fn lemma_occurrences_count(list: Seq<Seq<char>>, tag: Seq<char>)
    ensures
        occurrences(list, tag) == list.to_multiset().count(tag),
    decreases list.len(),
{
    broadcast use vstd::seq_lib::group_to_multiset_ensures;

    if list.len() > 0 {
        lemma_occurrences_count(list.drop_last(), tag);
        assert(list =~= list.drop_last().push(list.last()));
    }
}

/// The tags of listed items are gathered item by item, each item once however
/// often it is listed; those of all items likewise.
pub proof fn law_tags_are_gathered(items: Seq<ItemView>, indices: Seq<usize>)
    ensures
        gathered(items, indices) == Seq::new(
            items.len(),
            |i: int|
                if exists|k: int| 0 <= k < indices.len() && #[trigger] indices[k] == i {
                    items[i].tags
                } else {
                    Seq::<Seq<char>>::empty()
                },
        ).flatten(),
        every_tag(items) == Seq::new(items.len(), |i: int| items[i].tags).flatten(),
    decreases items.len(),
{
    let parts = Seq::new(
        items.len(),
        |i: int|
            if exists|k: int| 0 <= k < indices.len() && #[trigger] indices[k] == i {
                items[i].tags
            } else {
                Seq::<Seq<char>>::empty()
            },
    );
    let all = Seq::new(items.len(), |i: int| items[i].tags);
    if items.len() > 0 {
        let less = items.drop_last();
        law_tags_are_gathered(less, indices);
        let fewer = Seq::new(
            less.len(),
            |i: int|
                if exists|k: int| 0 <= k < indices.len() && #[trigger] indices[k] == i {
                    less[i].tags
                } else {
                    Seq::<Seq<char>>::empty()
                },
        );
        let part = if listed(indices, items.len() - 1) {
            items.last().tags
        } else {
            Seq::<Seq<char>>::empty()
        };
        assert(parts =~= fewer.push(part));
        fewer.lemma_flatten_push(part);
        assert(gathered(items, indices) =~= fewer.flatten() + part);
        let most = Seq::new(less.len(), |i: int| less[i].tags);
        assert(all =~= most.push(items.last().tags));
        most.lemma_flatten_push(items.last().tags);
    } else {
        assert(parts.flatten() =~= Seq::<Seq<char>>::empty());
        assert(all.flatten() =~= Seq::<Seq<char>>::empty());
    }
}

// ----- Common tags ---------------------------------------------------------

/// The common tags of listed items are in order, and a tag is among them if and
/// only if some item is listed and every listed item has it.
pub proof fn law_common_tags(items: Seq<ItemView>, indices: Seq<usize>, tag: Seq<char>)
    ensures
        strictly_ordered(common_of(items, indices)),
        common_of(items, indices).contains(tag) <==> {
            &&& exists|k: int| 0 <= k < indices.len() && #[trigger] indices[k] < items.len()
            &&& forall|k: int|
                0 <= k < indices.len() && #[trigger] indices[k] < items.len()
                    ==> items[indices[k] as int].tags.contains(tag)
        },
{
    let wanted = if any_listed(items, indices) {
        let first = choose|i: int| 0 <= i < items.len() && #[trigger] listed(indices, i);
        vstd::seq_lib::seq_to_set_is_finite(items[first].tags);
        items[first].tags.to_set().filter(|text: Seq<char>| in_all(items, indices, text))
    } else {
        Set::<Seq<char>>::empty()
    };
    assert forall|text: Seq<char>| #[trigger] wanted.contains(text) <==> in_all(
        items,
        indices,
        text,
    ) by {
        if any_listed(items, indices) {
            let first = choose|i: int| 0 <= i < items.len() && #[trigger] listed(indices, i);
            assert(items[first].tags.to_set().contains(text) <==> items[first].tags.contains(text));
        }
    }
    assert(wanted.finite());
    law_set_is_listed_in_order(wanted);
    let witness = ordered_list(wanted);
    assert forall|text: Seq<char>| #[trigger] witness.contains(text) <==> in_all(
        items,
        indices,
        text,
    ) by {
        assert(witness.contains(text) <==> wanted.contains(text));
    }
    let common = common_of(items, indices);
    assert(strictly_ordered(common) && forall|text: Seq<char>| #[trigger]
        common.contains(text) <==> in_all(items, indices, text));
    assert(common.contains(tag) <==> in_all(items, indices, tag));
    if in_all(items, indices, tag) {
        let first = choose|i: int| 0 <= i < items.len() && #[trigger] listed(indices, i);
        let k = choose|k: int| 0 <= k < indices.len() && #[trigger] indices[k] == first;
        assert(indices[k] < items.len());
        assert forall|k: int|
            0 <= k < indices.len() && #[trigger] indices[k]
                < items.len() implies items[indices[k] as int].tags.contains(tag) by {
            assert(listed(indices, indices[k] as int));
        }
    }
    if exists|k: int| 0 <= k < indices.len() && #[trigger] indices[k] < items.len() {
        let k = choose|k: int| 0 <= k < indices.len() && #[trigger] indices[k] < items.len();
        assert(listed(indices, indices[k] as int));
        assert(any_listed(items, indices));
    }
    if forall|k: int|
        0 <= k < indices.len() && #[trigger] indices[k] < items.len()
            ==> items[indices[k] as int].tags.contains(tag) {
        assert forall|i: int| 0 <= i < items.len() && listed(indices, i) implies (
        #[trigger] items[i]).tags.contains(tag) by {
            let k = choose|k: int| 0 <= k < indices.len() && #[trigger] indices[k] == i;
            assert(indices[k] < items.len());
        }
    }
}

/// An item that the last step of the history knows nothing of is left by going
/// back, and nothing but tags is changed by it.
pub proof fn law_undo_is_for_known_items(data: DatasetView, i: int)
    requires
        data.undo.len() > 0,
        0 <= i < data.items.len(),
    ensures
        undone(data).items.len() == data.items.len(),
        undone(data).root == data.root,
        !data.undo.last().contains_key(canonical(data.items[i].image_path)) ==> undone(
            data,
        ).items[i] == data.items[i],
        undone(data).items[i] == (ItemView { tags: undone(data).items[i].tags, ..data.items[i] }),
        undone(data).undo == data.undo.take(data.undo.len() - 1),
        undone(data).redo.len() == data.redo.len() + 1,
        undone(data).redo.take(data.redo.len() as int) == data.redo,
{
    assert(undone(data).undo =~= data.undo.take(data.undo.len() - 1));
    assert(undone(data).redo.take(data.redo.len() as int) =~= data.redo);
}

} // verus!
