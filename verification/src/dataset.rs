//! Datasets: items with their tags, selection, filtering, editing and history.
//!
//! A dataset holds no state of a user interface but the selection. Paths are
//! texts with `/` between their components; whether two of them are the same
//! path is decided by their shortest spelling.

use vstd::prelude::*;

use crate::filter::{filter_of, passes, query_filter, read_query, FilterMode, TagFilter};
use crate::frequency::{frequencies, Frequencies};
use crate::history::{restored, snapshot_of, History, TagSnapshot};
use crate::item::{item_views, DatasetItem, ItemView};
use crate::order::{lemma_ordered_unique, sorted_unique, strictly_ordered};
use crate::tags::lemma_contains_push;
use crate::text::{copy_strings, extend_strings, group_texts, list_has, same_texts, texts};

verus! {

// ----- Datasets ------------------------------------------------------------

/// Loaded image dataset and its edit history.
pub struct Dataset {
    /// Directory that was loaded.
    pub root: String,
    /// Items in the current display order.
    pub items: Vec<DatasetItem>,
    /// The steps that can be undone and redone.
    pub history: History,
}

/// A dataset: its directory, its items and the snapshots of its history.
#[verifier::ext_equal]
pub struct DatasetView {
    pub root: Seq<char>,
    pub items: Seq<ItemView>,
    pub undo: Seq<Map<Seq<char>, Seq<Seq<char>>>>,
    pub redo: Seq<Map<Seq<char>, Seq<Seq<char>>>>,
}

impl View for Dataset {
    type V = DatasetView;

    open spec fn view(&self) -> DatasetView {
        DatasetView {
            root: self.root@,
            items: item_views(self.items@),
            undo: self.history.past(),
            redo: self.history.future(),
        }
    }
}

/// Whether an index is listed.
pub open spec fn listed(indices: Seq<usize>, i: int) -> bool {
    exists|k: int| 0 <= k < indices.len() && #[trigger] indices[k] == i
}

/// The places of the items that a predicate holds of, in order.
pub open spec fn places(items: Seq<ItemView>, keep: spec_fn(ItemView) -> bool) -> Seq<usize>
    decreases items.len(),
{
    if items.len() == 0 {
        Seq::<usize>::empty()
    } else {
        let rest = places(items.drop_last(), keep);
        if keep(items.last()) {
            rest.push((items.len() - 1) as usize)
        } else {
            rest
        }
    }
}

/// The items with other tags.
pub open spec fn retagged(items: Seq<ItemView>, lists: Seq<Seq<Seq<char>>>) -> Seq<ItemView> {
    Seq::new(items.len(), |i: int| ItemView { tags: lists[i], ..items[i] })
}

/// How many items have other tags than before.
pub open spec fn change_count(before: Seq<ItemView>, after: Seq<ItemView>) -> nat
    decreases before.len(),
{
    if before.len() == 0 {
        0
    } else {
        change_count(before.drop_last(), after.drop_last()) + if before.last().tags
            != after.last().tags {
            1nat
        } else {
            0nat
        }
    }
}

/// A dataset after an edit of its tags. Only an edit that changes something is
/// entered in the history, as one step, and then nothing can be redone.
pub open spec fn edited(data: DatasetView, lists: Seq<Seq<Seq<char>>>) -> DatasetView {
    let items = retagged(data.items, lists);
    if items == data.items {
        data
    } else {
        DatasetView {
            items,
            undo: data.undo.push(snapshot_of(data.items)),
            redo: Seq::empty(),
            ..data
        }
    }
}

/// The lists of tags after an edit of the listed items.
pub open spec fn batch_lists(
    items: Seq<ItemView>,
    indices: Seq<usize>,
    edit: spec_fn(Seq<Seq<char>>) -> Seq<Seq<char>>,
) -> Seq<Seq<Seq<char>>> {
    Seq::new(
        items.len(),
        |i: int|
            if listed(indices, i) {
                edit(items[i].tags)
            } else {
                items[i].tags
            },
    )
}

/// A dataset after an edit of the tags of each listed item. An index that is
/// listed twice is edited once, one that names no item is ignored.
pub open spec fn batch_edited(
    data: DatasetView,
    indices: Seq<usize>,
    edit: spec_fn(Seq<Seq<char>>) -> Seq<Seq<char>>,
) -> DatasetView {
    edited(data, batch_lists(data.items, indices, edit))
}

/// A dataset after an edit of the tags of one item.
pub open spec fn item_edited(data: DatasetView, index: int, tags: Seq<Seq<char>>) -> DatasetView {
    edited(
        data,
        Seq::new(
            data.items.len(),
            |i: int|
                if i == index {
                    tags
                } else {
                    data.items[i].tags
                },
        ),
    )
}

/// What a list of optional edits makes of the tags of the items.
pub open spec fn edit_lists(items: Seq<ItemView>, edits: Seq<Option<Vec<String>>>) -> Seq<Seq<Seq<char>>> {
    Seq::new(
        items.len(),
        |i: int|
            match edits[i] {
                Some(tags) => texts(tags@),
                None => items[i].tags,
            },
    )
}

proof fn lemma_change_count_zero(before: Seq<ItemView>, after: Seq<ItemView>)
    requires
        before.len() == after.len(),
    ensures
        change_count(before, after) <= before.len(),
        change_count(before, after) == 0 <==> forall|i: int|
            0 <= i < before.len() ==> (#[trigger] before[i]).tags == after[i].tags,
    decreases before.len(),
{
    if before.len() > 0 {
        lemma_change_count_zero(before.drop_last(), after.drop_last());
        assert forall|i: int| 0 <= i < before.len() && change_count(before, after) == 0 implies (
        #[trigger] before[i]).tags == after[i].tags by {
            if i < before.len() - 1 {
                assert(before.drop_last()[i].tags == after.drop_last()[i].tags);
            }
        }
        if forall|i: int| 0 <= i < before.len() ==> (#[trigger] before[i]).tags == after[i].tags {
            assert forall|i: int| 0 <= i < before.drop_last().len() implies (
            #[trigger] before.drop_last()[i]).tags == after.drop_last()[i].tags by {
                assert(before[i].tags == after[i].tags);
            }
            assert(before[before.len() - 1].tags == after[before.len() - 1].tags);
        }
    }
}

/// Which of the first `count` indices are listed.
pub(crate) fn marks(indices: &[usize], count: usize) -> (marked: Vec<bool>)
    ensures
        marked@.len() == count,
        forall|i: int| 0 <= i < count ==> #[trigger] marked@[i] == listed(indices@, i),
{
    let mut marked: Vec<bool> = Vec::new();
    for i in 0..count
        invariant
            marked@.len() == i,
            forall|k: int| 0 <= k < i ==> !#[trigger] marked@[k],
    {
        marked.push(false);
    }
    for j in 0..indices.len()
        invariant
            marked@.len() == count,
            forall|i: int|
                0 <= i < count ==> #[trigger] marked@[i] == listed(indices@.take(j as int), i),
    {
        let ghost before = marked@;
        let index: usize = indices[j];
        assert forall|i: int| 0 <= i < count implies listed(indices@.take(j + 1), i) == (listed(
            indices@.take(j as int),
            i,
        ) || index == i) by {
            let more = indices@.take(j + 1);
            let less = indices@.take(j as int);
            if listed(less, i) {
                let k = choose|k: int| 0 <= k < less.len() && #[trigger] less[k] == i;
                assert(more[k] == i);
            }
            if index == i {
                assert(more[j as int] == i);
            }
            if listed(more, i) {
                let k = choose|k: int| 0 <= k < more.len() && #[trigger] more[k] == i;
                if k < j {
                    assert(less[k] == i);
                }
            }
        }
        if index < count {
            marked.set(index, true);
        }
        assert forall|i: int| 0 <= i < count implies #[trigger] marked@[i] == listed(
            indices@.take(j + 1),
            i,
        ) by {
            assert(before[i] == listed(indices@.take(j as int), i));
        }
    }
    assert(indices@.take(indices@.len() as int) =~= indices@);
    marked
}

impl Dataset {
    /// A dataset without a history.
    pub fn new(root: String, items: Vec<DatasetItem>) -> (data: Dataset)
        ensures
            data@ == (DatasetView {
                root: root@,
                items: item_views(items@),
                undo: Seq::empty(),
                redo: Seq::empty(),
            }),
    {
        Dataset { root, items, history: History::new() }
    }

    // ----- History ---------------------------------------------------------

    /// Whether there is a step to undo.
    pub fn can_undo(&self) -> (yes: bool)
        ensures
            yes == (self@.undo.len() > 0),
    {
        self.history.can_undo()
    }

    /// Whether there is a step to redo.
    pub fn can_redo(&self) -> (yes: bool)
        ensures
            yes == (self@.redo.len() > 0),
    {
        self.history.can_redo()
    }

    /// Goes back one step.
    pub fn undo(&mut self) -> (done: bool)
        ensures
            done == (old(self)@.undo.len() > 0),
            final(self)@ == undone(old(self)@),
    {
        self.history.undo(&mut self.items)
    }

    /// Goes forward one step that was undone.
    pub fn redo(&mut self) -> (done: bool)
        ensures
            done == (old(self)@.redo.len() > 0),
            final(self)@ == redone(old(self)@),
    {
        self.history.redo(&mut self.items)
    }

    /// Forgets all steps.
    pub fn clear_history(&mut self)
        ensures
            final(self)@ == (DatasetView {
                undo: Seq::empty(),
                redo: Seq::empty(),
                ..old(self)@
            }),
    {
        self.history = History::new();
    }

    /// Gives the items the tags of the edits, as one step of the history.
    pub(crate) fn commit(&mut self, edits: &Vec<Option<Vec<String>>>) -> (changed: usize)
        requires
            edits@.len() == old(self)@.items.len(),
        ensures
            final(self)@ == edited(old(self)@, edit_lists(old(self)@.items, edits@)),
            changed == change_count(old(self)@.items, final(self)@.items),
    {
        let ghost all = item_views(self.items@);
        let ghost target = retagged(all, edit_lists(all, edits@));
        let before = TagSnapshot::of(&self.items);
        let mut changed: usize = 0;
        let count: usize = self.items.len();
        for i in 0..count
            invariant
                count == all.len(),
                all.len() == self.items@.len(),
                edits@.len() == all.len(),
                target == retagged(all, edit_lists(all, edits@)),
                self.root == old(self).root,
                self.history == old(self).history,
                forall|k: int| 0 <= k < i ==> (#[trigger] self.items@[k])@ == target[k],
                forall|k: int| i <= k < all.len() ==> (#[trigger] self.items@[k])@ == all[k],
                changed == change_count(all.take(i as int), target.take(i as int)),
                changed <= i,
        {
            assert(all.take(i + 1).drop_last() =~= all.take(i as int));
            assert(target.take(i + 1).drop_last() =~= target.take(i as int));
            assert(self.items@[i as int]@ == all[i as int]);
            match &edits[i] {
                Some(tags) => {
                    if !same_texts(&self.items[i].tags, tags) {
                        self.items[i].tags = copy_strings(tags);
                        changed = changed + 1;
                    }
                },
                None => {},
            }
            assert(self.items@[i as int]@ == target[i as int]);
        }
        assert(all.take(all.len() as int) =~= all);
        assert(target.take(all.len() as int) =~= target);
        assert(self@.items =~= target);
        proof {
            lemma_change_count_zero(all, target);
            if changed == 0 {
                assert forall|i: int| 0 <= i < all.len() implies target[i] == all[i] by {
                    assert(all[i].tags == target[i].tags);
                }
                assert(target =~= all);
            }
        }
        if changed != 0 {
            self.history.record(before);
        }
        changed
    }

    /// Gives one item other tags, as one step of the history.
    pub(crate) fn commit_item(&mut self, index: usize, tags: Vec<String>) -> (changed: bool)
        requires
            index < old(self)@.items.len(),
        ensures
            final(self)@ == item_edited(old(self)@, index as int, texts(tags@)),
            changed == (texts(tags@) != old(self)@.items[index as int].tags),
    {
        let ghost all = item_views(self.items@);
        let ghost lists = Seq::new(
            all.len(),
            |i: int|
                if i == index {
                    texts(tags@)
                } else {
                    all[i].tags
                },
        );
        let ghost target = retagged(all, lists);
        if same_texts(&self.items[index].tags, &tags) {
            assert(target =~= all);
            return false;
        }
        assert(target[index as int].tags != all[index as int].tags);
        let before = TagSnapshot::of(&self.items);
        self.history.record(before);
        self.items[index].tags = tags;
        assert(self@.items =~= target);
        true
    }

    // ----- Items -----------------------------------------------------------

    /// The number of items.
    pub fn len(&self) -> (count: usize)
        ensures
            count == self@.items.len(),
    {
        self.items.len()
    }

    /// Whether there is no item.
    pub fn is_empty(&self) -> (yes: bool)
        ensures
            yes == (self@.items.len() == 0),
    {
        self.items.len() == 0
    }

    /// The item at a place.
    pub fn item(&self, index: usize) -> (item: Option<&DatasetItem>)
        ensures
            match item {
                Some(item) => index < self@.items.len() && *item == self.items@[index as int],
                None => index >= self@.items.len(),
            },
    {
        if index < self.items.len() {
            Some(&self.items[index])
        } else {
            None
        }
    }

    /// The item at a place, to be changed outside the history.
    pub fn item_mut(&mut self, index: usize) -> (item: Option<&mut DatasetItem>)
        ensures
            match item {
                Some(item) => {
                    &&& index < old(self)@.items.len()
                    &&& *item == old(self).items@[index as int]
                    &&& final(self).items@ == old(self).items@.update(index as int, *final(item))
                    &&& final(self).root == old(self).root
                    &&& final(self).history == old(self).history
                },
                None => index >= old(self)@.items.len() && *final(self) == *old(self),
            },
    {
        if index < self.items.len() {
            Some(&mut self.items[index])
        } else {
            None
        }
    }

    // ----- Selection -------------------------------------------------------

    /// Selects an item, or takes it out of the selection. False where there is
    /// no such item.
    pub fn set_selected(&mut self, index: usize, selected: bool) -> (done: bool)
        ensures
            done == (index < old(self)@.items.len()),
            final(self)@ == selection_set(old(self)@, index as int, selected),
    {
        if index < self.items.len() {
            self.items[index].selected = selected;
            assert(self@.items =~= selection_set(old(self)@, index as int, selected).items);
            true
        } else {
            false
        }
    }

    /// Selects an item that is not selected and the reverse. Returns whether
    /// the item is now selected; false where there is no such item.
    pub fn toggle_selected(&mut self, index: usize) -> (selected: bool)
        ensures
            index >= old(self)@.items.len() ==> !selected,
            index < old(self)@.items.len() ==> selected == !old(self)@.items[index as int].selected,
            final(self)@ == selection_set(old(self)@, index as int, selected),
    {
        if index < self.items.len() {
            let selected = !self.items[index].selected;
            self.set_selected(index, selected);
            selected
        } else {
            false
        }
    }

    fn select_each(&mut self, selected: bool)
        ensures
            final(self)@ == all_selected(old(self)@, selected),
    {
        let ghost all = item_views(self.items@);
        let ghost target = all_selected(self@, selected).items;
        let count: usize = self.items.len();
        for i in 0..count
            invariant
                count == all.len(),
                all.len() == self.items@.len(),
                target == all_selected(old(self)@, selected).items,
                all == old(self)@.items,
                self.root == old(self).root,
                self.history == old(self).history,
                forall|k: int| 0 <= k < i ==> (#[trigger] self.items@[k])@ == target[k],
                forall|k: int| i <= k < all.len() ==> (#[trigger] self.items@[k])@ == all[k],
        {
            assert(self.items@[i as int]@ == all[i as int]);
            self.items[i].selected = selected;
            assert(self.items@[i as int]@ == target[i as int]);
        }
        assert(self@.items =~= target);
    }

    /// Selects every item.
    pub fn select_all(&mut self)
        ensures
            final(self)@ == all_selected(old(self)@, true),
    {
        self.select_each(true);
    }

    /// Selects no item.
    pub fn clear_selection(&mut self)
        ensures
            final(self)@ == all_selected(old(self)@, false),
    {
        self.select_each(false);
    }

    /// The places of the selected items.
    pub fn selected_indices(&self) -> (indices: Vec<usize>)
        ensures
            indices@ == places(self@.items, |item: ItemView| item.selected),
    {
        let ghost all = item_views(self.items@);
        let ghost keep = |item: ItemView| item.selected;
        let mut indices: Vec<usize> = Vec::new();
        for i in 0..self.items.len()
            invariant
                all == item_views(self.items@),
                keep == (|item: ItemView| item.selected),
                indices@ == places(all.take(i as int), keep),
        {
            assert(all.take(i + 1).drop_last() =~= all.take(i as int));
            if self.items[i].selected {
                indices.push(i);
            }
        }
        assert(all.take(self.items@.len() as int) =~= all);
        indices
    }

    // ----- Filtering -------------------------------------------------------

    /// The places of the items that a filter lets pass.
    pub fn filtered_indices(&self, filter: &TagFilter) -> (indices: Vec<usize>)
        ensures
            indices@ == places(self@.items, |item: ItemView| passes(filter@, item.tags)),
    {
        let ghost all = item_views(self.items@);
        let ghost keep = |item: ItemView| passes(filter@, item.tags);
        let mut indices: Vec<usize> = Vec::new();
        for i in 0..self.items.len()
            invariant
                all == item_views(self.items@),
                keep == (|item: ItemView| passes(filter@, item.tags)),
                indices@ == places(all.take(i as int), keep),
        {
            assert(all.take(i + 1).drop_last() =~= all.take(i as int));
            if filter.matches(&self.items[i].tags) {
                indices.push(i);
            }
        }
        assert(all.take(self.items@.len() as int) =~= all);
        indices
    }

    /// The places of the items that the filter of the given terms lets pass.
    pub fn filter_indices(
        &self,
        included: &[String],
        excluded: &[String],
        mode: FilterMode,
    ) -> (indices: Vec<usize>)
        ensures
            indices@ == places(
                self@.items,
                |item: ItemView|
                    passes(filter_of(texts(included@), texts(excluded@), mode), item.tags),
            ),
    {
        let filter = TagFilter::new(included, excluded, mode);
        self.filtered_indices(&filter)
    }

    /// Filters by a comma-separated query. A term prefixed with `-` is
    /// excluded.
    pub fn search(&self, query: &str, mode: FilterMode) -> (indices: Vec<usize>)
        ensures
            indices@ == places(
                self@.items,
                |item: ItemView| passes(query_filter(query@, mode), item.tags),
            ),
    {
        let filter = read_query(query, mode);
        self.filtered_indices(&filter)
    }

    // ----- Counting --------------------------------------------------------

    fn gather(&self, marked: &Vec<bool>, Ghost(indices): Ghost<Seq<usize>>) -> (tags: Vec<String>)
        requires
            marked@.len() == self@.items.len(),
            forall|i: int| 0 <= i < marked@.len() ==> #[trigger] marked@[i] == listed(indices, i),
        ensures
            texts(tags@) == gathered(self@.items, indices),
    {
        broadcast use group_texts;

        let ghost all = item_views(self.items@);
        let mut tags: Vec<String> = Vec::new();
        for i in 0..self.items.len()
            invariant
                all == item_views(self.items@),
                marked@.len() == all.len(),
                forall|i: int|
                    0 <= i < marked@.len() ==> #[trigger] marked@[i] == listed(indices, i),
                texts(tags@) == gathered(all.take(i as int), indices),
        {
            let ghost before = tags@;
            assert(all.take(i + 1).drop_last() =~= all.take(i as int));
            if marked[i] {
                extend_strings(&mut tags, &self.items[i].tags);
                assert(texts(tags@) == texts(before) + all[i as int].tags);
            }
        }
        assert(all.take(self.items@.len() as int) =~= all);
        tags
    }

    /// Counts tag occurrences for the supplied items.
    ///
    /// Counts are occurrence counts, rather than image counts: if a caption
    /// contains the same tag twice it contributes two to that tag's count.
    /// Invalid and duplicate indices are ignored.
    pub fn tag_frequencies(&self, indices: &[usize]) -> (counts: Frequencies)
        ensures
            counts@ == frequencies(gathered(self@.items, indices@)),
    {
        let marked = marks(indices, self.items.len());
        let tags = self.gather(&marked, Ghost(indices@));
        Frequencies::of(&tags)
    }

    /// Returns tags present in every valid, unique item in `indices`, in order.
    pub fn common_tags(&self, indices: &[usize]) -> (common: Vec<String>)
        ensures
            texts(common@) == common_of(self@.items, indices@),
            strictly_ordered(texts(common@)),
            forall|tag: Seq<char>| #[trigger]
                texts(common@).contains(tag) <==> in_all(self@.items, indices@, tag),
    {
        broadcast use group_texts;

        let ghost all = item_views(self.items@);
        let count: usize = self.items.len();
        let marked = marks(indices, count);
        let mut first: usize = 0;
        while first < count && !marked[first]
            invariant
                count == marked@.len(),
                first <= count,
                forall|k: int| 0 <= k < first ==> !#[trigger] marked@[k],
            decreases count - first,
        {
            first = first + 1;
        }
        let mut shared: Vec<String> = Vec::new();
        if first < count {
            let tags = &self.items[first].tags;
            for j in 0..tags.len()
                invariant
                    all == item_views(self.items@),
                    first < count,
                    count == all.len(),
                    count == marked@.len(),
                    texts(tags@) == all[first as int].tags,
                    forall|i: int| 0 <= i < count ==> #[trigger] marked@[i] == listed(indices@, i),
                    marked@[first as int],
                    forall|k: int|
                        0 <= k < shared@.len() ==> in_all(
                            all,
                            indices@,
                            #[trigger] texts(shared@)[k],
                        ),
                    forall|k: int|
                        0 <= k < j && in_all(all, indices@, #[trigger] texts(tags@)[k]) ==> texts(
                            shared@,
                        ).contains(texts(tags@)[k]),
            {
                let ghost before = texts(shared@);
                let ghost tag = texts(tags@)[j as int];
                assert(tag == tags@[j as int]@);
                if self.everywhere(&marked, tags[j].as_str()) {
                    proof {
                        assert(listed(indices@, first as int));
                        assert(in_all(all, indices@, tag)) by {
                            assert forall|i: int|
                                0 <= i < all.len() && listed(indices@, i) implies (
                            #[trigger] all[i]).tags.contains(tag) by {
                                assert(marked@[i]);
                                assert(self@.items[i].tags.contains(tag));
                            }
                        }
                    }
                    shared.push(tags[j].clone());
                    assert(texts(shared@) == before.push(tag));
                    assert forall|k: int|
                        0 <= k < j + 1 && in_all(all, indices@, #[trigger] texts(tags@)[k]) implies
                        texts(shared@).contains(texts(tags@)[k]) by {
                        lemma_contains_push(before, tag, texts(tags@)[k]);
                    }
                } else {
                    assert(!in_all(all, indices@, tag)) by {
                        let i = choose|i: int|
                            0 <= i < all.len() && marked@[i] && !(#[trigger] all[i]).tags.contains(
                                tag,
                            );
                        assert(listed(indices@, i));
                    }
                }
            }
        }
        proof {
            assert forall|tag: Seq<char>| #[trigger] texts(shared@).contains(tag) <==> in_all(
                all,
                indices@,
                tag,
            ) by {
                if in_all(all, indices@, tag) {
                    let i = choose|i: int| 0 <= i < all.len() && #[trigger] listed(indices@, i);
                    assert(marked@[i]);
                    assert(first < count);
                    assert(listed(indices@, first as int));
                    assert(all[first as int].tags.contains(tag));
                    let tags = all[first as int].tags;
                    let k = choose|k: int| 0 <= k < tags.len() && tags[k] == tag;
                    assert(in_all(all, indices@, tags[k]));
                }
            }
        }
        let common = sorted_unique(&shared);
        proof {
            lemma_ordered_unique(texts(common@), common_of(all, indices@));
        }
        common
    }

    /// Whether every marked item has a tag.
    fn everywhere(&self, marked: &Vec<bool>, tag: &str) -> (yes: bool)
        requires
            marked@.len() == self@.items.len(),
        ensures
            yes == forall|i: int|
                0 <= i < self@.items.len() && marked@[i] ==> (
                #[trigger] self@.items[i]).tags.contains(tag@),
    {
        let ghost all = item_views(self.items@);
        for i in 0..self.items.len()
            invariant
                all == item_views(self.items@),
                marked@.len() == all.len(),
                forall|k: int|
                    0 <= k < i && marked@[k] ==> (#[trigger] all[k]).tags.contains(tag@),
        {
            assert(all[i as int].tags == texts(self.items@[i as int].tags@));
            if marked[i] && !list_has(&self.items[i].tags, tag) {
                assert(!self@.items[i as int].tags.contains(tag@));
                return false;
            }
        }
        true
    }
}

/// A dataset with an item selected or not.
pub open spec fn selection_set(data: DatasetView, index: int, selected: bool) -> DatasetView {
    DatasetView {
        items: Seq::new(
            data.items.len(),
            |i: int|
                if i == index {
                    ItemView { selected, ..data.items[i] }
                } else {
                    data.items[i]
                },
        ),
        ..data
    }
}

/// A dataset with every item selected or none.
pub open spec fn all_selected(data: DatasetView, selected: bool) -> DatasetView {
    DatasetView {
        items: Seq::new(data.items.len(), |i: int| ItemView { selected, ..data.items[i] }),
        ..data
    }
}

/// The tags of the listed items, one caption after the other.
pub open spec fn gathered(items: Seq<ItemView>, indices: Seq<usize>) -> Seq<Seq<char>>
    decreases items.len(),
{
    if items.len() == 0 {
        Seq::<Seq<char>>::empty()
    } else {
        let rest = gathered(items.drop_last(), indices);
        if listed(indices, items.len() - 1) {
            rest + items.last().tags
        } else {
            rest
        }
    }
}

/// Whether some item is listed.
pub open spec fn any_listed(items: Seq<ItemView>, indices: Seq<usize>) -> bool {
    exists|i: int| 0 <= i < items.len() && #[trigger] listed(indices, i)
}

/// Whether some item is listed and every listed item has a tag.
pub open spec fn in_all(items: Seq<ItemView>, indices: Seq<usize>, tag: Seq<char>) -> bool {
    &&& any_listed(items, indices)
    &&& forall|i: int|
        0 <= i < items.len() && listed(indices, i) ==> (#[trigger] items[i]).tags.contains(tag)
}

/// The tags that every listed item has, in order.
pub open spec fn common_of(items: Seq<ItemView>, indices: Seq<usize>) -> Seq<Seq<char>> {
    choose|list: Seq<Seq<char>>|
        strictly_ordered(list) && forall|tag: Seq<char>| #[trigger]
            list.contains(tag) <==> in_all(items, indices, tag)
}

/// A dataset after one step back: the tags are those of the latest snapshot, by
/// path, and the tags that they replace can be redone.
pub open spec fn undone(data: DatasetView) -> DatasetView {
    if data.undo.len() == 0 {
        data
    } else {
        DatasetView {
            items: restored(data.items, data.undo.last()),
            undo: data.undo.drop_last(),
            redo: data.redo.push(snapshot_of(data.items)),
            ..data
        }
    }
}

/// A dataset after one step forward.
pub open spec fn redone(data: DatasetView) -> DatasetView {
    if data.redo.len() == 0 {
        data
    } else {
        DatasetView {
            items: restored(data.items, data.redo.last()),
            redo: data.redo.drop_last(),
            undo: data.undo.push(snapshot_of(data.items)),
            ..data
        }
    }
}

} // verus!
