//! The display order of the items of a dataset.

use vstd::prelude::*;

use crate::dataset::{Dataset, DatasetView};
use crate::item::{item_views, DatasetItem, ItemView};
use crate::order::{
    arrange, arranged, arrangement, goes_before, is_arrangement, lemma_arranged_multiset,
    lemma_arrangement_exists, lemma_arrangement_permutes, rank_before, rank_views, Rank, RankView,
    SortDirection,
};
use crate::paths::{file_name, name_of};
use crate::text::{ascii_lowered, chars_of, to_ascii_lower};

verus! {

/// Ordering keys for [`Dataset::sort_items`].
#[derive(Clone, Copy, Debug, PartialEq, Eq, Structural)]
pub enum SortKey {
    /// Full image path.
    Path,
    /// Image file name only.
    FileName,
    /// Number of tags in the caption.
    TagCount,
}

/// The file name of a path, empty where it names no file.
pub open spec fn name_or_empty(path: Seq<char>) -> Seq<char> {
    match name_of(path) {
        Some(name) => name,
        None => Seq::<char>::empty(),
    }
}

/// What an item is ordered by. The case of ASCII letters does not matter.
pub open spec fn item_rank(item: ItemView, key: SortKey) -> RankView {
    match key {
        SortKey::Path => RankView {
            number: 0,
            first: ascii_lowered(item.image_path),
            second: Seq::<char>::empty(),
        },
        SortKey::FileName => RankView {
            number: 0,
            first: ascii_lowered(name_or_empty(item.image_path)),
            second: Seq::<char>::empty(),
        },
        SortKey::TagCount => RankView {
            number: item.tags.len() as int,
            first: Seq::<char>::empty(),
            second: Seq::<char>::empty(),
        },
    }
}

/// The ranks of the items.
pub open spec fn item_ranks(items: Seq<ItemView>, key: SortKey) -> Seq<RankView> {
    Seq::new(items.len(), |i: int| item_rank(items[i], key))
}

/// The items in order; those of equal rank keep the order in which they stand.
pub open spec fn sorted_items(
    items: Seq<ItemView>,
    key: SortKey,
    direction: SortDirection,
) -> Seq<ItemView> {
    arranged(
        items,
        arrangement(item_ranks(items, key), direction == SortDirection::Descending),
    )
}

/// Sorting keeps the items, each as often as before, and leaves none in front
/// of one that comes before it.
pub proof fn law_sorted_items(items: Seq<ItemView>, key: SortKey, direction: SortDirection)
    requires
        items.len() <= usize::MAX,
    ensures
        sorted_items(items, key, direction).to_multiset() == items.to_multiset(),
        forall|i: int, j: int|
            0 <= i < j < items.len() ==> ({
                let a = item_rank(#[trigger] sorted_items(items, key, direction)[i], key);
                let b = item_rank(#[trigger] sorted_items(items, key, direction)[j], key);
                a == b || if direction == SortDirection::Descending {
                    rank_before(b, a)
                } else {
                    rank_before(a, b)
                }
            }),
{
    let ranks = item_ranks(items, key);
    let descending = direction == SortDirection::Descending;
    let order = arrangement(ranks, descending);
    let sorted = sorted_items(items, key, direction);
    lemma_arrangement_exists(ranks, descending);
    lemma_arrangement_permutes(order, ranks, descending);
    lemma_arranged_multiset(items, order);
    assert forall|i: int, j: int| 0 <= i < j < items.len() implies ({
        let a = item_rank(#[trigger] sorted[i], key);
        let b = item_rank(#[trigger] sorted[j], key);
        a == b || if direction == SortDirection::Descending {
            rank_before(b, a)
        } else {
            rank_before(a, b)
        }
    }) by {
        assert(order.contains(order[i]) && order.contains(order[j]));
        assert(goes_before(ranks, descending, order[i] as int, order[j] as int));
    }
}

impl Dataset {
    /// Puts the items in order.
    pub fn sort_items(&mut self, key: SortKey, direction: SortDirection)
        ensures
            final(self)@ == (DatasetView {
                items: sorted_items(old(self)@.items, key, direction),
                ..old(self)@
            }),
    {
        let ghost all = item_views(self.items@);
        let mut ranks: Vec<Rank> = Vec::new();
        for i in 0..self.items.len()
            invariant
                all == item_views(self.items@),
                self@ == old(self)@,
                rank_views(ranks@) == item_ranks(all.take(i as int), key),
        {
            let ghost before = ranks@;
            let rank = rank_of(&self.items[i], key);
            assert(rank@ == item_rank(all[i as int], key));
            ranks.push(rank);
            assert(rank_views(ranks@) =~= rank_views(before).push(rank@));
            assert(rank_views(ranks@) =~= item_ranks(all.take(i + 1), key));
        }
        assert(all.take(all.len() as int) =~= all);
        let order = arrange(&ranks, direction == SortDirection::Descending);
        let ghost target = arranged(all, order@);
        let mut items: Vec<DatasetItem> = Vec::new();
        for i in 0..order.len()
            invariant
                all == item_views(self.items@),
                self@ == old(self)@,
                is_arrangement(
                    order@,
                    item_ranks(all, key),
                    direction == SortDirection::Descending,
                ),
                target == arranged(all, order@),
                item_views(items@) == target.take(i as int),
        {
            let ghost before = items@;
            assert(order@.contains(order@[i as int]));
            let item = self.items[order[i]].clone();
            items.push(item);
            assert(item_views(items@) =~= item_views(before).push(item@));
            assert(item_views(items@) =~= target.take(i + 1));
        }
        assert(target.take(order@.len() as int) =~= target);
        self.items = items;
    }

    /// Puts the items in the order of their file names.
    pub fn sort_by_name(&mut self, ascending: bool)
        ensures
            final(self)@ == (DatasetView {
                items: sorted_items(
                    old(self)@.items,
                    SortKey::FileName,
                    direction_of(ascending),
                ),
                ..old(self)@
            }),
    {
        self.sort_items(
            SortKey::FileName,
            if ascending {
                SortDirection::Ascending
            } else {
                SortDirection::Descending
            },
        );
    }

    /// Puts the items in the order of their paths.
    pub fn sort_by_path(&mut self, ascending: bool)
        ensures
            final(self)@ == (DatasetView {
                items: sorted_items(old(self)@.items, SortKey::Path, direction_of(ascending)),
                ..old(self)@
            }),
    {
        self.sort_items(
            SortKey::Path,
            if ascending {
                SortDirection::Ascending
            } else {
                SortDirection::Descending
            },
        );
    }
}

/// The direction of an order that is ascending or not.
pub open spec fn direction_of(ascending: bool) -> SortDirection {
    if ascending {
        SortDirection::Ascending
    } else {
        SortDirection::Descending
    }
}

fn rank_of(item: &DatasetItem, key: SortKey) -> (rank: Rank)
    ensures
        rank@ == item_rank(item@, key),
{
    match key {
        SortKey::Path => {
            let lower = to_ascii_lower(item.image_path.as_str());
            let rank = Rank { number: 0, first: chars_of(lower.as_str()), second: Vec::new() };
            assert(rank@.second =~= Seq::<char>::empty());
            rank
        },
        SortKey::FileName => {
            let name = match file_name(item.image_path.as_str()) {
                Some(name) => name,
                None => String::new(),
            };
            assert(name@ =~= name_or_empty(item@.image_path));
            let lower = to_ascii_lower(name.as_str());
            let rank = Rank { number: 0, first: chars_of(lower.as_str()), second: Vec::new() };
            assert(rank@.second =~= Seq::<char>::empty());
            rank
        },
        SortKey::TagCount => {
            let rank = Rank {
                number: item.tags.len() as i128,
                first: Vec::new(),
                second: Vec::new(),
            };
            assert(rank@.first =~= Seq::<char>::empty());
            assert(rank@.second =~= Seq::<char>::empty());
            rank
        },
    }
}

} // verus!
