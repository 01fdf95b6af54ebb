//! In what order sorted lists stand, said of their entries.

use vstd::prelude::*;

use crate::frequency::{from_last, sorted_tags, tag_ranks, TagSortKey};
use crate::item::ItemView;
use crate::order::{
    arrangement, goes_before, is_permutation, lemma_arrangement_exists, lemma_arrangement_permutes,
    lemma_text_irreflexive, rank_before, text_before, RankView, SortDirection,
};
use crate::paths::{is_image, name_of};
use crate::sorting::{direction_of, item_ranks, sorted_items, SortKey};
use crate::storage::{file_ranks, images_among, in_load_order, FoundView};
use crate::suggestions::{category_ranks, ordered_predictions};
use crate::tag_picker::{entry_ranks, lowercase, shown, shows, visible, PickerView, TagSort};
use crate::tagger::{PredictionView, TagCategory};
use crate::text::ascii_lowered;

verus! {

/// An arrangement by ranks: every place once, by rank, and by place where the
/// ranks are equal.
proof fn lemma_stable(ranks: Seq<RankView>, descending: bool) -> (order: Seq<usize>)
    requires
        ranks.len() <= usize::MAX,
    ensures
        order == arrangement(ranks, descending),
        is_permutation(order, ranks.len()),
        forall|i: int|
            0 <= i < order.len() ==> 0 <= #[trigger] order[i] < ranks.len(),
        forall|i: int, j: int|
            0 <= i < j < order.len() ==> ({
                let a = #[trigger] order[i] as int;
                let b = #[trigger] order[j] as int;
                ||| ranks[a] == ranks[b] && a < b
                ||| ranks[a] != ranks[b] && (if descending {
                    rank_before(ranks[b], ranks[a])
                } else {
                    rank_before(ranks[a], ranks[b])
                })
            }),
{
    let order = arrangement(ranks, descending);
    lemma_arrangement_exists(ranks, descending);
    lemma_arrangement_permutes(order, ranks, descending);
    assert forall|i: int| 0 <= i < order.len() implies 0 <= #[trigger] order[i] < ranks.len() by {
        assert(order.contains(order[i]));
    }
    assert forall|i: int, j: int| 0 <= i < j < order.len() implies ({
        let a = #[trigger] order[i] as int;
        let b = #[trigger] order[j] as int;
        ||| ranks[a] == ranks[b] && a < b
        ||| ranks[a] != ranks[b] && (if descending {
            rank_before(ranks[b], ranks[a])
        } else {
            rank_before(ranks[a], ranks[b])
        })
    }) by {
        assert(goes_before(ranks, descending, order[i] as int, order[j] as int));
    }
    order
}

/// The name by which an item is sorted, where it is sorted by a text.
pub open spec fn sort_text(item: ItemView, key: SortKey) -> Seq<char> {
    match key {
        SortKey::Path => ascii_lowered(item.image_path),
        SortKey::FileName => match name_of(item.image_path) {
            Some(name) => ascii_lowered(name),
            None => Seq::empty(),
        },
        SortKey::TagCount => Seq::empty(),
    }
}

/// Sorting puts each item in one place: by path or by file name, in the order of
/// the texts but for case, or by the number of tags, and the other way round where
/// that is asked. Items that are equal in this keep their order.
pub proof fn law_items_are_in_order(
    items: Seq<ItemView>,
    key: SortKey,
    direction: SortDirection,
) -> (order: Seq<usize>)
    requires
        items.len() <= usize::MAX,
    ensures
        is_permutation(order, items.len()),
        sorted_items(items, key, direction).len() == items.len(),
        forall|i: int|
            0 <= i < items.len() ==> #[trigger] sorted_items(items, key, direction)[i]
                == items[order[i] as int],
        forall|i: int, j: int|
            0 <= i < j < items.len() ==> ({
                let a = items[#[trigger] order[i] as int];
                let b = items[#[trigger] order[j] as int];
                match (key, direction) {
                    (SortKey::TagCount, SortDirection::Ascending) => a.tags.len() < b.tags.len()
                        || a.tags.len() == b.tags.len() && order[i] < order[j],
                    (SortKey::TagCount, SortDirection::Descending) => a.tags.len() > b.tags.len()
                        || a.tags.len() == b.tags.len() && order[i] < order[j],
                    (_, SortDirection::Ascending) => text_before(
                        sort_text(a, key),
                        sort_text(b, key),
                    ) || sort_text(a, key) == sort_text(b, key) && order[i] < order[j],
                    (_, SortDirection::Descending) => text_before(
                        sort_text(b, key),
                        sort_text(a, key),
                    ) || sort_text(a, key) == sort_text(b, key) && order[i] < order[j],
                }
            }),
{
    let ranks = item_ranks(items, key);
    let order = lemma_stable(ranks, direction == SortDirection::Descending);
    lemma_text_irreflexive(Seq::<char>::empty());
    assert(ascii_lowered(Seq::<char>::empty()) =~= Seq::<char>::empty());
    assert forall|i: int, j: int| 0 <= i < j < items.len() implies ({
        let a = items[#[trigger] order[i] as int];
        let b = items[#[trigger] order[j] as int];
        match (key, direction) {
            (SortKey::TagCount, SortDirection::Ascending) => a.tags.len() < b.tags.len()
                || a.tags.len() == b.tags.len() && order[i] < order[j],
            (SortKey::TagCount, SortDirection::Descending) => a.tags.len() > b.tags.len()
                || a.tags.len() == b.tags.len() && order[i] < order[j],
            (_, SortDirection::Ascending) => text_before(sort_text(a, key), sort_text(b, key))
                || sort_text(a, key) == sort_text(b, key) && order[i] < order[j],
            (_, SortDirection::Descending) => text_before(sort_text(b, key), sort_text(a, key))
                || sort_text(a, key) == sort_text(b, key) && order[i] < order[j],
        }
    }) by {
        let x = order[i] as int;
        let y = order[j] as int;
        assert(0 <= x < items.len() && 0 <= y < items.len());
        assert(ranks[x].number == if key == SortKey::TagCount {
            items[x].tags.len() as int
        } else {
            0
        });
        assert(ranks[x].first == sort_text(items[x], key));
        assert(ranks[y].first == sort_text(items[y], key));
        lemma_text_irreflexive(ranks[x].first);
    }
    order
}

/// The images of a dataset are loaded in the order of their paths, but for case
/// first; each image that was found is loaded once, and nothing else is.
pub proof fn law_images_are_in_order(found: Seq<FoundView>) -> (order: Seq<usize>)
    requires
        found.len() <= usize::MAX,
    ensures
        ({
            let images = found.filter(|file: FoundView| is_image(file.path));
            let files = in_load_order(found);
            &&& is_permutation(order, images.len())
            &&& files.len() == images.len()
            &&& forall|i: int|
                0 <= i < files.len() ==> #[trigger] files[i] == images[order[i] as int]
            &&& forall|i: int, j: int|
                0 <= i < j < files.len() ==> {
                    let a = (#[trigger] files[i]).path;
                    let b = (#[trigger] files[j]).path;
                    ||| text_before(ascii_lowered(a), ascii_lowered(b))
                    ||| ascii_lowered(a) == ascii_lowered(b) && text_before(a, b)
                    ||| a == b && order[i] < order[j]
                }
        }),
{
    let images = images_among(found);
    lemma_images_are_filtered(found);
    let ranks = file_ranks(images);
    let order = lemma_stable(ranks, false);
    let files = in_load_order(found);
    assert forall|i: int, j: int| 0 <= i < j < files.len() implies {
        let a = (#[trigger] files[i]).path;
        let b = (#[trigger] files[j]).path;
        ||| text_before(ascii_lowered(a), ascii_lowered(b))
        ||| ascii_lowered(a) == ascii_lowered(b) && text_before(a, b)
        ||| a == b && order[i] < order[j]
    } by {
        let x = order[i] as int;
        let y = order[j] as int;
        assert(files[i] == images[x] && files[j] == images[y]);
        assert(ranks[x].second == images[x].path);
        assert(ranks[y].second == images[y].path);
    }
    order
}

proof fn lemma_images_are_filtered(found: Seq<FoundView>)
    ensures
        images_among(found) == found.filter(|file: FoundView| is_image(file.path)),
        images_among(found).len() <= found.len(),
    decreases found.len(),
{
    reveal(Seq::filter);
    let keep = |file: FoundView| is_image(file.path);
    if found.len() > 0 {
        lemma_images_are_filtered(found.drop_last());
    } else {
        assert(images_among(found) =~= found);
    }
}

/// The picker lists the entries that its query lets through, each of them once:
/// by name, by frequency or by length, from the first or from the last.
pub proof fn law_picker_is_in_order(
    picker: PickerView,
    entries: Seq<(Seq<char>, nat)>,
) -> (order: Seq<usize>)
    requires
        entries.len() <= usize::MAX,
    ensures
        ({
            let kept = entries.filter(|entry: (Seq<char>, nat)| shows(picker, entry.0));
            let list = visible(picker, entries);
            &&& is_permutation(order, kept.len())
            &&& list.len() == kept.len()
            &&& forall|i: int|
                0 <= i < list.len() ==> #[trigger] list[i] == kept[order[i] as int]
            &&& forall|i: int, j: int|
                0 <= i < j < list.len() ==> {
                    let a = if picker.descending {
                        #[trigger] list[j]
                    } else {
                        #[trigger] list[i]
                    };
                    let b = if picker.descending {
                        list[i]
                    } else {
                        list[j]
                    };
                    let x = match picker.sort {
                        TagSort::Alpha => 0,
                        TagSort::Frequency => a.1,
                        TagSort::Length => a.0.len(),
                    };
                    let y = match picker.sort {
                        TagSort::Alpha => 0,
                        TagSort::Frequency => b.1,
                        TagSort::Length => b.0.len(),
                    };
                    ||| x < y
                    ||| x == y && text_before(lowercase(a.0), lowercase(b.0))
                    ||| x == y && lowercase(a.0) == lowercase(b.0) && text_before(a.0, b.0)
                    ||| x == y && a.0 == b.0
                }
        }),
{
    let kept = shown(picker, entries);
    lemma_shown_are_filtered(picker, entries);
    let ranks = entry_ranks(picker.sort, kept);
    let order = lemma_stable(ranks, picker.descending);
    let list = visible(picker, entries);
    assert forall|i: int, j: int| 0 <= i < j < list.len() implies {
        let a = if picker.descending {
            #[trigger] list[j]
        } else {
            #[trigger] list[i]
        };
        let b = if picker.descending {
            list[i]
        } else {
            list[j]
        };
        let x = match picker.sort {
            TagSort::Alpha => 0,
            TagSort::Frequency => a.1,
            TagSort::Length => a.0.len(),
        };
        let y = match picker.sort {
            TagSort::Alpha => 0,
            TagSort::Frequency => b.1,
            TagSort::Length => b.0.len(),
        };
        ||| x < y
        ||| x == y && text_before(lowercase(a.0), lowercase(b.0))
        ||| x == y && lowercase(a.0) == lowercase(b.0) && text_before(a.0, b.0)
        ||| x == y && a.0 == b.0
    } by {
        let p = order[i] as int;
        let q = order[j] as int;
        assert(list[i] == kept[p] && list[j] == kept[q]);
        assert(ranks[p].second == kept[p].0 && ranks[q].second == kept[q].0);
    }
    order
}

proof fn lemma_shown_are_filtered(picker: PickerView, entries: Seq<(Seq<char>, nat)>)
    ensures
        shown(picker, entries) == entries.filter(
            |entry: (Seq<char>, nat)| shows(picker, entry.0),
        ),
        shown(picker, entries).len() <= entries.len(),
    decreases entries.len(),
{
    reveal(Seq::filter);
    let keep = |entry: (Seq<char>, nat)| shows(picker, entry.0);
    if entries.len() > 0 {
        lemma_shown_are_filtered(picker, entries.drop_last());
    } else {
        assert(shown(picker, entries) =~= entries);
    }
}

/// Where characters come first, predictions are listed by category, characters
/// before the general ones and those before ratings, and otherwise as they were;
/// where they do not, nothing moves.
pub proof fn law_characters_come_first(predictions: Seq<PredictionView>) -> (order: Seq<usize>)
    requires
        predictions.len() <= usize::MAX,
    ensures
        ordered_predictions(false, predictions) == predictions,
        is_permutation(order, predictions.len()),
        ordered_predictions(true, predictions).len() == predictions.len(),
        forall|i: int|
            0 <= i < predictions.len() ==> #[trigger] ordered_predictions(true, predictions)[i]
                == predictions[order[i] as int],
        forall|i: int, j: int|
            0 <= i < j < predictions.len() ==> ({
                let a = predictions[#[trigger] order[i] as int].category;
                let b = predictions[#[trigger] order[j] as int].category;
                &&& b == TagCategory::Character ==> a == TagCategory::Character
                &&& a == TagCategory::Rating ==> b == TagCategory::Rating
                &&& a == b ==> order[i] < order[j]
            }),
{
    let ranks = category_ranks(predictions);
    let order = lemma_stable(ranks, false);
    lemma_text_irreflexive(Seq::<char>::empty());
    assert forall|i: int, j: int| 0 <= i < j < predictions.len() implies ({
        let a = predictions[#[trigger] order[i] as int].category;
        let b = predictions[#[trigger] order[j] as int].category;
        &&& b == TagCategory::Character ==> a == TagCategory::Character
        &&& a == TagCategory::Rating ==> b == TagCategory::Rating
        &&& a == b ==> order[i] < order[j]
    }) by {
        let x = order[i] as int;
        let y = order[j] as int;
        assert(0 <= x < ranks.len() && 0 <= y < ranks.len());
        assert(ranks[x].number == match predictions[x].category {
            TagCategory::Character => 0,
            TagCategory::General => 1,
            TagCategory::Rating => 2int,
        });
        assert(ranks[y].number == match predictions[y].category {
            TagCategory::Character => 0,
            TagCategory::General => 1,
            TagCategory::Rating => 2int,
        });
    }
    order
}

/// Sorted tags stand in the order of their texts, of how often they occur, or of
/// their lengths, or the other way round; tags that are equal in number or length
/// stand in the order of their texts.
pub proof fn law_tags_are_in_order(
    counts: Map<Seq<char>, nat>,
    key: TagSortKey,
    direction: SortDirection,
    tags: Seq<Seq<char>>,
    i: int,
    j: int,
)
    requires
        tags.len() <= usize::MAX,
        0 <= i < j < tags.len(),
    ensures
        ({
            let sorted = sorted_tags(counts, key, direction, tags);
            let a = sorted[i];
            let b = sorted[j];
            let x = if counts.contains_key(a) {
                counts[a]
            } else {
                0
            };
            let y = if counts.contains_key(b) {
                counts[b]
            } else {
                0
            };
            &&& sorted.len() == tags.len()
            &&& match (key, direction) {
                (TagSortKey::Alphabetical, SortDirection::Ascending) => a == b || text_before(a, b),
                (TagSortKey::Alphabetical, SortDirection::Descending) => a == b || text_before(
                    b,
                    a,
                ),
                (TagSortKey::Frequency, SortDirection::Ascending) => x < y || x == y && (a == b
                    || text_before(a, b)),
                (TagSortKey::Frequency, SortDirection::Descending) => x > y || x == y && (a == b
                    || text_before(a, b)),
                (TagSortKey::Length, SortDirection::Ascending) => a.len() < b.len() || a.len()
                    == b.len() && (a == b || text_before(a, b)),
                (TagSortKey::Length, SortDirection::Descending) => a.len() > b.len() || a.len()
                    == b.len() && (a == b || text_before(a, b)),
            }
        }),
{
    let sorted = sorted_tags(counts, key, direction, tags);
    let ranks = tag_ranks(counts, key, direction, tags);
    let order = lemma_stable(ranks, from_last(key, direction));
    let p = order[i] as int;
    let q = order[j] as int;
    assert(sorted[i] == tags[p] && sorted[j] == tags[q]);
    assert(ranks[p].first == tags[p] && ranks[q].first == tags[q]);
    lemma_text_irreflexive(Seq::<char>::empty());
}

/// An order is ascending where that is asked, and descending otherwise.
pub proof fn law_direction_of_an_order(ascending: bool)
    ensures
        direction_of(ascending) == SortDirection::Ascending <==> ascending,
        direction_of(ascending) == SortDirection::Descending <==> !ascending,
{
}

} // verus!
