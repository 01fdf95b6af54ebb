//! The tags that predictions give to an image.

use vstd::prelude::*;

use crate::batch::update_views;
use crate::item::{item_views, DatasetItem, ItemView};
use crate::order::{arrange, arranged, arrangement, rank_views, Rank, RankView};
use crate::paths::{canonical, canonical_path};
use crate::settings::{Preferences, PreferencesView};
use crate::storage::{spaced, with_spaces};
use crate::tagger::{
    prediction_views, PredictionView, TagCategory, TagPrediction,
};
use crate::tags::{caption, concatenated, deduplicate_tags, deduplicated, format_tags};
use crate::text::{
    ascii_lowered, chars_of, entries_of, group_texts, list_entries, list_has, same_text, texts,
    to_ascii_lower, Separators,
};

verus! {

/// A text with underscores for spaces.
pub open spec fn underscored(text: Seq<char>) -> Seq<char> {
    text.map_values(
        |c: char|
            if c == ' ' {
                '_'
            } else {
                c
            },
    )
}

/// The undesired tags that a comma-separated setting lists, in lower case.
pub open spec fn undesired_tags(setting: Seq<char>) -> Seq<Seq<char>> {
    list_entries(Separators::Commas, setting).map_values(|tag: Seq<char>| ascii_lowered(tag))
}

/// Whether a tag is undesired, whatever the case of its letters, and whether it
/// is listed with spaces or underscores.
pub open spec fn is_undesired(undesired: Seq<Seq<char>>, tag: Seq<char>) -> bool {
    undesired.contains(ascii_lowered(tag)) || undesired.contains(underscored(ascii_lowered(tag)))
}

/// The rank of a prediction where characters come first.
pub open spec fn category_rank(category: TagCategory) -> RankView {
    RankView {
        number: match category {
            TagCategory::Character => 0,
            TagCategory::General => 1,
            TagCategory::Rating => 2,
        },
        first: Seq::<char>::empty(),
        second: Seq::<char>::empty(),
    }
}

/// The ranks of predictions where characters come first.
pub open spec fn category_ranks(predictions: Seq<PredictionView>) -> Seq<RankView> {
    Seq::new(predictions.len(), |i: int| category_rank(predictions[i].category))
}

/// The predictions in the order in which their tags are written.
pub open spec fn ordered_predictions(
    character_first: bool,
    predictions: Seq<PredictionView>,
) -> Seq<PredictionView> {
    if character_first {
        arranged(predictions, arrangement(category_ranks(predictions), false))
    } else {
        predictions
    }
}

/// The tag of a prediction as it is written.
pub open spec fn written_tag(spaces: bool, tag: Seq<char>) -> Seq<char> {
    if spaces {
        spaced(tag)
    } else {
        tag
    }
}

/// The tags of predictions that are not undesired.
pub open spec fn desired_tags(
    settings: PreferencesView,
    predictions: Seq<PredictionView>,
) -> Seq<Seq<char>>
    decreases predictions.len(),
{
    if predictions.len() == 0 {
        Seq::<Seq<char>>::empty()
    } else {
        let rest = desired_tags(settings, predictions.drop_last());
        let tag = written_tag(settings.spaces, predictions.last().tag);
        if is_undesired(undesired_tags(settings.undesired), tag) {
            rest
        } else {
            rest.push(tag)
        }
    }
}

/// The tags that predictions give to an image with the given tags: those of the
/// predictions, or, where they are appended, those of the image and then theirs
/// without repetitions.
pub open spec fn suggested_tags(
    settings: PreferencesView,
    current: Seq<Seq<char>>,
    predictions: Seq<PredictionView>,
) -> Seq<Seq<char>> {
    let tags = desired_tags(settings, ordered_predictions(settings.character_first, predictions));
    if settings.append {
        deduplicated(current + tags)
    } else {
        tags
    }
}

fn with_underscores(text: &str) -> (result: String)
    ensures
        result@ == underscored(text@),
{
    let chars = chars_of(text);
    let mut result = String::new();
    for i in 0..chars.len()
        invariant
            chars@ == text@,
            result@ == underscored(chars@.take(i as int)),
    {
        let c = chars[i];
        result.push(
            if c == ' ' {
                '_'
            } else {
                c
            },
        );
        assert(result@ =~= underscored(chars@.take(i + 1)));
    }
    assert(chars@.take(chars@.len() as int) =~= chars@);
    result
}

fn read_undesired(setting: &str) -> (tags: Vec<String>)
    ensures
        texts(tags@) == undesired_tags(setting@),
{
    broadcast use group_texts;

    let entries = entries_of(setting, Separators::Commas);
    let ghost all = texts(entries@);
    let ghost target = undesired_tags(setting@);
    let mut tags: Vec<String> = Vec::new();
    for i in 0..entries.len()
        invariant
            all == texts(entries@),
            target == all.map_values(|tag: Seq<char>| ascii_lowered(tag)),
            texts(tags@) == target.take(i as int),
    {
        let ghost before = tags@;
        tags.push(to_ascii_lower(entries[i].as_str()));
        assert(texts(tags@) == texts(before).push(ascii_lowered(all[i as int])));
        assert(texts(tags@) =~= target.take(i + 1));
    }
    assert(target.take(entries@.len() as int) =~= target);
    tags
}

fn undesired(list: &Vec<String>, tag: &str) -> (yes: bool)
    ensures
        yes == is_undesired(texts(list@), tag@),
{
    let lower = to_ascii_lower(tag);
    let joined = with_underscores(lower.as_str());
    list_has(list, lower.as_str()) || list_has(list, joined.as_str())
}

/// The places of predictions in the order in which their tags are written.
fn writing_order(character_first: bool, predictions: &Vec<TagPrediction>) -> (order: Vec<usize>)
    ensures
        forall|k: int| 0 <= k < order@.len() ==> #[trigger] order@[k] < predictions@.len(),
        ordered_predictions(character_first, prediction_views(predictions@)) == Seq::new(
            order@.len(),
            |k: int| predictions@[order@[k] as int]@,
        ),
{
    let ghost all = prediction_views(predictions@);
    if !character_first {
        let mut order: Vec<usize> = Vec::new();
        for i in 0..predictions.len()
            invariant
                order@.len() == i,
                forall|k: int| 0 <= k < i ==> #[trigger] order@[k] == k,
        {
            order.push(i);
        }
        assert(all =~= Seq::new(order@.len(), |k: int| predictions@[order@[k] as int]@));
        return order;
    }
    let mut ranks: Vec<Rank> = Vec::new();
    for i in 0..predictions.len()
        invariant
            all == prediction_views(predictions@),
            rank_views(ranks@) == category_ranks(all.take(i as int)),
    {
        let ghost before = ranks@;
        let number: i128 = match predictions[i].category {
            TagCategory::Character => 0,
            TagCategory::General => 1,
            TagCategory::Rating => 2,
        };
        let rank = Rank { number, first: Vec::new(), second: Vec::new() };
        assert(rank@.first =~= Seq::<char>::empty());
        assert(rank@.second =~= Seq::<char>::empty());
        assert(rank@ == category_rank(all[i as int].category));
        ranks.push(rank);
        assert(rank_views(ranks@) =~= rank_views(before).push(rank@));
        assert(rank_views(ranks@) =~= category_ranks(all.take(i + 1)));
    }
    assert(all.take(predictions@.len() as int) =~= all);
    let order = arrange(&ranks, false);
    proof {
        let target = ordered_predictions(true, all);
        assert forall|k: int| 0 <= k < order@.len() implies #[trigger] order@[k]
            < predictions@.len() by {
            assert(order@.contains(order@[k]));
        }
        assert(target =~= Seq::new(order@.len(), |k: int| predictions@[order@[k] as int]@));
    }
    order
}

/// The tags that predictions give to an image with the given tags.
pub fn suggest_tags(
    settings: &Preferences,
    current: &Vec<String>,
    predictions: &Vec<TagPrediction>,
) -> (tags: Vec<String>)
    ensures
        texts(tags@) == suggested_tags(
            settings@,
            texts(current@),
            prediction_views(predictions@),
        ),
{
    broadcast use group_texts;

    let banned = read_undesired(settings.undesired.as_str());
    let order = writing_order(settings.character_first, predictions);
    let ghost all = ordered_predictions(
        settings.character_first,
        prediction_views(predictions@),
    );
    let mut tags: Vec<String> = Vec::new();
    for i in 0..order.len()
        invariant
            all == Seq::new(order@.len(), |k: int| predictions@[order@[k] as int]@),
            forall|k: int| 0 <= k < order@.len() ==> #[trigger] order@[k] < predictions@.len(),
            texts(banned@) == undesired_tags(settings@.undesired),
            texts(tags@) == desired_tags(settings@, all.take(i as int)),
    {
        assert(all.take(i + 1).drop_last() =~= all.take(i as int));
        assert(all.take(i + 1).last() == predictions@[order@[i as int] as int]@);
        let found = predictions[order[i]].tag.as_str();
        let tag = if settings.spaces {
            with_spaces(found)
        } else {
            found.to_owned()
        };
        if !undesired(&banned, tag.as_str()) {
            tags.push(tag);
        }
    }
    assert(all.take(order@.len() as int) =~= all);
    if settings.append {
        let mut joined = concatenated(current, &tags);
        deduplicate_tags(&mut joined);
        joined
    } else {
        tags
    }
}

// ----- Predictions of several images ---------------------------------------

/// The predictions of an image.
#[derive(Debug)]
pub struct PendingTags {
    pub image_path: String,
    pub predictions: Vec<TagPrediction>,
}

/// The predictions of an image.
#[verifier::ext_equal]
pub struct PendingView {
    pub image_path: Seq<char>,
    pub predictions: Seq<PredictionView>,
}

impl View for PendingTags {
    type V = PendingView;

    open spec fn view(&self) -> PendingView {
        PendingView {
            image_path: self.image_path@,
            predictions: prediction_views(self.predictions@),
        }
    }
}

/// The predictions that a list holds.
pub open spec fn pending_views(pending: Seq<PendingTags>) -> Seq<PendingView> {
    pending.map_values(|entry: PendingTags| entry@)
}

/// Whether an item is the first with the given image.
pub open spec fn is_item_of(items: Seq<ItemView>, image_path: Seq<char>, i: int) -> bool {
    &&& 0 <= i < items.len()
    &&& canonical(items[i].image_path) == canonical(image_path)
    &&& forall|k: int|
        0 <= k < i ==> canonical((#[trigger] items[k]).image_path) != canonical(image_path)
}

/// The first item with the given image, if there is one.
pub open spec fn item_of(items: Seq<ItemView>, image_path: Seq<char>) -> Option<int> {
    if exists|i: int| is_item_of(items, image_path, i) {
        Some(choose|i: int| is_item_of(items, image_path, i))
    } else {
        None
    }
}

/// The caption texts that predictions give to the items of a dataset.
/// Predictions for an image that is not there are dropped.
pub open spec fn prediction_updates(
    settings: PreferencesView,
    items: Seq<ItemView>,
    pending: Seq<PendingView>,
) -> Seq<(usize, Seq<char>)>
    decreases pending.len(),
{
    if pending.len() == 0 {
        Seq::<(usize, Seq<char>)>::empty()
    } else {
        let rest = prediction_updates(settings, items, pending.drop_last());
        let entry = pending.last();
        match item_of(items, entry.image_path) {
            Some(i) => rest.push(
                (
                    i as usize,
                    caption(suggested_tags(settings, items[i].tags, entry.predictions)),
                ),
            ),
            None => rest,
        }
    }
}

/// The first item with the given image, if there is one.
pub fn find_item(items: &Vec<DatasetItem>, image_path: &str) -> (index: Option<usize>)
    ensures
        match index {
            Some(i) => item_of(item_views(items@), image_path@) == Some(i as int) && i < items@.len(),
            None => item_of(item_views(items@), image_path@) is None,
        },
{
    let ghost all = item_views(items@);
    let key = canonical_path(image_path);
    for i in 0..items.len()
        invariant
            all == item_views(items@),
            key@ == canonical(image_path@),
            forall|k: int| 0 <= k < i ==> canonical((#[trigger] all[k]).image_path) != key@,
    {
        assert(all[i as int].image_path == items@[i as int].image_path@);
        let found = canonical_path(items[i].image_path.as_str());
        if same_text(found.as_str(), key.as_str()) {
            proof {
                assert(is_item_of(all, image_path@, i as int));
                let other = choose|j: int| is_item_of(all, image_path@, j);
                assert(is_item_of(all, image_path@, other));
                if other < i {
                    assert(canonical(all[other].image_path) != key@);
                } else if i < other {
                    assert(canonical(all[i as int].image_path) != canonical(image_path@));
                }
            }
            return Some(i);
        }
    }
    proof {
        if exists|i: int| is_item_of(all, image_path@, i) {
            let i = choose|i: int| is_item_of(all, image_path@, i);
            assert(canonical(all[i].image_path) != key@);
        }
    }
    None
}

/// The caption texts that predictions give to the items of a dataset.
pub fn caption_updates(
    settings: &Preferences,
    items: &Vec<DatasetItem>,
    pending: &Vec<PendingTags>,
) -> (updates: Vec<(usize, String)>)
    ensures
        update_views(updates@) == prediction_updates(
            settings@,
            item_views(items@),
            pending_views(pending@),
        ),
{
    let ghost all = pending_views(pending@);
    let ghost views = item_views(items@);
    let mut updates: Vec<(usize, String)> = Vec::new();
    assert(update_views(updates@) =~= Seq::empty());
    for i in 0..pending.len()
        invariant
            all == pending_views(pending@),
            views == item_views(items@),
            update_views(updates@) == prediction_updates(
                settings@,
                views,
                all.take(i as int),
            ),
    {
        let ghost before = updates@;
        assert(all.take(i + 1).drop_last() =~= all.take(i as int));
        assert(all.take(i + 1).last() == pending@[i as int]@);
        let entry = &pending[i];
        match find_item(items, entry.image_path.as_str()) {
            Some(index) => {
                assert(views[index as int].tags == texts(items@[index as int].tags@));
                let tags = suggest_tags(settings, &items[index].tags, &entry.predictions);
                let text = format_tags(&tags);
                updates.push((index, text));
                assert(update_views(updates@) =~= update_views(
                    before,
                ).push((index, text@)));
            },
            None => {},
        }
    }
    assert(all.take(pending@.len() as int) =~= all);
    updates
}

// ----- Laws ----------------------------------------------------------------

/// Nothing undesired is among the tags that replace those of an image.
pub proof fn law_undesired_tags_stay_out(
    settings: PreferencesView,
    current: Seq<Seq<char>>,
    predictions: Seq<PredictionView>,
    i: int,
)
    requires
        !settings.append,
        0 <= i < suggested_tags(settings, current, predictions).len(),
    ensures
        !is_undesired(
            undesired_tags(settings.undesired),
            suggested_tags(settings, current, predictions)[i],
        ),
{
    lemma_desired(
        settings,
        ordered_predictions(settings.character_first, predictions),
        i,
    );
}

proof fn lemma_desired(settings: PreferencesView, predictions: Seq<PredictionView>, i: int)
    requires
        0 <= i < desired_tags(settings, predictions).len(),
    ensures
        !is_undesired(
            undesired_tags(settings.undesired),
            desired_tags(settings, predictions)[i],
        ),
    decreases predictions.len(),
{
    if predictions.len() > 0 {
        let rest = desired_tags(settings, predictions.drop_last());
        if i < rest.len() {
            lemma_desired(settings, predictions.drop_last(), i);
        }
    }
}

} // verus!
