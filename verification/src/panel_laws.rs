//! What the controls of the editor do, said of what they are given.

use vstd::prelude::*;

use crate::batch::{every_tag, selection_operated, PatternUse};
use crate::dataset::{any_listed, common_of, gathered, listed, places, DatasetView};
use crate::dataset_laws::law_edit_of_one_item;
use crate::editor::{
    first_places, items_of, target_places, Batch, EditorView, FormView, ReplaceTarget,
};
use crate::edits::{
    common_additions, common_replaced, each_replaced, operated, selected_replaced, ChangeView,
    OperationView,
};
use crate::frequency::{frequencies, law_sorted_tags};
use crate::item::ItemView;
use crate::laws::{law_batch_keeps_others, law_places};
use crate::order::strictly_ordered;
use crate::panels::{
    batch_edit, batch_refusal, comma_parts, common_refreshed, joined_tags, kept_tags, known_tags,
    picked_tags, with_picked,
};
use crate::pattern::{is_pattern, matched, substituted};
use crate::settings::PreferencesView;
use crate::storage::spaced;
use crate::suggestions::{
    desired_tags, is_undesired, ordered_predictions, suggested_tags, underscored, undesired_tags,
};
use crate::tag_laws::{law_first_of_equals_stays, law_shortened_to_its_beginning};
use crate::tag_picker::{selection_after, selection_changes, shows, PickerView};
use crate::tag_set::ordered_list;
use crate::tagger::PredictionView;
use crate::tags::{
    all_parsed, caption, deduplicated, law_deduplicated, lemma_contains_push, no_repeats, parsed,
};
use crate::text::{
    ascii_lowered, has_ignoring_case, list_entries, replaced, same_ignoring_case, stands_at,
    trimmed, Separators,
};
use crate::text_laws::{
    law_separator_parts_texts, law_set_is_listed_in_order, law_text_without_separator_is_whole,
};

verus! {

// ----- Suggestions ---------------------------------------------------------

/// Whether a tag is one that the settings name as undesired, but for case, and
/// with underscores or spaces between its words.
pub open spec fn is_named(setting: Seq<char>, tag: Seq<char>) -> bool {
    exists|k: int|
        0 <= k < list_entries(Separators::Commas, setting).len() && {
            let entry = #[trigger] list_entries(Separators::Commas, setting)[k];
            same_ignoring_case(entry, tag) || same_ignoring_case(entry, underscored(tag))
        }
}

/// A text with spaces or underscores changed into the other differs in nothing
/// else.
pub proof fn law_spaces_and_underscores(text: Seq<char>, i: int)
    requires
        0 <= i < text.len(),
    ensures
        spaced(text).len() == text.len(),
        spaced(text)[i] == if text[i] == '_' {
            ' '
        } else {
            text[i]
        },
        underscored(text).len() == text.len(),
        underscored(text)[i] == if text[i] == ' ' {
            '_'
        } else {
            text[i]
        },
{
}

proof fn lemma_undesired(setting: Seq<char>, tag: Seq<char>)
    ensures
        is_undesired(undesired_tags(setting), tag) <==> is_named(setting, tag),
{
    let entries = list_entries(Separators::Commas, setting);
    let undesired = undesired_tags(setting);
    let low = ascii_lowered(tag);
    assert(underscored(low) =~= ascii_lowered(underscored(tag))) by {
        assert forall|i: int| 0 <= i < tag.len() implies underscored(low)[i] == ascii_lowered(
            underscored(tag),
        )[i] by {}
    }
    if is_undesired(undesired, tag) {
        let text = if undesired.contains(low) {
            low
        } else {
            underscored(low)
        };
        let k = choose|k: int| 0 <= k < undesired.len() && undesired[k] == text;
        assert(undesired[k] == ascii_lowered(entries[k]));
        let entry = entries[k];
        assert(same_ignoring_case(entry, tag) || same_ignoring_case(entry, underscored(tag)));
    }
    if is_named(setting, tag) {
        let k = choose|k: int|
            0 <= k < entries.len() && {
                let entry = #[trigger] entries[k];
                same_ignoring_case(entry, tag) || same_ignoring_case(entry, underscored(tag))
            };
        assert(undesired[k] == ascii_lowered(entries[k]));
    }
}

/// The tags that are suggested in place of the current ones: those of the
/// predictions, in their order, with spaces for underscores where that is asked,
/// without those that are named as undesired.
pub proof fn law_suggestions_are_the_desired(
    settings: PreferencesView,
    predictions: Seq<PredictionView>,
)
    ensures
        desired_tags(settings, predictions) == predictions.map_values(
            |prediction: PredictionView|
                if settings.spaces {
                    spaced(prediction.tag)
                } else {
                    prediction.tag
                },
        ).filter(|tag: Seq<char>| !is_named(settings.undesired, tag)),
    decreases predictions.len(),
{
    reveal(Seq::filter);
    let write = |prediction: PredictionView|
        if settings.spaces {
            spaced(prediction.tag)
        } else {
            prediction.tag
        };
    let keep = |tag: Seq<char>| !is_named(settings.undesired, tag);
    let written = predictions.map_values(write);
    if predictions.len() > 0 {
        let less = predictions.drop_last();
        law_suggestions_are_the_desired(settings, less);
        assert(written.drop_last() =~= less.map_values(write));
        lemma_undesired(settings.undesired, written.last());
    } else {
        assert(desired_tags(settings, predictions) =~= written);
    }
}

/// What is suggested takes the place of the current tags, or is put behind them:
/// there the current tags come first, and every tag stays that was there or was
/// suggested, once, but for case.
pub proof fn law_suggestions_replace_or_extend(
    settings: PreferencesView,
    current: Seq<Seq<char>>,
    predictions: Seq<PredictionView>,
    tag: Seq<char>,
)
    ensures
        ({
            let desired = desired_tags(
                settings,
                ordered_predictions(settings.character_first, predictions),
            );
            let after = suggested_tags(settings, current, predictions);
            if settings.append {
                &&& deduplicated(current).len() <= after.len()
                &&& after.take(deduplicated(current).len() as int) == deduplicated(current)
                &&& has_ignoring_case(after, tag) <==> has_ignoring_case(current, tag)
                    || has_ignoring_case(desired, tag)
                &&& forall|i: int, j: int|
                    0 <= i < j < after.len() ==> !same_ignoring_case(
                        #[trigger] after[i],
                        #[trigger] after[j],
                    )
            } else {
                after == desired
            }
        }),
{
    let desired = desired_tags(
        settings,
        ordered_predictions(settings.character_first, predictions),
    );
    let all = current + desired;
    law_first_of_equals_stays(all, current.len() as int);
    assert(all.take(current.len() as int) =~= current);
    law_deduplicated(all);
    assert(has_ignoring_case(all, tag) <==> has_ignoring_case(deduplicated(all), tag));
    if has_ignoring_case(all, tag) {
        let k = choose|k: int| 0 <= k < all.len() && same_ignoring_case(#[trigger] all[k], tag);
        if k < current.len() {
            assert(same_ignoring_case(current[k], tag));
        } else {
            assert(same_ignoring_case(desired[k - current.len()], tag));
        }
    }
    if has_ignoring_case(current, tag) {
        let k = choose|k: int| 0 <= k < current.len() && same_ignoring_case(
            #[trigger] current[k],
            tag,
        );
        assert(all[k] == current[k]);
    }
    if has_ignoring_case(desired, tag) {
        let k = choose|k: int| 0 <= k < desired.len() && same_ignoring_case(
            #[trigger] desired[k],
            tag,
        );
        assert(all[k + current.len()] == desired[k]);
    }
}

// ----- The picker ----------------------------------------------------------

/// What a plain query lets through: tags that begin with it, tags that end with
/// it, or tags that hold it anywhere, as is asked; an empty one lets all through.
pub proof fn law_plain_queries(picker: PickerView, tag: Seq<char>)
    requires
        !picker.regex,
    ensures
        picker.query.len() == 0 ==> shows(picker, tag),
        picker.query.len() > 0 ==> (shows(picker, tag) <==> {
            ||| picker.prefix && exists|rest: Seq<char>| tag == #[trigger] (picker.query + rest)
            ||| picker.suffix && exists|rest: Seq<char>| tag == #[trigger] (rest + picker.query)
            ||| !picker.prefix && !picker.suffix && exists|a: Seq<char>, b: Seq<char>|
                tag == #[trigger] (a + picker.query + b)
        }),
{
    let query = picker.query;
    let n = query.len() as int;
    if stands_at(tag, query, 0) {
        assert(tag =~= query + tag.skip(n));
    }
    if exists|rest: Seq<char>| tag == #[trigger] (query + rest) {
        let rest = choose|rest: Seq<char>| tag == #[trigger] (query + rest);
        assert(tag.subrange(0, n) =~= query);
    }
    if stands_at(tag, query, tag.len() - n) {
        assert(tag =~= tag.take(tag.len() - n) + query);
    }
    if exists|rest: Seq<char>| tag == #[trigger] (rest + query) {
        let rest = choose|rest: Seq<char>| tag == #[trigger] (rest + query);
        assert(tag.subrange(tag.len() - n, tag.len() as int) =~= query);
    }
    if exists|at: int| #[trigger] stands_at(tag, query, at) {
        let at = choose|at: int| #[trigger] stands_at(tag, query, at);
        assert(tag =~= tag.take(at) + query + tag.skip(at + n));
    }
    if exists|a: Seq<char>, b: Seq<char>| tag == #[trigger] (a + query + b) {
        let (a, b) = choose|a: Seq<char>, b: Seq<char>| tag == #[trigger] (a + query + b);
        let at = a.len() as int;
        assert(tag.subrange(at, at + n) =~= query);
        assert(stands_at(tag, query, at));
    }
}

/// What the controls of the picker make of the selection. To select the visible
/// tags selects all of them, to clear them clears all of them, and clearing comes
/// last; a click turns the tag that was clicked and no other. A change is reported
/// where there is one.
pub proof fn law_selection_of_tags(
    selected: Set<Seq<char>>,
    seen: Set<Seq<char>>,
    select: bool,
    clear: bool,
    clicked: Seq<char>,
    tag: Seq<char>,
)
    ensures
        ({
            let after = selection_after(selected, seen, select, clear, None);
            let turned = selection_after(selected, seen, select, clear, Some(clicked));
            &&& seen.contains(tag) && clear ==> !after.contains(tag)
            &&& seen.contains(tag) && select && !clear ==> after.contains(tag)
            &&& seen.contains(tag) && !select && !clear ==> (after.contains(tag)
                <==> selected.contains(tag))
            &&& !seen.contains(tag) ==> (after.contains(tag) <==> selected.contains(tag))
            &&& tag != clicked ==> (turned.contains(tag) <==> after.contains(tag))
            &&& turned.contains(clicked) <==> !after.contains(clicked)
            &&& selection_changes(selected, seen, select, clear, Some(clicked))
            &&& !selection_changes(selected, seen, select, clear, None) ==> after == selected
            &&& !(select && clear) && after == selected ==> !selection_changes(
                selected,
                seen,
                select,
                clear,
                None,
            )
        }),
{
}

// ----- The tags of one item ------------------------------------------------

proof fn lemma_kept(tags: Seq<Seq<char>>, selected: Set<Seq<char>>)
    ensures
        kept_tags(tags, selected) == tags.filter(|tag: Seq<char>| selected.contains(tag)),
        forall|tag: Seq<char>| #[trigger]
            kept_tags(tags, selected).contains(tag) <==> tags.contains(tag) && selected.contains(
                tag,
            ),
    decreases tags.len(),
{
    reveal(Seq::filter);
    let keep = |tag: Seq<char>| selected.contains(tag);
    let all = kept_tags(tags, selected);
    if tags.len() > 0 {
        let less = tags.drop_last();
        let rest = kept_tags(less, selected);
        lemma_kept(less, selected);
        assert(tags =~= less.push(tags.last()));
        assert forall|tag: Seq<char>| #[trigger] all.contains(tag) <==> tags.contains(tag)
            && selected.contains(tag) by {
            lemma_contains_push(less, tags.last(), tag);
            lemma_contains_push(rest, tags.last(), tag);
            assert(rest.contains(tag) <==> less.contains(tag) && selected.contains(tag));
        }
    } else {
        assert(all =~= tags);
    }
}

proof fn lemma_joined(
    tags: Seq<Seq<char>>,
    known: Seq<Seq<char>>,
    selected: Set<Seq<char>>,
)
    requires
        known.no_duplicates(),
    ensures
        joined_tags(tags, known, selected) == tags + known.filter(
            |tag: Seq<char>| selected.contains(tag) && !tags.contains(tag),
        ),
        forall|tag: Seq<char>| #[trigger]
            joined_tags(tags, known, selected).contains(tag) <==> tags.contains(tag) || (
            known.contains(tag) && selected.contains(tag)),
    decreases known.len(),
{
    reveal(Seq::filter);
    let add = |tag: Seq<char>| selected.contains(tag) && !tags.contains(tag);
    let all = joined_tags(tags, known, selected);
    if known.len() > 0 {
        let less = known.drop_last();
        let last = known.last();
        let rest = joined_tags(tags, less, selected);
        lemma_joined(tags, less, selected);
        assert(known =~= less.push(last));
        assert(!less.contains(last)) by {
            if less.contains(last) {
                let k = choose|k: int| 0 <= k < less.len() && less[k] == last;
                assert(known[k] == known[known.len() - 1]);
            }
        }
        assert(rest.contains(last) <==> tags.contains(last) || (less.contains(last)
            && selected.contains(last)));
        assert(all =~= tags + known.filter(add));
        assert forall|tag: Seq<char>| #[trigger] all.contains(tag) <==> tags.contains(tag) || (
        known.contains(tag) && selected.contains(tag)) by {
            lemma_contains_push(less, last, tag);
            lemma_contains_push(rest, last, tag);
            assert(rest.contains(tag) <==> tags.contains(tag) || (less.contains(tag)
                && selected.contains(tag)));
        }
    } else {
        assert(known.filter(add) =~= Seq::<Seq<char>>::empty());
        assert(all =~= tags + known.filter(add));
    }
}

/// The tags of an item after it was edited in the picker: those that it had and
/// that are still selected, as they were, and behind them, in the order of the
/// known tags, those that are newly selected.
pub proof fn law_picked_tags(
    tags: Seq<Seq<char>>,
    known: Seq<Seq<char>>,
    selected: Set<Seq<char>>,
)
    requires
        known.no_duplicates(),
    ensures
        picked_tags(tags, known, selected) == tags.filter(|tag: Seq<char>| selected.contains(tag))
            + known.filter(|tag: Seq<char>| selected.contains(tag) && !tags.contains(tag)),
        forall|tag: Seq<char>| #[trigger]
            picked_tags(tags, known, selected).contains(tag) <==> selected.contains(tag) && (
            tags.contains(tag) || known.contains(tag)),
{
    let kept = kept_tags(tags, selected);
    lemma_kept(tags, selected);
    lemma_joined(kept, known, selected);
    let a = |tag: Seq<char>| selected.contains(tag) && !tags.contains(tag);
    let b = |tag: Seq<char>| selected.contains(tag) && !kept.contains(tag);
    lemma_same_filter(known, a, b);
    assert forall|tag: Seq<char>| #[trigger]
        picked_tags(tags, known, selected).contains(tag) <==> selected.contains(tag) && (
        tags.contains(tag) || known.contains(tag)) by {
        assert(joined_tags(kept, known, selected).contains(tag) <==> kept.contains(tag) || (
        known.contains(tag) && selected.contains(tag)));
    }
}

proof fn lemma_same_filter(
    list: Seq<Seq<char>>,
    a: spec_fn(Seq<char>) -> bool,
    b: spec_fn(Seq<char>) -> bool,
)
    requires
        forall|tag: Seq<char>| #[trigger] a(tag) == b(tag),
    ensures
        list.filter(a) == list.filter(b),
    decreases list.len(),
{
    reveal(Seq::filter);
    if list.len() > 0 {
        lemma_same_filter(list.drop_last(), a, b);
    }
}

/// The parts of an edited list stand between its commas, blank ones among them,
/// each without the white space around it.
pub proof fn law_comma_parts(a: Seq<char>, b: Seq<char>, part: Seq<char>)
    requires
        forall|i: int| 0 <= i < part.len() ==> #[trigger] part[i] != ',',
    ensures
        comma_parts(a.push(',') + b) == comma_parts(a) + comma_parts(b),
        comma_parts(part) == seq![trimmed(part)],
{
    law_separator_parts_texts(Separators::Commas, a, ',', b);
    assert(comma_parts(a.push(',') + b) =~= comma_parts(a) + comma_parts(b));
    law_text_without_separator_is_whole(Separators::Commas, part);
    assert(comma_parts(part) =~= seq![trimmed(part)]);
}

proof fn lemma_gathered(items: Seq<ItemView>, indices: Seq<usize>, tag: Seq<char>)
    ensures
        gathered(items, indices).contains(tag) <==> exists|i: int|
            0 <= i < items.len() && listed(indices, i) && (#[trigger] items[i]).tags.contains(tag),
    decreases items.len(),
{
    let all = gathered(items, indices);
    if items.len() > 0 {
        let less = items.drop_last();
        let rest = gathered(less, indices);
        let n = items.len() - 1;
        lemma_gathered(less, indices, tag);
        if all.contains(tag) {
            let k = choose|k: int| 0 <= k < all.len() && all[k] == tag;
            if k < rest.len() {
                assert(rest[k] == tag);
                assert(rest.contains(tag));
                let i = choose|i: int|
                    0 <= i < less.len() && listed(indices, i) && (#[trigger] less[i]).tags.contains(
                        tag,
                    );
                assert(items[i] == less[i]);
            } else {
                assert(items[n].tags[k - rest.len()] == tag);
                assert(items[n].tags.contains(tag));
            }
        }
        if exists|i: int|
            0 <= i < items.len() && listed(indices, i) && (#[trigger] items[i]).tags.contains(
                tag,
            ) {
            let i = choose|i: int|
                0 <= i < items.len() && listed(indices, i) && (#[trigger] items[i]).tags.contains(
                    tag,
                );
            if i < n {
                assert(less[i] == items[i]);
                assert(rest.contains(tag));
                let k = choose|k: int| 0 <= k < rest.len() && rest[k] == tag;
                assert(all[k] == tag);
            } else {
                let k = choose|k: int| 0 <= k < items[n].tags.len() && items[n].tags[k] == tag;
                assert(all[rest.len() + k] == tag);
            }
        }
    }
}

/// The known tags are those of the items, all of them, in order and each once.
pub proof fn law_known_tags(editor: EditorView, tag: Seq<char>)
    requires
        items_of(editor).len() <= usize::MAX,
    ensures
        strictly_ordered(known_tags(editor)),
        known_tags(editor).no_duplicates(),
        known_tags(editor).contains(tag) <==> exists|i: int|
            0 <= i < items_of(editor).len() && (#[trigger] items_of(editor)[i]).tags.contains(tag),
{
    let items = items_of(editor);
    let every = first_places(items.len());
    let all = gathered(items, every);
    let set = frequencies(all).dom();
    assert(set =~= all.to_set());
    vstd::seq_lib::seq_to_set_is_finite(all);
    law_set_is_listed_in_order(set);
    assert(known_tags(editor).contains(tag) <==> set.contains(tag));
    lemma_gathered(items, every, tag);
    assert forall|i: int| 0 <= i < items.len() implies #[trigger] listed(every, i) by {
        assert(every[i] == i);
    }
    if exists|i: int| 0 <= i < items.len() && (#[trigger] items[i]).tags.contains(tag) {
        let i = choose|i: int| 0 <= i < items.len() && (#[trigger] items[i]).tags.contains(tag);
        assert(listed(every, i));
    }
}

/// An edit in the picker is for one item: it gets the tags that the picked ones
/// list, and every other item stays.
pub proof fn law_picked_tags_are_for_one_item(
    editor: EditorView,
    data: DatasetView,
    index: int,
    i: int,
)
    requires
        editor.data == Some(data),
        data.items.len() <= usize::MAX,
        0 <= index < data.items.len(),
        0 <= i < data.items.len(),
    ensures
        ({
            let selected = editor.edit.selected;
            let tags = data.items[index].tags;
            let after = items_of(with_picked(editor, index));
            &&& after.len() == data.items.len()
            &&& after[index].tags == all_parsed(
                tags.filter(|tag: Seq<char>| selected.contains(tag)) + known_tags(editor).filter(
                    |tag: Seq<char>| selected.contains(tag) && !tags.contains(tag),
                ),
            )
            &&& i != index ==> after[i] == data.items[i]
        }),
{
    law_known_tags(editor, Seq::empty());
    law_picked_tags(data.items[index].tags, known_tags(editor), editor.edit.selected);
    law_edit_of_one_item(
        data,
        index,
        all_parsed(
            picked_tags(data.items[index].tags, known_tags(editor), editor.edit.selected),
        ),
        i,
    );
}

// ----- Batch edits ---------------------------------------------------------

/// What each form of a batch edit makes of the tags of an item.
pub proof fn law_forms_of_batch_edits(editor: EditorView, data: DatasetView, tags: Seq<Seq<char>>)
    requires
        tags.len() <= usize::MAX,
    ensures
        ({
            let form = editor.form;
            let after = batch_edit(editor, data, tags);
            match form.batch {
                Batch::Append => after == tags + parsed(form.first),
                Batch::Prepend => after == parsed(form.first) + tags,
                Batch::Dedupe => no_repeats(after) && forall|tag: Seq<char>| #[trigger]
                    has_ignoring_case(after, tag) <==> has_ignoring_case(tags, tag),
                Batch::Truncate => after == tags.take(
                    if tags.len() < editor.settings.truncate_count {
                        tags.len() as int
                    } else {
                        editor.settings.truncate_count as int
                    },
                ),
                Batch::Sort => after.to_multiset() == tags.to_multiset(),
                Batch::Common => {
                    let common = common_of(data.items, target_places(editor));
                    let edited = comma_parts(form.common_edit);
                    let kept = common_replaced(tags, common, edited);
                    let additions = common_additions(common, edited);
                    after == if form.common_prepend {
                        additions + kept
                    } else {
                        kept + additions
                    }
                },
                Batch::Remove => after == if editor.batch.selected == Set::<Seq<char>>::empty() {
                    tags
                } else {
                    selected_replaced(
                        tags,
                        ordered_list(editor.batch.selected),
                        ChangeView::Pattern { pattern: "^.*$"@, replacement: Seq::empty() },
                    )
                },
                Batch::Replace => {
                    let literal = ChangeView::Literal { from: form.first, to: form.second };
                    let regular = ChangeView::Pattern {
                        pattern: form.first,
                        replacement: form.second,
                    };
                    match form.replace_target {
                        ReplaceTarget::Selected => after == if form.first.len() == 0
                            || editor.batch.selected == Set::<Seq<char>>::empty() {
                            tags
                        } else if form.regex {
                            selected_replaced(tags, ordered_list(editor.batch.selected), regular)
                        } else {
                            selected_replaced(tags, ordered_list(editor.batch.selected), literal)
                        },
                        ReplaceTarget::Each => after == if form.regex {
                            each_replaced(tags, regular)
                        } else if form.first.len() == 0 {
                            tags
                        } else {
                            each_replaced(tags, literal)
                        },
                        ReplaceTarget::Caption => after == if form.first.len() == 0 {
                            tags
                        } else if form.regex {
                            parsed(substituted(form.first, caption(tags), form.second))
                        } else {
                            parsed(replaced(caption(tags), form.first, form.second))
                        },
                    }
                },
            }
        }),
{
    reveal_strlit("^.*$");
    law_deduplicated(tags);
    law_shortened_to_its_beginning(tags, editor.settings.truncate_count as nat);
    law_sorted_tags(
        frequencies(every_tag(data.items)),
        editor.form.sort_key,
        editor.form.sort_direction,
        tags,
    );
    if editor.form.batch == Batch::Truncate {
        let n = if tags.len() < editor.settings.truncate_count {
            tags.len() as int
        } else {
            editor.settings.truncate_count as int
        };
        assert(batch_edit(editor, data, tags) =~= tags.take(n));
    }
}

/// A batch edit is refused only for an expression that is none, and then where it
/// would be used: always where each tag is replaced, and otherwise where there is an
/// item to edit, something to look for and, in selected tags, a selected one. An edit
/// without expressions is never refused.
pub proof fn law_what_is_refused(editor: EditorView, data: DatasetView)
    ensures
        ({
            let form = editor.form;
            let refusal = batch_refusal(editor, data);
            let any = any_listed(data.items, target_places(editor));
            let bad = form.regex && !is_pattern(form.first);
            let looks = any && form.first.len() > 0;
            &&& form.batch != Batch::Remove && form.batch != Batch::Replace ==> refusal is None
            &&& form.batch == Batch::Replace ==> match form.replace_target {
                ReplaceTarget::Each => refusal == if bad {
                    Some((PatternUse::Replacement, form.first))
                } else {
                    None
                },
                ReplaceTarget::Caption => refusal == if bad && looks {
                    Some((PatternUse::CaptionReplacement, form.first))
                } else {
                    None
                },
                ReplaceTarget::Selected => refusal == if bad && looks && editor.batch.selected
                    != Set::<Seq<char>>::empty() {
                    Some((PatternUse::SelectedTagReplacement, form.first))
                } else {
                    None
                },
            }
            &&& refusal matches Some((_, pattern)) ==> !is_pattern(pattern)
        }),
{
}

/// The list of common tags is filled in anew where the common tags are others
/// than those it was filled in for, and what was typed is kept otherwise.
pub proof fn law_common_list_is_refreshed(editor: EditorView, data: DatasetView)
    requires
        editor.data == Some(data),
    ensures
        ({
            let text = caption(common_of(data.items, target_places(editor)));
            let after = common_refreshed(editor);
            &&& after.form.common_source == text
            &&& after.form.common_edit == if editor.form.common_source == text {
                editor.form.common_edit
            } else {
                text
            }
            &&& after == (EditorView {
                form: FormView {
                    common_source: after.form.common_source,
                    common_edit: after.form.common_edit,
                    ..editor.form
                },
                ..editor
            })
        }),
{
}

/// An operation on the selection is for the checked items: they get what it makes
/// of their tags, and every other item stays.
pub proof fn law_operations_are_for_checked_items(
    data: DatasetView,
    operation: OperationView,
    i: int,
)
    requires
        data.items.len() <= usize::MAX,
        0 <= i < data.items.len(),
    ensures
        selection_operated(data, operation).items.len() == data.items.len(),
        selection_operated(data, operation).items[i] == if data.items[i].selected {
            ItemView { tags: operated(operation, data.items[i].tags), ..data.items[i] }
        } else {
            data.items[i]
        },
{
    law_places(data.items, |item: ItemView| item.selected);
    law_batch_keeps_others(
        data,
        places(data.items, |item: ItemView| item.selected),
        |tags: Seq<Seq<char>>| operated(operation, tags),
        i,
    );
}

/// What an expression as a query lets through: tags that it matches anywhere, or
/// at their beginning or their end, as is asked; one that is none lets all through.
pub proof fn law_expressions_as_queries(picker: PickerView, tag: Seq<char>)
    requires
        picker.regex,
        picker.query.len() > 0,
    ensures
        !is_pattern(picker.query) ==> shows(picker, tag),
        is_pattern(picker.query) && !picker.prefix && !picker.suffix ==> (shows(picker, tag)
            <==> matched(picker.query, tag)),
        ({
            let start = "^(?:"@ + picker.query + ")"@;
            let end = "(?:"@ + picker.query + ")$"@;
            is_pattern(picker.query) && is_pattern(start) && is_pattern(end) ==> {
                &&& picker.prefix && !picker.suffix ==> (shows(picker, tag) <==> matched(
                    start,
                    tag,
                ))
                &&& picker.suffix && !picker.prefix ==> (shows(picker, tag) <==> matched(end, tag))
                &&& picker.prefix && picker.suffix ==> (shows(picker, tag) <==> matched(start, tag)
                    || matched(end, tag))
            }
        }),
{
    reveal_strlit("^(?:");
    reveal_strlit("(?:");
    reveal_strlit(")");
    reveal_strlit(")$");
    assert("^(?:"@ =~= seq!['^', '(', '?', ':']);
    assert("(?:"@ =~= seq!['(', '?', ':']);
    assert(")"@ =~= seq![')']);
    assert(")$"@ =~= seq![')', '$']);
}

} // verus!
