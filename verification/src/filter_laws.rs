//! What the filters let through, said of the terms and the tags of the items.

use vstd::prelude::*;

use crate::dataset::listed;
use crate::editor::{
    filter_terms, items_of, negative_terms, positive_terms, shows_item, visible_places, EditorView,
    FiltersView,
};
use crate::filter::{
    excluded_terms, has_all, has_any, included_terms, passes, query_filter, FilterMode, FilterView,
};
use crate::item::ItemView;
use crate::laws::law_places;
use crate::tag_laws::{lemma_all_parsed_add, lemma_all_parsed_one};
use crate::tag_set::ordered_list;
use crate::tags::{all_parsed, parsed};
use crate::text::{has_ignoring_case, list_entries, same_ignoring_case, trimmed, Separators};
use crate::text_laws::{
    law_separator_parts_lists, law_set_is_listed_in_order, law_text_without_separator_is_one_entry,
};

verus! {

// ----- The filters of the editor -------------------------------------------

/// Whether a tag of an item is a term, but for case.
pub open spec fn has_term(item: ItemView, term: Seq<char>) -> bool {
    exists|k: int| 0 <= k < item.tags.len() && same_ignoring_case(#[trigger] item.tags[k], term)
}

/// Whether a term is asked for, but for case: as an entry of the text, or as one
/// of the picked tags.
pub open spec fn is_asked(text: Seq<char>, picked: Set<Seq<char>>, term: Seq<char>) -> bool {
    ||| exists|k: int|
        0 <= k < list_entries(Separators::Commas, text).len() && same_ignoring_case(
            #[trigger] list_entries(Separators::Commas, text)[k],
            term,
        )
    ||| exists|tag: Seq<char>| #[trigger] picked.contains(tag) && same_ignoring_case(tag, term)
}

/// Whether items are to have a term.
pub open spec fn is_wanted(editor: EditorView, term: Seq<char>) -> bool {
    editor.filters.positive_enabled && is_asked(
        editor.filters.included,
        editor.positive.selected,
        term,
    )
}

/// Whether items are not to have a term.
pub open spec fn is_unwanted(editor: EditorView, term: Seq<char>) -> bool {
    editor.filters.negative_enabled && is_asked(
        editor.filters.excluded,
        editor.negative.selected,
        term,
    )
}

proof fn lemma_terms(text: Seq<char>, picked: Seq<Seq<char>>, term: Seq<char>)
    ensures
        has_ignoring_case(filter_terms(text, picked), term) <==> has_ignoring_case(
            list_entries(Separators::Commas, text),
            term,
        ) || has_ignoring_case(picked, term),
    decreases picked.len(),
{
    if picked.len() > 0 {
        let less = picked.drop_last();
        let last = picked.last();
        let rest = filter_terms(text, less);
        let all = filter_terms(text, picked);
        lemma_terms(text, less, term);
        if has_ignoring_case(picked, term) {
            let k = choose|k: int| 0 <= k < picked.len() && same_ignoring_case(
                #[trigger] picked[k],
                term,
            );
            if k < less.len() {
                assert(less[k] == picked[k]);
            } else if has_ignoring_case(rest, last) {
                let j = choose|j: int| 0 <= j < rest.len() && same_ignoring_case(
                    #[trigger] rest[j],
                    last,
                );
                assert(same_ignoring_case(rest[j], term));
            } else {
                assert(all[rest.len() as int] == last);
            }
        }
        if has_ignoring_case(less, term) {
            let k = choose|k: int| 0 <= k < less.len() && same_ignoring_case(
                #[trigger] less[k],
                term,
            );
            assert(picked[k] == less[k]);
        }
        if has_ignoring_case(rest, term) {
            let k = choose|k: int| 0 <= k < rest.len() && same_ignoring_case(
                #[trigger] rest[k],
                term,
            );
            assert(all[k] == rest[k]);
        }
        if has_ignoring_case(all, term) {
            let k = choose|k: int| 0 <= k < all.len() && same_ignoring_case(#[trigger] all[k], term);
            if k < rest.len() {
                assert(rest[k] == all[k]);
            } else {
                assert(picked[picked.len() - 1] == all[k]);
            }
        }
    } else {
        assert(!has_ignoring_case(picked, term));
    }
}

/// The terms of a filter are those that are asked for.
proof fn lemma_asked(text: Seq<char>, picked: Set<Seq<char>>, term: Seq<char>)
    requires
        picked.finite(),
    ensures
        has_ignoring_case(filter_terms(text, ordered_list(picked)), term) <==> is_asked(
            text,
            picked,
            term,
        ),
{
    let list = ordered_list(picked);
    law_set_is_listed_in_order(picked);
    lemma_terms(text, list, term);
    if has_ignoring_case(list, term) {
        let k = choose|k: int| 0 <= k < list.len() && same_ignoring_case(#[trigger] list[k], term);
        assert(list.contains(list[k]));
    }
    if exists|tag: Seq<char>| #[trigger] picked.contains(tag) && same_ignoring_case(tag, term) {
        let tag = choose|tag: Seq<char>| #[trigger]
            picked.contains(tag) && same_ignoring_case(tag, term);
        assert(list.contains(tag));
        let k = choose|k: int| 0 <= k < list.len() && list[k] == tag;
        assert(same_ignoring_case(list[k], term));
    }
}

proof fn lemma_term_of(list: Seq<Seq<char>>, k: int)
    requires
        0 <= k < list.len(),
    ensures
        has_ignoring_case(list, list[k]),
{
    assert(same_ignoring_case(list[k], list[k]));
}

/// What an item must have to pass one half of the filter.
proof fn lemma_modes(terms: Seq<Seq<char>>, asked: spec_fn(Seq<char>) -> bool, item: ItemView)
    requires
        forall|term: Seq<char>| #[trigger] has_ignoring_case(terms, term) <==> asked(term),
    ensures
        terms.len() > 0 <==> exists|term: Seq<char>| #[trigger] asked(term),
        (forall|k: int|
            0 <= k < terms.len() ==> has_ignoring_case(item.tags, #[trigger] terms[k])) <==> (forall|
            term: Seq<char>,
        |
            #[trigger] asked(term) ==> has_term(item, term)),
        (exists|k: int|
            0 <= k < terms.len() && has_ignoring_case(item.tags, #[trigger] terms[k])) <==> (exists|
            term: Seq<char>,
        |
            #[trigger] asked(term) && has_term(item, term)),
{
    assert forall|k: int| 0 <= k < terms.len() implies asked(#[trigger] terms[k]) by {
        lemma_term_of(terms, k);
    }
    assert forall|term: Seq<char>| #[trigger] asked(term) implies exists|k: int|
        0 <= k < terms.len() && same_ignoring_case(#[trigger] terms[k], term) by {
        assert(has_ignoring_case(terms, term));
    }
    if exists|term: Seq<char>| #[trigger] asked(term) {
        let term = choose|term: Seq<char>| #[trigger] asked(term);
        assert(has_ignoring_case(terms, term));
    }
    if terms.len() > 0 {
        assert(asked(terms[0]));
    }
    if forall|k: int| 0 <= k < terms.len() ==> has_ignoring_case(item.tags, #[trigger] terms[k]) {
        assert forall|term: Seq<char>| #[trigger] asked(term) implies has_term(item, term) by {
            let k = choose|k: int| 0 <= k < terms.len() && same_ignoring_case(
                #[trigger] terms[k],
                term,
            );
            assert(has_ignoring_case(item.tags, terms[k]));
            let j = choose|j: int| 0 <= j < item.tags.len() && same_ignoring_case(
                #[trigger] item.tags[j],
                terms[k],
            );
            assert(same_ignoring_case(item.tags[j], term));
        }
    }
    if forall|term: Seq<char>| #[trigger] asked(term) ==> has_term(item, term) {
        assert forall|k: int| 0 <= k < terms.len() implies has_ignoring_case(
            item.tags,
            #[trigger] terms[k],
        ) by {
            assert(asked(terms[k]));
            assert(has_term(item, terms[k]));
        }
    }
    if exists|k: int| 0 <= k < terms.len() && has_ignoring_case(item.tags, #[trigger] terms[k]) {
        let k = choose|k: int|
            0 <= k < terms.len() && has_ignoring_case(item.tags, #[trigger] terms[k]);
        assert(asked(terms[k]));
        assert(has_term(item, terms[k]));
    }
    if exists|term: Seq<char>| #[trigger] asked(term) && has_term(item, term) {
        let term = choose|term: Seq<char>| #[trigger] asked(term) && has_term(item, term);
        let k = choose|k: int| 0 <= k < terms.len() && same_ignoring_case(#[trigger] terms[k], term);
        let j = choose|j: int| 0 <= j < item.tags.len() && same_ignoring_case(
            #[trigger] item.tags[j],
            term,
        );
        assert(same_ignoring_case(item.tags[j], terms[k]));
        assert(has_ignoring_case(item.tags, terms[k]));
    }
}

/// An item is shown if and only if the filters let it through. Where only the
/// checked ones are shown, it is checked. Where terms are wanted, it has every one
/// of them, or one of them, as the mode says. Where terms are not wanted, it has
/// none of them, or not all of them, as their mode says. The items that are shown
/// keep their order.
pub proof fn law_what_is_shown(editor: EditorView, i: int)
    requires
        items_of(editor).len() <= usize::MAX,
        editor.filters.positive_enabled ==> editor.positive.selected.finite(),
        editor.filters.negative_enabled ==> editor.negative.selected.finite(),
        0 <= i < items_of(editor).len(),
    ensures
        listed(visible_places(editor), i) <==> {
            let item = items_of(editor)[i];
            &&& editor.filters.checked_only ==> item.selected
            &&& editor.filters.mode == FilterMode::And ==> forall|term: Seq<char>| #[trigger]
                is_wanted(editor, term) ==> has_term(item, term)
            &&& editor.filters.mode == FilterMode::Or && (exists|term: Seq<char>| #[trigger]
                is_wanted(editor, term)) ==> exists|term: Seq<char>| #[trigger]
                is_wanted(editor, term) && has_term(item, term)
            &&& editor.filters.negative_mode == FilterMode::Or ==> forall|term: Seq<char>| #[trigger]
                is_unwanted(editor, term) ==> !has_term(item, term)
            &&& editor.filters.negative_mode == FilterMode::And && (exists|term: Seq<char>| #[trigger]
                is_unwanted(editor, term)) ==> exists|term: Seq<char>| #[trigger]
                is_unwanted(editor, term) && !has_term(item, term)
        },
        forall|a: int, b: int|
            0 <= a < b < visible_places(editor).len() ==> #[trigger] visible_places(editor)[a]
                < #[trigger] visible_places(editor)[b],
        forall|a: int|
            0 <= a < visible_places(editor).len() ==> #[trigger] visible_places(editor)[a]
                < items_of(editor).len(),
{
    let item = items_of(editor)[i];
    let positive = positive_terms(editor);
    let negative = negative_terms(editor);
    let wanted = |term: Seq<char>| is_wanted(editor, term);
    let unwanted = |term: Seq<char>| is_unwanted(editor, term);
    law_places(
        items_of(editor),
        |item: ItemView| shows_item(editor.filters, positive, negative, item),
    );
    assert forall|term: Seq<char>| #[trigger] has_ignoring_case(positive, term) <==> wanted(term) by {
        if editor.filters.positive_enabled {
            lemma_asked(editor.filters.included, editor.positive.selected, term);
        }
        assert(wanted(term) == is_wanted(editor, term));
    }
    assert forall|term: Seq<char>| #[trigger] has_ignoring_case(negative, term) <==> unwanted(
        term,
    ) by {
        if editor.filters.negative_enabled {
            lemma_asked(editor.filters.excluded, editor.negative.selected, term);
        }
        assert(unwanted(term) == is_unwanted(editor, term));
    }
    lemma_modes(positive, wanted, item);
    lemma_modes(negative, unwanted, item);
    assert(forall|term: Seq<char>| #[trigger] wanted(term) == is_wanted(editor, term));
    assert(forall|term: Seq<char>| #[trigger] is_wanted(editor, term) == wanted(term));
    assert(forall|term: Seq<char>| #[trigger] unwanted(term) == is_unwanted(editor, term));
    assert(forall|term: Seq<char>| #[trigger] is_unwanted(editor, term) == unwanted(term));
}

/// The editor with one more entry in the text of wanted terms.
pub open spec fn wanting_more(editor: EditorView, entry: Seq<char>) -> EditorView {
    EditorView {
        filters: FiltersView {
            included: editor.filters.included.push(',') + entry,
            ..editor.filters
        },
        ..editor
    }
}

/// The editor with one more entry in the text of terms that are not wanted.
pub open spec fn wanting_less(editor: EditorView, entry: Seq<char>) -> EditorView {
    EditorView {
        filters: FiltersView {
            excluded: editor.filters.excluded.push(',') + entry,
            ..editor.filters
        },
        ..editor
    }
}

proof fn lemma_asked_more(
    text: Seq<char>,
    entry: Seq<char>,
    picked: Set<Seq<char>>,
    term: Seq<char>,
)
    requires
        is_asked(text, picked, term),
    ensures
        is_asked(text.push(',') + entry, picked, term),
{
    let less = list_entries(Separators::Commas, text);
    let more = list_entries(Separators::Commas, text.push(',') + entry);
    law_separator_parts_lists(Separators::Commas, text, ',', entry);
    if exists|k: int| 0 <= k < less.len() && same_ignoring_case(#[trigger] less[k], term) {
        let k = choose|k: int| 0 <= k < less.len() && same_ignoring_case(#[trigger] less[k], term);
        assert(more[k] == less[k]);
    }
}

/// One more wanted term never shows more items where all terms are wanted, and
/// never fewer where any of them will do and there was one before.
pub proof fn law_one_more_wanted_term(editor: EditorView, entry: Seq<char>, i: int)
    requires
        items_of(editor).len() <= usize::MAX,
        editor.positive.selected.finite(),
        editor.negative.selected.finite(),
        0 <= i < items_of(editor).len(),
    ensures
        editor.filters.mode == FilterMode::And && listed(
            visible_places(wanting_more(editor, entry)),
            i,
        ) ==> listed(visible_places(editor), i),
        editor.filters.mode == FilterMode::Or && (exists|term: Seq<char>| #[trigger]
            is_wanted(editor, term)) && listed(visible_places(editor), i) ==> listed(
            visible_places(wanting_more(editor, entry)),
            i,
        ),
{
    let more = wanting_more(editor, entry);
    let item = items_of(editor)[i];
    law_what_is_shown(editor, i);
    law_what_is_shown(more, i);
    assert forall|term: Seq<char>| #[trigger] is_wanted(editor, term) implies is_wanted(
        more,
        term,
    ) by {
        lemma_asked_more(editor.filters.included, entry, editor.positive.selected, term);
    }
    assert(forall|term: Seq<char>| #[trigger] is_unwanted(editor, term) == is_unwanted(more, term));
    assert(forall|term: Seq<char>| #[trigger] is_unwanted(more, term) == is_unwanted(editor, term));
}

/// One more term that is not wanted never shows more items where any of them
/// hides one, and never fewer where only all of them do and there was one before.
pub proof fn law_one_more_unwanted_term(editor: EditorView, entry: Seq<char>, i: int)
    requires
        items_of(editor).len() <= usize::MAX,
        editor.positive.selected.finite(),
        editor.negative.selected.finite(),
        0 <= i < items_of(editor).len(),
    ensures
        editor.filters.negative_mode == FilterMode::Or && listed(
            visible_places(wanting_less(editor, entry)),
            i,
        ) ==> listed(visible_places(editor), i),
        editor.filters.negative_mode == FilterMode::And && (exists|term: Seq<char>| #[trigger]
            is_unwanted(editor, term)) && listed(visible_places(editor), i) ==> listed(
            visible_places(wanting_less(editor, entry)),
            i,
        ),
{
    let more = wanting_less(editor, entry);
    law_what_is_shown(editor, i);
    law_what_is_shown(more, i);
    assert forall|term: Seq<char>| #[trigger] is_unwanted(editor, term) implies is_unwanted(
        more,
        term,
    ) by {
        lemma_asked_more(editor.filters.excluded, entry, editor.negative.selected, term);
    }
    assert(forall|term: Seq<char>| #[trigger] is_wanted(editor, term) == is_wanted(more, term));
    assert(forall|term: Seq<char>| #[trigger] is_wanted(more, term) == is_wanted(editor, term));
}

// ----- Filters by themselves -----------------------------------------------

proof fn lemma_has_in(tags: Seq<Seq<char>>, terms: Seq<Seq<char>>, term: Seq<char>)
    ensures
        has_all(tags, terms.push(term)) <==> has_all(tags, terms) && has_ignoring_case(tags, term),
        has_any(tags, terms.push(term)) <==> has_any(tags, terms) || has_ignoring_case(tags, term),
{
    let more = terms.push(term);
    assert(more[terms.len() as int] == term);
    assert(forall|k: int| 0 <= k < terms.len() ==> more[k] == #[trigger] terms[k]);
    assert(forall|k: int| 0 <= k < terms.len() ==> #[trigger] more[k] == terms[k]);
    if has_any(tags, terms) {
        let k = choose|k: int| 0 <= k < terms.len() && has_ignoring_case(tags, #[trigger] terms[k]);
        assert(has_ignoring_case(tags, more[k]));
    }
}

/// What passes a filter, term by term: without terms everything does; a term that
/// is excluded takes out what has it; and a further term that is asked for has to
/// be there as well, or will do instead, as the mode says.
pub proof fn law_filter_term_by_term(
    included: Seq<Seq<char>>,
    excluded: Seq<Seq<char>>,
    term: Seq<char>,
    tags: Seq<Seq<char>>,
    mode: FilterMode,
)
    ensures
        passes(FilterView { included: Seq::empty(), excluded: Seq::empty(), mode }, tags),
        passes(FilterView { included, excluded: excluded.push(term), mode }, tags) <==> passes(
            FilterView { included, excluded, mode },
            tags,
        ) && !has_ignoring_case(tags, term),
        passes(
            FilterView { included: included.push(term), excluded, mode: FilterMode::And },
            tags,
        ) <==> passes(FilterView { included, excluded, mode: FilterMode::And }, tags)
            && has_ignoring_case(tags, term),
        passes(
            FilterView { included: included.push(term), excluded, mode: FilterMode::Or },
            tags,
        ) <==> passes(FilterView { included: Seq::empty(), excluded, mode }, tags) && (
        has_ignoring_case(tags, term) || (included.len() > 0 && passes(
            FilterView { included, excluded, mode: FilterMode::Or },
            tags,
        ))),
{
    lemma_has_in(tags, included, term);
    lemma_has_in(tags, excluded, term);
}

proof fn lemma_included_add(a: Seq<Seq<char>>, b: Seq<Seq<char>>)
    ensures
        included_terms(a + b) == included_terms(a) + included_terms(b),
        excluded_terms(a + b) == excluded_terms(a) + excluded_terms(b),
    decreases b.len(),
{
    if b.len() == 0 {
        assert(a + b =~= a);
        assert(included_terms(a) + included_terms(b) =~= included_terms(a));
        assert(excluded_terms(a) + excluded_terms(b) =~= excluded_terms(a));
    } else {
        assert((a + b).drop_last() =~= a + b.drop_last());
        assert((a + b).last() == b.last());
        lemma_included_add(a, b.drop_last());
        assert(included_terms(a + b) =~= included_terms(a) + included_terms(b));
        assert(excluded_terms(a + b) =~= excluded_terms(a) + excluded_terms(b));
    }
}

/// A query asks for what its entries ask for, one after the other: an entry with
/// a minus sign in front excludes what stands behind the sign, and any other asks
/// for what it says.
pub proof fn law_query_entry_by_entry(
    query: Seq<char>,
    more: Seq<char>,
    entry: Seq<char>,
    mode: FilterMode,
)
    requires
        forall|i: int| 0 <= i < entry.len() ==> #[trigger] entry[i] != ',',
    ensures
        query_filter(query.push(',') + more, mode).included == query_filter(query, mode).included
            + query_filter(more, mode).included,
        query_filter(query.push(',') + more, mode).excluded == query_filter(query, mode).excluded
            + query_filter(more, mode).excluded,
        query_filter(query, mode).mode == mode,
        ({
            let text = trimmed(entry);
            let filter = query_filter(entry, mode);
            if text.len() > 0 && text[0] == '-' {
                filter.included.len() == 0 && filter.excluded == parsed(trimmed(text.skip(1)))
            } else {
                filter.excluded.len() == 0 && filter.included == parsed(text)
            }
        }),
{
    let a = list_entries(Separators::Commas, query);
    let b = list_entries(Separators::Commas, more);
    law_separator_parts_lists(Separators::Commas, query, ',', more);
    lemma_included_add(a, b);
    lemma_all_parsed_add(included_terms(a), included_terms(b));
    lemma_all_parsed_add(excluded_terms(a), excluded_terms(b));
    law_text_without_separator_is_one_entry(Separators::Commas, entry);
    let text = trimmed(entry);
    let none = Seq::<Seq<char>>::empty();
    assert(included_terms(none) =~= none);
    assert(excluded_terms(none) =~= none);
    assert(all_parsed(none) =~= none);
    law_text_without_separator_is_one_entry(Separators::Caption, Seq::empty());
    assert(trimmed(Seq::<char>::empty()) =~= Seq::<char>::empty());
    assert(parsed(Seq::<char>::empty()) =~= none);
    if text.len() == 0 {
        assert(text =~= Seq::<char>::empty());
    } else {
        let one = seq![text];
        assert(one.drop_last() =~= none);
        assert(text.skip(1) =~= text.drop_first());
        let behind = trimmed(text.drop_first());
        assert(all_parsed(seq![behind]) =~= parsed(behind)) by {
            lemma_all_parsed_one(behind);
        }
        assert(all_parsed(one) =~= parsed(text)) by {
            lemma_all_parsed_one(text);
        }
        if text[0] == '-' {
            assert(included_terms(one) =~= none);
            if behind.len() > 0 {
                assert(excluded_terms(one) =~= seq![behind]);
            } else {
                assert(excluded_terms(one) =~= none);
                assert(behind =~= Seq::<char>::empty());
            }
        } else {
            assert(included_terms(one) =~= one);
            assert(excluded_terms(one) =~= none);
        }
    }
}

} // verus!
