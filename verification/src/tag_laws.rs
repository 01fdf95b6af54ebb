//! What the edits of tags leave, said of the lists before and after them.

use vstd::prelude::*;

use crate::batch::shortened_list;
use crate::edits::{
    change_of, changed_text, common_additions, common_edited, common_replaced, each_replaced,
    operated, selected_replaced, without_matches, ChangeView, OperationView,
};
use crate::pattern::{matched, substituted};
use crate::tags::{all_parsed, deduplicated, law_deduplicated, lemma_contains_push, parsed, without};
use crate::text::{has_ignoring_case, replaced, same_ignoring_case, stands_at, trimmed};

verus! {

broadcast use vstd::seq_lib::group_to_multiset_ensures;

// ----- Removals ------------------------------------------------------------

/// Removing what an expression matches keeps exactly the tags that it does not
/// match, each as often as before and in the same order.
pub proof fn law_matches_are_removed(tags: Seq<Seq<char>>, pattern: Seq<char>)
    ensures
        without_matches(tags, pattern) == tags.filter(|tag: Seq<char>| !matched(pattern, tag)),
        forall|tag: Seq<char>| #[trigger]
            without_matches(tags, pattern).contains(tag) <==> tags.contains(tag) && !matched(
                pattern,
                tag,
            ),
        forall|tag: Seq<char>| #[trigger]
            without_matches(tags, pattern).to_multiset().count(tag) == if matched(pattern, tag) {
                0
            } else {
                tags.to_multiset().count(tag)
            },
    decreases tags.len(),
{
    reveal(Seq::filter);
    let keep = |tag: Seq<char>| !matched(pattern, tag);
    let all = without_matches(tags, pattern);
    if tags.len() > 0 {
        let shorter = tags.drop_last();
        let rest = without_matches(shorter, pattern);
        law_matches_are_removed(shorter, pattern);
        assert(tags =~= shorter.push(tags.last()));
        assert forall|tag: Seq<char>| #[trigger] all.contains(tag) <==> tags.contains(tag)
            && !matched(pattern, tag) by {
            lemma_contains_push(shorter, tags.last(), tag);
            lemma_contains_push(rest, tags.last(), tag);
            assert(rest.contains(tag) <==> shorter.contains(tag) && !matched(pattern, tag));
        }
        assert forall|tag: Seq<char>| #[trigger] all.to_multiset().count(tag) == if matched(
            pattern,
            tag,
        ) {
            0
        } else {
            tags.to_multiset().count(tag)
        } by {
            assert(rest.to_multiset().count(tag) == if matched(pattern, tag) {
                0
            } else {
                shorter.to_multiset().count(tag)
            });
        }
    }
}

/// Removing from two lists in turn is removing from both at once, and a single
/// tag goes if and only if the expression matches it.
pub proof fn law_matches_are_removed_piecewise(
    a: Seq<Seq<char>>,
    b: Seq<Seq<char>>,
    tag: Seq<char>,
    pattern: Seq<char>,
)
    ensures
        without_matches(a + b, pattern) == without_matches(a, pattern) + without_matches(b, pattern),
        without_matches(seq![tag], pattern).len() == 0 <==> matched(pattern, tag),
        !matched(pattern, tag) ==> without_matches(seq![tag], pattern) == seq![tag],
    decreases b.len(),
{
    let one = seq![tag];
    assert(one.drop_last() =~= Seq::<Seq<char>>::empty());
    assert(without_matches(one.drop_last(), pattern) =~= Seq::<Seq<char>>::empty());
    if !matched(pattern, tag) {
        assert(without_matches(one, pattern) =~= one);
    }
    if b.len() == 0 {
        assert(a + b =~= a);
        assert(without_matches(a, pattern) + without_matches(b, pattern) =~= without_matches(
            a,
            pattern,
        ));
    } else {
        let all = a + b;
        assert(all.drop_last() =~= a + b.drop_last());
        assert(all.last() == b.last());
        law_matches_are_removed_piecewise(a, b.drop_last(), tag, pattern);
        assert(without_matches(all, pattern) =~= without_matches(a, pattern) + without_matches(
            b,
            pattern,
        ));
    }
}

/// Removing a tag keeps exactly the tags that differ from it by more than case,
/// each as often as before and in the same order.
pub proof fn law_others_are_kept(tags: Seq<Seq<char>>, value: Seq<char>)
    ensures
        without(tags, value) == tags.filter(|tag: Seq<char>| !same_ignoring_case(tag, value)),
        forall|tag: Seq<char>| #[trigger]
            without(tags, value).to_multiset().count(tag) == if same_ignoring_case(tag, value) {
                0
            } else {
                tags.to_multiset().count(tag)
            },
    decreases tags.len(),
{
    reveal(Seq::filter);
    let keep = |tag: Seq<char>| !same_ignoring_case(tag, value);
    if tags.len() > 0 {
        let shorter = tags.drop_last();
        law_others_are_kept(shorter, value);
        assert(tags =~= shorter.push(tags.last()));
        assert forall|tag: Seq<char>| #[trigger]
            without(tags, value).to_multiset().count(tag) == if same_ignoring_case(tag, value) {
                0
            } else {
                tags.to_multiset().count(tag)
            } by {
            assert(without(shorter, value).to_multiset().count(tag) == if same_ignoring_case(
                tag,
                value,
            ) {
                0
            } else {
                shorter.to_multiset().count(tag)
            });
        }
    }
}

/// A removal that names no tag changes nothing, and one that names a tag does
/// not look at the white space around it.
pub proof fn law_removal_is_by_trimmed_name(value: Seq<char>, tags: Seq<Seq<char>>, tag: Seq<char>)
    ensures
        trimmed(value).len() == 0 ==> operated(OperationView::Remove(value), tags) == tags,
        trimmed(value).len() > 0 ==> (operated(OperationView::Remove(value), tags).contains(tag)
            <==> tags.contains(tag) && !same_ignoring_case(tag, trimmed(value))),
{
    law_others_are_kept(tags, trimmed(value));
    let kept = without(tags, trimmed(value));
    if kept.contains(tag) {
        assert(kept.to_multiset().count(tag) > 0);
        assert(tags.to_multiset().count(tag) > 0);
    }
    if tags.contains(tag) && !same_ignoring_case(tag, trimmed(value)) {
        assert(tags.to_multiset().count(tag) > 0);
        assert(kept.to_multiset().count(tag) > 0);
    }
}

// ----- Additions -----------------------------------------------------------

/// What is appended stands behind the tags that were there, and what is
/// prepended before them; those stay as they are.
pub proof fn law_additions_stand_at_their_end(value: Seq<char>, tags: Seq<Seq<char>>)
    ensures
        ({
            let after = operated(OperationView::Append(value), tags);
            &&& after.len() == tags.len() + parsed(value).len()
            &&& after.take(tags.len() as int) == tags
            &&& after.skip(tags.len() as int) == parsed(value)
        }),
        ({
            let after = operated(OperationView::Prepend(value), tags);
            &&& after.len() == parsed(value).len() + tags.len()
            &&& after.take(parsed(value).len() as int) == parsed(value)
            &&& after.skip(parsed(value).len() as int) == tags
        }),
{
    let behind = operated(OperationView::Append(value), tags);
    let before = operated(OperationView::Prepend(value), tags);
    assert(behind.take(tags.len() as int) =~= tags);
    assert(behind.skip(tags.len() as int) =~= parsed(value));
    assert(before.take(parsed(value).len() as int) =~= parsed(value));
    assert(before.skip(parsed(value).len() as int) =~= tags);
}

// ----- Repetitions ---------------------------------------------------------

/// Deduplication keeps the first of the tags that are equal but for case: what
/// it leaves of a list begins with what it leaves of every beginning of the
/// list, and a tag is added to that exactly where none before equals it.
pub proof fn law_first_of_equals_stays(tags: Seq<Seq<char>>, n: int)
    requires
        0 <= n <= tags.len(),
    ensures
        deduplicated(tags.take(n)).len() <= deduplicated(tags).len(),
        deduplicated(tags).take(deduplicated(tags.take(n)).len() as int) == deduplicated(
            tags.take(n),
        ),
        n < tags.len() && !has_ignoring_case(tags.take(n), tags[n]) ==> {
            &&& deduplicated(tags.take(n)).len() < deduplicated(tags).len()
            &&& deduplicated(tags)[deduplicated(tags.take(n)).len() as int] == tags[n]
        },
    decreases tags.len(),
{
    let all = deduplicated(tags);
    let first = deduplicated(tags.take(n));
    if n == tags.len() {
        assert(tags.take(n) =~= tags);
        assert(all.take(all.len() as int) =~= all);
    } else {
        let shorter = tags.drop_last();
        let rest = deduplicated(shorter);
        law_first_of_equals_stays(shorter, n);
        assert(shorter.take(n) =~= tags.take(n));
        assert(rest.take(first.len() as int) == first);
        assert(all.take(first.len() as int) =~= rest.take(first.len() as int));
        if n < shorter.len() {
            assert(shorter[n] == tags[n]);
        } else {
            assert(shorter =~= tags.take(n));
            law_deduplicated(shorter);
            if has_ignoring_case(rest, tags[n]) {
                assert(has_ignoring_case(shorter, tags[n]));
            }
        }
    }
}

/// A list that is shortened to a number of tags is its beginning, and as long
/// as the number and the list allow.
pub proof fn law_shortened_to_its_beginning(tags: Seq<Seq<char>>, count: nat)
    ensures
        shortened_list(tags, count).len() == if tags.len() < count {
            tags.len()
        } else {
            count
        },
        forall|i: int|
            0 <= i < shortened_list(tags, count).len() ==> #[trigger] shortened_list(tags, count)[i]
                == tags[i],
{
}

// ----- Replacements --------------------------------------------------------

/// A text that is not found is replaced nowhere.
pub proof fn law_nothing_found_nothing_replaced(text: Seq<char>, from: Seq<char>, to: Seq<char>)
    requires
        forall|at: int| !#[trigger] stands_at(text, from, at),
    ensures
        replaced(text, from, to) == text,
    decreases text.len(),
{
    if from.len() > 0 && text.len() >= from.len() {
        let rest = text.drop_first();
        assert(!stands_at(text, from, 0));
        assert forall|at: int| !#[trigger] stands_at(rest, from, at) by {
            if stands_at(rest, from, at) {
                assert(text.subrange(at + 1, at + 1 + from.len()) =~= rest.subrange(
                    at,
                    at + from.len(),
                ));
                assert(stands_at(text, from, at + 1));
            }
        }
        law_nothing_found_nothing_replaced(rest, from, to);
        assert(seq![text[0]] + rest =~= text);
    }
}

/// Where a text is found first, it gives way to its replacement, and the search
/// goes on behind it.
pub proof fn law_each_occurrence_is_replaced(
    before: Seq<char>,
    from: Seq<char>,
    to: Seq<char>,
    after: Seq<char>,
)
    requires
        from.len() > 0,
        forall|at: int|
            at < before.len() ==> !#[trigger] stands_at(before + from + after, from, at),
    ensures
        replaced(before + from + after, from, to) == before + to + replaced(after, from, to),
    decreases before.len(),
{
    let all = before + from + after;
    let behind = replaced(after, from, to);
    if before.len() == 0 {
        assert(all.subrange(0, from.len() as int) =~= from);
        assert(all.skip(from.len() as int) =~= after);
        assert(to + behind =~= before + to + behind);
    } else {
        let rest = before.drop_first();
        let less = rest + from + after;
        assert(all.drop_first() =~= less);
        assert(!stands_at(all, from, 0));
        assert forall|at: int| at < rest.len() implies !#[trigger] stands_at(less, from, at) by {
            if stands_at(less, from, at) {
                assert(all.subrange(at + 1, at + 1 + from.len()) =~= less.subrange(
                    at,
                    at + from.len(),
                ));
                assert(stands_at(all, from, at + 1));
            }
        }
        law_each_occurrence_is_replaced(rest, from, to, after);
        assert(all[0] == before[0]);
        assert(seq![before[0]] + (rest + to + behind) =~= before + to + behind);
    }
}

/// The tags of two lists of texts are those of both in turn.
pub proof fn lemma_all_parsed_add(a: Seq<Seq<char>>, b: Seq<Seq<char>>)
    ensures
        all_parsed(a + b) == all_parsed(a) + all_parsed(b),
    decreases b.len(),
{
    if b.len() == 0 {
        assert(a + b =~= a);
        assert(all_parsed(a) + all_parsed(b) =~= all_parsed(a));
    } else {
        assert((a + b).drop_last() =~= a + b.drop_last());
        lemma_all_parsed_add(a, b.drop_last());
        assert(all_parsed(a + b) =~= all_parsed(a) + all_parsed(b));
    }
}

/// The tags of one text are those that it lists.
pub proof fn lemma_all_parsed_one(text: Seq<char>)
    ensures
        all_parsed(seq![text]) == parsed(text),
{
    assert(seq![text].drop_last() =~= Seq::<Seq<char>>::empty());
    assert(all_parsed(seq![text].drop_last()) =~= Seq::<Seq<char>>::empty());
    assert(all_parsed(seq![text]) =~= parsed(text));
}

/// A replacement in each tag is for each tag by itself: it makes of a tag what
/// its changed text lists, and leaves that where the tag stood.
pub proof fn law_each_tag_is_replaced(
    a: Seq<Seq<char>>,
    b: Seq<Seq<char>>,
    tag: Seq<char>,
    from: Seq<char>,
    to: Seq<char>,
    pattern: Seq<char>,
)
    requires
        from.len() > 0,
    ensures
        ({
            let literal = OperationView::ReplaceLiteral { from, to };
            operated(literal, a + seq![tag] + b) == operated(literal, a) + parsed(
                replaced(tag, from, to),
            ) + operated(literal, b)
        }),
        ({
            let change = ChangeView::Pattern { pattern, replacement: to };
            let regular = OperationView::Replace { pattern, replacement: to };
            operated(regular, a + seq![tag] + b) == operated(regular, a) + parsed(
                changed_text(change, tag),
            ) + operated(regular, b)
        }),
        operated(OperationView::ReplaceLiteral { from: Seq::empty(), to }, a) == a,
{
    lemma_each_replaced_at(a, b, tag, ChangeView::Literal { from, to });
    lemma_each_replaced_at(a, b, tag, ChangeView::Pattern { pattern, replacement: to });
}

proof fn lemma_each_replaced_at(
    a: Seq<Seq<char>>,
    b: Seq<Seq<char>>,
    tag: Seq<char>,
    change: ChangeView,
)
    ensures
        each_replaced(a + seq![tag] + b, change) == each_replaced(a, change) + parsed(
            changed_text(change, tag),
        ) + each_replaced(b, change),
{
    let all = a + seq![tag] + b;
    let text = changed_text(change, tag);
    let first = Seq::new(a.len(), |i: int| changed_text(change, a[i]));
    let last = Seq::new(b.len(), |i: int| changed_text(change, b[i]));
    assert(Seq::new(all.len(), |i: int| changed_text(change, all[i])) =~= first + seq![text]
        + last);
    lemma_all_parsed_add(first + seq![text], last);
    lemma_all_parsed_add(first, seq![text]);
    lemma_all_parsed_one(text);
}

/// A replacement in the selected tags makes of a selected tag what its changed
/// text lists, where it stood, and leaves every other tag.
pub proof fn law_selected_tags_are_replaced(
    a: Seq<Seq<char>>,
    b: Seq<Seq<char>>,
    tag: Seq<char>,
    selected: Seq<Seq<char>>,
    change: ChangeView,
)
    ensures
        selected_replaced(a + seq![tag] + b, selected, change) == selected_replaced(
            a,
            selected,
            change,
        ) + (if selected.contains(tag) {
            parsed(changed_text(change, tag))
        } else {
            seq![tag]
        }) + selected_replaced(b, selected, change),
    decreases b.len(),
{
    let all = a + seq![tag] + b;
    let here = if selected.contains(tag) {
        parsed(changed_text(change, tag))
    } else {
        seq![tag]
    };
    let first = selected_replaced(a, selected, change);
    if b.len() == 0 {
        assert(all.drop_last() =~= a);
        assert(all.last() == tag);
        assert(selected_replaced(all, selected, change) =~= first + here + selected_replaced(
            b,
            selected,
            change,
        ));
    } else {
        assert(all.drop_last() =~= a + seq![tag] + b.drop_last());
        assert(all.last() == b.last());
        law_selected_tags_are_replaced(a, b.drop_last(), tag, selected, change);
        assert(selected_replaced(all, selected, change) =~= first + here + selected_replaced(
            b,
            selected,
            change,
        ));
    }
}

/// A literal change replaces a text, and a change by expression what the
/// expression matches.
pub proof fn law_kind_of_change(search: Seq<char>, replacement: Seq<char>, text: Seq<char>)
    ensures
        changed_text(change_of(search, replacement, false), text) == replaced(
            text,
            search,
            replacement,
        ),
        changed_text(change_of(search, replacement, true), text) == substituted(
            search,
            text,
            replacement,
        ),
{
}

// ----- The tags that items have in common ----------------------------------

/// An edit of the common tags leaves a tag that is not common where it stands,
/// puts in the place of a common one what its edited text lists, and removes one
/// that has no edited text.
pub proof fn law_common_tags_are_edited(
    a: Seq<Seq<char>>,
    b: Seq<Seq<char>>,
    tag: Seq<char>,
    common: Seq<Seq<char>>,
    edited: Seq<Seq<char>>,
    at: int,
)
    requires
        common.no_duplicates(),
        common.contains(tag) ==> 0 <= at < common.len() && common[at] == tag,
    ensures
        common_replaced(a + seq![tag] + b, common, edited) == common_replaced(a, common, edited)
            + (if !common.contains(tag) {
            seq![tag]
        } else if at < edited.len() {
            parsed(edited[at])
        } else {
            Seq::<Seq<char>>::empty()
        }) + common_replaced(b, common, edited),
    decreases b.len(),
{
    let all = a + seq![tag] + b;
    let here = if !common.contains(tag) {
        seq![tag]
    } else if at < edited.len() {
        parsed(edited[at])
    } else {
        Seq::<Seq<char>>::empty()
    };
    let first = common_replaced(a, common, edited);
    if b.len() == 0 {
        assert(all.drop_last() =~= a);
        assert(all.last() == tag);
        if common.contains(tag) {
            common.index_of_first_ensures(tag);
        }
        assert(common_replaced(all, common, edited) =~= first + here + common_replaced(
            b,
            common,
            edited,
        ));
    } else {
        assert(all.drop_last() =~= a + seq![tag] + b.drop_last());
        assert(all.last() == b.last());
        law_common_tags_are_edited(a, b.drop_last(), tag, common, edited, at);
        assert(common_replaced(all, common, edited) =~= first + here + common_replaced(
            b,
            common,
            edited,
        ));
    }
}

/// The texts behind those for the common tags are added: before the tags of an
/// item or behind them, as was asked, and none where there are no such texts.
pub proof fn law_common_additions(
    tags: Seq<Seq<char>>,
    common: Seq<Seq<char>>,
    edited: Seq<Seq<char>>,
    more: Seq<char>,
)
    ensures
        edited.len() <= common.len() ==> common_additions(common, edited).len() == 0,
        edited.len() >= common.len() ==> common_additions(common, edited.push(more))
            == common_additions(common, edited) + parsed(more),
        ({
            let kept = common_replaced(tags, common, edited);
            let additions = common_additions(common, edited);
            &&& common_edited(tags, common, edited, false).take(kept.len() as int) == kept
            &&& common_edited(tags, common, edited, false).skip(kept.len() as int) == additions
            &&& common_edited(tags, common, edited, true).take(additions.len() as int) == additions
            &&& common_edited(tags, common, edited, true).skip(additions.len() as int) == kept
        }),
{
    let kept = common_replaced(tags, common, edited);
    let additions = common_additions(common, edited);
    assert((kept + additions).take(kept.len() as int) =~= kept);
    assert((kept + additions).skip(kept.len() as int) =~= additions);
    assert((additions + kept).take(additions.len() as int) =~= additions);
    assert((additions + kept).skip(additions.len() as int) =~= kept);
    if edited.len() >= common.len() {
        let n = common.len() as int;
        assert(edited.push(more).skip(n) =~= edited.skip(n) + seq![more]);
        lemma_all_parsed_add(edited.skip(n), seq![more]);
        lemma_all_parsed_one(more);
        if edited.len() == n {
            assert(edited.skip(n) =~= Seq::<Seq<char>>::empty());
            assert(all_parsed(edited.skip(n)) =~= Seq::<Seq<char>>::empty());
            assert(common_additions(common, edited) =~= all_parsed(edited.skip(n)));
        }
        assert(common_additions(common, edited.push(more)) =~= common_additions(common, edited)
            + parsed(more));
    }
}

} // verus!
