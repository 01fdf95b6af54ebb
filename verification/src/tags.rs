//! Tags and captions.
//!
//! A caption is a text that lists tags, separated by commas or ends of lines.
//! A tag has no separator in it, is not empty and has no white space at its
//! ends.

use vstd::prelude::*;

use crate::text::{
    copy_strings, entries_of, eq_ignore_ascii_case, extend_strings, group_texts, has_ignoring_case,
    is_separator, is_trimmed, join, joined, lemma_split_nonempty, lemma_split_parts,
    lemma_trimmed_contains, lemma_trimmed_fixpoint, lemma_trimmed_ignores_space,
    lemma_trimmed_is_trimmed, list_entries, list_has_ignoring_case, nonblank, same_ignoring_case,
    split, texts, trimmed, Separators,
};

verus! {

/// Whether `tag` is a tag: not empty, trimmed, and free of separators.
pub open spec fn is_tag(tag: Seq<char>) -> bool {
    &&& tag.len() > 0
    &&& is_trimmed(tag)
    &&& forall|i: int| 0 <= i < tag.len() ==> !is_separator(Separators::Caption, #[trigger] tag[i])
}

/// Whether every entry of the list is a tag.
pub open spec fn all_tags(tags: Seq<Seq<char>>) -> bool {
    forall|i: int| 0 <= i < tags.len() ==> is_tag(#[trigger] tags[i])
}

/// Whether every entry of the list is trimmed and not empty.
pub open spec fn all_clean(tags: Seq<Seq<char>>) -> bool {
    forall|i: int| 0 <= i < tags.len() ==> (#[trigger] tags[i]).len() > 0 && is_trimmed(tags[i])
}

/// The tags that a caption text lists.
pub open spec fn parsed(text: Seq<char>) -> Seq<Seq<char>> {
    list_entries(Separators::Caption, text)
}

/// What stands between two tags of a caption.
pub open spec fn glue() -> Seq<char> {
    seq![',', ' ']
}

/// The caption text of a list of tags.
pub open spec fn caption(tags: Seq<Seq<char>>) -> Seq<char> {
    joined(tags, glue())
}

/// The tags that the given texts list, one text after the other.
pub open spec fn all_parsed(terms: Seq<Seq<char>>) -> Seq<Seq<char>>
    decreases terms.len(),
{
    if terms.len() == 0 {
        Seq::<Seq<char>>::empty()
    } else {
        all_parsed(terms.drop_last()) + parsed(terms.last())
    }
}

/// The tags with those left out that equal an earlier one but for the case of
/// ASCII letters.
pub open spec fn deduplicated(tags: Seq<Seq<char>>) -> Seq<Seq<char>>
    decreases tags.len(),
{
    if tags.len() == 0 {
        Seq::<Seq<char>>::empty()
    } else {
        let rest = deduplicated(tags.drop_last());
        if has_ignoring_case(rest, tags.last()) {
            rest
        } else {
            rest.push(tags.last())
        }
    }
}

/// The tags without those that equal `value` but for the case of ASCII letters.
pub open spec fn without(tags: Seq<Seq<char>>, value: Seq<char>) -> Seq<Seq<char>>
    decreases tags.len(),
{
    if tags.len() == 0 {
        Seq::<Seq<char>>::empty()
    } else {
        let rest = without(tags.drop_last(), value);
        if same_ignoring_case(tags.last(), value) {
            rest
        } else {
            rest.push(tags.last())
        }
    }
}

// ----- Laws ----------------------------------------------------------------

proof fn lemma_split_append(text: Seq<char>, more: Seq<char>)
    requires
        forall|i: int| 0 <= i < more.len() ==> !is_separator(Separators::Caption, #[trigger] more[i]),
    ensures
        split(Separators::Caption, text + more) == split(Separators::Caption, text).drop_last().push(
            split(Separators::Caption, text).last() + more,
        ),
    decreases more.len(),
{
    lemma_split_nonempty(Separators::Caption, text);
    let parts = split(Separators::Caption, text);
    if more.len() == 0 {
        assert(text + more =~= text);
        assert(parts.last() + more =~= parts.last());
        assert(parts.drop_last().push(parts.last()) =~= parts);
    } else {
        let shorter = more.drop_last();
        lemma_split_append(text, shorter);
        assert((text + more).drop_last() =~= text + shorter);
        assert((text + more).last() == more.last());
        let before = parts.drop_last().push(parts.last() + shorter);
        assert(before.drop_last() =~= parts.drop_last());
        assert((parts.last() + shorter).push(more.last()) =~= parts.last() + more);
    }
}

proof fn lemma_parsed_append(text: Seq<char>, tag: Seq<char>)
    requires
        is_tag(tag),
    ensures
        parsed(text + glue() + tag) == parsed(text).push(tag),
{
    let with_comma = text.push(',');
    let more = seq![' '] + tag;
    assert(text + glue() + tag =~= with_comma + more);
    assert(with_comma.drop_last() =~= text);
    assert(split(Separators::Caption, with_comma) == split(Separators::Caption, text).push(Seq::<char>::empty()));
    assert forall|i: int| 0 <= i < more.len() implies !is_separator(Separators::Caption, #[trigger] more[i]) by {
        if i > 0 {
            assert(more[i] == tag[i - 1]);
        }
    }
    lemma_split_append(with_comma, more);
    let parts = split(Separators::Caption, text);
    assert(parts.push(Seq::<char>::empty()).drop_last() =~= parts);
    assert(Seq::<char>::empty() + more =~= more);
    assert(split(Separators::Caption, with_comma + more) == parts.push(more));
    assert(parts.push(more).drop_last() =~= parts);
    lemma_trimmed_ignores_space(seq![' '], tag);
    lemma_trimmed_fixpoint(tag);
}

/// Reading a caption gives back the tags that it was written from.
pub proof fn law_caption_round_trip(tags: Seq<Seq<char>>)
    requires
        all_tags(tags),
    ensures
        parsed(caption(tags)) == tags,
    decreases tags.len(),
{
    if tags.len() == 0 {
        assert(split(Separators::Caption, Seq::<char>::empty()).drop_last() =~= Seq::<Seq<char>>::empty());
        assert(nonblank(Seq::<Seq<char>>::empty()) =~= tags);
    } else if tags.len() == 1 {
        let tag = tags[0];
        lemma_split_append(Seq::<char>::empty(), tag);
        assert(Seq::<char>::empty() + tag =~= tag);
        let parts = seq![Seq::<char>::empty()];
        assert(parts.drop_last() =~= Seq::<Seq<char>>::empty());
        assert(split(Separators::Caption, tag) =~= seq![tag]);
        assert(seq![tag].drop_last() =~= Seq::<Seq<char>>::empty());
        lemma_trimmed_fixpoint(tag);
        assert(nonblank(Seq::<Seq<char>>::empty()) =~= Seq::<Seq<char>>::empty());
        assert(nonblank(seq![tag]) =~= tags);
    } else {
        let shorter = tags.drop_last();
        law_caption_round_trip(shorter);
        lemma_parsed_append(caption(shorter), tags.last());
        assert(shorter.push(tags.last()) =~= tags);
    }
}

proof fn lemma_nonblank_all_tags(parts: Seq<Seq<char>>)
    requires
        forall|i: int, k: int|
            0 <= i < parts.len() && 0 <= k < parts[i].len() ==> !is_separator(
                Separators::Caption,
                #[trigger] parts[i][k],
            ),
    ensures
        all_tags(nonblank(parts)),
    decreases parts.len(),
{
    if parts.len() > 0 {
        let shorter = parts.drop_last();
        assert forall|i: int, k: int|
            0 <= i < shorter.len() && 0 <= k < shorter[i].len() implies !is_separator(
            Separators::Caption,
            #[trigger] shorter[i][k],
        ) by {
            assert(shorter[i][k] == parts[i][k]);
        }
        lemma_nonblank_all_tags(shorter);
        let part = parts.last();
        let tag = trimmed(part);
        lemma_trimmed_is_trimmed(part);
        assert forall|i: int| 0 <= i < tag.len() implies !is_separator(Separators::Caption, #[trigger] tag[i]) by {
            assert(tag.contains(tag[i]));
            lemma_trimmed_contains(part, tag[i]);
            let k = choose|k: int| 0 <= k < part.len() && part[k] == tag[i];
            assert(parts[parts.len() - 1][k] == tag[i]);
        }
    }
}

/// Everything read from a caption is a tag: trimmed, not empty, and free of
/// separators.
pub proof fn law_parsed_are_tags(text: Seq<char>)
    ensures
        all_tags(parsed(text)),
{
    lemma_split_parts(Separators::Caption, text);
    lemma_nonblank_all_tags(split(Separators::Caption, text));
}

/// Everything read from a list of texts is a tag.
pub proof fn law_all_parsed_are_tags(terms: Seq<Seq<char>>)
    ensures
        all_tags(all_parsed(terms)),
    decreases terms.len(),
{
    if terms.len() > 0 {
        law_all_parsed_are_tags(terms.drop_last());
        law_parsed_are_tags(terms.last());
    }
}

/// Reading tags one by one gives them back.
pub proof fn law_all_parsed_fixpoint(tags: Seq<Seq<char>>)
    requires
        all_tags(tags),
    ensures
        all_parsed(tags) == tags,
    decreases tags.len(),
{
    if tags.len() > 0 {
        law_all_parsed_fixpoint(tags.drop_last());
        law_caption_round_trip(seq![tags.last()]);
        assert(tags.drop_last() + seq![tags.last()] =~= tags);
    } else {
        assert(tags =~= Seq::<Seq<char>>::empty());
    }
}

/// A list of tags without repetitions: no two are equal but for the case of
/// ASCII letters.
pub open spec fn no_repeats(tags: Seq<Seq<char>>) -> bool {
    forall|i: int, j: int|
        0 <= i < j < tags.len() ==> !same_ignoring_case(#[trigger] tags[i], #[trigger] tags[j])
}

/// Deduplication leaves no two tags that are equal but for case, loses no tag
/// but for case, and invents none.
pub proof fn law_deduplicated(tags: Seq<Seq<char>>)
    ensures
        no_repeats(deduplicated(tags)),
        forall|tag: Seq<char>|
            has_ignoring_case(tags, tag) <==> #[trigger] has_ignoring_case(deduplicated(tags), tag),
        forall|i: int|
            0 <= i < deduplicated(tags).len() ==> tags.contains(#[trigger] deduplicated(tags)[i]),
    decreases tags.len(),
{
    if tags.len() > 0 {
        let shorter = tags.drop_last();
        let last = tags.last();
        let rest = deduplicated(shorter);
        law_deduplicated(shorter);
        assert(tags =~= shorter.push(last));
        assert forall|tag: Seq<char>|
            has_ignoring_case(tags, tag) <==> #[trigger] has_ignoring_case(
                deduplicated(tags),
                tag,
            ) by {
            lemma_has_push(shorter, last, tag);
            lemma_has_push(rest, last, tag);
            if same_ignoring_case(last, tag) && has_ignoring_case(rest, last) {
                let k = choose|k: int|
                    0 <= k < rest.len() && same_ignoring_case(#[trigger] rest[k], last);
                assert(same_ignoring_case(rest[k], tag));
            }
        }
        assert forall|i: int| 0 <= i < deduplicated(tags).len() implies tags.contains(
            #[trigger] deduplicated(tags)[i],
        ) by {
            if i < rest.len() {
                assert(shorter.contains(rest[i]));
                let k = choose|k: int| 0 <= k < shorter.len() && shorter[k] == rest[i];
                assert(tags[k] == rest[i]);
            } else {
                assert(tags[tags.len() - 1] == last);
            }
        }
    }
}

proof fn lemma_has_push(tags: Seq<Seq<char>>, last: Seq<char>, tag: Seq<char>)
    ensures
        has_ignoring_case(tags.push(last), tag) <==> has_ignoring_case(tags, tag)
            || same_ignoring_case(last, tag),
{
    let all = tags.push(last);
    if has_ignoring_case(tags, tag) {
        let k = choose|k: int| 0 <= k < tags.len() && same_ignoring_case(#[trigger] tags[k], tag);
        assert(all[k] == tags[k]);
    }
    assert(all[tags.len() as int] == last);
    if has_ignoring_case(all, tag) && !same_ignoring_case(last, tag) {
        let k = choose|k: int| 0 <= k < all.len() && same_ignoring_case(#[trigger] all[k], tag);
        assert(tags[k] == all[k]);
    }
}

/// A list without repetitions is left as it is, so deduplicating twice is
/// deduplicating once.
pub proof fn law_deduplicated_fixpoint(tags: Seq<Seq<char>>)
    requires
        no_repeats(tags),
    ensures
        deduplicated(tags) == tags,
    decreases tags.len(),
{
    if tags.len() > 0 {
        let shorter = tags.drop_last();
        law_deduplicated_fixpoint(shorter);
        assert(!has_ignoring_case(shorter, tags.last())) by {
            if has_ignoring_case(shorter, tags.last()) {
                let k = choose|k: int|
                    0 <= k < shorter.len() && same_ignoring_case(
                        #[trigger] shorter[k],
                        tags.last(),
                    );
                assert(same_ignoring_case(tags[k], tags[tags.len() - 1]));
            }
        }
        assert(shorter.push(tags.last()) =~= tags);
    } else {
        assert(tags =~= Seq::<Seq<char>>::empty());
    }
}

/// Removing a tag leaves none that equals it but for case, and keeps every
/// other one.
pub proof fn law_without(tags: Seq<Seq<char>>, value: Seq<char>)
    ensures
        !has_ignoring_case(without(tags, value), value),
        forall|tag: Seq<char>|
            !same_ignoring_case(tag, value) ==> (without(tags, value).contains(tag)
                <==> #[trigger] tags.contains(tag)),
    decreases tags.len(),
{
    if tags.len() > 0 {
        let shorter = tags.drop_last();
        let last = tags.last();
        let rest = without(shorter, value);
        law_without(shorter, value);
        lemma_has_push(rest, last, value);
        assert forall|tag: Seq<char>| !same_ignoring_case(tag, value) implies (without(
            tags,
            value,
        ).contains(tag) <==> #[trigger] tags.contains(tag)) by {
            assert(tags =~= shorter.push(last));
            lemma_contains_push(shorter, last, tag);
            lemma_contains_push(rest, last, tag);
            assert(shorter.contains(tag) <==> rest.contains(tag));
        }
    }
}

/// What a list holds after one more entry.
pub proof fn lemma_contains_push<T>(list: Seq<T>, last: T, entry: T)
    ensures
        list.push(last).contains(entry) <==> list.contains(entry) || entry == last,
{
    let all = list.push(last);
    if list.contains(entry) {
        let k = choose|k: int| 0 <= k < list.len() && list[k] == entry;
        assert(all[k] == entry);
    }
    assert(all[list.len() as int] == last);
    if all.contains(entry) && entry != last {
        let k = choose|k: int| 0 <= k < all.len() && all[k] == entry;
        assert(list[k] == entry);
    }
}

// ----- Functions -----------------------------------------------------------

/// The tags that a caption text lists, which commas and ends of lines separate.
pub fn parse_tags(text: &str) -> (tags: Vec<String>)
    ensures
        texts(tags@) == parsed(text@),
        all_tags(texts(tags@)),
{
    proof {
        law_parsed_are_tags(text@);
    }
    entries_of(text, Separators::Caption)
}

/// The caption text of a list of tags.
pub fn format_tags(tags: &Vec<String>) -> (text: String)
    ensures
        text@ == caption(texts(tags@)),
{
    proof {
        reveal_strlit(", ");
        assert(", "@ =~= glue());
    }
    join(tags, ", ")
}

/// The tags that the given texts list, one text after the other.
pub fn normalize_terms(terms: &[String]) -> (tags: Vec<String>)
    ensures
        texts(tags@) == all_parsed(texts(terms@)),
        all_tags(texts(tags@)),
{
    broadcast use group_texts;

    let mut tags: Vec<String> = Vec::new();
    let ghost all = texts(terms@);
    for i in 0..terms.len()
        invariant
            all == texts(terms@),
            texts(tags@) == all_parsed(all.take(i as int)),
    {
        let mut more = parse_tags(terms[i].as_str());
        assert(all.take(i + 1).drop_last() =~= all.take(i as int));
        tags.append(&mut more);
    }
    assert(all.take(terms@.len() as int) =~= all);
    proof {
        law_all_parsed_are_tags(all);
    }
    tags
}

/// Leaves out the tags that equal an earlier one but for the case of ASCII
/// letters.
pub fn deduplicate_tags(tags: &mut Vec<String>)
    ensures
        texts(final(tags)@) == deduplicated(texts(old(tags)@)),
{
    broadcast use group_texts;

    let mut unique: Vec<String> = Vec::new();
    let ghost all = texts(tags@);
    for i in 0..tags.len()
        invariant
            all == texts(tags@),
            texts(unique@) == deduplicated(all.take(i as int)),
    {
        assert(all.take(i + 1).drop_last() =~= all.take(i as int));
        if !list_has_ignoring_case(&unique, tags[i].as_str()) {
            unique.push(tags[i].clone());
        }
    }
    assert(all.take(tags@.len() as int) =~= all);
    *tags = unique;
}

/// The tags without those that equal `value` but for the case of ASCII letters.
pub fn tags_without(tags: &Vec<String>, value: &str) -> (kept: Vec<String>)
    ensures
        texts(kept@) == without(texts(tags@), value@),
{
    broadcast use group_texts;

    let mut kept: Vec<String> = Vec::new();
    let ghost all = texts(tags@);
    for i in 0..tags.len()
        invariant
            all == texts(tags@),
            texts(kept@) == without(all.take(i as int), value@),
    {
        assert(all.take(i + 1).drop_last() =~= all.take(i as int));
        if !eq_ignore_ascii_case(tags[i].as_str(), value) {
            kept.push(tags[i].clone());
        }
    }
    assert(all.take(tags@.len() as int) =~= all);
    kept
}

/// The strings of `first` followed by those of `second`.
pub fn concatenated(first: &Vec<String>, second: &Vec<String>) -> (all: Vec<String>)
    ensures
        all@ == first@ + second@,
{
    let mut all = copy_strings(first);
    extend_strings(&mut all, second);
    all
}

} // verus!
