//! What trimming, splitting, joining and comparing make of texts.

use vstd::prelude::*;

use crate::order::{
    lemma_text_irreflexive, lemma_text_total, lemma_text_transitive, same_members, sorted_set,
    strictly_ordered, text_before,
};
use crate::tag_set::ordered_list;
use crate::tags::{all_parsed, caption, lemma_contains_push, parsed};
use crate::text::{
    ascii_lower, ascii_lowered, decimal, digit, is_separator, is_space, is_trimmed, joined,
    lemma_split_nonempty, lemma_trimmed_is_trimmed, list_entries, nonblank, same_ignoring_case,
    shortened, split, trimmed, trimmed_end, trimmed_start, Separators,
};

verus! {

// ----- Trimming ------------------------------------------------------------

/// Trimming cuts white space off both ends, all of it and nothing else: what
/// remains is one stretch of the text, free of white space at its ends, with
/// nothing but white space before it and behind it.
pub proof fn law_trimming_cuts_white_space(text: Seq<char>) -> (from: int)
    ensures
        0 <= from <= from + trimmed(text).len() <= text.len(),
        trimmed(text) == text.subrange(from, from + trimmed(text).len()),
        is_trimmed(trimmed(text)),
        forall|i: int| 0 <= i < from ==> is_space(#[trigger] text[i]),
        forall|i: int| from + trimmed(text).len() <= i < text.len() ==> is_space(#[trigger] text[i]),
{
    let start = trimmed_start(text);
    let from = text.len() - start.len();
    lemma_trimmed_is_trimmed(text);
    lemma_cut_before(text);
    lemma_cut_behind(start);
    let n = trimmed(text).len() as int;
    assert(trimmed(text) =~= text.subrange(from, from + n));
    assert forall|i: int| from + n <= i < text.len() implies is_space(#[trigger] text[i]) by {
        assert(text[i] == start[i - from]);
    }
    from
}

proof fn lemma_cut_before(text: Seq<char>)
    ensures
        trimmed_start(text).len() <= text.len(),
        trimmed_start(text) == text.skip(text.len() - trimmed_start(text).len()),
        forall|i: int|
            0 <= i < text.len() - trimmed_start(text).len() ==> is_space(#[trigger] text[i]),
    decreases text.len(),
{
    if text.len() > 0 && is_space(text[0]) {
        let rest = text.drop_first();
        lemma_cut_before(rest);
        let n = trimmed_start(text).len() as int;
        assert(rest.skip(rest.len() - n) =~= text.skip(text.len() - n));
        assert forall|i: int| 0 <= i < text.len() - n implies is_space(#[trigger] text[i]) by {
            if i > 0 {
                assert(rest[i - 1] == text[i]);
            }
        }
    } else {
        assert(text.skip(0) =~= text);
    }
}

proof fn lemma_cut_behind(text: Seq<char>)
    ensures
        trimmed_end(text).len() <= text.len(),
        trimmed_end(text) == text.take(trimmed_end(text).len() as int),
        forall|i: int| trimmed_end(text).len() <= i < text.len() ==> is_space(#[trigger] text[i]),
    decreases text.len(),
{
    if text.len() > 0 && is_space(text.last()) {
        let rest = text.drop_last();
        lemma_cut_behind(rest);
        let n = trimmed_end(text).len() as int;
        assert(rest.take(n) =~= text.take(n));
        assert forall|i: int| n <= i < text.len() implies is_space(#[trigger] text[i]) by {
            if i < rest.len() {
                assert(rest[i] == text[i]);
            }
        }
    } else {
        assert(text.take(text.len() as int) =~= text);
    }
}

// ----- Lists in texts ------------------------------------------------------

/// A separator parts a text: its parts are those before the separator, and then
/// those behind it.
pub proof fn law_separator_parts_texts(kind: Separators, a: Seq<char>, mark: char, b: Seq<char>)
    requires
        is_separator(kind, mark),
    ensures
        split(kind, a.push(mark) + b) == split(kind, a) + split(kind, b),
    decreases b.len(),
{
    let all = a.push(mark) + b;
    lemma_split_nonempty(kind, a);
    lemma_split_nonempty(kind, b);
    if b.len() == 0 {
        assert(all.drop_last() =~= a);
        assert(split(kind, all) =~= split(kind, a) + split(kind, b));
    } else {
        let less = b.drop_last();
        law_separator_parts_texts(kind, a, mark, less);
        lemma_split_nonempty(kind, less);
        assert(all.drop_last() =~= a.push(mark) + less);
        assert(all.last() == b.last());
        assert(split(kind, all) =~= split(kind, a) + split(kind, b));
    }
}

/// The entries of two lists of parts are those of both in turn.
pub proof fn lemma_nonblank_add(a: Seq<Seq<char>>, b: Seq<Seq<char>>)
    ensures
        nonblank(a + b) == nonblank(a) + nonblank(b),
    decreases b.len(),
{
    if b.len() == 0 {
        assert(a + b =~= a);
        assert(nonblank(a) + nonblank(b) =~= nonblank(a));
    } else {
        assert((a + b).drop_last() =~= a + b.drop_last());
        lemma_nonblank_add(a, b.drop_last());
        assert(nonblank(a + b) =~= nonblank(a) + nonblank(b));
    }
}

/// A separator parts a list: the entries of a text are those before it, and
/// then those behind it.
pub proof fn law_separator_parts_lists(kind: Separators, a: Seq<char>, mark: char, b: Seq<char>)
    requires
        is_separator(kind, mark),
    ensures
        list_entries(kind, a.push(mark) + b) == list_entries(kind, a) + list_entries(kind, b),
{
    law_separator_parts_texts(kind, a, mark, b);
    lemma_nonblank_add(split(kind, a), split(kind, b));
}

/// A text without a separator is one part.
pub proof fn law_text_without_separator_is_whole(kind: Separators, text: Seq<char>)
    requires
        forall|i: int| 0 <= i < text.len() ==> !is_separator(kind, #[trigger] text[i]),
    ensures
        split(kind, text) == seq![text],
    decreases text.len(),
{
    if text.len() > 0 {
        let rest = text.drop_last();
        assert forall|i: int| 0 <= i < rest.len() implies !is_separator(
            kind,
            #[trigger] rest[i],
        ) by {
            assert(rest[i] == text[i]);
        }
        law_text_without_separator_is_whole(kind, rest);
        assert(!is_separator(kind, text[text.len() - 1]));
        assert(rest.push(text.last()) =~= text);
        assert(split(kind, text) =~= seq![text]);
    } else {
        assert(text =~= Seq::<char>::empty());
    }
}

/// A text without a separator is one entry, without the white space around it,
/// and no entry where nothing else is left.
pub proof fn law_text_without_separator_is_one_entry(kind: Separators, text: Seq<char>)
    requires
        forall|i: int| 0 <= i < text.len() ==> !is_separator(kind, #[trigger] text[i]),
    ensures
        list_entries(kind, text) == if trimmed(text).len() == 0 {
            Seq::<Seq<char>>::empty()
        } else {
            seq![trimmed(text)]
        },
{
    law_text_without_separator_is_whole(kind, text);
    let parts = seq![text];
    assert(parts.drop_last() =~= Seq::<Seq<char>>::empty());
    assert(nonblank(parts.drop_last()) =~= Seq::<Seq<char>>::empty());
    assert(parts.last() == text);
}

/// Captions are parted at commas and ends of lines, lists of terms at commas,
/// and paths at slashes.
pub proof fn law_what_separates(c: char)
    ensures
        is_separator(Separators::Commas, c) <==> c == ',',
        is_separator(Separators::Caption, c) <==> (c == ',' || c == '\n' || c == '\r'),
        is_separator(Separators::Slashes, c) <==> c == '/',
{
}

/// Texts that are read one after the other give the tags of each in turn.
pub proof fn law_texts_are_read_in_turn(a: Seq<Seq<char>>, text: Seq<char>, b: Seq<Seq<char>>)
    ensures
        all_parsed(a + seq![text] + b) == all_parsed(a) + parsed(text) + all_parsed(b),
    decreases b.len(),
{
    let all = a + seq![text] + b;
    if b.len() == 0 {
        assert(all.drop_last() =~= a);
        assert(all.last() == text);
        assert(all_parsed(all) =~= all_parsed(a) + parsed(text) + all_parsed(b));
    } else {
        assert(all.drop_last() =~= a + seq![text] + b.drop_last());
        assert(all.last() == b.last());
        law_texts_are_read_in_turn(a, text, b.drop_last());
        assert(all_parsed(all) =~= all_parsed(a) + parsed(text) + all_parsed(b));
    }
}

// ----- Joining -------------------------------------------------------------

/// Parts are joined with the glue between any two of them and nowhere else.
pub proof fn law_glue_stands_between_parts(a: Seq<Seq<char>>, b: Seq<Seq<char>>, glue: Seq<char>)
    ensures
        a.len() > 0 && b.len() > 0 ==> joined(a + b, glue) == joined(a, glue) + glue + joined(
            b,
            glue,
        ),
        a.len() == 1 ==> joined(a, glue) == a[0],
        a.len() == 0 ==> joined(a, glue).len() == 0,
    decreases b.len(),
{
    if a.len() > 0 && b.len() > 0 {
        let all = a + b;
        assert(all.drop_last() =~= a + b.drop_last());
        assert(all.last() == b.last());
        if b.len() == 1 {
            assert(a + b.drop_last() =~= a);
        } else {
            law_glue_stands_between_parts(a, b.drop_last(), glue);
            assert(joined(all, glue) =~= joined(a, glue) + glue + joined(b, glue));
        }
    }
}

/// A text that is shortened to a number of characters is its beginning.
pub proof fn law_shortened_text(text: Seq<char>, count: nat)
    ensures
        shortened(text, count).len() == if text.len() < count {
            text.len()
        } else {
            count
        },
        forall|i: int| 0 <= i < shortened(text, count).len() ==> shortened(text, count)[i] == text[i],
{
}

// ----- Comparing -----------------------------------------------------------

/// Two texts are equal but for case if and only if they are so character by
/// character, where only the letters from A to Z have a case.
pub proof fn law_equal_but_for_case(a: Seq<char>, b: Seq<char>)
    ensures
        same_ignoring_case(a, b) <==> a.len() == b.len() && forall|i: int|
            0 <= i < a.len() ==> {
                ||| #[trigger] a[i] == b[i]
                ||| 'A' <= a[i] <= 'Z' && b[i] as u32 == a[i] as u32 + 32
                ||| 'A' <= b[i] <= 'Z' && a[i] as u32 == b[i] as u32 + 32
            },
{
    let x = ascii_lowered(a);
    let y = ascii_lowered(b);
    if same_ignoring_case(a, b) {
        assert(x.len() == y.len());
        assert forall|i: int| 0 <= i < a.len() implies {
            ||| #[trigger] a[i] == b[i]
            ||| 'A' <= a[i] <= 'Z' && b[i] as u32 == a[i] as u32 + 32
            ||| 'A' <= b[i] <= 'Z' && a[i] as u32 == b[i] as u32 + 32
        } by {
            assert(x[i] == ascii_lower(a[i]));
            assert(y[i] == ascii_lower(b[i]));
        }
    }
    if a.len() == b.len() && forall|i: int|
        0 <= i < a.len() ==> {
            ||| #[trigger] a[i] == b[i]
            ||| 'A' <= a[i] <= 'Z' && b[i] as u32 == a[i] as u32 + 32
            ||| 'A' <= b[i] <= 'Z' && a[i] as u32 == b[i] as u32 + 32
        } {
        assert forall|i: int| 0 <= i < x.len() implies x[i] == y[i] by {
            assert(a[i] == b[i] || 'A' <= a[i] <= 'Z' || 'A' <= b[i] <= 'Z');
        }
        assert(x =~= y);
    }
}

/// A text stands before another where it has the smaller character at the first
/// difference, or is the beginning of the other.
pub proof fn law_order_of_texts(common: Seq<char>, a: Seq<char>, b: Seq<char>)
    ensures
        text_before(common + a, common + b) <==> text_before(a, b),
        a.len() > 0 && b.len() > 0 && a[0] != b[0] ==> (text_before(a, b) <==> a[0] < b[0]),
        a.len() == 0 ==> (text_before(a, b) <==> b.len() > 0),
        b.len() == 0 ==> !text_before(a, b),
    decreases common.len(),
{
    if common.len() == 0 {
        assert(common + a =~= a);
        assert(common + b =~= b);
    } else {
        law_order_of_texts(common.drop_first(), a, b);
        assert((common + a).drop_first() =~= common.drop_first() + a);
        assert((common + b).drop_first() =~= common.drop_first() + b);
    }
}

// ----- Numbers -------------------------------------------------------------

/// The number that decimal digits stand for.
pub open spec fn number_of(digits: Seq<char>) -> int
    decreases digits.len(),
{
    if digits.len() == 0 {
        0
    } else {
        10 * number_of(digits.drop_last()) + (digits.last() as u32 - '0' as u32)
    }
}

/// A number is written in decimal digits that stand for it, without a zero in
/// front.
pub proof fn law_decimal_stands_for_its_number(n: nat)
    ensures
        number_of(decimal(n)) == n,
        decimal(n).len() > 0,
        forall|i: int| 0 <= i < decimal(n).len() ==> '0' <= #[trigger] decimal(n)[i] <= '9',
        n > 0 ==> decimal(n)[0] != '0',
    decreases n,
{
    if n < 10 {
        let only = seq![digit(n)];
        assert(only.drop_last() =~= Seq::<char>::empty());
        assert(number_of(only.drop_last()) == 0);
    } else {
        law_decimal_stands_for_its_number(n / 10);
        let all = decimal(n);
        assert(all.drop_last() =~= decimal(n / 10));
    }
}

// ----- Sets of texts -------------------------------------------------------

proof fn lemma_insert_ordered(list: Seq<Seq<char>>, text: Seq<char>) -> (all: Seq<Seq<char>>)
    requires
        strictly_ordered(list),
        !list.contains(text),
    ensures
        strictly_ordered(all),
        forall|entry: Seq<char>| #[trigger]
            all.contains(entry) <==> list.contains(entry) || entry == text,
    decreases list.len(),
{
    if list.len() == 0 || text_before(list.last(), text) {
        let all = list.push(text);
        assert forall|i: int, j: int| 0 <= i < j < all.len() implies text_before(
            #[trigger] all[i],
            #[trigger] all[j],
        ) by {
            if j == list.len() && i < list.len() - 1 {
                assert(text_before(list[i], list[list.len() - 1]));
                lemma_text_transitive(list[i], list.last(), text);
            }
        }
        assert forall|entry: Seq<char>| #[trigger] all.contains(entry) <==> list.contains(entry)
            || entry == text by {
            lemma_contains_push(list, text, entry);
        }
        all
    } else {
        let last = list.last();
        let less = list.drop_last();
        assert(list.contains(last)) by {
            assert(list[list.len() - 1] == last);
        }
        lemma_text_total(last, text);
        assert(list =~= less.push(last));
        assert forall|entry: Seq<char>| less.contains(entry) implies list.contains(entry) by {
            lemma_contains_push(less, last, entry);
        }
        let rest = lemma_insert_ordered(less, text);
        let all = rest.push(last);
        assert forall|i: int, j: int| 0 <= i < j < all.len() implies text_before(
            #[trigger] all[i],
            #[trigger] all[j],
        ) by {
            if j == rest.len() {
                assert(rest.contains(rest[i]));
                if rest[i] != text {
                    let k = choose|k: int| 0 <= k < less.len() && less[k] == rest[i];
                    assert(text_before(list[k], list[list.len() - 1]));
                }
            }
        }
        assert forall|entry: Seq<char>| #[trigger] all.contains(entry) <==> list.contains(entry)
            || entry == text by {
            lemma_contains_push(rest, last, entry);
            lemma_contains_push(less, last, entry);
        }
        all
    }
}

proof fn lemma_ordered_exists(set: Set<Seq<char>>) -> (list: Seq<Seq<char>>)
    requires
        set.finite(),
    ensures
        strictly_ordered(list),
        list.to_set() == set,
    decreases set.len(),
{
    if set.len() == 0 {
        let list = Seq::<Seq<char>>::empty();
        assert(list.to_set() =~= set);
        list
    } else {
        let text = set.choose();
        let rest = lemma_ordered_exists(set.remove(text));
        assert(!rest.contains(text)) by {
            if rest.contains(text) {
                assert(rest.to_set().contains(text));
            }
        }
        let list = lemma_insert_ordered(rest, text);
        assert forall|entry: Seq<char>| #[trigger] list.to_set().contains(entry)
            <==> set.contains(entry) by {
            assert(list.to_set().contains(entry) <==> list.contains(entry));
            assert(rest.to_set().contains(entry) <==> rest.contains(entry));
        }
        assert(list.to_set() =~= set);
        list
    }
}

/// The texts of a set are listed in order, each of them once and no other.
pub proof fn law_set_is_listed_in_order(set: Set<Seq<char>>)
    requires
        set.finite(),
    ensures
        strictly_ordered(ordered_list(set)),
        ordered_list(set).no_duplicates(),
        forall|text: Seq<char>| #[trigger] ordered_list(set).contains(text) <==> set.contains(text),
{
    let witness = lemma_ordered_exists(set);
    let list = ordered_list(set);
    assert(strictly_ordered(list) && list.to_set() == set);
    assert forall|text: Seq<char>| #[trigger] list.contains(text) <==> set.contains(text) by {
        assert(list.to_set().contains(text) <==> list.contains(text));
    }
    assert forall|i: int, j: int| 0 <= i < list.len() && 0 <= j < list.len() && i != j implies list[i]
        != list[j] by {
        lemma_text_irreflexive(list[i]);
        if i < j {
            assert(text_before(list[i], list[j]));
        } else {
            assert(text_before(list[j], list[i]));
        }
    }
}

// ----- White space and captions --------------------------------------------

/// White space is the space, the controls from tab to carriage return, the next
/// line, and the spaces and separators of lines and paragraphs beyond ASCII.
pub proof fn law_white_space(c: char)
    ensures
        is_space(c) <==> {
            ||| c == ' ' || c == '\t' || c == '\n' || c == '\u{b}' || c == '\u{c}' || c == '\r'
            ||| c == '\u{85}' || c == '\u{a0}' || c == '\u{1680}'
            ||| '\u{2000}' <= c <= '\u{200a}'
            ||| c == '\u{2028}' || c == '\u{2029}' || c == '\u{202f}' || c == '\u{205f}'
            ||| c == '\u{3000}'
        },
{
}

/// A caption has its tags with a comma and a space between any two of them.
pub proof fn law_captions_have_commas(a: Seq<Seq<char>>, tag: Seq<char>)
    ensures
        caption(Seq::empty()).len() == 0,
        caption(seq![tag]) == tag,
        a.len() > 0 ==> caption(a.push(tag)) == caption(a) + seq![',', ' '] + tag,
{
    assert(a.push(tag).drop_last() =~= a);
}

/// The texts of a list, sorted, are in order, each of them once and no other.
pub proof fn law_list_is_sorted(list: Seq<Seq<char>>, text: Seq<char>)
    ensures
        strictly_ordered(sorted_set(list)),
        sorted_set(list).contains(text) <==> list.contains(text),
{
    vstd::seq_lib::seq_to_set_is_finite(list);
    law_set_is_listed_in_order(list.to_set());
    let witness = ordered_list(list.to_set());
    assert(same_members(witness, list)) by {
        assert forall|entry: Seq<char>| #[trigger] witness.contains(entry) <==> list.contains(
            entry,
        ) by {
            assert(list.to_set().contains(entry) <==> list.contains(entry));
        }
    }
    assert(strictly_ordered(sorted_set(list)) && same_members(sorted_set(list), list));
}

} // verus!
