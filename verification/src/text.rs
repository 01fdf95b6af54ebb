//! Text as a sequence of characters: trimming, splitting, joining, searching
//! and replacing, with the meaning of each operation stated on the sequence.

use vstd::prelude::*;
use vstd::string::*;

verus! {

// ----- Texts held by a vector ---------------------------------------------

/// The texts that a vector of strings holds.
pub open spec fn texts(strings: Seq<String>) -> Seq<Seq<char>> {
    strings.map_values(|s: String| s@)
}

pub broadcast proof fn lemma_texts_push(strings: Seq<String>, s: String)
    ensures
        #[trigger] texts(strings.push(s)) == texts(strings).push(s@),
{
    assert(texts(strings.push(s)) =~= texts(strings).push(s@));
}

pub broadcast proof fn lemma_texts_add(a: Seq<String>, b: Seq<String>)
    ensures
        #[trigger] texts(a + b) == texts(a) + texts(b),
{
    assert(texts(a + b) =~= texts(a) + texts(b));
}

pub broadcast proof fn lemma_texts_subrange(strings: Seq<String>, from: int, to: int)
    requires
        0 <= from <= to <= strings.len(),
    ensures
        #[trigger] texts(strings.subrange(from, to)) == texts(strings).subrange(from, to),
{
    assert(texts(strings.subrange(from, to)) =~= texts(strings).subrange(from, to));
}

pub broadcast proof fn lemma_texts_empty()
    ensures
        #[trigger] texts(Seq::<String>::empty()) == Seq::<Seq<char>>::empty(),
{
    assert(texts(Seq::<String>::empty()) =~= Seq::<Seq<char>>::empty());
}

pub broadcast group group_texts {
    lemma_texts_push,
    lemma_texts_add,
    lemma_texts_subrange,
    lemma_texts_empty,
}

/// A copy of a list of strings.
pub fn copy_strings(strings: &Vec<String>) -> (copy: Vec<String>)
    ensures
        copy@ == strings@,
{
    let copy = strings.clone();
    proof {
        assert(copy@ =~= strings@);
    }
    copy
}

/// Appends copies of `more` to `strings`.
pub fn extend_strings(strings: &mut Vec<String>, more: &Vec<String>)
    ensures
        final(strings)@ == old(strings)@ + more@,
{
    for i in 0..more.len()
        invariant
            strings@ == old(strings)@ + more@.take(i as int),
    {
        strings.push(more[i].clone());
        assert(strings@ =~= old(strings)@ + more@.take(i + 1));
    }
    assert(more@.take(more@.len() as int) =~= more@);
}

// ----- Characters and strings ---------------------------------------------

/// `String::push` of the standard library appends one character.
pub assume_specification[ String::push ](text: &mut String, c: char)
    ensures
        final(text)@ == old(text)@.push(c),
;

/// The characters of `text`, in order.
pub fn chars_of(text: &str) -> (chars: Vec<char>)
    ensures
        chars@ == text@,
{
    let mut chars: Vec<char> = Vec::new();
    for c in it: text.chars()
        invariant
            it.seq() == text@,
            chars@ == text@.take(it.index() as int),
    {
        chars.push(c);
        proof {
            assert(chars@ =~= text@.take(it.index() + 1));
        }
    }
    proof {
        assert(text@.take(text@.len() as int) =~= text@);
    }
    chars
}

/// The string made of the characters `from..to` of `chars`.
pub fn string_of(chars: &Vec<char>, from: usize, to: usize) -> (text: String)
    requires
        from <= to <= chars.len(),
    ensures
        text@ == chars@.subrange(from as int, to as int),
{
    let mut text = String::new();
    for i in from..to
        invariant
            from <= to <= chars.len(),
            text@ == chars@.subrange(from as int, i as int),
    {
        text.push(chars[i]);
        assert(text@ =~= chars@.subrange(from as int, i + 1));
    }
    text
}

/// The string made of all of `chars`.
pub fn string_of_all(chars: &Vec<char>) -> (text: String)
    ensures
        text@ == chars@,
{
    let text = string_of(chars, 0, chars.len());
    assert(chars@.subrange(0, chars@.len() as int) =~= chars@);
    text
}

/// Whether two texts are equal.
pub fn same_text(a: &str, b: &str) -> (same: bool)
    ensures
        same == (a@ == b@),
{
    broadcast use vstd::utf8::encode_utf8_decode_utf8;

    let x: &[u8] = a.as_bytes();
    let y: &[u8] = b.as_bytes();
    assert(x@ == y@ <==> a@ == b@) by {
        if x@ == y@ {
            assert(vstd::utf8::decode_utf8(x@) == a@);
            assert(vstd::utf8::decode_utf8(y@) == b@);
        }
    }
    if x.len() != y.len() {
        return false;
    }
    for i in 0..x.len()
        invariant
            x@.len() == y@.len(),
            x@.take(i as int) == y@.take(i as int),
            x@ == y@ <==> a@ == b@,
    {
        if x[i] != y[i] {
            assert(x@ != y@);
            return false;
        }
        assert(x@.take(i + 1) =~= y@.take(i + 1));
    }
    assert(x@.take(x@.len() as int) =~= x@);
    assert(y@.take(y@.len() as int) =~= y@);
    true
}

/// Whether two lists hold the same texts in the same order.
pub fn same_texts(a: &Vec<String>, b: &Vec<String>) -> (same: bool)
    ensures
        same == (texts(a@) == texts(b@)),
{
    if a.len() != b.len() {
        assert(texts(a@).len() != texts(b@).len());
        return false;
    }
    for i in 0..a.len()
        invariant
            a@.len() == b@.len(),
            forall|k: int| 0 <= k < i ==> a@[k]@ == b@[k]@,
    {
        if a[i] != b[i] {
            assert(texts(a@)[i as int] != texts(b@)[i as int]);
            return false;
        }
    }
    assert(texts(a@) =~= texts(b@));
    true
}

/// The place of the first string of `list` that equals `text`.
pub fn position_of(list: &Vec<String>, text: &str) -> (place: Option<usize>)
    ensures
        place is None <==> !texts(list@).contains(text@),
        place matches Some(i) ==> {
            &&& i < list@.len()
            &&& list@[i as int]@ == text@
            &&& forall|k: int| 0 <= k < i ==> list@[k]@ != text@
        },
{
    for i in 0..list.len()
        invariant
            forall|k: int| 0 <= k < i ==> list@[k]@ != text@,
    {
        if same_text(list[i].as_str(), text) {
            assert(texts(list@)[i as int] == text@);
            return Some(i);
        }
    }
    None
}

/// Whether `list` holds `text`.
pub fn list_has(list: &Vec<String>, text: &str) -> (found: bool)
    ensures
        found == texts(list@).contains(text@),
{
    position_of(list, text).is_some()
}

// ----- White space ---------------------------------------------------------

/// The characters with the Unicode property `White_Space`.
pub open spec fn is_space(c: char) -> bool {
    let n = c as u32;
    ||| 9 <= n <= 13
    ||| n == 0x20
    ||| n == 0x85
    ||| n == 0xa0
    ||| n == 0x1680
    ||| 0x2000 <= n <= 0x200a
    ||| n == 0x2028
    ||| n == 0x2029
    ||| n == 0x202f
    ||| n == 0x205f
    ||| n == 0x3000
}

/// Whether `c` is white space.
pub fn space(c: char) -> (yes: bool)
    ensures
        yes == is_space(c),
{
    let n: u32 = c as u32;
    (9 <= n && n <= 13) || n == 0x20 || n == 0x85 || n == 0xa0 || n == 0x1680 || (0x2000 <= n && n
        <= 0x200a) || n == 0x2028 || n == 0x2029 || n == 0x202f || n == 0x205f || n == 0x3000
}

/// `text` without the white space at its start.
pub open spec fn trimmed_start(text: Seq<char>) -> Seq<char>
    decreases text.len(),
{
    if text.len() > 0 && is_space(text[0]) {
        trimmed_start(text.drop_first())
    } else {
        text
    }
}

/// `text` without the white space at its end.
pub open spec fn trimmed_end(text: Seq<char>) -> Seq<char>
    decreases text.len(),
{
    if text.len() > 0 && is_space(text.last()) {
        trimmed_end(text.drop_last())
    } else {
        text
    }
}

/// `text` without the white space at either end.
pub open spec fn trimmed(text: Seq<char>) -> Seq<char> {
    trimmed_end(trimmed_start(text))
}

/// `text` holds no white space at either end.
pub open spec fn is_trimmed(text: Seq<char>) -> bool {
    text.len() > 0 ==> !is_space(text[0]) && !is_space(text.last())
}

proof fn lemma_trimmed_end_prefix(text: Seq<char>)
    ensures
        trimmed_end(text).len() <= text.len(),
        trimmed_end(text) == text.take(trimmed_end(text).len() as int),
        trimmed_end(text).len() > 0 ==> !is_space(trimmed_end(text).last()),
    decreases text.len(),
{
    if text.len() > 0 && is_space(text.last()) {
        lemma_trimmed_end_prefix(text.drop_last());
        let n = trimmed_end(text).len() as int;
        assert(text.drop_last().take(n) =~= text.take(n));
    } else {
        assert(text.take(text.len() as int) =~= text);
    }
}

proof fn lemma_trimmed_start_suffix(text: Seq<char>)
    ensures
        trimmed_start(text).len() <= text.len(),
        trimmed_start(text) == text.skip(text.len() - trimmed_start(text).len()),
        trimmed_start(text).len() > 0 ==> !is_space(trimmed_start(text)[0]),
    decreases text.len(),
{
    if text.len() > 0 && is_space(text[0]) {
        lemma_trimmed_start_suffix(text.drop_first());
        let n = trimmed_start(text).len() as int;
        assert(text.drop_first().skip(text.len() - 1 - n) =~= text.skip(text.len() - n));
    } else {
        assert(text.skip(0) =~= text);
    }
}

/// What trimming leaves has no white space at either end.
pub proof fn lemma_trimmed_is_trimmed(text: Seq<char>)
    ensures
        is_trimmed(trimmed(text)),
{
    lemma_trimmed_start_suffix(text);
    lemma_trimmed_end_prefix(trimmed_start(text));
}

/// Trimming leaves a trimmed text as it is.
pub proof fn lemma_trimmed_fixpoint(text: Seq<char>)
    requires
        is_trimmed(text),
    ensures
        trimmed(text) == text,
{
}

/// White space in front of a text or behind it makes no difference to what
/// trimming leaves.
pub proof fn lemma_trimmed_ignores_space(before: Seq<char>, text: Seq<char>)
    requires
        forall|i: int| 0 <= i < before.len() ==> is_space(before[i]),
    ensures
        trimmed(before + text) == trimmed(text),
    decreases before.len(),
{
    if before.len() == 0 {
        assert(before + text =~= text);
    } else {
        assert((before + text).drop_first() =~= before.drop_first() + text);
        lemma_trimmed_ignores_space(before.drop_first(), text);
    }
}

/// Trimming keeps only characters that were there.
pub proof fn lemma_trimmed_contains(text: Seq<char>, c: char)
    requires
        trimmed(text).contains(c),
    ensures
        text.contains(c),
{
    lemma_trimmed_start_suffix(text);
    lemma_trimmed_end_prefix(trimmed_start(text));
    let start = trimmed_start(text);
    let i = choose|i: int| 0 <= i < trimmed(text).len() && trimmed(text)[i] == c;
    assert(start[i] == c);
    assert(text[text.len() - start.len() + i] == c);
}

/// The characters of `chars` without the white space at either end.
pub fn trim_chars(chars: &Vec<char>) -> (text: String)
    ensures
        text@ == trimmed(chars@),
{
    let mut from: usize = 0;
    assert(chars@.skip(0) =~= chars@);
    while from < chars.len() && space(chars[from])
        invariant
            from <= chars.len(),
            trimmed_start(chars@) == trimmed_start(chars@.skip(from as int)),
        decreases chars.len() - from,
    {
        assert(chars@.skip(from as int).drop_first() =~= chars@.skip(from + 1));
        from = from + 1;
    }
    let ghost start = chars@.skip(from as int);
    assert(trimmed_start(chars@) == start);
    let mut to: usize = chars.len();
    assert(chars@.subrange(from as int, to as int) =~= start);
    while from < to && space(chars[to - 1])
        invariant
            from <= to <= chars.len(),
            trimmed_end(start) == trimmed_end(chars@.subrange(from as int, to as int)),
        decreases to - from,
    {
        assert(chars@.subrange(from as int, to as int).drop_last() =~= chars@.subrange(
            from as int,
            to - 1,
        ));
        to = to - 1;
    }
    string_of(chars, from, to)
}

/// `text` without the white space at either end.
pub fn trim(text: &str) -> (result: String)
    ensures
        result@ == trimmed(text@),
{
    trim_chars(&chars_of(text))
}

// ----- Splitting and joining -----------------------------------------------

/// What separates the parts of a text.
#[derive(Clone, Copy, Debug, PartialEq, Eq, Structural)]
pub enum Separators {
    /// Commas.
    Commas,
    /// Commas and ends of lines, as in captions.
    Caption,
    /// Slashes, as in paths.
    Slashes,
}

/// Whether `c` ends a part of a text.
pub open spec fn is_separator(kind: Separators, c: char) -> bool {
    match kind {
        Separators::Commas => c == ',',
        Separators::Caption => c == ',' || c == '\n' || c == '\r',
        Separators::Slashes => c == '/',
    }
}

/// Whether `c` ends a part of a text.
pub fn separator(kind: Separators, c: char) -> (yes: bool)
    ensures
        yes == is_separator(kind, c),
{
    match kind {
        Separators::Commas => c == ',',
        Separators::Caption => c == ',' || c == '\n' || c == '\r',
        Separators::Slashes => c == '/',
    }
}

/// The parts of `text` between its separators. A text with no separator is one
/// part.
pub open spec fn split(kind: Separators, text: Seq<char>) -> Seq<Seq<char>>
    decreases text.len(),
{
    if text.len() == 0 {
        seq![Seq::<char>::empty()]
    } else {
        let parts = split(kind, text.drop_last());
        if is_separator(kind, text.last()) {
            parts.push(Seq::<char>::empty())
        } else {
            parts.drop_last().push(parts.last().push(text.last()))
        }
    }
}

/// The parts with white space trimmed off, and the blank ones left out.
pub open spec fn nonblank(parts: Seq<Seq<char>>) -> Seq<Seq<char>>
    decreases parts.len(),
{
    if parts.len() == 0 {
        Seq::<Seq<char>>::empty()
    } else {
        let rest = nonblank(parts.drop_last());
        let part = trimmed(parts.last());
        if part.len() == 0 {
            rest
        } else {
            rest.push(part)
        }
    }
}

/// The entries of a comma-separated list: its parts, trimmed, without the
/// blank ones.
pub open spec fn list_entries(kind: Separators, text: Seq<char>) -> Seq<Seq<char>> {
    nonblank(split(kind, text))
}

/// The parts joined by `glue`.
pub open spec fn joined(parts: Seq<Seq<char>>, glue: Seq<char>) -> Seq<char>
    decreases parts.len(),
{
    if parts.len() == 0 {
        Seq::<char>::empty()
    } else if parts.len() == 1 {
        parts[0]
    } else {
        joined(parts.drop_last(), glue) + glue + parts.last()
    }
}

/// A text has at least one part.
pub proof fn lemma_split_nonempty(kind: Separators, text: Seq<char>)
    ensures
        split(kind, text).len() >= 1,
    decreases text.len(),
{
    if text.len() > 0 {
        lemma_split_nonempty(kind, text.drop_last());
    }
}

/// No part holds a separator.
pub proof fn lemma_split_parts(kind: Separators, text: Seq<char>)
    ensures
        forall|i: int, k: int|
            0 <= i < split(kind, text).len() && 0 <= k < split(kind, text)[i].len()
                ==> !is_separator(kind, #[trigger] split(kind, text)[i][k]),
    decreases text.len(),
{
    if text.len() > 0 {
        lemma_split_nonempty(kind, text.drop_last());
        lemma_split_parts(kind, text.drop_last());
    }
}

/// Splits `text` into its parts.
pub fn split_text(text: &str, kind: Separators) -> (parts: Vec<String>)
    ensures
        texts(parts@) == split(kind, text@),
{
    broadcast use group_texts;

    let chars = chars_of(text);
    let mut parts: Vec<String> = Vec::new();
    let mut part = String::new();
    assert(split(kind, chars@.take(0)) =~= texts(parts@).push(part@));
    for i in 0..chars.len()
        invariant
            split(kind, chars@.take(i as int)) == texts(parts@).push(part@),
    {
        let ghost before = chars@.take(i as int);
        let ghost now = chars@.take(i + 1);
        assert(now.drop_last() =~= before);
        assert(texts(parts@).push(part@).drop_last() =~= texts(parts@));
        if separator(kind, chars[i]) {
            parts.push(part);
            part = String::new();
            assert(texts(parts@) == split(kind, before));
        } else {
            part.push(chars[i]);
        }
        assert(split(kind, now) =~= texts(parts@).push(part@));
    }
    assert(chars@.take(chars@.len() as int) =~= text@);
    parts.push(part);
    parts
}

/// The entries of a comma-separated list.
pub fn entries_of(text: &str, kind: Separators) -> (entries: Vec<String>)
    ensures
        texts(entries@) == list_entries(kind, text@),
{
    broadcast use group_texts;

    let parts = split_text(text, kind);
    let mut entries: Vec<String> = Vec::new();
    for i in 0..parts.len()
        invariant
            texts(entries@) == nonblank(texts(parts@).take(i as int)),
    {
        let part = trim(parts[i].as_str());
        assert(texts(parts@).take(i + 1).drop_last() =~= texts(parts@).take(i as int));
        if part.as_str().is_empty() {
        } else {
            entries.push(part);
        }
    }
    assert(texts(parts@).take(parts@.len() as int) =~= texts(parts@));
    entries
}

/// Joins the strings with `glue` between them.
pub fn join(parts: &Vec<String>, glue: &str) -> (text: String)
    ensures
        text@ == joined(texts(parts@), glue@),
{
    let mut text = String::new();
    let ghost all = texts(parts@);
    for i in 0..parts.len()
        invariant
            all == texts(parts@),
            text@ == joined(all.take(i as int), glue@),
    {
        assert(all.take(i + 1).drop_last() =~= all.take(i as int));
        if i > 0 {
            text.append(glue);
        }
        text.append(parts[i].as_str());
        if i == 0 {
            assert(text@ =~= all[0]);
        } else {
            assert(text@ =~= joined(all.take(i as int), glue@) + glue@ + all[i as int]);
        }
    }
    assert(all.take(parts@.len() as int) =~= all);
    text
}

// ----- Letter case ---------------------------------------------------------

/// `c`, or its lower-case form where it is one of `A` to `Z`.
pub open spec fn ascii_lower(c: char) -> char {
    if 'A' <= c <= 'Z' {
        ((c as u32) + 32) as char
    } else {
        c
    }
}

/// `text` with `A` to `Z` in lower case.
pub open spec fn ascii_lowered(text: Seq<char>) -> Seq<char> {
    text.map_values(|c: char| ascii_lower(c))
}

/// Whether two texts differ at most in the case of ASCII letters.
pub open spec fn same_ignoring_case(a: Seq<char>, b: Seq<char>) -> bool {
    ascii_lowered(a) == ascii_lowered(b)
}

fn lower_char(c: char) -> (result: char)
    ensures
        result == ascii_lower(c),
{
    if 'A' <= c && c <= 'Z' {
        ((c as u8) + 32) as char
    } else {
        c
    }
}

/// `text` with `A` to `Z` in lower case.
pub fn to_ascii_lower(text: &str) -> (result: String)
    ensures
        result@ == ascii_lowered(text@),
{
    let mut result = String::new();
    for c in it: text.chars()
        invariant
            it.seq() == text@,
            result@ == ascii_lowered(text@.take(it.index() as int)),
    {
        result.push(lower_char(c));
        proof {
            assert(result@ =~= ascii_lowered(text@.take(it.index() + 1)));
        }
    }
    proof {
        assert(text@.take(text@.len() as int) =~= text@);
    }
    result
}

/// Whether two texts differ at most in the case of ASCII letters.
pub fn eq_ignore_ascii_case(a: &str, b: &str) -> (same: bool)
    ensures
        same == same_ignoring_case(a@, b@),
{
    same_text(to_ascii_lower(a).as_str(), to_ascii_lower(b).as_str())
}

/// Whether some string of `list` equals `text` but for the case of ASCII letters.
pub open spec fn has_ignoring_case(list: Seq<Seq<char>>, text: Seq<char>) -> bool {
    exists|i: int| 0 <= i < list.len() && same_ignoring_case(#[trigger] list[i], text)
}

/// Whether some string of `list` equals `text` but for the case of ASCII letters.
pub fn list_has_ignoring_case(list: &Vec<String>, text: &str) -> (found: bool)
    ensures
        found == has_ignoring_case(texts(list@), text@),
{
    for i in 0..list.len()
        invariant
            forall|k: int| 0 <= k < i ==> !same_ignoring_case(texts(list@)[k], text@),
    {
        if eq_ignore_ascii_case(list[i].as_str(), text) {
            assert(same_ignoring_case(texts(list@)[i as int], text@));
            return true;
        }
    }
    false
}

// ----- Searching and replacing ---------------------------------------------

/// Whether `part` stands in `text` at place `at`.
pub open spec fn stands_at(text: Seq<char>, part: Seq<char>, at: int) -> bool {
    0 <= at && at + part.len() <= text.len() && text.subrange(at, at + part.len()) == part
}

/// Whether `text` begins with `part`.
pub open spec fn begins_with(text: Seq<char>, part: Seq<char>) -> bool {
    stands_at(text, part, 0)
}

/// Whether `text` ends with `part`.
pub open spec fn finishes_with(text: Seq<char>, part: Seq<char>) -> bool {
    stands_at(text, part, text.len() - part.len())
}

/// Whether `part` stands anywhere in `text`.
pub open spec fn includes(text: Seq<char>, part: Seq<char>) -> bool {
    exists|at: int| #[trigger] stands_at(text, part, at)
}

/// `text` with `to` in place of each occurrence of `from`, read from the left,
/// occurrences that overlap an earlier one left out. An empty `from` occurs
/// nowhere.
pub open spec fn replaced(text: Seq<char>, from: Seq<char>, to: Seq<char>) -> Seq<char>
    decreases text.len(),
{
    if from.len() == 0 || text.len() < from.len() {
        text
    } else if begins_with(text, from) {
        to + replaced(text.skip(from.len() as int), from, to)
    } else {
        seq![text[0]] + replaced(text.drop_first(), from, to)
    }
}

/// Whether `part` stands in `text` at place `at`.
pub fn found_at(text: &Vec<char>, part: &Vec<char>, at: usize) -> (found: bool)
    ensures
        found == stands_at(text@, part@, at as int),
{
    if at > text.len() || part.len() > text.len() - at {
        return false;
    }
    let ghost there = text@.subrange(at as int, at + part@.len());
    for i in 0..part.len()
        invariant
            at + part@.len() <= text.len(),
            there == text@.subrange(at as int, at + part@.len()),
            forall|k: int| 0 <= k < i ==> there[k] == part@[k],
    {
        if text[at + i] != part[i] {
            assert(there[i as int] != part@[i as int]);
            return false;
        }
    }
    assert(there =~= part@);
    true
}

/// Whether `text` begins with `part`.
pub fn starts_with(text: &str, part: &str) -> (yes: bool)
    ensures
        yes == begins_with(text@, part@),
{
    found_at(&chars_of(text), &chars_of(part), 0)
}

/// Whether `text` ends with `part`.
pub fn ends_with(text: &str, part: &str) -> (yes: bool)
    ensures
        yes == finishes_with(text@, part@),
{
    let whole = chars_of(text);
    let piece = chars_of(part);
    if piece.len() > whole.len() {
        return false;
    }
    found_at(&whole, &piece, whole.len() - piece.len())
}

/// Whether `part` stands anywhere in `text`.
pub fn contains(text: &str, part: &str) -> (yes: bool)
    ensures
        yes == includes(text@, part@),
{
    let whole = chars_of(text);
    let piece = chars_of(part);
    if piece.len() > whole.len() {
        return false;
    }
    let last: usize = whole.len() - piece.len();
    for at in 0..last
        invariant
            whole@ == text@,
            piece@ == part@,
            forall|k: int| 0 <= k < at ==> !stands_at(text@, part@, k),
    {
        if found_at(&whole, &piece, at) {
            return true;
        }
    }
    found_at(&whole, &piece, last)
}

/// `text` with `to` in place of each occurrence of `from`. An empty `from`
/// occurs nowhere.
pub fn replace(text: &str, from: &str, to: &str) -> (result: String)
    ensures
        result@ == replaced(text@, from@, to@),
{
    let chars = chars_of(text);
    let part = chars_of(from);
    if part.len() == 0 {
        return string_of_all(&chars);
    }
    let mut result = String::new();
    let mut at: usize = 0;
    assert(chars@.skip(0) =~= chars@);
    assert(Seq::<char>::empty() + replaced(chars@, from@, to@) =~= replaced(chars@, from@, to@));
    while at < chars.len()
        invariant
            at <= chars@.len(),
            part@ == from@,
            part@.len() > 0,
            replaced(chars@, from@, to@) == result@ + replaced(chars@.skip(at as int), from@, to@),
        decreases chars.len() - at,
    {
        let ghost rest = chars@.skip(at as int);
        let ghost before = result@;
        if found_at(&chars, &part, at) {
            assert(rest.subrange(0, from@.len() as int) =~= chars@.subrange(
                at as int,
                at + from@.len(),
            ));
            assert(rest.skip(from@.len() as int) =~= chars@.skip(at + from@.len()));
            result.append(to);
            at = at + part.len();
            assert(before + (to@ + replaced(chars@.skip(at as int), from@, to@)) =~= result@
                + replaced(chars@.skip(at as int), from@, to@));
        } else {
            proof {
                if rest.len() >= from@.len() {
                    assert(rest.subrange(0, from@.len() as int) =~= chars@.subrange(
                        at as int,
                        at + from@.len(),
                    ));
                    assert(rest.drop_first() =~= chars@.skip(at + 1));
                } else {
                    assert(rest.drop_first() =~= chars@.skip(at + 1));
                    assert(replaced(rest.drop_first(), from@, to@) == rest.drop_first());
                    assert(seq![rest[0]] + rest.drop_first() =~= rest);
                }
            }
            result.push(chars[at]);
            at = at + 1;
            assert(before + (seq![rest[0]] + replaced(chars@.skip(at as int), from@, to@))
                =~= result@ + replaced(chars@.skip(at as int), from@, to@));
        }
    }
    assert(chars@.skip(at as int) =~= Seq::<char>::empty());
    assert(result@ + Seq::<char>::empty() =~= result@);
    result
}

/// The first `count` characters of `text`, or all of a shorter one.
pub open spec fn shortened(text: Seq<char>, count: nat) -> Seq<char> {
    if text.len() <= count {
        text
    } else {
        text.take(count as int)
    }
}

/// The first `count` characters of `text`, or all of a shorter one.
pub fn first_chars(text: &str, count: usize) -> (result: String)
    ensures
        result@ == shortened(text@, count as nat),
{
    let chars = chars_of(text);
    if chars.len() <= count {
        string_of_all(&chars)
    } else {
        string_of(&chars, 0, count)
    }
}

// ----- Numbers -------------------------------------------------------------

/// The character of one decimal digit.
pub open spec fn digit(d: nat) -> char {
    (('0' as u32) + d) as char
}

/// A number in decimal digits.
pub open spec fn decimal(n: nat) -> Seq<char>
    decreases n,
{
    if n < 10 {
        seq![digit(n)]
    } else {
        decimal(n / 10).push(digit(n % 10))
    }
}

/// The character of one decimal digit.
pub fn digit_char(d: u8) -> (c: char)
    requires
        d < 10,
    ensures
        c == digit(d as nat),
{
    (48 + d) as char
}

/// A number in decimal digits.
pub fn decimal_text(n: u128) -> (text: String)
    ensures
        text@ == decimal(n as nat),
    decreases n,
{
    if n < 10 {
        let mut text = String::new();
        text.push(digit_char(n as u8));
        assert(text@ =~= seq![digit(n as nat)]);
        text
    } else {
        let mut text = decimal_text(n / 10);
        text.push(digit_char((n % 10) as u8));
        text
    }
}

} // verus!
