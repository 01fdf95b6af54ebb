//! Edits of one list of tags: what each edit makes of the list, and the
//! functions that make it.

use vstd::prelude::*;

use crate::pattern::{
    compile, finds, is_pattern, matched, pattern_of, refusal, substitute, substituted,
};
use crate::tag_laws::law_matches_are_removed;
use crate::tags::{
    all_parsed, caption, concatenated, deduplicate_tags, deduplicated, format_tags, normalize_terms,
    parse_tags, parsed, tags_without, without,
};
use crate::text::{
    copy_strings, extend_strings, group_texts, list_has, position_of, replace, replaced, texts,
    trim, trimmed,
};

verus! {

// ----- Replacing text ------------------------------------------------------

/// A replacement of text.
#[verifier::ext_equal]
pub enum ChangeView {
    /// Each occurrence of one text by another.
    Literal { from: Seq<char>, to: Seq<char> },
    /// Each match of a regular expression.
    Pattern { pattern: Seq<char>, replacement: Seq<char> },
}

/// A replacement of text.
pub enum Change {
    /// Each occurrence of one text by another.
    Literal { from: String, to: String },
    /// Each match of a regular expression.
    Pattern { expression: regex::Regex, replacement: String },
}

impl View for Change {
    type V = ChangeView;

    open spec fn view(&self) -> ChangeView {
        match *self {
            Change::Literal { from, to } => ChangeView::Literal { from: from@, to: to@ },
            Change::Pattern { expression, replacement } => ChangeView::Pattern {
                pattern: pattern_of(expression),
                replacement: replacement@,
            },
        }
    }
}

/// The replacement that a search text and a replacement text stand for.
pub open spec fn change_of(search: Seq<char>, replacement: Seq<char>, use_regex: bool) -> ChangeView {
    if use_regex {
        ChangeView::Pattern { pattern: search, replacement }
    } else {
        ChangeView::Literal { from: search, to: replacement }
    }
}

/// What a replacement makes of a text.
pub open spec fn changed_text(change: ChangeView, text: Seq<char>) -> Seq<char> {
    match change {
        ChangeView::Literal { from, to } => replaced(text, from, to),
        ChangeView::Pattern { pattern, replacement } => substituted(pattern, text, replacement),
    }
}

impl Change {
    /// The replacement that a search text and a replacement text stand for, or
    /// why the search text is no regular expression.
    pub fn new(search: &str, replacement: &str, use_regex: bool) -> (result: Result<Change, String>)
        ensures
            result is Err <==> use_regex && !is_pattern(search@),
            result matches Ok(change) ==> change@ == change_of(search@, replacement@, use_regex),
            result matches Err(reason) ==> refusal(search@) == Some(reason@),
    {
        if use_regex {
            match compile(search) {
                Ok(expression) => Ok(
                    Change::Pattern { expression, replacement: replacement.to_owned() },
                ),
                Err(reason) => Err(reason),
            }
        } else {
            Ok(Change::Literal { from: search.to_owned(), to: replacement.to_owned() })
        }
    }

    /// What the replacement makes of a text.
    pub fn apply(&self, text: &str) -> (result: String)
        ensures
            result@ == changed_text(self@, text@),
    {
        match self {
            Change::Literal { from, to } => replace(text, from.as_str(), to.as_str()),
            Change::Pattern { expression, replacement } => substitute(
                expression,
                text,
                replacement.as_str(),
            ),
        }
    }
}

/// The tags after a replacement in the caption that they make.
pub open spec fn caption_replaced(tags: Seq<Seq<char>>, change: ChangeView) -> Seq<Seq<char>> {
    parsed(changed_text(change, caption(tags)))
}

/// Replaces text in the caption that the tags make.
pub fn replace_in_caption(tags: &Vec<String>, change: &Change) -> (result: Vec<String>)
    ensures
        texts(result@) == caption_replaced(texts(tags@), change@),
{
    let text = format_tags(tags);
    let changed = change.apply(text.as_str());
    parse_tags(changed.as_str())
}

/// The tags after a replacement in those that are listed in `selected`.
pub open spec fn selected_replaced(
    tags: Seq<Seq<char>>,
    selected: Seq<Seq<char>>,
    change: ChangeView,
) -> Seq<Seq<char>>
    decreases tags.len(),
{
    if tags.len() == 0 {
        Seq::<Seq<char>>::empty()
    } else {
        let rest = selected_replaced(tags.drop_last(), selected, change);
        if selected.contains(tags.last()) {
            rest + parsed(changed_text(change, tags.last()))
        } else {
            rest.push(tags.last())
        }
    }
}

/// Replaces text in the tags that are listed in `selected`.
pub fn replace_in_selected(tags: &Vec<String>, selected: &Vec<String>, change: &Change) -> (result:
    Vec<String>)
    ensures
        texts(result@) == selected_replaced(texts(tags@), texts(selected@), change@),
{
    broadcast use group_texts;

    let mut result: Vec<String> = Vec::new();
    let ghost all = texts(tags@);
    for i in 0..tags.len()
        invariant
            all == texts(tags@),
            texts(result@) == selected_replaced(all.take(i as int), texts(selected@), change@),
    {
        assert(all.take(i + 1).drop_last() =~= all.take(i as int));
        assert(all.take(i + 1).last() == tags@[i as int]@);
        if list_has(selected, tags[i].as_str()) {
            let changed = change.apply(tags[i].as_str());
            let mut more = parse_tags(changed.as_str());
            result.append(&mut more);
        } else {
            result.push(tags[i].clone());
        }
    }
    assert(all.take(tags@.len() as int) =~= all);
    result
}

/// The tags after a replacement in each of them.
pub open spec fn each_replaced(tags: Seq<Seq<char>>, change: ChangeView) -> Seq<Seq<char>> {
    all_parsed(Seq::new(tags.len(), |i: int| changed_text(change, tags[i])))
}

/// Replaces text in each tag. What a replacement leaves is read as a caption.
pub fn replace_each_tag(tags: &Vec<String>, change: &Change) -> (result: Vec<String>)
    ensures
        texts(result@) == each_replaced(texts(tags@), change@),
{
    broadcast use group_texts;

    let mut changed: Vec<String> = Vec::new();
    let ghost all = texts(tags@);
    for i in 0..tags.len()
        invariant
            all == texts(tags@),
            texts(changed@) == Seq::new(i as nat, |k: int| changed_text(change@, all[k])),
    {
        let ghost before = changed@;
        let text = change.apply(tags[i].as_str());
        changed.push(text);
        assert(texts(changed@) == texts(before).push(changed_text(change@, all[i as int])));
        assert(texts(changed@) =~= Seq::new((i + 1) as nat, |k: int| changed_text(change@, all[k])));
    }
    normalize_terms(changed.as_slice())
}

// ----- Common tags ---------------------------------------------------------

/// What the edited list has in place of the common tag at place `at`.
pub open spec fn replacement_at(edited: Seq<Seq<char>>, at: int) -> Seq<Seq<char>> {
    if 0 <= at < edited.len() {
        parsed(edited[at])
    } else {
        Seq::<Seq<char>>::empty()
    }
}

/// The tags with each common tag replaced by what the edited list has in its
/// place.
pub open spec fn common_replaced(
    tags: Seq<Seq<char>>,
    common: Seq<Seq<char>>,
    edited: Seq<Seq<char>>,
) -> Seq<Seq<char>>
    decreases tags.len(),
{
    if tags.len() == 0 {
        Seq::<Seq<char>>::empty()
    } else {
        let rest = common_replaced(tags.drop_last(), common, edited);
        if common.contains(tags.last()) {
            rest + replacement_at(edited, common.index_of_first(tags.last())->0)
        } else {
            rest.push(tags.last())
        }
    }
}

/// What the edited list adds: its entries beyond the common tags.
pub open spec fn common_additions(common: Seq<Seq<char>>, edited: Seq<Seq<char>>) -> Seq<Seq<char>> {
    if edited.len() <= common.len() {
        Seq::<Seq<char>>::empty()
    } else {
        all_parsed(edited.skip(common.len() as int))
    }
}

/// The tags after an edit of the common tags.
pub open spec fn common_edited(
    tags: Seq<Seq<char>>,
    common: Seq<Seq<char>>,
    edited: Seq<Seq<char>>,
    prepend_additions: bool,
) -> Seq<Seq<char>> {
    let kept = common_replaced(tags, common, edited);
    let additions = common_additions(common, edited);
    if prepend_additions {
        additions + kept
    } else {
        kept + additions
    }
}

/// What an edited list of common tags adds.
pub fn edited_additions(common: &Vec<String>, edited: &[String]) -> (additions: Vec<String>)
    ensures
        texts(additions@) == common_additions(texts(common@), texts(edited@)),
{
    broadcast use group_texts;

    let mut more: Vec<String> = Vec::new();
    if edited.len() <= common.len() {
        return more;
    }
    let ghost tail = texts(edited@).skip(common@.len() as int);
    for i in common.len()..edited.len()
        invariant
            common@.len() <= edited@.len(),
            tail == texts(edited@).skip(common@.len() as int),
            texts(more@) == tail.take(i - common@.len()),
    {
        let ghost before = more@;
        more.push(edited[i].clone());
        assert(texts(more@) == texts(before).push(texts(edited@)[i as int]));
        assert(texts(more@) =~= tail.take(i + 1 - common@.len()));
    }
    assert(tail.take(tail.len() as int) =~= tail);
    normalize_terms(more.as_slice())
}

/// The lists that an edited list of common tags has in place of each of them.
pub fn edited_replacements(edited: &[String]) -> (lists: Vec<Vec<String>>)
    ensures
        lists@.len() == edited@.len(),
        forall|k: int|
            0 <= k < edited@.len() ==> texts((#[trigger] lists@[k])@) == parsed(edited@[k]@),
{
    let mut lists: Vec<Vec<String>> = Vec::new();
    for i in 0..edited.len()
        invariant
            lists@.len() == i,
            forall|k: int| 0 <= k < i ==> texts((#[trigger] lists@[k])@) == parsed(edited@[k]@),
    {
        lists.push(parse_tags(edited[i].as_str()));
    }
    lists
}

/// Edits the common tags in one list: `replacements` are the lists in place of
/// each of them, `additions` what is added.
pub fn edit_common(
    tags: &Vec<String>,
    common: &Vec<String>,
    edited: &[String],
    replacements: &Vec<Vec<String>>,
    additions: &Vec<String>,
    prepend_additions: bool,
) -> (result: Vec<String>)
    requires
        replacements@.len() == edited@.len(),
        forall|k: int|
            0 <= k < edited@.len() ==> texts((#[trigger] replacements@[k])@) == parsed(edited@[k]@),
        texts(additions@) == common_additions(texts(common@), texts(edited@)),
    ensures
        texts(result@) == common_edited(
            texts(tags@),
            texts(common@),
            texts(edited@),
            prepend_additions,
        ),
{
    broadcast use group_texts;

    let mut kept: Vec<String> = Vec::new();
    let ghost all = texts(tags@);
    let ghost shared = texts(common@);
    for i in 0..tags.len()
        invariant
            all == texts(tags@),
            shared == texts(common@),
            replacements@.len() == edited@.len(),
            forall|k: int|
                0 <= k < edited@.len() ==> texts((#[trigger] replacements@[k])@) == parsed(
                    edited@[k]@,
                ),
            texts(kept@) == common_replaced(all.take(i as int), shared, texts(edited@)),
    {
        let ghost before = kept@;
        assert(all.take(i + 1).drop_last() =~= all.take(i as int));
        assert(all.take(i + 1).last() == tags@[i as int]@);
        match position_of(common, tags[i].as_str()) {
            Some(at) => {
                proof {
                    assert(shared[at as int] == all[i as int]);
                    lemma_first_place(shared, all[i as int], at as int);
                }
                if at < replacements.len() {
                    extend_strings(&mut kept, &replacements[at]);
                    assert(texts(kept@) == texts(before) + parsed(edited@[at as int]@));
                } else {
                    assert(texts(before) + Seq::<Seq<char>>::empty() =~= texts(before));
                }
            },
            None => {
                kept.push(tags[i].clone());
            },
        }
    }
    assert(all.take(tags@.len() as int) =~= all);
    if prepend_additions {
        concatenated(additions, &kept)
    } else {
        concatenated(&kept, additions)
    }
}

proof fn lemma_first_place<T>(list: Seq<T>, entry: T, at: int)
    requires
        0 <= at < list.len(),
        list[at] == entry,
        forall|k: int| 0 <= k < at ==> list[k] != entry,
    ensures
        list.contains(entry),
        list.index_of_first(entry) == Some(at),
{
    assert(list.contains(list[at]));
    list.index_of_first_ensures(entry);
}

// ----- Operations on batches -----------------------------------------------

/// An edit that can be applied to multiple selected items.
#[derive(Debug)]
pub enum BatchOperation {
    /// Adds the tags of a caption text at the end.
    Append(String),
    /// Adds the tags of a caption text at the start.
    Prepend(String),
    /// Removes complete tags equal to the supplied value (case-insensitive).
    Remove(String),
    /// Removes tags matching a regular expression.
    RemoveRegex(String),
    /// Replaces regular-expression matches inside each tag.
    Replace { pattern: String, replacement: String },
    /// Replaces literal text inside each tag.
    ReplaceLiteral { from: String, to: String },
    /// Removes duplicate tags while retaining their first occurrence.
    Deduplicate,
}

/// An edit that can be applied to multiple selected items.
#[verifier::ext_equal]
pub enum OperationView {
    Append(Seq<char>),
    Prepend(Seq<char>),
    Remove(Seq<char>),
    RemoveRegex(Seq<char>),
    Replace { pattern: Seq<char>, replacement: Seq<char> },
    ReplaceLiteral { from: Seq<char>, to: Seq<char> },
    Deduplicate,
}

impl View for BatchOperation {
    type V = OperationView;

    open spec fn view(&self) -> OperationView {
        match *self {
            BatchOperation::Append(value) => OperationView::Append(value@),
            BatchOperation::Prepend(value) => OperationView::Prepend(value@),
            BatchOperation::Remove(value) => OperationView::Remove(value@),
            BatchOperation::RemoveRegex(pattern) => OperationView::RemoveRegex(pattern@),
            BatchOperation::Replace { pattern, replacement } => OperationView::Replace {
                pattern: pattern@,
                replacement: replacement@,
            },
            BatchOperation::ReplaceLiteral { from, to } => OperationView::ReplaceLiteral {
                from: from@,
                to: to@,
            },
            BatchOperation::Deduplicate => OperationView::Deduplicate,
        }
    }
}

impl Clone for BatchOperation {
    fn clone(&self) -> (copy: BatchOperation)
        ensures
            copy@ == self@,
    {
        match self {
            BatchOperation::Append(value) => BatchOperation::Append(value.clone()),
            BatchOperation::Prepend(value) => BatchOperation::Prepend(value.clone()),
            BatchOperation::Remove(value) => BatchOperation::Remove(value.clone()),
            BatchOperation::RemoveRegex(pattern) => BatchOperation::RemoveRegex(pattern.clone()),
            BatchOperation::Replace { pattern, replacement } => BatchOperation::Replace {
                pattern: pattern.clone(),
                replacement: replacement.clone(),
            },
            BatchOperation::ReplaceLiteral { from, to } => BatchOperation::ReplaceLiteral {
                from: from.clone(),
                to: to.clone(),
            },
            BatchOperation::Deduplicate => BatchOperation::Deduplicate,
        }
    }
}

/// The tags without those that match a pattern.
pub open spec fn without_matches(tags: Seq<Seq<char>>, pattern: Seq<char>) -> Seq<Seq<char>>
    decreases tags.len(),
{
    if tags.len() == 0 {
        Seq::<Seq<char>>::empty()
    } else {
        let rest = without_matches(tags.drop_last(), pattern);
        if matched(pattern, tags.last()) {
            rest
        } else {
            rest.push(tags.last())
        }
    }
}

/// What an operation makes of a list of tags.
pub open spec fn operated(operation: OperationView, tags: Seq<Seq<char>>) -> Seq<Seq<char>> {
    match operation {
        OperationView::Append(value) => tags + parsed(value),
        OperationView::Prepend(value) => parsed(value) + tags,
        OperationView::Remove(value) => if trimmed(value).len() == 0 {
            tags
        } else {
            without(tags, trimmed(value))
        },
        OperationView::RemoveRegex(pattern) => without_matches(tags, pattern),
        OperationView::Replace { pattern, replacement } => each_replaced(
            tags,
            ChangeView::Pattern { pattern, replacement },
        ),
        OperationView::ReplaceLiteral { from, to } => if from.len() == 0 {
            tags
        } else {
            each_replaced(tags, ChangeView::Literal { from, to })
        },
        OperationView::Deduplicate => deduplicated(tags),
    }
}

/// The regular expression that an operation names.
pub open spec fn operation_pattern(operation: OperationView) -> Option<Seq<char>> {
    match operation {
        OperationView::RemoveRegex(pattern) => Some(pattern),
        OperationView::Replace { pattern, replacement } => Some(pattern),
        _ => None,
    }
}

/// Whether an operation can be applied: the regular expression that it names,
/// if any, is one.
pub open spec fn is_operation(operation: OperationView) -> bool {
    match operation_pattern(operation) {
        Some(pattern) => is_pattern(pattern),
        None => true,
    }
}

/// An operation with its texts read and its regular expression compiled.
pub enum PreparedOperation {
    Append(Vec<String>),
    Prepend(Vec<String>),
    Remove(String),
    RemoveRegex(regex::Regex),
    Replace(Change),
    Keep,
    Deduplicate,
}

impl PreparedOperation {
    /// What the operation makes of a list of tags.
    pub open spec fn outcome(&self, tags: Seq<Seq<char>>) -> Seq<Seq<char>> {
        match *self {
            PreparedOperation::Append(values) => tags + texts(values@),
            PreparedOperation::Prepend(values) => texts(values@) + tags,
            PreparedOperation::Remove(value) => without(tags, value@),
            PreparedOperation::RemoveRegex(expression) => without_matches(
                tags,
                pattern_of(expression),
            ),
            PreparedOperation::Replace(change) => each_replaced(tags, change@),
            PreparedOperation::Keep => tags,
            PreparedOperation::Deduplicate => deduplicated(tags),
        }
    }

    /// Prepares an operation, or tells why its regular expression is none.
    pub fn new(operation: &BatchOperation) -> (result: Result<PreparedOperation, String>)
        ensures
            result is Ok <==> is_operation(operation@),
            result matches Ok(prepared) ==> forall|tags: Seq<Seq<char>>| #[trigger]
                prepared.outcome(tags) == operated(operation@, tags),
            result matches Err(reason) ==> operation_pattern(operation@) matches Some(pattern)
                && refusal(pattern) == Some(reason@),
    {
        match operation {
            BatchOperation::Append(value) => Ok(
                PreparedOperation::Append(parse_tags(value.as_str())),
            ),
            BatchOperation::Prepend(value) => Ok(
                PreparedOperation::Prepend(parse_tags(value.as_str())),
            ),
            BatchOperation::Remove(value) => {
                let text = trim(value.as_str());
                if text.as_str().is_empty() {
                    Ok(PreparedOperation::Keep)
                } else {
                    Ok(PreparedOperation::Remove(text))
                }
            },
            BatchOperation::RemoveRegex(pattern) => match compile(pattern.as_str()) {
                Ok(expression) => Ok(PreparedOperation::RemoveRegex(expression)),
                Err(reason) => Err(reason),
            },
            BatchOperation::Replace { pattern, replacement } => match Change::new(
                pattern.as_str(),
                replacement.as_str(),
                true,
            ) {
                Ok(change) => Ok(PreparedOperation::Replace(change)),
                Err(reason) => Err(reason),
            },
            BatchOperation::ReplaceLiteral { from, to } => {
                if from.as_str().is_empty() {
                    Ok(PreparedOperation::Keep)
                } else {
                    Ok(
                        PreparedOperation::Replace(
                            Change::Literal { from: from.clone(), to: to.clone() },
                        ),
                    )
                }
            },
            BatchOperation::Deduplicate => Ok(PreparedOperation::Deduplicate),
        }
    }

    /// What the operation makes of a list of tags.
    pub fn apply(&self, tags: &Vec<String>) -> (result: Vec<String>)
        ensures
            texts(result@) == self.outcome(texts(tags@)),
    {
        broadcast use group_texts;

        match self {
            PreparedOperation::Append(values) => concatenated(tags, values),
            PreparedOperation::Prepend(values) => concatenated(values, tags),
            PreparedOperation::Remove(value) => tags_without(tags, value.as_str()),
            PreparedOperation::RemoveRegex(expression) => tags_without_matches(tags, expression),
            PreparedOperation::Replace(change) => replace_each_tag(tags, change),
            PreparedOperation::Keep => copy_strings(tags),
            PreparedOperation::Deduplicate => {
                let mut result = copy_strings(tags);
                deduplicate_tags(&mut result);
                result
            },
        }
    }
}

/// The tags without those that match an expression.
pub fn tags_without_matches(tags: &Vec<String>, expression: &regex::Regex) -> (kept: Vec<String>)
    ensures
        texts(kept@) == without_matches(texts(tags@), pattern_of(*expression)),
        texts(kept@) == texts(tags@).filter(
            |tag: Seq<char>| !matched(pattern_of(*expression), tag),
        ),
{
    broadcast use group_texts;

    let mut kept: Vec<String> = Vec::new();
    let ghost all = texts(tags@);
    for i in 0..tags.len()
        invariant
            all == texts(tags@),
            texts(kept@) == without_matches(all.take(i as int), pattern_of(*expression)),
    {
        assert(all.take(i + 1).drop_last() =~= all.take(i as int));
        assert(all.take(i + 1).last() == tags@[i as int]@);
        if !finds(expression, tags[i].as_str()) {
            kept.push(tags[i].clone());
        }
    }
    assert(all.take(tags@.len() as int) =~= all);
    proof {
        law_matches_are_removed(all, pattern_of(*expression));
    }
    kept
}

} // verus!
