//! Edits of the tags of a dataset, each of them one step of the history.

use vstd::prelude::*;

use crate::dataset::{
    any_listed, batch_edited, batch_lists, change_count, common_of, edit_lists, item_edited, listed,
    marks, places, retagged, Dataset, DatasetView,
};
use crate::edits::{
    caption_replaced, change_of, common_additions, common_edited, edit_common, edited_additions,
    edited_replacements, is_operation, operated, operation_pattern, replace_in_caption,
    replace_in_selected, selected_replaced, BatchOperation, Change, OperationView,
    PreparedOperation,
};
use crate::frequency::{
    frequencies, sort_tags, sorted_tags, tag_ranks, Frequencies, TagSortKey,
};
use crate::history::{snapshot_of, TagSnapshot};
use crate::item::{item_views, DatasetItem, ItemView};
use crate::order::SortDirection;
use crate::pattern::{is_pattern, refusal};
use crate::tags::{
    all_parsed, concatenated, deduplicate_tags, deduplicated, normalize_terms, parse_tags, parsed,
    tags_without, without,
};
use crate::text::{copy_strings, extend_strings, group_texts, same_texts, texts, trim, trimmed};

verus! {

/// What a regular expression was to be used for.
#[derive(Clone, Copy, Debug, PartialEq, Eq, Structural)]
pub enum PatternUse {
    /// Replacing text in whole captions.
    CaptionReplacement,
    /// Replacing text in selected tags.
    SelectedTagReplacement,
    /// Removing the tags that match.
    Removal,
    /// Replacing text in each tag.
    Replacement,
}

/// A text that is no regular expression.
#[derive(Debug)]
pub struct PatternError {
    pub purpose: PatternUse,
    pub pattern: String,
    /// Why the text is none.
    pub reason: String,
}

impl PatternError {
    /// Whether this is the error that a pattern gives.
    pub open spec fn refuses(&self, purpose: PatternUse, pattern: Seq<char>) -> bool {
        &&& self.purpose == purpose
        &&& self.pattern@ == pattern
        &&& refusal(pattern) == Some(self.reason@)
    }

    /// Whether this is the error that an operation gives.
    pub open spec fn refuses_operation(&self, operation: OperationView) -> bool {
        match operation_pattern(operation) {
            Some(pattern) => self.refuses(operation_use(operation), pattern),
            None => false,
        }
    }

    /// What the error says.
    pub fn message(&self) -> (text: String)
        ensures
            text@ == pattern_use_text(self.purpose) + self.pattern@,
    {
        let mut text = match self.purpose {
            PatternUse::CaptionReplacement => "invalid caption replacement regular expression: ".to_owned(),
            PatternUse::SelectedTagReplacement => "invalid selected-tag replacement regular expression: ".to_owned(),
            PatternUse::Removal => "invalid remove regular expression: ".to_owned(),
            PatternUse::Replacement => "invalid replace regular expression: ".to_owned(),
        };
        text.append(self.pattern.as_str());
        text
    }
}

/// How the message of a pattern error begins.
pub open spec fn pattern_use_text(purpose: PatternUse) -> Seq<char> {
    match purpose {
        PatternUse::CaptionReplacement => "invalid caption replacement regular expression: "@,
        PatternUse::SelectedTagReplacement => "invalid selected-tag replacement regular expression: "@,
        PatternUse::Removal => "invalid remove regular expression: "@,
        PatternUse::Replacement => "invalid replace regular expression: "@,
    }
}

/// Whether `edits` are the edits of the first items: what `edit` makes of the
/// tags of a listed one, nothing for another one.
spec fn is_plan(
    edits: Seq<Option<Vec<String>>>,
    items: Seq<ItemView>,
    indices: Seq<usize>,
    edit: spec_fn(Seq<Seq<char>>) -> Seq<Seq<char>>,
) -> bool {
    forall|k: int|
        0 <= k < edits.len() ==> match #[trigger] edits[k] {
            Some(tags) => listed(indices, k) && texts(tags@) == edit(items[k].tags),
            None => !listed(indices, k),
        }
}

proof fn lemma_plan(
    edits: Seq<Option<Vec<String>>>,
    items: Seq<ItemView>,
    indices: Seq<usize>,
    edit: spec_fn(Seq<Seq<char>>) -> Seq<Seq<char>>,
)
    requires
        edits.len() == items.len(),
        is_plan(edits, items, indices, edit),
    ensures
        edit_lists(items, edits) == batch_lists(items, indices, edit),
{
    assert forall|k: int| 0 <= k < items.len() implies edit_lists(items, edits)[k] == batch_lists(
        items,
        indices,
        edit,
    )[k] by {
        assert(match edits[k] {
            Some(tags) => listed(indices, k) && texts(tags@) == edit(items[k].tags),
            None => !listed(indices, k),
        });
    }
    assert(edit_lists(items, edits) =~= batch_lists(items, indices, edit));
}

proof fn lemma_nothing_listed(
    data: DatasetView,
    indices: Seq<usize>,
    edit: spec_fn(Seq<Seq<char>>) -> Seq<Seq<char>>,
)
    requires
        !any_listed(data.items, indices),
    ensures
        batch_edited(data, indices, edit) == data,
        change_count(data.items, data.items) == 0,
{
    assert(retagged(data.items, batch_lists(data.items, indices, edit)) =~= data.items);
    lemma_no_change(data.items);
}

proof fn lemma_no_change(items: Seq<ItemView>)
    ensures
        change_count(items, items) == 0,
    decreases items.len(),
{
    if items.len() > 0 {
        lemma_no_change(items.drop_last());
    }
}

/// Whether something is marked.
fn any_marked(marked: &Vec<bool>) -> (yes: bool)
    ensures
        yes == exists|i: int| 0 <= i < marked@.len() && #[trigger] marked@[i],
{
    for i in 0..marked.len()
        invariant
            forall|k: int| 0 <= k < i ==> !#[trigger] marked@[k],
    {
        if marked[i] {
            return true;
        }
    }
    false
}

/// The marks of the listed items, or nothing where no item is listed.
fn valid_marks(items: &Vec<DatasetItem>, indices: &[usize]) -> (marked: Option<Vec<bool>>)
    ensures
        marked is Some <==> any_listed(item_views(items@), indices@),
        marked matches Some(marked) ==> marked@.len() == items@.len() && forall|i: int|
            0 <= i < marked@.len() ==> #[trigger] marked@[i] == listed(indices@, i),
{
    let marked = marks(indices, items.len());
    if any_marked(&marked) {
        proof {
            let i = choose|i: int| 0 <= i < marked@.len() && #[trigger] marked@[i];
            assert(listed(indices@, i));
        }
        Some(marked)
    } else {
        proof {
            if any_listed(item_views(items@), indices@) {
                let i = choose|i: int| 0 <= i < items@.len() && #[trigger] listed(indices@, i);
                assert(marked@[i]);
            }
        }
        None
    }
}

/// Every tag of the items, one caption after the other.
pub open spec fn every_tag(items: Seq<ItemView>) -> Seq<Seq<char>>
    decreases items.len(),
{
    if items.len() == 0 {
        Seq::<Seq<char>>::empty()
    } else {
        every_tag(items.drop_last()) + items.last().tags
    }
}

/// The places of a list of updates and their caption texts.
pub open spec fn update_views(updates: Seq<(usize, String)>) -> Seq<(usize, Seq<char>)> {
    updates.map_values(|update: (usize, String)| (update.0, update.1@))
}

/// The items after caption texts were set, one after the other.
pub open spec fn texts_set(items: Seq<ItemView>, updates: Seq<(usize, Seq<char>)>) -> Seq<ItemView>
    decreases updates.len(),
{
    if updates.len() == 0 {
        items
    } else {
        let before = texts_set(items, updates.drop_last());
        let (index, text) = updates.last();
        if index < before.len() {
            before.update(
                index as int,
                ItemView { tags: parsed(text), ..before[index as int] },
            )
        } else {
            before
        }
    }
}

/// A dataset after updates of captions: one step of the history, where any of
/// them changed an item.
pub open spec fn texts_edited(data: DatasetView, updates: Seq<(usize, Seq<char>)>) -> DatasetView {
    if text_changes(data.items, updates) == 0 {
        data
    } else {
        DatasetView {
            items: texts_set(data.items, updates),
            undo: data.undo.push(snapshot_of(data.items)),
            redo: Seq::empty(),
            ..data
        }
    }
}

/// How many of the updates of caption texts change the tags of an item.
pub open spec fn text_changes(items: Seq<ItemView>, updates: Seq<(usize, Seq<char>)>) -> nat
    decreases updates.len(),
{
    if updates.len() == 0 {
        0
    } else {
        let before = texts_set(items, updates.drop_last());
        let (index, text) = updates.last();
        text_changes(items, updates.drop_last()) + if index < before.len()
            && before[index as int].tags != parsed(text) {
            1nat
        } else {
            0nat
        }
    }
}

/// To set caption texts changes neither the number of items nor anything of an
/// item but its tags.
pub proof fn lemma_texts_set_len(items: Seq<ItemView>, updates: Seq<(usize, Seq<char>)>)
    ensures
        texts_set(items, updates).len() == items.len(),
        forall|i: int|
            0 <= i < items.len() ==> #[trigger] texts_set(items, updates)[i] == (ItemView {
                tags: texts_set(items, updates)[i].tags,
                ..items[i]
            }),
    decreases updates.len(),
{
    if updates.len() > 0 {
        lemma_texts_set_len(items, updates.drop_last());
    }
}

impl Dataset {
    // ----- Batch edits -----------------------------------------------------

    /// Replaces the common tags in each supplied caption.
    ///
    /// Common tags are the ordered list of [`Dataset::common_tags`]. Edited
    /// values are paired with that list: a blank value removes the
    /// corresponding common tag, omitted values remove the remaining common
    /// tags, and values beyond the common-tag list are additions. Additions
    /// are appended by default or prepended when `prepend_additions` is true.
    /// Every occurrence of a common tag in a caption is replaced, while all
    /// other tags retain their original relative order.
    pub fn replace_common_tags(
        &mut self,
        indices: &[usize],
        edited_tags: &[String],
        prepend_additions: bool,
    ) -> (changed: usize)
        ensures
            final(self)@ == batch_edited(
                old(self)@,
                indices@,
                |tags: Seq<Seq<char>>|
                    common_edited(
                        tags,
                        common_of(old(self)@.items, indices@),
                        texts(edited_tags@),
                        prepend_additions,
                    ),
            ),
            changed == change_count(old(self)@.items, final(self)@.items),
    {
        let ghost all = item_views(self.items@);
        let ghost shared = common_of(all, indices@);
        let ghost edit = |tags: Seq<Seq<char>>|
            common_edited(tags, shared, texts(edited_tags@), prepend_additions);
        let marked = match valid_marks(&self.items, indices) {
            Some(marked) => marked,
            None => {
                proof {
                    lemma_nothing_listed(self@, indices@, edit);
                }
                return 0;
            },
        };
        let common = self.common_tags(indices);
        let replacements = edited_replacements(edited_tags);
        let additions = edited_additions(&common, edited_tags);
        let mut edits: Vec<Option<Vec<String>>> = Vec::new();
        for i in 0..self.items.len()
            invariant
                all == item_views(self.items@),
                self@ == old(self)@,
                marked@.len() == all.len(),
                forall|i: int|
                    0 <= i < marked@.len() ==> #[trigger] marked@[i] == listed(indices@, i),
                texts(common@) == shared,
                edit == (|tags: Seq<Seq<char>>|
                    common_edited(tags, shared, texts(edited_tags@), prepend_additions)),
                replacements@.len() == edited_tags@.len(),
                forall|k: int|
                    0 <= k < edited_tags@.len() ==> texts((#[trigger] replacements@[k])@) == parsed(
                        edited_tags@[k]@,
                    ),
                texts(additions@) == common_additions(shared, texts(edited_tags@)),
                edits@.len() == i,
                is_plan(edits@, all, indices@, edit),
        {
            if marked[i] {
                let tags = edit_common(
                    &self.items[i].tags,
                    &common,
                    edited_tags,
                    &replacements,
                    &additions,
                    prepend_additions,
                );
                edits.push(Some(tags));
            } else {
                edits.push(None);
            }
        }
        proof {
            lemma_plan(edits@, all, indices@, edit);
        }
        self.commit(&edits)
    }

    /// Sorts tags in the supplied captions. Frequency sorting uses occurrence
    /// counts from the entire dataset and breaks ties alphabetically. The
    /// operation creates one undo entry for the whole batch.
    pub fn sort_tags_in_items(
        &mut self,
        indices: &[usize],
        key: TagSortKey,
        direction: SortDirection,
    ) -> (changed: usize)
        ensures
            final(self)@ == batch_edited(
                old(self)@,
                indices@,
                |tags: Seq<Seq<char>>|
                    sorted_tags(
                        frequencies(every_tag(old(self)@.items)),
                        key,
                        direction,
                        tags,
                    ),
            ),
            changed == change_count(old(self)@.items, final(self)@.items),
    {
        let ghost all = item_views(self.items@);
        let ghost totals = frequencies(every_tag(all));
        let ghost edit = |tags: Seq<Seq<char>>| sorted_tags(totals, key, direction, tags);
        let marked = match valid_marks(&self.items, indices) {
            Some(marked) => marked,
            None => {
                proof {
                    lemma_nothing_listed(self@, indices@, edit);
                }
                return 0;
            },
        };
        let counts = if key == TagSortKey::Frequency {
            let tags = self.all_tags();
            Frequencies::of(&tags)
        } else {
            Frequencies::of(&Vec::new())
        };
        let mut edits: Vec<Option<Vec<String>>> = Vec::new();
        for i in 0..self.items.len()
            invariant
                all == item_views(self.items@),
                self@ == old(self)@,
                marked@.len() == all.len(),
                forall|i: int|
                    0 <= i < marked@.len() ==> #[trigger] marked@[i] == listed(indices@, i),
                key == TagSortKey::Frequency ==> counts@ == totals,
                edit == (|tags: Seq<Seq<char>>| sorted_tags(totals, key, direction, tags)),
                edits@.len() == i,
                is_plan(edits@, all, indices@, edit),
        {
            if marked[i] {
                let tags = sort_tags(&self.items[i].tags, key, direction, &counts);
                proof {
                    let list = all[i as int].tags;
                    assert(tag_ranks(counts@, key, direction, list) =~= tag_ranks(
                        totals,
                        key,
                        direction,
                        list,
                    ));
                }
                edits.push(Some(tags));
            } else {
                edits.push(None);
            }
        }
        proof {
            lemma_plan(edits@, all, indices@, edit);
        }
        self.commit(&edits)
    }

    /// Every tag of the dataset, one caption after the other.
    fn all_tags(&self) -> (tags: Vec<String>)
        ensures
            texts(tags@) == every_tag(self@.items),
    {
        broadcast use group_texts;

        let ghost all = item_views(self.items@);
        let mut tags: Vec<String> = Vec::new();
        for i in 0..self.items.len()
            invariant
                all == item_views(self.items@),
                texts(tags@) == every_tag(all.take(i as int)),
        {
            let ghost before = tags@;
            assert(all.take(i + 1).drop_last() =~= all.take(i as int));
            extend_strings(&mut tags, &self.items[i].tags);
            assert(texts(tags@) == texts(before) + all[i as int].tags);
        }
        assert(all.take(self.items@.len() as int) =~= all);
        tags
    }

    /// Replaces text in the complete comma-separated caption of each supplied
    /// item. Literal replacement is used when `use_regex` is false; otherwise
    /// `search` is compiled as a regular expression. Replacement text that
    /// contains commas is split into separate tags, just like caption input.
    pub fn replace_caption(
        &mut self,
        indices: &[usize],
        search: &str,
        replacement: &str,
        use_regex: bool,
    ) -> (result: Result<usize, PatternError>)
        ensures
            result is Err <==> any_listed(old(self)@.items, indices@) && search@.len() > 0
                && use_regex && !is_pattern(search@),
            result matches Err(error) ==> error.refuses(PatternUse::CaptionReplacement, search@)
                && final(self)@ == old(self)@,
            result matches Ok(changed) ==> {
                &&& final(self)@ == if search@.len() == 0 {
                    old(self)@
                } else {
                    batch_edited(
                        old(self)@,
                        indices@,
                        |tags: Seq<Seq<char>>|
                            caption_replaced(tags, change_of(search@, replacement@, use_regex)),
                    )
                }
                &&& changed == change_count(old(self)@.items, final(self)@.items)
            },
    {
        let ghost all = item_views(self.items@);
        let ghost edit = |tags: Seq<Seq<char>>|
            caption_replaced(tags, change_of(search@, replacement@, use_regex));
        let marked = match valid_marks(&self.items, indices) {
            Some(marked) => marked,
            None => {
                proof {
                    lemma_nothing_listed(self@, indices@, edit);
                }
                return Ok(0);
            },
        };
        if search.is_empty() {
            proof {
                lemma_no_change(all);
            }
            return Ok(0);
        }
        let change = match Change::new(search, replacement, use_regex) {
            Ok(change) => change,
            Err(reason) => {
                return Err(
                    PatternError {
                        purpose: PatternUse::CaptionReplacement,
                        pattern: search.to_owned(),
                        reason,
                    },
                );
            },
        };
        let mut edits: Vec<Option<Vec<String>>> = Vec::new();
        for i in 0..self.items.len()
            invariant
                all == item_views(self.items@),
                self@ == old(self)@,
                marked@.len() == all.len(),
                forall|i: int|
                    0 <= i < marked@.len() ==> #[trigger] marked@[i] == listed(indices@, i),
                edit == (|tags: Seq<Seq<char>>| caption_replaced(tags, change@)),
                edits@.len() == i,
                is_plan(edits@, all, indices@, edit),
        {
            if marked[i] {
                edits.push(Some(replace_in_caption(&self.items[i].tags, &change)));
            } else {
                edits.push(None);
            }
        }
        proof {
            lemma_plan(edits@, all, indices@, edit);
        }
        Ok(self.commit(&edits))
    }

    /// The same as [`Dataset::replace_caption`].
    pub fn search_and_replace_caption(
        &mut self,
        indices: &[usize],
        search: &str,
        replacement: &str,
        use_regex: bool,
    ) -> (result: Result<usize, PatternError>)
        ensures
            result is Err <==> any_listed(old(self)@.items, indices@) && search@.len() > 0
                && use_regex && !is_pattern(search@),
            result matches Err(error) ==> error.refuses(PatternUse::CaptionReplacement, search@)
                && final(self)@ == old(self)@,
            result matches Ok(changed) ==> {
                &&& final(self)@ == if search@.len() == 0 {
                    old(self)@
                } else {
                    batch_edited(
                        old(self)@,
                        indices@,
                        |tags: Seq<Seq<char>>|
                            caption_replaced(tags, change_of(search@, replacement@, use_regex)),
                    )
                }
                &&& changed == change_count(old(self)@.items, final(self)@.items)
            },
    {
        self.replace_caption(indices, search, replacement, use_regex)
    }

    /// Replaces text only inside tags listed by `selected_tags`. Matching is
    /// exact and case-sensitive.
    pub fn replace_selected_tags(
        &mut self,
        indices: &[usize],
        selected_tags: &Vec<String>,
        search: &str,
        replacement: &str,
        use_regex: bool,
    ) -> (result: Result<usize, PatternError>)
        ensures
            result is Err <==> any_listed(old(self)@.items, indices@) && search@.len() > 0
                && selected_tags@.len() > 0 && use_regex && !is_pattern(search@),
            result matches Err(error) ==> error.refuses(PatternUse::SelectedTagReplacement, search@)
                && final(self)@ == old(self)@,
            result matches Ok(changed) ==> {
                &&& final(self)@ == if search@.len() == 0 || selected_tags@.len() == 0 {
                    old(self)@
                } else {
                    batch_edited(
                        old(self)@,
                        indices@,
                        |tags: Seq<Seq<char>>|
                            selected_replaced(
                                tags,
                                texts(selected_tags@),
                                change_of(search@, replacement@, use_regex),
                            ),
                    )
                }
                &&& changed == change_count(old(self)@.items, final(self)@.items)
            },
    {
        let ghost all = item_views(self.items@);
        let ghost chosen = texts(selected_tags@);
        let ghost edit = |tags: Seq<Seq<char>>|
            selected_replaced(tags, chosen, change_of(search@, replacement@, use_regex));
        let marked = match valid_marks(&self.items, indices) {
            Some(marked) => marked,
            None => {
                proof {
                    lemma_nothing_listed(self@, indices@, edit);
                }
                return Ok(0);
            },
        };
        if search.is_empty() || selected_tags.len() == 0 {
            proof {
                lemma_no_change(all);
            }
            return Ok(0);
        }
        let change = match Change::new(search, replacement, use_regex) {
            Ok(change) => change,
            Err(reason) => {
                return Err(
                    PatternError {
                        purpose: PatternUse::SelectedTagReplacement,
                        pattern: search.to_owned(),
                        reason,
                    },
                );
            },
        };
        let mut edits: Vec<Option<Vec<String>>> = Vec::new();
        for i in 0..self.items.len()
            invariant
                all == item_views(self.items@),
                self@ == old(self)@,
                marked@.len() == all.len(),
                forall|i: int|
                    0 <= i < marked@.len() ==> #[trigger] marked@[i] == listed(indices@, i),
                chosen == texts(selected_tags@),
                edit == (|tags: Seq<Seq<char>>| selected_replaced(tags, chosen, change@)),
                edits@.len() == i,
                is_plan(edits@, all, indices@, edit),
        {
            if marked[i] {
                edits.push(
                    Some(replace_in_selected(&self.items[i].tags, selected_tags, &change)),
                );
            } else {
                edits.push(None);
            }
        }
        proof {
            lemma_plan(edits@, all, indices@, edit);
        }
        Ok(self.commit(&edits))
    }

    /// The same as [`Dataset::replace_selected_tags`].
    pub fn search_and_replace_selected_tags(
        &mut self,
        indices: &[usize],
        search: &str,
        replacement: &str,
        selected_tags: &Vec<String>,
        use_regex: bool,
    ) -> (result: Result<usize, PatternError>)
        ensures
            result is Err <==> any_listed(old(self)@.items, indices@) && search@.len() > 0
                && selected_tags@.len() > 0 && use_regex && !is_pattern(search@),
            result matches Err(error) ==> error.refuses(PatternUse::SelectedTagReplacement, search@)
                && final(self)@ == old(self)@,
            result matches Ok(changed) ==> {
                &&& final(self)@ == if search@.len() == 0 || selected_tags@.len() == 0 {
                    old(self)@
                } else {
                    batch_edited(
                        old(self)@,
                        indices@,
                        |tags: Seq<Seq<char>>|
                            selected_replaced(
                                tags,
                                texts(selected_tags@),
                                change_of(search@, replacement@, use_regex),
                            ),
                    )
                }
                &&& changed == change_count(old(self)@.items, final(self)@.items)
            },
    {
        self.replace_selected_tags(indices, selected_tags, search, replacement, use_regex)
    }

    /// Keeps at most `max_tags` tags in each supplied caption.
    pub fn truncate_tags(&mut self, indices: &[usize], max_tags: usize) -> (changed: usize)
        ensures
            final(self)@ == batch_edited(
                old(self)@,
                indices@,
                |tags: Seq<Seq<char>>| shortened_list(tags, max_tags as nat),
            ),
            changed == change_count(old(self)@.items, final(self)@.items),
    {
        broadcast use group_texts;

        let ghost all = item_views(self.items@);
        let ghost edit = |tags: Seq<Seq<char>>| shortened_list(tags, max_tags as nat);
        let marked = match valid_marks(&self.items, indices) {
            Some(marked) => marked,
            None => {
                proof {
                    lemma_nothing_listed(self@, indices@, edit);
                }
                return 0;
            },
        };
        let mut edits: Vec<Option<Vec<String>>> = Vec::new();
        for i in 0..self.items.len()
            invariant
                all == item_views(self.items@),
                self@ == old(self)@,
                marked@.len() == all.len(),
                forall|i: int|
                    0 <= i < marked@.len() ==> #[trigger] marked@[i] == listed(indices@, i),
                edit == (|tags: Seq<Seq<char>>| shortened_list(tags, max_tags as nat)),
                edits@.len() == i,
                is_plan(edits@, all, indices@, edit),
        {
            if marked[i] {
                let mut tags = copy_strings(&self.items[i].tags);
                tags.truncate(max_tags);
                assert(texts(tags@) =~= shortened_list(all[i as int].tags, max_tags as nat));
                edits.push(Some(tags));
            } else {
                edits.push(None);
            }
        }
        proof {
            lemma_plan(edits@, all, indices@, edit);
        }
        self.commit(&edits)
    }

    /// The same as [`Dataset::truncate_tags`]. The limit is a number of tags,
    /// not tokenizer tokens.
    pub fn truncate_tag_count(&mut self, indices: &[usize], max_tags: usize) -> (changed: usize)
        ensures
            final(self)@ == batch_edited(
                old(self)@,
                indices@,
                |tags: Seq<Seq<char>>| shortened_list(tags, max_tags as nat),
            ),
            changed == change_count(old(self)@.items, final(self)@.items),
    {
        self.truncate_tags(indices, max_tags)
    }

    /// Applies an operation to explicit item indices. Invalid indices are
    /// ignored, so a stale selection does no harm.
    pub fn apply_operation(&mut self, indices: &[usize], operation: &BatchOperation) -> (result:
        Result<usize, PatternError>)
        ensures
            result is Ok <==> is_operation(operation@),
            result matches Err(error) ==> final(self)@ == old(self)@ && error.refuses_operation(
                operation@,
            ),
            result matches Ok(changed) ==> {
                &&& final(self)@ == batch_edited(
                    old(self)@,
                    indices@,
                    |tags: Seq<Seq<char>>| operated(operation@, tags),
                )
                &&& changed == change_count(old(self)@.items, final(self)@.items)
            },
    {
        let ghost all = item_views(self.items@);
        let ghost edit = |tags: Seq<Seq<char>>| operated(operation@, tags);
        let prepared = match PreparedOperation::new(operation) {
            Ok(prepared) => prepared,
            Err(reason) => {
                return Err(refused_operation(operation, reason));
            },
        };
        let marked = marks(indices, self.items.len());
        let mut edits: Vec<Option<Vec<String>>> = Vec::new();
        for i in 0..self.items.len()
            invariant
                all == item_views(self.items@),
                self@ == old(self)@,
                marked@.len() == all.len(),
                forall|i: int|
                    0 <= i < marked@.len() ==> #[trigger] marked@[i] == listed(indices@, i),
                forall|tags: Seq<Seq<char>>| #[trigger]
                    prepared.outcome(tags) == operated(operation@, tags),
                edit == (|tags: Seq<Seq<char>>| operated(operation@, tags)),
                edits@.len() == i,
                is_plan(edits@, all, indices@, edit),
        {
            if marked[i] {
                edits.push(Some(prepared.apply(&self.items[i].tags)));
            } else {
                edits.push(None);
            }
        }
        proof {
            lemma_plan(edits@, all, indices@, edit);
        }
        Ok(self.commit(&edits))
    }

    /// Applies an operation to the current selection. With no selected items,
    /// this changes nothing; use `select_all` when an operation should affect
    /// all.
    pub fn apply_to_selected(&mut self, operation: &BatchOperation) -> (result: Result<
        usize,
        PatternError,
    >)
        ensures
            result is Ok <==> is_operation(operation@),
            result matches Err(error) ==> final(self)@ == old(self)@ && error.refuses_operation(
                operation@,
            ),
            result matches Ok(changed) ==> {
                &&& final(self)@ == selection_operated(old(self)@, operation@)
                &&& changed == change_count(old(self)@.items, final(self)@.items)
            },
    {
        let indices = self.selected_indices();
        self.apply_operation(indices.as_slice(), operation)
    }

    /// Appends the tags of a caption text to the selected items.
    pub fn batch_append(&mut self, tag: &str) -> (changed: usize)
        ensures
            final(self)@ == selection_operated(old(self)@, OperationView::Append(tag@)),
            changed == change_count(old(self)@.items, final(self)@.items),
    {
        self.operate_on_selected(&BatchOperation::Append(tag.to_owned()))
    }

    /// Prepends the tags of a caption text to the selected items.
    pub fn batch_prepend(&mut self, tag: &str) -> (changed: usize)
        ensures
            final(self)@ == selection_operated(old(self)@, OperationView::Prepend(tag@)),
            changed == change_count(old(self)@.items, final(self)@.items),
    {
        self.operate_on_selected(&BatchOperation::Prepend(tag.to_owned()))
    }

    /// Removes a tag from the selected items.
    pub fn batch_remove(&mut self, tag: &str) -> (changed: usize)
        ensures
            final(self)@ == selection_operated(old(self)@, OperationView::Remove(tag@)),
            changed == change_count(old(self)@.items, final(self)@.items),
    {
        self.operate_on_selected(&BatchOperation::Remove(tag.to_owned()))
    }

    /// Removes the tags that match a regular expression from the selected
    /// items.
    pub fn batch_remove_regex(&mut self, pattern: &str) -> (result: Result<usize, PatternError>)
        ensures
            result is Ok <==> is_pattern(pattern@),
            result matches Err(error) ==> final(self)@ == old(self)@ && error.refuses(
                PatternUse::Removal,
                pattern@,
            ),
            result matches Ok(changed) ==> {
                &&& final(self)@ == selection_operated(
                    old(self)@,
                    OperationView::RemoveRegex(pattern@),
                )
                &&& changed == change_count(old(self)@.items, final(self)@.items)
            },
    {
        self.apply_to_selected(&BatchOperation::RemoveRegex(pattern.to_owned()))
    }

    /// Literal text replacement inside the tags of the selected items.
    pub fn batch_replace(&mut self, from: &str, to: &str) -> (changed: usize)
        ensures
            final(self)@ == selection_operated(
                old(self)@,
                OperationView::ReplaceLiteral { from: from@, to: to@ },
            ),
            changed == change_count(old(self)@.items, final(self)@.items),
    {
        self.operate_on_selected(
            &BatchOperation::ReplaceLiteral { from: from.to_owned(), to: to.to_owned() },
        )
    }

    /// Regular-expression replacement inside the tags of the selected items.
    pub fn batch_replace_regex(&mut self, pattern: &str, replacement: &str) -> (result: Result<
        usize,
        PatternError,
    >)
        ensures
            result is Ok <==> is_pattern(pattern@),
            result matches Err(error) ==> final(self)@ == old(self)@ && error.refuses(
                PatternUse::Replacement,
                pattern@,
            ),
            result matches Ok(changed) ==> {
                &&& final(self)@ == selection_operated(
                    old(self)@,
                    OperationView::Replace { pattern: pattern@, replacement: replacement@ },
                )
                &&& changed == change_count(old(self)@.items, final(self)@.items)
            },
    {
        self.apply_to_selected(
            &BatchOperation::Replace {
                pattern: pattern.to_owned(),
                replacement: replacement.to_owned(),
            },
        )
    }

    /// Removes duplicate tags from the selected items.
    pub fn deduplicate_selected(&mut self) -> (changed: usize)
        ensures
            final(self)@ == selection_operated(old(self)@, OperationView::Deduplicate),
            changed == change_count(old(self)@.items, final(self)@.items),
    {
        self.operate_on_selected(&BatchOperation::Deduplicate)
    }

    fn operate_on_selected(&mut self, operation: &BatchOperation) -> (changed: usize)
        requires
            operation_pattern(operation@) is None,
        ensures
            final(self)@ == selection_operated(old(self)@, operation@),
            changed == change_count(old(self)@.items, final(self)@.items),
    {
        match self.apply_to_selected(operation) {
            Ok(changed) => changed,
            Err(_) => 0,
        }
    }

    // ----- Individual edits ------------------------------------------------

    /// Sets one item's tags. Empty values are discarded and surrounding
    /// whitespace is removed. Returns whether that changed the tags.
    pub fn set_tags(&mut self, index: usize, tags: &[String]) -> (changed: bool)
        ensures
            index >= old(self)@.items.len() ==> !changed && final(self)@ == old(self)@,
            index < old(self)@.items.len() ==> {
                &&& final(self)@ == item_edited(old(self)@, index as int, all_parsed(texts(tags@)))
                &&& changed == (all_parsed(texts(tags@)) != old(self)@.items[index as int].tags)
            },
    {
        if index >= self.items.len() {
            return false;
        }
        let list = normalize_terms(tags);
        self.commit_item(index, list)
    }

    /// Sets one item's tags from caption text (comma/newline separated).
    pub fn set_tag_text(&mut self, index: usize, text: &str) -> (changed: bool)
        ensures
            index >= old(self)@.items.len() ==> !changed && final(self)@ == old(self)@,
            index < old(self)@.items.len() ==> {
                &&& final(self)@ == item_edited(old(self)@, index as int, parsed(text@))
                &&& changed == (parsed(text@) != old(self)@.items[index as int].tags)
            },
    {
        if index >= self.items.len() {
            return false;
        }
        let list = parse_tags(text);
        self.commit_item(index, list)
    }

    /// Applies caption text updates as one undoable operation. Updates are
    /// applied one after the other; those that name no item are ignored.
    pub fn set_tag_texts(&mut self, updates: &[(usize, String)]) -> (changed: usize)
        ensures
            changed == text_changes(old(self)@.items, update_views(updates@)),
            final(self)@ == texts_edited(old(self)@, update_views(updates@)),
    {
        let ghost all = item_views(self.items@);
        let ghost steps = update_views(updates@);
        let before = TagSnapshot::of(&self.items);
        let mut changed: usize = 0;
        assert(steps.take(0) =~= Seq::empty());
        for j in 0..updates.len()
            invariant
                all == old(self)@.items,
                steps == update_views(updates@),
                self.root == old(self).root,
                self.history == old(self).history,
                item_views(self.items@) == texts_set(all, steps.take(j as int)),
                changed == text_changes(all, steps.take(j as int)),
                changed <= j,
                changed == 0 ==> item_views(self.items@) == all,
        {
            let ghost current = item_views(self.items@);
            let ghost done = steps.take(j as int);
            assert(steps.take(j + 1).drop_last() =~= done);
            assert(steps.take(j + 1).last() == steps[j as int]);
            proof {
                lemma_texts_set_len(all, done);
            }
            let index: usize = updates[j].0;
            if index < self.items.len() {
                let tags = parse_tags(updates[j].1.as_str());
                assert(current[index as int] == self.items@[index as int]@);
                if !same_texts(&self.items[index].tags, &tags) {
                    self.items[index].tags = tags;
                    changed = changed + 1;
                    assert(item_views(self.items@) =~= texts_set(all, steps.take(j + 1)));
                } else {
                    assert(current =~= texts_set(all, steps.take(j + 1)));
                }
            }
        }
        assert(steps.take(updates@.len() as int) =~= steps);
        if changed != 0 {
            self.history.record(before);
        }
        changed
    }

    /// Adds the tags of a caption text to an item. Returns whether there were
    /// any.
    pub fn add_tag(&mut self, index: usize, tag: &str) -> (changed: bool)
        ensures
            changed == (index < old(self)@.items.len() && parsed(tag@).len() > 0),
            final(self)@ == if changed {
                item_edited(
                    old(self)@,
                    index as int,
                    old(self)@.items[index as int].tags + parsed(tag@),
                )
            } else {
                old(self)@
            },
    {
        broadcast use group_texts;

        if index >= self.items.len() {
            return false;
        }
        let additions = parse_tags(tag);
        assert(texts(additions@).len() == additions@.len());
        if additions.len() == 0 {
            return false;
        }
        let list = concatenated(&self.items[index].tags, &additions);
        assert(texts(list@).len() > texts(self.items@[index as int].tags@).len());
        self.commit_item(index, list);
        true
    }

    /// Removes a tag from an item, whatever the case of its letters. Returns
    /// whether the item had it. Where it had not, everything stays as it is, the
    /// history too.
    pub fn remove_tag(&mut self, index: usize, tag: &str) -> (changed: bool)
        ensures
            changed == (index < old(self)@.items.len() && trimmed(tag@).len() > 0 && without(
                old(self)@.items[index as int].tags,
                trimmed(tag@),
            ) != old(self)@.items[index as int].tags),
            final(self)@ == if changed {
                item_edited(
                    old(self)@,
                    index as int,
                    without(old(self)@.items[index as int].tags, trimmed(tag@)),
                )
            } else {
                old(self)@
            },
    {
        if index >= self.items.len() {
            return false;
        }
        let target = trim(tag);
        if target.as_str().is_empty() {
            return false;
        }
        let list = tags_without(&self.items[index].tags, target.as_str());
        let changed = self.commit_item(index, list);
        proof {
            if !changed {
                let items = old(self)@.items;
                assert(retagged(
                    items,
                    Seq::new(
                        items.len(),
                        |i: int|
                            if i == index {
                                texts(list@)
                            } else {
                                items[i].tags
                            },
                    ),
                ) =~= items);
            }
        }
        changed
    }

    /// Removes duplicate tags from an item. Returns whether there were any.
    pub fn deduplicate_item(&mut self, index: usize) -> (changed: bool)
        ensures
            index >= old(self)@.items.len() ==> !changed && final(self)@ == old(self)@,
            index < old(self)@.items.len() ==> {
                let tags = deduplicated(old(self)@.items[index as int].tags);
                &&& final(self)@ == item_edited(old(self)@, index as int, tags)
                &&& changed == (tags != old(self)@.items[index as int].tags)
            },
    {
        if index >= self.items.len() {
            return false;
        }
        let mut tags = copy_strings(&self.items[index].tags);
        deduplicate_tags(&mut tags);
        self.commit_item(index, tags)
    }
}

/// The first `count` entries of a list.
pub open spec fn shortened_list(list: Seq<Seq<char>>, count: nat) -> Seq<Seq<char>> {
    if list.len() > count {
        list.take(count as int)
    } else {
        list
    }
}

/// A dataset after an operation on the selected items.
pub open spec fn selection_operated(data: DatasetView, operation: OperationView) -> DatasetView {
    batch_edited(
        data,
        places(data.items, |item: ItemView| item.selected),
        |tags: Seq<Seq<char>>| operated(operation, tags),
    )
}

/// What the regular expression of an operation is used for.
pub open spec fn operation_use(operation: OperationView) -> PatternUse {
    match operation {
        OperationView::RemoveRegex(_) => PatternUse::Removal,
        _ => PatternUse::Replacement,
    }
}

fn refused_operation(operation: &BatchOperation, reason: String) -> (error: PatternError)
    ensures
        error.purpose == operation_use(operation@),
        operation_pattern(operation@) matches Some(pattern) ==> error.pattern@ == pattern,
        error.reason@ == reason@,
{
    match operation {
        BatchOperation::RemoveRegex(pattern) => PatternError {
            purpose: PatternUse::Removal,
            pattern: pattern.clone(),
            reason,
        },
        BatchOperation::Replace { pattern, replacement: _ } => PatternError {
            purpose: PatternUse::Replacement,
            pattern: pattern.clone(),
            reason,
        },
        _ => PatternError { purpose: PatternUse::Replacement, pattern: String::new(), reason },
    }
}

} // verus!
