//! What the controls of the panels do: the tags of the current item, the
//! filters and the batch edits.

use vstd::prelude::*;

use crate::batch::{every_tag, operation_use, pattern_use_text, shortened_list, PatternError, PatternUse};
use crate::dataset::{
    any_listed, batch_edited, batch_lists, change_count, common_of, gathered, item_edited, retagged,
    DatasetView,
};
use crate::edits::{
    caption_replaced, change_of, common_edited, is_operation, operated, operation_pattern,
    selected_replaced, BatchOperation, OperationView,
};
use crate::editor::{
    first_places, is_stats, items_of, target_places, Batch, Editor, EditorView, FiltersView,
    FormView, ReplaceTarget, Status, StatusView,
};
use crate::filter::FilterMode;
use crate::frequency::{frequencies, sorted_tags};
use crate::order::{lemma_ordered_unique, strictly_ordered};
use crate::pattern::is_pattern;
use crate::tag_picker::{entry_views, tags_of, PickerView};
use crate::tag_set::{ordered_list, TagSet};
use crate::tags::{all_parsed, caption, format_tags};
use crate::text::{
    copy_strings, group_texts, list_has, same_text, split, split_text, texts, trim, trimmed,
    Separators,
};

verus! {

// ----- The tags of the current item ----------------------------------------

/// The tags of a list that are in a set, in their order.
pub open spec fn kept_tags(tags: Seq<Seq<char>>, selected: Set<Seq<char>>) -> Seq<Seq<char>>
    decreases tags.len(),
{
    if tags.len() == 0 {
        Seq::<Seq<char>>::empty()
    } else {
        let rest = kept_tags(tags.drop_last(), selected);
        if selected.contains(tags.last()) {
            rest.push(tags.last())
        } else {
            rest
        }
    }
}

/// A list with those of the known tags at its end that are in a set and not yet
/// in it.
pub open spec fn joined_tags(
    tags: Seq<Seq<char>>,
    known: Seq<Seq<char>>,
    selected: Set<Seq<char>>,
) -> Seq<Seq<char>>
    decreases known.len(),
{
    if known.len() == 0 {
        tags
    } else {
        let rest = joined_tags(tags, known.drop_last(), selected);
        if selected.contains(known.last()) && !rest.contains(known.last()) {
            rest.push(known.last())
        } else {
            rest
        }
    }
}

/// The tags of an item after a selection among the known tags: its own that are
/// selected, in their order, then the others that are selected, in the order of
/// the known tags.
pub open spec fn picked_tags(
    tags: Seq<Seq<char>>,
    known: Seq<Seq<char>>,
    selected: Set<Seq<char>>,
) -> Seq<Seq<char>> {
    joined_tags(kept_tags(tags, selected), known, selected)
}

/// The tags of an item after a selection among the known tags.
pub fn pick_tags(tags: &Vec<String>, known: &[(String, usize)], selected: &TagSet) -> (edited: Vec<
    String,
>)
    ensures
        texts(edited@) == picked_tags(texts(tags@), tags_of(entry_views(known@)), selected@),
{
    broadcast use group_texts;

    let mut edited: Vec<String> = Vec::new();
    let ghost own = texts(tags@);
    let ghost others = tags_of(entry_views(known@));
    assert(texts(edited@) =~= Seq::empty());
    for i in 0..tags.len()
        invariant
            own == texts(tags@),
            texts(edited@) == kept_tags(own.take(i as int), selected@),
    {
        assert(own.take(i + 1).drop_last() =~= own.take(i as int));
        assert(own.take(i + 1).last() == tags@[i as int]@);
        if selected.contains(tags[i].as_str()) {
            edited.push(tags[i].clone());
        }
    }
    assert(own.take(tags@.len() as int) =~= own);
    let ghost kept = texts(edited@);
    assert(others.take(0) =~= Seq::empty());
    for i in 0..known.len()
        invariant
            others == tags_of(entry_views(known@)),
            others.len() == known@.len(),
            texts(edited@) == joined_tags(kept, others.take(i as int), selected@),
    {
        assert(others.take(i + 1).drop_last() =~= others.take(i as int));
        assert(others.take(i + 1).last() == known@[i as int].0@);
        if selected.contains(known[i].0.as_str()) && !list_has(&edited, known[i].0.as_str()) {
            edited.push(known[i].0.clone());
        }
    }
    assert(others.take(known@.len() as int) =~= others);
    edited
}

/// The tags that occur in the dataset, in their order.
pub open spec fn known_tags(editor: EditorView) -> Seq<Seq<char>> {
    ordered_list(
        frequencies(gathered(items_of(editor), first_places(items_of(editor).len()))).dom(),
    )
}

/// The tags of an item, none where there is no such item.
pub open spec fn tags_at(editor: EditorView, index: int) -> Seq<Seq<char>> {
    if index < items_of(editor).len() {
        items_of(editor)[index].tags
    } else {
        Seq::<Seq<char>>::empty()
    }
}

/// The editor after the tags of an item were taken from the picker of the
/// caption panel.
pub open spec fn with_picked(editor: EditorView, index: int) -> EditorView {
    let tags = picked_tags(tags_at(editor, index), known_tags(editor), editor.edit.selected);
    match editor.data {
        Some(data) => EditorView {
            data: Some(
                if index < data.items.len() {
                    item_edited(data, index, all_parsed(tags))
                } else {
                    data
                },
            ),
            caption_for: None,
            ..editor
        },
        None => editor,
    }
}

impl Editor {
    fn tags_of_item(&self, index: usize) -> (tags: Vec<String>)
        ensures
            texts(tags@) == tags_at(self@, index as int),
    {
        match &self.data {
            Some(data) => match data.item(index) {
                Some(item) => {
                    assert(item@ == items_of(self@)[index as int]);
                    copy_strings(&item.tags)
                },
                None => {
                    let none: Vec<String> = Vec::new();
                    assert(texts(none@) =~= Seq::empty());
                    none
                },
            },
            None => {
                let none: Vec<String> = Vec::new();
                assert(texts(none@) =~= Seq::empty());
                none
            },
        }
    }

    /// Selects the tags of the current item in the picker of the caption panel.
    pub fn begin_picking(&mut self)
        ensures
            final(self)@ == match old(self)@.current {
                Some(index) => EditorView {
                    edit: PickerView {
                        selected: tags_at(old(self)@, index as int).to_set(),
                        ..old(self)@.edit
                    },
                    ..old(self)@
                },
                None => old(self)@,
            },
    {
        match self.current {
            Some(index) => {
                let tags = self.tags_of_item(index);
                self.edit_picker.set_selected_tags(&tags);
            },
            None => {},
        }
    }

    /// Gives the current item the tags that are selected in the picker of the
    /// caption panel.
    pub fn finish_picking(&mut self)
        ensures
            final(self)@ == match old(self)@.current {
                Some(index) => with_picked(old(self)@, index as int),
                None => old(self)@,
            },
    {
        match self.current {
            Some(index) => {
                let tags = self.tags_of_item(index);
                let all = self.all_indices();
                let known = self.tag_stats(all.as_slice());
                proof {
                    let counts = frequencies(gathered(items_of(self@), all@));
                    lemma_stats_tags(entry_views(known@), counts);
                }
                let edited = pick_tags(
                    &tags,
                    known.as_slice(),
                    self.edit_picker.selected_tags_ref(),
                );
                match &mut self.data {
                    Some(data) => {
                        data.set_tags(index, edited.as_slice());
                        self.caption_for = None;
                    },
                    None => {},
                }
            },
            None => {},
        }
    }
}

/// A list of the counts of tags names each of them once, in their order.
proof fn lemma_stats_tags(entries: Seq<(Seq<char>, nat)>, counts: Map<Seq<char>, nat>)
    requires
        is_stats(entries, counts),
    ensures
        tags_of(entries) == ordered_list(counts.dom()),
{
    let list = tags_of(entries);
    assert(list.to_set() =~= counts.dom()) by {
        assert forall|tag: Seq<char>| #[trigger]
            list.to_set().contains(tag) <==> counts.dom().contains(tag) by {
            assert(counts.contains_key(tag) <==> list.contains(tag));
        }
    }
    let other = ordered_list(counts.dom());
    assert(strictly_ordered(list) && list.to_set() == counts.dom());
    assert(strictly_ordered(other) && other.to_set() == counts.dom());
    assert forall|tag: Seq<char>| #[trigger] list.contains(tag) <==> other.contains(tag) by {
        assert(list.to_set().contains(tag) <==> other.to_set().contains(tag));
    }
    lemma_ordered_unique(list, other);
}

// ----- Filters -------------------------------------------------------------

impl Editor {
    /// Switches the filter that the panel shows off, or on in a mode.
    pub fn set_filter(&mut self, choice: Option<FilterMode>)
        ensures
            final(self)@ == (EditorView {
                filters: match (old(self)@.filters.shows_positive, choice) {
                    (true, Some(mode)) => FiltersView {
                        positive_enabled: true,
                        mode,
                        ..old(self)@.filters
                    },
                    (true, None) => FiltersView {
                        positive_enabled: false,
                        ..old(self)@.filters
                    },
                    (false, Some(mode)) => FiltersView {
                        negative_enabled: true,
                        negative_mode: mode,
                        ..old(self)@.filters
                    },
                    (false, None) => FiltersView {
                        negative_enabled: false,
                        ..old(self)@.filters
                    },
                },
                ..old(self)@
            }),
    {
        match choice {
            Some(mode) => {
                if self.filters.shows_positive {
                    self.filters.positive_enabled = true;
                    self.filters.mode = mode;
                } else {
                    self.filters.negative_enabled = true;
                    self.filters.negative_mode = mode;
                }
            },
            None => {
                if self.filters.shows_positive {
                    self.filters.positive_enabled = false;
                } else {
                    self.filters.negative_enabled = false;
                }
            },
        }
    }

    /// Switches the positive filter on in a mode.
    pub fn set_positive_mode(&mut self, mode: FilterMode)
        ensures
            final(self)@ == (EditorView {
                filters: FiltersView { positive_enabled: true, mode, ..old(self)@.filters },
                ..old(self)@
            }),
    {
        self.filters.mode = mode;
        self.filters.positive_enabled = true;
    }

    /// Empties the filter that the panel shows.
    pub fn clear_filter(&mut self)
        ensures
            final(self)@ == if old(self)@.filters.shows_positive {
                EditorView {
                    filters: FiltersView { included: Seq::empty(), ..old(self)@.filters },
                    positive: PickerView { selected: Set::empty(), ..old(self)@.positive },
                    ..old(self)@
                }
            } else {
                EditorView {
                    filters: FiltersView { excluded: Seq::empty(), ..old(self)@.filters },
                    negative: PickerView { selected: Set::empty(), ..old(self)@.negative },
                    ..old(self)@
                }
            },
    {
        if self.filters.shows_positive {
            self.positive_picker.clear_selected_tags();
            self.filters.included = String::new();
        } else {
            self.negative_picker.clear_selected_tags();
            self.filters.excluded = String::new();
        }
        assert(self@.filters.included =~= if old(self)@.filters.shows_positive {
            Seq::empty()
        } else {
            old(self)@.filters.included
        });
    }

    /// Empties both filters, and shows items that are not checked again.
    pub fn clear_filters(&mut self)
        ensures
            final(self)@ == (EditorView {
                filters: FiltersView {
                    included: Seq::empty(),
                    excluded: Seq::empty(),
                    checked_only: false,
                    ..old(self)@.filters
                },
                positive: PickerView { selected: Set::empty(), ..old(self)@.positive },
                negative: PickerView { selected: Set::empty(), ..old(self)@.negative },
                ..old(self)@
            }),
    {
        self.positive_picker.clear_selected_tags();
        self.negative_picker.clear_selected_tags();
        self.filters.included = String::new();
        self.filters.excluded = String::new();
        self.filters.checked_only = false;
    }
}

// ----- Batch edits ---------------------------------------------------------

/// The parts of a text between commas, without the white space around them.
/// Blank parts are kept: each stands in the place of a common tag.
pub open spec fn comma_parts(text: Seq<char>) -> Seq<Seq<char>> {
    split(Separators::Commas, text).map_values(|part: Seq<char>| trimmed(part))
}

/// The editor after the common tags were put into their text field, where they
/// are others than those that it was filled with.
pub open spec fn common_refreshed(editor: EditorView) -> EditorView {
    let source = match editor.data {
        Some(data) => caption(common_of(data.items, target_places(editor))),
        None => Seq::<char>::empty(),
    };
    if source == editor.form.common_source {
        editor
    } else {
        EditorView {
            form: FormView { common_source: source, common_edit: source, ..editor.form },
            ..editor
        }
    }
}

/// Whether the batch edit of the form is for tags that the picker has selected.
pub open spec fn needs_selection(form: FormView) -> bool {
    form.batch == Batch::Remove || (form.batch == Batch::Replace && form.replace_target
        == ReplaceTarget::Selected)
}

/// The operation that the form stands for, where it is one on each list of tags
/// alone.
pub open spec fn form_operation(form: FormView) -> Option<OperationView> {
    match form.batch {
        Batch::Append => Some(OperationView::Append(form.first)),
        Batch::Prepend => Some(OperationView::Prepend(form.first)),
        Batch::Dedupe => Some(OperationView::Deduplicate),
        Batch::Replace => if form.replace_target == ReplaceTarget::Each {
            Some(
                if form.regex {
                    OperationView::Replace { pattern: form.first, replacement: form.second }
                } else {
                    OperationView::ReplaceLiteral { from: form.first, to: form.second }
                },
            )
        } else {
            None
        },
        _ => None,
    }
}

/// What is searched for in the selected tags, what it is replaced by, and
/// whether it is a pattern. To remove tags is to replace all of their text.
pub open spec fn selected_search(form: FormView) -> (Seq<char>, Seq<char>, bool) {
    if form.batch == Batch::Remove {
        ("^.*$"@, Seq::<char>::empty(), true)
    } else {
        (form.first, form.second, form.regex)
    }
}

/// The pattern that stops the batch edit of the form, and what it was for.
pub open spec fn batch_refusal(editor: EditorView, data: DatasetView) -> Option<
    (PatternUse, Seq<char>),
> {
    let form = editor.form;
    let any = any_listed(data.items, target_places(editor));
    if needs_selection(form) {
        let (search, replacement, regex) = selected_search(form);
        if any && search.len() > 0 && editor.batch.selected != Set::<Seq<char>>::empty() && regex && !is_pattern(
            search,
        ) {
            Some((PatternUse::SelectedTagReplacement, search))
        } else {
            None
        }
    } else if form.batch == Batch::Replace && form.replace_target == ReplaceTarget::Caption {
        if any && form.first.len() > 0 && form.regex && !is_pattern(form.first) {
            Some((PatternUse::CaptionReplacement, form.first))
        } else {
            None
        }
    } else {
        match form_operation(form) {
            Some(operation) => if is_operation(operation) {
                None
            } else {
                match operation_pattern(operation) {
                    Some(pattern) => Some((operation_use(operation), pattern)),
                    None => None,
                }
            },
            None => None,
        }
    }
}

/// What the batch edit of the form makes of a list of tags.
pub open spec fn batch_edit(
    editor: EditorView,
    data: DatasetView,
    tags: Seq<Seq<char>>,
) -> Seq<Seq<char>> {
    let form = editor.form;
    if needs_selection(form) {
        let (search, replacement, regex) = selected_search(form);
        if search.len() == 0 || editor.batch.selected == Set::<Seq<char>>::empty() {
            tags
        } else {
            selected_replaced(
                tags,
                ordered_list(editor.batch.selected),
                change_of(search, replacement, regex),
            )
        }
    } else {
        match form.batch {
            Batch::Common => common_edited(
                tags,
                common_of(data.items, target_places(editor)),
                comma_parts(form.common_edit),
                form.common_prepend,
            ),
            Batch::Sort => sorted_tags(
                frequencies(every_tag(data.items)),
                form.sort_key,
                form.sort_direction,
                tags,
            ),
            Batch::Truncate => shortened_list(tags, editor.settings.truncate_count as nat),
            _ => match form_operation(form) {
                Some(operation) => operated(operation, tags),
                None => if form.first.len() == 0 {
                    tags
                } else {
                    caption_replaced(tags, change_of(form.first, form.second, form.regex))
                },
            },
        }
    }
}

/// The editor after the batch edit of its form.
pub open spec fn batch_run(editor: EditorView) -> EditorView {
    match editor.data {
        Some(data) => match batch_refusal(editor, data) {
            Some((purpose, pattern)) => EditorView {
                status: StatusView::Failure(pattern_use_text(purpose) + pattern),
                ..editor
            },
            None => {
                let after = batch_edited(
                    data,
                    target_places(editor),
                    |tags: Seq<Seq<char>>| batch_edit(editor, data, tags),
                );
                EditorView {
                    data: Some(after),
                    status: StatusView::Done(change_count(data.items, after.items) as usize),
                    caption_for: None,
                    form: FormView { common_source: Seq::empty(), ..editor.form },
                    ..editor
                }
            },
        },
        None => EditorView {
            status: StatusView::Done(0),
            caption_for: None,
            form: FormView { common_source: Seq::empty(), ..editor.form },
            ..editor
        },
    }
}

/// Edits that agree on every list of tags make the same of a dataset.
proof fn lemma_same_edit(
    data: DatasetView,
    indices: Seq<usize>,
    one: spec_fn(Seq<Seq<char>>) -> Seq<Seq<char>>,
    other: spec_fn(Seq<Seq<char>>) -> Seq<Seq<char>>,
)
    requires
        forall|tags: Seq<Seq<char>>| #[trigger] one(tags) == other(tags),
    ensures
        batch_edited(data, indices, one) == batch_edited(data, indices, other),
{
    assert(batch_lists(data.items, indices, one) =~= batch_lists(data.items, indices, other));
}

/// An edit that keeps every list of tags keeps the dataset.
proof fn lemma_no_edit(
    data: DatasetView,
    indices: Seq<usize>,
    edit: spec_fn(Seq<Seq<char>>) -> Seq<Seq<char>>,
)
    requires
        forall|tags: Seq<Seq<char>>| #[trigger] edit(tags) == tags,
    ensures
        batch_edited(data, indices, edit) == data,
{
    let lists = batch_lists(data.items, indices, edit);
    assert(retagged(data.items, lists) =~= data.items);
}

fn split_at_commas(text: &str) -> (parts: Vec<String>)
    ensures
        texts(parts@) == comma_parts(text@),
{
    broadcast use group_texts;

    let raw = split_text(text, Separators::Commas);
    let ghost all = texts(raw@);
    let mut parts: Vec<String> = Vec::new();
    assert(texts(parts@) =~= Seq::empty());
    for i in 0..raw.len()
        invariant
            all == texts(raw@),
            all == split(Separators::Commas, text@),
            texts(parts@) == all.take(i as int).map_values(|part: Seq<char>| trimmed(part)),
    {
        let ghost before = parts@;
        parts.push(trim(raw[i].as_str()));
        assert(texts(parts@) == texts(before).push(trimmed(all[i as int])));
        assert(texts(parts@) =~= all.take(i + 1).map_values(|part: Seq<char>| trimmed(part)));
    }
    assert(all.take(raw@.len() as int) =~= all);
    parts
}

impl Editor {
    /// Puts the common tags into their text field, where they are others than
    /// those that it was filled with.
    pub fn refresh_common(&mut self)
        ensures
            final(self)@ == common_refreshed(old(self)@),
    {
        let indices = self.batch_indices();
        let source = match &self.data {
            Some(data) => {
                let common = data.common_tags(indices.as_slice());
                format_tags(&common)
            },
            None => String::new(),
        };
        if !same_text(source.as_str(), self.form.common_source.as_str()) {
            self.form.common_edit = source.clone();
            self.form.common_source = source;
        }
        assert(self@ =~= common_refreshed(old(self)@));
    }

    fn wants_selection(&self) -> (yes: bool)
        ensures
            yes == needs_selection(self@.form),
    {
        match self.form.batch {
            Batch::Remove => true,
            Batch::Replace => self.form.replace_target == ReplaceTarget::Selected,
            _ => false,
        }
    }

    /// Whether the batch edit of the form can be run: it is for some item, and
    /// a tag is selected where it needs one.
    pub fn can_run_batch(&self) -> (yes: bool)
        ensures
            yes == (target_places(self@).len() > 0 && (needs_selection(self@.form)
                ==> self@.batch.selected != Set::<Seq<char>>::empty())),
    {
        let indices = self.batch_indices();
        indices.len() > 0 && (!self.wants_selection()
            || !self.batch_picker.selected_tags_ref().is_empty())
    }

    fn operation(&self) -> (operation: Option<BatchOperation>)
        ensures
            match operation {
                Some(operation) => form_operation(self@.form) == Some(operation@),
                None => form_operation(self@.form) is None,
            },
    {
        match self.form.batch {
            Batch::Append => Some(BatchOperation::Append(self.form.first.clone())),
            Batch::Prepend => Some(BatchOperation::Prepend(self.form.first.clone())),
            Batch::Dedupe => Some(BatchOperation::Deduplicate),
            Batch::Replace => {
                if self.form.replace_target != ReplaceTarget::Each {
                    None
                } else if self.form.regex {
                    Some(
                        BatchOperation::Replace {
                            pattern: self.form.first.clone(),
                            replacement: self.form.second.clone(),
                        },
                    )
                } else {
                    Some(
                        BatchOperation::ReplaceLiteral {
                            from: self.form.first.clone(),
                            to: self.form.second.clone(),
                        },
                    )
                }
            },
            _ => None,
        }
    }

    fn run_on(&mut self, indices: &[usize]) -> (result: Result<usize, PatternError>)
        requires
            old(self)@.data is Some,
            indices@ == target_places(old(self)@),
        ensures
            match (result, batch_refusal(old(self)@, old(self)@.data.unwrap())) {
                (Ok(changed), None) => {
                    let data = old(self)@.data.unwrap();
                    let after = batch_edited(
                        data,
                        indices@,
                        |tags: Seq<Seq<char>>| batch_edit(old(self)@, data, tags),
                    );
                    &&& final(self)@ == (EditorView { data: Some(after), ..old(self)@ })
                    &&& changed == change_count(data.items, after.items)
                },
                (Err(error), Some((purpose, pattern))) => {
                    &&& final(self)@ == old(self)@
                    &&& error.refuses(purpose, pattern)
                },
                _ => false,
            },
    {
        let ghost editor = self@;
        let ghost data_before = editor.data.unwrap();
        let ghost edit = |tags: Seq<Seq<char>>| batch_edit(editor, data_before, tags);
        let operation = self.operation();
        let wants_selection = self.wants_selection();
        let removes = self.form.batch == Batch::Remove;
        match &mut self.data {
            Some(data) => {
                if wants_selection {
                    let selected = self.batch_picker.selected_tags_ref().list();
                    proof {
                        let set = editor.batch.selected;
                        if texts(selected@).len() == 0 {
                            assert(set =~= Set::<Seq<char>>::empty());
                        } else {
                            assert(texts(selected@).to_set().contains(texts(selected@)[0]));
                        }
                    }
                    let (search, replacement, regex) = if removes {
                        ("^.*$", "", true)
                    } else {
                        (
                            self.form.first.as_str(),
                            self.form.second.as_str(),
                            self.form.regex,
                        )
                    };
                    proof {
                        reveal_strlit("");
                        assert(""@ =~= Seq::empty());
                        let change = change_of(search@, replacement@, regex);
                        let list = texts(selected@);
                        if search@.len() == 0 || list.len() == 0 {
                            lemma_no_edit(data_before, indices@, edit);
                        } else {
                            let one = |tags: Seq<Seq<char>>| selected_replaced(tags, list, change);
                            lemma_same_edit(data_before, indices@, one, edit);
                        }
                    }
                    data.replace_selected_tags(indices, selected, search, replacement, regex)
                } else {
                    match self.form.batch {
                        Batch::Common => {
                            let edited = split_at_commas(self.form.common_edit.as_str());
                            proof {
                                let common = common_of(data_before.items, indices@);
                                let list = texts(edited@);
                                let first = editor.form.common_prepend;
                                let one = |tags: Seq<Seq<char>>|
                                    common_edited(tags, common, list, first);
                                lemma_same_edit(data_before, indices@, one, edit);
                            }
                            Ok(
                                data.replace_common_tags(
                                    indices,
                                    edited.as_slice(),
                                    self.form.common_prepend,
                                ),
                            )
                        },
                        Batch::Sort => {
                            proof {
                                let counts = frequencies(every_tag(data_before.items));
                                let key = editor.form.sort_key;
                                let direction = editor.form.sort_direction;
                                let one = |tags: Seq<Seq<char>>|
                                    sorted_tags(counts, key, direction, tags);
                                lemma_same_edit(data_before, indices@, one, edit);
                            }
                            Ok(
                                data.sort_tags_in_items(
                                    indices,
                                    self.form.sort_key,
                                    self.form.sort_direction,
                                ),
                            )
                        },
                        Batch::Truncate => {
                            proof {
                                let count = editor.settings.truncate_count as nat;
                                let one = |tags: Seq<Seq<char>>| shortened_list(tags, count);
                                lemma_same_edit(data_before, indices@, one, edit);
                            }
                            Ok(data.truncate_tags(indices, self.settings.truncate_count))
                        },
                        _ => match operation {
                            Some(operation) => {
                                proof {
                                    let one = |tags: Seq<Seq<char>>| operated(operation@, tags);
                                    lemma_same_edit(data_before, indices@, one, edit);
                                }
                                data.apply_operation(indices, &operation)
                            },
                            None => {
                                let search = self.form.first.as_str();
                                let replacement = self.form.second.as_str();
                                let regex = self.form.regex;
                                proof {
                                    let change = change_of(search@, replacement@, regex);
                                    if search@.len() == 0 {
                                        lemma_no_edit(data_before, indices@, edit);
                                    } else {
                                        let one = |tags: Seq<Seq<char>>|
                                            caption_replaced(tags, change);
                                        lemma_same_edit(data_before, indices@, one, edit);
                                    }
                                }
                                data.replace_caption(indices, search, replacement, regex)
                            },
                        },
                    }
                }
            },
            None => Ok(0),
        }
    }

    /// Runs the batch edit of the form on the items that it is for. Where a
    /// pattern is refused, nothing is edited, and the status line says why.
    pub fn run_batch(&mut self)
        ensures
            final(self)@ == batch_run(old(self)@),
    {
        let indices = self.batch_indices();
        let result = if self.data.is_some() {
            self.run_on(indices.as_slice())
        } else {
            Ok(0)
        };
        match result {
            Ok(changed) => {
                self.status = Status::Done(changed);
                self.caption_for = None;
                self.form.common_source = String::new();
                assert(self.form.common_source@ =~= Seq::empty());
            },
            Err(error) => {
                self.status = Status::Failure(error.message());
            },
        }
    }
}

} // verus!
