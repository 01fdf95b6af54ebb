//! The tag picker: search, sort and select a list of tags.
//!
//! The picker keeps the data model separate from the dataset. A caller supplies
//! tags with their frequencies for the current image selection, and can then
//! use [`TagPicker::selected_tags`] as input to a batch operation or an image
//! filter.

use vstd::prelude::*;

use crate::order::{
    arrange, arranged, arrangement, is_arrangement, lemma_arranged_multiset,
    lemma_arrangement_exists, lemma_arrangement_permutes, rank_views, Rank, RankView,
};
use crate::pattern::{compile, finds, is_pattern, matched, pattern_of, refusal};
use crate::tag_set::TagSet;
use crate::tags::lemma_contains_push;
use crate::text::{
    begins_with, chars_of, contains, ends_with, finishes_with, group_texts, includes, starts_with,
    texts,
};

verus! {

/// Ordering used by [`TagPicker`].
#[derive(Clone, Copy, Debug, Default, PartialEq, Eq, Structural)]
pub enum TagSort {
    /// Sort by the tag text, case-insensitively.
    #[default]
    Alpha,
    /// Sort by the number of captions containing the tag.
    Frequency,
    /// Sort by the number of Unicode scalar values in the tag.
    Length,
}

/// A name that reads naturally at call sites that use a generic "sort mode"
/// setting.
pub type SortMode = TagSort;

/// A name that reads naturally for a key to sort by.
pub type SortBy = TagSort;

/// What one frame of the picker did.
#[derive(Debug)]
pub struct TagPickerResponse {
    /// True when the selected set changed during this frame.
    pub changed: bool,
    /// The tag whose chip was clicked during this frame, if any.
    pub clicked: Option<String>,
    /// Number of tags currently matching the controls.
    pub visible_count: usize,
}

/// What was clicked during one frame of the picker.
#[derive(Debug)]
pub struct PickerInput {
    /// The button that selects the visible tags.
    pub select_visible: bool,
    /// The button that clears the visible tags.
    pub clear_visible: bool,
    /// The chip of a tag.
    pub clicked: Option<String>,
}

/// Search, sort, and select a list of tags.
///
/// `prefix` and `suffix` are booleans: when either is enabled the query is
/// matched at that edge. If both are enabled one of them is enough.
#[derive(Debug)]
pub struct TagPicker {
    query: String,
    prefix: bool,
    suffix: bool,
    regex: bool,
    sort: TagSort,
    descending: bool,
    selected: TagSet,
}

/// The controls and the selection of a picker.
#[verifier::ext_equal]
pub struct PickerView {
    pub query: Seq<char>,
    pub prefix: bool,
    pub suffix: bool,
    pub regex: bool,
    pub sort: TagSort,
    pub descending: bool,
    pub selected: Set<Seq<char>>,
}

impl View for TagPicker {
    type V = PickerView;

    closed spec fn view(&self) -> PickerView {
        PickerView {
            query: self.query@,
            prefix: self.prefix,
            suffix: self.suffix,
            regex: self.regex,
            sort: self.sort,
            descending: self.descending,
            selected: self.selected@,
        }
    }
}

// ----- Matching ------------------------------------------------------------

/// The pattern that matches `query` at the start of a text.
pub open spec fn start_pattern(query: Seq<char>) -> Seq<char> {
    seq!['^', '(', '?', ':'] + query + seq![')']
}

/// The pattern that matches `query` at the end of a text.
pub open spec fn end_pattern(query: Seq<char>) -> Seq<char> {
    seq!['(', '?', ':'] + query + seq![')', '$']
}

/// Whether a pattern matches a text. One that is no regular expression matches
/// every text.
pub open spec fn lenient_match(pattern: Seq<char>, text: Seq<char>) -> bool {
    is_pattern(pattern) ==> matched(pattern, text)
}

/// Whether the controls of a picker show a tag. A malformed expression must not
/// hide every tag while the user is fixing it.
pub open spec fn shows(picker: PickerView, tag: Seq<char>) -> bool {
    let query = picker.query;
    let anywhere = !picker.prefix && !picker.suffix;
    if query.len() == 0 {
        true
    } else if picker.regex {
        !is_pattern(query) || (picker.prefix && lenient_match(start_pattern(query), tag)) || (
        picker.suffix && lenient_match(end_pattern(query), tag)) || (anywhere && matched(query, tag))
    } else {
        (picker.prefix && begins_with(tag, query)) || (picker.suffix && finishes_with(tag, query))
            || (anywhere && includes(tag, query))
    }
}

/// The controls of a picker with their patterns compiled.
enum Matcher {
    /// Every tag is shown.
    All,
    /// The query is looked for as it is.
    Plain,
    /// The query is a regular expression. A pattern that does not compile is
    /// missing.
    Patterns {
        anywhere: regex::Regex,
        start: Option<regex::Regex>,
        end: Option<regex::Regex>,
    },
}

spec fn compiles_to(pattern: Seq<char>, compiled: Option<regex::Regex>) -> bool {
    match compiled {
        Some(expression) => is_pattern(pattern) && pattern_of(expression) == pattern,
        None => !is_pattern(pattern),
    }
}

impl Matcher {
    spec fn serves(&self, picker: PickerView) -> bool {
        match *self {
            Matcher::All => picker.query.len() == 0 || (picker.regex && !is_pattern(picker.query)),
            Matcher::Plain => picker.query.len() > 0 && !picker.regex,
            Matcher::Patterns { anywhere, start, end } => {
                &&& picker.query.len() > 0
                &&& picker.regex
                &&& is_pattern(picker.query)
                &&& pattern_of(anywhere) == picker.query
                &&& compiles_to(start_pattern(picker.query), start)
                &&& compiles_to(end_pattern(picker.query), end)
            },
        }
    }
}

fn compile_if_valid(pattern: &str) -> (compiled: Option<regex::Regex>)
    ensures
        compiles_to(pattern@, compiled),
{
    match compile(pattern) {
        Ok(expression) => Some(expression),
        Err(_) => None,
    }
}

fn matches_or_missing(compiled: &Option<regex::Regex>, text: &str, Ghost(pattern): Ghost<
    Seq<char>,
>) -> (yes: bool)
    requires
        compiles_to(pattern, *compiled),
    ensures
        yes == lenient_match(pattern, text@),
{
    match compiled {
        Some(expression) => finds(expression, text),
        None => true,
    }
}

// ----- Sorting -------------------------------------------------------------

/// A text in lower case, as `str::to_lowercase` of the standard library gives
/// it.
pub uninterp spec fn lowercase(text: Seq<char>) -> Seq<char>;

/// `str::to_lowercase` of the standard library: a function of the text.
#[verifier::external_body]
fn to_lowercase(text: &str) -> (result: String)
    ensures
        result@ == lowercase(text@),
{
    text.to_lowercase()
}

/// A tag and its frequency.
pub open spec fn entry_view(entry: (String, usize)) -> (Seq<char>, nat) {
    (entry.0@, entry.1 as nat)
}

/// The tags of a list and their frequencies.
pub open spec fn entry_views(entries: Seq<(String, usize)>) -> Seq<(Seq<char>, nat)> {
    entries.map_values(|entry: (String, usize)| entry_view(entry))
}

/// The entries that the controls of a picker show.
pub open spec fn shown(picker: PickerView, entries: Seq<(Seq<char>, nat)>) -> Seq<
    (Seq<char>, nat),
>
    decreases entries.len(),
{
    if entries.len() == 0 {
        Seq::<(Seq<char>, nat)>::empty()
    } else {
        let rest = shown(picker, entries.drop_last());
        if shows(picker, entries.last().0) {
            rest.push(entries.last())
        } else {
            rest
        }
    }
}

/// What an entry is sorted by: the key, then the tag in lower case, then the
/// tag.
pub open spec fn entry_rank(sort: TagSort, entry: (Seq<char>, nat)) -> RankView {
    RankView {
        number: match sort {
            TagSort::Alpha => 0,
            TagSort::Frequency => entry.1 as int,
            TagSort::Length => entry.0.len() as int,
        },
        first: lowercase(entry.0),
        second: entry.0,
    }
}

/// The ranks of a list of entries.
pub open spec fn entry_ranks(sort: TagSort, entries: Seq<(Seq<char>, nat)>) -> Seq<RankView> {
    Seq::new(entries.len(), |i: int| entry_rank(sort, entries[i]))
}

/// The entries that a picker shows, in the order in which it shows them.
pub open spec fn visible(picker: PickerView, entries: Seq<(Seq<char>, nat)>) -> Seq<
    (Seq<char>, nat),
> {
    let kept = shown(picker, entries);
    arranged(kept, arrangement(entry_ranks(picker.sort, kept), picker.descending))
}

/// The tags of a list of entries.
pub open spec fn tags_of(entries: Seq<(Seq<char>, nat)>) -> Seq<Seq<char>> {
    Seq::new(entries.len(), |i: int| entries[i].0)
}

/// The selection after one frame: first the visible tags are selected, then
/// they are cleared, then the tag that was clicked changes sides.
pub open spec fn selection_after(
    selected: Set<Seq<char>>,
    visible_tags: Set<Seq<char>>,
    select_visible: bool,
    clear_visible: bool,
    clicked: Option<Seq<char>>,
) -> Set<Seq<char>> {
    let first = if select_visible {
        selected.union(visible_tags)
    } else {
        selected
    };
    let second = if clear_visible {
        first.difference(visible_tags)
    } else {
        first
    };
    match clicked {
        Some(tag) => if second.contains(tag) {
            second.remove(tag)
        } else {
            second.insert(tag)
        },
        None => second,
    }
}

/// Whether one frame counts as a change of the selection.
pub open spec fn selection_changes(
    selected: Set<Seq<char>>,
    visible_tags: Set<Seq<char>>,
    select_visible: bool,
    clear_visible: bool,
    clicked: Option<Seq<char>>,
) -> bool {
    let first = if select_visible {
        selected.union(visible_tags)
    } else {
        selected
    };
    ||| first != selected
    ||| clear_visible && first.difference(visible_tags) != first
    ||| clicked is Some
}

impl Default for TagPicker {
    fn default() -> (picker: TagPicker)
        ensures
            picker@ == (PickerView {
                query: Seq::empty(),
                prefix: false,
                suffix: false,
                regex: false,
                sort: TagSort::Alpha,
                descending: false,
                selected: Set::empty(),
            }),
    {
        let picker = TagPicker {
            query: String::new(),
            prefix: false,
            suffix: false,
            regex: false,
            sort: TagSort::Alpha,
            descending: false,
            selected: TagSet::new(),
        };
        assert(picker@.query =~= Seq::empty());
        picker
    }
}

impl TagPicker {
    /// Construct a picker with the default alpha/ascending ordering.
    pub fn new() -> (picker: TagPicker)
        ensures
            picker@ == (PickerView {
                query: Seq::empty(),
                prefix: false,
                suffix: false,
                regex: false,
                sort: TagSort::Alpha,
                descending: false,
                selected: Set::empty(),
            }),
    {
        TagPicker::default()
    }

    /// Current search expression.
    pub fn query(&self) -> (query: &str)
        ensures
            query@ == self@.query,
    {
        self.query.as_str()
    }

    /// Replace the search expression.
    pub fn set_query(&mut self, query: &str)
        ensures
            final(self)@ == (PickerView { query: query@, ..old(self)@ }),
    {
        self.query = query.to_owned();
    }

    /// Whether the query is matched at the start of tags.
    pub fn prefix(&self) -> (enabled: bool)
        ensures
            enabled == self@.prefix,
    {
        self.prefix
    }

    /// Match the query at the start of tags or not.
    pub fn set_prefix(&mut self, enabled: bool)
        ensures
            final(self)@ == (PickerView { prefix: enabled, ..old(self)@ }),
    {
        self.prefix = enabled;
    }

    /// Whether the query is matched at the end of tags.
    pub fn suffix(&self) -> (enabled: bool)
        ensures
            enabled == self@.suffix,
    {
        self.suffix
    }

    /// Match the query at the end of tags or not.
    pub fn set_suffix(&mut self, enabled: bool)
        ensures
            final(self)@ == (PickerView { suffix: enabled, ..old(self)@ }),
    {
        self.suffix = enabled;
    }

    /// Whether the query is a regular expression.
    pub fn regex(&self) -> (enabled: bool)
        ensures
            enabled == self@.regex,
    {
        self.regex
    }

    /// Take the query as a regular expression or not.
    pub fn set_regex(&mut self, enabled: bool)
        ensures
            final(self)@ == (PickerView { regex: enabled, ..old(self)@ }),
    {
        self.regex = enabled;
    }

    /// Whether the current query is a valid regular expression.
    pub fn regex_valid(&self) -> (valid: bool)
        ensures
            valid == is_pattern(self@.query),
    {
        self.regex_error_message().is_none()
    }

    /// Return the parser error for the current query, if it is invalid.
    pub fn regex_error_message(&self) -> (message: Option<String>)
        ensures
            match message {
                Some(message) => refusal(self@.query) == Some(message@),
                None => is_pattern(self@.query),
            },
    {
        match compile(self.query.as_str()) {
            Ok(_) => None,
            Err(message) => Some(message),
        }
    }

    /// The key to sort by.
    pub fn sort(&self) -> (sort: TagSort)
        ensures
            sort == self@.sort,
    {
        self.sort
    }

    /// Choose the key to sort by.
    pub fn set_sort(&mut self, sort: TagSort)
        ensures
            final(self)@ == (PickerView { sort, ..old(self)@ }),
    {
        self.sort = sort;
    }

    /// Whether the order is descending.
    pub fn descending(&self) -> (descending: bool)
        ensures
            descending == self@.descending,
    {
        self.descending
    }

    /// Choose whether the order is descending.
    pub fn set_descending(&mut self, descending: bool)
        ensures
            final(self)@ == (PickerView { descending, ..old(self)@ }),
    {
        self.descending = descending;
    }

    /// Return a copy so callers cannot mutate picker state without going
    /// through the selection methods.
    pub fn selected_tags(&self) -> (tags: TagSet)
        ensures
            tags@ == self@.selected,
    {
        self.selected.copy()
    }

    /// Borrow the current selection without allocating.
    pub fn selected_tags_ref(&self) -> (tags: &TagSet)
        ensures
            tags@ == self@.selected,
    {
        &self.selected
    }

    /// Replace the current selection.
    pub fn set_selected_tags(&mut self, tags: &Vec<String>)
        ensures
            final(self)@ == (PickerView { selected: texts(tags@).to_set(), ..old(self)@ }),
    {
        self.selected = TagSet::of(tags);
    }

    /// Remove all selected tags.
    pub fn clear_selected_tags(&mut self)
        ensures
            final(self)@ == (PickerView { selected: Set::empty(), ..old(self)@ }),
    {
        self.selected = TagSet::new();
    }

    fn matcher(&self) -> (matcher: Matcher)
        ensures
            matcher.serves(self@),
    {
        let query = self.query.as_str();
        if query.is_empty() {
            return Matcher::All;
        }
        if !self.regex {
            return Matcher::Plain;
        }
        match compile(query) {
            Ok(anywhere) => {
                proof {
                    reveal_strlit("^(?:");
                    reveal_strlit("(?:");
                    reveal_strlit(")");
                    reveal_strlit(")$");
                }
                let mut start_text = "^(?:".to_owned();
                start_text.append(query);
                start_text.append(")");
                assert(start_text@ =~= start_pattern(query@));
                let mut end_text = "(?:".to_owned();
                end_text.append(query);
                end_text.append(")$");
                assert(end_text@ =~= end_pattern(query@));
                Matcher::Patterns {
                    anywhere,
                    start: compile_if_valid(start_text.as_str()),
                    end: compile_if_valid(end_text.as_str()),
                }
            },
            Err(_) => Matcher::All,
        }
    }

    fn matches(&self, matcher: &Matcher, tag: &str) -> (yes: bool)
        requires
            matcher.serves(self@),
        ensures
            yes == shows(self@, tag@),
    {
        let query = self.query.as_str();
        let anywhere_counts = !self.prefix && !self.suffix;
        match matcher {
            Matcher::All => true,
            Matcher::Plain => (self.prefix && starts_with(tag, query)) || (self.suffix && ends_with(
                tag,
                query,
            )) || (anywhere_counts && contains(tag, query)),
            Matcher::Patterns { anywhere, start, end } => (self.prefix && matches_or_missing(
                start,
                tag,
                Ghost(start_pattern(self@.query)),
            )) || (self.suffix && matches_or_missing(
                end,
                tag,
                Ghost(end_pattern(self@.query)),
            )) || (anywhere_counts && finds(anywhere, tag)),
        }
    }

    /// Return sorted, filtered tags with their frequencies for the supplied
    /// data.
    pub fn visible_entries(&self, tags: &[(String, usize)]) -> (entries: Vec<(String, usize)>)
        ensures
            entry_views(entries@) == visible(self@, entry_views(tags@)),
    {
        let ghost all = entry_views(tags@);
        let matcher = self.matcher();
        let mut kept: Vec<usize> = Vec::new();
        let mut ranks: Vec<Rank> = Vec::new();
        for i in 0..tags.len()
            invariant
                matcher.serves(self@),
                all == entry_views(tags@),
                forall|k: int| 0 <= k < kept@.len() ==> #[trigger] kept@[k] < i,
                shown(self@, all.take(i as int)) == Seq::new(
                    kept@.len(),
                    |k: int| all[kept@[k] as int],
                ),
                rank_views(ranks@) == entry_ranks(self@.sort, shown(self@, all.take(i as int))),
        {
            let ghost ranked = ranks@;
            assert(all.take(i + 1).drop_last() =~= all.take(i as int));
            assert(all.take(i + 1).last() == all[i as int]);
            let entry = &tags[i];
            assert(entry_view(*entry) == all[i as int]);
            if self.matches(&matcher, entry.0.as_str()) {
                kept.push(i);
                let lower = to_lowercase(entry.0.as_str());
                let chars = chars_of(entry.0.as_str());
                let number: i128 = match self.sort {
                    TagSort::Alpha => 0,
                    TagSort::Frequency => entry.1 as i128,
                    TagSort::Length => chars.len() as i128,
                };
                let rank = Rank { number, first: chars_of(lower.as_str()), second: chars };
                assert(rank@ == entry_rank(self@.sort, all[i as int]));
                ranks.push(rank);
                assert(shown(self@, all.take(i + 1)) =~= Seq::new(
                    kept@.len(),
                    |k: int| all[kept@[k] as int],
                ));
                assert(rank_views(ranks@) =~= rank_views(ranked).push(rank@));
                assert(rank_views(ranks@) =~= entry_ranks(
                    self@.sort,
                    shown(self@, all.take(i + 1)),
                ));
            }
        }
        assert(all.take(tags@.len() as int) =~= all);
        let ghost found = shown(self@, all);
        let order = arrange(&ranks, self.descending);
        let mut entries: Vec<(String, usize)> = Vec::new();
        let ghost target = visible(self@, all);
        for i in 0..order.len()
            invariant
                all == entry_views(tags@),
                is_arrangement(order@, entry_ranks(self@.sort, found), self@.descending),
                found == Seq::new(kept@.len(), |k: int| all[kept@[k] as int]),
                forall|k: int| 0 <= k < kept@.len() ==> #[trigger] kept@[k] < tags@.len(),
                target == arranged(found, order@),
                entry_views(entries@) == target.take(i as int),
        {
            let ghost before = entries@;
            assert(order@.contains(order@[i as int]));
            let entry = &tags[kept[order[i]]];
            let copy = (entry.0.clone(), entry.1);
            assert(entry_view(copy) == target[i as int]);
            entries.push(copy);
            assert(entry_views(entries@) =~= entry_views(before).push(entry_view(copy)));
            assert(entry_views(entries@) =~= target.take(i + 1));
        }
        assert(target.take(order@.len() as int) =~= target);
        entries
    }

    /// Return only the tag text for the current filtered/sorted view.
    pub fn filtered_visible_tags(&self, tags: &[(String, usize)]) -> (list: Vec<String>)
        ensures
            texts(list@) == tags_of(visible(self@, entry_views(tags@))),
    {
        broadcast use group_texts;

        let entries = self.visible_entries(tags);
        let ghost target = tags_of(entry_views(entries@));
        let mut list: Vec<String> = Vec::new();
        for i in 0..entries.len()
            invariant
                target == tags_of(entry_views(entries@)),
                texts(list@) == target.take(i as int),
        {
            let ghost before = list@;
            list.push(entries[i].0.clone());
            assert(texts(list@) == texts(before).push(target[i as int]));
            assert(texts(list@) =~= target.take(i + 1));
        }
        assert(target.take(entries@.len() as int) =~= target);
        list
    }

    /// Short name for [`TagPicker::filtered_visible_tags`].
    pub fn visible_tags(&self, tags: &[(String, usize)]) -> (list: Vec<String>)
        ensures
            texts(list@) == tags_of(visible(self@, entry_views(tags@))),
    {
        self.filtered_visible_tags(tags)
    }

    /// Select every tag in the current filtered view. Returns whether that
    /// changed the selection.
    pub fn select_visible(&mut self, tags: &[(String, usize)]) -> (changed: bool)
        ensures
            ({
                let seen = tags_of(visible(old(self)@, entry_views(tags@))).to_set();
                &&& final(self)@ == (PickerView {
                    selected: old(self)@.selected.union(seen),
                    ..old(self)@
                })
                &&& changed == (final(self)@.selected != old(self)@.selected)
            }),
    {
        let entries = self.visible_entries(tags);
        self.select_entries(entries.as_slice())
    }

    /// Clear every tag in the current filtered view. Returns whether that
    /// changed the selection.
    pub fn clear_visible(&mut self, tags: &[(String, usize)]) -> (changed: bool)
        ensures
            ({
                let seen = tags_of(visible(old(self)@, entry_views(tags@))).to_set();
                &&& final(self)@ == (PickerView {
                    selected: old(self)@.selected.difference(seen),
                    ..old(self)@
                })
                &&& changed == (final(self)@.selected != old(self)@.selected)
            }),
    {
        let entries = self.visible_entries(tags);
        self.clear_entries(entries.as_slice())
    }

    fn select_entries(&mut self, entries: &[(String, usize)]) -> (changed: bool)
        ensures
            ({
                let seen = tags_of(entry_views(entries@)).to_set();
                &&& final(self)@ == (PickerView {
                    selected: old(self)@.selected.union(seen),
                    ..old(self)@
                })
                &&& changed == (final(self)@.selected != old(self)@.selected)
            }),
    {
        let ghost seen = tags_of(entry_views(entries@));
        let ghost start = self@.selected;
        let mut changed = false;
        assert(start.union(seen.take(0).to_set()) =~= start);
        for i in 0..entries.len()
            invariant
                seen == tags_of(entry_views(entries@)),
                self@ == (PickerView { selected: self@.selected, ..old(self)@ }),
                self@.selected == start.union(seen.take(i as int).to_set()),
                changed == (self@.selected != start),
        {
            let ghost before = self@.selected;
            proof {
                lemma_set_of_next(seen, i as int);
            }
            let tag = entries[i].0.as_str();
            assert(tag@ == seen[i as int]);
            if self.selected.insert(tag) {
                changed = true;
                assert(self@.selected.contains(tag@) && !start.contains(tag@));
            } else {
                assert(self@.selected =~= before);
            }
            assert(self@.selected =~= start.union(seen.take(i + 1).to_set()));
        }
        assert(seen.take(entries@.len() as int) =~= seen);
        changed
    }

    fn clear_entries(&mut self, entries: &[(String, usize)]) -> (changed: bool)
        ensures
            ({
                let seen = tags_of(entry_views(entries@)).to_set();
                &&& final(self)@ == (PickerView {
                    selected: old(self)@.selected.difference(seen),
                    ..old(self)@
                })
                &&& changed == (final(self)@.selected != old(self)@.selected)
            }),
    {
        let ghost seen = tags_of(entry_views(entries@));
        let ghost start = self@.selected;
        let mut changed = false;
        assert(start.difference(seen.take(0).to_set()) =~= start);
        for i in 0..entries.len()
            invariant
                seen == tags_of(entry_views(entries@)),
                self@ == (PickerView { selected: self@.selected, ..old(self)@ }),
                self@.selected == start.difference(seen.take(i as int).to_set()),
                changed == (self@.selected != start),
        {
            let ghost before = self@.selected;
            proof {
                lemma_set_of_next(seen, i as int);
            }
            let tag = entries[i].0.as_str();
            assert(tag@ == seen[i as int]);
            if self.selected.remove(tag) {
                changed = true;
                assert(!self@.selected.contains(tag@) && start.contains(tag@));
            } else {
                assert(self@.selected =~= before);
            }
            assert(self@.selected =~= start.difference(seen.take(i + 1).to_set()));
        }
        assert(seen.take(entries@.len() as int) =~= seen);
        changed
    }

    /// Does what was clicked during one frame in which the picker showed the
    /// given entries.
    pub fn respond(&mut self, entries: &[(String, usize)], input: &PickerInput) -> (response:
        TagPickerResponse)
        ensures
            ({
                let seen = tags_of(entry_views(entries@)).to_set();
                let clicked = match input.clicked {
                    Some(tag) => Some(tag@),
                    None => None,
                };
                &&& final(self)@ == (PickerView {
                    selected: selection_after(
                        old(self)@.selected,
                        seen,
                        input.select_visible,
                        input.clear_visible,
                        clicked,
                    ),
                    ..old(self)@
                })
                &&& response.changed == selection_changes(
                    old(self)@.selected,
                    seen,
                    input.select_visible,
                    input.clear_visible,
                    clicked,
                )
                &&& response.visible_count == entries@.len()
                &&& match response.clicked {
                    Some(tag) => clicked == Some(tag@),
                    None => clicked is None,
                }
            }),
    {
        let mut changed = false;
        if input.select_visible {
            changed = self.select_entries(entries);
        }
        if input.clear_visible {
            changed = self.clear_entries(entries) || changed;
        }
        let clicked = match &input.clicked {
            Some(tag) => {
                if self.selected.contains(tag.as_str()) {
                    self.selected.remove(tag.as_str());
                } else {
                    self.selected.insert(tag.as_str());
                }
                changed = true;
                Some(tag.clone())
            },
            None => None,
        };
        TagPickerResponse { changed, clicked, visible_count: entries.len() }
    }
}

proof fn lemma_set_of_next(list: Seq<Seq<char>>, i: int)
    requires
        0 <= i < list.len(),
    ensures
        list.take(i + 1).to_set() == list.take(i).to_set().insert(list[i]),
{
    let more = list.take(i + 1);
    let less = list.take(i);
    assert(more =~= less.push(list[i]));
    assert forall|tag: Seq<char>| more.to_set().contains(tag) <==> less.to_set().insert(
        list[i],
    ).contains(tag) by {
        lemma_contains_push(less, list[i], tag);
    }
    assert(more.to_set() =~= less.to_set().insert(list[i]));
}

// ----- Laws ----------------------------------------------------------------

/// Selecting and clearing the visible tags leaves the selection of every other
/// tag as it is.
pub proof fn law_hidden_tags_stay(
    selected: Set<Seq<char>>,
    visible_tags: Set<Seq<char>>,
    select_visible: bool,
    clear_visible: bool,
    tag: Seq<char>,
)
    requires
        !visible_tags.contains(tag),
    ensures
        selection_after(selected, visible_tags, select_visible, clear_visible, None).contains(tag)
            <==> selected.contains(tag),
{
}

/// A picker shows exactly the tags that its controls match, each as often as it
/// was supplied, whatever the order; and an invalid regular expression hides
/// none.
pub proof fn law_visible_are_matches(picker: PickerView, entries: Seq<(Seq<char>, nat)>)
    requires
        entries.len() <= usize::MAX,
    ensures
        visible(picker, entries).to_multiset() == shown(picker, entries).to_multiset(),
        forall|i: int| 0 <= i < shown(picker, entries).len() ==> shows(picker, #[trigger] shown(picker, entries)[i].0),
        picker.regex && !is_pattern(picker.query) ==> shown(picker, entries) == entries,
{
    lemma_shown(picker, entries);
    let kept = shown(picker, entries);
    let ranks = entry_ranks(picker.sort, kept);
    lemma_arrangement_exists(ranks, picker.descending);
    lemma_arrangement_permutes(
        arrangement(ranks, picker.descending),
        ranks,
        picker.descending,
    );
    lemma_arranged_multiset(kept, arrangement(ranks, picker.descending));
}

proof fn lemma_shown(picker: PickerView, entries: Seq<(Seq<char>, nat)>)
    ensures
        shown(picker, entries).len() <= entries.len(),
        forall|i: int| 0 <= i < shown(picker, entries).len() ==> shows(picker, #[trigger] shown(picker, entries)[i].0),
        picker.regex && !is_pattern(picker.query) ==> shown(picker, entries) == entries,
    decreases entries.len(),
{
    if entries.len() > 0 {
        lemma_shown(picker, entries.drop_last());
        assert(entries.drop_last().push(entries.last()) =~= entries);
        let rest = shown(picker, entries.drop_last());
        assert forall|i: int| 0 <= i < shown(picker, entries).len() implies shows(
            picker,
            #[trigger] shown(picker, entries)[i].0,
        ) by {
            if i < rest.len() {
                assert(shows(picker, rest[i].0));
            }
        }
    } else {
        assert(entries =~= Seq::<(Seq<char>, nat)>::empty());
    }
}

} // verus!
