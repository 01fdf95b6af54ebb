//! Filters on the tags of an item.

use vstd::prelude::*;

use crate::tags::{all_parsed, all_tags, normalize_terms};
use crate::text::{
    chars_of, entries_of, group_texts, has_ignoring_case, list_entries, list_has_ignoring_case,
    string_of, texts, trim, trimmed, Separators,
};

verus! {

/// Whether all or any included terms must be present in a caption.
#[derive(Clone, Copy, Debug, PartialEq, Eq, Structural)]
pub enum FilterMode {
    /// Every included term must match.
    And,
    /// At least one included term must match.
    Or,
}

/// A filter on captions by the terms to look for and the terms to exclude.
#[derive(Debug)]
pub struct TagFilter {
    pub included: Vec<String>,
    pub excluded: Vec<String>,
    pub mode: FilterMode,
}

/// A filter on captions by the terms to look for and the terms to exclude.
#[verifier::ext_equal]
pub struct FilterView {
    pub included: Seq<Seq<char>>,
    pub excluded: Seq<Seq<char>>,
    pub mode: FilterMode,
}

impl View for TagFilter {
    type V = FilterView;

    open spec fn view(&self) -> FilterView {
        FilterView {
            included: texts(self.included@),
            excluded: texts(self.excluded@),
            mode: self.mode,
        }
    }
}

/// Whether every term is among the tags, but for the case of ASCII letters.
pub open spec fn has_all(tags: Seq<Seq<char>>, terms: Seq<Seq<char>>) -> bool {
    forall|k: int| 0 <= k < terms.len() ==> has_ignoring_case(tags, #[trigger] terms[k])
}

/// Whether some term is among the tags, but for the case of ASCII letters.
pub open spec fn has_any(tags: Seq<Seq<char>>, terms: Seq<Seq<char>>) -> bool {
    exists|k: int| 0 <= k < terms.len() && has_ignoring_case(tags, #[trigger] terms[k])
}

/// Whether a filter lets a list of tags pass: no excluded term is among them,
/// and the included terms are, all or any of them as the mode says.
pub open spec fn passes(filter: FilterView, tags: Seq<Seq<char>>) -> bool {
    &&& !has_any(tags, filter.excluded)
    &&& filter.included.len() == 0 || match filter.mode {
        FilterMode::And => has_all(tags, filter.included),
        FilterMode::Or => has_any(tags, filter.included),
    }
}

/// The filter of the terms that the given texts list.
pub open spec fn filter_of(
    included: Seq<Seq<char>>,
    excluded: Seq<Seq<char>>,
    mode: FilterMode,
) -> FilterView {
    FilterView { included: all_parsed(included), excluded: all_parsed(excluded), mode }
}

fn any_among(tags: &Vec<String>, terms: &Vec<String>) -> (yes: bool)
    ensures
        yes == has_any(texts(tags@), texts(terms@)),
{
    for i in 0..terms.len()
        invariant
            forall|k: int|
                0 <= k < i ==> !has_ignoring_case(texts(tags@), #[trigger] texts(terms@)[k]),
    {
        assert(texts(terms@)[i as int] == terms@[i as int]@);
        if list_has_ignoring_case(tags, terms[i].as_str()) {
            return true;
        }
    }
    false
}

fn all_among(tags: &Vec<String>, terms: &Vec<String>) -> (yes: bool)
    ensures
        yes == has_all(texts(tags@), texts(terms@)),
{
    for i in 0..terms.len()
        invariant
            forall|k: int|
                0 <= k < i ==> has_ignoring_case(texts(tags@), #[trigger] texts(terms@)[k]),
    {
        assert(texts(terms@)[i as int] == terms@[i as int]@);
        if !list_has_ignoring_case(tags, terms[i].as_str()) {
            return false;
        }
    }
    true
}

impl Default for TagFilter {
    fn default() -> (filter: TagFilter)
        ensures
            filter@ == (FilterView {
                included: Seq::empty(),
                excluded: Seq::empty(),
                mode: FilterMode::And,
            }),
    {
        let filter = TagFilter { included: Vec::new(), excluded: Vec::new(), mode: FilterMode::And };
        assert(filter@.included =~= Seq::empty());
        assert(filter@.excluded =~= Seq::empty());
        filter
    }
}

impl TagFilter {
    /// The filter of the terms that the given texts list.
    pub fn new(included: &[String], excluded: &[String], mode: FilterMode) -> (filter: TagFilter)
        ensures
            filter@ == filter_of(texts(included@), texts(excluded@), mode),
            all_tags(filter@.included),
            all_tags(filter@.excluded),
    {
        TagFilter { included: normalize_terms(included), excluded: normalize_terms(excluded), mode }
    }

    /// The filter that asks for all of the included terms.
    pub fn and(included: &[String], excluded: &[String]) -> (filter: TagFilter)
        ensures
            filter@ == filter_of(texts(included@), texts(excluded@), FilterMode::And),
    {
        TagFilter::new(included, excluded, FilterMode::And)
    }

    /// The filter that asks for any of the included terms.
    pub fn or(included: &[String], excluded: &[String]) -> (filter: TagFilter)
        ensures
            filter@ == filter_of(texts(included@), texts(excluded@), FilterMode::Or),
    {
        TagFilter::new(included, excluded, FilterMode::Or)
    }

    /// Tests a list of tags. Matching is case-insensitive and compares complete
    /// tags, which avoids accidentally matching `cat` in `caterpillar`.
    pub fn matches(&self, tags: &Vec<String>) -> (yes: bool)
        ensures
            yes == passes(self@, texts(tags@)),
    {
        if any_among(tags, &self.excluded) {
            return false;
        }
        if self.included.len() == 0 {
            return true;
        }
        match self.mode {
            FilterMode::And => all_among(tags, &self.included),
            FilterMode::Or => any_among(tags, &self.included),
        }
    }
}

/// An excluded term is in no list that passes, and one that is in none of the
/// tags changes nothing: adding an excluded term only takes lists away.
pub proof fn law_exclude_narrows(filter: FilterView, term: Seq<char>, tags: Seq<Seq<char>>)
    ensures
        passes(FilterView { excluded: filter.excluded.push(term), ..filter }, tags) <==> passes(
            filter,
            tags,
        ) && !has_ignoring_case(tags, term),
{
    let more = filter.excluded.push(term);
    if has_any(tags, filter.excluded) {
        let k = choose|k: int|
            0 <= k < filter.excluded.len() && has_ignoring_case(tags, #[trigger] filter.excluded[k]);
        assert(has_ignoring_case(tags, more[k]));
    }
    if has_ignoring_case(tags, term) {
        assert(has_ignoring_case(tags, more[filter.excluded.len() as int]));
    }
    if has_any(tags, more) {
        let k = choose|k: int| 0 <= k < more.len() && has_ignoring_case(tags, #[trigger] more[k]);
        if k < filter.excluded.len() {
            assert(has_ignoring_case(tags, filter.excluded[k]));
        }
    }
}

// ----- Queries -------------------------------------------------------------

/// Whether an entry of a query names a term to excluded.
pub open spec fn is_exclusion(entry: Seq<char>) -> bool {
    entry.len() > 0 && entry[0] == '-'
}

/// The terms to look for among the entries of a query.
pub open spec fn included_terms(entries: Seq<Seq<char>>) -> Seq<Seq<char>>
    decreases entries.len(),
{
    if entries.len() == 0 {
        Seq::<Seq<char>>::empty()
    } else {
        let rest = included_terms(entries.drop_last());
        if is_exclusion(entries.last()) {
            rest
        } else {
            rest.push(entries.last())
        }
    }
}

/// The terms to excluded among the entries of a query: what follows the `-`,
/// unless that is blank.
pub open spec fn excluded_terms(entries: Seq<Seq<char>>) -> Seq<Seq<char>>
    decreases entries.len(),
{
    if entries.len() == 0 {
        Seq::<Seq<char>>::empty()
    } else {
        let rest = excluded_terms(entries.drop_last());
        let term = trimmed(entries.last().drop_first());
        if is_exclusion(entries.last()) && term.len() > 0 {
            rest.push(term)
        } else {
            rest
        }
    }
}

/// The filter that a comma-separated query stands for.
pub open spec fn query_filter(query: Seq<char>, mode: FilterMode) -> FilterView {
    let entries = list_entries(Separators::Commas, query);
    filter_of(included_terms(entries), excluded_terms(entries), mode)
}

/// Reads a comma-separated query. A term prefixed with `-` is excluded.
pub fn read_query(query: &str, mode: FilterMode) -> (filter: TagFilter)
    ensures
        filter@ == query_filter(query@, mode),
{
    broadcast use group_texts;

    let entries = entries_of(query, Separators::Commas);
    let ghost all = texts(entries@);
    let mut included: Vec<String> = Vec::new();
    let mut excluded: Vec<String> = Vec::new();
    for i in 0..entries.len()
        invariant
            all == texts(entries@),
            texts(included@) == included_terms(all.take(i as int)),
            texts(excluded@) == excluded_terms(all.take(i as int)),
    {
        assert(all.take(i + 1).drop_last() =~= all.take(i as int));
        assert(all.take(i + 1).last() == entries@[i as int]@);
        let chars = chars_of(entries[i].as_str());
        if chars.len() > 0 && chars[0] == '-' {
            let rest = string_of(&chars, 1, chars.len());
            assert(rest@ =~= all[i as int].drop_first());
            let term = trim(rest.as_str());
            if !term.as_str().is_empty() {
                excluded.push(term);
            }
        } else {
            included.push(entries[i].clone());
        }
    }
    assert(all.take(entries@.len() as int) =~= all);
    TagFilter::new(included.as_slice(), excluded.as_slice(), mode)
}

} // verus!
