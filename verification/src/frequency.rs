//! How often tags occur, and the order of tags in a caption.

use vstd::hash_map::StringHashMap;
use vstd::prelude::*;

use crate::order::{
    arrange, arranged, arrangement, comes_before, goes_before, is_arrangement,
    lemma_arranged_multiset, lemma_arrangement_exists, lemma_arrangement_permutes,
    lemma_text_irreflexive, lemma_text_total, lemma_text_transitive, rank_views, same_members,
    sorted_unique, strictly_ordered, text_before, Rank, RankView, SortDirection,
};
use crate::tags::lemma_contains_push;
use crate::text::{chars_of, group_texts, same_text, texts};

verus! {

// ----- Counting ------------------------------------------------------------

/// How often a tag occurs in a list.
pub open spec fn occurrences(list: Seq<Seq<char>>, tag: Seq<char>) -> nat
    decreases list.len(),
{
    if list.len() == 0 {
        0
    } else {
        occurrences(list.drop_last(), tag) + if list.last() == tag {
            1nat
        } else {
            0nat
        }
    }
}

/// How often each tag of a list occurs in it.
pub open spec fn frequencies(list: Seq<Seq<char>>) -> Map<Seq<char>, nat> {
    Map::new(|tag: Seq<char>| list.contains(tag), |tag: Seq<char>| occurrences(list, tag))
}

/// How often a tag occurs, by a map of frequencies.
pub open spec fn count_in(counts: Map<Seq<char>, nat>, tag: Seq<char>) -> nat {
    if counts.contains_key(tag) {
        counts[tag]
    } else {
        0
    }
}

proof fn lemma_occurrences(list: Seq<Seq<char>>, tag: Seq<char>)
    ensures
        occurrences(list, tag) <= list.len(),
        occurrences(list, tag) > 0 <==> list.contains(tag),
    decreases list.len(),
{
    if list.len() > 0 {
        lemma_occurrences(list.drop_last(), tag);
        lemma_contains_push(list.drop_last(), list.last(), tag);
        assert(list.drop_last().push(list.last()) =~= list);
    }
}

/// A tag and how often it occurs.
#[derive(Debug)]
pub struct TagCount {
    pub tag: String,
    pub count: usize,
}

/// The tags of a list of counts.
pub open spec fn counted_tags(entries: Seq<TagCount>) -> Seq<Seq<char>> {
    entries.map_values(|entry: TagCount| entry.tag@)
}

/// The map that a list of counts stands for.
pub open spec fn counted(entries: Seq<TagCount>) -> Map<Seq<char>, nat> {
    Map::new(
        |tag: Seq<char>| counted_tags(entries).contains(tag),
        |tag: Seq<char>| entries[counted_tags(entries).index_of(tag)].count as nat,
    )
}

/// How often each tag occurs, in the order of the tags.
#[derive(Debug)]
pub struct Frequencies {
    entries: Vec<TagCount>,
}

impl View for Frequencies {
    type V = Map<Seq<char>, nat>;

    closed spec fn view(&self) -> Map<Seq<char>, nat> {
        counted(self.entries@)
    }
}

/// What a list of counts says of one of its tags.
pub proof fn lemma_counted_at(entries: Seq<TagCount>, i: int)
    requires
        strictly_ordered(counted_tags(entries)),
        0 <= i < entries.len(),
    ensures
        counted(entries).contains_key(entries[i].tag@),
        counted(entries)[entries[i].tag@] == entries[i].count,
{
    let tags = counted_tags(entries);
    let tag = entries[i].tag@;
    assert(tags[i] == tag);
    assert(tags.contains(tag));
    let k = tags.index_of(tag);
    lemma_text_irreflexive(tag);
    if k < i {
        assert(text_before(tags[k], tags[i]));
    } else if i < k {
        assert(text_before(tags[i], tags[k]));
    }
}

impl Frequencies {
    #[verifier::type_invariant]
    closed spec fn in_order(&self) -> bool {
        strictly_ordered(counted_tags(self.entries@))
    }

    /// Counts the tags of a list.
    pub fn of(list: &Vec<String>) -> (result: Frequencies)
        ensures
            result@ == frequencies(texts(list@)),
    {
        broadcast use group_texts;

        let ghost all = texts(list@);
        let mut counts: StringHashMap<usize> = StringHashMap::new();
        for i in 0..list.len()
            invariant
                all == texts(list@),
                forall|tag: Seq<char>| #[trigger]
                    counts@.contains_key(tag) <==> occurrences(all.take(i as int), tag) > 0,
                forall|tag: Seq<char>| #[trigger]
                    counts@.contains_key(tag) ==> counts@[tag] == occurrences(
                        all.take(i as int),
                        tag,
                    ),
        {
            let ghost before = counts@;
            let ghost done = all.take(i as int);
            let ghost next = all[i as int];
            assert(all.take(i + 1).drop_last() =~= done);
            proof {
                lemma_occurrences(done, next);
            }
            let count: usize = match counts.get(list[i].as_str()) {
                Some(count) => *count,
                None => 0,
            };
            assert(count == occurrences(done, next));
            counts.insert(list[i].clone(), count + 1);
            assert(counts@ == before.insert(next, (count + 1) as usize));
        }
        assert(all.take(list@.len() as int) =~= all);
        let tags = sorted_unique(list);
        let ghost keys = texts(tags@);
        let mut entries: Vec<TagCount> = Vec::new();
        for i in 0..tags.len()
            invariant
                all == texts(list@),
                keys == texts(tags@),
                same_members(keys, all),
                forall|tag: Seq<char>| #[trigger]
                    counts@.contains_key(tag) <==> occurrences(all, tag) > 0,
                forall|tag: Seq<char>| #[trigger]
                    counts@.contains_key(tag) ==> counts@[tag] == occurrences(all, tag),
                counted_tags(entries@) == keys.take(i as int),
                forall|k: int|
                    0 <= k < i ==> (#[trigger] entries@[k]).count == occurrences(all, keys[k]),
        {
            let ghost before = entries@;
            proof {
                assert(keys[i as int] == tags@[i as int]@);
                assert(keys.contains(keys[i as int]));
                lemma_occurrences(all, keys[i as int]);
            }
            let count: usize = match counts.get(tags[i].as_str()) {
                Some(count) => *count,
                None => 0,
            };
            let entry = TagCount { tag: tags[i].clone(), count };
            entries.push(entry);
            assert(counted_tags(entries@) =~= counted_tags(before).push(keys[i as int]));
            assert(counted_tags(entries@) =~= keys.take(i + 1));
        }
        assert(keys.take(tags@.len() as int) =~= keys);
        let result = Frequencies { entries };
        proof {
            let found = result@;
            let expected = frequencies(all);
            assert forall|tag: Seq<char>| #[trigger] found.contains_key(tag) implies found[tag]
                == expected[tag] by {
                let k = keys.index_of(tag);
                assert(entries@[k].count == occurrences(all, keys[k]));
            }
            assert(found =~= expected);
        }
        result
    }

    /// The counts, in the order of the tags.
    pub fn entries(&self) -> (list: &Vec<TagCount>)
        ensures
            strictly_ordered(counted_tags(list@)),
            counted(list@) == self@,
    {
        proof {
            use_type_invariant(self);
        }
        &self.entries
    }

    /// How often a tag occurs, where it occurs.
    pub fn get(&self, tag: &str) -> (count: Option<&usize>)
        ensures
            match count {
                Some(count) => self@.contains_key(tag@) && *count == self@[tag@],
                None => !self@.contains_key(tag@),
            },
    {
        proof {
            use_type_invariant(self);
        }
        let ghost tags = counted_tags(self.entries@);
        let mut low: usize = 0;
        let mut high: usize = self.entries.len();
        while low < high
            invariant
                tags == counted_tags(self.entries@),
                strictly_ordered(tags),
                low <= high <= self.entries@.len(),
                forall|k: int| 0 <= k < low ==> text_before(#[trigger] tags[k], tag@),
                forall|k: int| high <= k < tags.len() ==> text_before(tag@, #[trigger] tags[k]),
            decreases high - low,
        {
            let middle: usize = low + (high - low) / 2;
            let found = self.entries[middle].tag.as_str();
            assert(tags[middle as int] == found@);
            if same_text(found, tag) {
                proof {
                    lemma_counted_at(self.entries@, middle as int);
                }
                return Some(&self.entries[middle].count);
            }
            if comes_before(found, tag) {
                assert forall|k: int| 0 <= k < middle + 1 implies text_before(
                    #[trigger] tags[k],
                    tag@,
                ) by {
                    if k < middle {
                        assert(text_before(tags[k], tags[middle as int]));
                        lemma_text_transitive(tags[k], found@, tag@);
                    }
                }
                low = middle + 1;
            } else {
                proof {
                    lemma_text_total(found@, tag@);
                }
                assert forall|k: int| middle <= k < tags.len() implies text_before(
                    tag@,
                    #[trigger] tags[k],
                ) by {
                    if k > middle {
                        assert(text_before(tags[middle as int], tags[k]));
                        lemma_text_transitive(tag@, found@, tags[k]);
                    }
                }
                high = middle;
            }
        }
        proof {
            if tags.contains(tag@) {
                let k = choose|k: int| 0 <= k < tags.len() && tags[k] == tag@;
                lemma_text_irreflexive(tag@);
                assert(text_before(tags[k], tag@) || text_before(tag@, tags[k]));
            }
        }
        None
    }

    /// How often a tag occurs.
    pub fn count(&self, tag: &str) -> (count: usize)
        ensures
            count == count_in(self@, tag@),
    {
        match self.get(tag) {
            Some(count) => *count,
            None => 0,
        }
    }
}

// ----- The order of tags in a caption --------------------------------------

/// The key used when ordering tags inside captions.
#[derive(Clone, Copy, Debug, PartialEq, Eq, Structural)]
pub enum TagSortKey {
    /// Sort by the tag text.
    Alphabetical,
    /// Sort by how many times the tag occurs in the whole dataset.
    Frequency,
    /// Sort by Unicode character count.
    Length,
}

/// What a tag is ordered by, before its text decides.
pub open spec fn tag_weight(counts: Map<Seq<char>, nat>, key: TagSortKey, tag: Seq<char>) -> int {
    match key {
        TagSortKey::Alphabetical => 0,
        TagSortKey::Frequency => count_in(counts, tag) as int,
        TagSortKey::Length => tag.len() as int,
    }
}

/// Whether tag `a` stands before tag `b` in an ordered caption. Tags of equal
/// frequency or length are ordered by their text, in both directions.
pub open spec fn tag_before(
    counts: Map<Seq<char>, nat>,
    key: TagSortKey,
    direction: SortDirection,
    a: Seq<char>,
    b: Seq<char>,
) -> bool {
    let x = tag_weight(counts, key, a);
    let y = tag_weight(counts, key, b);
    match direction {
        SortDirection::Ascending => x < y || (x == y && text_before(a, b)),
        SortDirection::Descending => if key == TagSortKey::Alphabetical {
            text_before(b, a)
        } else {
            x > y || (x == y && text_before(a, b))
        },
    }
}

/// The rank of a tag in a caption.
pub open spec fn tag_rank(
    counts: Map<Seq<char>, nat>,
    key: TagSortKey,
    direction: SortDirection,
    tag: Seq<char>,
) -> RankView {
    let weight = tag_weight(counts, key, tag);
    RankView {
        number: if direction == SortDirection::Descending {
            -weight
        } else {
            weight
        },
        first: tag,
        second: Seq::<char>::empty(),
    }
}

/// The ranks of a list of tags.
pub open spec fn tag_ranks(
    counts: Map<Seq<char>, nat>,
    key: TagSortKey,
    direction: SortDirection,
    tags: Seq<Seq<char>>,
) -> Seq<RankView> {
    Seq::new(tags.len(), |i: int| tag_rank(counts, key, direction, tags[i]))
}

/// Whether the texts of the tags decide in descending order.
pub open spec fn from_last(key: TagSortKey, direction: SortDirection) -> bool {
    key == TagSortKey::Alphabetical && direction == SortDirection::Descending
}

/// The tags of a caption in order.
pub open spec fn sorted_tags(
    counts: Map<Seq<char>, nat>,
    key: TagSortKey,
    direction: SortDirection,
    tags: Seq<Seq<char>>,
) -> Seq<Seq<char>> {
    arranged(
        tags,
        arrangement(tag_ranks(counts, key, direction, tags), from_last(key, direction)),
    )
}

/// Sorting a caption keeps its tags, each as often as before, and leaves none
/// in front of one that comes before it.
pub proof fn law_sorted_tags(
    counts: Map<Seq<char>, nat>,
    key: TagSortKey,
    direction: SortDirection,
    tags: Seq<Seq<char>>,
)
    requires
        tags.len() <= usize::MAX,
    ensures
        sorted_tags(counts, key, direction, tags).to_multiset() == tags.to_multiset(),
        forall|i: int, j: int|
            0 <= i < j < tags.len() ==> !tag_before(
                counts,
                key,
                direction,
                #[trigger] sorted_tags(counts, key, direction, tags)[j],
                #[trigger] sorted_tags(counts, key, direction, tags)[i],
            ),
{
    let ranks = tag_ranks(counts, key, direction, tags);
    let descending = from_last(key, direction);
    let order = arrangement(ranks, descending);
    let sorted = sorted_tags(counts, key, direction, tags);
    lemma_arrangement_exists(ranks, descending);
    lemma_arrangement_permutes(order, ranks, descending);
    lemma_arranged_multiset(tags, order);
    assert forall|i: int, j: int| 0 <= i < j < tags.len() implies !tag_before(
        counts,
        key,
        direction,
        #[trigger] sorted[j],
        #[trigger] sorted[i],
    ) by {
        assert(order.contains(order[i]) && order.contains(order[j]));
        let p = order[i] as int;
        let q = order[j] as int;
        assert(goes_before(ranks, descending, p, q));
        assert(ranks[p] == tag_rank(counts, key, direction, tags[p]));
        assert(ranks[q] == tag_rank(counts, key, direction, tags[q]));
        lemma_text_irreflexive(tags[p]);
        lemma_text_irreflexive(Seq::<char>::empty());
        if text_before(tags[p], tags[q]) && text_before(tags[q], tags[p]) {
            lemma_text_transitive(tags[p], tags[q], tags[p]);
        }
    }
}

/// Sorts the tags of a caption.
pub fn sort_tags(
    tags: &Vec<String>,
    key: TagSortKey,
    direction: SortDirection,
    counts: &Frequencies,
) -> (sorted: Vec<String>)
    ensures
        texts(sorted@) == sorted_tags(counts@, key, direction, texts(tags@)),
{
    broadcast use group_texts;

    let ghost all = texts(tags@);
    let mut ranks: Vec<Rank> = Vec::new();
    for i in 0..tags.len()
        invariant
            all == texts(tags@),
            rank_views(ranks@) == tag_ranks(counts@, key, direction, all.take(i as int)),
    {
        let ghost before = ranks@;
        let chars = chars_of(tags[i].as_str());
        let weight: usize = match key {
            TagSortKey::Alphabetical => 0,
            TagSortKey::Frequency => counts.count(tags[i].as_str()),
            TagSortKey::Length => chars.len(),
        };
        let number: i128 = if direction == SortDirection::Descending {
            -(weight as i128)
        } else {
            weight as i128
        };
        let rank = Rank { number, first: chars, second: Vec::new() };
        assert(rank@ == tag_rank(counts@, key, direction, all[i as int]));
        ranks.push(rank);
        assert(rank_views(ranks@) =~= rank_views(before).push(rank@));
        assert(rank_views(ranks@) =~= tag_ranks(counts@, key, direction, all.take(i + 1)));
    }
    assert(all.take(tags@.len() as int) =~= all);
    let order = arrange(
        &ranks,
        key == TagSortKey::Alphabetical && direction == SortDirection::Descending,
    );
    let mut sorted: Vec<String> = Vec::new();
    for i in 0..order.len()
        invariant
            all == texts(tags@),
            is_arrangement(
                order@,
                tag_ranks(counts@, key, direction, all),
                from_last(key, direction),
            ),
            texts(sorted@) == arranged(all, order@).take(i as int),
    {
        let ghost before = sorted@;
        assert(order@.contains(order@[i as int]));
        sorted.push(tags[order[i]].clone());
        assert(texts(sorted@) == texts(before).push(all[order@[i as int] as int]));
        assert(texts(sorted@) =~= arranged(all, order@).take(i + 1));
    }
    assert(arranged(all, order@).take(order@.len() as int) =~= arranged(all, order@));
    sorted
}

} // verus!
