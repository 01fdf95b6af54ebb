//! Sets of tags.

use vstd::prelude::*;

use crate::order::{
    comes_before, lemma_ordered_unique, lemma_text_irreflexive, lemma_text_total, lemma_text_transitive, sorted_unique,
    strictly_ordered, text_before,
};
use crate::text::{copy_strings, same_text, texts};

verus! {

/// A set of tags, which is listed in order.
#[derive(Debug)]
pub struct TagSet {
    tags: Vec<String>,
}

impl View for TagSet {
    type V = Set<Seq<char>>;

    closed spec fn view(&self) -> Set<Seq<char>> {
        texts(self.tags@).to_set()
    }
}

/// The tags of a set in order.
pub open spec fn ordered_list(set: Set<Seq<char>>) -> Seq<Seq<char>> {
    choose|list: Seq<Seq<char>>| strictly_ordered(list) && list.to_set() == set
}

/// The place of a text in an ordered list, or the place where it would be put.
fn find_text(list: &Vec<String>, text: &str) -> (place: Result<usize, usize>)
    requires
        strictly_ordered(texts(list@)),
    ensures
        match place {
            Ok(i) => i < list@.len() && list@[i as int]@ == text@,
            Err(i) => {
                &&& i <= list@.len()
                &&& forall|k: int| 0 <= k < i ==> text_before(#[trigger] texts(list@)[k], text@)
                &&& forall|k: int|
                    i <= k < list@.len() ==> text_before(text@, #[trigger] texts(list@)[k])
            },
        },
{
    let ghost all = texts(list@);
    let mut low: usize = 0;
    let mut high: usize = list.len();
    while low < high
        invariant
            all == texts(list@),
            strictly_ordered(all),
            low <= high <= list@.len(),
            forall|k: int| 0 <= k < low ==> text_before(#[trigger] all[k], text@),
            forall|k: int| high <= k < all.len() ==> text_before(text@, #[trigger] all[k]),
        decreases high - low,
    {
        let middle: usize = low + (high - low) / 2;
        let found = list[middle].as_str();
        assert(all[middle as int] == found@);
        if same_text(found, text) {
            return Ok(middle);
        }
        if comes_before(found, text) {
            assert forall|k: int| 0 <= k < middle + 1 implies text_before(
                #[trigger] all[k],
                text@,
            ) by {
                if k < middle {
                    assert(text_before(all[k], all[middle as int]));
                    lemma_text_transitive(all[k], found@, text@);
                }
            }
            low = middle + 1;
        } else {
            proof {
                lemma_text_total(found@, text@);
            }
            assert forall|k: int| middle <= k < all.len() implies text_before(
                text@,
                #[trigger] all[k],
            ) by {
                if k > middle {
                    assert(text_before(all[middle as int], all[k]));
                    lemma_text_transitive(text@, found@, all[k]);
                }
            }
            high = middle;
        }
    }
    Err(low)
}

proof fn lemma_ordered_distinct(list: Seq<Seq<char>>)
    requires
        strictly_ordered(list),
    ensures
        list.no_duplicates(),
{
    assert forall|i: int, j: int| 0 <= i < list.len() && 0 <= j < list.len() && i != j implies list[i]
        != list[j] by {
        lemma_text_irreflexive(list[i]);
        if i < j {
            assert(text_before(list[i], list[j]));
        } else {
            assert(text_before(list[j], list[i]));
        }
    }
}

impl TagSet {
    #[verifier::type_invariant]
    closed spec fn in_order(&self) -> bool {
        strictly_ordered(texts(self.tags@))
    }

    /// The empty set.
    pub fn new() -> (set: TagSet)
        ensures
            set@ == Set::<Seq<char>>::empty(),
    {
        let set = TagSet { tags: Vec::new() };
        assert(set@ =~= Set::<Seq<char>>::empty());
        set
    }

    /// The set of the tags of a list.
    pub fn of(list: &Vec<String>) -> (set: TagSet)
        ensures
            set@ == texts(list@).to_set(),
    {
        let tags = sorted_unique(list);
        let set = TagSet { tags };
        assert forall|tag: Seq<char>| set@.contains(tag) <==> texts(list@).to_set().contains(
            tag,
        ) by {
            assert(texts(tags@).contains(tag) <==> texts(list@).contains(tag));
        }
        assert(set@ =~= texts(list@).to_set());
        set
    }

    /// A copy of the set.
    pub fn copy(&self) -> (set: TagSet)
        ensures
            set@ == self@,
    {
        proof {
            use_type_invariant(self);
        }
        TagSet { tags: copy_strings(&self.tags) }
    }

    /// The number of tags.
    pub fn len(&self) -> (count: usize)
        ensures
            self@.finite(),
            count == self@.len(),
    {
        proof {
            use_type_invariant(self);
            lemma_ordered_distinct(texts(self.tags@));
            texts(self.tags@).unique_seq_to_set();
        }
        self.tags.len()
    }

    /// Whether there is no tag.
    pub fn is_empty(&self) -> (yes: bool)
        ensures
            yes == (self@ == Set::<Seq<char>>::empty()),
    {
        if self.tags.len() == 0 {
            assert(self@ =~= Set::<Seq<char>>::empty());
            true
        } else {
            assert(self@.contains(texts(self.tags@)[0]));
            false
        }
    }

    /// Whether a tag is in the set.
    pub fn contains(&self, tag: &str) -> (yes: bool)
        ensures
            yes == self@.contains(tag@),
    {
        proof {
            use_type_invariant(self);
        }
        match find_text(&self.tags, tag) {
            Ok(i) => {
                assert(texts(self.tags@)[i as int] == tag@);
                assert(texts(self.tags@).contains(tag@));
                true
            },
            Err(_) => {
                proof {
                    lemma_absent(texts(self.tags@), tag@);
                }
                false
            },
        }
    }

    /// The tags in order.
    pub fn list(&self) -> (tags: &Vec<String>)
        ensures
            texts(tags@) == ordered_list(self@),
            strictly_ordered(texts(tags@)),
            texts(tags@).to_set() == self@,
    {
        proof {
            use_type_invariant(self);
            let other = ordered_list(self@);
            assert(strictly_ordered(other) && other.to_set() == self@);
            assert forall|tag: Seq<char>| #[trigger]
                texts(self.tags@).contains(tag) <==> other.contains(tag) by {
                assert(self@.contains(tag) <==> other.to_set().contains(tag));
            }
            lemma_ordered_unique(texts(self.tags@), other);
        }
        &self.tags
    }

    /// Puts a tag into the set. Returns whether it was not in it.
    pub fn insert(&mut self, tag: &str) -> (fresh: bool)
        ensures
            fresh == !old(self)@.contains(tag@),
            final(self)@ == old(self)@.insert(tag@),
    {
        proof {
            use_type_invariant(&*self);
        }
        let ghost before = texts(self.tags@);
        match find_text(&self.tags, tag) {
            Ok(i) => {
                assert(before[i as int] == tag@);
                assert(before.contains(tag@));
                assert(self@ =~= old(self)@.insert(tag@));
                false
            },
            Err(i) => {
                proof {
                    lemma_absent(before, tag@);
                }
                let mut tags = copy_strings(&self.tags);
                tags.insert(i, tag.to_owned());
                let ghost after = texts(tags@);
                assert(after =~= before.insert(i as int, tag@));
                assert(strictly_ordered(after)) by {
                    assert forall|a: int, b: int| 0 <= a < b < after.len() implies text_before(
                        #[trigger] after[a],
                        #[trigger] after[b],
                    ) by {
                        if a < i && b < i {
                            assert(text_before(before[a], before[b]));
                        } else if a < i && b == i {
                            assert(text_before(before[a], tag@));
                        } else if a < i {
                            assert(text_before(before[a], before[b - 1]));
                        } else if a == i {
                            assert(text_before(tag@, before[b - 1]));
                        } else {
                            assert(text_before(before[a - 1], before[b - 1]));
                        }
                    }
                }
                self.tags = tags;
                assert forall|t: Seq<char>| self@.contains(t) <==> old(self)@.insert(
                    tag@,
                ).contains(t) by {
                    if after.contains(t) && t != tag@ {
                        let k = choose|k: int| 0 <= k < after.len() && after[k] == t;
                        if k < i {
                            assert(before[k] == t);
                        } else {
                            assert(before[k - 1] == t);
                        }
                    }
                    if before.contains(t) {
                        let k = choose|k: int| 0 <= k < before.len() && before[k] == t;
                        if k < i {
                            assert(after[k] == t);
                        } else {
                            assert(after[k + 1] == t);
                        }
                    }
                    assert(after[i as int] == tag@);
                }
                assert(self@ =~= old(self)@.insert(tag@));
                true
            },
        }
    }

    /// Takes a tag out of the set. Returns whether it was in it.
    pub fn remove(&mut self, tag: &str) -> (found: bool)
        ensures
            found == old(self)@.contains(tag@),
            final(self)@ == old(self)@.remove(tag@),
    {
        proof {
            use_type_invariant(&*self);
        }
        let ghost before = texts(self.tags@);
        match find_text(&self.tags, tag) {
            Ok(i) => {
                assert(before[i as int] == tag@);
                assert(before.contains(tag@));
                let mut tags = copy_strings(&self.tags);
                tags.remove(i);
                let ghost after = texts(tags@);
                assert(after =~= before.remove(i as int));
                assert(strictly_ordered(after)) by {
                    assert forall|a: int, b: int| 0 <= a < b < after.len() implies text_before(
                        #[trigger] after[a],
                        #[trigger] after[b],
                    ) by {
                        let x = if a < i {
                            a
                        } else {
                            a + 1
                        };
                        let y = if b < i {
                            b
                        } else {
                            b + 1
                        };
                        assert(text_before(before[x], before[y]));
                    }
                }
                proof {
                    lemma_ordered_distinct(before);
                }
                self.tags = tags;
                assert forall|t: Seq<char>| self@.contains(t) <==> old(self)@.remove(
                    tag@,
                ).contains(t) by {
                    if after.contains(t) {
                        let k = choose|k: int| 0 <= k < after.len() && after[k] == t;
                        let at = if k < i {
                            k
                        } else {
                            k + 1
                        };
                        assert(before[at] == t);
                        assert(before.contains(t));
                        assert(before[at] != before[i as int]);
                    }
                    if before.contains(t) && t != tag@ {
                        let k = choose|k: int| 0 <= k < before.len() && before[k] == t;
                        if k < i {
                            assert(after[k] == t);
                        } else {
                            assert(after[k - 1] == t);
                        }
                    }
                }
                assert(self@ =~= old(self)@.remove(tag@));
                true
            },
            Err(_) => {
                proof {
                    lemma_absent(before, tag@);
                }
                assert(self@ =~= old(self)@.remove(tag@));
                false
            },
        }
    }

    /// Takes every tag out of the set.
    pub fn clear(&mut self)
        ensures
            final(self)@ == Set::<Seq<char>>::empty(),
    {
        *self = TagSet::new();
    }
}

proof fn lemma_absent(list: Seq<Seq<char>>, text: Seq<char>)
    requires
        forall|k: int|
            0 <= k < list.len() ==> text_before(#[trigger] list[k], text) || text_before(
                text,
                list[k],
            ),
    ensures
        !list.contains(text),
{
    if list.contains(text) {
        let k = choose|k: int| 0 <= k < list.len() && list[k] == text;
        lemma_text_irreflexive(text);
        assert(text_before(list[k], text) || text_before(text, list[k]));
    }
}

} // verus!
