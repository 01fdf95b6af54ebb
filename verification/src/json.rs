//! JSON values, and records of them by key.

use vstd::prelude::*;

use crate::order::{
    comes_before, lemma_text_irreflexive, lemma_text_total, lemma_text_transitive, strictly_ordered,
    text_before,
};
use crate::text::{same_text, texts};

verus! {

/// A JSON value.
#[derive(Debug)]
pub enum Json {
    Null,
    Bool(bool),
    /// A number as it is written.
    Number(String),
    Text(String),
    List(Vec<Json>),
    Record(JsonRecord),
}

/// JSON values by key, which are listed in the order of the keys.
#[derive(Debug)]
pub struct JsonRecord {
    keys: Vec<String>,
    values: Vec<Json>,
}

impl View for JsonRecord {
    type V = Map<Seq<char>, Json>;

    closed spec fn view(&self) -> Map<Seq<char>, Json> {
        record_map(texts(self.keys@), self.values@)
    }
}

/// The map of keys and values that stand at the same places.
pub open spec fn record_map(keys: Seq<Seq<char>>, values: Seq<Json>) -> Map<Seq<char>, Json> {
    Map::new(|key: Seq<char>| keys.contains(key), |key: Seq<char>| values[keys.index_of(key)])
}

proof fn lemma_record_at(keys: Seq<Seq<char>>, values: Seq<Json>, i: int)
    requires
        strictly_ordered(keys),
        0 <= i < keys.len(),
    ensures
        record_map(keys, values).contains_key(keys[i]),
        record_map(keys, values)[keys[i]] == values[i],
{
    assert(keys.contains(keys[i]));
    let k = keys.index_of(keys[i]);
    lemma_text_irreflexive(keys[i]);
    if k < i {
        assert(text_before(keys[k], keys[i]));
    } else if i < k {
        assert(text_before(keys[i], keys[k]));
    }
}

proof fn lemma_record_update(keys: Seq<Seq<char>>, values: Seq<Json>, i: int, value: Json)
    requires
        strictly_ordered(keys),
        keys.len() == values.len(),
        0 <= i < keys.len(),
    ensures
        record_map(keys, values.update(i, value)) == record_map(keys, values).insert(
            keys[i],
            value,
        ),
{
    let after = record_map(keys, values.update(i, value));
    let expected = record_map(keys, values).insert(keys[i], value);
    assert(keys.contains(keys[i]));
    assert forall|key: Seq<char>| #[trigger] after.contains_key(key) implies after[key]
        == expected[key] by {
        let k = keys.index_of(key);
        lemma_record_at(keys, values.update(i, value), k);
        lemma_record_at(keys, values, k);
        if key == keys[i] {
            lemma_record_at(keys, values.update(i, value), i);
        } else {
            assert(k != i);
        }
    }
    assert(after =~= expected);
}

proof fn lemma_record_insert(
    keys: Seq<Seq<char>>,
    values: Seq<Json>,
    i: int,
    key: Seq<char>,
    value: Json,
)
    requires
        strictly_ordered(keys),
        keys.len() == values.len(),
        0 <= i <= keys.len(),
        forall|k: int| 0 <= k < i ==> text_before(#[trigger] keys[k], key),
        forall|k: int| i <= k < keys.len() ==> text_before(key, #[trigger] keys[k]),
    ensures
        strictly_ordered(keys.insert(i, key)),
        !keys.contains(key),
        record_map(keys.insert(i, key), values.insert(i, value)) == record_map(
            keys,
            values,
        ).insert(key, value),
{
    let more = keys.insert(i, key);
    let all = values.insert(i, value);
    assert forall|a: int, b: int| 0 <= a < b < more.len() implies text_before(
        #[trigger] more[a],
        #[trigger] more[b],
    ) by {
        if a < i && b < i {
            assert(text_before(keys[a], keys[b]));
        } else if a < i && b == i {
            assert(text_before(keys[a], key));
        } else if a < i {
            assert(text_before(keys[a], keys[b - 1]));
        } else if a == i {
            assert(text_before(key, keys[b - 1]));
        } else {
            assert(text_before(keys[a - 1], keys[b - 1]));
        }
    }
    lemma_text_irreflexive(key);
    if keys.contains(key) {
        let k = choose|k: int| 0 <= k < keys.len() && keys[k] == key;
        assert(text_before(keys[k], key) || text_before(key, keys[k]));
    }
    let after = record_map(more, all);
    let expected = record_map(keys, values).insert(key, value);
    assert forall|t: Seq<char>| after.contains_key(t) <==> expected.contains_key(t) by {
        if more.contains(t) && t != key {
            let k = choose|k: int| 0 <= k < more.len() && more[k] == t;
            if k < i {
                assert(keys[k] == t);
            } else {
                assert(keys[k - 1] == t);
            }
        }
        if keys.contains(t) {
            let k = choose|k: int| 0 <= k < keys.len() && keys[k] == t;
            if k < i {
                assert(more[k] == t);
            } else {
                assert(more[k + 1] == t);
            }
        }
        assert(more[i] == key);
    }
    assert forall|t: Seq<char>| #[trigger] after.contains_key(t) implies after[t] == expected[t] by {
        let k = more.index_of(t);
        assert(more[k] == t);
        lemma_record_at(more, all, k);
        if t == key {
            assert(more[i] == key);
            lemma_record_at(more, all, i);
        } else if k < i {
            lemma_record_at(keys, values, k);
            assert(keys[k] == t);
        } else {
            assert(k != i);
            lemma_record_at(keys, values, k - 1);
            assert(keys[k - 1] == t);
        }
    }
    assert(after =~= expected);
}

impl JsonRecord {
    #[verifier::type_invariant]
    closed spec fn in_order(&self) -> bool {
        &&& strictly_ordered(texts(self.keys@))
        &&& self.keys@.len() == self.values@.len()
    }

    /// The record without entries.
    pub fn new() -> (record: JsonRecord)
        ensures
            record@ == Map::<Seq<char>, Json>::empty(),
    {
        let record = JsonRecord { keys: Vec::new(), values: Vec::new() };
        assert(record@ =~= Map::<Seq<char>, Json>::empty());
        record
    }

    /// The number of entries.
    pub fn len(&self) -> (count: usize)
        ensures
            self@.dom().finite(),
            count == self@.len(),
    {
        proof {
            use_type_invariant(self);
            let keys = texts(self.keys@);
            assert(self@.dom() =~= keys.to_set());
            assert(keys.no_duplicates()) by {
                assert forall|i: int, j: int|
                    0 <= i < keys.len() && 0 <= j < keys.len() && i != j implies keys[i]
                    != keys[j] by {
                    lemma_text_irreflexive(keys[i]);
                    if i < j {
                        assert(text_before(keys[i], keys[j]));
                    } else {
                        assert(text_before(keys[j], keys[i]));
                    }
                }
            }
            keys.unique_seq_to_set();
        }
        self.keys.len()
    }

    /// Whether there is no entry.
    pub fn is_empty(&self) -> (yes: bool)
        ensures
            yes == (self@ == Map::<Seq<char>, Json>::empty()),
    {
        if self.keys.len() == 0 {
            assert(self@ =~= Map::<Seq<char>, Json>::empty());
            true
        } else {
            assert(texts(self.keys@).contains(texts(self.keys@)[0]));
            assert(self@.contains_key(texts(self.keys@)[0]));
            false
        }
    }

    /// The keys in order.
    pub fn keys(&self) -> (keys: &Vec<String>)
        ensures
            strictly_ordered(texts(keys@)),
            forall|key: Seq<char>| #[trigger]
                texts(keys@).contains(key) <==> self@.contains_key(key),
    {
        proof {
            use_type_invariant(self);
        }
        &self.keys
    }

    fn find(&self, key: &str) -> (place: Result<usize, usize>)
        ensures
            match place {
                Ok(i) => i < self.keys@.len() && self.keys@[i as int]@ == key@,
                Err(i) => {
                    &&& i <= self.keys@.len()
                    &&& forall|k: int|
                        0 <= k < i ==> text_before(#[trigger] texts(self.keys@)[k], key@)
                    &&& forall|k: int|
                        i <= k < self.keys@.len() ==> text_before(
                            key@,
                            #[trigger] texts(self.keys@)[k],
                        )
                },
            },
    {
        proof {
            use_type_invariant(self);
        }
        let ghost all = texts(self.keys@);
        let mut low: usize = 0;
        let mut high: usize = self.keys.len();
        while low < high
            invariant
                all == texts(self.keys@),
                strictly_ordered(all),
                low <= high <= self.keys@.len(),
                forall|k: int| 0 <= k < low ==> text_before(#[trigger] all[k], key@),
                forall|k: int| high <= k < all.len() ==> text_before(key@, #[trigger] all[k]),
            decreases high - low,
        {
            let middle: usize = low + (high - low) / 2;
            let found = self.keys[middle].as_str();
            assert(all[middle as int] == found@);
            if same_text(found, key) {
                return Ok(middle);
            }
            if comes_before(found, key) {
                assert forall|k: int| 0 <= k < middle + 1 implies text_before(
                    #[trigger] all[k],
                    key@,
                ) by {
                    if k < middle {
                        assert(text_before(all[k], all[middle as int]));
                        lemma_text_transitive(all[k], found@, key@);
                    }
                }
                low = middle + 1;
            } else {
                proof {
                    lemma_text_total(found@, key@);
                }
                assert forall|k: int| middle <= k < all.len() implies text_before(
                    key@,
                    #[trigger] all[k],
                ) by {
                    if k > middle {
                        assert(text_before(all[middle as int], all[k]));
                        lemma_text_transitive(key@, found@, all[k]);
                    }
                }
                high = middle;
            }
        }
        Err(low)
    }

    /// The value of a key.
    pub fn get(&self, key: &str) -> (value: Option<&Json>)
        ensures
            match value {
                Some(value) => self@.contains_key(key@) && *value == self@[key@],
                None => !self@.contains_key(key@),
            },
    {
        proof {
            use_type_invariant(self);
        }
        match self.find(key) {
            Ok(i) => {
                assert(texts(self.keys@)[i as int] == key@);
                proof {
                    lemma_record_at(texts(self.keys@), self.values@, i as int);
                }
                Some(&self.values[i])
            },
            Err(i) => {
                proof {
                    lemma_record_insert(
                        texts(self.keys@),
                        self.values@,
                        i as int,
                        key@,
                        Json::Null,
                    );
                }
                None
            },
        }
    }

    /// Gives a key a value. Returns the value that it had.
    pub fn insert(&mut self, key: String, value: Json) -> (previous: Option<Json>)
        ensures
            final(self)@ == old(self)@.insert(key@, value),
            match previous {
                Some(previous) => old(self)@.contains_key(key@) && previous == old(self)@[key@],
                None => !old(self)@.contains_key(key@),
            },
    {
        proof {
            use_type_invariant(&*self);
        }
        let place = self.find(key.as_str());
        let mut record = JsonRecord::new();
        std::mem::swap(&mut record, self);
        let JsonRecord { mut keys, mut values } = record;
        let ghost all = texts(keys@);
        let ghost held = values@;
        match place {
            Ok(i) => {
                assert(all[i as int] == key@);
                proof {
                    lemma_record_at(all, held, i as int);
                    lemma_record_update(all, held, i as int, value);
                }
                let mut previous = value;
                std::mem::swap(&mut previous, &mut values[i]);
                assert(values@ =~= held.update(i as int, value));
                *self = JsonRecord { keys, values };
                Some(previous)
            },
            Err(i) => {
                proof {
                    lemma_record_insert(all, held, i as int, key@, value);
                }
                keys.insert(i, key);
                values.insert(i, value);
                assert(texts(keys@) =~= all.insert(i as int, key@));
                *self = JsonRecord { keys, values };
                None
            },
        }
    }
}

} // verus!
