//! The history of a dataset: snapshots of the tags that undo and redo go back
//! to.

use vstd::hash_map::StringHashMap;
use vstd::prelude::*;

use crate::item::{item_views, DatasetItem, ItemView};
use crate::paths::{canonical, canonical_path};
use crate::text::{copy_strings, texts};

verus! {

/// The tags of every image path. Snapshots are keyed by path rather than by
/// place: sorting the dataset must not make undo restore one image's tags into
/// another image.
pub open spec fn snapshot_of(items: Seq<ItemView>) -> Map<Seq<char>, Seq<Seq<char>>>
    decreases items.len(),
{
    if items.len() == 0 {
        Map::empty()
    } else {
        snapshot_of(items.drop_last()).insert(
            canonical(items.last().image_path),
            items.last().tags,
        )
    }
}

/// The items with the tags that a snapshot has for their paths.
pub open spec fn restored(
    items: Seq<ItemView>,
    snapshot: Map<Seq<char>, Seq<Seq<char>>>,
) -> Seq<ItemView> {
    Seq::new(
        items.len(),
        |i: int|
            {
                let key = canonical(items[i].image_path);
                if snapshot.contains_key(key) {
                    ItemView { tags: snapshot[key], ..items[i] }
                } else {
                    items[i]
                }
            },
    )
}

/// The tags of every image path.
pub struct TagSnapshot {
    tags: StringHashMap<Vec<String>>,
}

impl View for TagSnapshot {
    type V = Map<Seq<char>, Seq<Seq<char>>>;

    closed spec fn view(&self) -> Map<Seq<char>, Seq<Seq<char>>> {
        self.tags@.map_values(|tags: Vec<String>| texts(tags@))
    }
}

impl TagSnapshot {
    /// The tags of the items.
    pub fn of(items: &Vec<DatasetItem>) -> (snapshot: TagSnapshot)
        ensures
            snapshot@ == snapshot_of(item_views(items@)),
    {
        let ghost all = item_views(items@);
        let mut tags: StringHashMap<Vec<String>> = StringHashMap::new();
        assert(tags@.map_values(|list: Vec<String>| texts(list@)) =~= snapshot_of(all.take(0)));
        for i in 0..items.len()
            invariant
                all == item_views(items@),
                tags@.map_values(|list: Vec<String>| texts(list@)) == snapshot_of(
                    all.take(i as int),
                ),
        {
            let ghost before = tags@;
            assert(all.take(i + 1).drop_last() =~= all.take(i as int));
            assert(all.take(i + 1).last() == all[i as int]);
            let key = canonical_path(items[i].image_path.as_str());
            let list = copy_strings(&items[i].tags);
            tags.insert(key, list);
            assert(tags@.map_values(|list: Vec<String>| texts(list@)) =~= before.map_values(
                |list: Vec<String>| texts(list@),
            ).insert(key@, texts(list@)));
        }
        assert(all.take(items@.len() as int) =~= all);
        TagSnapshot { tags }
    }

    /// Gives the items the tags that the snapshot has for their paths.
    pub fn restore(&self, items: &mut Vec<DatasetItem>)
        ensures
            item_views(final(items)@) == restored(item_views(old(items)@), self@),
    {
        let ghost all = item_views(items@);
        let ghost target = restored(all, self@);
        let count: usize = items.len();
        for i in 0..count
            invariant
                count == all.len(),
                all.len() == items@.len(),
                target == restored(all, self@),
                forall|k: int| 0 <= k < i ==> (#[trigger] items@[k])@ == target[k],
                forall|k: int| i <= k < all.len() ==> (#[trigger] items@[k])@ == all[k],
        {
            assert(items@[i as int]@ == all[i as int]);
            let key = canonical_path(items[i].image_path.as_str());
            match self.tags.get(key.as_str()) {
                Some(tags) => {
                    items[i].tags = copy_strings(tags);
                    assert(items@[i as int]@ == target[i as int]);
                },
                None => {},
            }
        }
        assert(item_views(items@) =~= target);
    }
}

/// The steps that can be undone and redone.
pub struct History {
    undo: Vec<TagSnapshot>,
    redo: Vec<TagSnapshot>,
}

impl History {
    /// The snapshots that undo goes back to, the latest last.
    pub closed spec fn past(&self) -> Seq<Map<Seq<char>, Seq<Seq<char>>>> {
        self.undo@.map_values(|snapshot: TagSnapshot| snapshot@)
    }

    /// The snapshots that redo goes back to, the latest last.
    pub closed spec fn future(&self) -> Seq<Map<Seq<char>, Seq<Seq<char>>>> {
        self.redo@.map_values(|snapshot: TagSnapshot| snapshot@)
    }

    /// A history without steps.
    pub fn new() -> (history: History)
        ensures
            history.past() == Seq::<Map<Seq<char>, Seq<Seq<char>>>>::empty(),
            history.future() == Seq::<Map<Seq<char>, Seq<Seq<char>>>>::empty(),
    {
        let history = History { undo: Vec::new(), redo: Vec::new() };
        assert(history.past() =~= Seq::empty());
        assert(history.future() =~= Seq::empty());
        history
    }

    /// Whether there is a step to undo.
    pub fn can_undo(&self) -> (yes: bool)
        ensures
            yes == (self.past().len() > 0),
    {
        self.undo.len() > 0
    }

    /// Whether there is a step to redo.
    pub fn can_redo(&self) -> (yes: bool)
        ensures
            yes == (self.future().len() > 0),
    {
        self.redo.len() > 0
    }

    /// Enters a snapshot, after which nothing can be redone.
    pub fn record(&mut self, before: TagSnapshot)
        ensures
            final(self).past() == old(self).past().push(before@),
            final(self).future() == Seq::<Map<Seq<char>, Seq<Seq<char>>>>::empty(),
    {
        self.undo.push(before);
        self.redo.clear();
        assert(self.past() =~= old(self).past().push(before@));
        assert(self.future() =~= Seq::empty());
    }

    /// Takes the items one step back.
    pub fn undo(&mut self, items: &mut Vec<DatasetItem>) -> (done: bool)
        ensures
            done == (old(self).past().len() > 0),
            !done ==> final(self).past() == old(self).past() && final(self).future() == old(
                self,
            ).future() && final(items)@ == old(items)@,
            done ==> {
                &&& final(self).past() == old(self).past().drop_last()
                &&& final(self).future() == old(self).future().push(
                    snapshot_of(item_views(old(items)@)),
                )
                &&& item_views(final(items)@) == restored(
                    item_views(old(items)@),
                    old(self).past().last(),
                )
            },
    {
        match self.undo.pop() {
            Some(previous) => {
                let current = TagSnapshot::of(items);
                previous.restore(items);
                self.redo.push(current);
                assert(self.past() =~= old(self).past().drop_last());
                assert(self.future() =~= old(self).future().push(current@));
                true
            },
            None => false,
        }
    }

    /// Takes the items one step forward that was undone.
    pub fn redo(&mut self, items: &mut Vec<DatasetItem>) -> (done: bool)
        ensures
            done == (old(self).future().len() > 0),
            !done ==> final(self).past() == old(self).past() && final(self).future() == old(
                self,
            ).future() && final(items)@ == old(items)@,
            done ==> {
                &&& final(self).future() == old(self).future().drop_last()
                &&& final(self).past() == old(self).past().push(
                    snapshot_of(item_views(old(items)@)),
                )
                &&& item_views(final(items)@) == restored(
                    item_views(old(items)@),
                    old(self).future().last(),
                )
            },
    {
        match self.redo.pop() {
            Some(next) => {
                let current = TagSnapshot::of(items);
                next.restore(items);
                self.undo.push(current);
                assert(self.future() =~= old(self).future().drop_last());
                assert(self.past() =~= old(self).past().push(current@));
                true
            },
            None => false,
        }
    }
}

} // verus!
