//! Which thumbnails are kept in memory.

use vstd::prelude::*;

use crate::paths::{canonical, canonical_path};
use crate::tag_set::TagSet;
use crate::text::{group_texts, list_has, texts};

verus! {

/// How many thumbnails are kept.
pub const MAX_CACHED_THUMBNAILS: usize = 192;

/// What is known of the thumbnail of an image.
#[derive(Clone, Copy, Debug, PartialEq, Eq, Structural)]
pub enum Thumbnail {
    /// It is kept.
    Kept,
    /// The image cannot be read.
    Broken,
    /// The image has to be read.
    Missing,
}

/// The images whose thumbnails are kept, the oldest first, and those that
/// cannot be read. Paths are held in their shortest spelling.
#[derive(Debug)]
pub struct Thumbnails {
    pub kept: Vec<String>,
    pub broken: TagSet,
}

/// What is left of a list when at most the given number of last entries is
/// kept.
pub open spec fn latest(list: Seq<Seq<char>>, count: nat) -> Seq<Seq<char>> {
    if list.len() > count {
        list.skip(list.len() - count)
    } else {
        list
    }
}

impl Thumbnails {
    /// What is known of the thumbnail of an image.
    pub open spec fn state(&self, path: Seq<char>) -> Thumbnail {
        if texts(self.kept@).contains(canonical(path)) {
            Thumbnail::Kept
        } else if self.broken@.contains(canonical(path)) {
            Thumbnail::Broken
        } else {
            Thumbnail::Missing
        }
    }

    /// Nothing is known of any image.
    pub fn new() -> (thumbnails: Thumbnails)
        ensures
            thumbnails.kept@.len() == 0,
            thumbnails.broken@ == Set::<Seq<char>>::empty(),
    {
        Thumbnails { kept: Vec::new(), broken: TagSet::new() }
    }

    /// What is known of the thumbnail of an image.
    pub fn look_up(&self, path: &str) -> (state: Thumbnail)
        ensures
            state == self.state(path@),
    {
        let key = canonical_path(path);
        if list_has(&self.kept, key.as_str()) {
            Thumbnail::Kept
        } else if self.broken.contains(key.as_str()) {
            Thumbnail::Broken
        } else {
            Thumbnail::Missing
        }
    }

    /// Takes note that the thumbnail of an image was made. Returns the images
    /// whose thumbnails are to be dropped for it, the oldest ones.
    pub fn keep(&mut self, path: &str) -> (dropped: Vec<String>)
        ensures
            texts(final(self).kept@) == latest(
                texts(old(self).kept@).push(canonical(path@)),
                MAX_CACHED_THUMBNAILS as nat,
            ),
            final(self).broken@ == old(self).broken@,
            final(self).kept@.len() <= MAX_CACHED_THUMBNAILS,
            texts(dropped@) + texts(final(self).kept@) == texts(old(self).kept@).push(
                canonical(path@),
            ),
    {
        broadcast use group_texts;

        let key = canonical_path(path);
        let ghost all = texts(self.kept@).push(key@);
        let mut kept: Vec<String> = Vec::new();
        let mut dropped: Vec<String> = Vec::new();
        self.kept.push(key);
        assert(texts(self.kept@) =~= all);
        let count: usize = self.kept.len();
        let first: usize = if count > MAX_CACHED_THUMBNAILS {
            count - MAX_CACHED_THUMBNAILS
        } else {
            0
        };
        for i in 0..count
            invariant
                count == self.kept@.len(),
                first <= count,
                all == texts(self.kept@),
                self.broken@ == old(self).broken@,
                texts(dropped@) == all.take(
                    if i < first {
                        i as int
                    } else {
                        first as int
                    },
                ),
                texts(kept@) == if i < first {
                    Seq::<Seq<char>>::empty()
                } else {
                    all.subrange(first as int, i as int)
                },
        {
            let ghost kept_before = kept@;
            let ghost dropped_before = dropped@;
            if i < first {
                dropped.push(self.kept[i].clone());
                assert(texts(dropped@) == texts(dropped_before).push(all[i as int]));
                assert(texts(dropped@) =~= all.take(i + 1));
                assert(all.subrange(first as int, first as int) =~= Seq::<Seq<char>>::empty());
            } else {
                kept.push(self.kept[i].clone());
                assert(texts(kept@) == texts(kept_before).push(all[i as int]));
                assert(texts(kept@) =~= all.subrange(first as int, i + 1));
            }
        }
        assert(texts(kept@) =~= latest(all, MAX_CACHED_THUMBNAILS as nat));
        assert(texts(dropped@) + texts(kept@) =~= all);
        assert(kept@.len() == texts(kept@).len());
        self.kept = kept;
        dropped
    }

    /// Takes note that an image cannot be read.
    pub fn mark_broken(&mut self, path: &str)
        ensures
            final(self).kept@ == old(self).kept@,
            final(self).broken@ == old(self).broken@.insert(canonical(path@)),
    {
        let key = canonical_path(path);
        self.broken.insert(key.as_str());
    }
}

/// The latest thumbnail is always kept, and never more than the limit.
pub proof fn law_latest_is_kept(kept: Seq<Seq<char>>, path: Seq<char>)
    ensures
        latest(kept.push(path), MAX_CACHED_THUMBNAILS as nat).len() <= MAX_CACHED_THUMBNAILS,
        latest(kept.push(path), MAX_CACHED_THUMBNAILS as nat).last() == path,
{
}

} // verus!
