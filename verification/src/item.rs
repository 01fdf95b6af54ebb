//! The items of a dataset: an image, its caption file and its tags.

use vstd::prelude::*;

use crate::paths::{file_stem, stem_of};
use crate::tags::{caption, format_tags};
use crate::text::{copy_strings, same_texts, texts};

verus! {

/// One image and its side-car caption file.
#[derive(Debug)]
pub struct DatasetItem {
    /// Path to the image on disk.
    pub image_path: String,
    /// Path to the UTF-8 caption file (the image stem with another suffix).
    pub tag_path: String,
    /// Tags in display/edit order. Tags are trimmed and never contain empty
    /// entries when loaded or changed through this module.
    pub tags: Vec<String>,
    /// Whether the item is selected in the editor.
    pub selected: bool,
    /// The tags of the last successful load or save.
    pub original_tags: Vec<String>,
}

/// One image, its caption file and its tags.
#[verifier::ext_equal]
pub struct ItemView {
    pub image_path: Seq<char>,
    pub tag_path: Seq<char>,
    pub tags: Seq<Seq<char>>,
    pub selected: bool,
    /// The tags of the last successful load or save.
    pub original: Seq<Seq<char>>,
}

impl View for DatasetItem {
    type V = ItemView;

    open spec fn view(&self) -> ItemView {
        ItemView {
            image_path: self.image_path@,
            tag_path: self.tag_path@,
            tags: texts(self.tags@),
            selected: self.selected,
            original: texts(self.original_tags@),
        }
    }
}

impl Clone for DatasetItem {
    fn clone(&self) -> (copy: DatasetItem)
        ensures
            copy@ == self@,
    {
        DatasetItem {
            image_path: self.image_path.clone(),
            tag_path: self.tag_path.clone(),
            tags: copy_strings(&self.tags),
            selected: self.selected,
            original_tags: copy_strings(&self.original_tags),
        }
    }
}

/// Whether the tags of an item differ from those of the last load or save.
pub open spec fn is_dirty(item: ItemView) -> bool {
    item.tags != item.original
}

impl DatasetItem {
    /// An item whose tags are those that were loaded.
    pub fn new(image_path: String, tag_path: String, tags: Vec<String>) -> (item: DatasetItem)
        ensures
            item@ == (ItemView {
                image_path: image_path@,
                tag_path: tag_path@,
                tags: texts(tags@),
                selected: false,
                original: texts(tags@),
            }),
    {
        let original_tags = copy_strings(&tags);
        DatasetItem { image_path, tag_path, tags, selected: false, original_tags }
    }

    /// An item whose tags have not been saved yet.
    pub fn unsaved(image_path: String, tag_path: String, tags: Vec<String>) -> (item: DatasetItem)
        ensures
            item@ == (ItemView {
                image_path: image_path@,
                tag_path: tag_path@,
                tags: texts(tags@),
                selected: false,
                original: Seq::empty(),
            }),
    {
        let item = DatasetItem {
            image_path,
            tag_path,
            tags,
            selected: false,
            original_tags: Vec::new(),
        };
        assert(item@.original =~= Seq::empty());
        item
    }

    /// Returns true when the in-memory tags differ from the last successful
    /// load or save.
    pub fn is_modified(&self) -> (yes: bool)
        ensures
            yes == is_dirty(self@),
    {
        !same_texts(&self.tags, &self.original_tags)
    }

    /// File name without the extension, useful for an image list row. It is
    /// empty where the path names no file.
    pub fn stem(&self) -> (stem: String)
        ensures
            match stem_of(self@.image_path) {
                Some(expected) => stem@ == expected,
                None => stem@.len() == 0,
            },
    {
        match file_stem(self.image_path.as_str()) {
            Some(stem) => stem,
            None => String::new(),
        }
    }

    /// Caption text in the format in which captions are saved.
    pub fn tag_text(&self) -> (text: String)
        ensures
            text@ == caption(self@.tags),
    {
        format_tags(&self.tags)
    }
}

/// The items that a vector holds.
pub open spec fn item_views(items: Seq<DatasetItem>) -> Seq<ItemView> {
    items.map_values(|item: DatasetItem| item@)
}

} // verus!
