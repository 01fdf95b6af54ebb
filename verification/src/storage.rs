//! Loading and saving: what is made of the files that were found, and what is
//! written for the items that were changed.

use vstd::prelude::*;
use vstd::utf8::{decode_utf8, encode_utf8, valid_utf8};

use crate::dataset::{places, Dataset, DatasetView};
use crate::item::{is_dirty, item_views, DatasetItem, ItemView};
use crate::order::{arrange, arranged, arrangement, is_arrangement, rank_views, Rank, RankView};
use crate::paths::{
    extended, file_stem, is_image, is_supported_image, stem_of, with_extension,
};
use crate::tags::{all_tags, caption, law_caption_round_trip, parse_tags, parsed};
use crate::text::{
    ascii_lowered, chars_of, copy_strings, group_texts, string_of, texts, to_ascii_lower, trim,
    trimmed,
};

verus! {

// ----- Caption files -------------------------------------------------------

/// A text without the dots at its start.
pub open spec fn without_dots(text: Seq<char>) -> Seq<char>
    decreases text.len(),
{
    if text.len() > 0 && text[0] == '.' {
        without_dots(text.drop_first())
    } else {
        text
    }
}

/// The extension of caption files that a setting names.
pub open spec fn caption_suffix(setting: Seq<char>) -> Seq<char> {
    without_dots(trimmed(setting))
}

/// Whether a text can be the extension of caption files: it is not empty and
/// has no character in it that separates the parts of a path.
pub open spec fn is_suffix(suffix: Seq<char>) -> bool {
    &&& suffix.len() > 0
    &&& forall|i: int|
        0 <= i < suffix.len() ==> #[trigger] suffix[i] != '/' && suffix[i] != '\\' && suffix[i]
            != ':'
}

/// Why a dataset was not loaded.
#[derive(Debug)]
pub enum DatasetError {
    /// The extension of caption files is none.
    InvalidExtension(String),
    /// A caption file is not valid UTF-8.
    NotText(String),
}

impl DatasetError {
    /// What the error says.
    pub open spec fn text(&self) -> Seq<char> {
        match *self {
            DatasetError::InvalidExtension(suffix) => "invalid caption extension: "@ + suffix@,
            DatasetError::NotText(path) => "failed to read "@ + path@ + " as UTF-8"@,
        }
    }

    /// What the error says.
    pub fn message(&self) -> (text: String)
        ensures
            text@ == self.text(),
    {
        match self {
            DatasetError::InvalidExtension(suffix) => {
                let mut text = "invalid caption extension: ".to_owned();
                text.append(suffix.as_str());
                text
            },
            DatasetError::NotText(path) => {
                let mut text = "failed to read ".to_owned();
                text.append(path.as_str());
                text.append(" as UTF-8");
                text
            },
        }
    }
}

/// The text without the dots at its start.
pub fn strip_dots(text: &str) -> (result: String)
    ensures
        result@ == without_dots(text@),
{
    let chars = chars_of(text);
    let mut from: usize = 0;
    assert(chars@.skip(0) =~= chars@);
    while from < chars.len() && chars[from] == '.'
        invariant
            from <= chars@.len(),
            without_dots(chars@.skip(from as int)) == without_dots(chars@),
        decreases chars@.len() - from,
    {
        assert(chars@.skip(from as int).drop_first() =~= chars@.skip(from + 1));
        from = from + 1;
    }
    let result = string_of(&chars, from, chars.len());
    assert(result@ =~= chars@.skip(from as int));
    result
}

/// The extension of caption files that a setting names, without the white space
/// around it and the dots at its start.
pub fn caption_extension(setting: &str) -> (result: Result<String, DatasetError>)
    ensures
        result is Ok <==> is_suffix(caption_suffix(setting@)),
        result matches Ok(suffix) ==> suffix@ == caption_suffix(setting@),
        result matches Err(error) ==> error matches DatasetError::InvalidExtension(suffix)
            && suffix@ == caption_suffix(setting@),
{
    let text = trim(setting);
    let suffix = strip_dots(text.as_str());
    let chars = chars_of(suffix.as_str());
    if chars.len() == 0 {
        return Err(DatasetError::InvalidExtension(suffix));
    }
    for i in 0..chars.len()
        invariant
            chars@.len() > 0,
            suffix@ == chars@,
            suffix@ == caption_suffix(setting@),
            forall|k: int|
                0 <= k < i ==> #[trigger] suffix@[k] != '/' && suffix@[k] != '\\' && suffix@[k]
                    != ':',
    {
        let c = chars[i];
        assert(suffix@[i as int] == c);
        if c == '/' || c == '\\' || c == ':' {
            return Err(DatasetError::InvalidExtension(suffix));
        }
    }
    Ok(suffix)
}

/// The path of the caption file of an image.
pub fn caption_path(image_path: &str, suffix: &str) -> (path: String)
    ensures
        path@ == extended(image_path@, suffix@),
{
    with_extension(image_path, suffix)
}

/// `str::from_utf8` of the standard library reads bytes as UTF-8, and refuses
/// those that are not valid UTF-8.
#[verifier::external_body]
fn read_utf8(bytes: &[u8]) -> (text: Option<String>)
    ensures
        text is Some <==> valid_utf8(bytes@),
        text matches Some(text) ==> text@ == decode_utf8(bytes@),
{
    std::str::from_utf8(bytes).ok().map(|text| text.to_owned())
}

// ----- Loading -------------------------------------------------------------

/// A file that was found below the directory of a dataset, with the bytes of
/// its caption file where there is one.
#[derive(Debug)]
pub struct FoundFile {
    pub path: String,
    pub caption: Option<Vec<u8>>,
}

/// A file that was found, with the bytes of its caption file.
#[verifier::ext_equal]
pub struct FoundView {
    pub path: Seq<char>,
    pub caption: Option<Seq<u8>>,
}

impl View for FoundFile {
    type V = FoundView;

    open spec fn view(&self) -> FoundView {
        FoundView {
            path: self.path@,
            caption: match self.caption {
                Some(bytes) => Some(bytes@),
                None => None,
            },
        }
    }
}

/// The files that a list holds.
pub open spec fn found_views(found: Seq<FoundFile>) -> Seq<FoundView> {
    found.map_values(|file: FoundFile| file@)
}

/// The images among the files.
pub open spec fn images_among(found: Seq<FoundView>) -> Seq<FoundView>
    decreases found.len(),
{
    if found.len() == 0 {
        Seq::<FoundView>::empty()
    } else {
        let rest = images_among(found.drop_last());
        if is_image(found.last().path) {
            rest.push(found.last())
        } else {
            rest
        }
    }
}

/// What a file is ordered by: its path without regard to the case of ASCII
/// letters, then the path itself.
pub open spec fn file_rank(file: FoundView) -> RankView {
    RankView { number: 0, first: ascii_lowered(file.path), second: file.path }
}

/// The ranks of the files.
pub open spec fn file_ranks(files: Seq<FoundView>) -> Seq<RankView> {
    Seq::new(files.len(), |i: int| file_rank(files[i]))
}

/// The images among the files, in the order of their paths.
pub open spec fn in_load_order(found: Seq<FoundView>) -> Seq<FoundView> {
    let images = images_among(found);
    arranged(images, arrangement(file_ranks(images), false))
}

/// A text with spaces for underscores.
pub open spec fn spaced(text: Seq<char>) -> Seq<char> {
    text.map_values(
        |c: char|
            if c == '_' {
                ' '
            } else {
                c
            },
    )
}

/// The tags that the name of an image gives: its stem with spaces for
/// underscores, unless that is blank.
pub open spec fn name_tags(path: Seq<char>) -> Seq<Seq<char>> {
    match stem_of(path) {
        Some(stem) => if trimmed(spaced(stem)).len() == 0 {
            Seq::<Seq<char>>::empty()
        } else {
            seq![trimmed(spaced(stem))]
        },
        None => Seq::<Seq<char>>::empty(),
    }
}

/// Whether the caption of a file is not valid UTF-8.
pub open spec fn is_unreadable(file: FoundView) -> bool {
    file.caption matches Some(bytes) && !valid_utf8(bytes)
}

/// The item of an image. Without a caption file the tags are empty, or those
/// that the name of the image gives, which are not saved yet.
pub open spec fn loaded_item(
    file: FoundView,
    suffix: Seq<char>,
    filename_fallback: bool,
) -> ItemView {
    let tags = match file.caption {
        Some(bytes) => parsed(decode_utf8(bytes)),
        None => if filename_fallback {
            name_tags(file.path)
        } else {
            Seq::<Seq<char>>::empty()
        },
    };
    ItemView {
        image_path: file.path,
        tag_path: extended(file.path, suffix),
        tags,
        selected: false,
        original: if file.caption is None {
            Seq::<Seq<char>>::empty()
        } else {
            tags
        },
    }
}

/// The dataset that is loaded.
pub open spec fn loaded(
    root: Seq<char>,
    found: Seq<FoundView>,
    suffix: Seq<char>,
    filename_fallback: bool,
) -> DatasetView {
    let files = in_load_order(found);
    DatasetView {
        root,
        items: Seq::new(files.len(), |i: int| loaded_item(files[i], suffix, filename_fallback)),
        undo: Seq::empty(),
        redo: Seq::empty(),
    }
}

/// Whether a load of the files has the given result.
pub open spec fn is_load_result(
    result: Result<Dataset, DatasetError>,
    root: Seq<char>,
    found: Seq<FoundView>,
    setting: Seq<char>,
    filename_fallback: bool,
) -> bool {
    let suffix = caption_suffix(setting);
    let files = in_load_order(found);
    match result {
        Ok(data) => {
            &&& is_suffix(suffix)
            &&& forall|i: int| 0 <= i < files.len() ==> !is_unreadable(#[trigger] files[i])
            &&& data@ == loaded(root, found, suffix, filename_fallback)
        },
        Err(DatasetError::InvalidExtension(text)) => !is_suffix(suffix) && text@ == suffix,
        Err(DatasetError::NotText(path)) => {
            &&& is_suffix(suffix)
            &&& exists|i: int|
                {
                    &&& 0 <= i < files.len()
                    &&& is_unreadable(#[trigger] files[i])
                    &&& path@ == extended(files[i].path, suffix)
                    &&& forall|k: int| 0 <= k < i ==> !is_unreadable(#[trigger] files[k])
                }
        },
    }
}

/// A text with spaces for underscores.
pub fn with_spaces(text: &str) -> (result: String)
    ensures
        result@ == spaced(text@),
{
    let chars = chars_of(text);
    let mut result = String::new();
    for i in 0..chars.len()
        invariant
            chars@ == text@,
            result@ == spaced(chars@.take(i as int)),
    {
        let c = chars[i];
        result.push(
            if c == '_' {
                ' '
            } else {
                c
            },
        );
        assert(result@ =~= spaced(chars@.take(i + 1)));
    }
    assert(chars@.take(chars@.len() as int) =~= chars@);
    result
}

fn tags_of_name(path: &str) -> (tags: Vec<String>)
    ensures
        texts(tags@) == name_tags(path@),
{
    broadcast use group_texts;

    let mut tags: Vec<String> = Vec::new();
    match file_stem(path) {
        Some(stem) => {
            let text = with_spaces(stem.as_str());
            let tag = trim(text.as_str());
            if !tag.as_str().is_empty() {
                tags.push(tag);
                assert(texts(tags@) =~= seq![tag@]);
            }
        },
        None => {},
    }
    assert(texts(tags@) =~= name_tags(path@));
    tags
}

fn load_item(file: &FoundFile, suffix: &str, filename_fallback: bool) -> (item: Option<DatasetItem>)
    ensures
        item is None <==> is_unreadable(file@),
        item matches Some(item) ==> item@ == loaded_item(file@, suffix@, filename_fallback),
{
    let image_path = file.path.clone();
    let tag_path = caption_path(file.path.as_str(), suffix);
    match &file.caption {
        Some(bytes) => match read_utf8(bytes.as_slice()) {
            Some(text) => Some(DatasetItem::new(image_path, tag_path, parse_tags(text.as_str()))),
            None => None,
        },
        None => {
            let tags = if filename_fallback {
                tags_of_name(file.path.as_str())
            } else {
                let tags: Vec<String> = Vec::new();
                assert(texts(tags@) =~= Seq::empty());
                tags
            };
            Some(DatasetItem::unsaved(image_path, tag_path, tags))
        },
    }
}

/// The places of the images among the files, in the order of their paths.
fn image_order(found: &[FoundFile]) -> (order: Vec<usize>)
    ensures
        forall|k: int| 0 <= k < order@.len() ==> #[trigger] order@[k] < found@.len(),
        in_load_order(found_views(found@)) == Seq::new(
            order@.len(),
            |k: int| found@[order@[k] as int]@,
        ),
{
    let ghost all = found_views(found@);
    let mut kept: Vec<usize> = Vec::new();
    let mut ranks: Vec<Rank> = Vec::new();
    for i in 0..found.len()
        invariant
            all == found_views(found@),
            forall|k: int| 0 <= k < kept@.len() ==> #[trigger] kept@[k] < i,
            images_among(all.take(i as int)) == Seq::new(
                kept@.len(),
                |k: int| all[kept@[k] as int],
            ),
            rank_views(ranks@) == file_ranks(images_among(all.take(i as int))),
    {
        let ghost before = kept@;
        let ghost ranked = ranks@;
        assert(all.take(i + 1).drop_last() =~= all.take(i as int));
        assert(all.take(i + 1).last() == all[i as int]);
        if is_supported_image(found[i].path.as_str()) {
            kept.push(i);
            let lower = to_ascii_lower(found[i].path.as_str());
            let rank = Rank {
                number: 0,
                first: chars_of(lower.as_str()),
                second: chars_of(found[i].path.as_str()),
            };
            assert(rank@ == file_rank(all[i as int]));
            ranks.push(rank);
            assert(images_among(all.take(i + 1)) =~= Seq::new(
                kept@.len(),
                |k: int| all[kept@[k] as int],
            ));
            assert(rank_views(ranks@) =~= rank_views(ranked).push(rank@));
            assert(rank_views(ranks@) =~= file_ranks(images_among(all.take(i + 1))));
        }
    }
    assert(all.take(found@.len() as int) =~= all);
    let ghost images = images_among(all);
    let arranged_places = arrange(&ranks, false);
    let mut order: Vec<usize> = Vec::new();
    for i in 0..arranged_places.len()
        invariant
            is_arrangement(arranged_places@, file_ranks(images), false),
            images == Seq::new(kept@.len(), |k: int| all[kept@[k] as int]),
            order@.len() == i,
            forall|k: int| 0 <= k < i ==> #[trigger] order@[k] == kept@[arranged_places@[k] as int],
            forall|k: int| 0 <= k < i ==> arranged_places@[k] < kept@.len(),
    {
        assert(arranged_places@.contains(arranged_places@[i as int]));
        order.push(kept[arranged_places[i]]);
    }
    proof {
        let target = in_load_order(all);
        assert forall|k: int| 0 <= k < order@.len() implies #[trigger] order@[k] < found@.len() by {
            assert(kept@[arranged_places@[k] as int] < found@.len());
        }
        assert forall|k: int| 0 <= k < target.len() implies target[k]
            == found@[order@[k] as int]@ by {
            assert(order@[k] == kept@[arranged_places@[k] as int]);
        }
        assert(target =~= Seq::new(order@.len(), |k: int| found@[order@[k] as int]@));
    }
    order
}

impl Dataset {
    /// Makes a dataset of the files that were found below `root`, in the order
    /// of their paths whatever the order in which they were found. Images
    /// without a caption file get an empty caption, or, where
    /// `filename_fallback` is set, the tag that their name gives.
    pub fn load_with_options(
        root: &str,
        found: &[FoundFile],
        caption_setting: &str,
        filename_fallback: bool,
    ) -> (result: Result<Dataset, DatasetError>)
        ensures
            is_load_result(result, root@, found_views(found@), caption_setting@, filename_fallback),
    {
        let suffix = match caption_extension(caption_setting) {
            Ok(suffix) => suffix,
            Err(error) => {
                return Err(error);
            },
        };
        let order = image_order(found);
        let ghost files = in_load_order(found_views(found@));
        let mut items: Vec<DatasetItem> = Vec::new();
        for i in 0..order.len()
            invariant
                is_suffix(suffix@),
                suffix@ == caption_suffix(caption_setting@),
                files == in_load_order(found_views(found@)),
                files == Seq::new(order@.len(), |k: int| found@[order@[k] as int]@),
                forall|k: int| 0 <= k < order@.len() ==> #[trigger] order@[k] < found@.len(),
                forall|k: int| 0 <= k < i ==> !is_unreadable(#[trigger] files[k]),
                item_views(items@) == Seq::new(
                    i as nat,
                    |k: int| loaded_item(files[k], suffix@, filename_fallback),
                ),
        {
            let ghost before = items@;
            let file = &found[order[i]];
            assert(file@ == files[i as int]);
            match load_item(file, suffix.as_str(), filename_fallback) {
                Some(item) => {
                    items.push(item);
                    assert(item_views(items@) =~= item_views(before).push(item@));
                    assert(item_views(items@) =~= Seq::new(
                        (i + 1) as nat,
                        |k: int| loaded_item(files[k], suffix@, filename_fallback),
                    ));
                },
                None => {
                    let path = caption_path(file.path.as_str(), suffix.as_str());
                    assert(is_unreadable(files[i as int]));
                    return Err(DatasetError::NotText(path));
                },
            }
        }
        let data = Dataset::new(root.to_owned(), items);
        assert(data@ =~= loaded(
            root@,
            found_views(found@),
            suffix@,
            filename_fallback,
        ));
        Ok(data)
    }

    /// Loads with `.txt` captions and no tags from file names.
    pub fn load(root: &str, found: &[FoundFile]) -> (result: Result<Dataset, DatasetError>)
        ensures
            is_load_result(result, root@, found_views(found@), "txt"@, false),
    {
        Dataset::load_with_options(root, found, "txt", false)
    }

    /// The same as [`Dataset::load`].
    pub fn open(root: &str, found: &[FoundFile]) -> (result: Result<Dataset, DatasetError>)
        ensures
            is_load_result(result, root@, found_views(found@), "txt"@, false),
    {
        Dataset::load(root, found)
    }

    /// The same as [`Dataset::load_with_options`].
    pub fn open_with_options(
        root: &str,
        found: &[FoundFile],
        caption_setting: &str,
        filename_fallback: bool,
    ) -> (result: Result<Dataset, DatasetError>)
        ensures
            is_load_result(result, root@, found_views(found@), caption_setting@, filename_fallback),
    {
        Dataset::load_with_options(root, found, caption_setting, filename_fallback)
    }
}

// ----- Saving --------------------------------------------------------------

/// A caption to be written.
#[derive(Debug)]
pub struct SaveTask {
    /// Where the caption is written.
    pub tag_path: String,
    /// The image that it belongs to.
    pub image_path: String,
    /// The caption.
    pub text: String,
    /// Whether an existing caption file is kept as a backup.
    pub backup: bool,
}

/// A caption to be written.
#[verifier::ext_equal]
pub struct SaveView {
    pub tag_path: Seq<char>,
    pub image_path: Seq<char>,
    pub text: Seq<char>,
    pub backup: bool,
}

impl View for SaveTask {
    type V = SaveView;

    open spec fn view(&self) -> SaveView {
        SaveView {
            tag_path: self.tag_path@,
            image_path: self.image_path@,
            text: self.text@,
            backup: self.backup,
        }
    }
}

/// The captions that a list holds.
pub open spec fn task_views(tasks: Seq<SaveTask>) -> Seq<SaveView> {
    tasks.map_values(|task: SaveTask| task@)
}

/// The captions of the items that were changed since they were loaded or saved.
pub open spec fn unsaved_captions(items: Seq<ItemView>, backup: bool) -> Seq<SaveView>
    decreases items.len(),
{
    if items.len() == 0 {
        Seq::<SaveView>::empty()
    } else {
        let rest = unsaved_captions(items.drop_last(), backup);
        let item = items.last();
        if is_dirty(item) {
            rest.push(
                SaveView {
                    tag_path: item.tag_path,
                    image_path: item.image_path,
                    text: caption(item.tags),
                    backup,
                },
            )
        } else {
            rest
        }
    }
}

/// The items with their tags taken as saved.
pub open spec fn all_saved(items: Seq<ItemView>) -> Seq<ItemView> {
    Seq::new(items.len(), |i: int| ItemView { original: items[i].tags, ..items[i] })
}

impl Dataset {
    /// The captions that a save writes: those of the items that were changed.
    /// Existing caption files are kept as backups where `create_backups` is set.
    pub fn save_all_with_backups(&self, create_backups: bool) -> (tasks: Vec<SaveTask>)
        ensures
            task_views(tasks@) == unsaved_captions(self@.items, create_backups),
    {
        let ghost all = item_views(self.items@);
        let mut tasks: Vec<SaveTask> = Vec::new();
        assert(task_views(tasks@) =~= Seq::empty());
        for i in 0..self.items.len()
            invariant
                all == item_views(self.items@),
                task_views(tasks@) == unsaved_captions(all.take(i as int), create_backups),
        {
            let ghost before = tasks@;
            assert(all.take(i + 1).drop_last() =~= all.take(i as int));
            assert(all.take(i + 1).last() == self.items@[i as int]@);
            if self.items[i].is_modified() {
                let task = SaveTask {
                    tag_path: self.items[i].tag_path.clone(),
                    image_path: self.items[i].image_path.clone(),
                    text: self.items[i].tag_text(),
                    backup: create_backups,
                };
                tasks.push(task);
                assert(task_views(tasks@) =~= task_views(before).push(task@));
            }
        }
        assert(all.take(self.items@.len() as int) =~= all);
        tasks
    }

    /// The captions that a save without backups writes.
    pub fn save_all(&self) -> (tasks: Vec<SaveTask>)
        ensures
            task_views(tasks@) == unsaved_captions(self@.items, false),
    {
        self.save_all_with_backups(false)
    }

    /// The same as [`Dataset::save_all`].
    pub fn save(&self) -> (tasks: Vec<SaveTask>)
        ensures
            task_views(tasks@) == unsaved_captions(self@.items, false),
    {
        self.save_all()
    }

    /// Ends a save of which the first `written` captions were written. Where
    /// that is all of them, the items are taken as saved, and their number is
    /// returned. Otherwise nothing changes, so that they are written again.
    pub fn finish_save(&mut self, written: usize) -> (saved: Option<usize>)
        ensures
            saved is Some <==> written == unsaved_captions(old(self)@.items, false).len(),
            saved matches Some(count) ==> count == written && final(self)@ == (DatasetView {
                items: all_saved(old(self)@.items),
                ..old(self)@
            }),
            saved is None ==> final(self)@ == old(self)@,
    {
        let count: usize = self.modified_indices().len();
        proof {
            lemma_unsaved_count(self@.items);
        }
        if written == count {
            self.mark_saved();
            Some(count)
        } else {
            None
        }
    }

    /// Marks current in-memory values as the clean baseline without writing.
    pub fn mark_saved(&mut self)
        ensures
            final(self)@ == (DatasetView { items: all_saved(old(self)@.items), ..old(self)@ }),
    {
        let ghost all = item_views(self.items@);
        let ghost target = all_saved(all);
        let count: usize = self.items.len();
        for i in 0..count
            invariant
                count == all.len(),
                all.len() == self.items@.len(),
                target == all_saved(all),
                self.root == old(self).root,
                self.history == old(self).history,
                forall|k: int| 0 <= k < i ==> (#[trigger] self.items@[k])@ == target[k],
                forall|k: int| i <= k < all.len() ==> (#[trigger] self.items@[k])@ == all[k],
        {
            assert(self.items@[i as int]@ == all[i as int]);
            let tags = copy_strings(&self.items[i].tags);
            self.items[i].original_tags = tags;
            assert(self.items@[i as int]@ == target[i as int]);
        }
        assert(self@.items =~= target);
    }

    /// Whether the tags of an item differ from those that were loaded or saved.
    pub fn is_modified(&self, index: usize) -> (yes: bool)
        ensures
            yes == (index < self@.items.len() && is_dirty(self@.items[index as int])),
    {
        if index < self.items.len() {
            self.items[index].is_modified()
        } else {
            false
        }
    }

    /// The places of the items that were changed.
    pub fn modified_indices(&self) -> (indices: Vec<usize>)
        ensures
            indices@ == places(self@.items, |item: ItemView| is_dirty(item)),
    {
        let ghost all = item_views(self.items@);
        let ghost keep = |item: ItemView| is_dirty(item);
        let mut indices: Vec<usize> = Vec::new();
        for i in 0..self.items.len()
            invariant
                all == item_views(self.items@),
                keep == (|item: ItemView| is_dirty(item)),
                indices@ == places(all.take(i as int), keep),
        {
            assert(all.take(i + 1).drop_last() =~= all.take(i as int));
            if self.items[i].is_modified() {
                indices.push(i);
            }
        }
        assert(all.take(self.items@.len() as int) =~= all);
        indices
    }

    /// Whether some item was changed.
    pub fn has_unsaved_changes(&self) -> (yes: bool)
        ensures
            yes == exists|i: int| 0 <= i < self@.items.len() && is_dirty(#[trigger] self@.items[i]),
    {
        for i in 0..self.items.len()
            invariant
                forall|k: int| 0 <= k < i ==> !is_dirty(#[trigger] self@.items[k]),
        {
            assert(self@.items[i as int] == self.items@[i as int]@);
            if self.items[i].is_modified() {
                return true;
            }
        }
        false
    }
}

proof fn lemma_unsaved_count(items: Seq<ItemView>)
    ensures
        unsaved_captions(items, false).len() == places(
            items,
            |item: ItemView| is_dirty(item),
        ).len(),
    decreases items.len(),
{
    if items.len() > 0 {
        lemma_unsaved_count(items.drop_last());
    }
}

// ----- Laws ----------------------------------------------------------------

/// What a load reads of a caption that was saved are the tags that were saved,
/// for every list of tags, and the item that it makes is unchanged.
pub proof fn law_saved_caption_loads(
    path: Seq<char>,
    tags: Seq<Seq<char>>,
    suffix: Seq<char>,
    filename_fallback: bool,
)
    requires
        all_tags(tags),
    ensures
        ({
            let file = FoundView { path, caption: Some(encode_utf8(caption(tags))) };
            let item = loaded_item(file, suffix, filename_fallback);
            &&& !is_unreadable(file)
            &&& item.tags == tags
            &&& !is_dirty(item)
        }),
{
    broadcast use vstd::utf8::encode_utf8_decode_utf8, vstd::utf8::encode_utf8_valid_utf8;

    law_caption_round_trip(tags);
}

/// After a save that wrote every caption nothing is left to be saved.
pub proof fn law_saved_is_clean(items: Seq<ItemView>, backup: bool)
    ensures
        forall|i: int| 0 <= i < items.len() ==> !is_dirty(#[trigger] all_saved(items)[i]),
        unsaved_captions(all_saved(items), backup).len() == 0,
    decreases items.len(),
{
    if items.len() > 0 {
        law_saved_is_clean(items.drop_last(), backup);
        assert(all_saved(items).drop_last() =~= all_saved(items.drop_last()));
    }
}

} // verus!
