//! The grid of images: the check marks, the rows, the cards and what a click on
//! a tag does.

use vstd::prelude::*;

use crate::dataset::{all_selected, item_edited, listed, places, Dataset, DatasetView};
use crate::editor::{
    items_of, negative_terms, positive_terms, shows_item, visible_places, Editor, EditorView,
};
use crate::item::{is_dirty, DatasetItem, ItemView};
use crate::laws::law_places;
use crate::paths::stem_of;
use crate::tag_picker::{PickerView, TagPicker};
use crate::tags::without;
use crate::text::{decimal, decimal_text, first_chars, shortened, trimmed};

verus! {

// ----- Check marks ---------------------------------------------------------

/// A dataset after check marks were set on the listed items, or turned over.
pub open spec fn marked(data: DatasetView, indices: Seq<usize>, turn: bool) -> DatasetView {
    DatasetView {
        items: Seq::new(
            data.items.len(),
            |i: int|
                if listed(indices, i) {
                    ItemView { selected: !(turn && data.items[i].selected), ..data.items[i] }
                } else {
                    data.items[i]
                },
        ),
        ..data
    }
}

/// The editor after the check marks of the items that the filters show were set
/// or turned over.
pub open spec fn visible_marked(editor: EditorView, turn: bool) -> EditorView {
    match editor.data {
        Some(data) => EditorView {
            data: Some(marked(data, visible_places(editor), turn)),
            ..editor
        },
        None => editor,
    }
}

fn mark(data: &mut Dataset, indices: &Vec<usize>, turn: bool)
    requires
        forall|a: int, b: int|
            0 <= a < b < indices@.len() ==> #[trigger] indices@[a] < #[trigger] indices@[b],
    ensures
        final(data)@ == marked(old(data)@, indices@, turn),
{
    let ghost start = data@;
    assert(marked(start, indices@.take(0), turn).items =~= start.items);
    assert(marked(start, indices@.take(0), turn) =~= start);
    for k in 0..indices.len()
        invariant
            forall|a: int, b: int|
                0 <= a < b < indices@.len() ==> #[trigger] indices@[a] < #[trigger] indices@[b],
            data@ == marked(start, indices@.take(k as int), turn),
    {
        let index: usize = indices[k];
        let ghost before = data@;
        let ghost done = indices@.take(k as int);
        let ghost next = indices@.take(k + 1);
        proof {
            assert(next[k as int] == index);
            assert forall|i: int| #[trigger] listed(next, i) <==> listed(done, i) || i == index by {
                if listed(done, i) {
                    let j = choose|j: int| 0 <= j < done.len() && done[j] == i;
                    assert(next[j] == i);
                }
                if listed(next, i) {
                    let j = choose|j: int| 0 <= j < next.len() && next[j] == i;
                    if j < k {
                        assert(done[j] == i);
                    }
                }
                if i == index {
                    assert(next[k as int] == i);
                }
            }
            if listed(done, index as int) {
                let j = choose|j: int| 0 <= j < done.len() && done[j] == index;
                assert(indices@[j] < indices@[k as int]);
            }
        }
        if turn {
            data.toggle_selected(index);
        } else {
            data.set_selected(index, true);
        }
        assert(data@.items =~= marked(start, next, turn).items);
        assert(data@ =~= marked(start, next, turn));
    }
    assert(indices@.take(indices@.len() as int) =~= indices@);
}

impl Editor {
    /// The places of the items that the filters show, for use while the dataset
    /// is edited.
    fn visible_once(&self) -> (indices: Vec<usize>)
        ensures
            indices@ == visible_places(self@),
            forall|a: int, b: int|
                0 <= a < b < indices@.len() ==> #[trigger] indices@[a] < #[trigger] indices@[b],
    {
        let indices = self.visible();
        match &self.data {
            Some(data) => {
                let count: usize = data.len();
                proof {
                    let editor = self@;
                    let positive = positive_terms(editor);
                    let negative = negative_terms(editor);
                    assert(items_of(editor).len() == count);
                    law_places(
                        items_of(editor),
                        |item: ItemView|
                            shows_item(editor.filters, positive, negative, item),
                    );
                }
            },
            None => {
                assert(items_of(self@) =~= Seq::empty());
            },
        }
        indices
    }

    /// Checks every item that the filters show.
    pub fn select_visible(&mut self)
        ensures
            final(self)@ == visible_marked(old(self)@, false),
    {
        let indices = self.visible_once();
        match &mut self.data {
            Some(data) => {
                mark(data, &indices, false);
            },
            None => {},
        }
    }

    /// Turns the check mark of every item over that the filters show.
    pub fn invert_visible(&mut self)
        ensures
            final(self)@ == visible_marked(old(self)@, true),
    {
        let indices = self.visible_once();
        match &mut self.data {
            Some(data) => {
                mark(data, &indices, true);
            },
            None => {},
        }
    }

    /// Takes every check mark away.
    pub fn clear_selection(&mut self)
        ensures
            final(self)@ == match old(self)@.data {
                Some(data) => EditorView {
                    data: Some(all_selected(data, false)),
                    ..old(self)@
                },
                None => old(self)@,
            },
    {
        match &mut self.data {
            Some(data) => {
                data.clear_selection();
            },
            None => {},
        }
    }

    /// How many items there are, how many of them have changes, and how many are
    /// checked.
    pub fn counts(&self) -> (counts: (usize, usize, usize))
        ensures
            counts.0 == items_of(self@).len(),
            counts.1 == places(items_of(self@), |item: ItemView| is_dirty(item)).len(),
            counts.2 == places(items_of(self@), |item: ItemView| item.selected).len(),
    {
        match &self.data {
            Some(data) => (data.len(), data.modified_indices().len(), data.selected_indices().len()),
            None => (0, 0, 0),
        }
    }
}

// ----- Rows ----------------------------------------------------------------

/// The number of rows that so many cards take.
pub open spec fn rows_of(count: nat, columns: nat) -> nat {
    if count % columns == 0 {
        count / columns
    } else {
        count / columns + 1
    }
}

/// The number of rows that so many cards take.
pub fn row_count(count: usize, columns: usize) -> (rows: usize)
    requires
        columns > 0,
    ensures
        rows == rows_of(count as nat, columns as nat),
{
    let full: usize = count / columns;
    if count % columns == 0 {
        full
    } else {
        proof {
            let a = count as int;
            let b = columns as int;
            assert(a / b < usize::MAX) by (nonlinear_arith)
                requires
                    0 <= a <= usize::MAX,
                    b > 0,
                    a % b != 0,
            {
                if b == 1 {
                } else {
                    assert(a / b <= a / 2);
                }
            }
        }
        full + 1
    }
}

/// The card at a place of the grid, where there is one.
pub fn card_at(row: usize, column: usize, columns: usize, count: usize) -> (place: Option<usize>)
    requires
        column < columns,
    ensures
        match place {
            Some(place) => place == row * columns + column && place < count,
            None => row * columns + column >= count,
        },
{
    match row.checked_mul(columns) {
        Some(start) => match start.checked_add(column) {
            Some(place) => if place < count {
                Some(place)
            } else {
                None
            },
            None => None,
        },
        None => None,
    }
}

/// Every card has one place in the grid.
pub proof fn law_grid_places(count: nat, columns: nat, place: nat)
    requires
        columns > 0,
        place < count,
    ensures
        place / columns < rows_of(count, columns),
        place % columns < columns,
        (place / columns) * columns + place % columns == place,
{
    let row = place / columns;
    let column = place % columns;
    let full = count / columns;
    let left = count % columns;
    assert(row * columns + column == place && column < columns && full * columns + left == count
        && left < columns) by (nonlinear_arith)
        requires
            columns > 0,
            row == place / columns,
            column == place % columns,
            full == count / columns,
            left == count % columns,
    ;
    assert(row < full || (row == full && left > 0)) by (nonlinear_arith)
        requires
            row * columns + column == place,
            full * columns + left == count,
            place < count,
            column >= 0,
            left < columns,
    ;
}

// ----- Cards ---------------------------------------------------------------

/// How much of a file's name a card shows.
pub const TITLE_LENGTH: usize = 18;

/// How much of a tag a card shows.
pub const TAG_LENGTH: usize = 15;

/// How many tags a card shows.
pub const CARD_TAGS: usize = 3;

/// The title of a card.
pub fn card_title(item: &DatasetItem) -> (title: String)
    ensures
        title@ == match stem_of(item@.image_path) {
            Some(stem) => shortened(stem, TITLE_LENGTH as nat),
            None => Seq::<char>::empty(),
        },
{
    let stem = item.stem();
    let title = first_chars(stem.as_str(), TITLE_LENGTH);
    assert(title@ =~= match stem_of(item@.image_path) {
        Some(stem) => shortened(stem, TITLE_LENGTH as nat),
        None => Seq::<char>::empty(),
    });
    title
}

/// What a card shows of a tag.
pub fn card_tag(tag: &str) -> (text: String)
    ensures
        text@ == shortened(tag@, TAG_LENGTH as nat),
{
    first_chars(tag, TAG_LENGTH)
}

/// What a card says of the tags that it does not show.
pub fn more_tags(item: &DatasetItem) -> (text: Option<String>)
    ensures
        match text {
            Some(text) => item@.tags.len() > CARD_TAGS && text@ == "+"@ + decimal(
                (item@.tags.len() - CARD_TAGS) as nat,
            ),
            None => item@.tags.len() <= CARD_TAGS,
        },
{
    if item.tags.len() > CARD_TAGS {
        let mut text = "+".to_owned();
        text.append(decimal_text((item.tags.len() - CARD_TAGS) as u128).as_str());
        Some(text)
    } else {
        None
    }
}

// ----- Clicks --------------------------------------------------------------

/// The keys that are held while a tag is clicked.
#[derive(Clone, Copy, Debug, PartialEq, Eq, Structural)]
pub struct Modifiers {
    pub shift: bool,
    pub ctrl: bool,
    pub alt: bool,
}

/// A selection with a tag put into it, or taken out of it.
pub open spec fn toggled(selected: Set<Seq<char>>, tag: Seq<char>) -> Set<Seq<char>> {
    if selected.contains(tag) {
        selected.remove(tag)
    } else {
        selected.insert(tag)
    }
}

/// A dataset after a tag was removed from an item. Where the item does not have
/// it, everything stays as it is.
pub open spec fn tag_removed(data: DatasetView, index: int, tag: Seq<char>) -> DatasetView {
    if index >= data.items.len() || trimmed(tag).len() == 0 {
        data
    } else {
        let tags = without(data.items[index].tags, trimmed(tag));
        if tags != data.items[index].tags {
            item_edited(data, index, tags)
        } else {
            data
        }
    }
}

/// The editor after a click on a tag of an item: with Shift the tag is removed
/// from it, with Ctrl it is put into the positive filter, with Alt into the
/// negative one, without a key into the selection for batch edits. A click on a
/// tag that is there takes it out again.
pub open spec fn tag_clicked(
    editor: EditorView,
    index: int,
    tag: Seq<char>,
    held: Modifiers,
) -> EditorView {
    if held.shift {
        match editor.data {
            Some(data) => EditorView {
                data: Some(tag_removed(data, index, tag)),
                caption_for: None,
                ..editor
            },
            None => editor,
        }
    } else if held.ctrl {
        EditorView {
            positive: PickerView {
                selected: toggled(editor.positive.selected, tag),
                ..editor.positive
            },
            ..editor
        }
    } else if held.alt {
        EditorView {
            negative: PickerView {
                selected: toggled(editor.negative.selected, tag),
                ..editor.negative
            },
            ..editor
        }
    } else {
        EditorView {
            batch: PickerView { selected: toggled(editor.batch.selected, tag), ..editor.batch },
            ..editor
        }
    }
}

fn toggle(picker: &mut TagPicker, tag: &str)
    ensures
        final(picker)@ == (PickerView {
            selected: toggled(old(picker)@.selected, tag@),
            ..old(picker)@
        }),
{
    let mut tags = picker.selected_tags();
    if !tags.remove(tag) {
        assert(picker@.selected.remove(tag@) =~= picker@.selected);
        tags.insert(tag);
    }
    picker.set_selected_tags(tags.list());
}

impl Editor {
    /// Does what a click on a tag of an item asks for.
    pub fn click_tag(&mut self, index: usize, tag: &str, held: Modifiers)
        ensures
            final(self)@ == tag_clicked(old(self)@, index as int, tag@, held),
    {
        if held.shift {
            match &mut self.data {
                Some(data) => {
                    data.remove_tag(index, tag);
                    self.caption_for = None;
                },
                None => {},
            }
        } else if held.ctrl {
            toggle(&mut self.positive_picker, tag);
        } else if held.alt {
            toggle(&mut self.negative_picker, tag);
        } else {
            toggle(&mut self.batch_picker, tag);
        }
    }
}

} // verus!
