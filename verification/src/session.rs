//! Opening, saving and leaving: the caption that is being edited, the dataset
//! that is open, and the questions about changes that are not saved.

use vstd::prelude::*;

use crate::batch::{text_changes, texts_edited, update_views};
use crate::dataset::{item_edited, redone, selection_set, undone, Dataset, DatasetView};
use crate::editor::{
    has_changes, items_of, visible_places, Editor, EditorView, Panel, QuestionsView, Status,
    StatusView,
};
use crate::storage::{
    all_saved, caption_suffix, found_views, in_load_order, is_load_result, strip_dots, task_views,
    unsaved_captions, without_dots, DatasetError, FoundFile, SaveTask,
};
use crate::tags::{caption, parsed};
use crate::text::{same_text, trim};

verus! {

// ----- The caption that is being edited ------------------------------------

/// A dataset after the caption of an item was written. A place that names no
/// item changes nothing.
pub open spec fn captioned(data: DatasetView, index: int, text: Seq<char>) -> DatasetView {
    if index < data.items.len() {
        item_edited(data, index, parsed(text))
    } else {
        data
    }
}

/// The caption of the current item.
pub open spec fn current_caption(editor: EditorView) -> Seq<char> {
    match editor.current {
        Some(index) => if index < items_of(editor).len() {
            caption(items_of(editor)[index as int].tags)
        } else {
            Seq::<char>::empty()
        },
        None => Seq::<char>::empty(),
    }
}

/// The editor after the text field was filled for the current item.
pub open spec fn synced(editor: EditorView) -> EditorView {
    if editor.caption_for == editor.current {
        editor
    } else {
        EditorView {
            caption_for: editor.current,
            caption: current_caption(editor),
            ..editor
        }
    }
}

/// The editor after the text of the text field was written to an item.
pub open spec fn written_to(editor: EditorView, target: Option<usize>) -> EditorView {
    match (target, editor.data) {
        (Some(index), Some(data)) => EditorView {
            data: Some(captioned(data, index as int, editor.caption)),
            ..editor
        },
        _ => editor,
    }
}

/// The editor after the text of the text field was written to the item that it
/// belongs to.
pub open spec fn committed(editor: EditorView) -> EditorView {
    written_to(editor, editor.caption_for)
}

/// One caption for each of the places.
pub open spec fn same_caption(places: Seq<usize>, text: Seq<char>) -> Seq<(usize, Seq<char>)> {
    places.map_values(|place: usize| (place, text))
}

/// The editor after captions were updated: the text field has to be filled
/// again.
pub open spec fn texts_applied(
    editor: EditorView,
    updates: Seq<(usize, Seq<char>)>,
    status: StatusView,
) -> EditorView {
    match editor.data {
        Some(data) => EditorView {
            data: Some(texts_edited(data, updates)),
            caption_for: None,
            status,
            ..editor
        },
        None => editor,
    }
}

/// How many updates change a caption.
pub open spec fn changes_of(editor: EditorView, updates: Seq<(usize, Seq<char>)>) -> usize {
    text_changes(items_of(editor), updates) as usize
}

impl Editor {
    /// Fills the text field for the current item, where it belongs to another.
    pub fn sync_caption(&mut self)
        ensures
            final(self)@ == synced(old(self)@),
    {
        let same = match (self.caption_for, self.current) {
            (Some(a), Some(b)) => a == b,
            (None, None) => true,
            _ => false,
        };
        if same {
            return;
        }
        self.caption_for = self.current;
        self.caption = match (self.current, &self.data) {
            (Some(index), Some(data)) => match data.item(index) {
                Some(item) => {
                    assert(item@ == items_of(old(self)@)[index as int]);
                    item.tag_text()
                },
                None => String::new(),
            },
            _ => String::new(),
        };
        assert(self@ =~= synced(old(self)@));
    }

    fn write_to(&mut self, target: Option<usize>)
        ensures
            final(self)@ == written_to(old(self)@, target),
    {
        match (target, &mut self.data) {
            (Some(index), Some(data)) => {
                data.set_tag_text(index, self.caption.as_str());
            },
            _ => {},
        }
    }

    /// Writes the text of the text field to the item that it belongs to.
    pub fn commit_caption(&mut self)
        ensures
            final(self)@ == committed(old(self)@),
    {
        self.write_to(self.caption_for);
    }

    /// Writes the text of the text field to the current item.
    pub fn apply_caption(&mut self)
        ensures
            final(self)@ == written_to(old(self)@, old(self)@.current),
    {
        self.write_to(self.current);
    }

    /// Writes the text of the text field to every item that the filters show,
    /// in one step of the history.
    pub fn apply_caption_to_visible(&mut self)
        ensures
            ({
                let updates = same_caption(visible_places(old(self)@), old(self)@.caption);
                final(self)@ == texts_applied(
                    old(self)@,
                    updates,
                    StatusView::Done(changes_of(old(self)@, updates)),
                )
            }),
    {
        let places = self.visible();
        let mut updates: Vec<(usize, String)> = Vec::new();
        let ghost text = self.caption@;
        for i in 0..places.len()
            invariant
                text == self.caption@,
                update_views(updates@) == same_caption(places@.take(i as int), text),
        {
            let ghost before = updates@;
            updates.push((places[i], self.caption.clone()));
            assert(update_views(updates@) =~= update_views(before).push((places@[i as int], text)));
            assert(update_views(updates@) =~= same_caption(places@.take(i + 1), text));
        }
        assert(places@.take(places@.len() as int) =~= places@);
        match &mut self.data {
            Some(data) => {
                let changed = data.set_tag_texts(updates.as_slice());
                self.status = Status::Done(changed);
                self.caption_for = None;
            },
            None => {},
        }
    }

    /// Shows another panel. On leaving the caption panel, the text of its text
    /// field is written.
    pub fn select_panel(&mut self, panel: Panel)
        ensures
            final(self)@ == (EditorView {
                panel,
                ..if old(self)@.panel == Panel::Edit && panel != Panel::Edit {
                    committed(old(self)@)
                } else {
                    old(self)@
                }
            }),
    {
        let leaving = self.panel == Panel::Edit && panel != Panel::Edit;
        self.panel = panel;
        if leaving {
            self.commit_caption();
        }
    }

    /// Makes another item the current one. The text of the text field is
    /// written first.
    pub fn choose_item(&mut self, index: usize)
        ensures
            final(self)@ == (EditorView {
                current: Some(index),
                caption_for: None,
                ..committed(old(self)@)
            }),
    {
        self.commit_caption();
        self.current = Some(index);
        self.caption_for = None;
    }
}

// ----- Going back and forth ------------------------------------------------

/// The keys that edit the dataset.
#[derive(Clone, Copy, Debug, PartialEq, Eq, Structural)]
pub struct EditKeys {
    pub undo: bool,
    pub redo: bool,
    /// Checks the current item.
    pub check: bool,
    /// Takes the check mark of the current item away.
    pub uncheck: bool,
}

/// The editor after a step back.
pub open spec fn stepped_back(editor: EditorView) -> EditorView {
    match editor.data {
        Some(data) => EditorView { data: Some(undone(data)), caption_for: None, ..editor },
        None => editor,
    }
}

/// The editor after a step forth.
pub open spec fn stepped_forth(editor: EditorView) -> EditorView {
    match editor.data {
        Some(data) => EditorView { data: Some(redone(data)), caption_for: None, ..editor },
        None => editor,
    }
}

/// The editor after an item got a check mark or lost it.
pub open spec fn checked(editor: EditorView, target: Option<usize>, selected: bool) -> EditorView {
    match (target, editor.data) {
        (Some(index), Some(data)) => EditorView {
            data: Some(selection_set(data, index as int, selected)),
            ..editor
        },
        _ => editor,
    }
}

/// The editor after one of the keys, where it was pressed.
pub open spec fn after_key(editor: EditorView, pressed: bool, after: EditorView) -> EditorView {
    if pressed {
        after
    } else {
        editor
    }
}

/// The editor after keys were pressed, one after the other.
pub open spec fn after_keys(editor: EditorView, keys: EditKeys) -> EditorView {
    let a = after_key(editor, keys.undo, stepped_back(editor));
    let b = after_key(a, keys.redo, stepped_forth(a));
    let c = after_key(b, keys.check, checked(b, b.current, true));
    after_key(c, keys.uncheck, checked(c, c.current, false))
}

impl Editor {
    /// Takes the last change back.
    pub fn undo(&mut self)
        ensures
            final(self)@ == stepped_back(old(self)@),
    {
        match &mut self.data {
            Some(data) => {
                data.undo();
                self.caption_for = None;
            },
            None => {},
        }
    }

    /// Makes the last change that was taken back again.
    pub fn redo(&mut self)
        ensures
            final(self)@ == stepped_forth(old(self)@),
    {
        match &mut self.data {
            Some(data) => {
                data.redo();
                self.caption_for = None;
            },
            None => {},
        }
    }

    /// Whether there is a change to take back.
    pub fn can_undo(&self) -> (yes: bool)
        ensures
            yes == (self@.data matches Some(data) && data.undo.len() > 0),
    {
        match &self.data {
            Some(data) => data.can_undo(),
            None => false,
        }
    }

    /// Whether there is a change to make again.
    pub fn can_redo(&self) -> (yes: bool)
        ensures
            yes == (self@.data matches Some(data) && data.redo.len() > 0),
    {
        match &self.data {
            Some(data) => data.can_redo(),
            None => false,
        }
    }

    fn check(&mut self, target: Option<usize>, selected: bool)
        ensures
            final(self)@ == checked(old(self)@, target, selected),
    {
        match (target, &mut self.data) {
            (Some(index), Some(data)) => {
                data.set_selected(index, selected);
            },
            _ => {},
        }
    }

    /// Sets the check mark of an item.
    pub fn check_item(&mut self, index: usize, selected: bool)
        ensures
            final(self)@ == checked(old(self)@, Some(index), selected),
    {
        self.check(Some(index), selected);
    }

    /// Does what the pressed keys ask for. While a text is being edited they
    /// are its own.
    pub fn edit_keys(&mut self, keys: EditKeys, text_has_focus: bool)
        ensures
            final(self)@ == if text_has_focus {
                old(self)@
            } else {
                after_keys(old(self)@, keys)
            },
    {
        if text_has_focus {
            return;
        }
        if keys.undo {
            self.undo();
        }
        if keys.redo {
            self.redo();
        }
        if keys.check {
            self.check(self.current, true);
        }
        if keys.uncheck {
            self.check(self.current, false);
        }
    }
}

// ----- Opening -------------------------------------------------------------

/// The editor after a dataset was put into it. The first item is the current
/// one.
pub open spec fn with_data(editor: EditorView, data: DatasetView) -> EditorView {
    EditorView {
        data: Some(data),
        current: if data.items.len() > 0 {
            Some(0usize)
        } else {
            None
        },
        caption_for: None,
        loaded_extension: editor.settings.caption_extension,
        ..editor
    }
}

/// Whether the editor is as it is after files were loaded, with the given
/// status where that succeeded. A refused load changes the status only.
pub open spec fn is_loaded(
    before: EditorView,
    after: EditorView,
    root: Seq<char>,
    found: Seq<FoundFile>,
    status: StatusView,
) -> bool {
    let settings = before.settings;
    exists|result: Result<Dataset, DatasetError>|
        {
            &&& #[trigger] is_load_result(
                result,
                root,
                found_views(found),
                settings.caption_extension,
                settings.filename_fallback,
            )
            &&& match result {
                Ok(data) => after == (EditorView { status, ..with_data(before, data@) }),
                Err(error) => after == (EditorView {
                    status: StatusView::Failure(error.text()),
                    ..before
                }),
            }
        }
}

/// How many images are among the files.
pub open spec fn image_count(found: Seq<FoundFile>) -> usize {
    in_load_order(found_views(found)).len() as usize
}

impl Editor {
    fn put_data(&mut self, data: Dataset)
        ensures
            final(self)@ == with_data(old(self)@, data@),
    {
        let count = data.len();
        self.data = Some(data);
        self.current = if count > 0 {
            Some(0)
        } else {
            None
        };
        self.caption_for = None;
        self.loaded_extension = self.settings.caption_extension.clone();
    }

    /// Opens a dataset. Returns whether it could be loaded.
    pub fn open(&mut self, root: &str, found: &[FoundFile]) -> (opened: bool)
        ensures
            is_loaded(
                old(self)@,
                final(self)@,
                root@,
                found@,
                StatusView::Opened { path: root@, count: image_count(found@) },
            ),
            opened <==> final(self)@.status is Opened,
    {
        let result = Dataset::open_with_options(
            root,
            found,
            self.settings.caption_extension.as_str(),
            self.settings.filename_fallback,
        );
        let ghost outcome = result;
        let opened = match result {
            Ok(data) => {
                let count = data.len();
                self.put_data(data);
                self.status = Status::Opened { path: root.to_owned(), count };
                true
            },
            Err(error) => {
                self.status = Status::Failure(error.message());
                false
            },
        };
        proof {
            let settings = old(self)@.settings;
            assert(is_load_result(
                outcome,
                root@,
                found_views(found@),
                settings.caption_extension,
                settings.filename_fallback,
            ));
        }
        opened
    }

    /// Loads the files of the dataset again. Returns whether they could be
    /// loaded.
    pub fn reload(&mut self, root: &str, found: &[FoundFile]) -> (reloaded: bool)
        ensures
            is_loaded(old(self)@, final(self)@, root@, found@, old(self)@.status),
            !reloaded ==> final(self)@.status is Failure,
            reloaded ==> final(self)@.status == old(self)@.status,
    {
        let result = Dataset::open_with_options(
            root,
            found,
            self.settings.caption_extension.as_str(),
            self.settings.filename_fallback,
        );
        let ghost outcome = result;
        let reloaded = match result {
            Ok(data) => {
                self.put_data(data);
                true
            },
            Err(error) => {
                self.status = Status::Failure(error.message());
                false
            },
        };
        proof {
            let settings = old(self)@.settings;
            assert(is_load_result(
                outcome,
                root@,
                found_views(found@),
                settings.caption_extension,
                settings.filename_fallback,
            ));
        }
        reloaded
    }

    /// Says in the status line that something failed.
    pub fn fail(&mut self, cause: &str)
        ensures
            final(self)@ == (EditorView { status: StatusView::Failure(cause@), ..old(self)@ }),
    {
        self.status = Status::Failure(cause.to_owned());
    }

    /// Whether the tagger leaves the dataset alone. While it is at work, the
    /// status line says so.
    pub fn is_free(&mut self) -> (free: bool)
        ensures
            free == !old(self)@.worker.busy,
            final(self)@ == if free {
                old(self)@
            } else {
                EditorView { status: StatusView::Busy, ..old(self)@ }
            },
    {
        if self.worker.busy {
            self.status = Status::Busy;
            false
        } else {
            true
        }
    }

    /// The user wants to open a dataset. Returns whether to ask for one now:
    /// where there are changes that are not saved, the user is asked first.
    pub fn request_open(&mut self) -> (now: bool)
        ensures
            now == (!old(self)@.worker.busy && !has_changes(committed(old(self)@))),
            final(self)@ == if old(self)@.worker.busy {
                EditorView { status: StatusView::Busy, ..old(self)@ }
            } else if now {
                committed(old(self)@)
            } else {
                let editor = committed(old(self)@);
                EditorView {
                    questions: QuestionsView { open: true, ..editor.questions },
                    ..editor
                }
            },
    {
        if !self.is_free() {
            return false;
        }
        self.commit_caption();
        if self.has_unsaved_changes() {
            self.questions.open = true;
            false
        } else {
            true
        }
    }

    /// The folder of the dataset that can be loaded again.
    pub fn root(&self) -> (root: Option<String>)
        ensures
            match root {
                Some(root) => self@.data matches Some(data) && data.root == root@,
                None => self@.data is None,
            },
    {
        match &self.data {
            Some(data) => Some(data.root.clone()),
            None => None,
        }
    }
}

// ----- Saving --------------------------------------------------------------

/// Whether captions would be written to other files than they were read from.
pub open spec fn extension_changed(editor: EditorView) -> bool {
    without_dots(editor.loaded_extension) != caption_suffix(editor.settings.caption_extension)
}

impl Editor {
    /// The user wants to save. Returns what has to be written. Where the
    /// extension of caption files was changed since the dataset was loaded,
    /// nothing is written, and the status line says so.
    pub fn save(&mut self) -> (tasks: Option<Vec<SaveTask>>)
        ensures
            tasks is Some <==> old(self)@.data is Some && !extension_changed(old(self)@),
            tasks matches Some(list) ==> task_views(list@) == unsaved_captions(
                items_of(committed(old(self)@)),
                old(self)@.settings.backup_on_save,
            ),
            final(self)@ == if old(self)@.data is Some && extension_changed(old(self)@) {
                EditorView { status: StatusView::ExtensionChanged, ..committed(old(self)@) }
            } else {
                committed(old(self)@)
            },
    {
        self.commit_caption();
        match &self.data {
            Some(data) => {
                let loaded_suffix = strip_dots(self.loaded_extension.as_str());
                let setting = trim(self.settings.caption_extension.as_str());
                let suffix = strip_dots(setting.as_str());
                if !same_text(loaded_suffix.as_str(), suffix.as_str()) {
                    self.status = Status::ExtensionChanged;
                    return None;
                }
                Some(data.save_all_with_backups(self.settings.backup_on_save))
            },
            None => None,
        }
    }

    /// What has to be written was written, or that failed. Where all of it was
    /// written, the items are as they were saved.
    pub fn finish_save(&mut self, outcome: Result<usize, String>)
        ensures
            outcome matches Err(cause) ==> final(self)@ == if old(self)@.data is Some {
                EditorView { status: StatusView::Failure(cause@), ..old(self)@ }
            } else {
                old(self)@
            },
            outcome matches Ok(written) ==> final(self)@ == match old(self)@.data {
                Some(data) => if written == unsaved_captions(data.items, false).len() {
                    EditorView {
                        data: Some(DatasetView { items: all_saved(data.items), ..data }),
                        status: StatusView::Done(written),
                        ..old(self)@
                    }
                } else {
                    old(self)@
                },
                None => old(self)@,
            },
    {
        match &mut self.data {
            Some(data) => match outcome {
                Ok(written) => match data.finish_save(written) {
                    Some(count) => {
                        self.status = Status::Done(count);
                    },
                    None => {},
                },
                Err(cause) => {
                    self.status = Status::Failure(cause);
                },
            },
            None => {},
        }
    }
}

// ----- Questions -----------------------------------------------------------

/// The editor with the question about opening answered.
pub open spec fn open_answered(editor: EditorView) -> EditorView {
    EditorView {
        questions: QuestionsView { open: false, ..editor.questions },
        ..editor
    }
}

/// The editor with leaving agreed to.
pub open spec fn exit_agreed(editor: EditorView) -> EditorView {
    EditorView {
        questions: QuestionsView { may_exit: true, ..editor.questions },
        ..editor
    }
}

/// The editor after it was asked whether the tagger leaves the dataset alone.
pub open spec fn told_busy(editor: EditorView) -> EditorView {
    if editor.worker.busy {
        EditorView { status: StatusView::Busy, ..editor }
    } else {
        editor
    }
}

impl Editor {
    /// The user asked for the changes to be saved before another dataset is
    /// opened, and saving was tried. Returns whether to ask for a dataset now:
    /// the question stays where changes are left.
    pub fn saved_before_open(&mut self) -> (now: bool)
        ensures
            now == (!has_changes(old(self)@) && !old(self)@.worker.busy),
            final(self)@ == if has_changes(old(self)@) {
                old(self)@
            } else {
                told_busy(open_answered(old(self)@))
            },
    {
        if self.has_unsaved_changes() {
            return false;
        }
        self.discard_before_open()
    }

    /// The user gives the changes up. Returns whether to ask for a dataset now.
    pub fn discard_before_open(&mut self) -> (now: bool)
        ensures
            now == !old(self)@.worker.busy,
            final(self)@ == told_busy(open_answered(old(self)@)),
    {
        self.questions.open = false;
        self.is_free()
    }

    /// The user stays with the dataset.
    pub fn cancel_open(&mut self)
        ensures
            final(self)@ == open_answered(old(self)@),
    {
        self.questions.open = false;
    }

    /// The user asked for the changes to be saved before leaving, and saving
    /// was tried. Returns whether to leave: the question stays where changes
    /// are left.
    pub fn saved_before_exit(&mut self) -> (now: bool)
        ensures
            now == !has_changes(old(self)@),
            final(self)@ == if now {
                exit_agreed(old(self)@)
            } else {
                old(self)@
            },
    {
        if self.has_unsaved_changes() {
            return false;
        }
        self.questions.may_exit = true;
        true
    }

    /// The user gives the changes up and leaves.
    pub fn discard_before_exit(&mut self)
        ensures
            final(self)@ == exit_agreed(old(self)@),
    {
        self.questions.may_exit = true;
    }

    /// The user stays.
    pub fn cancel_exit(&mut self)
        ensures
            final(self)@ == (EditorView {
                questions: QuestionsView {
                    exit: false,
                    ..old(self)@.questions
                },
                ..old(self)@
            }),
    {
        self.questions.exit = false;
    }

    /// The window is to be closed. Returns whether it may be: where there are
    /// changes that are not saved and the user has not agreed, they are asked.
    pub fn request_close(&mut self) -> (now: bool)
        ensures
            now == (old(self)@.questions.may_exit || !has_changes(committed(old(self)@))),
            final(self)@ == if now {
                committed(old(self)@)
            } else {
                let editor = committed(old(self)@);
                EditorView {
                    questions: QuestionsView { exit: true, ..editor.questions },
                    ..editor
                }
            },
    {
        self.commit_caption();
        if self.questions.may_exit || !self.has_unsaved_changes() {
            return true;
        }
        self.questions.exit = true;
        false
    }
}

} // verus!
