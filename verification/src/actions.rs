//! Files, metadata, the tagger and the grid: what the editor decides about
//! them. The work on files and the tagger's own are done elsewhere.

use vstd::prelude::*;

use crate::batch::{lemma_texts_set_len, texts_edited, update_views};
use crate::editor::{
    group_views, has_changes, items_of, target_places, DeletePlan, DeleteView, Editor, EditorView,
    GroupView, QuestionsView, Status, StatusView, WorkerEvent, WorkerView,
};
use crate::file_ops::{FileChoice, FileGroup};
use crate::item::{item_views, ItemView};
use crate::json::Json;
use crate::metadata::{image_text, KohyaMetadata, Location, LocationView};
use crate::session::{changes_of, texts_applied, told_busy};
use crate::settings::{clamp_unit, clamped};
use crate::suggestions::{caption_updates, pending_views, prediction_updates, PendingTags};
use crate::tagger::{label_of, TaggerOptions, Wd14Model};
use crate::tags::{caption, parsed};
use crate::text::{texts, trim, trimmed};
use crate::update_laws::law_import_gives_each_item_its_text;

verus! {

// ----- Files ---------------------------------------------------------------

/// Whether some kind of file is chosen.
pub open spec fn any_kind(choice: FileChoice) -> bool {
    choice.image || choice.caption || choice.backups
}

/// Whether the files of the items that an operation is for can be deleted.
pub open spec fn deletable(editor: EditorView) -> bool {
    &&& !has_changes(editor)
    &&& !editor.worker.busy
    &&& target_places(editor).len() > 0
    &&& any_kind(editor.files.choice)
}

/// The files of the items at the given places. A place that names no item is
/// passed over.
pub open spec fn groups_at(items: Seq<ItemView>, indices: Seq<usize>) -> Seq<GroupView>
    decreases indices.len(),
{
    if indices.len() == 0 {
        Seq::<GroupView>::empty()
    } else {
        let rest = groups_at(items, indices.drop_last());
        if indices.last() < items.len() {
            let item = items[indices.last() as int];
            rest.push(GroupView { image_path: item.image_path, tag_path: item.tag_path })
        } else {
            rest
        }
    }
}

/// The editor after work on files was done.
pub open spec fn files_done(editor: EditorView, outcome: Result<usize, Seq<char>>) -> EditorView {
    EditorView {
        status: match outcome {
            Ok(count) => StatusView::Done(count),
            Err(cause) => StatusView::Failure(cause),
        },
        ..editor
    }
}

impl Editor {
    /// Whether the files of the items that an operation is for can be deleted:
    /// everything is saved, the tagger is not at work, and there are items and
    /// kinds of files.
    pub fn can_delete(&self) -> (yes: bool)
        ensures
            yes == deletable(self@),
    {
        let choice = self.files.choice;
        !self.has_unsaved_changes() && !self.worker.busy && self.batch_indices().len() > 0 && (
        choice.image || choice.caption || choice.backups)
    }

    /// Whether these files can be moved: a destination is needed too.
    pub fn can_move(&self) -> (yes: bool)
        ensures
            yes == (deletable(self@) && trimmed(self@.files.destination).len() > 0),
    {
        self.can_delete() && !trim(self.files.destination.as_str()).as_str().is_empty()
    }

    /// Where files are moved to.
    pub fn destination(&self) -> (path: String)
        ensures
            path@ == trimmed(self@.files.destination),
    {
        trim(self.files.destination.as_str())
    }

    /// The files of the items that an operation is for.
    pub fn target_groups(&self) -> (groups: Vec<FileGroup>)
        ensures
            group_views(groups@) == groups_at(items_of(self@), target_places(self@)),
    {
        let indices = self.batch_indices();
        let ghost all = indices@;
        let ghost items = items_of(self@);
        let mut groups: Vec<FileGroup> = Vec::new();
        assert(group_views(groups@) =~= Seq::empty());
        for i in 0..indices.len()
            invariant
                all == indices@,
                items == items_of(self@),
                group_views(groups@) == groups_at(items, all.take(i as int)),
        {
            assert(all.take(i + 1).drop_last() =~= all.take(i as int));
            assert(all.take(i + 1).last() == indices@[i as int]);
            let ghost before = groups@;
            match &self.data {
                Some(data) => match data.item(indices[i]) {
                    Some(item) => {
                        assert(item@ == items[indices@[i as int] as int]);
                        let group = FileGroup {
                            image_path: item.image_path.clone(),
                            tag_path: item.tag_path.clone(),
                        };
                        groups.push(group);
                        assert(group_views(groups@) =~= group_views(before).push(
                            GroupView { image_path: item@.image_path, tag_path: item@.tag_path },
                        ));
                    },
                    None => {},
                },
                None => {},
            }
        }
        assert(all.take(indices@.len() as int) =~= all);
        groups
    }

    /// Asks whether the files of the items that an operation is for are to be
    /// deleted.
    pub fn plan_delete(&mut self)
        ensures
            final(self)@ == (EditorView {
                questions: QuestionsView {
                    delete: Some(
                        DeleteView {
                            groups: groups_at(items_of(old(self)@), target_places(old(self)@)),
                            choice: old(self)@.files.choice,
                        },
                    ),
                    ..old(self)@.questions
                },
                ..old(self)@
            }),
    {
        let groups = self.target_groups();
        self.questions.delete = Some(DeletePlan { groups, choice: self.files.choice });
    }

    /// The user agrees that the files are deleted. Returns what is to be
    /// deleted; nothing is while the tagger is at work.
    pub fn take_delete(&mut self) -> (plan: Option<DeletePlan>)
        ensures
            ({
                let answered = EditorView {
                    questions: QuestionsView { delete: None, ..old(self)@.questions },
                    ..old(self)@
                };
                match old(self)@.questions.delete {
                    Some(expected) => {
                        &&& final(self)@ == told_busy(answered)
                        &&& match plan {
                            Some(plan) => !old(self)@.worker.busy && plan@ == expected,
                            None => old(self)@.worker.busy,
                        }
                    },
                    None => plan is None && final(self)@ == old(self)@,
                }
            }),
    {
        let mut plan: Option<DeletePlan> = None;
        std::mem::swap(&mut plan, &mut self.questions.delete);
        match plan {
            Some(plan) => {
                if self.is_free() {
                    Some(plan)
                } else {
                    None
                }
            },
            None => None,
        }
    }

    /// The user keeps the files.
    pub fn cancel_delete(&mut self)
        ensures
            final(self)@ == (EditorView {
                questions: QuestionsView { delete: None, ..old(self)@.questions },
                ..old(self)@
            }),
    {
        self.questions.delete = None;
    }

    /// Files were moved or deleted, or that failed.
    pub fn finish_files(&mut self, outcome: Result<usize, String>)
        ensures
            final(self)@ == files_done(
                old(self)@,
                match outcome {
                    Ok(count) => Ok(count),
                    Err(cause) => Err(cause@),
                },
            ),
    {
        self.status = match outcome {
            Ok(count) => Status::Done(count),
            Err(cause) => Status::Failure(cause),
        };
    }
}

// ----- Metadata ------------------------------------------------------------

/// The captions that metadata has for the items.
pub open spec fn metadata_updates(
    items: Seq<ItemView>,
    records: Map<Seq<char>, Json>,
    here: LocationView,
) -> Seq<(usize, Seq<char>)>
    decreases items.len(),
{
    if items.len() == 0 {
        Seq::<(usize, Seq<char>)>::empty()
    } else {
        let rest = metadata_updates(items.drop_last(), records, here);
        match image_text(records, here, items.last().image_path) {
            Some(text) => rest.push(((items.len() - 1) as usize, text)),
            None => rest,
        }
    }
}

/// What is exported of the items: the path of the image and the caption.
pub open spec fn exported(items: Seq<ItemView>) -> Seq<(Seq<char>, Seq<char>)> {
    items.map_values(|item: ItemView| (item.image_path, caption(item.tags)))
}

/// Pairs of texts.
pub open spec fn pair_views(pairs: Seq<(String, String)>) -> Seq<(Seq<char>, Seq<char>)> {
    pairs.map_values(|pair: (String, String)| (pair.0@, pair.1@))
}

impl Editor {
    /// Takes the captions of the items from metadata, in one step of the
    /// history.
    pub fn import_metadata(&mut self, document: &KohyaMetadata, here: &Location)
        ensures
            ({
                let updates = metadata_updates(items_of(old(self)@), document.records@, here@);
                final(self)@ == texts_applied(
                    old(self)@,
                    updates,
                    StatusView::JsonDone(changes_of(old(self)@, updates)),
                )
            }),
            items_of(final(self)@).len() == items_of(old(self)@).len(),
            forall|i: int|
                0 <= i < items_of(old(self)@).len() ==> (#[trigger] items_of(final(self)@)[i]).tags
                    == match image_text(
                    document.records@,
                    here@,
                    items_of(old(self)@)[i].image_path,
                ) {
                    Some(text) => parsed(text),
                    None => items_of(old(self)@)[i].tags,
                },
    {
        let ghost before = self@;
        match &mut self.data {
            Some(data) => {
                let ghost items = item_views(data.items@);
                let mut updates: Vec<(usize, String)> = Vec::new();
                assert(update_views(updates@) =~= Seq::empty());
                let count: usize = data.items.len();
                for i in 0..count
                    invariant
                        count == data.items@.len(),
                        items == item_views(data.items@),
                        update_views(updates@) == metadata_updates(
                            items.take(i as int),
                            document.records@,
                            here@,
                        ),
                {
                    assert(items.take(i + 1).drop_last() =~= items.take(i as int));
                    assert(items.take(i + 1).last() == data.items@[i as int]@);
                    let ghost before = updates@;
                    match document.tags_for_image(here, data.items[i].image_path.as_str()) {
                        Some(text) => {
                            updates.push((i, text));
                            assert(update_views(updates@) =~= update_views(before).push(
                                (i, text@),
                            ));
                        },
                        None => {},
                    }
                }
                assert(items.take(count as int) =~= items);
                let changed = data.set_tag_texts(updates.as_slice());
                self.caption_for = None;
                self.status = Status::JsonDone(changed);
                proof {
                    let whole = before.data->0;
                    assert(items_of(before) == items);
                    assert forall|i: int| 0 <= i < items.len() implies {
                        &&& items_of(self@).len() == items.len()
                        &&& (#[trigger] items_of(self@)[i]).tags == match image_text(
                            document.records@,
                            here@,
                            items[i].image_path,
                        ) {
                            Some(text) => parsed(text),
                            None => items[i].tags,
                        }
                    } by {
                        law_import_gives_each_item_its_text(
                            before,
                            whole,
                            document.records@,
                            here@,
                            self@.status,
                            i,
                        );
                    }
                    lemma_texts_set_len(items, update_views(updates@));
                }
            },
            None => {},
        }
    }

    /// What is exported as metadata.
    pub fn export_entries(&self) -> (entries: Vec<(String, String)>)
        ensures
            pair_views(entries@) == exported(items_of(self@)),
    {
        let mut entries: Vec<(String, String)> = Vec::new();
        assert(pair_views(entries@) =~= Seq::empty());
        match &self.data {
            Some(data) => {
                let ghost items = item_views(data.items@);
                for i in 0..data.items.len()
                    invariant
                        items == item_views(data.items@),
                        pair_views(entries@) == exported(items.take(i as int)),
                {
                    let ghost before = entries@;
                    let item = &data.items[i];
                    assert(items[i as int] == item@);
                    entries.push((item.image_path.clone(), item.tag_text()));
                    assert(pair_views(entries@) =~= pair_views(before).push(
                        (item@.image_path, caption(item@.tags)),
                    ));
                    assert(pair_views(entries@) =~= exported(items.take(i + 1)));
                }
                assert(items.take(data.items@.len() as int) =~= items);
            },
            None => {
                assert(exported(items_of(self@)) =~= Seq::empty());
            },
        }
        entries
    }

    /// Metadata was written, or something failed.
    pub fn finish_export(&mut self, outcome: Result<usize, String>)
        ensures
            final(self)@ == (EditorView {
                status: match outcome {
                    Ok(count) => StatusView::JsonDone(count),
                    Err(cause) => StatusView::Failure(cause@),
                },
                ..old(self)@
            }),
    {
        self.status = match outcome {
            Ok(count) => Status::JsonDone(count),
            Err(cause) => Status::Failure(cause),
        };
    }
}

// ----- The tagger ----------------------------------------------------------

/// Paths of images.
pub open spec fn image_paths(items: Seq<ItemView>, indices: Seq<usize>) -> Seq<Seq<char>>
    decreases indices.len(),
{
    if indices.len() == 0 {
        Seq::<Seq<char>>::empty()
    } else {
        let rest = image_paths(items, indices.drop_last());
        if indices.last() < items.len() {
            rest.push(items[indices.last() as int].image_path)
        } else {
            rest
        }
    }
}

/// The editor after the tagger was set to work.
pub open spec fn tagging_started(editor: EditorView) -> EditorView {
    EditorView {
        worker: WorkerView {
            busy: true,
            text: label_of(editor.settings.wd14_model),
            share: 0,
            pending: Seq::empty(),
        },
        ..editor
    }
}

/// The editor after the tagger has ended with the given status and without its
/// predictions being used.
pub open spec fn tagging_dropped(editor: EditorView, status: StatusView) -> EditorView {
    EditorView {
        status,
        worker: WorkerView { busy: false, pending: Seq::empty(), ..editor.worker },
        ..editor
    }
}

/// The editor after the tagger has done its work: every prediction that has come
/// is applied, in one step of the history.
pub open spec fn tagging_done(editor: EditorView) -> EditorView {
    EditorView {
        data: match editor.data {
            Some(data) => Some(
                texts_edited(
                    data,
                    prediction_updates(editor.settings, data.items, editor.worker.pending),
                ),
            ),
            None => None,
        },
        caption_for: None,
        ..tagging_dropped(editor, StatusView::Tagged)
    }
}

/// Whether the editor is as it is after an event of the tagger.
pub open spec fn follows(before: EditorView, event: WorkerEvent, after: EditorView) -> bool {
    match event {
        WorkerEvent::Progress { text, share } => after == (EditorView {
            worker: WorkerView { text: text@, share: clamped(share), ..before.worker },
            ..before
        }),
        WorkerEvent::Predictions(tags) => after == (EditorView {
            worker: WorkerView { pending: before.worker.pending.push(tags@), ..before.worker },
            ..before
        }),
        WorkerEvent::Done => after == tagging_done(before),
        WorkerEvent::Cancelled => after == tagging_dropped(before, StatusView::Cancelled),
        WorkerEvent::Failed(cause) => after == tagging_dropped(before, StatusView::Failure(cause@)),
    }
}

/// Whether a model can be used as it is: it is there in its own folder, or it is
/// the default one and is there in the folder that was used before models had
/// their own.
pub fn model_is_there(model: Wd14Model, own: bool, shared: bool) -> (yes: bool)
    ensures
        yes == (own || uses_shared(model, shared)),
{
    own || uses_shared_folder(model, shared)
}

/// Whether a model is taken from the folder that was used before models had
/// their own.
pub open spec fn uses_shared(model: Wd14Model, shared: bool) -> bool {
    model == Wd14Model::ConvNextV2 && shared
}

/// Whether a model is taken from the folder that was used before models had
/// their own: the default model is, where it is there.
pub fn uses_shared_folder(model: Wd14Model, shared: bool) -> (yes: bool)
    ensures
        yes == uses_shared(model, shared),
{
    match model {
        Wd14Model::ConvNextV2 => shared,
        _ => false,
    }
}

impl Editor {
    /// Sets a download to work. Returns whether it starts: nothing starts while
    /// something is at work.
    pub fn start_download(&mut self) -> (starts: bool)
        ensures
            starts == !old(self)@.worker.busy,
            final(self)@ == (EditorView {
                worker: WorkerView { busy: true, ..old(self)@.worker },
                ..old(self)@
            }),
    {
        let starts = !self.worker.busy;
        self.worker.busy = true;
        starts
    }

    /// Sets the tagger to work on items. Returns the paths of their images;
    /// nothing starts while something is at work, or without items.
    pub fn start_tagging(&mut self, indices: &[usize]) -> (jobs: Option<Vec<String>>)
        ensures
            jobs is Some <==> !old(self)@.worker.busy && indices@.len() > 0 && old(self)@.data is Some,
            jobs matches Some(list) ==> texts(list@) == image_paths(items_of(old(self)@), indices@),
            final(self)@ == if jobs is Some {
                tagging_started(old(self)@)
            } else {
                old(self)@
            },
    {
        if self.worker.busy || indices.len() == 0 {
            return None;
        }
        let ghost all = indices@;
        let ghost items = items_of(self@);
        let mut jobs: Vec<String> = Vec::new();
        assert(texts(jobs@) =~= Seq::empty());
        match &self.data {
            Some(data) => {
                for i in 0..indices.len()
                    invariant
                        all == indices@,
                        items == item_views(data.items@),
                        texts(jobs@) == image_paths(items, all.take(i as int)),
                {
                    assert(all.take(i + 1).drop_last() =~= all.take(i as int));
                    assert(all.take(i + 1).last() == indices@[i as int]);
                    let ghost before = jobs@;
                    match data.item(indices[i]) {
                        Some(item) => {
                            assert(item@ == items[indices@[i as int] as int]);
                            jobs.push(item.image_path.clone());
                            assert(texts(jobs@) =~= texts(before).push(item@.image_path));
                        },
                        None => {},
                    }
                }
                assert(all.take(indices@.len() as int) =~= all);
            },
            None => {
                return None;
            },
        }
        self.worker.busy = true;
        self.worker.share = 0;
        self.worker.text = self.settings.wd14_model.label().to_owned();
        self.worker.pending = Vec::new();
        assert(self@.worker.pending =~= Seq::empty());
        Some(jobs)
    }

    /// The thresholds of the tagger.
    pub fn tagger_options(&self) -> (options: TaggerOptions)
        ensures
            options.general_threshold == self@.settings.general,
            options.character_threshold == self@.settings.character,
            options.include_rating == self@.settings.rating,
    {
        TaggerOptions {
            general_threshold: self.settings.general,
            character_threshold: self.settings.character,
            include_rating: self.settings.rating,
        }
    }

    fn apply_pending_predictions(&mut self)
        ensures
            final(self)@ == (EditorView {
                data: tagging_done(old(self)@).data,
                caption_for: None,
                worker: WorkerView { pending: Seq::empty(), ..old(self)@.worker },
                ..old(self)@
            }),
    {
        let mut pending: Vec<PendingTags> = Vec::new();
        assert(pending_views(pending@) =~= Seq::empty());
        std::mem::swap(&mut pending, &mut self.worker.pending);
        match &mut self.data {
            Some(data) => {
                let updates = caption_updates(&self.settings, &data.items, &pending);
                data.set_tag_texts(updates.as_slice());
            },
            None => {},
        }
        self.caption_for = None;
    }

    /// Takes an event of the tagger. Returns whether the work has ended.
    pub fn handle_event(&mut self, event: WorkerEvent) -> (ended: bool)
        ensures
            follows(old(self)@, event, final(self)@),
            ended == !(event is Progress || event is Predictions),
    {
        match event {
            WorkerEvent::Progress { text, share } => {
                self.worker.text = text;
                self.worker.share = clamp_unit(share);
                false
            },
            WorkerEvent::Predictions(tags) => {
                let ghost before = self.worker.pending@;
                self.worker.pending.push(tags);
                assert(pending_views(self.worker.pending@) =~= pending_views(before).push(tags@));
                false
            },
            WorkerEvent::Done => {
                self.apply_pending_predictions();
                self.status = Status::Tagged;
                self.worker.busy = false;
                true
            },
            WorkerEvent::Cancelled => {
                self.worker.pending = Vec::new();
                assert(self@.worker.pending =~= Seq::empty());
                self.status = Status::Cancelled;
                self.worker.busy = false;
                true
            },
            WorkerEvent::Failed(cause) => {
                self.worker.pending = Vec::new();
                assert(self@.worker.pending =~= Seq::empty());
                self.status = Status::Failure(cause);
                self.worker.busy = false;
                true
            },
        }
    }
}

} // verus!
