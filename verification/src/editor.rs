//! The state of the editor, and what each control does to it.
//!
//! The editor holds a dataset, the filters, the forms of its panels and the
//! questions that wait for an answer. What has to be read, written, shown or
//! asked for is left to its surroundings: they call the functions of the editor
//! when a control was used, and do what these return.

use vstd::prelude::*;

use crate::dataset::{gathered, listed, places, Dataset, DatasetView};
use crate::file_ops::{FileChoice, FileGroup};
use crate::filter::{has_all, has_any, FilterMode};
use crate::filter_laws::{has_term, is_unwanted, is_wanted, law_what_is_shown};
use crate::frequency::{counted_tags, frequencies, lemma_counted_at, Frequencies, TagSortKey};
use crate::item::{is_dirty, item_views, ItemView};
use crate::metadata::{
    MetadataExportMode, MetadataExportOptions, MetadataKeyMode, MetadataWriteMode,
};
use crate::order::{strictly_ordered, SortDirection};
use crate::settings::{default_preferences, ranged, Preferences, PreferencesView};
use crate::suggestions::{pending_views, PendingTags, PendingView};
use crate::tag_picker::{entry_views, tags_of, PickerView, TagPicker, TagSort};
use crate::tag_set::ordered_list;
use crate::tags::caption;
use crate::text::{
    decimal, decimal_text, entries_of, group_texts, has_ignoring_case, list_entries,
    list_has_ignoring_case, texts, Separators,
};

verus! {

// ----- The parts of the state ----------------------------------------------

/// The panels at the side.
#[derive(Clone, Copy, Debug, PartialEq, Eq, Structural)]
pub enum Panel {
    Edit,
    Filter,
    Batch,
    Wd14,
    Files,
}

/// What a batch edit does.
#[derive(Clone, Copy, Debug, PartialEq, Eq, Structural)]
pub enum Batch {
    Common,
    Append,
    Prepend,
    Remove,
    Replace,
    Dedupe,
    Sort,
    Truncate,
}

/// Which items an operation is for.
#[derive(Clone, Copy, Debug, PartialEq, Eq, Structural)]
pub enum BatchTarget {
    /// Those that the filters show.
    Visible,
    /// Those that are checked.
    Checked,
    /// The current one.
    Current,
}

/// What text is replaced in.
#[derive(Clone, Copy, Debug, PartialEq, Eq, Structural)]
pub enum ReplaceTarget {
    /// The tags that the picker has selected.
    Selected,
    /// Every tag.
    Each,
    /// The whole caption.
    Caption,
}

/// The filters of the grid.
#[derive(Debug)]
pub struct Filters {
    /// The text of the tags to look for.
    pub included: String,
    /// The text of the tags to leave out.
    pub excluded: String,
    pub mode: FilterMode,
    pub negative_mode: FilterMode,
    pub positive_enabled: bool,
    pub negative_enabled: bool,
    /// Only checked items are shown.
    pub checked_only: bool,
    /// The panel shows the positive filter.
    pub shows_positive: bool,
}

/// The filters of the grid.
#[verifier::ext_equal]
pub struct FiltersView {
    pub included: Seq<char>,
    pub excluded: Seq<char>,
    pub mode: FilterMode,
    pub negative_mode: FilterMode,
    pub positive_enabled: bool,
    pub negative_enabled: bool,
    pub checked_only: bool,
    pub shows_positive: bool,
}

impl View for Filters {
    type V = FiltersView;

    open spec fn view(&self) -> FiltersView {
        FiltersView {
            included: self.included@,
            excluded: self.excluded@,
            mode: self.mode,
            negative_mode: self.negative_mode,
            positive_enabled: self.positive_enabled,
            negative_enabled: self.negative_enabled,
            checked_only: self.checked_only,
            shows_positive: self.shows_positive,
        }
    }
}

/// The form of the batch panel.
#[derive(Debug)]
pub struct BatchForm {
    pub batch: Batch,
    pub target: BatchTarget,
    pub replace_target: ReplaceTarget,
    pub first: String,
    pub second: String,
    pub regex: bool,
    /// The common tags that the edited text was made from.
    pub common_source: String,
    /// The common tags as they were edited.
    pub common_edit: String,
    pub common_prepend: bool,
    pub sort_key: TagSortKey,
    pub sort_direction: SortDirection,
}

/// The form of the batch panel.
#[verifier::ext_equal]
pub struct FormView {
    pub batch: Batch,
    pub target: BatchTarget,
    pub replace_target: ReplaceTarget,
    pub first: Seq<char>,
    pub second: Seq<char>,
    pub regex: bool,
    pub common_source: Seq<char>,
    pub common_edit: Seq<char>,
    pub common_prepend: bool,
    pub sort_key: TagSortKey,
    pub sort_direction: SortDirection,
}

impl View for BatchForm {
    type V = FormView;

    open spec fn view(&self) -> FormView {
        FormView {
            batch: self.batch,
            target: self.target,
            replace_target: self.replace_target,
            first: self.first@,
            second: self.second@,
            regex: self.regex,
            common_source: self.common_source@,
            common_edit: self.common_edit@,
            common_prepend: self.common_prepend,
            sort_key: self.sort_key,
            sort_direction: self.sort_direction,
        }
    }
}

/// What the status line says.
#[derive(Debug)]
pub enum Status {
    Nothing,
    /// The tagger is at work.
    Busy,
    /// The extension of caption files was changed since the dataset was loaded.
    ExtensionChanged,
    /// A dataset was opened.
    Opened { path: String, count: usize },
    /// So many items or files were changed.
    Done(usize),
    /// So many items were read or written as metadata.
    JsonDone(usize),
    /// The tagger is done.
    Tagged,
    /// The tagger was stopped.
    Cancelled,
    /// Something failed.
    Failure(String),
}

/// What the status line says.
#[verifier::ext_equal]
pub enum StatusView {
    Nothing,
    Busy,
    ExtensionChanged,
    Opened { path: Seq<char>, count: usize },
    Done(usize),
    JsonDone(usize),
    Tagged,
    Cancelled,
    Failure(Seq<char>),
}

impl View for Status {
    type V = StatusView;

    open spec fn view(&self) -> StatusView {
        match *self {
            Status::Nothing => StatusView::Nothing,
            Status::Busy => StatusView::Busy,
            Status::ExtensionChanged => StatusView::ExtensionChanged,
            Status::Opened { path, count } => StatusView::Opened { path: path@, count },
            Status::Done(count) => StatusView::Done(count),
            Status::JsonDone(count) => StatusView::JsonDone(count),
            Status::Tagged => StatusView::Tagged,
            Status::Cancelled => StatusView::Cancelled,
            Status::Failure(text) => StatusView::Failure(text@),
        }
    }
}

/// The text of the status line.
pub open spec fn status_text(status: StatusView) -> Seq<char> {
    match status {
        StatusView::Nothing => Seq::<char>::empty(),
        StatusView::Busy => "⚠ WD14 …"@,
        StatusView::ExtensionChanged => "⚠ .ext ↻"@,
        StatusView::Opened { path, count } => path + " · "@ + decimal(count as nat),
        StatusView::Done(count) => "✓ "@ + decimal(count as nat),
        StatusView::JsonDone(count) => "✓ JSON "@ + decimal(count as nat),
        StatusView::Tagged => "✓ WD14"@,
        StatusView::Cancelled => "× WD14"@,
        StatusView::Failure(text) => "⚠ "@ + text,
    }
}

impl Status {
    /// The text of the status line.
    pub fn text(&self) -> (text: String)
        ensures
            text@ == status_text(self@),
    {
        match self {
            Status::Nothing => String::new(),
            Status::Busy => "⚠ WD14 …".to_owned(),
            Status::ExtensionChanged => "⚠ .ext ↻".to_owned(),
            Status::Opened { path, count } => {
                let mut text = path.clone();
                text.append(" · ");
                text.append(decimal_text(*count as u128).as_str());
                text
            },
            Status::Done(count) => {
                let mut text = "✓ ".to_owned();
                text.append(decimal_text(*count as u128).as_str());
                text
            },
            Status::JsonDone(count) => {
                let mut text = "✓ JSON ".to_owned();
                text.append(decimal_text(*count as u128).as_str());
                text
            },
            Status::Tagged => "✓ WD14".to_owned(),
            Status::Cancelled => "× WD14".to_owned(),
            Status::Failure(cause) => {
                let mut text = "⚠ ".to_owned();
                text.append(cause.as_str());
                text
            },
        }
    }
}

/// Files that are to be deleted when the user agrees.
#[derive(Debug)]
pub struct DeletePlan {
    pub groups: Vec<FileGroup>,
    pub choice: FileChoice,
}

/// The files of a group.
#[verifier::ext_equal]
pub struct GroupView {
    pub image_path: Seq<char>,
    pub tag_path: Seq<char>,
}

/// The files of groups.
pub open spec fn group_views(groups: Seq<FileGroup>) -> Seq<GroupView> {
    groups.map_values(
        |group: FileGroup| GroupView { image_path: group.image_path@, tag_path: group.tag_path@ },
    )
}

/// Files that are to be deleted when the user agrees.
#[verifier::ext_equal]
pub struct DeleteView {
    pub groups: Seq<GroupView>,
    pub choice: FileChoice,
}

impl View for DeletePlan {
    type V = DeleteView;

    open spec fn view(&self) -> DeleteView {
        DeleteView { groups: group_views(self.groups@), choice: self.choice }
    }
}

/// What the tagger reports.
#[derive(Debug)]
pub enum WorkerEvent {
    /// How far it has come. The share is the bits of a floating point number.
    Progress { text: String, share: u32 },
    /// The predictions of an image.
    Predictions(PendingTags),
    /// It is done.
    Done,
    /// It was stopped.
    Cancelled,
    /// It failed.
    Failed(String),
}

/// The work of the tagger.
#[derive(Debug)]
pub struct Worker {
    /// The tagger is at work, or a model is being downloaded.
    pub busy: bool,
    pub text: String,
    /// The share of the work that is done: the bits of a floating point number.
    pub share: u32,
    /// The predictions that have come.
    pub pending: Vec<PendingTags>,
}

/// The work of the tagger.
#[verifier::ext_equal]
pub struct WorkerView {
    pub busy: bool,
    pub text: Seq<char>,
    pub share: u32,
    pub pending: Seq<PendingView>,
}

impl View for Worker {
    type V = WorkerView;

    open spec fn view(&self) -> WorkerView {
        WorkerView {
            busy: self.busy,
            text: self.text@,
            share: self.share,
            pending: pending_views(self.pending@),
        }
    }
}

/// The questions that wait for an answer.
#[derive(Debug)]
pub struct Questions {
    /// Whether to open another dataset, though there are changes.
    pub open: bool,
    /// Whether to leave, though there are changes.
    pub exit: bool,
    /// Whether to delete files.
    pub delete: Option<DeletePlan>,
    /// The user has agreed to leave.
    pub may_exit: bool,
}

/// The questions that wait for an answer.
#[verifier::ext_equal]
pub struct QuestionsView {
    pub open: bool,
    pub exit: bool,
    pub delete: Option<DeleteView>,
    pub may_exit: bool,
}

/// The view of a plan, where there is one.
pub open spec fn plan_view(plan: Option<DeletePlan>) -> Option<DeleteView> {
    match plan {
        Some(plan) => Some(plan@),
        None => None,
    }
}

impl View for Questions {
    type V = QuestionsView;

    open spec fn view(&self) -> QuestionsView {
        QuestionsView {
            open: self.open,
            exit: self.exit,
            delete: plan_view(self.delete),
            may_exit: self.may_exit,
        }
    }
}

/// The form of the files panel.
#[derive(Debug)]
pub struct FilesForm {
    pub choice: FileChoice,
    pub destination: String,
    pub metadata: MetadataExportOptions,
}

/// The form of the files panel.
#[verifier::ext_equal]
pub struct FilesView {
    pub choice: FileChoice,
    pub destination: Seq<char>,
    pub metadata: MetadataExportOptions,
}

impl View for FilesForm {
    type V = FilesView;

    open spec fn view(&self) -> FilesView {
        FilesView {
            choice: self.choice,
            destination: self.destination@,
            metadata: self.metadata,
        }
    }
}

// ----- The editor ----------------------------------------------------------

/// The state of the editor.
pub struct Editor {
    pub settings: Preferences,
    pub data: Option<Dataset>,
    /// The item that is edited.
    pub current: Option<usize>,
    pub filters: Filters,
    pub panel: Panel,
    /// The caption in the text field.
    pub caption: String,
    /// The item that the caption belongs to.
    pub caption_for: Option<usize>,
    pub form: BatchForm,
    pub positive_picker: TagPicker,
    pub negative_picker: TagPicker,
    pub edit_picker: TagPicker,
    pub batch_picker: TagPicker,
    pub status: Status,
    pub worker: Worker,
    pub questions: Questions,
    pub files: FilesForm,
    /// The extension of caption files with which the dataset was loaded.
    pub loaded_extension: String,
}

/// The state of the editor.
#[verifier::ext_equal]
pub struct EditorView {
    pub settings: PreferencesView,
    pub data: Option<DatasetView>,
    pub current: Option<usize>,
    pub filters: FiltersView,
    pub panel: Panel,
    pub caption: Seq<char>,
    pub caption_for: Option<usize>,
    pub form: FormView,
    pub positive: PickerView,
    pub negative: PickerView,
    pub edit: PickerView,
    pub batch: PickerView,
    pub status: StatusView,
    pub worker: WorkerView,
    pub questions: QuestionsView,
    pub files: FilesView,
    pub loaded_extension: Seq<char>,
}

/// The view of a dataset, where there is one.
pub open spec fn data_view(data: Option<Dataset>) -> Option<DatasetView> {
    match data {
        Some(data) => Some(data@),
        None => None,
    }
}

impl View for Editor {
    type V = EditorView;

    open spec fn view(&self) -> EditorView {
        EditorView {
            settings: self.settings@,
            data: data_view(self.data),
            current: self.current,
            filters: self.filters@,
            panel: self.panel,
            caption: self.caption@,
            caption_for: self.caption_for,
            form: self.form@,
            positive: self.positive_picker@,
            negative: self.negative_picker@,
            edit: self.edit_picker@,
            batch: self.batch_picker@,
            status: self.status@,
            worker: self.worker@,
            questions: self.questions@,
            files: self.files@,
            loaded_extension: self.loaded_extension@,
        }
    }
}

/// A picker at the start.
pub open spec fn fresh_picker() -> PickerView {
    PickerView {
        query: Seq::empty(),
        prefix: false,
        suffix: false,
        regex: false,
        sort: TagSort::Alpha,
        descending: false,
        selected: Set::empty(),
    }
}

/// The editor at the start.
pub open spec fn fresh_editor() -> EditorView {
    EditorView {
        settings: default_preferences(),
        data: None,
        current: None,
        filters: FiltersView {
            included: Seq::empty(),
            excluded: Seq::empty(),
            mode: FilterMode::And,
            negative_mode: FilterMode::Or,
            positive_enabled: true,
            negative_enabled: true,
            checked_only: false,
            shows_positive: true,
        },
        panel: Panel::Edit,
        caption: Seq::empty(),
        caption_for: None,
        form: FormView {
            batch: Batch::Common,
            target: BatchTarget::Visible,
            replace_target: ReplaceTarget::Selected,
            first: Seq::empty(),
            second: Seq::empty(),
            regex: false,
            common_source: Seq::empty(),
            common_edit: Seq::empty(),
            common_prepend: false,
            sort_key: TagSortKey::Alphabetical,
            sort_direction: SortDirection::Ascending,
        },
        positive: fresh_picker(),
        negative: fresh_picker(),
        edit: fresh_picker(),
        batch: fresh_picker(),
        status: StatusView::Nothing,
        worker: WorkerView { busy: false, text: Seq::empty(), share: 0, pending: Seq::empty() },
        questions: QuestionsView { open: false, exit: false, delete: None, may_exit: false },
        files: FilesView {
            choice: FileChoice { image: true, caption: true, backups: true },
            destination: Seq::empty(),
            metadata: MetadataExportOptions {
                mode: MetadataExportMode::Tags,
                write_mode: MetadataWriteMode::Merge,
                key_mode: MetadataKeyMode::Stem,
            },
        },
        loaded_extension: "txt"@,
    }
}

/// The items of the dataset, none where there is no dataset.
pub open spec fn items_of(editor: EditorView) -> Seq<ItemView> {
    match editor.data {
        Some(data) => data.items,
        None => Seq::<ItemView>::empty(),
    }
}

/// Whether there is something to be saved.
pub open spec fn has_changes(editor: EditorView) -> bool {
    exists|i: int| 0 <= i < items_of(editor).len() && is_dirty(#[trigger] items_of(editor)[i])
}

// ----- What the filters show -----------------------------------------------

/// The terms of a filter: those of its text, then the tags of its picker that
/// are not among them, whatever the case of their letters.
pub open spec fn filter_terms(text: Seq<char>, picked: Seq<Seq<char>>) -> Seq<Seq<char>>
    decreases picked.len(),
{
    if picked.len() == 0 {
        list_entries(Separators::Commas, text)
    } else {
        let rest = filter_terms(text, picked.drop_last());
        if has_ignoring_case(rest, picked.last()) {
            rest
        } else {
            rest.push(picked.last())
        }
    }
}

/// The terms that are looked for.
pub open spec fn positive_terms(editor: EditorView) -> Seq<Seq<char>> {
    if editor.filters.positive_enabled {
        filter_terms(editor.filters.included, ordered_list(editor.positive.selected))
    } else {
        Seq::<Seq<char>>::empty()
    }
}

/// The terms that are left out.
pub open spec fn negative_terms(editor: EditorView) -> Seq<Seq<char>> {
    if editor.filters.negative_enabled {
        filter_terms(editor.filters.excluded, ordered_list(editor.negative.selected))
    } else {
        Seq::<Seq<char>>::empty()
    }
}

/// Whether tags have all of the terms or any, as the mode says.
pub open spec fn has_by_mode(tags: Seq<Seq<char>>, terms: Seq<Seq<char>>, mode: FilterMode) -> bool {
    match mode {
        FilterMode::And => has_all(tags, terms),
        FilterMode::Or => has_any(tags, terms),
    }
}

/// Whether the filters show an item.
pub open spec fn shows_item(
    filters: FiltersView,
    positive: Seq<Seq<char>>,
    negative: Seq<Seq<char>>,
    item: ItemView,
) -> bool {
    &&& filters.checked_only ==> item.selected
    &&& positive.len() == 0 || has_by_mode(item.tags, positive, filters.mode)
    &&& !(negative.len() > 0 && has_by_mode(item.tags, negative, filters.negative_mode))
}

/// The places of the items that the filters show.
pub open spec fn visible_places(editor: EditorView) -> Seq<usize> {
    let positive = positive_terms(editor);
    let negative = negative_terms(editor);
    places(
        items_of(editor),
        |item: ItemView| shows_item(editor.filters, positive, negative, item),
    )
}

/// The places of the items that a batch operation is for.
pub open spec fn target_places(editor: EditorView) -> Seq<usize> {
    match editor.form.target {
        BatchTarget::Visible => visible_places(editor),
        BatchTarget::Checked => places(items_of(editor), |item: ItemView| item.selected),
        BatchTarget::Current => match editor.current {
            Some(index) => seq![index],
            None => Seq::<usize>::empty(),
        },
    }
}

/// The first `count` places.
pub open spec fn first_places(count: nat) -> Seq<usize> {
    Seq::new(count, |i: int| i as usize)
}

fn read_terms(text: &str, picker: &TagPicker) -> (terms: Vec<String>)
    ensures
        texts(terms@) == filter_terms(text@, ordered_list(picker@.selected)),
        picker@.selected.finite(),
{
    broadcast use group_texts;

    let mut terms = entries_of(text, Separators::Commas);
    let picked = picker.selected_tags_ref().list();
    let ghost all = texts(picked@);
    for i in 0..picked.len()
        invariant
            all == texts(picked@),
            texts(terms@) == filter_terms(text@, all.take(i as int)),
    {
        assert(all.take(i + 1).drop_last() =~= all.take(i as int));
        assert(all.take(i + 1).last() == picked@[i as int]@);
        if !list_has_ignoring_case(&terms, picked[i].as_str()) {
            terms.push(picked[i].clone());
        }
    }
    assert(all.take(picked@.len() as int) =~= all);
    proof {
        vstd::seq_lib::seq_to_set_is_finite(all);
    }
    terms
}

fn tags_by_mode(tags: &Vec<String>, terms: &Vec<String>, mode: FilterMode) -> (yes: bool)
    ensures
        yes == has_by_mode(texts(tags@), texts(terms@), mode),
{
    for i in 0..terms.len()
        invariant
            mode == FilterMode::And ==> forall|k: int|
                0 <= k < i ==> has_ignoring_case(texts(tags@), #[trigger] texts(terms@)[k]),
            mode == FilterMode::Or ==> forall|k: int|
                0 <= k < i ==> !has_ignoring_case(texts(tags@), #[trigger] texts(terms@)[k]),
    {
        assert(texts(terms@)[i as int] == terms@[i as int]@);
        let found = list_has_ignoring_case(tags, terms[i].as_str());
        match mode {
            FilterMode::And => {
                if !found {
                    return false;
                }
            },
            FilterMode::Or => {
                if found {
                    return true;
                }
            },
        }
    }
    mode == FilterMode::And
}

impl Editor {
    /// The editor at the start.
    pub fn new() -> (editor: Editor)
        ensures
            editor@ == fresh_editor(),
    {
        let editor = Editor {
            settings: Preferences::default(),
            data: None,
            current: None,
            filters: Filters {
                included: String::new(),
                excluded: String::new(),
                mode: FilterMode::And,
                negative_mode: FilterMode::Or,
                positive_enabled: true,
                negative_enabled: true,
                checked_only: false,
                shows_positive: true,
            },
            panel: Panel::Edit,
            caption: String::new(),
            caption_for: None,
            form: BatchForm {
                batch: Batch::Common,
                target: BatchTarget::Visible,
                replace_target: ReplaceTarget::Selected,
                first: String::new(),
                second: String::new(),
                regex: false,
                common_source: String::new(),
                common_edit: String::new(),
                common_prepend: false,
                sort_key: TagSortKey::Alphabetical,
                sort_direction: SortDirection::Ascending,
            },
            positive_picker: TagPicker::new(),
            negative_picker: TagPicker::new(),
            edit_picker: TagPicker::new(),
            batch_picker: TagPicker::new(),
            status: Status::Nothing,
            worker: Worker { busy: false, text: String::new(), share: 0, pending: Vec::new() },
            questions: Questions { open: false, exit: false, delete: None, may_exit: false },
            files: FilesForm {
                choice: FileChoice { image: true, caption: true, backups: true },
                destination: String::new(),
                metadata: MetadataExportOptions::tags(),
            },
            loaded_extension: "txt".to_owned(),
        };
        assert(editor@ =~~= fresh_editor());
        editor
    }

    // ----- Settings --------------------------------------------------------

    /// The settings that are kept.
    pub fn preferences(&self) -> (settings: Preferences)
        ensures
            settings@ == self@.settings,
    {
        self.settings.copy()
    }

    /// Takes over settings that were kept, the thresholds brought into their
    /// range.
    pub fn apply_preferences(&mut self, settings: Preferences)
        ensures
            final(self)@ == (EditorView { settings: ranged(settings@), ..old(self)@ }),
    {
        self.settings = settings.in_range();
    }

    /// Goes back to the settings of a first session.
    pub fn reset_preferences(&mut self)
        ensures
            final(self)@ == (EditorView { settings: ranged(default_preferences()), ..old(self)@ }),
    {
        self.apply_preferences(Preferences::default());
    }

    // ----- What the filters show -------------------------------------------

    /// The places of the items that the filters show.
    pub fn visible(&self) -> (indices: Vec<usize>)
        ensures
            indices@ == visible_places(self@),
            forall|i: int|
                0 <= i < items_of(self@).len() ==> (#[trigger] listed(indices@, i) <==> {
                    let filters = self@.filters;
                    let item = items_of(self@)[i];
                    &&& filters.checked_only ==> item.selected
                    &&& filters.mode == FilterMode::And ==> forall|term: Seq<char>| #[trigger]
                        is_wanted(self@, term) ==> has_term(item, term)
                    &&& filters.mode == FilterMode::Or && (exists|term: Seq<char>| #[trigger]
                        is_wanted(self@, term)) ==> exists|term: Seq<char>| #[trigger]
                        is_wanted(self@, term) && has_term(item, term)
                    &&& filters.negative_mode == FilterMode::Or ==> forall|term: Seq<char>| #[trigger]
                        is_unwanted(self@, term) ==> !has_term(item, term)
                    &&& filters.negative_mode == FilterMode::And && (exists|term: Seq<char>| #[trigger]
                        is_unwanted(self@, term)) ==> exists|term: Seq<char>| #[trigger]
                        is_unwanted(self@, term) && !has_term(item, term)
                }),
    {
        let data = match &self.data {
            Some(data) => data,
            None => {
                return Vec::new();
            },
        };
        let positive = if self.filters.positive_enabled {
            read_terms(self.filters.included.as_str(), &self.positive_picker)
        } else {
            let none: Vec<String> = Vec::new();
            assert(texts(none@) =~= Seq::empty());
            none
        };
        let negative = if self.filters.negative_enabled {
            read_terms(self.filters.excluded.as_str(), &self.negative_picker)
        } else {
            let none: Vec<String> = Vec::new();
            assert(texts(none@) =~= Seq::empty());
            none
        };
        let ghost all = item_views(data.items@);
        let ghost filters = self@.filters;
        let ghost a = texts(positive@);
        let ghost b = texts(negative@);
        let ghost keep = |item: ItemView| shows_item(filters, a, b, item);
        let mut indices: Vec<usize> = Vec::new();
        for i in 0..data.items.len()
            invariant
                all == item_views(data.items@),
                filters == self.filters@,
                a == texts(positive@),
                b == texts(negative@),
                keep == (|item: ItemView| shows_item(filters, a, b, item)),
                indices@ == places(all.take(i as int), keep),
        {
            assert(all.take(i + 1).drop_last() =~= all.take(i as int));
            assert(all.take(i + 1).last() == data.items@[i as int]@);
            let item = &data.items[i];
            let shown = (!self.filters.checked_only || item.selected) && (positive.len() == 0
                || tags_by_mode(&item.tags, &positive, self.filters.mode)) && !(negative.len() > 0
                && tags_by_mode(&item.tags, &negative, self.filters.negative_mode));
            if shown {
                indices.push(i);
            }
        }
        assert(all.take(data.items@.len() as int) =~= all);
        proof {
            assert(indices@ == visible_places(self@));
            assert forall|i: int| 0 <= i < items_of(self@).len() implies (#[trigger] listed(
                indices@,
                i,
            ) <==> {
                let filters = self@.filters;
                let item = items_of(self@)[i];
                &&& filters.checked_only ==> item.selected
                &&& filters.mode == FilterMode::And ==> forall|term: Seq<char>| #[trigger]
                    is_wanted(self@, term) ==> has_term(item, term)
                &&& filters.mode == FilterMode::Or && (exists|term: Seq<char>| #[trigger]
                    is_wanted(self@, term)) ==> exists|term: Seq<char>| #[trigger]
                    is_wanted(self@, term) && has_term(item, term)
                &&& filters.negative_mode == FilterMode::Or ==> forall|term: Seq<char>| #[trigger]
                    is_unwanted(self@, term) ==> !has_term(item, term)
                &&& filters.negative_mode == FilterMode::And && (exists|term: Seq<char>| #[trigger]
                    is_unwanted(self@, term)) ==> exists|term: Seq<char>| #[trigger]
                    is_unwanted(self@, term) && !has_term(item, term)
            }) by {
                law_what_is_shown(self@, i);
            }
        }
        indices
    }

    /// How often each tag occurs in the given items, in the order of the tags.
    pub fn tag_stats(&self, indices: &[usize]) -> (stats: Vec<(String, usize)>)
        ensures
            is_stats(entry_views(stats@), frequencies(gathered(items_of(self@), indices@))),
    {
        match &self.data {
            Some(data) => {
                let counts = data.tag_frequencies(indices);
                list_counts(&counts)
            },
            None => {
                let stats: Vec<(String, usize)> = Vec::new();
                proof {
                    let none = frequencies(gathered(items_of(self@), indices@));
                    assert(entry_views(stats@) =~= Seq::empty());
                    assert(none =~= Map::<Seq<char>, nat>::empty());
                }
                stats
            },
        }
    }

    /// The places of all items.
    pub fn all_indices(&self) -> (indices: Vec<usize>)
        ensures
            indices@ == first_places(items_of(self@).len()),
    {
        let count: usize = match &self.data {
            Some(data) => data.len(),
            None => 0,
        };
        let mut indices: Vec<usize> = Vec::new();
        for i in 0..count
            invariant
                indices@ == first_places(i as nat),
        {
            indices.push(i);
            assert(indices@ =~= first_places((i + 1) as nat));
        }
        indices
    }

    /// The places of the checked items.
    pub fn checked_indices(&self) -> (indices: Vec<usize>)
        ensures
            indices@ == places(items_of(self@), |item: ItemView| item.selected),
    {
        match &self.data {
            Some(data) => data.selected_indices(),
            None => Vec::new(),
        }
    }

    /// The places of the items that a batch operation is for.
    pub fn batch_indices(&self) -> (indices: Vec<usize>)
        ensures
            indices@ == target_places(self@),
    {
        match self.form.target {
            BatchTarget::Visible => self.visible(),
            BatchTarget::Checked => self.checked_indices(),
            BatchTarget::Current => {
                let mut indices: Vec<usize> = Vec::new();
                match self.current {
                    Some(index) => {
                        indices.push(index);
                        assert(indices@ =~= seq![index]);
                    },
                    None => {},
                }
                indices
            },
        }
    }

    /// Whether there is something to be saved.
    pub fn has_unsaved_changes(&self) -> (yes: bool)
        ensures
            yes == has_changes(self@),
    {
        match &self.data {
            Some(data) => {
                let yes = data.has_unsaved_changes();
                assert(items_of(self@) == data@.items);
                yes
            },
            None => false,
        }
    }
}

/// Whether entries list the counts of a map in the order of the tags.
pub open spec fn is_stats(entries: Seq<(Seq<char>, nat)>, counts: Map<Seq<char>, nat>) -> bool {
    &&& strictly_ordered(tags_of(entries))
    &&& forall|tag: Seq<char>| #[trigger]
        counts.contains_key(tag) <==> tags_of(entries).contains(tag)
    &&& forall|i: int|
        0 <= i < entries.len() ==> counts[(#[trigger] entries[i]).0] == entries[i].1
}

fn list_counts(counts: &Frequencies) -> (stats: Vec<(String, usize)>)
    ensures
        is_stats(entry_views(stats@), counts@),
{
    let entries = counts.entries();
    let ghost tags = counted_tags(entries@);
    let mut stats: Vec<(String, usize)> = Vec::new();
    for i in 0..entries.len()
        invariant
            tags == counted_tags(entries@),
            entry_views(stats@) == Seq::new(
                i as nat,
                |k: int| (tags[k], entries@[k].count as nat),
            ),
    {
        let ghost before = stats@;
        let entry = (entries[i].tag.clone(), entries[i].count);
        stats.push(entry);
        assert(entry_views(stats@) =~= entry_views(before).push((entry.0@, entry.1 as nat)));
        assert(entry_views(stats@) =~= Seq::new(
            (i + 1) as nat,
            |k: int| (tags[k], entries@[k].count as nat),
        ));
    }
    proof {
        let list = entry_views(stats@);
        assert(tags_of(list) =~= tags);
        assert forall|i: int| 0 <= i < list.len() implies counts@[(#[trigger] list[i]).0]
            == list[i].1 by {
            lemma_counted_at(entries@, i);
        }
    }
    stats
}

} // verus!
