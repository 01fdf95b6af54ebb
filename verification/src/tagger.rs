//! Taggers: the models, their label files, and the selection of predicted tags.
//!
//! Confidences and thresholds are handed around as the bits of 32-bit floating
//! point numbers, which order them without any rounding.

use vstd::prelude::*;

use crate::order::{
    arrange, arranged, arrangement, goes_before, is_arrangement, lemma_arranged_multiset,
    lemma_arrangement_exists, lemma_arrangement_permutes, lemma_text_irreflexive, rank_views, Rank,
    RankView,
};
use crate::paths::{join_path, joined_path};
use crate::tagger_laws::{law_one_rating_is_predicted, law_what_is_predicted, reaches};
use crate::text::{decimal, decimal_text, same_text, texts, trim, trimmed};

verus! {

// ----- Models --------------------------------------------------------------

/// The repository of the default model.
pub const MODEL_REPOSITORY: &'static str = "SmilingWolf/wd-v1-4-convnext-tagger-v2";

/// The side of the images that models usually take.
pub const DEFAULT_IMAGE_SIZE: usize = 448;

/// The tagger models on offer.
#[derive(Clone, Copy, Debug, Default, PartialEq, Eq, Hash, Structural)]
pub enum Wd14Model {
    #[default]
    ConvNextV2,
    ConvNextV2V2,
    VitV2,
    SwinV2V2,
    MoatV2,
    SwinV2V3,
    VitV3,
    ConvNextV3,
    Eva02LargeV3,
}

/// How a model is shown.
pub open spec fn label_of(model: Wd14Model) -> Seq<char> {
    match model {
        Wd14Model::ConvNextV2 => "ConvNeXt v2"@,
        Wd14Model::ConvNextV2V2 => "ConvNeXtV2 v2"@,
        Wd14Model::VitV2 => "ViT v2"@,
        Wd14Model::SwinV2V2 => "SwinV2 v2"@,
        Wd14Model::MoatV2 => "MOAT v2"@,
        Wd14Model::SwinV2V3 => "SwinV2 v3"@,
        Wd14Model::VitV3 => "ViT v3"@,
        Wd14Model::ConvNextV3 => "ConvNeXt v3"@,
        Wd14Model::Eva02LargeV3 => "EVA02-Large v3"@,
    }
}

/// The name of a model's cache directory.
pub open spec fn cache_key_of(model: Wd14Model) -> Seq<char> {
    match model {
        Wd14Model::ConvNextV2 => "wd-v1-4-convnext-tagger-v2"@,
        Wd14Model::ConvNextV2V2 => "wd-v1-4-convnextv2-tagger-v2"@,
        Wd14Model::VitV2 => "wd-v1-4-vit-tagger-v2"@,
        Wd14Model::SwinV2V2 => "wd-v1-4-swinv2-tagger-v2"@,
        Wd14Model::MoatV2 => "wd-v1-4-moat-tagger-v2"@,
        Wd14Model::SwinV2V3 => "wd-swinv2-tagger-v3"@,
        Wd14Model::VitV3 => "wd-vit-tagger-v3"@,
        Wd14Model::ConvNextV3 => "wd-convnext-tagger-v3"@,
        Wd14Model::Eva02LargeV3 => "wd-eva02-large-tagger-v3"@,
    }
}

/// The repository of a model.
pub open spec fn repository_of(model: Wd14Model) -> Seq<char> {
    match model {
        Wd14Model::ConvNextV2 => "SmilingWolf/wd-v1-4-convnext-tagger-v2"@,
        Wd14Model::ConvNextV2V2 => "SmilingWolf/wd-v1-4-convnextv2-tagger-v2"@,
        Wd14Model::VitV2 => "SmilingWolf/wd-v1-4-vit-tagger-v2"@,
        Wd14Model::SwinV2V2 => "SmilingWolf/wd-v1-4-swinv2-tagger-v2"@,
        Wd14Model::MoatV2 => "SmilingWolf/wd-v1-4-moat-tagger-v2"@,
        Wd14Model::SwinV2V3 => "SmilingWolf/wd-swinv2-tagger-v3"@,
        Wd14Model::VitV3 => "SmilingWolf/wd-vit-tagger-v3"@,
        Wd14Model::ConvNextV3 => "SmilingWolf/wd-convnext-tagger-v3"@,
        Wd14Model::Eva02LargeV3 => "SmilingWolf/wd-eva02-large-tagger-v3"@,
    }
}

/// The models in the order in which they are offered.
pub open spec fn catalog() -> Seq<Wd14Model> {
    seq![
        Wd14Model::ConvNextV2,
        Wd14Model::ConvNextV2V2,
        Wd14Model::VitV2,
        Wd14Model::SwinV2V2,
        Wd14Model::MoatV2,
        Wd14Model::SwinV2V3,
        Wd14Model::VitV3,
        Wd14Model::ConvNextV3,
        Wd14Model::Eva02LargeV3,
    ]
}

/// Whether a text names a model: its repository, its cache key or its label.
pub open spec fn names_model(text: Seq<char>, model: Wd14Model) -> bool {
    text == repository_of(model) || text == cache_key_of(model) || text == label_of(model)
}

impl Wd14Model {
    /// The models in the order in which they are offered.
    pub fn all() -> (models: Vec<Wd14Model>)
        ensures
            models@ == catalog(),
    {
        let models = vec![
            Wd14Model::ConvNextV2,
            Wd14Model::ConvNextV2V2,
            Wd14Model::VitV2,
            Wd14Model::SwinV2V2,
            Wd14Model::MoatV2,
            Wd14Model::SwinV2V3,
            Wd14Model::VitV3,
            Wd14Model::ConvNextV3,
            Wd14Model::Eva02LargeV3,
        ];
        assert(models@ =~= catalog());
        models
    }

    /// How the model is shown.
    pub fn label(self) -> (text: &'static str)
        ensures
            text@ == label_of(self),
    {
        match self {
            Wd14Model::ConvNextV2 => "ConvNeXt v2",
            Wd14Model::ConvNextV2V2 => "ConvNeXtV2 v2",
            Wd14Model::VitV2 => "ViT v2",
            Wd14Model::SwinV2V2 => "SwinV2 v2",
            Wd14Model::MoatV2 => "MOAT v2",
            Wd14Model::SwinV2V3 => "SwinV2 v3",
            Wd14Model::VitV3 => "ViT v3",
            Wd14Model::ConvNextV3 => "ConvNeXt v3",
            Wd14Model::Eva02LargeV3 => "EVA02-Large v3",
        }
    }

    /// The repository of the model.
    pub fn repository(self) -> (text: &'static str)
        ensures
            text@ == repository_of(self),
    {
        match self {
            Wd14Model::ConvNextV2 => "SmilingWolf/wd-v1-4-convnext-tagger-v2",
            Wd14Model::ConvNextV2V2 => "SmilingWolf/wd-v1-4-convnextv2-tagger-v2",
            Wd14Model::VitV2 => "SmilingWolf/wd-v1-4-vit-tagger-v2",
            Wd14Model::SwinV2V2 => "SmilingWolf/wd-v1-4-swinv2-tagger-v2",
            Wd14Model::MoatV2 => "SmilingWolf/wd-v1-4-moat-tagger-v2",
            Wd14Model::SwinV2V3 => "SmilingWolf/wd-swinv2-tagger-v3",
            Wd14Model::VitV3 => "SmilingWolf/wd-vit-tagger-v3",
            Wd14Model::ConvNextV3 => "SmilingWolf/wd-convnext-tagger-v3",
            Wd14Model::Eva02LargeV3 => "SmilingWolf/wd-eva02-large-tagger-v3",
        }
    }

    /// The name of the model's cache directory.
    pub fn cache_key(self) -> (text: &'static str)
        ensures
            text@ == cache_key_of(self),
    {
        match self {
            Wd14Model::ConvNextV2 => "wd-v1-4-convnext-tagger-v2",
            Wd14Model::ConvNextV2V2 => "wd-v1-4-convnextv2-tagger-v2",
            Wd14Model::VitV2 => "wd-v1-4-vit-tagger-v2",
            Wd14Model::SwinV2V2 => "wd-v1-4-swinv2-tagger-v2",
            Wd14Model::MoatV2 => "wd-v1-4-moat-tagger-v2",
            Wd14Model::SwinV2V3 => "wd-swinv2-tagger-v3",
            Wd14Model::VitV3 => "wd-vit-tagger-v3",
            Wd14Model::ConvNextV3 => "wd-convnext-tagger-v3",
            Wd14Model::Eva02LargeV3 => "wd-eva02-large-tagger-v3",
        }
    }

    /// The model that a text names, by its repository, its cache key or its
    /// label.
    pub fn from_id(value: &str) -> (model: Option<Wd14Model>)
        ensures
            match model {
                Some(model) => names_model(value@, model),
                None => forall|model: Wd14Model| !#[trigger] names_model(value@, model),
            },
    {
        let models = Wd14Model::all();
        for i in 0..models.len()
            invariant
                models@ == catalog(),
                forall|k: int| 0 <= k < i ==> !names_model(value@, #[trigger] models@[k]),
        {
            let model = models[i];
            if same_text(value, model.repository()) || same_text(value, model.cache_key())
                || same_text(value, model.label()) {
                return Some(model);
            }
        }
        proof {
            assert forall|model: Wd14Model| !#[trigger] names_model(value@, model) by {
                lemma_catalog_holds(model);
                let k = choose|k: int| 0 <= k < catalog().len() && catalog()[k] == model;
                assert(!names_model(value@, models@[k]));
            }
        }
        None
    }
}

proof fn lemma_catalog_holds(model: Wd14Model)
    ensures
        catalog().contains(model),
{
    let all = catalog();
    assert(all[0] == Wd14Model::ConvNextV2);
    assert(all[1] == Wd14Model::ConvNextV2V2);
    assert(all[2] == Wd14Model::VitV2);
    assert(all[3] == Wd14Model::SwinV2V2);
    assert(all[4] == Wd14Model::MoatV2);
    assert(all[5] == Wd14Model::SwinV2V3);
    assert(all[6] == Wd14Model::VitV3);
    assert(all[7] == Wd14Model::ConvNextV3);
    assert(all[8] == Wd14Model::Eva02LargeV3);
}

/// A model's cache directory tells it from every other model, and so does each
/// of its names: no text names two models.
pub proof fn law_models_are_told_apart(a: Wd14Model, b: Wd14Model, text: Seq<char>)
    ensures
        cache_key_of(a) == cache_key_of(b) ==> a == b,
        names_model(text, a) && names_model(text, b) ==> a == b,
{
    lemma_cache_keys(a, b);
    lemma_repositories(a, b);
    lemma_labels(a, b);
    lemma_name_kinds(a, b);
    lemma_name_kinds(b, a);
}

proof fn lemma_cache_keys(a: Wd14Model, b: Wd14Model)
    ensures
        cache_key_of(a) == cache_key_of(b) ==> a == b,
{
    reveal_strlit("wd-v1-4-convnext-tagger-v2");
    reveal_strlit("wd-v1-4-convnextv2-tagger-v2");
    reveal_strlit("wd-v1-4-vit-tagger-v2");
    reveal_strlit("wd-v1-4-swinv2-tagger-v2");
    reveal_strlit("wd-v1-4-moat-tagger-v2");
    reveal_strlit("wd-swinv2-tagger-v3");
    reveal_strlit("wd-vit-tagger-v3");
    reveal_strlit("wd-convnext-tagger-v3");
    reveal_strlit("wd-eva02-large-tagger-v3");
    if a != b {
        let x = cache_key_of(a);
        let y = cache_key_of(b);
        assert(x.len() != y.len() || x[3] != y[3]);
    }
}

proof fn lemma_repositories(a: Wd14Model, b: Wd14Model)
    ensures
        repository_of(a) == repository_of(b) ==> a == b,
{
    reveal_strlit("SmilingWolf/wd-v1-4-convnext-tagger-v2");
    reveal_strlit("SmilingWolf/wd-v1-4-convnextv2-tagger-v2");
    reveal_strlit("SmilingWolf/wd-v1-4-vit-tagger-v2");
    reveal_strlit("SmilingWolf/wd-v1-4-swinv2-tagger-v2");
    reveal_strlit("SmilingWolf/wd-v1-4-moat-tagger-v2");
    reveal_strlit("SmilingWolf/wd-swinv2-tagger-v3");
    reveal_strlit("SmilingWolf/wd-vit-tagger-v3");
    reveal_strlit("SmilingWolf/wd-convnext-tagger-v3");
    reveal_strlit("SmilingWolf/wd-eva02-large-tagger-v3");
    if a != b {
        let x = repository_of(a);
        let y = repository_of(b);
        assert(x.len() != y.len() || x[15] != y[15]);
    }
}

proof fn lemma_labels(a: Wd14Model, b: Wd14Model)
    ensures
        label_of(a) == label_of(b) ==> a == b,
{
    reveal_strlit("ConvNeXt v2");
    reveal_strlit("ConvNeXtV2 v2");
    reveal_strlit("ViT v2");
    reveal_strlit("SwinV2 v2");
    reveal_strlit("MOAT v2");
    reveal_strlit("SwinV2 v3");
    reveal_strlit("ViT v3");
    reveal_strlit("ConvNeXt v3");
    reveal_strlit("EVA02-Large v3");
    if a != b {
        let x = label_of(a);
        let y = label_of(b);
        assert(x.len() != y.len() || x[x.len() - 1] != y[y.len() - 1]);
    }
}

proof fn lemma_name_kinds(a: Wd14Model, b: Wd14Model)
    ensures
        repository_of(a) != cache_key_of(b),
        repository_of(a) != label_of(b),
        cache_key_of(a) != label_of(b),
{
    reveal_strlit("wd-v1-4-convnext-tagger-v2");
    reveal_strlit("wd-v1-4-convnextv2-tagger-v2");
    reveal_strlit("wd-v1-4-vit-tagger-v2");
    reveal_strlit("wd-v1-4-swinv2-tagger-v2");
    reveal_strlit("wd-v1-4-moat-tagger-v2");
    reveal_strlit("wd-swinv2-tagger-v3");
    reveal_strlit("wd-vit-tagger-v3");
    reveal_strlit("wd-convnext-tagger-v3");
    reveal_strlit("wd-eva02-large-tagger-v3");
    reveal_strlit("SmilingWolf/wd-v1-4-convnext-tagger-v2");
    reveal_strlit("SmilingWolf/wd-v1-4-convnextv2-tagger-v2");
    reveal_strlit("SmilingWolf/wd-v1-4-vit-tagger-v2");
    reveal_strlit("SmilingWolf/wd-v1-4-swinv2-tagger-v2");
    reveal_strlit("SmilingWolf/wd-v1-4-moat-tagger-v2");
    reveal_strlit("SmilingWolf/wd-swinv2-tagger-v3");
    reveal_strlit("SmilingWolf/wd-vit-tagger-v3");
    reveal_strlit("SmilingWolf/wd-convnext-tagger-v3");
    reveal_strlit("SmilingWolf/wd-eva02-large-tagger-v3");
    reveal_strlit("ConvNeXt v2");
    reveal_strlit("ConvNeXtV2 v2");
    reveal_strlit("ViT v2");
    reveal_strlit("SwinV2 v2");
    reveal_strlit("MOAT v2");
    reveal_strlit("SwinV2 v3");
    reveal_strlit("ViT v3");
    reveal_strlit("ConvNeXt v3");
    reveal_strlit("EVA02-Large v3");
    assert(repository_of(a)[0] == 'S' && repository_of(a).len() > 20);
    assert(cache_key_of(a)[0] == 'w' && cache_key_of(b)[0] == 'w');
    assert(label_of(b).len() < 15);
    assert(cache_key_of(a).len() > 15);
}

/// Models have their files in different directories.
pub proof fn law_models_are_isolated(root: Seq<char>, a: Wd14Model, b: Wd14Model)
    requires
        a != b,
    ensures
        joined_path(root, cache_key_of(a)) != joined_path(root, cache_key_of(b)),
{
    lemma_cache_keys(a, b);
    lemma_name_kinds(a, b);
    let x = cache_key_of(a);
    let y = cache_key_of(b);
    reveal_strlit("wd-v1-4-convnext-tagger-v2");
    reveal_strlit("wd-v1-4-convnextv2-tagger-v2");
    reveal_strlit("wd-v1-4-vit-tagger-v2");
    reveal_strlit("wd-v1-4-swinv2-tagger-v2");
    reveal_strlit("wd-v1-4-moat-tagger-v2");
    reveal_strlit("wd-swinv2-tagger-v3");
    reveal_strlit("wd-vit-tagger-v3");
    reveal_strlit("wd-convnext-tagger-v3");
    reveal_strlit("wd-eva02-large-tagger-v3");
    assert(x[0] == 'w' && y[0] == 'w');
    if joined_path(root, x) == joined_path(root, y) {
        let start = joined_path(root, x).len() - x.len();
        assert(joined_path(root, x).skip(start) =~= x);
        assert(joined_path(root, y).skip(start) =~= y);
    }
}

/// Where the files of a model are.
#[derive(Debug)]
pub struct ModelFiles {
    pub model: String,
    pub labels: String,
}

/// The files of a model in its cache directory.
pub fn model_files(cache_dir: &str) -> (files: ModelFiles)
    ensures
        files.model@ == joined_path(cache_dir@, "model.onnx"@),
        files.labels@ == joined_path(cache_dir@, "selected_tags.csv"@),
{
    ModelFiles {
        model: join_path(cache_dir, "model.onnx"),
        labels: join_path(cache_dir, "selected_tags.csv"),
    }
}

/// The files of a model in its own directory below `cache_root`.
pub fn model_files_for(cache_root: &str, model: Wd14Model) -> (files: ModelFiles)
    ensures
        ({
            let directory = joined_path(cache_root@, cache_key_of(model));
            &&& files.model@ == joined_path(directory, "model.onnx"@)
            &&& files.labels@ == joined_path(directory, "selected_tags.csv"@)
        }),
{
    let directory = join_path(cache_root, model.cache_key());
    model_files(directory.as_str())
}

// ----- Labels --------------------------------------------------------------

/// What kind of tag a label is.
#[derive(Clone, Copy, Debug, PartialEq, Eq, Structural)]
pub enum TagCategory {
    Rating,
    General,
    Character,
}

/// A tag that a model predicts.
#[derive(Debug)]
pub struct Label {
    pub name: String,
    pub category: TagCategory,
}

/// A tag that a model predicts.
#[verifier::ext_equal]
pub struct LabelView {
    pub name: Seq<char>,
    pub category: TagCategory,
}

impl View for Label {
    type V = LabelView;

    open spec fn view(&self) -> LabelView {
        LabelView { name: self.name@, category: self.category }
    }
}

/// The labels that a list holds.
pub open spec fn label_views(labels: Seq<Label>) -> Seq<LabelView> {
    labels.map_values(|label: Label| label@)
}

/// Why a label file was refused. Rows are counted from zero, without the
/// header.
#[derive(Debug)]
pub enum LabelError {
    /// The header could not be read.
    UnreadableHeader,
    /// The header is not that of a label file.
    UnexpectedHeader,
    /// A row could not be read.
    InvalidRow(usize),
    /// A row has no name.
    NoName,
    /// The name in a row is blank.
    EmptyName(usize),
    /// The category in a row is not known.
    UnsupportedCategory(String, usize),
    /// A row has no category.
    NoCategory(usize),
    /// There is no row.
    Empty,
}

/// The number of a row as it is counted in the file, with the header first.
pub open spec fn file_row(row: usize) -> Seq<char> {
    decimal((row + 2) as nat)
}

impl LabelError {
    /// What the error says.
    pub fn message(&self) -> (text: String)
        ensures
            text@ == match *self {
                LabelError::UnreadableHeader => "could not read label CSV header"@,
                LabelError::UnexpectedHeader => "unexpected label CSV header"@,
                LabelError::InvalidRow(row) => "invalid label CSV row "@ + file_row(row),
                LabelError::NoName => "label has no name"@,
                LabelError::EmptyName(row) => "empty label name at CSV row "@ + file_row(row),
                LabelError::UnsupportedCategory(value, row) => "unsupported label category "@
                    + value@ + " at CSV row "@ + file_row(row),
                LabelError::NoCategory(row) => "label has no category at CSV row "@ + file_row(row),
                LabelError::Empty => "label CSV is empty"@,
            },
    {
        match self {
            LabelError::UnreadableHeader => "could not read label CSV header".to_owned(),
            LabelError::UnexpectedHeader => "unexpected label CSV header".to_owned(),
            LabelError::InvalidRow(row) => numbered("invalid label CSV row ".to_owned(), *row),
            LabelError::NoName => "label has no name".to_owned(),
            LabelError::EmptyName(row) => numbered("empty label name at CSV row ".to_owned(), *row),
            LabelError::UnsupportedCategory(value, row) => {
                let mut text = "unsupported label category ".to_owned();
                text.append(value.as_str());
                text.append(" at CSV row ");
                numbered(text, *row)
            },
            LabelError::NoCategory(row) => numbered(
                "label has no category at CSV row ".to_owned(),
                *row,
            ),
            LabelError::Empty => "label CSV is empty".to_owned(),
        }
    }
}

fn numbered(start: String, row: usize) -> (text: String)
    ensures
        text@ == start@ + file_row(row),
{
    let mut text = start;
    let number = decimal_text(row as u128 + 2);
    text.append(number.as_str());
    text
}

/// The fields of the header row of a CSV text, as the `csv` crate reads them,
/// or nothing where it cannot.
pub uninterp spec fn csv_header(bytes: Seq<u8>) -> Option<Seq<Seq<char>>>;

/// The fields of the rows of a CSV text behind the header, as the `csv` crate
/// reads them, with nothing for a row that it cannot read.
pub uninterp spec fn csv_rows(bytes: Seq<u8>) -> Seq<Option<Seq<Seq<char>>>>;

/// The fields of a row, where it could be read.
pub open spec fn row_view(row: Option<Vec<String>>) -> Option<Seq<Seq<char>>> {
    match row {
        Some(fields) => Some(texts(fields@)),
        None => None,
    }
}

/// The fields of the rows.
pub open spec fn row_views(rows: Seq<Option<Vec<String>>>) -> Seq<Option<Seq<Seq<char>>>> {
    rows.map_values(|row: Option<Vec<String>>| row_view(row))
}

/// Calls `Reader::headers` of the `csv` crate on a reader with default
/// settings. The contract claims that the header is a function of the bytes.
#[verifier::external_body]
fn read_csv_header(bytes: &[u8]) -> (header: Option<Vec<String>>)
    ensures
        row_view(header) == csv_header(bytes@),
{
    let mut reader = csv::Reader::from_reader(bytes);
    let header = reader.headers().ok()?;
    Some(header.iter().map(|field| field.to_owned()).collect())
}

/// Calls `Reader::records` of the `csv` crate on a reader with default
/// settings. The contract claims that the rows are a function of the bytes.
#[verifier::external_body]
fn read_csv_rows(bytes: &[u8]) -> (rows: Vec<Option<Vec<String>>>)
    ensures
        row_views(rows@) == csv_rows(bytes@),
{
    csv::Reader::from_reader(bytes)
        .records()
        .map(|row| row.ok().map(|row| row.iter().map(|field| field.to_owned()).collect()))
        .collect()
}

/// Whether a header is that of a label file.
pub open spec fn is_label_header(header: Seq<Seq<char>>) -> bool {
    &&& header.len() >= 3
    &&& header[0] == "tag_id"@
    &&& header[1] == "name"@
    &&& header[2] == "category"@
}

/// The category that a field of a label file stands for.
pub open spec fn category_of(field: Seq<char>) -> Option<TagCategory> {
    if field == "9"@ {
        Some(TagCategory::Rating)
    } else if field == "0"@ {
        Some(TagCategory::General)
    } else if field == "4"@ {
        Some(TagCategory::Character)
    } else {
        None
    }
}

/// Whether a row of a label file can be used: it was read, and has a name and a
/// category.
pub open spec fn is_label_row(row: Option<Seq<Seq<char>>>) -> bool {
    row matches Some(fields) && fields.len() >= 3 && trimmed(fields[1]).len() > 0 && category_of(
        fields[2],
    ) is Some
}

/// The label of a row that can be used.
pub open spec fn row_label(row: Option<Seq<Seq<char>>>) -> LabelView {
    LabelView { name: trimmed(row->0[1]), category: category_of(row->0[2])->0 }
}

/// Whether a row is refused with the given error.
pub open spec fn is_row_error(error: LabelError, row: Option<Seq<Seq<char>>>, at: int) -> bool {
    match row {
        None => error matches LabelError::InvalidRow(n) && n == at,
        Some(fields) => if fields.len() < 2 {
            error is NoName
        } else if trimmed(fields[1]).len() == 0 {
            error matches LabelError::EmptyName(n) && n == at
        } else if fields.len() < 3 {
            error matches LabelError::NoCategory(n) && n == at
        } else {
            category_of(fields[2]) is None && (error matches LabelError::UnsupportedCategory(
                value,
                n,
            ) && value@ == fields[2] && n == at)
        },
    }
}

/// Whether the labels of a header and rows are the given ones. They are refused
/// for the header, then for the first row that cannot be used, then where there
/// is no row.
pub open spec fn is_label_result(
    result: Result<Vec<Label>, LabelError>,
    header: Option<Seq<Seq<char>>>,
    rows: Seq<Option<Seq<Seq<char>>>>,
) -> bool {
    match header {
        None => result matches Err(error) && error is UnreadableHeader,
        Some(header) => if !is_label_header(header) {
            result matches Err(error) && error is UnexpectedHeader
        } else if exists|i: int| 0 <= i < rows.len() && !is_label_row(#[trigger] rows[i]) {
            result matches Err(error) && exists|i: int|
                {
                    &&& 0 <= i < rows.len()
                    &&& !is_label_row(#[trigger] rows[i])
                    &&& forall|k: int| 0 <= k < i ==> is_label_row(#[trigger] rows[k])
                    &&& is_row_error(error, rows[i], i)
                }
        } else if rows.len() == 0 {
            result matches Err(error) && error is Empty
        } else {
            result matches Ok(labels) && label_views(labels@) == Seq::new(
                rows.len(),
                |i: int| row_label(rows[i]),
            )
        },
    }
}

/// The labels of a header and rows.
pub fn labels_of(header: &Option<Vec<String>>, rows: &Vec<Option<Vec<String>>>) -> (result: Result<
    Vec<Label>,
    LabelError,
>)
    ensures
        is_label_result(result, row_view(*header), row_views(rows@)),
{
    match header {
        None => {
            return Err(LabelError::UnreadableHeader);
        },
        Some(header) => {
            assert(forall|k: int| 0 <= k < header@.len() ==> texts(header@)[k] == header@[k]@);
            if header.len() < 3 || !same_text(header[0].as_str(), "tag_id") || !same_text(
                header[1].as_str(),
                "name",
            ) || !same_text(header[2].as_str(), "category") {
                return Err(LabelError::UnexpectedHeader);
            }
        },
    }
    let ghost all = row_views(rows@);
    let mut labels: Vec<Label> = Vec::new();
    for i in 0..rows.len()
        invariant
            all == row_views(rows@),
            row_view(*header) matches Some(header) && is_label_header(header),
            forall|k: int| 0 <= k < i ==> is_label_row(#[trigger] all[k]),
            label_views(labels@) == Seq::new(i as nat, |k: int| row_label(all[k])),
    {
        let ghost before = labels@;
        assert(all[i as int] == row_view(rows@[i as int]));
        let fields = match &rows[i] {
            Some(fields) => fields,
            None => {
                return Err(LabelError::InvalidRow(i));
            },
        };
        assert(forall|k: int| 0 <= k < fields@.len() ==> texts(fields@)[k] == fields@[k]@);
        if fields.len() < 2 {
            return Err(LabelError::NoName);
        }
        let name = trim(fields[1].as_str());
        if name.as_str().is_empty() {
            return Err(LabelError::EmptyName(i));
        }
        if fields.len() < 3 {
            return Err(LabelError::NoCategory(i));
        }
        let category = if same_text(fields[2].as_str(), "9") {
            TagCategory::Rating
        } else if same_text(fields[2].as_str(), "0") {
            TagCategory::General
        } else if same_text(fields[2].as_str(), "4") {
            TagCategory::Character
        } else {
            return Err(LabelError::UnsupportedCategory(fields[2].clone(), i));
        };
        let label = Label { name, category };
        labels.push(label);
        assert(label_views(labels@) =~= label_views(before).push(label@));
        assert(label_views(labels@) =~= Seq::new((i + 1) as nat, |k: int| row_label(all[k])));
    }
    if labels.len() == 0 {
        assert(label_views(labels@).len() == 0);
        return Err(LabelError::Empty);
    }
    Ok(labels)
}

/// Reads a label file.
pub fn parse_labels(bytes: &[u8]) -> (result: Result<Vec<Label>, LabelError>)
    ensures
        is_label_result(result, csv_header(bytes@), csv_rows(bytes@)),
{
    let header = read_csv_header(bytes);
    let rows = read_csv_rows(bytes);
    labels_of(&header, &rows)
}

// ----- Confidences ---------------------------------------------------------

/// The size of a floating point number by its bits, without its sign.
pub open spec fn magnitude(bits: u32) -> int {
    if bits >= 0x8000_0000 {
        bits - 0x8000_0000
    } else {
        bits as int
    }
}

/// Whether the number is neither infinite nor NaN.
pub open spec fn is_finite(bits: u32) -> bool {
    magnitude(bits) < 0x7f80_0000
}

/// A whole number that orders finite numbers by their value; both zeros have
/// the same.
pub open spec fn value_order(bits: u32) -> int {
    if bits >= 0x8000_0000 {
        -magnitude(bits)
    } else {
        magnitude(bits)
    }
}

/// A whole number that orders all numbers by their value and the negative zero
/// before the positive one.
pub open spec fn total_order(bits: u32) -> int {
    if bits >= 0x8000_0000 {
        -magnitude(bits) - 1
    } else {
        magnitude(bits)
    }
}

/// Whether the number is between zero and one.
pub open spec fn is_unit(bits: u32) -> bool {
    is_finite(bits) && 0 <= value_order(bits) <= 0x3f80_0000
}

fn signed_value(bits: u32) -> (value: i64)
    ensures
        value == value_order(bits),
{
    if bits >= 0x8000_0000 {
        -((bits - 0x8000_0000) as i64)
    } else {
        bits as i64
    }
}

fn total_value(bits: u32) -> (value: i64)
    ensures
        value == total_order(bits),
{
    if bits >= 0x8000_0000 {
        -((bits - 0x8000_0000) as i64) - 1
    } else {
        bits as i64
    }
}

fn finite(bits: u32) -> (yes: bool)
    ensures
        yes == is_finite(bits),
{
    if bits >= 0x8000_0000 {
        bits - 0x8000_0000 < 0x7f80_0000
    } else {
        bits < 0x7f80_0000
    }
}

/// Whether the number is between zero and one.
pub fn unit(bits: u32) -> (yes: bool)
    ensures
        yes == is_unit(bits),
{
    let value: i64 = signed_value(bits);
    finite(bits) && 0 <= value && value <= 0x3f80_0000
}

// ----- Predictions ---------------------------------------------------------

/// The thresholds of a prediction, as the bits of floating point numbers.
#[derive(Clone, Copy, Debug, PartialEq, Eq, Structural)]
pub struct TaggerOptions {
    pub general_threshold: u32,
    pub character_threshold: u32,
    pub include_rating: bool,
}

/// The bits of 0.35.
pub const DEFAULT_THRESHOLD: u32 = 0x3eb3_3333;

impl Default for TaggerOptions {
    fn default() -> (options: TaggerOptions)
        ensures
            options == (TaggerOptions {
                general_threshold: DEFAULT_THRESHOLD,
                character_threshold: DEFAULT_THRESHOLD,
                include_rating: false,
            }),
    {
        TaggerOptions {
            general_threshold: DEFAULT_THRESHOLD,
            character_threshold: DEFAULT_THRESHOLD,
            include_rating: false,
        }
    }
}

/// A predicted tag. The confidence is the bits of a floating point number.
#[derive(Debug)]
pub struct TagPrediction {
    pub tag: String,
    pub confidence: u32,
    pub category: TagCategory,
}

/// A predicted tag.
#[verifier::ext_equal]
pub struct PredictionView {
    pub tag: Seq<char>,
    pub confidence: u32,
    pub category: TagCategory,
}

impl View for TagPrediction {
    type V = PredictionView;

    open spec fn view(&self) -> PredictionView {
        PredictionView { tag: self.tag@, confidence: self.confidence, category: self.category }
    }
}

/// The predictions that a list holds.
pub open spec fn prediction_views(predictions: Seq<TagPrediction>) -> Seq<PredictionView> {
    predictions.map_values(|prediction: TagPrediction| prediction@)
}

/// Why nothing was predicted.
#[derive(Clone, Copy, Debug, PartialEq, Eq, Structural)]
pub enum PredictionError {
    /// The general threshold is not between zero and one.
    GeneralThreshold,
    /// The character threshold is not between zero and one.
    CharacterThreshold,
    /// There is not one confidence for each label.
    CountMismatch { confidences: usize, labels: usize },
}

impl PredictionError {
    /// What the error says.
    pub open spec fn text(&self) -> Seq<char> {
        match *self {
            PredictionError::GeneralThreshold => "general threshold must be between 0 and 1"@,
            PredictionError::CharacterThreshold => "character threshold must be between 0 and 1"@,
            PredictionError::CountMismatch { confidences, labels } => "model output/label count mismatch: "@
                + decimal(confidences as nat) + " probabilities, "@ + decimal(labels as nat)
                + " labels"@,
        }
    }

    /// What the error says.
    pub fn message(&self) -> (text: String)
        ensures
            text@ == self.text(),
    {
        match self {
            PredictionError::GeneralThreshold => "general threshold must be between 0 and 1".to_owned(),
            PredictionError::CharacterThreshold => "character threshold must be between 0 and 1".to_owned(),
            PredictionError::CountMismatch { confidences, labels } => {
                let mut text = "model output/label count mismatch: ".to_owned();
                text.append(decimal_text(*confidences as u128).as_str());
                text.append(" probabilities, ");
                text.append(decimal_text(*labels as u128).as_str());
                text.append(" labels");
                text
            },
        }
    }
}

/// Why options are refused, if they are.
pub open spec fn options_error(options: TaggerOptions) -> Option<PredictionError> {
    if !is_unit(options.general_threshold) {
        Some(PredictionError::GeneralThreshold)
    } else if !is_unit(options.character_threshold) {
        Some(PredictionError::CharacterThreshold)
    } else {
        None
    }
}

/// Refuses thresholds that are not between zero and one.
pub fn validate_options(options: TaggerOptions) -> (result: Result<(), PredictionError>)
    ensures
        match result {
            Ok(_) => options_error(options) is None,
            Err(error) => options_error(options) == Some(error),
        },
{
    if !unit(options.general_threshold) {
        Err(PredictionError::GeneralThreshold)
    } else if !unit(options.character_threshold) {
        Err(PredictionError::CharacterThreshold)
    } else {
        Ok(())
    }
}

/// Whether a label is a rating with a finite confidence.
pub open spec fn is_rated(labels: Seq<LabelView>, confidences: Seq<u32>, i: int) -> bool {
    labels[i].category == TagCategory::Rating && is_finite(confidences[i])
}

/// Whether a rating is the best among the first `count`: none has a higher
/// confidence, and none behind it has the same.
pub open spec fn is_best_rating(
    labels: Seq<LabelView>,
    confidences: Seq<u32>,
    count: int,
    best: int,
) -> bool {
    &&& 0 <= best < count
    &&& is_rated(labels, confidences, best)
    &&& forall|i: int|
        0 <= i < count && #[trigger] is_rated(labels, confidences, i) ==> {
            ||| total_order(confidences[i]) < total_order(confidences[best])
            ||| total_order(confidences[i]) == total_order(confidences[best]) && i <= best
        }
}

/// Whether a label is predicted. Ratings exclude one another: only the best is.
pub open spec fn is_predicted(
    labels: Seq<LabelView>,
    confidences: Seq<u32>,
    options: TaggerOptions,
    i: int,
) -> bool {
    &&& is_finite(confidences[i])
    &&& match labels[i].category {
        TagCategory::Rating => options.include_rating && is_best_rating(
            labels,
            confidences,
            labels.len() as int,
            i,
        ),
        TagCategory::General => value_order(confidences[i]) >= value_order(
            options.general_threshold,
        ),
        TagCategory::Character => value_order(confidences[i]) >= value_order(
            options.character_threshold,
        ),
    }
}

/// The predictions among the first `count` labels, in their order.
pub open spec fn predicted(
    labels: Seq<LabelView>,
    confidences: Seq<u32>,
    options: TaggerOptions,
    count: nat,
) -> Seq<PredictionView>
    decreases count,
{
    if count == 0 {
        Seq::<PredictionView>::empty()
    } else {
        let i = count - 1;
        let rest = predicted(labels, confidences, options, i as nat);
        if is_predicted(labels, confidences, options, i) {
            rest.push(
                PredictionView {
                    tag: labels[i].name,
                    confidence: confidences[i],
                    category: labels[i].category,
                },
            )
        } else {
            rest
        }
    }
}

/// The rank of a prediction by its confidence.
pub open spec fn prediction_rank(prediction: PredictionView) -> RankView {
    RankView {
        number: total_order(prediction.confidence),
        first: Seq::<char>::empty(),
        second: Seq::<char>::empty(),
    }
}

/// The ranks of predictions.
pub open spec fn prediction_ranks(predictions: Seq<PredictionView>) -> Seq<RankView> {
    Seq::new(predictions.len(), |i: int| prediction_rank(predictions[i]))
}

/// The predictions with the highest confidence first; those of equal confidence
/// keep the order of the labels.
pub open spec fn by_confidence(predictions: Seq<PredictionView>) -> Seq<PredictionView> {
    arranged(predictions, arrangement(prediction_ranks(predictions), true))
}

/// Predictions are listed with falling confidence, and none is lost or added by
/// that.
pub proof fn law_predictions_fall(predictions: Seq<PredictionView>)
    requires
        predictions.len() <= usize::MAX,
    ensures
        by_confidence(predictions).to_multiset() == predictions.to_multiset(),
        forall|i: int, j: int|
            0 <= i < j < predictions.len() ==> total_order(
                (#[trigger] by_confidence(predictions)[i]).confidence,
            ) >= total_order((#[trigger] by_confidence(predictions)[j]).confidence),
{
    let ranks = prediction_ranks(predictions);
    let order = arrangement(ranks, true);
    let sorted = by_confidence(predictions);
    lemma_arrangement_exists(ranks, true);
    lemma_arrangement_permutes(order, ranks, true);
    lemma_arranged_multiset(predictions, order);
    assert forall|i: int, j: int| 0 <= i < j < predictions.len() implies total_order(
        (#[trigger] sorted[i]).confidence,
    ) >= total_order((#[trigger] sorted[j]).confidence) by {
        assert(order.contains(order[i]) && order.contains(order[j]));
        let a = order[i] as int;
        let b = order[j] as int;
        assert(goes_before(ranks, true, a, b));
        assert(ranks[a] == prediction_rank(predictions[a]));
        assert(ranks[b] == prediction_rank(predictions[b]));
        lemma_text_irreflexive(Seq::<char>::empty());
    }
}

/// The place of the best rating, where there is one.
fn best_rating(labels: &Vec<Label>, confidences: &[u32]) -> (best: Option<usize>)
    requires
        labels@.len() == confidences@.len(),
    ensures
        match best {
            Some(best) => is_best_rating(
                label_views(labels@),
                confidences@,
                labels@.len() as int,
                best as int,
            ),
            None => forall|i: int|
                0 <= i < labels@.len() ==> !#[trigger] is_rated(
                    label_views(labels@),
                    confidences@,
                    i,
                ),
        },
{
    let ghost all = label_views(labels@);
    let mut best: Option<usize> = None;
    for i in 0..labels.len()
        invariant
            all == label_views(labels@),
            labels@.len() == confidences@.len(),
            match best {
                Some(best) => is_best_rating(all, confidences@, i as int, best as int),
                None => forall|k: int|
                    0 <= k < i ==> !#[trigger] is_rated(all, confidences@, k),
            },
    {
        assert(all[i as int] == labels@[i as int]@);
        if labels[i].category == TagCategory::Rating && finite(confidences[i]) {
            assert(is_rated(all, confidences@, i as int));
            let better = match best {
                Some(at) => total_value(confidences[i]) >= total_value(confidences[at]),
                None => true,
            };
            if better {
                best = Some(i);
            }
        }
    }
    best
}

/// Selects the predicted tags from the confidences of a model.
pub fn select_predictions(labels: &Vec<Label>, confidences: &[u32], options: TaggerOptions) -> (result:
    Result<Vec<TagPrediction>, PredictionError>)
    ensures
        match result {
            Ok(predictions) => {
                &&& options_error(options) is None
                &&& labels@.len() == confidences@.len()
                &&& prediction_views(predictions@) == by_confidence(
                    predicted(label_views(labels@), confidences@, options, labels@.len()),
                )
                &&& forall|k: int|
                    0 <= k < predictions@.len() ==> match (#[trigger] predictions@[k]).category {
                        TagCategory::Rating => options.include_rating,
                        TagCategory::General => reaches(
                            predictions@[k].confidence,
                            options.general_threshold,
                        ),
                        TagCategory::Character => reaches(
                            predictions@[k].confidence,
                            options.character_threshold,
                        ),
                    }
                &&& forall|i: int|
                    0 <= i < labels@.len() && match (#[trigger] labels@[i]).category {
                        TagCategory::Rating => false,
                        TagCategory::General => reaches(confidences@[i], options.general_threshold),
                        TagCategory::Character => reaches(
                            confidences@[i],
                            options.character_threshold,
                        ),
                    } ==> exists|k: int|
                        {
                            &&& 0 <= k < predictions@.len()
                            &&& (#[trigger] predictions@[k]).tag@ == labels@[i].name@
                            &&& predictions@[k].confidence == confidences@[i]
                            &&& predictions@[k].category == labels@[i].category
                        }
            },
            Err(error) => match options_error(options) {
                Some(expected) => error == expected,
                None => labels@.len() != confidences@.len() && error
                    == (PredictionError::CountMismatch {
                    confidences: confidences@.len() as usize,
                    labels: labels@.len() as usize,
                }),
            },
        },
{
    match validate_options(options) {
        Ok(_) => {},
        Err(error) => {
            return Err(error);
        },
    }
    if labels.len() != confidences.len() {
        return Err(
            PredictionError::CountMismatch {
                confidences: confidences.len(),
                labels: labels.len(),
            },
        );
    }
    let best = best_rating(labels, confidences);
    let ghost all = label_views(labels@);
    let mut kept: Vec<usize> = Vec::new();
    let mut ranks: Vec<Rank> = Vec::new();
    for i in 0..labels.len()
        invariant
            all == label_views(labels@),
            labels@.len() == confidences@.len(),
            match best {
                Some(best) => is_best_rating(
                    all,
                    confidences@,
                    labels@.len() as int,
                    best as int,
                ),
                None => forall|k: int|
                    0 <= k < labels@.len() ==> !#[trigger] is_rated(all, confidences@, k),
            },
            forall|k: int| 0 <= k < kept@.len() ==> #[trigger] kept@[k] < i,
            predicted(all, confidences@, options, i as nat) == Seq::new(
                kept@.len(),
                |k: int| prediction_at(all, confidences@, kept@[k] as int),
            ),
            rank_views(ranks@) == prediction_ranks(
                predicted(all, confidences@, options, i as nat),
            ),
    {
        let ghost ranked = ranks@;
        assert(all[i as int] == labels@[i as int]@);
        let confidence: u32 = confidences[i];
        let chosen = finite(confidence) && match labels[i].category {
            TagCategory::Rating => options.include_rating && match best {
                Some(best) => {
                    proof {
                        lemma_one_best_rating(all, confidences@, best as int, i as int);
                    }
                    best == i
                },
                None => false,
            },
            TagCategory::General => signed_value(confidence) >= signed_value(
                options.general_threshold,
            ),
            TagCategory::Character => signed_value(confidence) >= signed_value(
                options.character_threshold,
            ),
        };
        assert(chosen == is_predicted(all, confidences@, options, i as int));
        if chosen {
            kept.push(i);
            let rank = Rank {
                number: total_value(confidence) as i128,
                first: Vec::new(),
                second: Vec::new(),
            };
            assert(rank@.first =~= Seq::<char>::empty());
            assert(rank@.second =~= Seq::<char>::empty());
            ranks.push(rank);
            assert(predicted(all, confidences@, options, (i + 1) as nat) =~= Seq::new(
                kept@.len(),
                |k: int| prediction_at(all, confidences@, kept@[k] as int),
            ));
            assert(rank_views(ranks@) =~= rank_views(ranked).push(rank@));
            assert(rank_views(ranks@) =~= prediction_ranks(
                predicted(all, confidences@, options, (i + 1) as nat),
            ));
        }
    }
    let ghost found = predicted(all, confidences@, options, labels@.len());
    let order = arrange(&ranks, true);
    let ghost target = by_confidence(found);
    let mut predictions: Vec<TagPrediction> = Vec::new();
    for i in 0..order.len()
        invariant
            all == label_views(labels@),
            labels@.len() == confidences@.len(),
            is_arrangement(order@, prediction_ranks(found), true),
            found == Seq::new(
                kept@.len(),
                |k: int| prediction_at(all, confidences@, kept@[k] as int),
            ),
            forall|k: int| 0 <= k < kept@.len() ==> #[trigger] kept@[k] < labels@.len(),
            target == arranged(found, order@),
            prediction_views(predictions@) == target.take(i as int),
    {
        let ghost before = predictions@;
        assert(order@.contains(order@[i as int]));
        let at: usize = kept[order[i]];
        let prediction = TagPrediction {
            tag: labels[at].name.clone(),
            confidence: confidences[at],
            category: labels[at].category,
        };
        assert(prediction@ == target[i as int]);
        predictions.push(prediction);
        assert(prediction_views(predictions@) =~= prediction_views(before).push(prediction@));
        assert(prediction_views(predictions@) =~= target.take(i + 1));
    }
    assert(target.take(order@.len() as int) =~= target);
    proof {
        let places = law_what_is_predicted(all, confidences@, options);
        law_one_rating_is_predicted(all, confidences@, options);
        assert forall|k: int| 0 <= k < predictions@.len() implies target[k]
            == (#[trigger] predictions@[k])@ by {
            assert(prediction_views(predictions@)[k] == predictions@[k]@);
        }
        assert forall|i: int|
            0 <= i < labels@.len() && match (#[trigger] labels@[i]).category {
                TagCategory::Rating => false,
                TagCategory::General => reaches(confidences@[i], options.general_threshold),
                TagCategory::Character => reaches(confidences@[i], options.character_threshold),
            } implies exists|k: int|
            {
                &&& 0 <= k < predictions@.len()
                &&& (#[trigger] predictions@[k]).tag@ == labels@[i].name@
                &&& predictions@[k].confidence == confidences@[i]
                &&& predictions@[k].category == labels@[i].category
            } by {
            assert(all[i] == labels@[i]@);
            assert(places.contains(i));
            let k = choose|k: int| 0 <= k < places.len() && places[k] == i;
            assert(target[k] == predictions@[k]@);
        }
    }
    Ok(predictions)
}

/// The prediction of one label.
pub open spec fn prediction_at(labels: Seq<LabelView>, confidences: Seq<u32>, i: int) -> PredictionView {
    PredictionView {
        tag: labels[i].name,
        confidence: confidences[i],
        category: labels[i].category,
    }
}

/// Only one rating is the best.
pub proof fn lemma_one_best_rating(labels: Seq<LabelView>, confidences: Seq<u32>, a: int, b: int)
    requires
        is_best_rating(labels, confidences, labels.len() as int, a),
    ensures
        is_best_rating(labels, confidences, labels.len() as int, b) <==> a == b,
{
    if is_best_rating(labels, confidences, labels.len() as int, b) {
        assert(is_rated(labels, confidences, a));
        assert(is_rated(labels, confidences, b));
    }
}

// ----- The input of a model ------------------------------------------------

/// Why a model cannot be used.
#[derive(Clone, Copy, Debug, PartialEq, Eq, Structural)]
pub enum InputError {
    /// The input is not a tensor of 32-bit numbers with four dimensions.
    Tensor,
    /// The height is not fixed.
    Height,
    /// The width is not fixed.
    Width,
    /// The number of channels is not fixed.
    Channels,
    /// The input is not a square image with three channels.
    Shape,
}

/// The side of the images that a model takes, by the shape of its input:
/// number, height, width and channels.
pub open spec fn input_side(is_float: bool, shape: Seq<i64>) -> Result<int, InputError> {
    if !is_float || shape.len() != 4 {
        Err(InputError::Tensor)
    } else if shape[1] < 0 || shape[1] > usize::MAX {
        Err(InputError::Height)
    } else if shape[2] < 0 || shape[2] > usize::MAX {
        Err(InputError::Width)
    } else if shape[3] < 0 || shape[3] > usize::MAX {
        Err(InputError::Channels)
    } else if shape[1] != shape[2] || shape[3] != 3 {
        Err(InputError::Shape)
    } else {
        Ok(shape[1] as int)
    }
}

fn fixed(dimension: i64) -> (size: Option<usize>)
    ensures
        match size {
            Some(size) => size == dimension,
            None => dimension < 0 || dimension > usize::MAX,
        },
{
    if dimension < 0 || dimension as u64 > usize::MAX as u64 {
        None
    } else {
        Some(dimension as usize)
    }
}

/// The side of the images that a model takes, by the shape of its input.
pub fn input_size(is_float: bool, shape: &[i64]) -> (result: Result<usize, InputError>)
    ensures
        match result {
            Ok(side) => input_side(is_float, shape@) == Ok::<int, InputError>(side as int),
            Err(error) => input_side(is_float, shape@) == Err::<int, InputError>(error),
        },
{
    if !is_float || shape.len() != 4 {
        return Err(InputError::Tensor);
    }
    let height: usize = match fixed(shape[1]) {
        Some(size) => size,
        None => {
            return Err(InputError::Height);
        },
    };
    let width: usize = match fixed(shape[2]) {
        Some(size) => size,
        None => {
            return Err(InputError::Width);
        },
    };
    let channels: usize = match fixed(shape[3]) {
        Some(size) => size,
        None => {
            return Err(InputError::Channels);
        },
    };
    if height != width || channels != 3 {
        return Err(InputError::Shape);
    }
    Ok(height)
}

} // verus!
