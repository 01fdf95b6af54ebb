//! Getting the files of a model: what is missing, and the steps of a download.

use vstd::prelude::*;

use crate::paths::{extended, extension, extension_of, with_extension};
use crate::tagger::{csv_header, csv_rows, is_label_header, is_label_row, parse_labels};
use crate::text::{decimal, decimal_text};

verus! {

// ----- What is there -------------------------------------------------------

/// The least size of a model file.
pub const MIN_MODEL_BYTES: u64 = 1_000_000;

/// The least size of a label file.
pub const MIN_LABEL_BYTES: u64 = 1_000;

/// Whether the bytes are those of a label file that can be used.
pub open spec fn are_labels(bytes: Seq<u8>) -> bool {
    &&& csv_header(bytes) matches Some(header) && is_label_header(header)
    &&& csv_rows(bytes).len() > 0
    &&& forall|i: int| 0 <= i < csv_rows(bytes).len() ==> is_label_row(#[trigger] csv_rows(bytes)[i])
}

/// Whether a file of the given length, where it is a regular file, can be a
/// model.
pub open spec fn is_plausible_model(length: Option<u64>) -> bool {
    length matches Some(length) && length >= MIN_MODEL_BYTES
}

/// Whether a file with the given contents, where it can be read, can be a label
/// file.
pub open spec fn are_plausible_labels(bytes: Option<Seq<u8>>) -> bool {
    bytes matches Some(bytes) && bytes.len() >= MIN_LABEL_BYTES && are_labels(bytes)
}

/// Whether a file can be a model, by its length where it is a regular file.
pub fn model_file_is_plausible(length: Option<u64>) -> (yes: bool)
    ensures
        yes == is_plausible_model(length),
{
    match length {
        Some(length) => length >= MIN_MODEL_BYTES,
        None => false,
    }
}

/// The contents of a file that could be read.
pub open spec fn contents_of(bytes: Option<&[u8]>) -> Option<Seq<u8>> {
    match bytes {
        Some(bytes) => Some(bytes@),
        None => None,
    }
}

/// Whether the bytes are those of a label file that can be used.
pub fn labels_are_valid(bytes: &[u8]) -> (yes: bool)
    ensures
        yes == are_labels(bytes@),
{
    parse_labels(bytes).is_ok()
}

/// Whether a file can be a label file, by its contents where it could be read.
pub fn labels_file_is_plausible(bytes: Option<&[u8]>) -> (yes: bool)
    ensures
        yes == are_plausible_labels(contents_of(bytes)),
{
    match bytes {
        Some(bytes) => bytes.len() as u64 >= MIN_LABEL_BYTES && labels_are_valid(bytes),
        None => false,
    }
}

/// Whether a model can be used as it is, by the length of its model file and
/// the contents of its label file.
pub fn model_is_available(model_length: Option<u64>, label_bytes: Option<&[u8]>) -> (yes: bool)
    ensures
        yes == (is_plausible_model(model_length) && are_plausible_labels(
            contents_of(label_bytes),
        )),
{
    model_file_is_plausible(model_length) && labels_file_is_plausible(label_bytes)
}

/// The same as [`model_is_available`], for the files of a selected model.
pub fn model_is_available_for(model_length: Option<u64>, label_bytes: Option<&[u8]>) -> (yes: bool)
    ensures
        yes == (is_plausible_model(model_length) && are_plausible_labels(
            contents_of(label_bytes),
        )),
{
    model_is_available(model_length, label_bytes)
}

// ----- Getting what is missing ---------------------------------------------

/// What is to be done next to have the files of a model.
#[derive(Clone, Copy, Debug, PartialEq, Eq, Structural)]
pub enum EnsureStep {
    /// Make the cache directory.
    MakeCache,
    /// Look at the model file.
    LookAtModel,
    /// Download the model file.
    GetModel,
    /// Look at the label file.
    LookAtLabels,
    /// Download the label file.
    GetLabels,
    /// Look whether the label file that was downloaded can be used.
    ReadLabels,
    /// Remove the label file. It does not matter if that fails.
    DropLabels,
    /// Both files are there.
    Ready,
    /// The files could not be had.
    Failed(EnsureFailure),
}

/// Why the files of a model could not be had.
#[derive(Clone, Copy, Debug, PartialEq, Eq, Structural)]
pub enum EnsureFailure {
    /// The cache directory could not be made.
    Cache,
    /// The model file could not be downloaded.
    Model,
    /// The label file could not be downloaded.
    Labels,
    /// The label file that was downloaded cannot be used.
    InvalidLabels,
}

/// What is to be done after a step that went well or found what it looked for,
/// or not.
pub open spec fn ensure_next(step: EnsureStep, good: bool) -> EnsureStep {
    match step {
        EnsureStep::MakeCache => if good {
            EnsureStep::LookAtModel
        } else {
            EnsureStep::Failed(EnsureFailure::Cache)
        },
        EnsureStep::LookAtModel => if good {
            EnsureStep::LookAtLabels
        } else {
            EnsureStep::GetModel
        },
        EnsureStep::GetModel => if good {
            EnsureStep::LookAtLabels
        } else {
            EnsureStep::Failed(EnsureFailure::Model)
        },
        EnsureStep::LookAtLabels => if good {
            EnsureStep::Ready
        } else {
            EnsureStep::GetLabels
        },
        EnsureStep::GetLabels => if good {
            EnsureStep::ReadLabels
        } else {
            EnsureStep::Failed(EnsureFailure::Labels)
        },
        EnsureStep::ReadLabels => if good {
            EnsureStep::Ready
        } else {
            EnsureStep::DropLabels
        },
        EnsureStep::DropLabels => EnsureStep::Failed(EnsureFailure::InvalidLabels),
        EnsureStep::Ready => EnsureStep::Ready,
        EnsureStep::Failed(failure) => EnsureStep::Failed(failure),
    }
}

impl EnsureStep {
    /// What is to be done after this step.
    pub fn next(self, good: bool) -> (step: EnsureStep)
        ensures
            step == ensure_next(self, good),
    {
        match self {
            EnsureStep::MakeCache => {
                if good {
                    EnsureStep::LookAtModel
                } else {
                    EnsureStep::Failed(EnsureFailure::Cache)
                }
            },
            EnsureStep::LookAtModel => {
                if good {
                    EnsureStep::LookAtLabels
                } else {
                    EnsureStep::GetModel
                }
            },
            EnsureStep::GetModel => {
                if good {
                    EnsureStep::LookAtLabels
                } else {
                    EnsureStep::Failed(EnsureFailure::Model)
                }
            },
            EnsureStep::LookAtLabels => {
                if good {
                    EnsureStep::Ready
                } else {
                    EnsureStep::GetLabels
                }
            },
            EnsureStep::GetLabels => {
                if good {
                    EnsureStep::ReadLabels
                } else {
                    EnsureStep::Failed(EnsureFailure::Labels)
                }
            },
            EnsureStep::ReadLabels => {
                if good {
                    EnsureStep::Ready
                } else {
                    EnsureStep::DropLabels
                }
            },
            EnsureStep::DropLabels => EnsureStep::Failed(EnsureFailure::InvalidLabels),
            EnsureStep::Ready => EnsureStep::Ready,
            EnsureStep::Failed(failure) => EnsureStep::Failed(failure),
        }
    }
}

// ----- One download --------------------------------------------------------

/// The address of a file of a model.
pub open spec fn address_of(repository: Seq<char>, name: Seq<char>) -> Seq<char> {
    "https://huggingface.co/"@ + repository + "/resolve/main/"@ + name + "?download=true"@
}

/// The address of a file of a model.
pub fn download_address(repository: &str, name: &str) -> (address: String)
    ensures
        address@ == address_of(repository@, name@),
{
    let mut address = "https://huggingface.co/".to_owned();
    address.append(repository);
    address.append("/resolve/main/");
    address.append(name);
    address.append("?download=true");
    address
}

/// Where a file is put while it is downloaded.
pub open spec fn part_of(target: Seq<char>) -> Seq<char> {
    extended(
        target,
        match extension_of(target) {
            Some(extension) => extension + ".part"@,
            None => "download.part"@,
        },
    )
}

/// Where a file is put while it is downloaded.
pub fn part_path(target: &str) -> (path: String)
    ensures
        path@ == part_of(target@),
{
    let suffix = match extension(target) {
        Some(found) => {
            let mut suffix = found;
            suffix.append(".part");
            suffix
        },
        None => "download.part".to_owned(),
    };
    with_extension(target, suffix.as_str())
}

/// Why a download failed.
#[derive(Clone, Copy, Debug, PartialEq, Eq, Structural)]
pub enum DownloadFailure {
    /// What an earlier download left could not be removed.
    StalePart,
    /// The request failed.
    Request,
    /// The server refused it.
    Status,
    /// The file could not be made.
    Create,
    /// The stream failed.
    Read,
    /// What came could not be written.
    Write,
    /// It could not be written to the end.
    Flush,
    /// Another number of bytes came than the server had promised.
    Incomplete { downloaded: u64, advertised: u64 },
    /// Fewer bytes came than such a file has.
    TooSmall { downloaded: u64 },
    /// The old file could not be removed.
    Replace,
    /// The file could not be put into place.
    Install,
}

/// What is to be done next in a download.
#[derive(Clone, Copy, Debug, PartialEq, Eq, Structural)]
pub enum DownloadStep {
    /// Look whether an earlier download left something.
    LookForPart,
    /// Remove it.
    DropStalePart,
    /// Send the request.
    Request,
    /// Look at the status of the reply.
    Status,
    /// Make the file for what comes.
    Create { total: Option<u64> },
    /// Read some bytes.
    Read { downloaded: u64, total: Option<u64> },
    /// Write the bytes that were read.
    Write { downloaded: u64, total: Option<u64>, count: u64 },
    /// Write to the end.
    Flush { downloaded: u64, total: Option<u64> },
    /// Look whether there is an old file.
    LookForTarget,
    /// Remove it.
    DropTarget,
    /// Put the file into place.
    Install,
    /// Remove what came. It does not matter if that fails.
    DropPart(DownloadFailure),
    /// The file is there.
    Finished,
    /// The download failed.
    Failed(DownloadFailure),
}

/// How a step of a download went.
#[derive(Clone, Copy, Debug, PartialEq, Eq, Structural)]
pub enum DownloadResult {
    /// It was done.
    Done,
    /// It failed.
    Failed,
    /// What was looked for is there, or not.
    Found(bool),
    /// The server agreed, and promised so many bytes.
    Accepted(Option<u64>),
    /// So many bytes were read; none at the end.
    Received(u64),
}

/// What is to be done when all of a file came.
pub open spec fn after_flush(downloaded: u64, total: Option<u64>, minimum: u64) -> DownloadStep {
    match total {
        Some(advertised) => if downloaded != advertised {
            DownloadStep::DropPart(DownloadFailure::Incomplete { downloaded, advertised })
        } else if downloaded < minimum {
            DownloadStep::DropPart(DownloadFailure::TooSmall { downloaded })
        } else {
            DownloadStep::LookForTarget
        },
        None => if downloaded < minimum {
            DownloadStep::DropPart(DownloadFailure::TooSmall { downloaded })
        } else {
            DownloadStep::LookForTarget
        },
    }
}

/// What is to be done after a step of a download of a file that has at least
/// `minimum` bytes.
pub open spec fn download_next(
    step: DownloadStep,
    result: DownloadResult,
    minimum: u64,
) -> DownloadStep {
    let done = result == DownloadResult::Done;
    let there = result == DownloadResult::Found(true);
    match step {
        DownloadStep::LookForPart => if there {
            DownloadStep::DropStalePart
        } else {
            DownloadStep::Request
        },
        DownloadStep::DropStalePart => if done {
            DownloadStep::Request
        } else {
            DownloadStep::Failed(DownloadFailure::StalePart)
        },
        DownloadStep::Request => if done {
            DownloadStep::Status
        } else {
            DownloadStep::DropPart(DownloadFailure::Request)
        },
        DownloadStep::Status => match result {
            DownloadResult::Accepted(total) => DownloadStep::Create { total },
            _ => DownloadStep::DropPart(DownloadFailure::Status),
        },
        DownloadStep::Create { total } => if done {
            DownloadStep::Read { downloaded: 0, total }
        } else {
            DownloadStep::DropPart(DownloadFailure::Create)
        },
        DownloadStep::Read { downloaded, total } => match result {
            DownloadResult::Received(count) => if count == 0 {
                DownloadStep::Flush { downloaded, total }
            } else {
                DownloadStep::Write { downloaded, total, count }
            },
            _ => DownloadStep::DropPart(DownloadFailure::Read),
        },
        DownloadStep::Write { downloaded, total, count } => if done {
            DownloadStep::Read { downloaded: (downloaded + count) as u64, total }
        } else {
            DownloadStep::DropPart(DownloadFailure::Write)
        },
        DownloadStep::Flush { downloaded, total } => if done {
            after_flush(downloaded, total, minimum)
        } else {
            DownloadStep::DropPart(DownloadFailure::Flush)
        },
        DownloadStep::LookForTarget => if there {
            DownloadStep::DropTarget
        } else {
            DownloadStep::Install
        },
        DownloadStep::DropTarget => if done {
            DownloadStep::Install
        } else {
            DownloadStep::DropPart(DownloadFailure::Replace)
        },
        DownloadStep::Install => if done {
            DownloadStep::Finished
        } else {
            DownloadStep::DropPart(DownloadFailure::Install)
        },
        DownloadStep::DropPart(failure) => DownloadStep::Failed(failure),
        DownloadStep::Finished => DownloadStep::Finished,
        DownloadStep::Failed(failure) => DownloadStep::Failed(failure),
    }
}

/// How far a download has come.
#[derive(Clone, Copy, Debug, PartialEq, Eq, Structural)]
pub struct DownloadProgress {
    pub downloaded: u64,
    pub total: Option<u64>,
}

impl DownloadStep {
    /// What is to be done after this step.
    pub fn next(self, result: DownloadResult, minimum: u64) -> (step: DownloadStep)
        requires
            self matches DownloadStep::Write { downloaded, total, count } ==> downloaded + count
                <= u64::MAX,
        ensures
            step == download_next(self, result, minimum),
    {
        let done = result == DownloadResult::Done;
        let there = result == DownloadResult::Found(true);
        match self {
            DownloadStep::LookForPart => {
                if there {
                    DownloadStep::DropStalePart
                } else {
                    DownloadStep::Request
                }
            },
            DownloadStep::DropStalePart => {
                if done {
                    DownloadStep::Request
                } else {
                    DownloadStep::Failed(DownloadFailure::StalePart)
                }
            },
            DownloadStep::Request => {
                if done {
                    DownloadStep::Status
                } else {
                    DownloadStep::DropPart(DownloadFailure::Request)
                }
            },
            DownloadStep::Status => match result {
                DownloadResult::Accepted(total) => DownloadStep::Create { total },
                _ => DownloadStep::DropPart(DownloadFailure::Status),
            },
            DownloadStep::Create { total } => {
                if done {
                    DownloadStep::Read { downloaded: 0, total }
                } else {
                    DownloadStep::DropPart(DownloadFailure::Create)
                }
            },
            DownloadStep::Read { downloaded, total } => match result {
                DownloadResult::Received(count) => {
                    if count == 0 {
                        DownloadStep::Flush { downloaded, total }
                    } else {
                        DownloadStep::Write { downloaded, total, count }
                    }
                },
                _ => DownloadStep::DropPart(DownloadFailure::Read),
            },
            DownloadStep::Write { downloaded, total, count } => {
                if done {
                    DownloadStep::Read { downloaded: downloaded + count, total }
                } else {
                    DownloadStep::DropPart(DownloadFailure::Write)
                }
            },
            DownloadStep::Flush { downloaded, total } => {
                if done {
                    check_length(downloaded, total, minimum)
                } else {
                    DownloadStep::DropPart(DownloadFailure::Flush)
                }
            },
            DownloadStep::LookForTarget => {
                if there {
                    DownloadStep::DropTarget
                } else {
                    DownloadStep::Install
                }
            },
            DownloadStep::DropTarget => {
                if done {
                    DownloadStep::Install
                } else {
                    DownloadStep::DropPart(DownloadFailure::Replace)
                }
            },
            DownloadStep::Install => {
                if done {
                    DownloadStep::Finished
                } else {
                    DownloadStep::DropPart(DownloadFailure::Install)
                }
            },
            DownloadStep::DropPart(failure) => DownloadStep::Failed(failure),
            DownloadStep::Finished => DownloadStep::Finished,
            DownloadStep::Failed(failure) => DownloadStep::Failed(failure),
        }
    }

    /// What is reported when this step begins: the bytes that have come, before
    /// each read.
    pub fn progress(self) -> (progress: Option<DownloadProgress>)
        ensures
            progress == match self {
                DownloadStep::Read { downloaded, total } => Some(
                    DownloadProgress { downloaded, total },
                ),
                _ => None,
            },
    {
        match self {
            DownloadStep::Read { downloaded, total } => Some(
                DownloadProgress { downloaded, total },
            ),
            _ => None,
        }
    }
}

fn check_length(downloaded: u64, total: Option<u64>, minimum: u64) -> (step: DownloadStep)
    ensures
        step == after_flush(downloaded, total, minimum),
{
    match total {
        Some(advertised) => {
            if downloaded != advertised {
                return DownloadStep::DropPart(
                    DownloadFailure::Incomplete { downloaded, advertised },
                );
            }
        },
        None => {},
    }
    if downloaded < minimum {
        DownloadStep::DropPart(DownloadFailure::TooSmall { downloaded })
    } else {
        DownloadStep::LookForTarget
    }
}

/// What the two failures say that only the numbers of bytes tell.
pub fn length_message(name: &str, failure: DownloadFailure) -> (text: Option<String>)
    ensures
        match (failure, text) {
            (DownloadFailure::Incomplete { downloaded, advertised }, Some(text)) => text@
                == "incomplete "@ + name@ + ": downloaded "@ + decimal(downloaded as nat)
                + " bytes, server advertised "@ + decimal(advertised as nat),
            (DownloadFailure::TooSmall { downloaded }, Some(text)) => text@ == "incomplete "@ + name@
                + ": only "@ + decimal(downloaded as nat) + " bytes received"@,
            (DownloadFailure::Incomplete { .. }, None) => false,
            (DownloadFailure::TooSmall { .. }, None) => false,
            (_, text) => text is None,
        },
{
    match failure {
        DownloadFailure::Incomplete { downloaded, advertised } => {
            let mut text = "incomplete ".to_owned();
            text.append(name);
            text.append(": downloaded ");
            text.append(decimal_text(downloaded as u128).as_str());
            text.append(" bytes, server advertised ");
            text.append(decimal_text(advertised as u128).as_str());
            Some(text)
        },
        DownloadFailure::TooSmall { downloaded } => {
            let mut text = "incomplete ".to_owned();
            text.append(name);
            text.append(": only ");
            text.append(decimal_text(downloaded as u128).as_str());
            text.append(" bytes received");
            Some(text)
        },
        _ => None,
    }
}

/// How many bytes are in the file of a download, and how many at its target.
#[verifier::ext_equal]
pub struct DownloadDisk {
    pub part: Option<nat>,
    pub target: Option<nat>,
}

/// What a step of a download does to the disk.
pub open spec fn download_effect(
    disk: DownloadDisk,
    step: DownloadStep,
    result: DownloadResult,
) -> DownloadDisk {
    if result != DownloadResult::Done {
        disk
    } else {
        match step {
            DownloadStep::DropStalePart => DownloadDisk { part: None, ..disk },
            DownloadStep::Create { .. } => DownloadDisk { part: Some(0), ..disk },
            DownloadStep::Write { downloaded, total, count } => DownloadDisk {
                part: Some((downloaded + count) as nat),
                ..disk
            },
            DownloadStep::DropTarget => DownloadDisk { target: None, ..disk },
            DownloadStep::Install => DownloadDisk { part: None, target: disk.part },
            DownloadStep::DropPart(_) => DownloadDisk { part: None, ..disk },
            _ => disk,
        }
    }
}

/// What is on the disk before a step of a download, where `before` was at the
/// target.
pub open spec fn download_holds(
    disk: DownloadDisk,
    step: DownloadStep,
    before: Option<nat>,
    minimum: u64,
) -> bool {
    let complete = disk.part matches Some(length) && length >= minimum;
    match step {
        DownloadStep::Read { downloaded, total } => disk.target == before && disk.part == Some(
            downloaded as nat,
        ),
        DownloadStep::Write { downloaded, total, count } => disk.target == before && disk.part
            == Some(downloaded as nat) && downloaded + count <= u64::MAX,
        DownloadStep::Flush { downloaded, total } => disk.target == before && disk.part == Some(
            downloaded as nat,
        ),
        DownloadStep::LookForTarget => disk.target == before && complete,
        DownloadStep::DropTarget => disk.target == before && complete,
        DownloadStep::Install => (disk.target == before || disk.target is None) && complete,
        DownloadStep::Finished => disk.target matches Some(length) && length >= minimum,
        DownloadStep::DropPart(DownloadFailure::Install) => disk.target == before
            || disk.target is None,
        DownloadStep::Failed(DownloadFailure::Install) => disk.target == before
            || disk.target is None,
        _ => disk.target == before,
    }
}

/// Whatever fails, what [`download_holds`] says is kept: the target is touched
/// only when all bytes came, as many as the server promised and not fewer than
/// such a file has; and a download that ends well leaves such a file.
pub proof fn law_download_is_whole(
    disk: DownloadDisk,
    step: DownloadStep,
    result: DownloadResult,
    before: Option<nat>,
    minimum: u64,
)
    requires
        download_holds(disk, step, before, minimum),
        (step matches DownloadStep::Read { downloaded, total } && result
            matches DownloadResult::Received(count)) ==> step->Read_downloaded + result->Received_0
            <= u64::MAX,
    ensures
        download_holds(
            download_effect(disk, step, result),
            download_next(step, result, minimum),
            before,
            minimum,
        ),
        step matches DownloadStep::Flush { downloaded, total } ==> (download_next(
            step,
            result,
            minimum,
        ) is LookForTarget ==> downloaded >= minimum && (total matches Some(promised) ==> promised
            == downloaded)),
{
}

} // verus!
