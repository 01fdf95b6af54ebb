//! How work in several steps comes to its end.

use vstd::prelude::*;

use crate::download::{
    download_next, ensure_next, DownloadFailure, DownloadResult, DownloadStep, EnsureFailure,
    EnsureStep,
};
use crate::tagger::{input_side, InputError};
use crate::tagging::{tag_next, TagEnd, TagStep};
use crate::transfer::{
    copy_next, replace_next, CopyFailure, CopyResult, CopyStep, ReplaceFailure, ReplaceStep,
    StepResult,
};

verus! {

// ----- Replacing a file ----------------------------------------------------

/// A file is replaced when every step is done: the new one is written, the old
/// one, where there is one, is put aside, the new one takes its place, and the old
/// one is dropped.
pub proof fn law_replacement_comes_to_its_end(existing: bool)
    ensures
        ({
            let written = replace_next(ReplaceStep::WriteNew, StepResult::Done);
            let looked = replace_next(written, StepResult::Found(existing));
            let staged = replace_next(looked, StepResult::Done);
            &&& existing ==> {
                let installed = replace_next(staged, StepResult::Done);
                &&& looked == ReplaceStep::Stage
                &&& staged == (ReplaceStep::Install { staged: true })
                &&& installed == ReplaceStep::DropOld
                &&& replace_next(installed, StepResult::Done) == ReplaceStep::Finished
            }
            &&& !existing ==> {
                &&& looked == (ReplaceStep::Install { staged: false })
                &&& staged == ReplaceStep::Finished
            }
        }),
{
}

/// A step of a replacement that fails is told as the failure that it is, once
/// what was begun is cleared away. Only the old file may stay behind unnoticed, when
/// the new one is in its place.
pub proof fn law_failed_replacement_is_told(step: ReplaceStep)
    requires
        !(step is Look || step is DropOld || step is DropNew || step is Finished || step is Failed),
    ensures
        ({
            let next = replace_next(step, StepResult::Failed);
            match step {
                ReplaceStep::WriteNew => next == ReplaceStep::DropNew(ReplaceFailure::Write),
                ReplaceStep::Stage => next == ReplaceStep::DropNew(ReplaceFailure::Stage),
                ReplaceStep::Install { staged: false } => next == ReplaceStep::DropNew(
                    ReplaceFailure::Install,
                ),
                ReplaceStep::Install { staged: true } => next == ReplaceStep::Restore
                    && replace_next(next, StepResult::Done) == ReplaceStep::DropNew(
                    ReplaceFailure::Install,
                ),
                _ => next == ReplaceStep::DropNew(ReplaceFailure::Restore),
            }
        }),
        forall|failure: ReplaceFailure, result: StepResult| #[trigger]
            replace_next(ReplaceStep::DropNew(failure), result) == ReplaceStep::Failed(failure),
{
}

// ----- Copying a file ------------------------------------------------------

/// A file is copied and its source removed when every step is done and as many
/// bytes were copied as it has.
pub proof fn law_copy_comes_to_its_end(length: u64, copied: u64)
    ensures
        ({
            let inspected = copy_next(
                CopyStep::Inspect,
                CopyResult::Inspected { regular: true, length },
            );
            let opened = copy_next(inspected, CopyResult::Done);
            let named = copy_next(opened, CopyResult::Done);
            let created = copy_next(named, CopyResult::Done);
            let whole = copy_next(created, CopyResult::Copied(length));
            let permitted = copy_next(whole, CopyResult::Done);
            let installed = copy_next(permitted, CopyResult::Done);
            &&& created == (CopyStep::Copy { length })
            &&& whole == CopyStep::Permissions
            &&& permitted == CopyStep::Install
            &&& installed == CopyStep::RemoveSource
            &&& copy_next(installed, CopyResult::Done) == CopyStep::Finished
            &&& copy_next(installed, CopyResult::Failed) == CopyStep::DropTarget
            &&& copied != length ==> copy_next(created, CopyResult::Copied(copied))
                == CopyStep::DropCopy(CopyFailure::Length { expected: length, copied })
            &&& copy_next(CopyStep::Inspect, CopyResult::Inspected { regular: false, length })
                == CopyStep::Failed(CopyFailure::NotRegular)
        }),
{
}

/// A step of a copy that fails is told as the failure that it is; where a copy
/// was begun it is dropped first, and where the source could not be removed the
/// copy in its new place is.
pub proof fn law_failed_copy_is_told(length: u64)
    ensures
        copy_next(CopyStep::Inspect, CopyResult::Failed) == CopyStep::Failed(CopyFailure::Inspect),
        copy_next(CopyStep::Open { length }, CopyResult::Failed) == CopyStep::Failed(
            CopyFailure::Open,
        ),
        copy_next(CopyStep::Name { length }, CopyResult::Failed) == CopyStep::Failed(
            CopyFailure::NoName,
        ),
        copy_next(CopyStep::Create { length }, CopyResult::Failed) == CopyStep::Failed(
            CopyFailure::Create,
        ),
        copy_next(CopyStep::Copy { length }, CopyResult::Failed) == CopyStep::DropCopy(
            CopyFailure::Copy,
        ),
        copy_next(CopyStep::Permissions, CopyResult::Failed) == CopyStep::DropCopy(
            CopyFailure::Permissions,
        ),
        copy_next(CopyStep::Install, CopyResult::Failed) == CopyStep::DropCopy(
            CopyFailure::Install,
        ),
        forall|failure: CopyFailure, result: CopyResult| #[trigger]
            copy_next(CopyStep::DropCopy(failure), result) == CopyStep::Failed(failure),
        forall|result: CopyResult| #[trigger]
            copy_next(CopyStep::DropTarget, result) == CopyStep::Failed(CopyFailure::RemoveSource),
{
}

// ----- Downloading a file --------------------------------------------------

/// A download is read and written piece by piece until nothing more comes. It is
/// installed if and only if it is as long as was promised and not too short.
pub proof fn law_download_comes_to_its_end(
    downloaded: u64,
    count: u64,
    total: Option<u64>,
    minimum: u64,
)
    requires
        count > 0,
        downloaded + count <= u64::MAX,
    ensures
        download_next(DownloadStep::LookForPart, DownloadResult::Found(false), minimum)
            == DownloadStep::Request,
        download_next(DownloadStep::LookForPart, DownloadResult::Found(true), minimum)
            == DownloadStep::DropStalePart,
        download_next(DownloadStep::DropStalePart, DownloadResult::Done, minimum)
            == DownloadStep::Request,
        download_next(DownloadStep::Request, DownloadResult::Done, minimum) == DownloadStep::Status,
        download_next(DownloadStep::Status, DownloadResult::Accepted(total), minimum) == (
        DownloadStep::Create { total }),
        download_next(DownloadStep::Create { total }, DownloadResult::Done, minimum) == (
        DownloadStep::Read { downloaded: 0, total }),
        ({
            let read = DownloadStep::Read { downloaded, total };
            let write = download_next(read, DownloadResult::Received(count), minimum);
            let flush = download_next(read, DownloadResult::Received(0), minimum);
            &&& write == (DownloadStep::Write { downloaded, total, count })
            &&& download_next(write, DownloadResult::Done, minimum) == (DownloadStep::Read {
                downloaded: (downloaded + count) as u64,
                total,
            })
            &&& flush == (DownloadStep::Flush { downloaded, total })
            &&& download_next(flush, DownloadResult::Done, minimum) == DownloadStep::LookForTarget
                <==> downloaded >= minimum && (total is None || total == Some(downloaded))
            &&& (total matches Some(promised) && promised != downloaded) ==> download_next(
                flush,
                DownloadResult::Done,
                minimum,
            ) == DownloadStep::DropPart(
                DownloadFailure::Incomplete { downloaded, advertised: total->0 },
            )
        }),
        download_next(DownloadStep::LookForTarget, DownloadResult::Found(true), minimum)
            == DownloadStep::DropTarget,
        download_next(DownloadStep::LookForTarget, DownloadResult::Found(false), minimum)
            == DownloadStep::Install,
        download_next(DownloadStep::DropTarget, DownloadResult::Done, minimum)
            == DownloadStep::Install,
        download_next(DownloadStep::Install, DownloadResult::Done, minimum)
            == DownloadStep::Finished,
{
}

/// A step of a download that fails is told as the failure that it is, and what
/// was downloaded is dropped first where a request was made.
pub proof fn law_failed_download_is_told(
    downloaded: u64,
    count: u64,
    total: Option<u64>,
    minimum: u64,
)
    ensures
        ({
            let failed = |step: DownloadStep|
                download_next(step, DownloadResult::Failed, minimum);
            let dropping = |failure: DownloadFailure| DownloadStep::DropPart(failure);
            &&& failed(DownloadStep::DropStalePart) == DownloadStep::Failed(
                DownloadFailure::StalePart,
            )
            &&& failed(DownloadStep::Request) == dropping(DownloadFailure::Request)
            &&& failed(DownloadStep::Status) == dropping(DownloadFailure::Status)
            &&& failed(DownloadStep::Create { total }) == dropping(DownloadFailure::Create)
            &&& failed(DownloadStep::Read { downloaded, total }) == dropping(DownloadFailure::Read)
            &&& failed(DownloadStep::Write { downloaded, total, count }) == dropping(
                DownloadFailure::Write,
            )
            &&& failed(DownloadStep::Flush { downloaded, total }) == dropping(
                DownloadFailure::Flush,
            )
            &&& failed(DownloadStep::DropTarget) == dropping(DownloadFailure::Replace)
            &&& failed(DownloadStep::Install) == dropping(DownloadFailure::Install)
        }),
        forall|failure: DownloadFailure, result: DownloadResult| #[trigger]
            download_next(DownloadStep::DropPart(failure), result, minimum) == DownloadStep::Failed(
                failure,
            ),
{
}

/// A model is ready when its file and its labels are good: those that are there
/// are used as they are, those that are not are fetched, and labels that were
/// fetched are looked at before they are used.
pub proof fn law_model_is_made_ready(model: bool, labels: bool)
    ensures
        ({
            let made = ensure_next(EnsureStep::MakeCache, true);
            let looked = ensure_next(made, model);
            let then = if model {
                looked
            } else {
                ensure_next(looked, true)
            };
            let last = ensure_next(then, labels);
            &&& made == EnsureStep::LookAtModel
            &&& !model ==> looked == EnsureStep::GetModel
            &&& then == EnsureStep::LookAtLabels
            &&& labels ==> last == EnsureStep::Ready
            &&& !labels ==> {
                let fetched = ensure_next(last, true);
                &&& last == EnsureStep::GetLabels
                &&& fetched == EnsureStep::ReadLabels
                &&& ensure_next(fetched, true) == EnsureStep::Ready
                &&& ensure_next(fetched, false) == EnsureStep::DropLabels
            }
        }),
        ensure_next(EnsureStep::MakeCache, false) == EnsureStep::Failed(EnsureFailure::Cache),
        ensure_next(EnsureStep::GetModel, false) == EnsureStep::Failed(EnsureFailure::Model),
        ensure_next(EnsureStep::GetLabels, false) == EnsureStep::Failed(EnsureFailure::Labels),
        forall|good: bool| #[trigger]
            ensure_next(EnsureStep::DropLabels, good) == EnsureStep::Failed(
                EnsureFailure::InvalidLabels,
            ),
{
}

// ----- Tagging -------------------------------------------------------------

/// Images are tagged one after the other, each after it was asked whether to go
/// on, until all are done; a model that cannot be loaded and an image that cannot be
/// tagged end the work as failed, and a wish to stop ends it as cancelled.
pub proof fn law_tagging_comes_to_its_end(done: usize, total: nat)
    requires
        done < total <= usize::MAX,
    ensures
        tag_next(TagStep::Load, true, total) == (TagStep::Ask { done: 0 }),
        tag_next(TagStep::Load, true, 0) == TagStep::End(TagEnd::Done),
        tag_next(TagStep::Load, false, total) == TagStep::End(TagEnd::Failed),
        tag_next(TagStep::Ask { done }, true, total) == (TagStep::Predict { done }),
        tag_next(TagStep::Ask { done }, false, total) == TagStep::End(TagEnd::Cancelled),
        tag_next(TagStep::Predict { done }, true, total) == (TagStep::Report {
            done: (done + 1) as usize,
        }),
        tag_next(TagStep::Predict { done }, false, total) == TagStep::End(TagEnd::Failed),
        forall|good: bool| #[trigger]
            tag_next(TagStep::Report { done: (done + 1) as usize }, good, total) == if done + 1
                == total {
                TagStep::End(TagEnd::Done)
            } else {
                TagStep::Ask { done: (done + 1) as usize }
            },
{
}

/// A model can be used if and only if it takes square images of a fixed size in
/// three colours, as floating point numbers.
pub proof fn law_models_that_can_be_used(is_float: bool, shape: Seq<i64>)
    ensures
        input_side(is_float, shape) is Ok <==> {
            &&& is_float
            &&& shape.len() == 4
            &&& 0 <= shape[1] <= usize::MAX
            &&& shape[1] == shape[2]
            &&& shape[3] == 3
        },
        input_side(is_float, shape) matches Ok(side) ==> side == shape[1],
        input_side(is_float, shape) == Err::<int, InputError>(InputError::Tensor) <==> !is_float
            || shape.len() != 4,
{
}

} // verus!
