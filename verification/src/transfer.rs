//! Putting files into place: the steps of replacing the contents of a file and
//! of copying a file to another volume, so that at no step anything is lost.

use vstd::prelude::*;

use crate::paths::{file_name, has_parent, join_path, joined_path, name_of, parent, parent_of};
use crate::text::{decimal, decimal_text};

verus! {

// ----- Names of scratch files ----------------------------------------------

/// What a scratch file is for.
#[derive(Clone, Copy, Debug, PartialEq, Eq, Structural)]
pub enum Scratch {
    /// New contents before they are put into place.
    New,
    /// Old contents while new ones are put into place.
    Old,
}

/// What the scratch files belong to.
#[derive(Clone, Copy, Debug, PartialEq, Eq, Structural)]
pub enum Purpose {
    /// A caption file.
    Caption,
    /// A metadata document.
    Metadata,
}

/// The directory of a scratch file: that of the path, or the current one.
pub open spec fn scratch_directory(path: Seq<char>) -> Seq<char> {
    if !has_parent(path) || parent_of(path).len() == 0 {
        "."@
    } else {
        parent_of(path)
    }
}

/// The name of a scratch file, which the file name, the purpose and a number
/// that is used once make up.
pub open spec fn scratch_name(
    path: Seq<char>,
    purpose: Purpose,
    number: Seq<char>,
    scratch: Scratch,
) -> Seq<char> {
    let name = match name_of(path) {
        Some(name) => name,
        None => match purpose {
            Purpose::Caption => "tags.txt"@,
            Purpose::Metadata => "metadata.json"@,
        },
    };
    let mark = match purpose {
        Purpose::Caption => ".tagger-neo-"@,
        Purpose::Metadata => "."@,
    };
    let ending = match scratch {
        Scratch::New => ".tmp"@,
        Scratch::Old => ".bak"@,
    };
    "."@ + name + mark + number + ending
}

/// The path of a scratch file, which lies beside the file itself.
pub fn scratch_path(path: &str, purpose: Purpose, number: &str, scratch: Scratch) -> (result: String)
    ensures
        result@ == joined_path(
            scratch_directory(path@),
            scratch_name(path@, purpose, number@, scratch),
        ),
{
    let directory = match parent(path) {
        Some(parent) => {
            if parent.as_str().is_empty() {
                ".".to_owned()
            } else {
                parent
            }
        },
        None => ".".to_owned(),
    };
    let name = match file_name(path) {
        Some(name) => name,
        None => match purpose {
            Purpose::Caption => "tags.txt".to_owned(),
            Purpose::Metadata => "metadata.json".to_owned(),
        },
    };
    let mut text = ".".to_owned();
    text.append(name.as_str());
    text.append(
        match purpose {
            Purpose::Caption => ".tagger-neo-",
            Purpose::Metadata => ".",
        },
    );
    text.append(number);
    text.append(
        match scratch {
            Scratch::New => ".tmp",
            Scratch::Old => ".bak",
        },
    );
    join_path(directory.as_str(), text.as_str())
}

/// The name of the scratch file of a copy.
pub open spec fn copy_name(name: Seq<char>, process: nat, sequence: nat) -> Seq<char> {
    "."@ + name + ".tagger-neo-copy-"@ + decimal(process) + "-"@ + decimal(sequence) + ".tmp"@
}

/// The path of the scratch file of a copy, which lies beside its target. There
/// is none where the target has no file name.
pub fn temporary_copy_path(target: &str, process: u32, sequence: u64) -> (result: Option<String>)
    ensures
        match result {
            Some(path) => name_of(target@) matches Some(name) && path@ == joined_path(
                parent_of(target@),
                copy_name(name, process as nat, sequence as nat),
            ),
            None => name_of(target@) is None,
        },
{
    match (file_name(target), parent(target)) {
        (Some(name), Some(directory)) => {
            let mut text = ".".to_owned();
            text.append(name.as_str());
            text.append(".tagger-neo-copy-");
            text.append(decimal_text(process as u128).as_str());
            text.append("-");
            text.append(decimal_text(sequence as u128).as_str());
            text.append(".tmp");
            Some(join_path(directory.as_str(), text.as_str()))
        },
        _ => None,
    }
}

/// The scratch files of a file are different files.
pub proof fn law_scratch_files_differ(
    path: Seq<char>,
    purpose: Purpose,
    number: Seq<char>,
)
    ensures
        joined_path(scratch_directory(path), scratch_name(path, purpose, number, Scratch::New))
            != joined_path(
            scratch_directory(path),
            scratch_name(path, purpose, number, Scratch::Old),
        ),
{
    reveal_strlit(".tmp");
    reveal_strlit(".bak");
    reveal_strlit(".");
    let a = scratch_name(path, purpose, number, Scratch::New);
    let b = scratch_name(path, purpose, number, Scratch::Old);
    assert(a.last() == 'p');
    assert(b.last() == 'k');
    assert(a[0] == '.' && b[0] == '.');
    assert(joined_path(scratch_directory(path), a).last() == 'p');
    assert(joined_path(scratch_directory(path), b).last() == 'k');
}

// ----- Replacing a file ----------------------------------------------------

/// Why a file was not replaced.
#[derive(Clone, Copy, Debug, PartialEq, Eq, Structural)]
pub enum ReplaceFailure {
    /// The new contents could not be written.
    Write,
    /// The old file could not be moved aside.
    Stage,
    /// The new file could not be moved into place.
    Install,
    /// The new file could not be moved into place, nor the old one back. The
    /// old contents remain in the scratch file.
    Restore,
}

/// What is to be done next to replace a file.
#[derive(Clone, Copy, Debug, PartialEq, Eq, Structural)]
pub enum ReplaceStep {
    /// Write the new contents to a scratch file.
    WriteNew,
    /// Look whether there is a file to be replaced.
    Look,
    /// Move the old file aside.
    Stage,
    /// Move the new file into place.
    Install { staged: bool },
    /// Remove the old file. It does not matter if that fails.
    DropOld,
    /// Move the old file back.
    Restore,
    /// Remove the new file. It does not matter if that fails.
    DropNew(ReplaceFailure),
    /// The file was replaced.
    Finished,
    /// The file was not replaced.
    Failed(ReplaceFailure),
}

/// How a step went.
#[derive(Clone, Copy, Debug, PartialEq, Eq, Structural)]
pub enum StepResult {
    /// It was done.
    Done,
    /// It failed, and nothing changed.
    Failed,
    /// What was looked for is there, or not.
    Found(bool),
}

/// What is to be done after a step of replacing a file.
pub open spec fn replace_next(step: ReplaceStep, result: StepResult) -> ReplaceStep {
    let done = result == StepResult::Done;
    match step {
        ReplaceStep::WriteNew => if done {
            ReplaceStep::Look
        } else {
            ReplaceStep::DropNew(ReplaceFailure::Write)
        },
        ReplaceStep::Look => if result == StepResult::Found(true) {
            ReplaceStep::Stage
        } else {
            ReplaceStep::Install { staged: false }
        },
        ReplaceStep::Stage => if done {
            ReplaceStep::Install { staged: true }
        } else {
            ReplaceStep::DropNew(ReplaceFailure::Stage)
        },
        ReplaceStep::Install { staged } => if done {
            if staged {
                ReplaceStep::DropOld
            } else {
                ReplaceStep::Finished
            }
        } else if staged {
            ReplaceStep::Restore
        } else {
            ReplaceStep::DropNew(ReplaceFailure::Install)
        },
        ReplaceStep::DropOld => ReplaceStep::Finished,
        ReplaceStep::Restore => if done {
            ReplaceStep::DropNew(ReplaceFailure::Install)
        } else {
            ReplaceStep::DropNew(ReplaceFailure::Restore)
        },
        ReplaceStep::DropNew(failure) => ReplaceStep::Failed(failure),
        ReplaceStep::Finished => ReplaceStep::Finished,
        ReplaceStep::Failed(failure) => ReplaceStep::Failed(failure),
    }
}

impl ReplaceStep {
    /// What is to be done after this step.
    pub fn next(self, result: StepResult) -> (step: ReplaceStep)
        ensures
            step == replace_next(self, result),
    {
        let done = result == StepResult::Done;
        match self {
            ReplaceStep::WriteNew => {
                if done {
                    ReplaceStep::Look
                } else {
                    ReplaceStep::DropNew(ReplaceFailure::Write)
                }
            },
            ReplaceStep::Look => {
                if result == StepResult::Found(true) {
                    ReplaceStep::Stage
                } else {
                    ReplaceStep::Install { staged: false }
                }
            },
            ReplaceStep::Stage => {
                if done {
                    ReplaceStep::Install { staged: true }
                } else {
                    ReplaceStep::DropNew(ReplaceFailure::Stage)
                }
            },
            ReplaceStep::Install { staged } => {
                if done {
                    if staged {
                        ReplaceStep::DropOld
                    } else {
                        ReplaceStep::Finished
                    }
                } else if staged {
                    ReplaceStep::Restore
                } else {
                    ReplaceStep::DropNew(ReplaceFailure::Install)
                }
            },
            ReplaceStep::DropOld => ReplaceStep::Finished,
            ReplaceStep::Restore => {
                if done {
                    ReplaceStep::DropNew(ReplaceFailure::Install)
                } else {
                    ReplaceStep::DropNew(ReplaceFailure::Restore)
                }
            },
            ReplaceStep::DropNew(failure) => ReplaceStep::Failed(failure),
            ReplaceStep::Finished => ReplaceStep::Finished,
            ReplaceStep::Failed(failure) => ReplaceStep::Failed(failure),
        }
    }
}

/// What a file holds: the old contents or the new ones.
#[derive(Clone, Copy, Debug, PartialEq, Eq, Structural)]
pub enum Contents {
    Old,
    New,
}

/// What is at the path of a file that is being replaced, and in its scratch
/// files.
#[verifier::ext_equal]
pub struct ReplaceDisk {
    pub path: Option<Contents>,
    pub new: Option<Contents>,
    pub old: Option<Contents>,
}

/// What a step does to the disk. One that fails changes nothing but, where the
/// new contents were to be written, the scratch file for them.
pub open spec fn replace_effect(
    disk: ReplaceDisk,
    step: ReplaceStep,
    result: StepResult,
) -> ReplaceDisk {
    if result != StepResult::Done {
        disk
    } else {
        match step {
            ReplaceStep::WriteNew => ReplaceDisk { new: Some(Contents::New), ..disk },
            ReplaceStep::Stage => ReplaceDisk { path: None, old: disk.path, ..disk },
            ReplaceStep::Install { .. } => ReplaceDisk { path: disk.new, new: None, ..disk },
            ReplaceStep::DropOld => ReplaceDisk { old: None, ..disk },
            ReplaceStep::Restore => ReplaceDisk { path: disk.old, old: None, ..disk },
            ReplaceStep::DropNew(_) => ReplaceDisk { new: None, ..disk },
            _ => disk,
        }
    }
}

/// What is on the disk before a step, where `existing` says whether there was a
/// file to be replaced.
pub open spec fn replace_holds(disk: ReplaceDisk, step: ReplaceStep, existing: bool) -> bool {
    let untouched = disk.old is None && disk.path == if existing {
        Some(Contents::Old)
    } else {
        None
    };
    let aside = existing && disk.path is None && disk.old == Some(Contents::Old);
    match step {
        ReplaceStep::WriteNew => untouched,
        ReplaceStep::Look => untouched && disk.new == Some(Contents::New),
        ReplaceStep::Stage => existing && untouched && disk.new == Some(Contents::New),
        ReplaceStep::Install { staged } => disk.new == Some(Contents::New) && (if staged {
            aside
        } else {
            !existing && untouched
        }),
        ReplaceStep::DropOld => disk.path == Some(Contents::New),
        ReplaceStep::Restore => aside,
        ReplaceStep::DropNew(ReplaceFailure::Restore) => aside,
        ReplaceStep::DropNew(_) => untouched,
        ReplaceStep::Finished => disk.path == Some(Contents::New),
        ReplaceStep::Failed(ReplaceFailure::Restore) => aside,
        ReplaceStep::Failed(_) => untouched,
    }
}

/// Whatever fails, what [`replace_holds`] says is kept: a replacement ends with
/// the new contents in place, or with the old state untouched, or, where the
/// old file could not be moved back, with the old contents in the scratch file.
/// At no step the old contents are lost before the new ones are in place.
pub proof fn law_replace_loses_nothing(
    disk: ReplaceDisk,
    step: ReplaceStep,
    result: StepResult,
    existing: bool,
)
    requires
        replace_holds(disk, step, existing),
        step is Look ==> result == StepResult::Found(existing),
        !(step is Look) ==> result == StepResult::Done || result == StepResult::Failed,
    ensures
        replace_holds(
            replace_effect(disk, step, result),
            replace_next(step, result),
            existing,
        ),
        existing ==> disk.path == Some(Contents::New) || disk.path == Some(Contents::Old)
            || disk.old == Some(Contents::Old),
{
}

// ----- Copying to another volume -------------------------------------------

/// Whether an error of the operating system says that a file cannot be renamed
/// across volumes.
pub open spec fn crosses_devices(code: Option<i32>) -> bool {
    code == Some(17i32) || code == Some(18i32)
}

/// Whether an error of the operating system says that a file cannot be renamed
/// across volumes, on Unix or on Windows.
pub fn is_cross_device(code: Option<i32>) -> (yes: bool)
    ensures
        yes == crosses_devices(code),
{
    match code {
        Some(code) => code == 17 || code == 18,
        None => false,
    }
}

/// Why a file was not copied and removed.
#[derive(Clone, Copy, Debug, PartialEq, Eq, Structural)]
pub enum CopyFailure {
    /// The source could not be inspected.
    Inspect,
    /// The source is no regular file.
    NotRegular,
    /// The source could not be opened.
    Open,
    /// The target has no file name.
    NoName,
    /// The scratch file could not be made.
    Create,
    /// The copy failed.
    Copy,
    /// The copy has another length than the source.
    Length { expected: u64, copied: u64 },
    /// The permissions could not be set.
    Permissions,
    /// The copy could not be moved into place.
    Install,
    /// The source could not be removed.
    RemoveSource,
}

/// What is to be done next to copy a file and remove it.
#[derive(Clone, Copy, Debug, PartialEq, Eq, Structural)]
pub enum CopyStep {
    /// Inspect the source.
    Inspect,
    /// Open the source.
    Open { length: u64 },
    /// Name the scratch file beside the target.
    Name { length: u64 },
    /// Make the scratch file, which must not exist.
    Create { length: u64 },
    /// Copy the source to it.
    Copy { length: u64 },
    /// Give it the permissions of the source.
    Permissions,
    /// Move it to the target.
    Install,
    /// Remove the source.
    RemoveSource,
    /// Remove the scratch file. It does not matter if that fails.
    DropCopy(CopyFailure),
    /// Remove the target. It does not matter if that fails.
    DropTarget,
    /// The file is at the target.
    Finished,
    /// The file is at the source.
    Failed(CopyFailure),
}

/// How a step of a copy went.
#[derive(Clone, Copy, Debug, PartialEq, Eq, Structural)]
pub enum CopyResult {
    /// It was done.
    Done,
    /// It failed, and nothing changed.
    Failed,
    /// The source was inspected.
    Inspected { regular: bool, length: u64 },
    /// So many bytes were copied.
    Copied(u64),
}

/// What is to be done after a step of a copy.
pub open spec fn copy_next(step: CopyStep, result: CopyResult) -> CopyStep {
    let done = result == CopyResult::Done;
    match step {
        CopyStep::Inspect => match result {
            CopyResult::Inspected { regular, length } => if regular {
                CopyStep::Open { length }
            } else {
                CopyStep::Failed(CopyFailure::NotRegular)
            },
            _ => CopyStep::Failed(CopyFailure::Inspect),
        },
        CopyStep::Open { length } => if done {
            CopyStep::Name { length }
        } else {
            CopyStep::Failed(CopyFailure::Open)
        },
        CopyStep::Name { length } => if done {
            CopyStep::Create { length }
        } else {
            CopyStep::Failed(CopyFailure::NoName)
        },
        CopyStep::Create { length } => if done {
            CopyStep::Copy { length }
        } else {
            CopyStep::Failed(CopyFailure::Create)
        },
        CopyStep::Copy { length } => match result {
            CopyResult::Copied(copied) => if copied == length {
                CopyStep::Permissions
            } else {
                CopyStep::DropCopy(CopyFailure::Length { expected: length, copied })
            },
            _ => CopyStep::DropCopy(CopyFailure::Copy),
        },
        CopyStep::Permissions => if done {
            CopyStep::Install
        } else {
            CopyStep::DropCopy(CopyFailure::Permissions)
        },
        CopyStep::Install => if done {
            CopyStep::RemoveSource
        } else {
            CopyStep::DropCopy(CopyFailure::Install)
        },
        CopyStep::RemoveSource => if done {
            CopyStep::Finished
        } else {
            CopyStep::DropTarget
        },
        CopyStep::DropCopy(failure) => CopyStep::Failed(failure),
        CopyStep::DropTarget => CopyStep::Failed(CopyFailure::RemoveSource),
        CopyStep::Finished => CopyStep::Finished,
        CopyStep::Failed(failure) => CopyStep::Failed(failure),
    }
}

impl CopyStep {
    /// What is to be done after this step.
    pub fn next(self, result: CopyResult) -> (step: CopyStep)
        ensures
            step == copy_next(self, result),
    {
        let done = result == CopyResult::Done;
        match self {
            CopyStep::Inspect => match result {
                CopyResult::Inspected { regular, length } => {
                    if regular {
                        CopyStep::Open { length }
                    } else {
                        CopyStep::Failed(CopyFailure::NotRegular)
                    }
                },
                _ => CopyStep::Failed(CopyFailure::Inspect),
            },
            CopyStep::Open { length } => {
                if done {
                    CopyStep::Name { length }
                } else {
                    CopyStep::Failed(CopyFailure::Open)
                }
            },
            CopyStep::Name { length } => {
                if done {
                    CopyStep::Create { length }
                } else {
                    CopyStep::Failed(CopyFailure::NoName)
                }
            },
            CopyStep::Create { length } => {
                if done {
                    CopyStep::Copy { length }
                } else {
                    CopyStep::Failed(CopyFailure::Create)
                }
            },
            CopyStep::Copy { length } => match result {
                CopyResult::Copied(copied) => {
                    if copied == length {
                        CopyStep::Permissions
                    } else {
                        CopyStep::DropCopy(CopyFailure::Length { expected: length, copied })
                    }
                },
                _ => CopyStep::DropCopy(CopyFailure::Copy),
            },
            CopyStep::Permissions => {
                if done {
                    CopyStep::Install
                } else {
                    CopyStep::DropCopy(CopyFailure::Permissions)
                }
            },
            CopyStep::Install => {
                if done {
                    CopyStep::RemoveSource
                } else {
                    CopyStep::DropCopy(CopyFailure::Install)
                }
            },
            CopyStep::RemoveSource => {
                if done {
                    CopyStep::Finished
                } else {
                    CopyStep::DropTarget
                }
            },
            CopyStep::DropCopy(failure) => CopyStep::Failed(failure),
            CopyStep::DropTarget => CopyStep::Failed(CopyFailure::RemoveSource),
            CopyStep::Finished => CopyStep::Finished,
            CopyStep::Failed(failure) => CopyStep::Failed(failure),
        }
    }
}

/// What is on the disk during a copy: the source, and how many of its bytes are
/// in the scratch file and at the target.
#[verifier::ext_equal]
pub struct CopyDisk {
    pub source: bool,
    pub copy: Option<nat>,
    pub target: Option<nat>,
}

/// What a step of a copy does to the disk.
pub open spec fn copy_effect(disk: CopyDisk, step: CopyStep, result: CopyResult) -> CopyDisk {
    match (step, result) {
        (CopyStep::Create { .. }, CopyResult::Done) => CopyDisk { copy: Some(0), ..disk },
        (CopyStep::Copy { .. }, CopyResult::Copied(count)) => CopyDisk {
            copy: Some(count as nat),
            ..disk
        },
        (CopyStep::Install, CopyResult::Done) => CopyDisk {
            target: disk.copy,
            copy: None,
            ..disk
        },
        (CopyStep::RemoveSource, CopyResult::Done) => CopyDisk { source: false, ..disk },
        (CopyStep::DropCopy(_), CopyResult::Done) => CopyDisk { copy: None, ..disk },
        (CopyStep::DropTarget, CopyResult::Done) => CopyDisk { target: None, ..disk },
        _ => disk,
    }
}

/// What is on the disk before a step of a copy of a source with `length` bytes.
pub open spec fn copy_holds(disk: CopyDisk, step: CopyStep, length: nat) -> bool {
    match step {
        CopyStep::Inspect => disk.source && disk.target is None,
        CopyStep::Open { length: noted } => disk.source && disk.target is None && noted == length,
        CopyStep::Name { length: noted } => disk.source && disk.target is None && noted == length,
        CopyStep::Create { length: noted } => disk.source && disk.target is None && noted == length,
        CopyStep::Copy { length: noted } => disk.source && disk.target is None && noted == length,
        CopyStep::Permissions => disk.source && disk.target is None && disk.copy == Some(length),
        CopyStep::Install => disk.source && disk.target is None && disk.copy == Some(length),
        CopyStep::RemoveSource => disk.source && disk.target == Some(length),
        CopyStep::DropCopy(_) => disk.source && disk.target is None,
        CopyStep::DropTarget => disk.source && disk.target == Some(length),
        CopyStep::Finished => !disk.source && disk.target == Some(length),
        CopyStep::Failed(CopyFailure::RemoveSource) => disk.source,
        CopyStep::Failed(_) => disk.source && disk.target is None,
    }
}

/// Whatever fails, what [`copy_holds`] says is kept: the source is removed only
/// when all of its bytes are at the target, and a copy that fails leaves the
/// source where it was.
pub proof fn law_copy_loses_nothing(
    disk: CopyDisk,
    step: CopyStep,
    result: CopyResult,
    length: nat,
)
    requires
        copy_holds(disk, step, length),
        result matches CopyResult::Inspected { regular: _, length: found } ==> found == length,
    ensures
        copy_holds(copy_effect(disk, step, result), copy_next(step, result), length),
        disk.source || disk.target == Some(length),
{
}

} // verus!
