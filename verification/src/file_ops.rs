//! Operations on file groups: which files belong to an item, and the plans to
//! move and delete them.
//!
//! A dataset item is made up of an image, its caption file, and optional
//! caption backups. A backup has the stem of the caption file and a three digit
//! extension from `.000` through `.999` (for example, `image.007`).

use vstd::prelude::*;

use crate::paths::{
    canonical, canonical_path, extended, file_name, join_path, joined_path, name_of, with_extension,
};
use crate::tag_set::TagSet;
use crate::text::{digit, digit_char, extend_strings, group_texts, texts};

verus! {

// ----- Backups -------------------------------------------------------------

/// How many backups of a caption file there can be.
pub const CAPTION_BACKUP_COUNT: u64 = 1000;

/// The extension of a backup: its number with three digits.
pub open spec fn backup_suffix(number: nat) -> Seq<char> {
    seq![digit(number / 100), digit(number / 10 % 10), digit(number % 10)]
}

/// The path of a backup of a caption file.
pub open spec fn backup_path(tag_path: Seq<char>, number: nat) -> Seq<char> {
    extended(tag_path, backup_suffix(number))
}

/// The path of the backup of a caption file with the given number, where there
/// can be one. A save takes the first that is free, going up from zero.
pub fn caption_backup(tag_path: &str, number: u64) -> (path: Option<String>)
    ensures
        path is Some <==> number < CAPTION_BACKUP_COUNT,
        path matches Some(path) ==> path@ == backup_path(tag_path@, number as nat),
{
    if number >= CAPTION_BACKUP_COUNT {
        return None;
    }
    let mut suffix = String::new();
    suffix.push(digit_char((number / 100) as u8));
    suffix.push(digit_char((number / 10 % 10) as u8));
    suffix.push(digit_char((number % 10) as u8));
    assert(suffix@ =~= backup_suffix(number as nat));
    Some(with_extension(tag_path, suffix.as_str()))
}

/// Whether the number of a backup is known to be taken.
pub open spec fn is_taken(taken: Seq<bool>, number: int) -> bool {
    number < taken.len() && taken[number]
}

/// The path of the backup that a save makes: the first that is not taken.
pub fn free_caption_backup(tag_path: &str, taken: &[bool]) -> (path: Option<String>)
    ensures
        match path {
            Some(path) => exists|number: nat|
                {
                    &&& number < CAPTION_BACKUP_COUNT
                    &&& !is_taken(taken@, number as int)
                    &&& path@ == #[trigger] backup_path(tag_path@, number)
                    &&& forall|k: int| 0 <= k < number ==> #[trigger] is_taken(taken@, k)
                },
            None => forall|k: int|
                0 <= k < CAPTION_BACKUP_COUNT ==> #[trigger] is_taken(taken@, k),
        },
{
    for number in 0..CAPTION_BACKUP_COUNT
        invariant
            forall|k: int| 0 <= k < number ==> #[trigger] is_taken(taken@, k),
    {
        if number >= taken.len() as u64 || !taken[number as usize] {
            assert(!is_taken(taken@, number as int));
            let path = caption_backup(tag_path, number);
            assert(path is Some);
            return path;
        }
        assert(is_taken(taken@, number as int));
    }
    None
}

/// The backups of a caption file that are regular files, among the first
/// `count`, in numeric order. Where nothing is said of a number, there is none.
pub open spec fn found_backups(tag_path: Seq<char>, regular: Seq<bool>, count: nat) -> Seq<
    Seq<char>,
>
    decreases count,
{
    if count == 0 {
        Seq::<Seq<char>>::empty()
    } else {
        let number = (count - 1) as nat;
        let rest = found_backups(tag_path, regular, number);
        if number < regular.len() && regular[number as int] {
            rest.push(backup_path(tag_path, number))
        } else {
            rest
        }
    }
}

/// Why a file operation was refused.
#[derive(Debug)]
pub enum FileError {
    /// A caption path has no file name, so there are no backups of it.
    NoCaptionName(String),
    /// A source path has no file name.
    NoFileName(String),
    /// Two files have the same destination.
    SameDestination(String),
    /// There is something at a destination.
    DestinationExists(String),
    /// What files are to be moved into is no directory.
    NotDirectory(String),
}

/// How the message of an error begins.
pub open spec fn file_error_text(error: FileError) -> Seq<char> {
    match error {
        FileError::NoCaptionName(path) => "caption path has no file name: "@ + path@,
        FileError::NoFileName(path) => "source path has no file name: "@ + path@,
        FileError::SameDestination(path) => "multiple selected files have the same destination: "@
            + path@,
        FileError::DestinationExists(path) => "destination file already exists: "@ + path@,
        FileError::NotDirectory(path) => "destination is not a directory: "@ + path@,
    }
}

impl FileError {
    /// What the error says.
    pub fn message(&self) -> (text: String)
        ensures
            text@ == file_error_text(*self),
    {
        let (mut text, path) = match self {
            FileError::NoCaptionName(path) => ("caption path has no file name: ".to_owned(), path),
            FileError::NoFileName(path) => ("source path has no file name: ".to_owned(), path),
            FileError::SameDestination(path) => (
                "multiple selected files have the same destination: ".to_owned(),
                path,
            ),
            FileError::DestinationExists(path) => (
                "destination file already exists: ".to_owned(),
                path,
            ),
            FileError::NotDirectory(path) => ("destination is not a directory: ".to_owned(), path),
        };
        text.append(path.as_str());
        text
    }
}

/// The existing backups of a caption file in numeric order: those whose number
/// is marked in `regular` as a regular file.
pub fn existing_caption_backups(tag_path: &str, regular: &[bool]) -> (result: Result<
    Vec<String>,
    FileError,
>)
    ensures
        match result {
            Ok(backups) => name_of(tag_path@) is Some && texts(backups@) == found_backups(
                tag_path@,
                regular@,
                CAPTION_BACKUP_COUNT as nat,
            ),
            Err(error) => name_of(tag_path@) is None && (error matches FileError::NoCaptionName(path)
                && path@ == tag_path@),
        },
{
    broadcast use group_texts;

    if file_name(tag_path).is_none() {
        return Err(FileError::NoCaptionName(tag_path.to_owned()));
    }
    let mut backups: Vec<String> = Vec::new();
    let mut number: u64 = 0;
    while number < CAPTION_BACKUP_COUNT
        invariant
            number <= CAPTION_BACKUP_COUNT,
            texts(backups@) == found_backups(tag_path@, regular@, number as nat),
        decreases CAPTION_BACKUP_COUNT - number,
    {
        let ghost before = backups@;
        if (number as usize) < regular.len() && regular[number as usize] {
            match caption_backup(tag_path, number) {
                Some(path) => {
                    backups.push(path);
                    assert(texts(backups@) == texts(before).push(
                        backup_path(tag_path@, number as nat),
                    ));
                },
                None => {},
            }
        }
        number = number + 1;
    }
    Ok(backups)
}

// ----- Files of a group ----------------------------------------------------

/// The image and the caption file of an item.
#[derive(Debug)]
pub struct FileGroup {
    pub image_path: String,
    pub tag_path: String,
}

/// Which files of a group an operation is for.
#[derive(Clone, Copy, Debug, PartialEq, Eq, Structural)]
pub struct FileChoice {
    pub image: bool,
    pub caption: bool,
    pub backups: bool,
}

/// Which files of a group are regular files.
#[derive(Debug)]
pub struct GroupProbe {
    pub image: bool,
    pub caption: bool,
    /// The backups by number.
    pub backups: Vec<bool>,
}

/// The chosen files of a group that are regular files: the image, the caption
/// file, the backups in numeric order.
pub open spec fn chosen_files(group: FileGroup, probe: GroupProbe, choice: FileChoice) -> Seq<
    Seq<char>,
> {
    let image = if choice.image && probe.image {
        seq![group.image_path@]
    } else {
        Seq::<Seq<char>>::empty()
    };
    let caption = if choice.caption && probe.caption {
        seq![group.tag_path@]
    } else {
        Seq::<Seq<char>>::empty()
    };
    let backups = if choice.backups {
        found_backups(group.tag_path@, probe.backups@, CAPTION_BACKUP_COUNT as nat)
    } else {
        Seq::<Seq<char>>::empty()
    };
    image + caption + backups
}

/// The chosen files of several groups.
pub open spec fn all_chosen(
    groups: Seq<FileGroup>,
    probes: Seq<GroupProbe>,
    choice: FileChoice,
) -> Seq<Seq<char>>
    decreases groups.len(),
{
    if groups.len() == 0 {
        Seq::<Seq<char>>::empty()
    } else {
        all_chosen(groups.drop_last(), probes, choice) + chosen_files(
            groups.last(),
            probes[groups.len() - 1],
            choice,
        )
    }
}

/// Whether a list holds a path with the given shortest spelling.
pub open spec fn has_key(paths: Seq<Seq<char>>, key: Seq<char>) -> bool {
    exists|i: int| 0 <= i < paths.len() && canonical(#[trigger] paths[i]) == key
}

/// Whether a list holds a path, in whatever spelling.
pub open spec fn has_path(paths: Seq<Seq<char>>, path: Seq<char>) -> bool {
    has_key(paths, canonical(path))
}

/// The paths without those that an earlier one is another spelling of.
pub open spec fn unique_paths(paths: Seq<Seq<char>>) -> Seq<Seq<char>>
    decreases paths.len(),
{
    if paths.len() == 0 {
        Seq::<Seq<char>>::empty()
    } else {
        let rest = unique_paths(paths.drop_last());
        if has_path(rest, paths.last()) {
            rest
        } else {
            rest.push(paths.last())
        }
    }
}

/// No file is named twice, whatever the spelling, every path that is left was
/// there, and none of the files is lost.
pub proof fn law_files_are_named_once(paths: Seq<Seq<char>>)
    ensures
        forall|i: int, j: int|
            0 <= i < j < unique_paths(paths).len() ==> canonical(#[trigger] unique_paths(paths)[i])
                != canonical(#[trigger] unique_paths(paths)[j]),
        forall|i: int|
            0 <= i < unique_paths(paths).len() ==> paths.contains(#[trigger] unique_paths(paths)[i]),
        forall|i: int|
            0 <= i < paths.len() ==> has_path(unique_paths(paths), #[trigger] paths[i]),
    decreases paths.len(),
{
    if paths.len() > 0 {
        let shorter = paths.drop_last();
        let rest = unique_paths(shorter);
        let all = unique_paths(paths);
        law_files_are_named_once(shorter);
        assert forall|i: int| 0 <= i < all.len() implies paths.contains(#[trigger] all[i]) by {
            if i < rest.len() {
                assert(shorter.contains(rest[i]));
                let k = choose|k: int| 0 <= k < shorter.len() && shorter[k] == rest[i];
                assert(paths[k] == all[i]);
            } else {
                assert(paths[paths.len() - 1] == all[i]);
            }
        }
        assert forall|i: int| 0 <= i < paths.len() implies has_path(all, #[trigger] paths[i]) by {
            if i < shorter.len() {
                assert(shorter[i] == paths[i]);
                assert(has_path(rest, shorter[i]));
                let k = choose|k: int|
                    0 <= k < rest.len() && canonical(#[trigger] rest[k]) == canonical(paths[i]);
                assert(canonical(all[k]) == canonical(paths[i]));
            } else if !has_path(rest, paths.last()) {
                assert(canonical(all[all.len() - 1]) == canonical(paths[i]));
            }
        }
    }
}

/// The chosen files of a group that are regular files, before repetitions are
/// left out.
fn files_of_group(group: &FileGroup, probe: &GroupProbe, choice: FileChoice) -> (result: Result<
    Vec<String>,
    FileError,
>)
    ensures
        match result {
            Ok(files) => (choice.backups ==> name_of(group.tag_path@) is Some) && texts(files@)
                == chosen_files(*group, *probe, choice),
            Err(error) => choice.backups && name_of(group.tag_path@) is None && (
            error matches FileError::NoCaptionName(path) && path@ == group.tag_path@),
        },
{
    broadcast use group_texts;

    let mut files: Vec<String> = Vec::new();
    if choice.image && probe.image {
        files.push(group.image_path.clone());
    }
    let ghost first = texts(files@);
    assert(first =~= if choice.image && probe.image {
        seq![group.image_path@]
    } else {
        Seq::<Seq<char>>::empty()
    });
    if choice.caption && probe.caption {
        files.push(group.tag_path.clone());
    }
    let ghost second = texts(files@);
    assert(second =~= first + if choice.caption && probe.caption {
        seq![group.tag_path@]
    } else {
        Seq::<Seq<char>>::empty()
    });
    if choice.backups {
        match existing_caption_backups(group.tag_path.as_str(), probe.backups.as_slice()) {
            Ok(backups) => {
                let ghost before = files@;
                extend_strings(&mut files, &backups);
                assert(texts(files@) == texts(before) + texts(backups@));
            },
            Err(error) => {
                return Err(error);
            },
        }
    }
    assert(texts(files@) =~= chosen_files(*group, *probe, choice));
    Ok(files)
}

proof fn lemma_unique_members(paths: Seq<Seq<char>>, key: Seq<char>)
    ensures
        has_key(unique_paths(paths), key) <==> has_key(paths, key),
    decreases paths.len(),
{
    if paths.len() > 0 {
        let shorter = paths.drop_last();
        let last = paths.last();
        let rest = unique_paths(shorter);
        lemma_unique_members(shorter, key);
        lemma_has_key_push(shorter, last, key);
        lemma_has_key_push(rest, last, key);
        assert(shorter.push(last) =~= paths);
    }
}

proof fn lemma_has_key_push(paths: Seq<Seq<char>>, last: Seq<char>, key: Seq<char>)
    ensures
        has_key(paths.push(last), key) <==> has_key(paths, key) || canonical(last) == key,
{
    let all = paths.push(last);
    if has_key(paths, key) {
        let i = choose|i: int| 0 <= i < paths.len() && canonical(#[trigger] paths[i]) == key;
        assert(canonical(all[i]) == key);
    }
    if canonical(last) == key {
        assert(canonical(all[paths.len() as int]) == key);
    }
    if has_key(all, key) {
        let i = choose|i: int| 0 <= i < all.len() && canonical(#[trigger] all[i]) == key;
        if i < paths.len() {
            assert(canonical(paths[i]) == key);
        }
    }
}

/// Appends the paths that are not in the list yet.
fn add_unique(
    files: &mut Vec<String>,
    seen: &mut TagSet,
    more: &Vec<String>,
    Ghost(before): Ghost<Seq<Seq<char>>>,
)
    requires
        texts(old(files)@) == unique_paths(before),
        forall|key: Seq<char>| #[trigger] old(seen)@.contains(key) <==> has_key(before, key),
    ensures
        texts(final(files)@) == unique_paths(before + texts(more@)),
        forall|key: Seq<char>| #[trigger]
            final(seen)@.contains(key) <==> has_key(before + texts(more@), key),
{
    broadcast use group_texts;

    let ghost mut done = before;
    assert(before + texts(more@).take(0) =~= before);
    for i in 0..more.len()
        invariant
            done == before + texts(more@).take(i as int),
            texts(files@) == unique_paths(done),
            forall|key: Seq<char>| #[trigger] seen@.contains(key) <==> has_key(done, key),
    {
        let ghost path = texts(more@)[i as int];
        let ghost held = files@;
        let ghost known = seen@;
        let ghost next = done.push(path);
        assert(path == more@[i as int]@);
        assert(next =~= before + texts(more@).take(i + 1));
        assert(next.drop_last() =~= done);
        let key = canonical_path(more[i].as_str());
        proof {
            lemma_unique_members(done, key@);
        }
        if seen.insert(key.as_str()) {
            files.push(more[i].clone());
            assert(texts(files@) == texts(held).push(path));
        }
        assert forall|k: Seq<char>| #[trigger] seen@.contains(k) <==> has_key(next, k) by {
            assert(seen@.contains(k) <==> known.contains(k) || k == key@);
            lemma_has_key_push(done, path, k);
        }
        proof {
            done = next;
        }
    }
    assert(texts(more@).take(more@.len() as int) =~= texts(more@));
}

/// The chosen files of several groups that are regular files, each path once.
pub fn selected_existing_files(
    groups: &[FileGroup],
    probes: &[GroupProbe],
    choice: FileChoice,
) -> (result: Result<Vec<String>, FileError>)
    requires
        groups@.len() == probes@.len(),
    ensures
        is_selection(result, groups@, probes@, choice),
{
    let mut files: Vec<String> = Vec::new();
    let mut seen = TagSet::new();
    assert(texts(files@) =~= unique_paths(Seq::<Seq<char>>::empty()));
    for i in 0..groups.len()
        invariant
            groups@.len() == probes@.len(),
            choice.backups ==> forall|k: int|
                0 <= k < i ==> name_of((#[trigger] groups@[k]).tag_path@) is Some,
            texts(files@) == unique_paths(all_chosen(groups@.take(i as int), probes@, choice)),
            forall|key: Seq<char>| #[trigger]
                seen@.contains(key) <==> has_key(
                    all_chosen(groups@.take(i as int), probes@, choice),
                    key,
                ),
    {
        assert(groups@.take(i + 1).drop_last() =~= groups@.take(i as int));
        assert(groups@.take(i + 1).last() == groups@[i as int]);
        match files_of_group(&groups[i], &probes[i], choice) {
            Ok(more) => {
                add_unique(
                    &mut files,
                    &mut seen,
                    &more,
                    Ghost(all_chosen(groups@.take(i as int), probes@, choice)),
                );
            },
            Err(error) => {
                return Err(error);
            },
        }
    }
    assert(groups@.take(groups@.len() as int) =~= groups@);
    Ok(files)
}

/// Whether the chosen files of several groups are the given ones. The choice is
/// refused at the first group whose backups are chosen and cannot be named.
pub open spec fn is_selection(
    result: Result<Vec<String>, FileError>,
    groups: Seq<FileGroup>,
    probes: Seq<GroupProbe>,
    choice: FileChoice,
) -> bool {
    match result {
        Ok(files) => {
            &&& choice.backups ==> forall|k: int|
                0 <= k < groups.len() ==> name_of((#[trigger] groups[k]).tag_path@) is Some
            &&& texts(files@) == unique_paths(all_chosen(groups, probes, choice))
        },
        Err(FileError::NoCaptionName(path)) => choice.backups && exists|i: int|
            {
                &&& 0 <= i < groups.len()
                &&& name_of((#[trigger] groups[i]).tag_path@) is None
                &&& path@ == groups[i].tag_path@
                &&& forall|k: int|
                    0 <= k < i ==> name_of((#[trigger] groups[k]).tag_path@) is Some
            },
        Err(_) => false,
    }
}

/// The files of several groups to be deleted.
pub fn delete_file_groups(
    groups: &[FileGroup],
    probes: &[GroupProbe],
    choice: FileChoice,
) -> (result: Result<Vec<String>, FileError>)
    requires
        groups@.len() == probes@.len(),
    ensures
        is_selection(result, groups@, probes@, choice),
{
    selected_existing_files(groups, probes, choice)
}

/// The files of one group to be deleted.
pub fn delete_file_group(group: FileGroup, probe: GroupProbe, choice: FileChoice) -> (result: Result<
    Vec<String>,
    FileError,
>)
    ensures
        is_selection(result, seq![group], seq![probe], choice),
{
    let mut groups: Vec<FileGroup> = Vec::new();
    groups.push(group);
    let mut probes: Vec<GroupProbe> = Vec::new();
    probes.push(probe);
    assert(groups@ =~= seq![group]);
    assert(probes@ =~= seq![probe]);
    delete_file_groups(groups.as_slice(), probes.as_slice(), choice)
}

// ----- Moving --------------------------------------------------------------

/// A file to be moved.
#[derive(Debug)]
pub struct Move {
    pub source: String,
    pub target: String,
}

/// Where a file is moved to.
pub open spec fn target_of(source: Seq<char>, destination: Seq<char>) -> Option<Seq<char>> {
    match name_of(source) {
        Some(name) => Some(joined_path(destination, name)),
        None => None,
    }
}

/// Where a file is moved to, if its path has a file name.
pub fn move_target(source: &str, destination: &str) -> (target: Option<String>)
    ensures
        match target {
            Some(target) => target_of(source@, destination@) == Some(target@),
            None => target_of(source@, destination@) is None,
        },
{
    match file_name(source) {
        Some(name) => Some(join_path(destination, name.as_str())),
        None => None,
    }
}

/// What is at the path that files are to be moved into.
#[derive(Clone, Copy, Debug, PartialEq, Eq, Structural)]
pub enum Destination {
    /// Nothing.
    Missing,
    /// A directory.
    Directory,
    /// Something else.
    Other,
}

/// What is to be done about the path that files are to be moved into, before
/// their moves are planned.
#[derive(Clone, Copy, Debug, PartialEq, Eq, Structural)]
pub enum DestinationStep {
    /// Nothing: there is no file to be moved.
    Leave,
    /// Make a directory there.
    Make,
    /// Use the directory that is there.
    Use,
    /// Refuse to move files.
    Refuse,
}

/// Whether files cannot be moved into what is at their destination.
pub open spec fn is_no_place(count: nat, at: Destination) -> bool {
    count > 0 && at == Destination::Other
}

/// What is to be done about the path that `count` files are to be moved into.
pub fn prepare_destination(count: usize, at: Destination) -> (step: DestinationStep)
    ensures
        step is Refuse <==> is_no_place(count as nat, at),
        step is Leave <==> count == 0,
        step is Make <==> count > 0 && at == Destination::Missing,
        step is Use <==> count > 0 && at == Destination::Directory,
{
    if count == 0 {
        return DestinationStep::Leave;
    }
    match at {
        Destination::Missing => DestinationStep::Make,
        Destination::Directory => DestinationStep::Use,
        Destination::Other => DestinationStep::Refuse,
    }
}

/// Whether the first `count` files can be moved: each has a name, no two have
/// the same destination, and nothing is at a destination.
pub open spec fn movable(
    sources: Seq<Seq<char>>,
    destination: Seq<char>,
    occupied: Seq<bool>,
    count: int,
) -> bool {
    &&& forall|i: int|
        0 <= i < count ==> target_of(#[trigger] sources[i], destination) is Some && !(i
            < occupied.len() && occupied[i])
    &&& forall|i: int, j: int|
        0 <= i < j < count ==> canonical(target_of(#[trigger] sources[i], destination)->0)
            != canonical(target_of(#[trigger] sources[j], destination)->0)
}

/// Whether a destination is that of one of the first `count` files.
pub open spec fn target_among(
    sources: Seq<Seq<char>>,
    destination: Seq<char>,
    count: int,
    target: Seq<char>,
) -> bool {
    exists|i: int|
        0 <= i < count && canonical(target_of(#[trigger] sources[i], destination)->0) == canonical(
            target,
        )
}

/// Whether a plan to move files is the given one. It is refused where there is
/// something else than a directory at the destination, or else at the first file
/// that cannot be moved.
pub open spec fn is_move_plan(
    result: Result<Vec<Move>, FileError>,
    sources: Seq<Seq<char>>,
    destination: Seq<char>,
    at: Destination,
    occupied: Seq<bool>,
) -> bool {
    &&& is_no_place(sources.len(), at) == (result matches Err(FileError::NotDirectory(_)))
    &&& match result {
        Ok(plan) => {
            &&& movable(sources, destination, occupied, sources.len() as int)
            &&& plan@.len() == sources.len()
            &&& forall|i: int|
                0 <= i < sources.len() ==> (#[trigger] plan@[i]).source@ == sources[i] && target_of(
                    sources[i],
                    destination,
                ) == Some(plan@[i].target@)
        },
        Err(FileError::NoFileName(path)) => exists|i: int|
            {
                &&& 0 <= i < sources.len()
                &&& movable(sources, destination, occupied, i)
                &&& target_of(#[trigger] sources[i], destination) is None
                &&& path@ == sources[i]
            },
        Err(FileError::SameDestination(path)) => exists|i: int|
            {
                &&& 0 <= i < sources.len()
                &&& movable(sources, destination, occupied, i)
                &&& target_of(#[trigger] sources[i], destination) == Some(path@)
                &&& target_among(sources, destination, i, path@)
            },
        Err(FileError::DestinationExists(path)) => exists|i: int|
            {
                &&& 0 <= i < sources.len()
                &&& movable(sources, destination, occupied, i)
                &&& target_of(#[trigger] sources[i], destination) == Some(path@)
                &&& !target_among(sources, destination, i, path@)
                &&& i < occupied.len() && occupied[i]
            },
        Err(FileError::NotDirectory(path)) => path@ == destination,
        Err(FileError::NoCaptionName(_)) => false,
    }
}

/// Plans to move files into a directory. `at` tells what is at its path, and
/// `occupied` marks the files at whose destination there is something already.
/// Nothing is to be moved unless everything can be.
pub fn plan_moves(
    sources: &Vec<String>,
    destination: &str,
    at: Destination,
    occupied: &[bool],
) -> (result: Result<Vec<Move>, FileError>)
    ensures
        is_move_plan(result, texts(sources@), destination@, at, occupied@),
{
    let ghost all = texts(sources@);
    if prepare_destination(sources.len(), at) == DestinationStep::Refuse {
        return Err(FileError::NotDirectory(destination.to_owned()));
    }
    let mut plan: Vec<Move> = Vec::new();
    let mut targets = TagSet::new();
    for i in 0..sources.len()
        invariant
            all == texts(sources@),
            !is_no_place(all.len(), at),
            movable(all, destination@, occupied@, i as int),
            plan@.len() == i,
            forall|k: int|
                0 <= k < i ==> (#[trigger] plan@[k]).source@ == all[k] && target_of(
                    all[k],
                    destination@,
                ) == Some(plan@[k].target@),
            forall|key: Seq<char>| #[trigger]
                targets@.contains(key) <==> exists|k: int|
                    0 <= k < i && canonical(target_of(#[trigger] all[k], destination@)->0) == key,
    {
        assert(all[i as int] == sources@[i as int]@);
        let target = match move_target(sources[i].as_str(), destination) {
            Some(target) => target,
            None => {
                return Err(FileError::NoFileName(sources[i].clone()));
            },
        };
        let ghost known = targets@;
        let key = canonical_path(target.as_str());
        assert(known.contains(key@) <==> target_among(all, destination@, i as int, target@));
        if !targets.insert(key.as_str()) {
            return Err(FileError::SameDestination(target));
        }
        if i < occupied.len() && occupied[i] {
            return Err(FileError::DestinationExists(target));
        }
        proof {
            assert forall|a: int, b: int| 0 <= a < b < i + 1 implies canonical(
                target_of(#[trigger] all[a], destination@)->0,
            ) != canonical(target_of(#[trigger] all[b], destination@)->0) by {
                if b == i && canonical(target_of(all[a], destination@)->0) == key@ {
                    assert(target_among(all, destination@, i as int, target@));
                }
            }
            assert forall|k: Seq<char>| #[trigger] targets@.contains(k) <==> exists|j: int|
                0 <= j < i + 1 && canonical(target_of(#[trigger] all[j], destination@)->0) == k by {
                assert(targets@.contains(k) <==> known.contains(k) || k == key@);
                if known.contains(k) {
                    let j = choose|j: int|
                        0 <= j < i && canonical(target_of(#[trigger] all[j], destination@)->0) == k;
                    assert(canonical(target_of(all[j], destination@)->0) == k);
                }
                if k == key@ {
                    assert(canonical(target_of(all[i as int], destination@)->0) == k);
                }
            }
        }
        plan.push(Move { source: sources[i].clone(), target });
    }
    Ok(plan)
}

/// Whether a plan to move the chosen files of several groups is the given one.
pub open spec fn is_group_plan(
    result: Result<Vec<Move>, FileError>,
    groups: Seq<FileGroup>,
    probes: Seq<GroupProbe>,
    choice: FileChoice,
    destination: Seq<char>,
    at: Destination,
    occupied: Seq<bool>,
) -> bool {
    match result {
        Err(FileError::NoCaptionName(path)) => is_selection(
            Err(FileError::NoCaptionName(path)),
            groups,
            probes,
            choice,
        ),
        _ => {
            &&& choice.backups ==> forall|k: int|
                0 <= k < groups.len() ==> name_of((#[trigger] groups[k]).tag_path@) is Some
            &&& is_move_plan(
                result,
                unique_paths(all_chosen(groups, probes, choice)),
                destination,
                at,
                occupied,
            )
        },
    }
}

/// A move of the chosen files of several groups is refused if and only if there
/// is a file to be moved and either something else than a directory is at the
/// destination, or one of the files has no name, or two have the same
/// destination, or something is at the destination of one. Otherwise every one
/// of the files is moved, each to the destination that its name gives.
pub proof fn law_when_moves_are_refused(
    result: Result<Vec<Move>, FileError>,
    groups: Seq<FileGroup>,
    probes: Seq<GroupProbe>,
    choice: FileChoice,
    destination: Seq<char>,
    at: Destination,
    occupied: Seq<bool>,
)
    requires
        is_group_plan(result, groups, probes, choice, destination, at, occupied),
        choice.backups ==> forall|k: int|
            0 <= k < groups.len() ==> name_of((#[trigger] groups[k]).tag_path@) is Some,
    ensures
        ({
            let sources = unique_paths(all_chosen(groups, probes, choice));
            &&& result is Err <==> sources.len() > 0 && (at == Destination::Other || !movable(
                sources,
                destination,
                occupied,
                sources.len() as int,
            ))
            &&& result matches Ok(plan) ==> plan@.len() == sources.len() && forall|i: int|
                0 <= i < sources.len() ==> (#[trigger] plan@[i]).source@ == sources[i] && target_of(
                    sources[i],
                    destination,
                ) == Some(plan@[i].target@)
        }),
{
    let sources = unique_paths(all_chosen(groups, probes, choice));
    match result {
        Ok(plan) => {},
        Err(FileError::SameDestination(path)) => {
            let i = choose|i: int|
                {
                    &&& 0 <= i < sources.len()
                    &&& movable(sources, destination, occupied, i)
                    &&& target_of(#[trigger] sources[i], destination) == Some(path@)
                    &&& target_among(sources, destination, i, path@)
                };
            let j = choose|j: int|
                0 <= j < i && canonical(target_of(#[trigger] sources[j], destination)->0)
                    == canonical(path@);
            assert(canonical(target_of(sources[j], destination)->0) == canonical(
                target_of(sources[i], destination)->0,
            ));
        },
        Err(error) => {},
    }
}

/// Plans to move the chosen files of several groups as one operation. `at` tells
/// what is at the destination's path.
pub fn move_file_groups(
    groups: &[FileGroup],
    probes: &[GroupProbe],
    choice: FileChoice,
    destination: &str,
    at: Destination,
    occupied: &[bool],
) -> (result: Result<Vec<Move>, FileError>)
    requires
        groups@.len() == probes@.len(),
    ensures
        is_group_plan(result, groups@, probes@, choice, destination@, at, occupied@),
{
    match selected_existing_files(groups, probes, choice) {
        Ok(sources) => plan_moves(&sources, destination, at, occupied),
        Err(error) => Err(error),
    }
}

/// Plans to move the chosen files of one group.
pub fn move_file_group(
    group: FileGroup,
    probe: GroupProbe,
    choice: FileChoice,
    destination: &str,
    at: Destination,
    occupied: &[bool],
) -> (result: Result<Vec<Move>, FileError>)
    ensures
        is_group_plan(result, seq![group], seq![probe], choice, destination@, at, occupied@),
{
    let mut groups: Vec<FileGroup> = Vec::new();
    groups.push(group);
    let mut probes: Vec<GroupProbe> = Vec::new();
    probes.push(probe);
    assert(groups@ =~= seq![group]);
    assert(probes@ =~= seq![probe]);
    move_file_groups(groups.as_slice(), probes.as_slice(), choice, destination, at, occupied)
}

// ----- Carrying out moves --------------------------------------------------

/// How far the moves of a plan have been carried out.
#[derive(Debug)]
pub enum MoveRun {
    /// The first `done` moves were made.
    Moving { done: usize },
    /// A move failed; the moves before it are being taken back, the last first.
    /// `left` of them remain, and those in `stuck` could not be taken back.
    TakingBack { left: usize, stuck: Vec<usize> },
}

/// What is to be done next.
#[derive(Clone, Copy, Debug, PartialEq, Eq, Structural)]
pub enum MoveAction {
    /// Move a file to its target.
    Move(usize),
    /// Move a file back to its source.
    MoveBack(usize),
    /// Everything was moved.
    Finished,
    /// A move failed. Everything was moved back.
    Restored,
    /// A move failed, and something could not be moved back.
    NotRestored,
}

impl MoveRun {
    /// Whether the file of a move is at its target.
    pub open spec fn at_target(&self, i: int) -> bool {
        match *self {
            MoveRun::Moving { done } => 0 <= i < done,
            MoveRun::TakingBack { left, stuck } => 0 <= i < left || listed_place(stuck@, i),
        }
    }

    /// Whether the run is one of a plan with `count` moves.
    pub open spec fn is_of(&self, count: nat) -> bool {
        match *self {
            MoveRun::Moving { done } => done <= count,
            MoveRun::TakingBack { left, stuck } => {
                &&& left < count
                &&& forall|k: int| 0 <= k < stuck@.len() ==> left <= #[trigger] stuck@[k] < count
            },
        }
    }

    /// What is to be done next.
    pub open spec fn action(&self, count: nat) -> MoveAction {
        match *self {
            MoveRun::Moving { done } => if done < count {
                MoveAction::Move(done)
            } else {
                MoveAction::Finished
            },
            MoveRun::TakingBack { left, stuck } => if left > 0 {
                MoveAction::MoveBack((left - 1) as usize)
            } else if stuck@.len() == 0 {
                MoveAction::Restored
            } else {
                MoveAction::NotRestored
            },
        }
    }

    /// The start: nothing was moved.
    pub fn new() -> (run: MoveRun)
        ensures
            run == (MoveRun::Moving { done: 0 }),
            forall|count: nat| #[trigger] run.is_of(count),
            forall|i: int| !#[trigger] run.at_target(i),
    {
        MoveRun::Moving { done: 0 }
    }

    /// What is to be done next in a plan with `count` moves.
    pub fn next(&self, count: usize) -> (action: MoveAction)
        ensures
            action == self.action(count as nat),
    {
        match self {
            MoveRun::Moving { done } => {
                if *done < count {
                    MoveAction::Move(*done)
                } else {
                    MoveAction::Finished
                }
            },
            MoveRun::TakingBack { left, stuck } => {
                if *left > 0 {
                    MoveAction::MoveBack(*left - 1)
                } else if stuck.len() == 0 {
                    MoveAction::Restored
                } else {
                    MoveAction::NotRestored
                }
            },
        }
    }

    /// Takes note of how the next action went. A move that failed leaves the
    /// file where it was; from then on the moves that were made are taken back,
    /// the last first.
    pub fn advance(&mut self, count: usize, succeeded: bool)
        requires
            old(self).is_of(count as nat),
            old(self).action(count as nat) is Move || old(self).action(count as nat) is MoveBack,
        ensures
            final(self).is_of(count as nat),
            goes_to(*old(self), succeeded, *final(self)),
            forall|i: int| #[trigger]
                final(self).at_target(i) == match old(self).action(count as nat) {
                    MoveAction::Move(k) => old(self).at_target(i) || (i == k && succeeded),
                    MoveAction::MoveBack(k) => old(self).at_target(i) && !(i == k && succeeded),
                    _ => old(self).at_target(i),
                },
            steps_left(*final(self), count as nat) < steps_left(*old(self), count as nat),
    {
        match self {
            MoveRun::Moving { done } => {
                let at: usize = *done;
                if succeeded {
                    *self = MoveRun::Moving { done: at + 1 };
                } else {
                    *self = MoveRun::TakingBack { left: at, stuck: Vec::new() };
                }
            },
            MoveRun::TakingBack { left, stuck } => {
                let at: usize = *left - 1;
                let mut kept: Vec<usize> = Vec::new();
                std::mem::swap(&mut kept, stuck);
                let ghost before = kept@;
                if !succeeded {
                    kept.push(at);
                }
                *self = MoveRun::TakingBack { left: at, stuck: kept };
                assert forall|i: int| #[trigger] self.at_target(i) == (old(self).at_target(i) && !(i
                    == at && succeeded)) by {
                    if listed_place(before, i) {
                        let k = choose|k: int| 0 <= k < before.len() && #[trigger] before[k] == i;
                        assert(kept@[k] == i);
                    }
                    if !succeeded && i == at {
                        assert(kept@[before.len() as int] == i);
                    }
                    if listed_place(kept@, i) {
                        let k = choose|k: int| 0 <= k < kept@.len() && #[trigger] kept@[k] == i;
                        if k < before.len() {
                            assert(before[k] == i);
                        }
                    }
                }
            },
        }
    }
}

/// Whether a place is listed.
pub open spec fn listed_place(list: Seq<usize>, i: int) -> bool {
    exists|k: int| 0 <= k < list.len() && #[trigger] list[k] == i
}

/// How many actions a run can still take at most.
pub open spec fn steps_left(run: MoveRun, count: nat) -> int {
    match run {
        MoveRun::Moving { done } => 2 * count - done + 1,
        MoveRun::TakingBack { left, stuck } => left as int,
    }
}

/// Whether a run goes from one state to another when its next action succeeds or
/// fails: a move that succeeds is followed by the next one; a move that fails, by
/// taking back every move before it; and what is taken back, by what was moved
/// before that, with a note where it failed.
pub open spec fn goes_to(before: MoveRun, succeeded: bool, after: MoveRun) -> bool {
    match (before, after) {
        (MoveRun::Moving { done }, MoveRun::Moving { done: now }) => succeeded && now == done + 1,
        (MoveRun::Moving { done }, MoveRun::TakingBack { left, stuck }) => !succeeded && left == done
            && stuck@.len() == 0,
        (
            MoveRun::TakingBack { left, stuck },
            MoveRun::TakingBack { left: now, stuck: more },
        ) => now == left - 1 && more@ == if succeeded {
            stuck@
        } else {
            stuck@.push(now)
        },
        _ => false,
    }
}

/// Whether the step `k` of a run is an action that goes as `outcomes` tells.
pub open spec fn is_run_step(states: Seq<MoveRun>, outcomes: Seq<bool>, count: nat, k: int) -> bool {
    &&& states[k].action(count) is Move || states[k].action(count) is MoveBack
    &&& goes_to(states[k], outcomes[k], states[k + 1])
}

/// Whether `states` are those of a run of a plan with `count` moves, whose actions
/// went as `outcomes` tells.
pub open spec fn is_run(states: Seq<MoveRun>, outcomes: Seq<bool>, count: nat) -> bool {
    &&& states.len() == outcomes.len() + 1
    &&& states[0] == (MoveRun::Moving { done: 0 })
    &&& forall|k: int| 0 <= k < outcomes.len() ==> #[trigger] is_run_step(states, outcomes, count, k)
}

/// A run that is finished has every file at its target, one that is restored has
/// none there, and one that could not be restored has one there.
pub proof fn law_moves_are_all_or_nothing(run: MoveRun, count: nat)
    requires
        run.is_of(count),
    ensures
        run.action(count) is Finished ==> forall|i: int| #[trigger]
            run.at_target(i) <==> 0 <= i < count,
        run.action(count) is Restored ==> forall|i: int| !#[trigger] run.at_target(i),
        run.action(count) is NotRestored ==> exists|i: int|
            0 <= i < count && #[trigger] run.at_target(i),
{
    match run {
        MoveRun::Moving { done } => {},
        MoveRun::TakingBack { left, stuck } => {
            if left == 0 && stuck@.len() > 0 {
                assert(listed_place(stuck@, stuck@[0] as int));
                assert(run.at_target(stuck@[0] as int));
            }
        },
    }
}

/// What a run without a failure has done.
proof fn lemma_moving(states: Seq<MoveRun>, outcomes: Seq<bool>, count: nat)
    requires
        is_run(states, outcomes, count),
        states.last() is Moving,
    ensures
        states.last() == (MoveRun::Moving { done: outcomes.len() as usize }),
        outcomes.len() <= count,
        outcomes.len() <= usize::MAX,
        forall|k: int| 0 <= k < outcomes.len() ==> #[trigger] outcomes[k],
        forall|k: int|
            0 <= k < outcomes.len() ==> (#[trigger] states[k]).action(count) == MoveAction::Move(
                k as usize,
            ),
    decreases outcomes.len(),
{
    if outcomes.len() > 0 {
        let last = outcomes.len() - 1;
        lemma_shorter_run(states, outcomes, count);
        assert(is_run_step(states, outcomes, count, last));
        lemma_moving(states.drop_last(), outcomes.drop_last(), count);
        assert forall|k: int| 0 <= k < outcomes.len() implies #[trigger] outcomes[k] by {
            if k < last {
                assert(outcomes.drop_last()[k]);
            }
        }
        assert forall|k: int| 0 <= k < outcomes.len() implies (#[trigger] states[k]).action(count)
            == MoveAction::Move(k as usize) by {
            if k < last {
                assert(states.drop_last()[k].action(count) == MoveAction::Move(k as usize));
            } else {
                assert(states.drop_last().last() == states[last]);
            }
        }
    }
}

proof fn lemma_shorter_run(states: Seq<MoveRun>, outcomes: Seq<bool>, count: nat)
    requires
        is_run(states, outcomes, count),
        outcomes.len() > 0,
    ensures
        is_run(states.drop_last(), outcomes.drop_last(), count),
        states.drop_last().last() == states[outcomes.len() - 1],
{
    let fewer = states.drop_last();
    let before = outcomes.drop_last();
    assert forall|k: int| 0 <= k < before.len() implies #[trigger] is_run_step(
        fewer,
        before,
        count,
        k,
    ) by {
        assert(is_run_step(states, outcomes, count, k));
    }
}

/// In a run that is finished every move was made, one after the other, and none
/// failed.
pub proof fn law_finished_moves_were_made(
    states: Seq<MoveRun>,
    outcomes: Seq<bool>,
    count: nat,
)
    requires
        is_run(states, outcomes, count),
        states.last().action(count) is Finished,
    ensures
        outcomes.len() == count,
        forall|k: int|
            0 <= k < count ==> (#[trigger] states[k]).action(count) == MoveAction::Move(k as usize)
                && outcomes[k],
{
    lemma_moving(states, outcomes, count);
}

/// How far a run has taken its moves back.
proof fn lemma_taking_back(states: Seq<MoveRun>, outcomes: Seq<bool>, count: nat) -> (failed: int)
    requires
        is_run(states, outcomes, count),
        states.last() is TakingBack,
    ensures
        0 <= failed < count,
        failed < outcomes.len() <= 2 * failed + 1,
        states.last()->left == 2 * failed + 1 - outcomes.len(),
        states[failed].action(count) == MoveAction::Move(failed as usize),
        !outcomes[failed],
        forall|k: int|
            0 <= k < failed ==> (#[trigger] states[k]).action(count) == MoveAction::Move(k as usize)
                && outcomes[k],
        forall|k: int|
            failed < k < outcomes.len() ==> (#[trigger] states[k]).action(count)
                == MoveAction::MoveBack((2 * failed - k) as usize),
        forall|i: int|
            #[trigger] listed_place(states.last()->stuck@, i) <==> states.last()->left <= i < failed
                && !outcomes[2 * failed - i],
    decreases outcomes.len(),
{
    let last = outcomes.len() - 1;
    if outcomes.len() == 0 {
        assert(states.last() == states[0]);
    }
    let fewer = states.drop_last();
    let before = outcomes.drop_last();
    lemma_shorter_run(states, outcomes, count);
    assert(is_run_step(states, outcomes, count, last));
    match states[last] {
        MoveRun::Moving { done } => {
            lemma_moving(fewer, before, count);
            assert forall|k: int| 0 <= k < last implies (#[trigger] states[k]).action(count)
                == MoveAction::Move(k as usize) && outcomes[k] by {
                assert(fewer[k].action(count) == MoveAction::Move(k as usize));
                assert(before[k]);
            }
            last
        },
        MoveRun::TakingBack { left, stuck } => {
            let failed = lemma_taking_back(fewer, before, count);
            let at = states.last()->left as int;
            let more = states.last()->stuck@;
            assert(fewer[failed] == states[failed]);
            assert forall|k: int| 0 <= k < failed implies (#[trigger] states[k]).action(count)
                == MoveAction::Move(k as usize) && outcomes[k] by {
                assert(fewer[k].action(count) == MoveAction::Move(k as usize));
            }
            assert forall|k: int| failed < k < outcomes.len() implies (#[trigger] states[k]).action(
                count,
            ) == MoveAction::MoveBack((2 * failed - k) as usize) by {
                if k < last {
                    assert(fewer[k].action(count) == MoveAction::MoveBack(
                        (2 * failed - k) as usize,
                    ));
                }
            }
            assert forall|i: int| #[trigger]
                listed_place(more, i) <==> at <= i < failed && !outcomes[2 * failed - i] by {
                assert(listed_place(stuck@, i) <==> left <= i < failed && !before[2 * failed - i]);
                if listed_place(stuck@, i) {
                    let k = choose|k: int| 0 <= k < stuck@.len() && #[trigger] stuck@[k] == i;
                    assert(more[k] == i);
                }
                if listed_place(more, i) {
                    let k = choose|k: int| 0 <= k < more.len() && #[trigger] more[k] == i;
                    if k < stuck@.len() {
                        assert(stuck@[k] == i);
                    }
                }
                if i == at && !outcomes[last] {
                    assert(more[stuck@.len() as int] == i);
                }
            }
            failed
        },
    }
}

/// Where a move failed, every file that was moved before it is tried to be moved
/// back, the last first, each once. The file with the number `i` is tried in the
/// step `2 * failed - i`, and is at its target as long as it was not tried or
/// could not be moved back. When all were tried, the run says that everything was
/// restored where each of them could be moved back, and that something was not
/// where one could not.
pub proof fn law_moves_are_taken_back(states: Seq<MoveRun>, outcomes: Seq<bool>, count: nat) -> (failed:
    int)
    requires
        is_run(states, outcomes, count),
        states.last() is TakingBack,
    ensures
        0 <= failed < count,
        failed < outcomes.len() <= 2 * failed + 1,
        states[failed].action(count) == MoveAction::Move(failed as usize),
        !outcomes[failed],
        forall|k: int|
            0 <= k < failed ==> (#[trigger] states[k]).action(count) == MoveAction::Move(k as usize)
                && outcomes[k],
        forall|k: int|
            failed < k < outcomes.len() ==> (#[trigger] states[k]).action(count)
                == MoveAction::MoveBack((2 * failed - k) as usize),
        forall|i: int|
            #![trigger states.last().at_target(i)]
            states.last().at_target(i) <==> 0 <= i < failed && (2 * failed - i >= outcomes.len()
                || !outcomes[2 * failed - i]),
        states.last().action(count) is Restored || states.last().action(count) is NotRestored
            ==> outcomes.len() == 2 * failed + 1,
        states.last().action(count) is Restored ==> forall|k: int|
            failed < k < outcomes.len() ==> #[trigger] outcomes[k],
        states.last().action(count) is NotRestored ==> exists|k: int|
            failed < k < outcomes.len() && !#[trigger] outcomes[k],
{
    let failed = lemma_taking_back(states, outcomes, count);
    let end = states.last();
    let left = end->left;
    let stuck = end->stuck@;
    assert forall|i: int|
        #![trigger end.at_target(i)]
        end.at_target(i) <==> 0 <= i < failed && (2 * failed - i >= outcomes.len() || !outcomes[2
            * failed - i]) by {
        assert(listed_place(stuck, i) <==> left <= i < failed && !outcomes[2 * failed - i]);
    }
    if end.action(count) is Restored {
        assert forall|k: int| failed < k < outcomes.len() implies #[trigger] outcomes[k] by {
            assert(!listed_place(stuck, 2 * failed - k));
        }
    }
    if end.action(count) is NotRestored {
        let i = stuck[0] as int;
        assert(listed_place(stuck, i));
        assert(!outcomes[2 * failed - i]);
    }
    failed
}

} // verus!
