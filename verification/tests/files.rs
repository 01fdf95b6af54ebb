//! Moving and deleting of files, and the steps in which files are replaced,
//! copied and moved.

use tagger_neo::file_ops::{
    caption_backup, delete_file_group, delete_file_groups, existing_caption_backups,
    free_caption_backup, move_file_group, move_file_groups, prepare_destination, Destination,
    DestinationStep, FileChoice, FileError, FileGroup, GroupProbe, MoveAction, MoveRun,
};
use tagger_neo::paths::file_name;
use tagger_neo::transfer::{
    is_cross_device, scratch_path, temporary_copy_path, CopyFailure, CopyResult, CopyStep, Purpose,
    ReplaceFailure, ReplaceStep, Scratch, StepResult,
};

fn group(image: &str, tag: &str) -> FileGroup {
    FileGroup {
        image_path: image.to_owned(),
        tag_path: tag.to_owned(),
    }
}

fn probe(image: bool, caption: bool, numbers: &[usize]) -> GroupProbe {
    let mut backups = vec![false; 1000];
    for number in numbers {
        backups[*number] = true;
    }
    GroupProbe { image, caption, backups }
}

fn choice(image: bool, caption: bool, backups: bool) -> FileChoice {
    FileChoice { image, caption, backups }
}

#[test]
fn enumerates_existing_backups_in_numeric_order() {
    let mut regular = vec![false; 1001];
    for number in [7, 0, 999, 1000] {
        regular[number] = true;
    }
    let backups = existing_caption_backups("dir/foo.bar.txt", &regular).unwrap();
    let names: Vec<String> = backups
        .iter()
        .map(|path| file_name(path).unwrap())
        .collect();
    assert_eq!(names, ["foo.bar.000", "foo.bar.007", "foo.bar.999"]);
}

#[test]
fn move_group_preserves_names_and_selected_members() {
    let moves = move_file_group(
        group("root/source/sample.png", "root/source/sample.txt"),
        probe(true, true, &[1]),
        choice(true, true, true),
        "root/destination",
        Destination::Directory,
        &[false, false, false],
    )
    .unwrap();
    assert_eq!(moves.len(), 3);
    let sources: Vec<&str> = moves.iter().map(|one| one.source.as_str()).collect();
    let targets: Vec<&str> = moves.iter().map(|one| one.target.as_str()).collect();
    assert_eq!(
        sources,
        vec![
            "root/source/sample.png",
            "root/source/sample.txt",
            "root/source/sample.001"
        ]
    );
    assert_eq!(
        targets,
        vec![
            "root/destination/sample.png",
            "root/destination/sample.txt",
            "root/destination/sample.001"
        ]
    );
}

#[test]
fn move_preflights_collisions_without_partial_changes() {
    let error = move_file_group(
        group("root/source/sample.png", "root/source/sample.txt"),
        probe(true, true, &[]),
        choice(true, true, false),
        "root/destination",
        Destination::Directory,
        &[false, true],
    )
    .unwrap_err();
    assert!(error.message().contains("already exists"));
    assert!(matches!(
        error,
        FileError::DestinationExists(path) if path == "root/destination/sample.txt"
    ));
}

#[test]
fn multi_group_move_preflights_duplicate_names_before_moving() {
    let groups = vec![
        group("root/first/same.png", "root/first/same.txt"),
        group("root/second/same.png", "root/second/same.txt"),
    ];
    let probes = vec![probe(true, false, &[]), probe(true, false, &[])];
    let error = move_file_groups(
        &groups,
        &probes,
        choice(true, false, false),
        "root/destination",
        Destination::Directory,
        &[false, false],
    )
    .unwrap_err();
    assert!(error.message().contains("same destination"));
}

#[test]
fn delete_group_removes_only_requested_members() {
    let deleted = delete_file_group(
        group("dir/sample.png", "dir/sample.txt"),
        probe(true, true, &[4]),
        choice(false, true, true),
    )
    .unwrap();
    assert_eq!(deleted.len(), 2);
    assert_eq!(deleted, vec!["dir/sample.txt", "dir/sample.004"]);
}

#[test]
fn directories_are_never_deleted_or_moved() {
    let deleted = delete_file_group(
        group("root/sample.png", "root/sample.txt"),
        probe(false, false, &[]),
        choice(true, true, true),
    )
    .unwrap();
    assert_eq!(deleted.len(), 0);
    let moves = move_file_group(
        group("root/sample.png", "root/sample.txt"),
        probe(false, false, &[]),
        choice(true, true, true),
        "root/dest",
        Destination::Missing,
        &[],
    )
    .unwrap();
    assert_eq!(moves.len(), 0);
}

#[test]
fn no_file_is_named_twice() {
    let groups = vec![
        group("root/a.png", "root/a.txt"),
        group("root//./a.png", "root/a.txt"),
    ];
    let probes = vec![probe(true, true, &[]), probe(true, true, &[])];
    let files = delete_file_groups(&groups, &probes, choice(true, true, false)).unwrap();
    assert_eq!(files, vec!["root/a.png", "root/a.txt"]);
}

#[test]
fn backups_need_a_file_name() {
    let error = delete_file_group(
        group("root/a.png", "root/.."),
        probe(true, true, &[]),
        choice(false, false, true),
    )
    .unwrap_err();
    assert!(matches!(&error, FileError::NoCaptionName(path) if path == "root/.."));
    assert_eq!(error.message(), "caption path has no file name: root/..");
    let error = move_file_group(
        group("..", "root/a.txt"),
        probe(true, false, &[]),
        choice(true, false, false),
        "dest",
        Destination::Directory,
        &[false],
    )
    .unwrap_err();
    assert_eq!(error.message(), "source path has no file name: ..");
    assert_eq!(caption_backup("dir/foo.bar.txt", 7), Some("dir/foo.bar.007".to_owned()));
    assert_eq!(caption_backup("dir/foo.bar.txt", 1000), None);
}

#[test]
fn a_move_that_fails_is_taken_back() {
    let mut run = MoveRun::new();
    let mut at_target = [false; 3];
    let mut ends = 0;
    for _ in 0..100 {
        match run.next(3) {
            MoveAction::Move(i) => {
                let works = i != 2;
                if works {
                    at_target[i] = true;
                }
                run.advance(3, works);
            }
            MoveAction::MoveBack(i) => {
                at_target[i] = false;
                run.advance(3, true);
            }
            action => {
                assert_eq!(action, MoveAction::Restored);
                ends += 1;
                break;
            }
        }
    }
    assert_eq!(ends, 1);
    assert_eq!(at_target, [false; 3]);
}

#[test]
fn moves_are_taken_back_the_last_first() {
    let mut run = MoveRun::new();
    let outcomes = [true, true, true, false, true, false, true];
    let mut actions = Vec::new();
    for outcome in outcomes {
        actions.push(run.next(5));
        run.advance(5, outcome);
    }
    assert_eq!(
        actions,
        vec![
            MoveAction::Move(0),
            MoveAction::Move(1),
            MoveAction::Move(2),
            MoveAction::Move(3),
            MoveAction::MoveBack(2),
            MoveAction::MoveBack(1),
            MoveAction::MoveBack(0),
        ]
    );
    assert_eq!(run.next(5), MoveAction::NotRestored);
    assert!(matches!(run, MoveRun::TakingBack { left: 0, stuck } if stuck == vec![1]));
}

#[test]
fn a_move_that_cannot_be_taken_back_says_so() {
    let mut run = MoveRun::new();
    assert_eq!(run.next(2), MoveAction::Move(0));
    run.advance(2, true);
    assert_eq!(run.next(2), MoveAction::Move(1));
    run.advance(2, false);
    assert_eq!(run.next(2), MoveAction::MoveBack(0));
    run.advance(2, false);
    assert_eq!(run.next(2), MoveAction::NotRestored);

    let mut run = MoveRun::new();
    assert_eq!(run.next(1), MoveAction::Move(0));
    run.advance(1, true);
    assert_eq!(run.next(1), MoveAction::Finished);
    assert_eq!(MoveRun::new().next(0), MoveAction::Finished);
}

#[test]
fn scratch_files_lie_beside_their_file() {
    assert_eq!(
        scratch_path("data/a.txt", Purpose::Caption, "7", Scratch::New),
        "data/.a.txt.tagger-neo-7.tmp"
    );
    assert_eq!(
        scratch_path("data/a.txt", Purpose::Caption, "7", Scratch::Old),
        "data/.a.txt.tagger-neo-7.bak"
    );
    assert_eq!(
        scratch_path("meta.json", Purpose::Metadata, "9", Scratch::New),
        "./.meta.json.9.tmp"
    );
    assert_eq!(
        temporary_copy_path("data/a.png", 12, 3),
        Some("data/.a.png.tagger-neo-copy-12-3.tmp".to_owned())
    );
    assert_eq!(temporary_copy_path("data/..", 12, 3), None);
}

#[test]
fn a_file_is_replaced_in_steps() {
    let mut step = ReplaceStep::WriteNew;
    let mut steps = Vec::new();
    while !matches!(step, ReplaceStep::Finished | ReplaceStep::Failed(_)) {
        steps.push(step);
        let result = match step {
            ReplaceStep::Look => StepResult::Found(true),
            _ => StepResult::Done,
        };
        step = step.next(result);
    }
    assert_eq!(step, ReplaceStep::Finished);
    assert_eq!(
        steps,
        vec![
            ReplaceStep::WriteNew,
            ReplaceStep::Look,
            ReplaceStep::Stage,
            ReplaceStep::Install { staged: true },
            ReplaceStep::DropOld,
        ]
    );
}

#[test]
fn a_replacement_that_fails_puts_the_old_file_back() {
    let failed = ReplaceStep::Install { staged: true }.next(StepResult::Failed);
    assert_eq!(failed, ReplaceStep::Restore);
    assert_eq!(
        failed.next(StepResult::Done),
        ReplaceStep::DropNew(ReplaceFailure::Install)
    );
    assert_eq!(
        failed.next(StepResult::Failed),
        ReplaceStep::DropNew(ReplaceFailure::Restore)
    );
    assert_eq!(
        ReplaceStep::WriteNew.next(StepResult::Failed),
        ReplaceStep::DropNew(ReplaceFailure::Write)
    );
    assert_eq!(
        ReplaceStep::Stage.next(StepResult::Failed),
        ReplaceStep::DropNew(ReplaceFailure::Stage)
    );
    assert_eq!(
        ReplaceStep::DropNew(ReplaceFailure::Stage).next(StepResult::Failed),
        ReplaceStep::Failed(ReplaceFailure::Stage)
    );
}

#[test]
fn a_copy_is_checked_before_the_source_is_removed() {
    let mut step = CopyStep::Inspect;
    let mut count = 0;
    while !matches!(step, CopyStep::Finished | CopyStep::Failed(_)) {
        count += 1;
        let result = match step {
            CopyStep::Inspect => CopyResult::Inspected { regular: true, length: 5 },
            CopyStep::Copy { length } => CopyResult::Copied(length),
            _ => CopyResult::Done,
        };
        step = step.next(result);
    }
    assert_eq!((step, count), (CopyStep::Finished, 8));
    assert_eq!(
        CopyStep::Copy { length: 5 }.next(CopyResult::Copied(4)),
        CopyStep::DropCopy(CopyFailure::Length { expected: 5, copied: 4 })
    );
    assert_eq!(
        CopyStep::Inspect.next(CopyResult::Inspected { regular: false, length: 5 }),
        CopyStep::Failed(CopyFailure::NotRegular)
    );
    assert_eq!(CopyStep::RemoveSource.next(CopyResult::Failed), CopyStep::DropTarget);
    assert_eq!(
        CopyStep::DropTarget.next(CopyResult::Done),
        CopyStep::Failed(CopyFailure::RemoveSource)
    );
    assert!(is_cross_device(Some(17)) && is_cross_device(Some(18)));
    assert!(!is_cross_device(Some(2)) && !is_cross_device(None));
}

#[test]
fn a_save_takes_the_first_free_backup() {
    assert_eq!(free_caption_backup("a.txt", &[]), Some("a.000".to_owned()));
    assert_eq!(free_caption_backup("a.txt", &[true, false]), Some("a.001".to_owned()));
    assert_eq!(free_caption_backup("a.txt", &[true, true]), Some("a.002".to_owned()));
    assert_eq!(free_caption_backup("a.txt", &[true; 1000]), None);
}

#[test]
fn files_are_moved_into_directories_only() {
    let one = || group("root/a.png", "root/a.txt");
    let there = || probe(true, false, &[]);
    let image = choice(true, false, false);
    let error =
        move_file_group(one(), there(), image, "root/file", Destination::Other, &[false])
            .unwrap_err();
    assert_eq!(error.message(), "destination is not a directory: root/file");
    assert!(matches!(error, FileError::NotDirectory(path) if path == "root/file"));
    for at in [Destination::Missing, Destination::Directory] {
        let moves = move_file_group(one(), there(), image, "root/b", at, &[false]).unwrap();
        assert_eq!(moves.len(), 1);
        assert_eq!(moves[0].target, "root/b/a.png");
    }
    let nothing = probe(false, false, &[]);
    let moves =
        move_file_group(one(), nothing, image, "root/file", Destination::Other, &[]).unwrap();
    assert!(moves.is_empty());
}

#[test]
fn directories_are_made_when_there_is_something_to_move() {
    assert_eq!(prepare_destination(0, Destination::Missing), DestinationStep::Leave);
    assert_eq!(prepare_destination(0, Destination::Other), DestinationStep::Leave);
    assert_eq!(prepare_destination(2, Destination::Missing), DestinationStep::Make);
    assert_eq!(prepare_destination(2, Destination::Directory), DestinationStep::Use);
    assert_eq!(prepare_destination(2, Destination::Other), DestinationStep::Refuse);
}
