use sleeve::batch_run::{BatchRun, RunAction, SaveRun, Stage};
use sleeve::history::HistoryBatch;
use sleeve::models::audio_file::AudioFile;
use sleeve::models::backup::BackupVersion;
use sleeve::models::tag_draft::{TagDraft, TagField};
use sleeve::session::stage_batch_field;

fn backup(path: &str) -> BackupVersion {
    BackupVersion { timestamp: "t".into(), path: path.into(), size_bytes: 3 }
}

fn file(path: &str, title: &str) -> AudioFile {
    AudioFile { path: path.into(), title: Some(title.into()), ..Default::default() }
}

fn batch() -> HistoryBatch {
    HistoryBatch {
        snapshots: vec![
            ("a.flac".to_string(), backup("old/a.flac")),
            ("b.flac".to_string(), backup("old/b.flac")),
        ],
    }
}

#[test]
fn a_restore_backs_up_each_file_before_restoring_it() {
    let mut run = BatchRun::restore(&batch());
    let mut log = Vec::new();
    loop {
        match run.next_action() {
            RunAction::Backup(path) => {
                log.push(format!("backup {path}"));
                run.backup_done(Ok(backup(&format!("new/{path}"))));
            }
            RunAction::Restore { path, snapshot } => {
                log.push(format!("restore {path} from {snapshot}"));
                run.change_done(Ok(()));
            }
            RunAction::ReadAfter(path) => {
                log.push(format!("read {path}"));
                run.read_done(Ok(file(&path, "T")));
            }
            RunAction::Succeeded => break,
            other => panic!("unexpected action {other:?}"),
        }
    }
    assert_eq!(
        log,
        vec![
            "backup a.flac",
            "restore a.flac from old/a.flac",
            "read a.flac",
            "backup b.flac",
            "restore b.flac from old/b.flac",
            "read b.flac",
        ]
    );
    let (files, current) = run.outcome().expect("restored");
    assert_eq!(files.len(), 2);
    assert_eq!(current.snapshots[1].0, "b.flac");
    assert_eq!(current.snapshots[1].1.path, "new/b.flac");
}

#[test]
fn a_failed_step_puts_every_backup_back_newest_first() {
    let mut run = BatchRun::restore(&batch());
    run.backup_done(Ok(backup("new/a")));
    run.change_done(Ok(()));
    run.read_done(Ok(file("a.flac", "A")));
    run.backup_done(Ok(backup("new/b")));
    run.change_done(Err("disk full".into()));
    assert_eq!(run.stage, Stage::RollingBack);
    let mut rolled = Vec::new();
    while let RunAction::RollBack { path, snapshot } = run.next_action() {
        rolled.push((path, snapshot));
        run.rollback_done(Ok(()));
    }
    assert_eq!(
        rolled,
        vec![("b.flac".to_string(), "new/b".to_string()), ("a.flac".to_string(), "new/a".to_string())]
    );
    assert!(matches!(run.next_action(), RunAction::Failed(ref message) if message == "disk full"));
    assert_eq!(run.outcome().err(), Some("disk full".to_string()));
}

#[test]
fn rollback_failures_replace_the_error() {
    let mut run = BatchRun::restore(&batch());
    run.backup_done(Ok(backup("new/a")));
    run.change_done(Ok(()));
    run.read_done(Ok(file("a.flac", "A")));
    run.backup_done(Ok(backup("new/b")));
    run.change_done(Ok(()));
    run.read_done(Err("unreadable".into()));
    run.rollback_done(Err("first".into()));
    run.rollback_done(Err("second".into()));
    assert_eq!(run.outcome().err(), Some("回滚失败：first；second".to_string()));
}

#[test]
fn a_backup_failure_before_any_backup_fails_at_once() {
    let mut run = BatchRun::restore(&batch());
    run.backup_done(Err("no space".into()));
    assert_eq!(run.stage, Stage::Failed);
    assert_eq!(run.outcome().err(), Some("no space".to_string()));
    let empty = BatchRun::restore(&HistoryBatch { snapshots: vec![] });
    assert!(matches!(empty.next_action(), RunAction::Succeeded));
}

#[test]
fn a_batch_save_writes_each_file_with_the_edits_applied() {
    let selected = vec!["a.flac".to_string(), "b.flac".to_string()];
    let edits = stage_batch_field(None, &selected, TagField::Artist, "Band".into());
    let mut run = BatchRun::save(edits);
    let mut written = Vec::new();
    loop {
        match run.next_action() {
            RunAction::ReadBefore(path) => run.read_done(Ok(file(&path, &format!("title of {path}")))),
            RunAction::Backup(path) => run.backup_done(Ok(backup(&format!("saved/{path}")))),
            RunAction::Write { path, draft } => {
                written.push((path, draft.title.clone(), draft.artist.clone()));
                run.change_done(Ok(()));
            }
            RunAction::ReadAfter(path) => run.read_done(Ok(file(&path, "done"))),
            RunAction::Succeeded => break,
            other => panic!("unexpected action {other:?}"),
        }
    }
    assert_eq!(
        written,
        vec![
            ("a.flac".to_string(), "title of a.flac".to_string(), "Band".to_string()),
            ("b.flac".to_string(), "title of b.flac".to_string(), "Band".to_string()),
        ]
    );
    let (files, taken) = run.outcome().expect("saved");
    assert_eq!(files.len(), 2);
    assert_eq!(taken.snapshots[0].1.path, "saved/a.flac");
}

#[test]
fn a_batch_save_that_cannot_read_the_first_file_takes_no_backup() {
    let selected = vec!["a.flac".to_string(), "b.flac".to_string()];
    let edits = stage_batch_field(None, &selected, TagField::Genre, "Pop".into());
    let mut run = BatchRun::save(edits);
    assert!(matches!(run.next_action(), RunAction::ReadBefore(ref path) if path == "a.flac"));
    run.read_done(Err("gone".into()));
    assert_eq!(run.outcome().err(), Some("gone".to_string()));
}

#[test]
fn a_save_backs_up_before_it_writes() {
    let draft = TagDraft { title: "New".into(), ..Default::default() };
    let mut run = SaveRun::new("a.flac".into(), draft);
    assert!(matches!(run.next_action(), RunAction::Backup(ref path) if path == "a.flac"));
    run.backup_done(Ok(backup("saved/a.flac")));
    match run.next_action() {
        RunAction::Write { path, draft } => {
            assert_eq!(path, "a.flac");
            assert_eq!(draft.title, "New");
        }
        other => panic!("unexpected action {other:?}"),
    }
    run.write_done(Ok(()));
    run.read_done(Ok(file("a.flac", "New")));
    let (saved, snapshot) = run.outcome().expect("saved");
    assert_eq!(saved.title, Some("New".to_string()));
    assert_eq!(snapshot.path, "saved/a.flac");

    let mut failing = SaveRun::new("a.flac".into(), TagDraft::default());
    failing.backup_done(Err("no space".into()));
    assert!(matches!(failing.next_action(), RunAction::Failed(ref message) if message == "no space"));
    assert_eq!(failing.outcome().err(), Some("no space".to_string()));
}
