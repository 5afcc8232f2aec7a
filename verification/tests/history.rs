use sleeve::history::{is_current_batch_draft_result, BatchHistory, HistoryBatch};
use sleeve::models::backup::BackupVersion;

fn backup(path: &str) -> BackupVersion {
    BackupVersion {
        timestamp: "now".into(),
        path: path.into(),
        size_bytes: 1,
    }
}

#[test]
fn batch_history_moves_complete_batch_between_undo_and_redo() {
    let first = "first.flac".to_string();
    let second = "second.flac".to_string();
    let selected = vec![first.clone(), second.clone()];
    let mut history = BatchHistory::default();
    let batch = HistoryBatch {
        snapshots: vec![
            (first, backup("first-before.flac")),
            (second, backup("second-before.flac")),
        ],
    };

    history.redo.push(HistoryBatch {
        snapshots: vec![("stale.flac".to_string(), backup("stale.flac"))],
    });
    history.record_save(batch);

    assert!(history.redo.is_empty());
    assert!(history.can_undo(&selected));
    let undo_batch = history.take(&selected, true).expect("undo batch");
    assert!(history.undo.is_empty());
    history.complete_restore(undo_batch, true);
    assert!(history.can_redo(&selected));
}

#[test]
fn failed_batch_restore_returns_the_batch_to_its_original_stack() {
    let path = "track.flac".to_string();
    let selected = vec![path.clone()];
    let batch = HistoryBatch {
        snapshots: vec![(path, backup("before.flac"))],
    };
    let mut history = BatchHistory::default();
    history.record_save(batch);
    let in_flight = history.take(&selected, true).expect("undo batch");

    history.restore_failed(in_flight, true);

    assert!(history.can_undo(&selected));
    assert!(history.redo.is_empty());
}

#[test]
fn batch_draft_result_rejects_stale_edit_revision() {
    let paths = vec!["first.flac".to_string(), "second.flac".to_string()];

    assert!(!is_current_batch_draft_result(&paths, 3, 4, &paths, 3, 5));
    assert!(!is_current_batch_draft_result(&paths, 2, 5, &paths, 3, 5));
    assert!(is_current_batch_draft_result(&paths, 3, 5, &paths, 3, 5));
}

#[test]
fn batch_undo_requires_an_exact_selection_match() {
    let first = "first.flac".to_string();
    let second = "second.flac".to_string();
    let mut history = BatchHistory::default();
    history.record_save(HistoryBatch {
        snapshots: vec![
            (first.clone(), backup("first-backup.flac")),
            (second.clone(), backup("second-backup.flac")),
        ],
    });

    assert!(!history.can_undo(&[first.clone()]));
    assert!(history.take(&[first.clone()], true).is_none());
    assert_eq!(history.undo.len(), 1);
    assert!(history.can_undo(&[first, second]));
}

#[test]
fn a_single_path_or_different_paths_are_no_current_batch_result() {
    let one = vec!["first.flac".to_string()];
    let two = vec!["first.flac".to_string(), "second.flac".to_string()];
    let other = vec!["first.flac".to_string(), "third.flac".to_string()];
    assert!(!is_current_batch_draft_result(&one, 1, 1, &one, 1, 1));
    assert!(!is_current_batch_draft_result(&two, 1, 1, &other, 1, 1));
    let reordered = vec!["second.flac".to_string(), "first.flac".to_string()];
    assert!(is_current_batch_draft_result(&two, 1, 1, &reordered, 1, 1));
}

#[test]
fn redo_moves_the_batch_back_to_undo() {
    let selected = vec!["a.flac".to_string(), "b.flac".to_string()];
    let mut history = BatchHistory::default();
    history.record_save(HistoryBatch {
        snapshots: vec![("a.flac".to_string(), backup("a1")), ("b.flac".to_string(), backup("b1"))],
    });
    let undo = history.take(&selected, true).expect("undo batch");
    assert_eq!(undo.paths().len(), 2);
    history.complete_restore(
        HistoryBatch {
            snapshots: vec![("a.flac".to_string(), backup("a2")), ("b.flac".to_string(), backup("b2"))],
        },
        true,
    );
    assert!(!history.can_undo(&selected));
    let redo = history.take(&selected, false).expect("redo batch");
    assert_eq!(redo.snapshots[0].1.path, "a2");
    history.complete_restore(redo, false);
    assert!(history.can_undo(&selected));
    assert!(!history.can_redo(&selected));
}
