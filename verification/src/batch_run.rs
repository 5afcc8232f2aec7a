//! Saving the focused file, saving edits to several files, and undoing or redoing
//! a batch, one file after another: each file is backed up before it is changed;
//! when a step of a batch fails, every backup taken so far is put back, newest
//! first.
//!
//! The run decides; the window performs each action it asks for (reading,
//! backing up, writing or restoring a file) and reports the result back.

use vstd::prelude::*;

use crate::history::{batch_paths, HistoryBatch};
use crate::models::audio_file::AudioFile;
use crate::models::backup::BackupVersion;
use crate::models::file_tree::string_views;
use crate::models::tag_draft::{draft_of_file, TagDraft};
use crate::session::{applied, cover_view, PendingBatchSave};
use crate::text::push_char_all;

verus! {

/// Where a run stands.
#[derive(Debug, Clone, Copy, PartialEq, Eq, Structural)]
pub enum Stage {
    /// Reading the current tags of the file to save.
    ReadBefore,
    /// Backing up the file.
    Backup,
    /// Copying the batch's snapshot over the file.
    Restore,
    /// Writing the edited draft to the file.
    Write,
    /// Reading the file back.
    ReadAfter,
    /// Putting the backups taken back after a failure.
    RollingBack,
    /// Every file was done.
    Succeeded,
    /// A step failed and the backups taken were put back.
    Failed,
}

/// What the run asks the window to do next.
#[derive(Debug, Clone)]
pub enum RunAction {
    /// Read the file's tags.
    ReadBefore(String),
    /// Back up the file.
    Backup(String),
    /// Copy `snapshot` over the file at `path`.
    Restore { path: String, snapshot: String },
    /// Write `draft` to the file at `path`.
    Write { path: String, draft: TagDraft },
    /// Read the file's tags after the change.
    ReadAfter(String),
    /// Copy the backup `snapshot` back over the file at `path`.
    RollBack { path: String, snapshot: String },
    /// Nothing: the run succeeded.
    Succeeded,
    /// Nothing: the run failed with this message.
    Failed(String),
}

/// A run over the files of a batch save, an undo or a redo.
#[derive(Debug)]
pub struct BatchRun {
    /// Whether the run restores snapshots (undo, redo) rather than writing edits.
    pub restoring: bool,
    /// The files, in the order in which they are done.
    pub paths: Vec<String>,
    /// When restoring, the snapshot to copy over each file.
    pub sources: Vec<String>,
    /// When saving, the edits to apply to each file.
    pub edits: PendingBatchSave,
    /// The file being done.
    pub index: usize,
    pub stage: Stage,
    /// When saving, the draft to write to the current file.
    pub draft: TagDraft,
    /// The backups taken so far, one per file started, in order.
    pub taken: Vec<(String, BackupVersion)>,
    /// The files read back after their change, in order.
    pub files: Vec<AudioFile>,
    /// The error of the step that failed.
    pub error: String,
    /// The errors of the backups that could not be put back, in the order tried.
    pub rollback_errors: Vec<String>,
    /// How many of the backups taken are still to be put back.
    pub rollback_left: usize,
}

/// The text of several items with `separator` between each two.
pub open spec fn joined(items: Seq<Seq<char>>, separator: Seq<char>) -> Seq<char>
    decreases items.len(),
{
    if items.len() == 0 {
        Seq::empty()
    } else if items.len() == 1 {
        items[0]
    } else {
        joined(items.drop_last(), separator) + separator + items.last()
    }
}

/// The message of a failed run: the error of the step that failed, or, when some
/// backups could not be put back, "回滚失败：" and their errors joined by "；".
pub open spec fn failure_message(error: Seq<char>, rollback_errors: Seq<Seq<char>>) -> Seq<char> {
    if rollback_errors.len() == 0 {
        error
    } else {
        "回滚失败："@ + joined(rollback_errors, "；"@)
    }
}

impl BatchRun {
    /// The invariant of a run: a backup was taken of each file started, in order;
    /// a file is changed only once its backup is taken.
    pub open spec fn well_formed(&self) -> bool {
        let n = self.paths@.len();
        &&& self.index <= n
        &&& self.restoring ==> self.sources@.len() == n
        &&& self.edits.well_formed()
        &&& self.taken@.len() <= n
        &&& forall|k: int| 0 <= k < self.taken@.len() ==> #[trigger] self.taken@[k].0@ == self.paths@[k]@
        &&& match self.stage {
            Stage::ReadBefore => !self.restoring && self.index < n && self.taken@.len() == self.index
                && self.files@.len() == self.index,
            Stage::Backup => self.index < n && self.taken@.len() == self.index && self.files@.len() == self.index,
            Stage::Restore => self.restoring && self.index < n && self.taken@.len() == self.index + 1
                && self.files@.len() == self.index,
            Stage::Write => !self.restoring && self.index < n && self.taken@.len() == self.index + 1
                && self.files@.len() == self.index,
            Stage::ReadAfter => self.index < n && self.taken@.len() == self.index + 1
                && self.files@.len() == self.index,
            Stage::RollingBack => 0 < self.rollback_left <= self.taken@.len(),
            Stage::Succeeded => self.index == n && self.taken@.len() == n && self.files@.len() == n,
            Stage::Failed => true,
        }
    }

    /// The stage in which each file starts.
    pub open spec fn first_stage(&self) -> Stage {
        if self.restoring { Stage::Backup } else { Stage::ReadBefore }
    }

    /// The run that restores the snapshots of `batch` (an undo or a redo).
    pub fn restore(batch: &HistoryBatch) -> (r: BatchRun)
        ensures
            r.well_formed(),
            r.restoring,
            r.paths@.len() == batch.snapshots@.len(),
            forall|k: int| 0 <= k < batch.snapshots@.len() ==> #[trigger] r.paths@[k]@ == batch.snapshots@[k].0@
                && r.sources@[k]@ == batch.snapshots@[k].1.path@,
            r.index == 0,
            r.taken@.len() == 0,
            r.files@.len() == 0,
            r.stage == if batch.snapshots@.len() == 0 { Stage::Succeeded } else { Stage::Backup },
    {
        let mut paths: Vec<String> = Vec::new();
        let mut sources: Vec<String> = Vec::new();
        let mut i: usize = 0;
        while i < batch.snapshots.len()
            invariant
                i <= batch.snapshots@.len(),
                paths@.len() == i,
                sources@.len() == i,
                forall|k: int| 0 <= k < i ==> #[trigger] paths@[k]@ == batch.snapshots@[k].0@
                    && sources@[k]@ == batch.snapshots@[k].1.path@,
            decreases batch.snapshots@.len() - i,
        {
            let path = batch.snapshots[i].0.clone();
            let source = batch.snapshots[i].1.path.clone();
            assert(path@ == batch.snapshots@[i as int].0@);
            assert(source@ == batch.snapshots@[i as int].1.path@);
            paths.push(path);
            sources.push(source);
            assert(paths@[i as int]@ == batch.snapshots@[i as int].0@);
            i = i + 1;
        }
        let stage = if paths.len() == 0 { Stage::Succeeded } else { Stage::Backup };
        BatchRun {
            restoring: true,
            paths,
            sources,
            edits: PendingBatchSave::new(Vec::new()),
            index: 0,
            stage,
            draft: TagDraft::empty(),
            taken: Vec::new(),
            files: Vec::new(),
            error: String::new(),
            rollback_errors: Vec::new(),
            rollback_left: 0,
        }
    }

    /// The run that saves the batch edits to each of their files.
    pub fn save(edits: PendingBatchSave) -> (r: BatchRun)
        requires
            edits.well_formed(),
        ensures
            r.well_formed(),
            !r.restoring,
            string_views(r.paths@) == string_views(edits.paths@),
            r.edits == edits,
            r.index == 0,
            r.taken@.len() == 0,
            r.files@.len() == 0,
            r.stage == if edits.paths@.len() == 0 { Stage::Succeeded } else { Stage::ReadBefore },
    {
        let paths = crate::session::copy_paths(&edits.paths);
        let stage = if paths.len() == 0 { Stage::Succeeded } else { Stage::ReadBefore };
        BatchRun {
            restoring: false,
            paths,
            sources: Vec::new(),
            edits,
            index: 0,
            stage,
            draft: TagDraft::empty(),
            taken: Vec::new(),
            files: Vec::new(),
            error: String::new(),
            rollback_errors: Vec::new(),
            rollback_left: 0,
        }
    }

    /// What the window is to do next. A file is restored or written only when
    /// the last backup taken is of that file.
    pub fn next_action(&self) -> (r: RunAction)
        requires
            self.well_formed(),
        ensures
            match self.stage {
                Stage::ReadBefore => r matches RunAction::ReadBefore(p) && p@ == self.paths@[self.index as int]@,
                Stage::Backup => r matches RunAction::Backup(p) && p@ == self.paths@[self.index as int]@,
                Stage::Restore => r matches RunAction::Restore { path, snapshot } && path@ == self.paths@[self.index as int]@
                    && snapshot@ == self.sources@[self.index as int]@,
                Stage::Write => r matches RunAction::Write { path, draft } && path@ == self.paths@[self.index as int]@
                    && draft@ == self.draft@,
                Stage::ReadAfter => r matches RunAction::ReadAfter(p) && p@ == self.paths@[self.index as int]@,
                Stage::RollingBack => r matches RunAction::RollBack { path, snapshot }
                    && path@ == self.taken@[self.rollback_left - 1].0@
                    && snapshot@ == self.taken@[self.rollback_left - 1].1.path@,
                Stage::Succeeded => r is Succeeded,
                Stage::Failed => r matches RunAction::Failed(message)
                    && message@ == failure_message(self.error@, string_views(self.rollback_errors@)),
            },
            r matches RunAction::Restore { path, .. } ==> self.taken@.len() > 0 && self.taken@.last().0@ == path@,
            r matches RunAction::Write { path, .. } ==> self.taken@.len() > 0 && self.taken@.last().0@ == path@,
    {
        match self.stage {
            Stage::ReadBefore => RunAction::ReadBefore(self.paths[self.index].clone()),
            Stage::Backup => RunAction::Backup(self.paths[self.index].clone()),
            Stage::Restore => RunAction::Restore {
                path: self.paths[self.index].clone(),
                snapshot: self.sources[self.index].clone(),
            },
            Stage::Write => RunAction::Write {
                path: self.paths[self.index].clone(),
                draft: self.draft.duplicate(),
            },
            Stage::ReadAfter => RunAction::ReadAfter(self.paths[self.index].clone()),
            Stage::RollingBack => {
                let (path, backup) = &self.taken[self.rollback_left - 1];
                RunAction::RollBack { path: path.clone(), snapshot: backup.path.clone() }
            },
            Stage::Succeeded => RunAction::Succeeded,
            Stage::Failed => RunAction::Failed(rollback_failure(&self.error, &self.rollback_errors)),
        }
    }

    /// Records that a step failed: the backups taken are put back next, newest
    /// first, or the run fails at once when none was taken.
    fn fail(&mut self, error: String)
        requires
            old(self).well_formed(),
        ensures
            final(self).well_formed(),
            final(self).error@ == error@,
            final(self).rollback_errors@.len() == 0,
            final(self).rollback_left == old(self).taken@.len(),
            final(self).stage == if old(self).taken@.len() == 0 { Stage::Failed } else { Stage::RollingBack },
            final(self).taken@ == old(self).taken@,
            final(self).files@ == old(self).files@,
            final(self).paths@ == old(self).paths@,
            final(self).index == old(self).index,
            final(self).restoring == old(self).restoring,
    {
        self.error = error;
        self.rollback_errors = Vec::new();
        self.rollback_left = self.taken.len();
        self.stage = if self.taken.len() == 0 { Stage::Failed } else { Stage::RollingBack };
    }

    /// Takes the result of reading a file: before a save, the draft to write is
    /// the file's tags with the edits applied; after a change, the file is kept
    /// and the next file starts, or the run succeeds after the last one.
    pub fn read_done(&mut self, result: Result<AudioFile, String>)
        requires
            old(self).well_formed(),
            old(self).stage == Stage::ReadBefore || old(self).stage == Stage::ReadAfter,
        ensures
            final(self).well_formed(),
            final(self).taken@ == old(self).taken@,
            final(self).paths@ == old(self).paths@,
            final(self).restoring == old(self).restoring,
            match result {
                Ok(file) => if old(self).stage == Stage::ReadBefore {
                    &&& final(self).stage == Stage::Backup
                    &&& final(self).index == old(self).index
                    &&& final(self).files@ == old(self).files@
                    &&& final(self).draft@ == applied(draft_of_file(file), old(self).edits.staged(), cover_view(old(self).edits.cover))
                } else {
                    &&& final(self).index == old(self).index + 1
                    &&& final(self).files@ == old(self).files@.push(file)
                    &&& final(self).stage == if final(self).index == old(self).paths@.len() {
                        Stage::Succeeded
                    } else {
                        old(self).first_stage()
                    }
                },
                Err(error) => {
                    &&& final(self).error@ == error@
                    &&& final(self).rollback_errors@.len() == 0
                    &&& final(self).rollback_left == old(self).taken@.len()
                    &&& final(self).stage == if old(self).taken@.len() == 0 { Stage::Failed } else { Stage::RollingBack }
                },
            },
    {
        match result {
            Ok(file) => {
                if self.stage == Stage::ReadBefore {
                    let draft = self.edits.apply_to(TagDraft::from_audio_file(&file));
                    self.draft = draft;
                    self.stage = Stage::Backup;
                } else {
                    assert(self.index < self.paths@.len());
                    let count = self.paths.len();
                    self.files.push(file);
                    self.index = self.index + 1;
                    self.stage = if self.index == count {
                        Stage::Succeeded
                    } else if self.restoring {
                        Stage::Backup
                    } else {
                        Stage::ReadBefore
                    };
                }
            },
            Err(error) => self.fail(error),
        }
    }

    /// Takes the result of backing up the current file: with the backup taken,
    /// the file is restored or written next.
    pub fn backup_done(&mut self, result: Result<BackupVersion, String>)
        requires
            old(self).well_formed(),
            old(self).stage == Stage::Backup,
        ensures
            final(self).well_formed(),
            final(self).paths@ == old(self).paths@,
            final(self).files@ == old(self).files@,
            final(self).index == old(self).index,
            final(self).restoring == old(self).restoring,
            match result {
                Ok(backup) => {
                    &&& final(self).taken@.len() == old(self).taken@.len() + 1
                    &&& final(self).taken@.drop_last() == old(self).taken@
                    &&& final(self).taken@.last().0@ == old(self).paths@[old(self).index as int]@
                    &&& final(self).taken@.last().1 == backup
                    &&& final(self).stage == if old(self).restoring { Stage::Restore } else { Stage::Write }
                },
                Err(error) => {
                    &&& final(self).taken@ == old(self).taken@
                    &&& final(self).error@ == error@
                    &&& final(self).rollback_errors@.len() == 0
                    &&& final(self).rollback_left == old(self).taken@.len()
                    &&& final(self).stage == if old(self).taken@.len() == 0 { Stage::Failed } else { Stage::RollingBack }
                },
            },
    {
        match result {
            Ok(backup) => {
                let path = self.paths[self.index].clone();
                self.taken.push((path, backup));
                self.stage = if self.restoring { Stage::Restore } else { Stage::Write };
                assert(self.taken@.drop_last() =~= old(self).taken@);
            },
            Err(error) => self.fail(error),
        }
    }

    /// Takes the result of restoring or writing the current file: it is read
    /// back next, or, on failure, the backups taken (its own among them) are put
    /// back.
    pub fn change_done(&mut self, result: Result<(), String>)
        requires
            old(self).well_formed(),
            old(self).stage == Stage::Restore || old(self).stage == Stage::Write,
        ensures
            final(self).well_formed(),
            final(self).paths@ == old(self).paths@,
            final(self).files@ == old(self).files@,
            final(self).taken@ == old(self).taken@,
            final(self).index == old(self).index,
            final(self).restoring == old(self).restoring,
            match result {
                Ok(()) => final(self).stage == Stage::ReadAfter,
                Err(error) => {
                    &&& final(self).error@ == error@
                    &&& final(self).rollback_errors@.len() == 0
                    &&& final(self).rollback_left == old(self).taken@.len()
                    &&& final(self).stage == Stage::RollingBack
                },
            },
    {
        match result {
            Ok(()) => {
                self.stage = Stage::ReadAfter;
            },
            Err(error) => self.fail(error),
        }
    }

    /// Takes the result of putting one backup back: its error, if any, is kept;
    /// the next older backup follows, or the run fails after the oldest.
    pub fn rollback_done(&mut self, result: Result<(), String>)
        requires
            old(self).well_formed(),
            old(self).stage == Stage::RollingBack,
        ensures
            final(self).well_formed(),
            final(self).paths@ == old(self).paths@,
            final(self).taken@ == old(self).taken@,
            final(self).error == old(self).error,
            final(self).rollback_left == old(self).rollback_left - 1,
            final(self).stage == if final(self).rollback_left == 0 { Stage::Failed } else { Stage::RollingBack },
            string_views(final(self).rollback_errors@) == match result {
                Ok(()) => string_views(old(self).rollback_errors@),
                Err(error) => string_views(old(self).rollback_errors@).push(error@),
            },
    {
        let ghost before = self.rollback_errors@;
        match result {
            Ok(()) => {},
            Err(error) => {
                self.rollback_errors.push(error);
                assert(string_views(self.rollback_errors@) =~= string_views(before).push(self.rollback_errors@.last()@));
            },
        }
        self.rollback_left = self.rollback_left - 1;
        if self.rollback_left == 0 {
            self.stage = Stage::Failed;
        }
    }

    /// The result of a finished run: the files read back and the backups taken,
    /// one of each per file in order; or the failure message.
    pub fn outcome(self) -> (r: Result<(Vec<AudioFile>, HistoryBatch), String>)
        requires
            self.well_formed(),
            self.stage == Stage::Succeeded || self.stage == Stage::Failed,
        ensures
            match r {
                Ok((files, batch)) => {
                    &&& self.stage == Stage::Succeeded
                    &&& files@ == self.files@
                    &&& batch.snapshots@ == self.taken@
                    &&& files@.len() == self.paths@.len()
                    &&& batch.snapshots@.len() == self.paths@.len()
                    &&& forall|k: int| 0 <= k < self.paths@.len() ==> #[trigger] batch.snapshots@[k].0@ == self.paths@[k]@
                },
                Err(message) => self.stage == Stage::Failed && message@ == failure_message(
                    self.error@,
                    string_views(self.rollback_errors@),
                ),
            },
    {
        if self.stage == Stage::Succeeded {
            Ok((self.files, HistoryBatch { snapshots: self.taken }))
        } else {
            Err(rollback_failure(&self.error, &self.rollback_errors))
        }
    }
}

/// The batch that a successful undo or redo run records holds a snapshot of each
/// file of the batch it restored, in the same order ([`BatchRun::restore`] and
/// [`BatchRun::outcome`]), so it covers the same files and the opposite command
/// is offered for the same selection.
pub proof fn law_restore_records_the_same_files(batch: HistoryBatch, run: BatchRun, current: HistoryBatch)
    requires
        run.paths@.len() == batch.snapshots@.len(),
        forall|k: int| 0 <= k < batch.snapshots@.len() ==> #[trigger] run.paths@[k]@ == batch.snapshots@[k].0@,
        current.snapshots@.len() == run.paths@.len(),
        forall|k: int| 0 <= k < run.paths@.len() ==> #[trigger] current.snapshots@[k].0@ == run.paths@[k]@,
    ensures
        batch_paths(current) == batch_paths(batch),
{
    assert forall|p: Seq<char>| batch_paths(current).contains(p) <==> batch_paths(batch).contains(p) by {
        if batch_paths(current).contains(p) {
            let k = choose|k: int| 0 <= k < current.snapshots@.len() && #[trigger] current.snapshots@[k].0@ == p;
            assert(run.paths@[k]@ == batch.snapshots@[k].0@);
        }
        if batch_paths(batch).contains(p) {
            let k = choose|k: int| 0 <= k < batch.snapshots@.len() && #[trigger] batch.snapshots@[k].0@ == p;
            assert(current.snapshots@[k].0@ == run.paths@[k]@);
        }
    }
    assert(batch_paths(current) =~= batch_paths(batch));
}

/// The message of a failed run (see [`failure_message`]).
fn rollback_failure(error: &String, rollback_errors: &Vec<String>) -> (r: String)
    ensures
        r@ == failure_message(error@, string_views(rollback_errors@)),
{
    if rollback_errors.len() == 0 {
        return error.clone();
    }
    let ghost views = string_views(rollback_errors@);
    let mut out = "回滚失败：".to_owned();
    push_char_all(&mut out, rollback_errors[0].as_str());
    let mut i: usize = 1;
    assert(views.take(1).drop_last() =~= Seq::<Seq<char>>::empty());
    assert(joined(views.take(1), "；"@) == views[0]);
    while i < rollback_errors.len()
        invariant
            1 <= i <= rollback_errors@.len(),
            views == string_views(rollback_errors@),
            out@ == "回滚失败："@ + joined(views.take(i as int), "；"@),
        decreases rollback_errors@.len() - i,
    {
        push_char_all(&mut out, "；");
        push_char_all(&mut out, rollback_errors[i].as_str());
        proof {
            assert(views.take(i + 1).drop_last() =~= views.take(i as int));
            assert(views.take(i + 1).last() == views[i as int]);
        }
        i = i + 1;
        assert(out@ =~= "回滚失败："@ + joined(views.take(i as int), "；"@));
    }
    assert(views.take(rollback_errors@.len() as int) =~= views);
    out
}

/// The save of the focused file: a backup first, then the draft written, then
/// the file read back. A failure ends the save; the backup, if taken, stays.
#[derive(Debug)]
pub struct SaveRun {
    pub path: String,
    pub draft: TagDraft,
    pub stage: Stage,
    /// The backup, once taken.
    pub backup: Option<BackupVersion>,
    /// The file read back after the write.
    pub file: Option<AudioFile>,
    /// The error of the step that failed.
    pub error: String,
}

impl SaveRun {
    /// The invariant of a save: the draft is written only once the backup is taken.
    pub open spec fn well_formed(&self) -> bool {
        match self.stage {
            Stage::Backup => self.backup is None,
            Stage::Write | Stage::ReadAfter => self.backup is Some,
            Stage::Succeeded => self.backup is Some && self.file is Some,
            Stage::Failed => true,
            _ => false,
        }
    }

    /// The save of `draft` to the file at `path`.
    pub fn new(path: String, draft: TagDraft) -> (r: SaveRun)
        ensures
            r.well_formed(),
            r.path == path,
            r.draft@ == draft@,
            r.stage == Stage::Backup,
    {
        SaveRun { path, draft, stage: Stage::Backup, backup: None, file: None, error: String::new() }
    }

    /// What the window is to do next; the draft is written only after the
    /// backup of the file was taken.
    pub fn next_action(&self) -> (r: RunAction)
        requires
            self.well_formed(),
        ensures
            match self.stage {
                Stage::Backup => r matches RunAction::Backup(p) && p@ == self.path@,
                Stage::Write => r matches RunAction::Write { path, draft } && path@ == self.path@ && draft@ == self.draft@,
                Stage::ReadAfter => r matches RunAction::ReadAfter(p) && p@ == self.path@,
                Stage::Succeeded => r is Succeeded,
                _ => r matches RunAction::Failed(message) && message@ == self.error@,
            },
            r is Write ==> self.backup is Some,
    {
        match self.stage {
            Stage::Backup => RunAction::Backup(self.path.clone()),
            Stage::Write => RunAction::Write { path: self.path.clone(), draft: self.draft.duplicate() },
            Stage::ReadAfter => RunAction::ReadAfter(self.path.clone()),
            Stage::Succeeded => RunAction::Succeeded,
            _ => RunAction::Failed(self.error.clone()),
        }
    }

    /// Takes the result of the backup: the draft is written next, or the save fails.
    pub fn backup_done(&mut self, result: Result<BackupVersion, String>)
        requires
            old(self).well_formed(),
            old(self).stage == Stage::Backup,
        ensures
            final(self).well_formed(),
            final(self).path == old(self).path,
            final(self).draft == old(self).draft,
            match result {
                Ok(backup) => final(self).stage == Stage::Write && final(self).backup == Some(backup),
                Err(error) => final(self).stage == Stage::Failed && final(self).error@ == error@,
            },
    {
        match result {
            Ok(backup) => {
                self.backup = Some(backup);
                self.stage = Stage::Write;
            },
            Err(error) => {
                self.error = error;
                self.stage = Stage::Failed;
            },
        }
    }

    /// Takes the result of the write: the file is read back next, or the save fails.
    pub fn write_done(&mut self, result: Result<(), String>)
        requires
            old(self).well_formed(),
            old(self).stage == Stage::Write,
        ensures
            final(self).well_formed(),
            final(self).path == old(self).path,
            final(self).backup == old(self).backup,
            match result {
                Ok(()) => final(self).stage == Stage::ReadAfter,
                Err(error) => final(self).stage == Stage::Failed && final(self).error@ == error@,
            },
    {
        match result {
            Ok(()) => {
                self.stage = Stage::ReadAfter;
            },
            Err(error) => {
                self.error = error;
                self.stage = Stage::Failed;
            },
        }
    }

    /// Takes the file read back: the save succeeds, or fails.
    pub fn read_done(&mut self, result: Result<AudioFile, String>)
        requires
            old(self).well_formed(),
            old(self).stage == Stage::ReadAfter,
        ensures
            final(self).well_formed(),
            final(self).backup == old(self).backup,
            match result {
                Ok(file) => final(self).stage == Stage::Succeeded && final(self).file == Some(file),
                Err(error) => final(self).stage == Stage::Failed && final(self).error@ == error@,
            },
    {
        match result {
            Ok(file) => {
                self.file = Some(file);
                self.stage = Stage::Succeeded;
            },
            Err(error) => {
                self.error = error;
                self.stage = Stage::Failed;
            },
        }
    }

    /// The result of a finished save: the file read back and its backup, or the
    /// error of the step that failed.
    pub fn outcome(self) -> (r: Result<(AudioFile, BackupVersion), String>)
        requires
            self.well_formed(),
            self.stage == Stage::Succeeded || self.stage == Stage::Failed,
        ensures
            match r {
                Ok((file, backup)) => self.stage == Stage::Succeeded && self.file == Some(file) && self.backup == Some(backup),
                Err(message) => self.stage == Stage::Failed && message@ == self.error@,
            },
    {
        if self.stage == Stage::Succeeded {
            match (self.file, self.backup) {
                (Some(file), Some(backup)) => Ok((file, backup)),
                _ => Err(self.error),
            }
        } else {
            Err(self.error)
        }
    }
}

} // verus!
