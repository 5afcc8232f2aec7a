//! Undo and redo of saves: batches of snapshots, each batch one save of one or
//! more files, kept on two stacks and offered only for the selection they cover.

use vstd::prelude::*;

use crate::models::backup::BackupVersion;
use crate::text::str_equals;

verus! {

/// The snapshots taken by one save: each file's path and its backup.
#[derive(Debug)]
pub struct HistoryBatch {
    pub snapshots: Vec<(String, BackupVersion)>,
}

/// The set of paths that a sequence of strings holds.
pub open spec fn path_set(paths: Seq<String>) -> Set<Seq<char>> {
    Set::new(|p: Seq<char>| exists|i: int| 0 <= i < paths.len() && #[trigger] paths[i]@ == p)
}

/// Whether no two strings of a sequence are equal.
pub open spec fn distinct_strings(paths: Seq<String>) -> bool {
    forall|a: int, b: int| 0 <= a < paths.len() && 0 <= b < paths.len() && a != b ==> #[trigger] paths[a]@ != #[trigger] paths[b]@
}

/// The set of paths that a batch covers.
pub open spec fn batch_paths(batch: HistoryBatch) -> Set<Seq<char>> {
    Set::new(
        |p: Seq<char>|
            exists|i: int| 0 <= i < batch.snapshots@.len() && #[trigger] batch.snapshots@[i].0@ == p,
    )
}

/// The undo and redo stacks, most recent batch last.
#[derive(Debug, Default)]
pub struct BatchHistory {
    pub undo: Vec<HistoryBatch>,
    pub redo: Vec<HistoryBatch>,
}

/// The value of a history.
pub struct HistoryView {
    pub undo: Seq<HistoryBatch>,
    pub redo: Seq<HistoryBatch>,
}

impl View for BatchHistory {
    type V = HistoryView;

    open spec fn view(&self) -> HistoryView {
        HistoryView { undo: self.undo@, redo: self.redo@ }
    }
}

impl HistoryView {
    /// The undo stack or the redo stack.
    pub open spec fn stack(self, is_undo: bool) -> Seq<HistoryBatch> {
        if is_undo { self.undo } else { self.redo }
    }

    /// The history with one stack replaced.
    pub open spec fn with_stack(self, is_undo: bool, stack: Seq<HistoryBatch>) -> HistoryView {
        if is_undo {
            HistoryView { undo: stack, ..self }
        } else {
            HistoryView { redo: stack, ..self }
        }
    }

    /// Whether the most recent batch of a stack covers exactly the selected paths.
    pub open spec fn offers(self, selected: Set<Seq<char>>, is_undo: bool) -> bool {
        let stack = self.stack(is_undo);
        stack.len() > 0 && batch_paths(stack.last()) == selected
    }

    /// The history after a save: the batch on the undo stack and the redo stack
    /// emptied.
    pub open spec fn recorded(self, batch: HistoryBatch) -> HistoryView {
        HistoryView { undo: self.undo.push(batch), redo: Seq::empty() }
    }

    /// The batch that undo (or redo) takes for the selection: the most recent one,
    /// when it covers exactly the selection.
    pub open spec fn taken(self, selected: Set<Seq<char>>, is_undo: bool) -> Option<HistoryBatch> {
        if self.offers(selected, is_undo) {
            Some(self.stack(is_undo).last())
        } else {
            None
        }
    }

    /// The history after undo (or redo) takes a batch: that stack without it, or
    /// unchanged when none is offered.
    pub open spec fn after_take(self, selected: Set<Seq<char>>, is_undo: bool) -> HistoryView {
        if self.offers(selected, is_undo) {
            self.with_stack(is_undo, self.stack(is_undo).drop_last())
        } else {
            self
        }
    }

    /// The history after a batch whose restore failed is put back on its stack.
    pub open spec fn returned(self, batch: HistoryBatch, is_undo: bool) -> HistoryView {
        self.with_stack(is_undo, self.stack(is_undo).push(batch))
    }

    /// The history after a restore succeeded: the snapshots it took of the files'
    /// state before it go on the other stack.
    pub open spec fn completed(self, current: HistoryBatch, is_undo: bool) -> HistoryView {
        self.with_stack(!is_undo, self.stack(!is_undo).push(current))
    }
}

/// Whether `path` is one of `paths`.
pub fn contains_path(paths: &[String], path: &str) -> (r: bool)
    ensures
        r == path_set(paths@).contains(path@),
{
    let mut i: usize = 0;
    while i < paths.len()
        invariant
            i <= paths@.len(),
            forall|j: int| 0 <= j < i ==> paths@[j]@ != path@,
        decreases paths@.len() - i,
    {
        if str_equals(paths[i].as_str(), path) {
            assert(paths@[i as int]@ == path@);
            return true;
        }
        i = i + 1;
    }
    false
}

fn batch_contains(batch: &HistoryBatch, path: &str) -> (r: bool)
    ensures
        r == batch_paths(*batch).contains(path@),
{
    let mut i: usize = 0;
    while i < batch.snapshots.len()
        invariant
            i <= batch.snapshots@.len(),
            forall|j: int| 0 <= j < i ==> batch.snapshots@[j].0@ != path@,
        decreases batch.snapshots@.len() - i,
    {
        if str_equals(batch.snapshots[i].0.as_str(), path) {
            assert(batch.snapshots@[i as int].0@ == path@);
            return true;
        }
        i = i + 1;
    }
    false
}

/// Whether a batch covers exactly the selected paths.
pub fn covers_exactly(batch: &HistoryBatch, selected: &[String]) -> (r: bool)
    ensures
        r == (batch_paths(*batch) == path_set(selected@)),
{
    let mut i: usize = 0;
    while i < batch.snapshots.len()
        invariant
            i <= batch.snapshots@.len(),
            forall|j: int| 0 <= j < i ==> path_set(selected@).contains(#[trigger] batch.snapshots@[j].0@),
        decreases batch.snapshots@.len() - i,
    {
        if !contains_path(selected, batch.snapshots[i].0.as_str()) {
            assert(batch_paths(*batch).contains(batch.snapshots@[i as int].0@));
            return false;
        }
        i = i + 1;
    }
    let mut k: usize = 0;
    while k < selected.len()
        invariant
            k <= selected@.len(),
            forall|j: int| 0 <= j < batch.snapshots@.len() ==> path_set(selected@).contains(#[trigger] batch.snapshots@[j].0@),
            forall|j: int| 0 <= j < k ==> batch_paths(*batch).contains(#[trigger] selected@[j]@),
        decreases selected@.len() - k,
    {
        if !batch_contains(batch, selected[k].as_str()) {
            assert(path_set(selected@).contains(selected@[k as int]@));
            return false;
        }
        k = k + 1;
    }
    assert(batch_paths(*batch) =~= path_set(selected@));
    true
}

impl HistoryBatch {
    /// The distinct paths that the batch covers.
    pub fn paths(&self) -> (r: Vec<String>)
        ensures
            distinct_strings(r@),
            path_set(r@) == batch_paths(*self),
    {
        let mut out: Vec<String> = Vec::new();
        let mut i: usize = 0;
        while i < self.snapshots.len()
            invariant
                i <= self.snapshots@.len(),
                distinct_strings(out@),
                forall|p: Seq<char>| #[trigger] path_set(out@).contains(p) <==> exists|j: int|
                    0 <= j < i && #[trigger] self.snapshots@[j].0@ == p,
            decreases self.snapshots@.len() - i,
        {
            let path = &self.snapshots[i].0;
            let ghost before = out@;
            if !contains_path(&out, path.as_str()) {
                out.push(path.clone());
                assert forall|a: int, b: int|
                    0 <= a < out@.len() && 0 <= b < out@.len() && a != b implies #[trigger] out@[a]@
                    != #[trigger] out@[b]@ by {
                    if a == before.len() {
                        assert(out@[b] == before[b]);
                        assert(path_set(before).contains(before[b]@));
                    } else if b == before.len() {
                        assert(out@[a] == before[a]);
                        assert(path_set(before).contains(before[a]@));
                    } else {
                        assert(out@[a] == before[a]);
                        assert(out@[b] == before[b]);
                    }
                }
            }
            assert forall|p: Seq<char>| #[trigger] path_set(out@).contains(p) <==> exists|j: int|
                0 <= j < i + 1 && #[trigger] self.snapshots@[j].0@ == p by {
                if path_set(out@).contains(p) {
                    let k = choose|k: int| 0 <= k < out@.len() && #[trigger] out@[k]@ == p;
                    if k < before.len() {
                        assert(path_set(before).contains(p));
                    }
                }
                if exists|j: int| 0 <= j < i + 1 && #[trigger] self.snapshots@[j].0@ == p {
                    let j = choose|j: int| 0 <= j < i + 1 && #[trigger] self.snapshots@[j].0@ == p;
                    if j < i {
                        assert(path_set(before).contains(p));
                        let k = choose|k: int| 0 <= k < before.len() && #[trigger] before[k]@ == p;
                        assert(out@[k] == before[k]);
                    } else if path_set(before).contains(p) {
                        let k = choose|k: int| 0 <= k < before.len() && #[trigger] before[k]@ == p;
                        assert(out@[k] == before[k]);
                    } else {
                        assert(out@[before.len() as int]@ == p);
                    }
                }
            }
            i = i + 1;
        }
        assert(path_set(out@) =~= batch_paths(*self));
        out
    }
}

/// Whether a batch of drafts loaded in the background still belongs to the
/// current selection: it was loaded for exactly the selected paths, these are at
/// least two different paths, and neither the selection nor the batch draft has
/// changed since.
pub fn is_current_batch_draft_result(
    result_paths: &[String],
    result_selection_revision: u64,
    result_batch_draft_revision: u64,
    selected_paths: &[String],
    selection_revision: u64,
    batch_draft_revision: u64,
) -> (r: bool)
    ensures
        r == (path_set(result_paths@) == path_set(selected_paths@) && (exists|i: int, j: int|
            0 <= i < result_paths@.len() && 0 <= j < result_paths@.len() && #[trigger] result_paths@[i]@
                != #[trigger] result_paths@[j]@) && result_selection_revision == selection_revision
            && result_batch_draft_revision == batch_draft_revision),
{
    let same = same_path_sets(result_paths, selected_paths);
    let mut several = false;
    let mut i: usize = 1;
    while i < result_paths.len()
        invariant
            1 <= i,
            i <= result_paths@.len() || result_paths@.len() == 0,
            !several ==> forall|j: int| 0 <= j < i && j < result_paths@.len() ==> #[trigger] result_paths@[j]@
                == result_paths@[0]@,
            several ==> exists|a: int, b: int|
                0 <= a < result_paths@.len() && 0 <= b < result_paths@.len() && #[trigger] result_paths@[a]@
                    != #[trigger] result_paths@[b]@,
        decreases result_paths@.len() - i,
    {
        if !several && !str_equals(result_paths[i].as_str(), result_paths[0].as_str()) {
            several = true;
            assert(result_paths@[i as int]@ != result_paths@[0]@);
        }
        i = i + 1;
    }
    if !several {
        assert forall|a: int, b: int|
            0 <= a < result_paths@.len() && 0 <= b < result_paths@.len() implies #[trigger] result_paths@[a]@
            == #[trigger] result_paths@[b]@ by {
            assert(result_paths@[a]@ == result_paths@[0]@);
            assert(result_paths@[b]@ == result_paths@[0]@);
        }
    }
    same && several && result_selection_revision == selection_revision && result_batch_draft_revision
        == batch_draft_revision
}

fn same_path_sets(a: &[String], b: &[String]) -> (r: bool)
    ensures
        r == (path_set(a@) == path_set(b@)),
{
    let mut i: usize = 0;
    while i < a.len()
        invariant
            i <= a@.len(),
            forall|j: int| 0 <= j < i ==> path_set(b@).contains(#[trigger] a@[j]@),
        decreases a@.len() - i,
    {
        if !contains_path(b, a[i].as_str()) {
            assert(path_set(a@).contains(a@[i as int]@));
            return false;
        }
        i = i + 1;
    }
    let mut k: usize = 0;
    while k < b.len()
        invariant
            k <= b@.len(),
            forall|j: int| 0 <= j < a@.len() ==> path_set(b@).contains(#[trigger] a@[j]@),
            forall|j: int| 0 <= j < k ==> path_set(a@).contains(#[trigger] b@[j]@),
        decreases b@.len() - k,
    {
        if !contains_path(a, b[k].as_str()) {
            assert(path_set(b@).contains(b@[k as int]@));
            return false;
        }
        k = k + 1;
    }
    assert(path_set(a@) =~= path_set(b@));
    true
}

impl BatchHistory {
    /// Whether undo is offered for the selection.
    pub fn can_undo(&self, selected_paths: &[String]) -> (r: bool)
        ensures
            r == self@.offers(path_set(selected_paths@), true),
    {
        let n = self.undo.len();
        n > 0 && covers_exactly(&self.undo[n - 1], selected_paths)
    }

    /// Whether redo is offered for the selection.
    pub fn can_redo(&self, selected_paths: &[String]) -> (r: bool)
        ensures
            r == self@.offers(path_set(selected_paths@), false),
    {
        let n = self.redo.len();
        n > 0 && covers_exactly(&self.redo[n - 1], selected_paths)
    }

    /// Records a save: its batch can be undone, and nothing can be redone.
    pub fn record_save(&mut self, batch: HistoryBatch)
        ensures
            final(self)@ == old(self)@.recorded(batch),
    {
        self.undo.push(batch);
        self.redo.clear();
    }

    /// Takes the batch that undo (or redo) restores for the selection, when its
    /// stack offers one.
    pub fn take(&mut self, selected_paths: &[String], is_undo: bool) -> (r: Option<HistoryBatch>)
        ensures
            r == old(self)@.taken(path_set(selected_paths@), is_undo),
            final(self)@ == old(self)@.after_take(path_set(selected_paths@), is_undo),
    {
        let offered = if is_undo {
            self.can_undo(selected_paths)
        } else {
            self.can_redo(selected_paths)
        };
        if !offered {
            return None;
        }
        if is_undo {
            self.undo.pop()
        } else {
            self.redo.pop()
        }
    }

    /// Puts back a batch whose restore failed, on the stack it came from.
    pub fn restore_failed(&mut self, batch: HistoryBatch, is_undo: bool)
        ensures
            final(self)@ == old(self)@.returned(batch, is_undo),
    {
        if is_undo {
            self.undo.push(batch);
        } else {
            self.redo.push(batch);
        }
    }

    /// Records a restore: the snapshots it took go on the other stack, so that
    /// the restore can itself be reverted.
    pub fn complete_restore(&mut self, current: HistoryBatch, is_undo: bool)
        ensures
            final(self)@ == old(self)@.completed(current, is_undo),
    {
        if is_undo {
            self.redo.push(current);
        } else {
            self.undo.push(current);
        }
    }
}

/// A batch whose restore failed goes back to where it was taken from: taking it
/// and then returning it leaves the history as it was.
pub proof fn law_failed_restore_returns_batch(history: HistoryView, selected: Set<Seq<char>>, is_undo: bool)
    requires
        history.offers(selected, is_undo),
    ensures
        history.after_take(selected, is_undo).returned(
            history.taken(selected, is_undo)->0,
            is_undo,
        ) == history,
{
    let stack = history.stack(is_undo);
    assert(stack.drop_last().push(stack.last()) =~= stack);
}

/// Undo and redo need the selection to match the batch exactly: when the stack
/// does not offer a batch for the selection, taking gives nothing and changes
/// nothing.
pub proof fn law_take_requires_exact_selection(history: HistoryView, selected: Set<Seq<char>>, is_undo: bool)
    requires
        !history.offers(selected, is_undo),
    ensures
        history.taken(selected, is_undo) is None,
        history.after_take(selected, is_undo) == history,
{
}

/// A save can be undone for exactly the paths it covers, and clears redo.
pub proof fn law_save_offers_undo_and_clears_redo(history: HistoryView, batch: HistoryBatch, selected: Set<Seq<char>>)
    ensures
        history.recorded(batch).offers(selected, true) <==> batch_paths(batch) == selected,
        !history.recorded(batch).offers(selected, false),
        history.recorded(batch).redo.len() == 0,
{
}

/// A complete undo moves the batch to redo: once undo takes the batch for the
/// selection and its restore records snapshots of the same paths, redo is offered
/// for that selection (and redo then undo likewise).
pub proof fn law_restore_moves_batch_to_other_stack(
    history: HistoryView,
    selected: Set<Seq<char>>,
    is_undo: bool,
    current: HistoryBatch,
)
    requires
        history.offers(selected, is_undo),
        batch_paths(current) == batch_paths(history.taken(selected, is_undo)->0),
    ensures
        history.after_take(selected, is_undo).completed(current, is_undo).offers(selected, !is_undo),
        history.after_take(selected, is_undo).completed(current, is_undo).stack(is_undo)
            == history.stack(is_undo).drop_last(),
{
}

} // verus!
