//! Undo/redo over whole-state snapshots, kept on two stacks.

use vstd::prelude::*;
use indexmap::IndexMap;
use crate::entities::{ParentTask, Task, TaskView};
use crate::table::table_entries;

verus! {

/// The state captured before an edit: the whole table, the open subtree and
/// its selected row.
pub struct AppSnapshot {
    pub tasks: IndexMap<u64, Task>,
    pub opened_task: ParentTask,
    pub selected_index: Option<usize>,
}

/// The mathematical value of a snapshot.
pub struct SnapshotView {
    pub tasks: Seq<(u64, TaskView)>,
    pub opened_task: ParentTask,
    pub selected_index: Option<usize>,
}

impl View for AppSnapshot {
    type V = SnapshotView;

    open spec fn view(&self) -> SnapshotView {
        SnapshotView {
            tasks: table_entries(self.tasks),
            opened_task: self.opened_task,
            selected_index: self.selected_index,
        }
    }
}

/// The views of a stack of snapshots, bottom first.
pub open spec fn stack_view(v: Seq<AppSnapshot>) -> Seq<SnapshotView> {
    v.map_values(|s: AppSnapshot| s@)
}

/// The mathematical value of a history: both stacks, bottom first.
pub struct HistoryView {
    pub undo: Seq<SnapshotView>,
    pub redo: Seq<SnapshotView>,
}

/// The history after recording `s`: pushed for undo; the redo stack emptied.
pub open spec fn saved(h: HistoryView, s: SnapshotView) -> HistoryView {
    HistoryView { undo: h.undo.push(s), redo: Seq::empty() }
}

/// Undo with `current` as the present state: the newest undo snapshot comes
/// back and `current` is kept for redo. `None` when there is nothing to undo.
pub open spec fn undone(h: HistoryView, current: SnapshotView) -> Option<(HistoryView, SnapshotView)> {
    if h.undo.len() == 0 {
        None
    } else {
        Some((HistoryView { undo: h.undo.drop_last(), redo: h.redo.push(current) }, h.undo.last()))
    }
}

/// Redo with `current` as the present state: the newest redo snapshot comes
/// back and `current` is kept for undo. `None` when there is nothing to redo.
pub open spec fn redone(h: HistoryView, current: SnapshotView) -> Option<(HistoryView, SnapshotView)> {
    if h.redo.len() == 0 {
        None
    } else {
        Some((HistoryView { undo: h.undo.push(current), redo: h.redo.drop_last() }, h.redo.last()))
    }
}

/// The undo and redo stacks.
pub struct AppHistory {
    pub undo_stack: Vec<AppSnapshot>,
    pub redo_stack: Vec<AppSnapshot>,
}

impl View for AppHistory {
    type V = HistoryView;

    open spec fn view(&self) -> HistoryView {
        HistoryView { undo: stack_view(self.undo_stack@), redo: stack_view(self.redo_stack@) }
    }
}

impl Default for AppHistory {
    fn default() -> (r: AppHistory)
        ensures
            r@.undo.len() == 0,
            r@.redo.len() == 0,
    {
        AppHistory { undo_stack: Vec::new(), redo_stack: Vec::new() }
    }
}

impl AppHistory {
    /// Records the state before an edit; whatever could be redone is dropped.
    pub fn save_snapshot(&mut self, snapshot: AppSnapshot)
        ensures
            final(self)@ == saved(old(self)@, snapshot@),
    {
        let ghost sv = snapshot@;
        self.undo_stack.push(snapshot);
        self.redo_stack.clear();
        proof {
            assert(stack_view(self.undo_stack@) =~= stack_view(old(self).undo_stack@).push(sv));
            assert(stack_view(self.redo_stack@) =~= Seq::<SnapshotView>::empty());
        }
    }

    /// Steps back: returns the newest undo snapshot and keeps
    /// `current_snapshot` for redo.
    pub fn undo(&mut self, current_snapshot: AppSnapshot) -> (r: Option<AppSnapshot>)
        ensures
            match undone(old(self)@, current_snapshot@) {
                Some((h, s)) => r is Some && r->Some_0@ == s && final(self)@ == h,
                None => r is None && final(self)@ == old(self)@,
            },
    {
        let ghost cv = current_snapshot@;
        let snapshot_to_restore = match self.undo_stack.pop() {
            Some(s) => s,
            None => return None,
        };
        self.redo_stack.push(current_snapshot);
        proof {
            assert(stack_view(self.undo_stack@) =~= stack_view(old(self).undo_stack@).drop_last());
            assert(stack_view(self.redo_stack@) =~= stack_view(old(self).redo_stack@).push(cv));
        }
        Some(snapshot_to_restore)
    }

    /// Steps forward again: returns the newest redo snapshot and keeps
    /// `current_snapshot` for undo.
    pub fn redo(&mut self, current_snapshot: AppSnapshot) -> (r: Option<AppSnapshot>)
        ensures
            match redone(old(self)@, current_snapshot@) {
                Some((h, s)) => r is Some && r->Some_0@ == s && final(self)@ == h,
                None => r is None && final(self)@ == old(self)@,
            },
    {
        let ghost cv = current_snapshot@;
        let snapshot_to_restore = match self.redo_stack.pop() {
            Some(s) => s,
            None => return None,
        };
        self.undo_stack.push(current_snapshot);
        proof {
            assert(stack_view(self.redo_stack@) =~= stack_view(old(self).redo_stack@).drop_last());
            assert(stack_view(self.undo_stack@) =~= stack_view(old(self).undo_stack@).push(cv));
        }
        Some(snapshot_to_restore)
    }
}

/// Undo right after recording `before` gives `before` back, and redo right
/// after that gives back the state that was current at the undo.
pub proof fn lemma_undo_then_redo(h: HistoryView, before: SnapshotView, after: SnapshotView, again: SnapshotView)
    ensures
        undone(saved(h, before), after) == Some(
            (HistoryView { undo: h.undo, redo: seq![after] }, before),
        ),
        redone(HistoryView { undo: h.undo, redo: seq![after] }, again) == Some(
            (HistoryView { undo: h.undo.push(again), redo: Seq::empty() }, after),
        ),
{
    assert(saved(h, before).undo.drop_last() == h.undo);
    assert(Seq::<SnapshotView>::empty().push(after) == seq![after]);
    assert(seq![after].drop_last() == Seq::<SnapshotView>::empty());
}

/// Recording a snapshot leaves nothing to redo, whatever could be redone
/// before.
pub proof fn lemma_save_discards_redo(h: HistoryView, s: SnapshotView, current: SnapshotView)
    ensures
        saved(h, s).redo.len() == 0,
        redone(saved(h, s), current) is None,
{
}

} // verus!
