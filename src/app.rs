//! The editing controller: composes the store, the view position and the
//! history behind the user's commands.

use vstd::prelude::*;
use crate::entities::{ParentTask, Task, TaskContent, TaskData, TaskView};
use crate::history::{redone, saved, undone, AppHistory, AppSnapshot, SnapshotView};
use crate::links::{
    children_consistent, id_base, inserted, key_index, lookup, opened_children, removed, replaced,
    swap_in, table_wf, views,
};
use crate::storage::AppStorage;
use crate::table::{has_key, table_clone};
use crate::view::position_in;

verus! {

/// What the controller is doing: browsing, or editing a text for a task.
#[derive(Debug, Clone, Copy, PartialEq, Eq, Structural)]
pub enum AppState {
    Normal,
    EditTask { task_id: u64 },
    InsertTask { parent: ParentTask },
}

/// `i` brought into the rows of a list of `len` items (row 0 when empty).
pub open spec fn clamped(i: int, len: int) -> int {
    if len <= 0 {
        0
    } else if i >= len {
        len - 1
    } else {
        i
    }
}

/// The snapshot that captures `st`.
pub open spec fn snapshot_of(st: AppStorage) -> SnapshotView {
    SnapshotView {
        tasks: st.entries(),
        opened_task: st.view.opened_task,
        selected_index: st.selected(),
    }
}

/// The remembered row of the open subtree is a row of its list (0 when empty).
pub open spec fn selection_in_range(st: AppStorage) -> bool {
    match st.selected() {
        Some(k) => k == clamped(k as int, st.opened_children_spec().len() as int),
        None => false,
    }
}

/// The row that `st` has for subtree `key`, brought into that subtree's rows.
pub open spec fn normalized_row(st: AppStorage, key: ParentTask) -> int {
    clamped(
        position_in(st.view.positions_in_opened_task@, key).unwrap_or(0) as int,
        opened_children(st.entries(), key).len() as int,
    )
}

/// `st` shows the state captured by `snap`, its row brought into range.
pub open spec fn restored(st: AppStorage, snap: SnapshotView) -> bool {
    &&& st.entries() == snap.tasks
    &&& st.view.opened_task == snap.opened_task
    &&& st.selected() == Some(
        clamped(
            snap.selected_index.unwrap_or(0) as int,
            opened_children(snap.tasks, snap.opened_task).len() as int,
        ) as usize,
    )
}

/// The task on the selected row of the open subtree, if that row exists.
pub open spec fn selected_row(st: AppStorage) -> Option<TaskView> {
    match st.selected() {
        Some(k) => if k < st.opened_children_spec().len() {
            Some(st.opened_children_spec()[k as int])
        } else {
            None
        },
        None => None,
    }
}

/// The subtree that going to the parent leads to: the open task's parent,
/// or the open subtree itself at the top level or when the open task is
/// missing.
pub open spec fn parent_target(st: AppStorage) -> ParentTask {
    match st.view.opened_task {
        ParentTask::Id(id) => match lookup(st.entries(), id) {
            Some(t) => t.parent,
            None => st.view.opened_task,
        },
        ParentTask::Root => ParentTask::Root,
    }
}

/// The row of `st`, with `None` read as row 0, is a row of its list.
pub open spec fn row_valid(st: AppStorage) -> bool {
    let k = st.selected().unwrap_or(0) as int;
    k == clamped(k, st.opened_children_spec().len() as int)
}

/// The whole application state.
pub struct App {
    pub storage: AppStorage,
    pub history: AppHistory,
    pub state: AppState,
}

/// What `undo` does to `a`, giving `b` and `r`.
pub open spec fn undo_effect(a: App, b: App, r: Option<()>) -> bool {
    &&& b.state == a.state
    &&& match undone(a.history@, snapshot_of(a.storage)) {
        Some((h, snap)) => r is Some && b.history@ == h && restored(b.storage, snap),
        None => r is None && b.storage == a.storage && b.history@ == a.history@,
    }
}

/// What `redo` does to `a`, giving `b` and `r`.
pub open spec fn redo_effect(a: App, b: App, r: Option<()>) -> bool {
    &&& b.state == a.state
    &&& match redone(a.history@, snapshot_of(a.storage)) {
        Some((h, snap)) => r is Some && b.history@ == h && restored(b.storage, snap),
        None => r is None && b.storage == a.storage && b.history@ == a.history@,
    }
}

impl App {
    /// The store is well formed, and so is every table kept for undo or redo.
    pub open spec fn wf(&self) -> bool {
        &&& self.storage.wf()
        &&& forall|i: int|
            0 <= i < self.history@.undo.len() ==> table_wf(#[trigger] self.history@.undo[i].tasks)
        &&& forall|i: int|
            0 <= i < self.history@.redo.len() ==> table_wf(#[trigger] self.history@.redo[i].tasks)
    }

    /// The links of the current table are consistent.
    pub open spec fn linked(&self) -> bool {
        children_consistent(self.storage.entries())
    }

    /// The rows of the open subtree.
    pub open spec fn rows(&self) -> Seq<TaskView> {
        self.storage.opened_children_spec()
    }

    pub fn new(storage: AppStorage) -> (r: App)
        requires
            storage.wf(),
        ensures
            r.wf(),
            r.storage == storage,
            r.history@.undo.len() == 0,
            r.history@.redo.len() == 0,
            r.state == AppState::Normal,
    {
        App { storage, history: AppHistory::default(), state: AppState::Normal }
    }

    /// The tasks of the open subtree, in display order.
    pub fn find_opened_sub_tasks(&self) -> (r: Vec<&Task>)
        requires
            self.wf(),
        ensures
            views(r@) == self.rows(),
    {
        self.storage.find_opened_sub_tasks()
    }

    /// The open task and its ancestors, closest first.
    pub fn find_parents_stack(&self) -> (r: Vec<&Task>)
        requires
            self.wf(),
        ensures
            views(r@) == self.storage.find_parents_stack_spec(),
    {
        self.storage.find_parents_stack()
    }

    /// The titles of the open task and its ancestors, closest first.
    pub fn find_parents_titles(&self) -> (r: Vec<&str>)
        requires
            self.wf(),
        ensures
            r@.len() == self.storage.find_parents_stack_spec().len(),
            forall|i: int|
                0 <= i < r@.len() ==> r@[i]@ == self.storage.find_parents_stack_spec()[i].title,
    {
        let stack = self.storage.find_parents_stack();
        let mut titles: Vec<&str> = Vec::new();
        let mut i: usize = 0;
        while i < stack.len()
            invariant
                views(stack@) == self.storage.find_parents_stack_spec(),
                i <= stack@.len(),
                titles@.len() == i,
                forall|j: int| 0 <= j < i ==> titles@[j]@ == views(stack@)[j].title,
            decreases stack@.len() - i,
        {
            titles.push(stack[i].title.as_str());
            i += 1;
        }
        titles
    }

    /// The task on the selected row of the open subtree, if that row exists.
    pub fn get_selected_task(&self) -> (r: Option<&Task>)
        requires
            self.wf(),
        ensures
            match self.storage.selected() {
                Some(k) => if k < self.rows().len() {
                    r is Some && r->Some_0@ == self.rows()[k as int]
                } else {
                    r is None
                },
                None => r is None,
            },
    {
        let selected_index = match self.storage.get_selected_position() {
            Some(k) => k,
            None => return None,
        };
        let tasks = self.storage.find_opened_sub_tasks();
        if selected_index < tasks.len() {
            proof {
                assert(views(tasks@)[selected_index as int] == tasks@[selected_index as int]@);
            }
            Some(tasks[selected_index])
        } else {
            None
        }
    }

    /// The remembered row of the open subtree; 0, now remembered, on a first
    /// visit.
    pub fn get_or_init_selected_position(&mut self) -> (r: usize)
        requires
            old(self).wf(),
        ensures
            final(self).wf(),
            final(self).storage.entries() == old(self).storage.entries(),
            final(self).storage.view.opened_task == old(self).storage.view.opened_task,
            final(self).history == old(self).history,
            final(self).state == old(self).state,
            final(self).storage.selected() == Some(r),
            r == old(self).storage.selected().unwrap_or(0),
    {
        match self.storage.get_selected_position() {
            Some(position) => position,
            None => {
                self.storage.set_selected_position(0);
                0
            },
        }
    }

    /// Selects row `index` (row 0 for `None`) of the open subtree, brought
    /// into its rows.
    pub fn move_selection_to(&mut self, index: Option<usize>)
        requires
            old(self).wf(),
        ensures
            final(self).wf(),
            final(self).storage.entries() == old(self).storage.entries(),
            final(self).storage.view.opened_task == old(self).storage.view.opened_task,
            final(self).history == old(self).history,
            final(self).state == old(self).state,
            final(self).storage.selected() == Some(
                clamped(index.unwrap_or(0) as int, old(self).rows().len() as int) as usize,
            ),
            selection_in_range(final(self).storage),
    {
        let n = self.find_opened_sub_tasks().len();
        let max_index = if n == 0 { 0 } else { n - 1 };
        let wanted = match index {
            Some(i) => i,
            None => 0,
        };
        let new_index = if wanted > max_index { max_index } else { wanted };
        self.storage.set_selected_position(new_index);
    }

    pub fn move_selection_to_top(&mut self)
        requires
            old(self).wf(),
        ensures
            final(self).wf(),
            final(self).storage.entries() == old(self).storage.entries(),
            final(self).storage.view.opened_task == old(self).storage.view.opened_task,
            final(self).history == old(self).history,
            final(self).state == old(self).state,
            final(self).storage.selected() == Some(0usize),
            selection_in_range(final(self).storage),
    {
        self.move_selection_to(Some(0));
    }

    pub fn move_selection_to_bottom(&mut self)
        requires
            old(self).wf(),
        ensures
            final(self).wf(),
            final(self).storage.entries() == old(self).storage.entries(),
            final(self).storage.view.opened_task == old(self).storage.view.opened_task,
            final(self).history == old(self).history,
            final(self).state == old(self).state,
            final(self).storage.selected() == Some(
                clamped(old(self).rows().len() - 1, old(self).rows().len() as int) as usize,
            ),
            selection_in_range(final(self).storage),
    {
        let n = self.find_opened_sub_tasks().len();
        let last_position = if n == 0 { None } else { Some(n - 1) };
        self.move_selection_to(last_position);
    }

    pub fn move_selection_up(&mut self)
        requires
            old(self).wf(),
        ensures
            final(self).wf(),
            final(self).storage.entries() == old(self).storage.entries(),
            final(self).storage.view.opened_task == old(self).storage.view.opened_task,
            final(self).history == old(self).history,
            final(self).state == old(self).state,
            final(self).storage.selected() == Some(
                clamped(
                    if old(self).storage.selected().unwrap_or(0) == 0 {
                        0
                    } else {
                        old(self).storage.selected().unwrap_or(0) - 1
                    },
                    old(self).rows().len() as int,
                ) as usize,
            ),
            selection_in_range(final(self).storage),
    {
        let current = match self.storage.get_selected_position() {
            Some(k) => k,
            None => 0,
        };
        let selected_position = if current == 0 { 0 } else { current - 1 };
        self.move_selection_to(Some(selected_position));
    }

    pub fn move_selection_down(&mut self)
        requires
            old(self).wf(),
        ensures
            final(self).wf(),
            final(self).storage.entries() == old(self).storage.entries(),
            final(self).storage.view.opened_task == old(self).storage.view.opened_task,
            final(self).history == old(self).history,
            final(self).state == old(self).state,
            final(self).storage.selected() == Some(
                clamped(
                    old(self).storage.selected().unwrap_or(0) + 1,
                    old(self).rows().len() as int,
                ) as usize,
            ),
            selection_in_range(final(self).storage),
    {
        let n = self.find_opened_sub_tasks().len();
        let max_position = if n == 0 { 0 } else { n - 1 };
        let current = match self.storage.get_selected_position() {
            Some(k) => k,
            None => 0,
        };
        let next = if current < usize::MAX { current + 1 } else { current };
        let new_position = if next > max_position { max_position } else { next };
        self.move_selection_to(Some(new_position));
    }

    /// Captures the table, the open subtree and its selected row.
    pub fn create_snapshot(&self) -> (r: AppSnapshot)
        ensures
            r@ == snapshot_of(self.storage),
    {
        AppSnapshot {
            tasks: table_clone(&self.storage.tasks),
            opened_task: self.storage.get_opened_task(),
            selected_index: self.storage.get_selected_position(),
        }
    }

    /// Records the present state for undo.
    pub fn save_snapshot(&mut self)
        requires
            old(self).wf(),
        ensures
            final(self).wf(),
            final(self).storage == old(self).storage,
            final(self).state == old(self).state,
            final(self).history@ == saved(old(self).history@, snapshot_of(old(self).storage)),
    {
        let snapshot = self.create_snapshot();
        self.history.save_snapshot(snapshot);
    }

    /// Puts back the state captured by `snapshot`; its row is brought into
    /// the rows of the restored subtree.
    pub fn restore_snapshot(&mut self, snapshot: AppSnapshot)
        requires
            old(self).wf(),
            table_wf(snapshot@.tasks),
        ensures
            final(self).wf(),
            restored(final(self).storage, snapshot@),
            final(self).history == old(self).history,
            final(self).state == old(self).state,
    {
        self.storage.tasks = snapshot.tasks;
        self.storage.set_opened_task(snapshot.opened_task);
        self.move_selection_to(snapshot.selected_index);
    }

    /// Goes back to the state before the last recorded edit; the present
    /// state is kept for redo. `None`, changing nothing, when there is none.
    pub fn undo(&mut self) -> (r: Option<()>)
        requires
            old(self).wf(),
        ensures
            final(self).wf(),
            undo_effect(*old(self), *final(self), r),
    {
        let current_snapshot = self.create_snapshot();
        let snapshot_to_restore = match self.history.undo(current_snapshot) {
            Some(s) => s,
            None => return None,
        };
        proof {
            assert(old(self).history@.undo.last() == old(self).history@.undo[old(self).history@.undo.len() - 1]);
            assert forall|i: int| 0 <= i < self.history@.undo.len() implies table_wf(
                #[trigger] self.history@.undo[i].tasks,
            ) by {
                assert(self.history@.undo[i] == old(self).history@.undo[i]);
            }
            assert forall|i: int| 0 <= i < self.history@.redo.len() implies table_wf(
                #[trigger] self.history@.redo[i].tasks,
            ) by {
                if i < old(self).history@.redo.len() {
                    assert(self.history@.redo[i] == old(self).history@.redo[i]);
                }
            }
        }
        self.restore_snapshot(snapshot_to_restore);
        Some(())
    }

    /// Returns to the state that the last undo left; the present state is
    /// kept for undo. `None`, changing nothing, when there is none.
    pub fn redo(&mut self) -> (r: Option<()>)
        requires
            old(self).wf(),
        ensures
            final(self).wf(),
            redo_effect(*old(self), *final(self), r),
    {
        let current_snapshot = self.create_snapshot();
        let snapshot_to_restore = match self.history.redo(current_snapshot) {
            Some(s) => s,
            None => return None,
        };
        proof {
            assert(old(self).history@.redo.last() == old(self).history@.redo[old(self).history@.redo.len() - 1]);
            assert forall|i: int| 0 <= i < self.history@.redo.len() implies table_wf(
                #[trigger] self.history@.redo[i].tasks,
            ) by {
                assert(self.history@.redo[i] == old(self).history@.redo[i]);
            }
            assert forall|i: int| 0 <= i < self.history@.undo.len() implies table_wf(
                #[trigger] self.history@.undo[i].tasks,
            ) by {
                if i < old(self).history@.undo.len() {
                    assert(self.history@.undo[i] == old(self).history@.undo[i]);
                }
            }
        }
        self.restore_snapshot(snapshot_to_restore);
        Some(())
    }

    /// Deletes the task on the selected row, after recording the state, and
    /// keeps the row brought into the shorter list. Gives the deleted id;
    /// `None`, changing nothing, when no task is selected.
    pub fn delete_selected_task(&mut self) -> (r: Option<u64>)
        requires
            old(self).wf(),
        ensures
            final(self).wf(),
            final(self).state == old(self).state,
            old(self).linked() ==> final(self).linked(),
            match selected_row(old(self).storage) {
                Some(t) => r == Some(t.id) && final(self).history@ == saved(
                    old(self).history@,
                    snapshot_of(old(self).storage),
                ) && final(self).storage.entries() == removed(old(self).storage.entries(), t.id)
                    && final(self).storage.view.opened_task == old(self).storage.view.opened_task
                    && final(self).storage.selected() == Some(
                    clamped(
                        old(self).storage.selected().unwrap_or(0) as int,
                        final(self).rows().len() as int,
                    ) as usize,
                ),
                None => r is None && final(self).storage == old(self).storage
                    && final(self).history == old(self).history,
            },
    {
        let current_position = match self.storage.get_selected_position() {
            Some(k) => k,
            None => return None,
        };
        let id_to_delete = match self.get_selected_task() {
            Some(task) => task.id,
            None => return None,
        };
        proof {
            crate::links::lemma_rows_present(self.storage.entries(), self.storage.view.opened_task);
            assert(lookup(self.storage.entries(), id_to_delete) is Some);
        }
        self.save_snapshot();
        self.storage.remove_task(id_to_delete);
        self.move_selection_to(Some(current_position));
        Some(id_to_delete)
    }

    /// Trades the selected task with the one above it, after recording the
    /// state, and follows it with the selection. `None` when no task is
    /// selected; nothing changes on the first row.
    pub fn swap_up(&mut self) -> (r: Option<()>)
        requires
            old(self).wf(),
        ensures
            final(self).wf(),
            final(self).state == old(self).state,
            old(self).linked() ==> final(self).linked(),
            r is Some <==> selected_row(old(self).storage) is Some,
            ({
                let rows = old(self).rows();
                let f = old(self).storage.selected().unwrap_or(0) as int;
                if r is Some && f > 0 && rows[f].id != rows[f - 1].id {
                    &&& final(self).history@ == saved(old(self).history@, snapshot_of(old(self).storage))
                    &&& final(self).storage.entries() == swap_in(
                        old(self).storage.entries(),
                        old(self).storage.view.opened_task,
                        rows[f].id,
                        rows[f - 1].id,
                    ).unwrap_or(old(self).storage.entries())
                    &&& final(self).storage.view.opened_task == old(self).storage.view.opened_task
                    &&& final(self).storage.selected() == Some(
                        clamped(f - 1, final(self).rows().len() as int) as usize,
                    )
                } else {
                    final(self).storage == old(self).storage && final(self).history == old(self).history
                }
            }),
    {
        let tasks = self.find_opened_sub_tasks();
        let from_index = match self.storage.get_selected_position() {
            Some(k) => k,
            None => return None,
        };
        let to_index = if from_index == 0 { 0 } else { from_index - 1 };
        if from_index >= tasks.len() {
            return None;
        }
        let from_id = tasks[from_index].id;
        let to_id = tasks[to_index].id;
        proof {
            assert(views(tasks@)[from_index as int] == tasks@[from_index as int]@);
            assert(views(tasks@)[to_index as int] == tasks@[to_index as int]@);
        }
        if from_id != to_id {
            self.save_snapshot();
            self.storage.swap_current_sub_tasks(from_id, to_id);
            self.move_selection_up();
        }
        Some(())
    }

    /// Trades the selected task with the one below it, after recording the
    /// state, and follows it with the selection. `None` when no task is
    /// selected; nothing changes on the last row.
    pub fn swap_down(&mut self) -> (r: Option<()>)
        requires
            old(self).wf(),
        ensures
            final(self).wf(),
            final(self).state == old(self).state,
            old(self).linked() ==> final(self).linked(),
            r is Some <==> selected_row(old(self).storage) is Some,
            ({
                let rows = old(self).rows();
                let f = old(self).storage.selected().unwrap_or(0) as int;
                if r is Some && f + 1 < rows.len() && rows[f].id != rows[f + 1].id {
                    &&& final(self).history@ == saved(old(self).history@, snapshot_of(old(self).storage))
                    &&& final(self).storage.entries() == swap_in(
                        old(self).storage.entries(),
                        old(self).storage.view.opened_task,
                        rows[f].id,
                        rows[f + 1].id,
                    ).unwrap_or(old(self).storage.entries())
                    &&& final(self).storage.view.opened_task == old(self).storage.view.opened_task
                    &&& final(self).storage.selected() == Some(
                        clamped(f + 1, final(self).rows().len() as int) as usize,
                    )
                } else {
                    final(self).storage == old(self).storage && final(self).history == old(self).history
                }
            }),
    {
        let tasks = self.find_opened_sub_tasks();
        let max_index = if tasks.len() == 0 { 0 } else { tasks.len() - 1 };
        let from_index = match self.storage.get_selected_position() {
            Some(k) => k,
            None => return None,
        };
        if from_index >= tasks.len() {
            return None;
        }
        let to_index = if from_index + 1 > max_index { max_index } else { from_index + 1 };
        let from_id = tasks[from_index].id;
        let to_id = tasks[to_index].id;
        proof {
            assert(views(tasks@)[from_index as int] == tasks@[from_index as int]@);
            assert(views(tasks@)[to_index as int] == tasks@[to_index as int]@);
        }
        if from_id != to_id {
            self.save_snapshot();
            self.storage.swap_current_sub_tasks(from_id, to_id);
            self.move_selection_down();
        }
        Some(())
    }

    /// Opens the subtree of the selected task (staying put when none is
    /// selected); the row remembered there is brought into its rows.
    pub fn open_selected_task(&mut self)
        requires
            old(self).wf(),
        ensures
            final(self).wf(),
            final(self).storage.entries() == old(self).storage.entries(),
            final(self).history == old(self).history,
            final(self).state == old(self).state,
            final(self).storage.view.opened_task == match selected_row(old(self).storage) {
                Some(t) => ParentTask::Id(t.id),
                None => old(self).storage.view.opened_task,
            },
            final(self).storage.selected() == Some(
                normalized_row(old(self).storage, final(self).storage.view.opened_task) as usize,
            ),
            selection_in_range(final(self).storage),
    {
        let target = match self.get_selected_task() {
            Some(task) => Some(ParentTask::Id(task.id)),
            None => None,
        };
        if let Some(new_parent) = target {
            self.storage.set_opened_task(new_parent);
        }
        let remembered = self.storage.get_selected_position();
        self.move_selection_to(remembered);
    }

    /// Opens the parent of the open task; `None`, staying put, at the top
    /// level or when the open task is missing. Either way the row of the
    /// subtree now open is brought into its rows.
    pub fn get_back_to_parent(&mut self) -> (r: Option<()>)
        requires
            old(self).wf(),
        ensures
            final(self).wf(),
            final(self).storage.entries() == old(self).storage.entries(),
            final(self).history == old(self).history,
            final(self).state == old(self).state,
            r is Some <==> (old(self).storage.view.opened_task is Id && has_key(
                old(self).storage.entries(),
                old(self).storage.view.opened_task->Id_0,
            )),
            final(self).storage.view.opened_task == parent_target(old(self).storage),
            final(self).storage.selected() == Some(
                normalized_row(old(self).storage, parent_target(old(self).storage)) as usize,
            ),
            selection_in_range(final(self).storage),
    {
        let r = match self.storage.get_opened_task() {
            ParentTask::Id(opened_task_id) => match self.storage.get_task(opened_task_id) {
                Some(current_opened_task) => Some(current_opened_task.parent),
                None => None,
            },
            ParentTask::Root => None,
        };
        if let Some(new_parent_task) = r {
            self.storage.set_opened_task(new_parent_task);
        }
        let remembered = self.storage.get_selected_position();
        self.move_selection_to(remembered);
        match r {
            Some(_) => Some(()),
            None => None,
        }
    }

    /// Flips the done flag of the selected task, after recording the state.
    /// `None`, changing nothing, when no task is selected.
    pub fn update_done_state(&mut self) -> (r: Option<()>)
        requires
            old(self).wf(),
        ensures
            final(self).wf(),
            final(self).state == old(self).state,
            final(self).storage.view == old(self).storage.view,
            old(self).linked() ==> final(self).linked(),
            match selected_row(old(self).storage) {
                Some(t) => r is Some && final(self).history@ == saved(
                    old(self).history@,
                    snapshot_of(old(self).storage),
                ) && final(self).storage.entries() == replaced(
                    old(self).storage.entries(),
                    key_index(old(self).storage.entries(), t.id),
                    TaskView { done: !t.done, ..t },
                ),
                None => r is None && final(self).storage == old(self).storage
                    && final(self).history == old(self).history,
            },
    {
        let (task_id, done) = match self.get_selected_task() {
            Some(task) => (task.id, task.done),
            None => return None,
        };
        proof {
            crate::links::lemma_rows_present(self.storage.entries(), self.storage.view.opened_task);
        }
        self.save_snapshot();
        self.storage.update_task_state(task_id, !done);
        Some(())
    }

    /// Starts typing a new task for the open subtree.
    pub fn init_insert_mode_to_insert_new_task(&mut self) -> (r: Option<()>)
        ensures
            r is Some,
            final(self).state == (AppState::InsertTask { parent: old(self).storage.view.opened_task }),
            final(self).storage == old(self).storage,
            final(self).history == old(self).history,
    {
        let parent = self.storage.get_opened_task();
        self.state = AppState::InsertTask { parent };
        Some(())
    }

    /// Starts editing the title of the selected task; `None`, changing
    /// nothing, when no task is selected.
    pub fn init_insert_mode_to_edit_task_title(&mut self) -> (r: Option<()>)
        requires
            old(self).wf(),
        ensures
            final(self).storage == old(self).storage,
            final(self).history == old(self).history,
            match selected_row(old(self).storage) {
                Some(t) => r is Some && final(self).state == (AppState::EditTask { task_id: t.id }),
                None => r is None && final(self).state == old(self).state,
            },
    {
        let task_id = match self.get_selected_task() {
            Some(task) => task.id,
            None => return None,
        };
        self.state = AppState::EditTask { task_id };
        Some(())
    }

    /// Leaves the text prompt without applying it.
    pub fn cancel_insert_mode(&mut self)
        ensures
            final(self).state == AppState::Normal,
            final(self).storage == old(self).storage,
            final(self).history == old(self).history,
    {
        self.state = AppState::Normal;
    }

    /// Ends editing a title with the text `content`: a non-empty text becomes
    /// the task's title, after recording the state; an empty one changes
    /// nothing. Outside title editing nothing happens.
    pub fn close_insert_mode_updating_task_title(&mut self, content: String)
        requires
            old(self).wf(),
        ensures
            final(self).wf(),
            old(self).linked() ==> final(self).linked(),
            match old(self).state {
                AppState::EditTask { task_id } => {
                    &&& final(self).state == AppState::Normal
                    &&& content@.len() == 0 ==> final(self).storage == old(self).storage
                        && final(self).history == old(self).history
                    &&& content@.len() > 0 ==> final(self).history@ == saved(
                        old(self).history@,
                        snapshot_of(old(self).storage),
                    ) && final(self).storage.view == old(self).storage.view
                        && final(self).storage.entries() == match lookup(
                        old(self).storage.entries(),
                        task_id,
                    ) {
                        Some(t) => replaced(
                            old(self).storage.entries(),
                            key_index(old(self).storage.entries(), task_id),
                            TaskView { title: content@, ..t },
                        ),
                        None => old(self).storage.entries(),
                    }
                },
                _ => final(self).state == old(self).state && final(self).storage == old(self).storage
                    && final(self).history == old(self).history,
            },
    {
        if let AppState::EditTask { task_id } = self.state {
            self.state = AppState::Normal;
            if content.as_str().is_empty() {
                return;
            }
            self.save_snapshot();
            self.storage.update_task_title(task_id, content);
        }
    }

    /// Ends typing a new task with the text `content`: a non-empty text
    /// becomes a new task under the prompt's parent, after recording the
    /// state, and the last row is selected; an empty one changes nothing.
    /// Outside task insertion nothing happens.
    pub fn close_insert_mode_inserting_new_task(&mut self, content: String)
        requires
            old(self).wf(),
        ensures
            final(self).wf(),
            old(self).linked() ==> final(self).linked(),
            match old(self).state {
                AppState::InsertTask { parent } => {
                    let s = old(self).storage.entries();
                    let data = TaskContent { title: content@, children: Seq::empty(), done: false };
                    &&& final(self).state == AppState::Normal
                    &&& content@.len() == 0 ==> final(self).storage == old(self).storage
                        && final(self).history == old(self).history
                    &&& content@.len() > 0 ==> final(self).history@ == saved(
                        old(self).history@,
                        snapshot_of(old(self).storage),
                    ) && final(self).storage.view.opened_task == old(self).storage.view.opened_task
                        && final(self).storage.entries() == (if id_base(s, parent) < u64::MAX {
                        inserted(s, parent, (id_base(s, parent) + 1) as u64, data)
                    } else {
                        s
                    }) && final(self).storage.selected() == Some(
                        clamped(final(self).rows().len() - 1, final(self).rows().len() as int) as usize,
                    )
                },
                _ => final(self).state == old(self).state && final(self).storage == old(self).storage
                    && final(self).history == old(self).history,
            },
    {
        if let AppState::InsertTask { parent } = self.state {
            self.state = AppState::Normal;
            if content.as_str().is_empty() {
                return;
            }
            self.save_snapshot();
            let task_data = TaskData { title: content, children: Vec::new(), done: false };
            self.storage.insert_task(parent, task_data);
            self.move_selection_to_bottom();
        }
    }
}

/// Undo after recording a state and editing brings back that state's
/// table, open subtree and row; redo after that brings back the edited
/// state's. `before` is the state recorded, `edited` any state reached from
/// it by recording it and then changing the store alone, `back` the state
/// that undo gives, and `forth` the state that redo then gives.
pub proof fn lemma_undo_redo_restore(
    before: App,
    edited: App,
    back: App,
    r_undo: Option<()>,
    forth: App,
    r_redo: Option<()>,
)
    requires
        edited.history@ == saved(before.history@, snapshot_of(before.storage)),
        undo_effect(edited, back, r_undo),
        redo_effect(back, forth, r_redo),
        row_valid(before.storage),
        row_valid(edited.storage),
    ensures
        r_undo is Some,
        back.storage.entries() == before.storage.entries(),
        back.storage.view.opened_task == before.storage.view.opened_task,
        back.storage.selected() == Some(before.storage.selected().unwrap_or(0)),
        r_redo is Some,
        forth.storage.entries() == edited.storage.entries(),
        forth.storage.view.opened_task == edited.storage.view.opened_task,
        forth.storage.selected() == Some(edited.storage.selected().unwrap_or(0)),
{
    crate::history::lemma_undo_then_redo(
        before.history@,
        snapshot_of(before.storage),
        snapshot_of(edited.storage),
        snapshot_of(back.storage),
    );
}

/// Once a state is recorded, there is nothing to redo, whatever undo had
/// left before: `recorded` is any state reached by recording and then
/// changing the store alone, `after` the state that redo gives.
pub proof fn lemma_record_discards_redo(before: App, recorded: App, after: App, r: Option<()>)
    requires
        recorded.history@ == saved(before.history@, snapshot_of(before.storage)),
        redo_effect(recorded, after, r),
    ensures
        r is None,
        after.storage == recorded.storage,
        after.history@ == recorded.history@,
{
    crate::history::lemma_save_discards_redo(
        before.history@,
        snapshot_of(before.storage),
        snapshot_of(recorded.storage),
    );
}

} // verus!
