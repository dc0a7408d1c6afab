//! The task store: a flat table of tasks keyed by id, kept in insertion order,
//! with each task listing its children and pointing back at its parent.

use vstd::prelude::*;
use indexmap::IndexMap;
use crate::entities::{empty_task_view, ParentTask, Task, TaskData, TaskView};
use crate::table::{
    has_key, keys_unique, table_entries, table_get_index, table_index_of, table_insert, table_len,
    table_new, table_shift_insert, table_shift_remove, table_swap_indices,
};
use crate::links::{
    ancestors, attach, children_consistent, detached, detached_from_parent, id_base, inserted, is_first, key_index, lemma_added_child, lemma_first_index, lemma_inserted, lemma_inserted_top, lemma_lookup_at, lemma_max_key, lemma_removed, lemma_replaced, lemma_replaced_links, lemma_roots_prefix, lemma_swapped_table, lookup, max_key, new_task_view, opened_children, other_id, removed, replaced, resolve, roots_of, sub_tasks_of, swap_in, swapped, table_wf, views, with_parent,
};
use crate::view::ViewStorage;

verus! {

broadcast use vstd::seq_lib::group_filter_ensures;

/// The first position of `x` in `v`, if any.
fn position_of(v: &Vec<u64>, x: u64) -> (r: Option<usize>)
    ensures
        match r {
            Some(i) => is_first(v@, x, i as int),
            None => !v@.contains(x),
        },
{
    let mut i: usize = 0;
    while i < v.len()
        invariant
            i <= v@.len(),
            forall|j: int| 0 <= j < i ==> v@[j] != x,
        decreases v@.len() - i,
    {
        if v[i] == x {
            return Some(i);
        }
        i += 1;
    }
    None
}

/// The task store together with the view position.
#[derive(Debug)]
pub struct AppStorage {
    pub view: ViewStorage,
    pub tasks: IndexMap<u64, Task>,
}

impl AppStorage {
    /// The table's pairs, in order.
    pub open spec fn entries(&self) -> Seq<(u64, TaskView)> {
        table_entries(self.tasks)
    }

    pub open spec fn wf(&self) -> bool {
        table_wf(self.entries())
    }

    /// The row remembered for the open subtree.
    pub open spec fn selected(&self) -> Option<usize> {
        self.view.selected_spec()
    }

    /// The open task and its ancestors, as `find_parents_stack` gives them.
    pub open spec fn find_parents_stack_spec(&self) -> Seq<TaskView> {
        match self.view.opened_task {
            ParentTask::Root => Seq::<TaskView>::empty(),
            ParentTask::Id(id) => ancestors(self.entries(), id, self.entries().len()),
        }
    }

    /// The tasks listed in the open subtree.
    pub open spec fn opened_children_spec(&self) -> Seq<TaskView> {
        opened_children(self.entries(), self.view.opened_task)
    }

    /// An empty store with the top level open.
    pub fn new() -> (r: AppStorage)
        ensures
            r.wf(),
            children_consistent(r.entries()),
            r.entries() == Seq::<(u64, TaskView)>::empty(),
            r.view.opened_task == ParentTask::Root,
            r.view.positions_in_opened_task@ == Seq::<(ParentTask, usize)>::empty(),
    {
        AppStorage { view: ViewStorage::default(), tasks: table_new() }
    }

    pub fn get_task(&self, task_id: u64) -> (r: Option<&Task>)
        requires
            self.wf(),
        ensures
            match r {
                Some(t) => lookup(self.entries(), task_id) == Some(t@),
                None => lookup(self.entries(), task_id) is None,
            },
    {
        match table_index_of(&self.tasks, task_id) {
            None => None,
            Some(i) => {
                proof {
                    lemma_lookup_at(self.entries(), i as int);
                }
                match table_get_index(&self.tasks, i) {
                    Some(p) => Some(p.1),
                    None => None,
                }
            },
        }
    }

    /// The top-level tasks, in table order.
    pub fn find_root_tasks(&self) -> (r: Vec<&Task>)
        ensures
            views(r@) == roots_of(self.entries()),
    {
        let ghost s = self.entries();
        let n = table_len(&self.tasks);
        let mut out: Vec<&Task> = Vec::new();
        let mut i: usize = 0;
        while i < n
            invariant
                n == s.len(),
                s == self.entries(),
                i <= n,
                views(out@) == roots_of(s.subrange(0, i as int)),
            decreases n - i,
        {
            proof {
                assert(s.subrange(0, i + 1).drop_last() == s.subrange(0, i as int));
            }
            match table_get_index(&self.tasks, i) {
                Some(p) => {
                    if p.1.parent == ParentTask::Root {
                        let ghost prev = out@;
                        out.push(p.1);
                        proof {
                            assert(views(out@) =~= views(prev).push(p.1@));
                        }
                    }
                },
                None => {},
            }
            i += 1;
        }
        proof {
            assert(s.subrange(0, n as int) == s);
        }
        out
    }

    /// The children of task `parent_id` that are in the table, in display
    /// order; nothing when the task is missing.
    pub fn find_sub_tasks(&self, parent_id: u64) -> (r: Vec<&Task>)
        requires
            self.wf(),
        ensures
            views(r@) == sub_tasks_of(self.entries(), parent_id),
    {
        let ghost s = self.entries();
        let mut out: Vec<&Task> = Vec::new();
        match self.get_task(parent_id) {
            None => {},
            Some(parent_task) => {
                let ids = &parent_task.children;
                let mut i: usize = 0;
                while i < ids.len()
                    invariant
                        s == self.entries(),
                        self.wf(),
                        i <= ids@.len(),
                        views(out@) == resolve(s, ids@.subrange(0, i as int)),
                    decreases ids@.len() - i,
                {
                    proof {
                        assert(ids@.subrange(0, i + 1).drop_last() == ids@.subrange(0, i as int));
                    }
                    match self.get_task(ids[i]) {
                        Some(t) => {
                            let ghost prev = out@;
                            out.push(t);
                            proof {
                                assert(views(out@) =~= views(prev).push(t@));
                            }
                        },
                        None => {},
                    }
                    i += 1;
                }
                proof {
                    assert(ids@.subrange(0, ids@.len() as int) == ids@);
                }
            },
        }
        out
    }

    /// The tasks listed in the open subtree.
    pub fn find_opened_sub_tasks(&self) -> (r: Vec<&Task>)
        requires
            self.wf(),
        ensures
            views(r@) == self.opened_children_spec(),
    {
        match self.view.get_opened_task() {
            ParentTask::Root => self.find_root_tasks(),
            ParentTask::Id(parent_id) => self.find_sub_tasks(parent_id),
        }
    }

    /// The open task and its ancestors, closest first; empty at the top
    /// level. The walk follows at most as many links as there are tasks.
    pub fn find_parents_stack(&self) -> (r: Vec<&Task>)
        requires
            self.wf(),
        ensures
            views(r@) == match self.view.opened_task {
                ParentTask::Root => Seq::<TaskView>::empty(),
                ParentTask::Id(id) => ancestors(self.entries(), id, self.entries().len()),
            },
    {
        let ghost s = self.entries();
        let mut parents: Vec<&Task> = Vec::new();
        let mut current_id = match self.view.get_opened_task() {
            ParentTask::Id(id) => id,
            ParentTask::Root => return parents,
        };
        let ghost id0 = current_id;
        let ghost full = ancestors(s, current_id, s.len());
        let n = table_len(&self.tasks);
        let mut steps: usize = 0;
        while steps < n
            invariant
                s == self.entries(),
                self.wf(),
                n == s.len(),
                steps <= n,
                self.view.opened_task == ParentTask::Id(id0),
                full == ancestors(s, id0, s.len()),
                views(parents@) + ancestors(s, current_id, (n - steps) as nat) == full,
            decreases n - steps,
        {
            match self.get_task(current_id) {
                None => {
                    proof {
                        assert(views(parents@) + Seq::<TaskView>::empty() =~= views(parents@));
                    }
                    return parents;
                },
                Some(task) => {
                    let ghost prev = parents@;
                    parents.push(task);
                    proof {
                        assert(views(parents@) =~= views(prev).push(task@));
                    }
                    match task.parent {
                        ParentTask::Id(parent_id) => {
                            proof {
                                assert(views(parents@) + ancestors(s, parent_id, (n - steps - 1) as nat)
                                    =~= views(prev) + ancestors(s, current_id, (n - steps) as nat));
                            }
                            current_id = parent_id;
                        },
                        ParentTask::Root => {
                            proof {
                                assert(views(parents@) =~= views(prev) + ancestors(s, current_id, (n - steps) as nat));
                            }
                            return parents;
                        },
                    }
                },
            }
            steps += 1;
        }
        proof {
            assert(views(parents@) + Seq::<TaskView>::empty() =~= views(parents@));
        }
        parents
    }

    pub fn get_opened_task(&self) -> (r: ParentTask)
        ensures
            r == self.view.opened_task,
    {
        self.view.get_opened_task()
    }

    /// Opens another subtree; tasks and selection memory are kept.
    pub fn set_opened_task(&mut self, opened_task: ParentTask)
        ensures
            final(self).view.opened_task == opened_task,
            final(self).view.positions_in_opened_task == old(self).view.positions_in_opened_task,
            final(self).tasks == old(self).tasks,
    {
        self.view.set_opened_task(opened_task);
    }

    pub fn get_selected_position(&self) -> (r: Option<usize>)
        ensures
            r == self.selected(),
    {
        self.view.get_selected_position()
    }

    /// Remembers `index` as the row of the open subtree.
    pub fn set_selected_position(&mut self, index: usize)
        ensures
            final(self).selected() == Some(index),
            final(self).view.opened_task == old(self).view.opened_task,
            final(self).view.positions_in_opened_task@ == old(
                self,
            ).view.positions_in_opened_task@.filter(
                crate::view::other_than(old(self).view.opened_task),
            ).push((old(self).view.opened_task, index)),
            final(self).tasks == old(self).tasks,
    {
        self.view.set_selected_position(index);
    }

    /// The next free id: one more than the largest id in the table (1 for an
    /// empty table), unless the largest is already `u64::MAX`.
    fn next_id(&self) -> (r: Option<u64>)
        ensures
            r == if max_key(self.entries()) < u64::MAX {
                Some((max_key(self.entries()) + 1) as u64)
            } else {
                None::<u64>
            },
    {
        let ghost s = self.entries();
        let n = table_len(&self.tasks);
        let mut biggest: u64 = 0;
        let mut i: usize = 0;
        while i < n
            invariant
                n == s.len(),
                s == self.entries(),
                i <= n,
                biggest == max_key(s.subrange(0, i as int)),
            decreases n - i,
        {
            proof {
                assert(s.subrange(0, i + 1).drop_last() == s.subrange(0, i as int));
            }
            match table_get_index(&self.tasks, i) {
                Some(p) => {
                    if *p.0 > biggest {
                        biggest = *p.0;
                    }
                },
                None => {},
            }
            i += 1;
        }
        proof {
            assert(s.subrange(0, n as int) == s);
        }
        if biggest < u64::MAX {
            Some(biggest + 1)
        } else {
            None
        }
    }

    /// A new task under `parent` with content from `data` and the next free id.
    fn create_task(&self, parent: ParentTask, task_data: TaskData) -> (r: Option<Task>)
        ensures
            match r {
                Some(t) => max_key(self.entries()) < u64::MAX && t@ == new_task_view(
                    (max_key(self.entries()) + 1) as u64,
                    parent,
                    task_data@,
                ),
                None => max_key(self.entries()) == u64::MAX,
            },
    {
        match self.next_id() {
            Some(id) => Some(Task::empty(id, parent).with_data(task_data)),
            None => None,
        }
    }

    /// Takes the task `task_id` out of its slot, leaving an empty task with
    /// the same id there.
    fn take_task(&mut self, task_id: u64) -> (r: Option<Task>)
        requires
            old(self).wf(),
        ensures
            final(self).view == old(self).view,
            match r {
                Some(t) => has_key(old(self).entries(), task_id) && t@ == old(self).entries()[key_index(
                    old(self).entries(),
                    task_id,
                )].1 && final(self).entries() == replaced(
                    old(self).entries(),
                    key_index(old(self).entries(), task_id),
                    empty_task_view(task_id, ParentTask::Root),
                ),
                None => !has_key(old(self).entries(), task_id) && final(self).entries() == old(
                    self,
                ).entries(),
            },
    {
        let ghost s = self.entries();
        match table_index_of(&self.tasks, task_id) {
            None => None,
            Some(i) => {
                proof {
                    lemma_lookup_at(s, i as int);
                }
                let r = table_insert(&mut self.tasks, task_id, Task::empty(task_id, ParentTask::Root));
                proof {
                    if r is Some {
                        let j = choose|j: int|
                            0 <= j < s.len() && s[j].0 == task_id && table_entries(self.tasks)
                                == s.update(j, (task_id, empty_task_view(task_id, ParentTask::Root)));
                        lemma_lookup_at(s, j);
                    }
                }
                r
            },
        }
    }

    /// Puts `t` back into the slot of its id, which is present.
    fn put_task(&mut self, t: Task)
        requires
            keys_unique(old(self).entries()),
            has_key(old(self).entries(), t.id),
        ensures
            final(self).view == old(self).view,
            final(self).entries() == replaced(
                old(self).entries(),
                key_index(old(self).entries(), t.id),
                t@,
            ),
    {
        let ghost s = self.entries();
        let ghost tv = t@;
        let id = t.id;
        let r = table_insert(&mut self.tasks, id, t);
        proof {
            let q = key_index(s, id);
            lemma_lookup_at(s, q);
            if r is Some {
                let j = choose|j: int|
                    0 <= j < s.len() && s[j].0 == id && table_entries(self.tasks) == s.update(j, (id, tv));
                lemma_lookup_at(s, j);
            }
        }
    }

    pub fn update_task_title(&mut self, task_id: u64, new_title: String)
        requires
            old(self).wf(),
        ensures
            final(self).wf(),
            final(self).view == old(self).view,
            match lookup(old(self).entries(), task_id) {
                Some(t) => final(self).entries() == replaced(
                    old(self).entries(),
                    key_index(old(self).entries(), task_id),
                    TaskView { title: new_title@, ..t },
                ),
                None => final(self).entries() == old(self).entries(),
            },
            children_consistent(old(self).entries()) ==> children_consistent(final(self).entries()),
    {
        let ghost s = self.entries();
        match self.take_task(task_id) {
            Some(mut task) => {
                proof {
                    lemma_replaced(s, key_index(s, task_id), empty_task_view(task_id, ParentTask::Root));
                }
                task.title = new_title;
                self.put_task(task);
                proof {
                    let q = key_index(s, task_id);
                    lemma_lookup_at(s, q);
                    assert(self.entries() =~= replaced(s, q, task@));
                    lemma_replaced_links(s, q, task@);
                }
            },
            None => {},
        }
    }

    pub fn update_task_state(&mut self, task_id: u64, done: bool)
        requires
            old(self).wf(),
        ensures
            final(self).wf(),
            final(self).view == old(self).view,
            match lookup(old(self).entries(), task_id) {
                Some(t) => final(self).entries() == replaced(
                    old(self).entries(),
                    key_index(old(self).entries(), task_id),
                    TaskView { done, ..t },
                ),
                None => final(self).entries() == old(self).entries(),
            },
            children_consistent(old(self).entries()) ==> children_consistent(final(self).entries()),
    {
        let ghost s = self.entries();
        match self.take_task(task_id) {
            Some(mut task) => {
                proof {
                    lemma_replaced(s, key_index(s, task_id), empty_task_view(task_id, ParentTask::Root));
                }
                task.done = done;
                self.put_task(task);
                proof {
                    let q = key_index(s, task_id);
                    lemma_lookup_at(s, q);
                    assert(self.entries() =~= replaced(s, q, task@));
                    lemma_replaced_links(s, q, task@);
                }
            },
            None => {},
        }
    }

    /// Inserts a task built from `task_data` under `parent`, appended to the
    /// parent's children (or at the end of the table for the top level), and
    /// returns its id: one more than the largest id in play. A missing parent
    /// task is first created empty at the top level. Gives `None`, changing
    /// nothing, when the ids are exhausted.
    pub fn insert_task(&mut self, parent: ParentTask, task_data: TaskData) -> (r: Option<u64>)
        requires
            old(self).wf(),
        ensures
            final(self).wf(),
            final(self).view == old(self).view,
            match r {
                Some(id) => id_base(old(self).entries(), parent) < u64::MAX && id == id_base(
                    old(self).entries(),
                    parent,
                ) + 1 && final(self).entries() == inserted(
                    old(self).entries(),
                    parent,
                    id,
                    task_data@,
                ),
                None => id_base(old(self).entries(), parent) == u64::MAX && final(self).entries()
                    == old(self).entries(),
            },
            children_consistent(old(self).entries()) && task_data.children@.len() == 0
                ==> children_consistent(final(self).entries()),
    {
        let ghost s = self.entries();
        proof {
            lemma_max_key(s);
        }
        if self.next_id().is_none() {
            return None;
        }
        if let ParentTask::Id(parent_id) = parent {
            if table_index_of(&self.tasks, parent_id).is_none() {
                if parent_id == u64::MAX {
                    return None;
                }
                table_insert(&mut self.tasks, parent_id, Task::empty(parent_id, ParentTask::Root));
                proof {
                    let s1 = self.entries();
                    assert(s1.drop_last() == s);
                }
            }
        }
        let ghost s1 = self.entries();
        proof {
            assert(s1 == with_parent(s, parent));
            assert(max_key(s1) == id_base(s, parent));
            lemma_inserted(s, parent, (id_base(s, parent) + 1) as u64, task_data@);
        }
        let task = match self.create_task(parent, task_data) {
            Some(t) => t,
            None => return None,
        };
        let id = task.id;
        if let ParentTask::Id(parent_id) = parent {
            match self.take_task(parent_id) {
                Some(mut parent_task) => {
                    proof {
                        lemma_replaced(s1, key_index(s1, parent_id), empty_task_view(parent_id, ParentTask::Root));
                    }
                    parent_task.children.push(id);
                    self.put_task(parent_task);
                    proof {
                        assert(self.entries() =~= attach(s1, parent, id));
                    }
                },
                None => {},
            }
        }
        proof {
            lemma_max_key(s1);
            assert(!has_key(self.entries(), id)) by {
                if has_key(self.entries(), id) {
                    let j = choose|j: int| 0 <= j < self.entries().len() && self.entries()[j].0 == id;
                    assert(s1[j].0 == self.entries()[j].0);
                }
            }
        }
        table_insert(&mut self.tasks, id, task);
        Some(id)
    }

    /// The children ids of `ids` other than `task_id`, in order.
    fn without_id(ids: &Vec<u64>, task_id: u64) -> (r: Vec<u64>)
        ensures
            r@ == ids@.filter(other_id(task_id)),
    {
        let mut kept: Vec<u64> = Vec::new();
        let mut i: usize = 0;
        while i < ids.len()
            invariant
                i <= ids@.len(),
                kept@ == ids@.subrange(0, i as int).filter(other_id(task_id)),
            decreases ids@.len() - i,
        {
            proof {
                assert(ids@.subrange(0, i + 1) == ids@.subrange(0, i as int).push(ids@[i as int]));
                ids@.subrange(0, i as int).lemma_filter_push(ids@[i as int], other_id(task_id));
            }
            if ids[i] != task_id {
                kept.push(ids[i]);
            }
            i += 1;
        }
        proof {
            assert(ids@.subrange(0, ids@.len() as int) == ids@);
        }
        kept
    }

    /// Removes task `task_id` and returns it: it is first detached from its
    /// parent's children, when that parent is present. Its own children stay
    /// in the table, no longer listed anywhere. `None` when it is missing.
    pub fn remove_task(&mut self, task_id: u64) -> (r: Option<Task>)
        requires
            old(self).wf(),
        ensures
            final(self).wf(),
            final(self).view == old(self).view,
            match r {
                Some(t) => has_key(old(self).entries(), task_id) && final(self).entries() == removed(
                    old(self).entries(),
                    task_id,
                ) && Some(t@) == lookup(detached_from_parent(old(self).entries(), task_id), task_id),
                None => !has_key(old(self).entries(), task_id) && final(self).entries() == old(
                    self,
                ).entries(),
            },
            children_consistent(old(self).entries()) ==> children_consistent(final(self).entries()),
    {
        let ghost s = self.entries();
        let parent = match self.get_task(task_id) {
            None => return None,
            Some(task) => task.parent,
        };
        proof {
            lemma_lookup_at(s, key_index(s, task_id));
            lemma_removed(s, task_id);
        }
        if let ParentTask::Id(parent_id) = parent {
            match self.take_task(parent_id) {
                Some(mut parent_task) => {
                    proof {
                        lemma_replaced(s, key_index(s, parent_id), empty_task_view(parent_id, ParentTask::Root));
                    }
                    parent_task.children = Self::without_id(&parent_task.children, task_id);
                    self.put_task(parent_task);
                    proof {
                        assert(self.entries() =~= detached_from_parent(s, task_id));
                    }
                },
                None => {},
            }
        }
        let ghost s1 = self.entries();
        proof {
            assert(s1 == detached_from_parent(s, task_id));
            assert(s1.len() == s.len());
            assert(forall|i: int| 0 <= i < s1.len() ==> s1[i].0 == s[i].0);
            lemma_lookup_at(s1, key_index(s, task_id));
        }
        let r = table_shift_remove(&mut self.tasks, task_id);
        proof {
            if r is Some {
                let j = choose|j: int|
                    0 <= j < s1.len() && s1[j].0 == task_id && r->Some_0@ == s1[j].1
                        && table_entries(self.tasks) == s1.remove(j);
                lemma_lookup_at(s1, j);
            }
        }
        r
    }

    /// Trades the places of the tasks `from` and `to` in the open subtree;
    /// see `swap_sub_tasks`.
    pub fn swap_current_sub_tasks(&mut self, from: u64, to: u64) -> (r: Option<()>)
        requires
            old(self).wf(),
        ensures
            final(self).wf(),
            final(self).view == old(self).view,
            children_consistent(old(self).entries()) ==> children_consistent(final(self).entries()),
            match swap_in(old(self).entries(), old(self).view.opened_task, from, to) {
                Some(s2) => r is Some && final(self).entries() == s2,
                None => r is None && final(self).entries() == old(self).entries(),
            },
    {
        let parent = self.view.get_opened_task();
        self.swap_sub_tasks(parent, from, to)
    }

    /// Trades the places of the tasks `from` and `to` under `parent`:
    /// within that task's children (first occurrences), or within the table
    /// order at the top level. `None`, changing nothing, when either is not
    /// found there.
    pub fn swap_sub_tasks(&mut self, parent: ParentTask, from: u64, to: u64) -> (r: Option<()>)
        requires
            old(self).wf(),
        ensures
            final(self).wf(),
            final(self).view == old(self).view,
            children_consistent(old(self).entries()) ==> children_consistent(final(self).entries()),
            match swap_in(old(self).entries(), parent, from, to) {
                Some(s2) => r is Some && final(self).entries() == s2,
                None => r is None && final(self).entries() == old(self).entries(),
            },
    {
        let ghost s = self.entries();
        match parent {
            ParentTask::Id(parent_id) => {
                let (from_index, to_index) = match self.get_task(parent_id) {
                    None => return None,
                    Some(parent_task) => {
                        let from_index = match position_of(&parent_task.children, from) {
                            Some(i) => i,
                            None => return None,
                        };
                        let to_index = match position_of(&parent_task.children, to) {
                            Some(i) => i,
                            None => return None,
                        };
                        (from_index, to_index)
                    },
                };
                let ghost q = key_index(s, parent_id);
                let ghost t = s[q].1;
                proof {
                    lemma_lookup_at(s, q);
                }
                match self.take_task(parent_id) {
                    Some(mut parent_task) => {
                        proof {
                            lemma_replaced(s, q, empty_task_view(parent_id, ParentTask::Root));
                            lemma_first_index(t.children, from, from_index as int);
                            lemma_first_index(t.children, to, to_index as int);
                        }
                        let a = parent_task.children[from_index];
                        let b = parent_task.children[to_index];
                        parent_task.children.set(from_index, b);
                        parent_task.children.set(to_index, a);
                        self.put_task(parent_task);
                        proof {
                            let nv = TaskView { children: swapped(t.children, from_index as int, to_index as int), ..t };
                            assert(parent_task@ == nv) by {
                                assert(parent_task.children@ =~= nv.children);
                            }
                            assert(self.entries() =~= replaced(s, q, nv));
                            assert forall|j: int| 0 <= j < nv.children.len() implies t.children.contains(
                                #[trigger] nv.children[j],
                            ) by {
                                let j0 = if j == from_index { to_index as int } else if j == to_index { from_index as int } else { j };
                                assert(nv.children[j] == t.children[j0]);
                            }
                            lemma_replaced_links(s, q, nv);
                        }
                        Some(())
                    },
                    None => None,
                }
            },
            ParentTask::Root => {
                let from_index = match table_index_of(&self.tasks, from) {
                    Some(i) => i,
                    None => return None,
                };
                let to_index = match table_index_of(&self.tasks, to) {
                    Some(i) => i,
                    None => return None,
                };
                proof {
                    lemma_lookup_at(s, from_index as int);
                    lemma_lookup_at(s, to_index as int);
                }
                let both_top = match (table_get_index(&self.tasks, from_index), table_get_index(&self.tasks, to_index)) {
                    (Some(a), Some(b)) => a.1.parent == ParentTask::Root && b.1.parent == ParentTask::Root,
                    _ => false,
                };
                if !both_top {
                    return None;
                }
                table_swap_indices(&mut self.tasks, from_index, to_index);
                proof {
                    lemma_swapped_table(s, from_index as int, to_index as int);
                }
                Some(())
            },
        }
    }

    /// Like `insert_task`, but the new task is placed at row `index` of the
    /// parent's children, or before the `index`-th top-level task (at the
    /// end when `index` is their number). `None`, changing nothing, when the
    /// ids are exhausted or `index` is past the end.
    pub fn insert_task_at(&mut self, parent: ParentTask, task_data: TaskData, index: usize) -> (r:
        Option<()>)
        requires
            old(self).wf(),
        ensures
            final(self).wf(),
            final(self).view == old(self).view,
            r is None ==> final(self).entries() == old(self).entries(),
            children_consistent(old(self).entries()) && task_data.children@.len() == 0
                ==> children_consistent(final(self).entries()),
            ({
                let s = old(self).entries();
                let id = (id_base(s, parent) + 1) as u64;
                let tv = new_task_view(id, parent, task_data@);
                match parent {
                    ParentTask::Id(p) => {
                        let s1 = with_parent(s, parent);
                        let t = s1[key_index(s1, p)].1;
                        (r is Some <==> (id_base(s, parent) < u64::MAX && index <= t.children.len()))
                            && (r is Some ==> final(self).entries() == replaced(
                            s1,
                            key_index(s1, p),
                            TaskView { children: t.children.insert(index as int, id), ..t },
                        ).push((id, tv)))
                    },
                    ParentTask::Root => (r is Some <==> (max_key(s) < u64::MAX && index
                        <= roots_of(s).len())) && (r is Some ==> exists|pos: int|
                        0 <= pos <= s.len() && roots_of(s.subrange(0, pos)).len() == index && (pos
                            == s.len() || s[pos].1.parent == ParentTask::Root) && final(self).entries()
                            == s.insert(pos, (id, tv))),
                }
            }),
    {
        let ghost s = self.entries();
        proof {
            lemma_max_key(s);
        }
        if self.next_id().is_none() {
            return None;
        }
        match parent {
            ParentTask::Id(parent_id) => {
                match self.get_task(parent_id) {
                    Some(parent_task) => {
                        proof {
                            assert(has_key(s, parent_id));
                            assert(with_parent(s, parent) == s);
                            assert(parent_task.children@.len() == s[key_index(s, parent_id)].1.children.len());
                        }
                        if index > parent_task.children.len() {
                            return None;
                        }
                    },
                    None => {
                        proof {
                            let s1 = with_parent(s, parent);
                            assert(s1 == s.push((parent_id, empty_task_view(parent_id, ParentTask::Root))));
                            assert(keys_unique(s1)) by {
                                assert forall|i: int, j: int|
                                    0 <= i < s1.len() && 0 <= j < s1.len() && i != j implies s1[i].0 != s1[j].0 by {
                                    if i < s.len() && j < s.len() {
                                    } else if i < s.len() {
                                        assert(s[i].0 != parent_id);
                                    } else {
                                        assert(s[j].0 != parent_id);
                                    }
                                }
                            }
                            lemma_lookup_at(s1, s.len() as int);
                        }
                        if index > 0 || parent_id == u64::MAX {
                            return None;
                        }
                        table_insert(&mut self.tasks, parent_id, Task::empty(parent_id, ParentTask::Root));
                        proof {
                            assert(self.entries().drop_last() == s);
                        }
                    },
                }
                let ghost s1 = self.entries();
                proof {
                    assert(s1 == with_parent(s, parent));
                    assert(max_key(s1) == id_base(s, parent));
                    lemma_max_key(s1);
                    lemma_lookup_at(s1, s1.len() - 1);
                }
                let task = match self.create_task(parent, task_data) {
                    Some(t) => t,
                    None => return None,
                };
                let id = task.id;
                let ghost q = key_index(s1, parent_id);
                let ghost t = s1[q].1;
                match self.take_task(parent_id) {
                    Some(mut parent_task) => {
                        proof {
                            lemma_replaced(s1, q, empty_task_view(parent_id, ParentTask::Root));
                        }
                        parent_task.children.insert(index, id);
                        self.put_task(parent_task);
                        proof {
                            let nc = t.children.insert(index as int, id);
                            assert(parent_task@ == TaskView { children: nc, ..t }) by {
                                assert(parent_task.children@ =~= nc);
                            }
                            assert(self.entries() =~= replaced(s1, q, TaskView { children: nc, ..t }));
                            assert forall|j: int| 0 <= j < nc.len() implies nc[j] == id
                                || t.children.contains(#[trigger] nc[j]) by {
                                if j < index {
                                    assert(nc[j] == t.children[j]);
                                } else if j > index {
                                    assert(nc[j] == t.children[j - 1]);
                                }
                            }
                            lemma_added_child(s1, parent_id, id, nc, task@);
                            assert(!has_key(self.entries(), id)) by {
                                if has_key(self.entries(), id) {
                                    let j = choose|j: int|
                                        0 <= j < self.entries().len() && self.entries()[j].0 == id;
                                    assert(s1[j].0 == self.entries()[j].0);
                                }
                            }
                        }
                        table_insert(&mut self.tasks, id, task);
                        Some(())
                    },
                    None => None,
                }
            },
            ParentTask::Root => {
                let n = table_len(&self.tasks);
                let mut count: usize = 0;
                let mut i: usize = 0;
                let mut found = false;
                while i < n && !found
                    invariant
                        n == s.len(),
                        s == self.entries(),
                        i <= n,
                        count <= index,
                        count == roots_of(s.subrange(0, i as int)).len(),
                        found ==> i < n && s[i as int].1.parent == ParentTask::Root && count == index,
                    decreases n - i + (if found { 0int } else { 1int }),
                {
                    match table_get_index(&self.tasks, i) {
                        Some(p) => {
                            if p.1.parent == ParentTask::Root {
                                if count == index {
                                    found = true;
                                } else {
                                    proof {
                                        assert(s.subrange(0, i + 1).drop_last() == s.subrange(0, i as int));
                                    }
                                    count += 1;
                                    i += 1;
                                }
                            } else {
                                proof {
                                    assert(s.subrange(0, i + 1).drop_last() == s.subrange(0, i as int));
                                }
                                i += 1;
                            }
                        },
                        None => {
                            i = n;
                        },
                    }
                }
                proof {
                    lemma_roots_prefix(s, i as int, s.len() as int);
                    assert(s.subrange(0, s.len() as int) == s);
                }
                if !found && count < index {
                    return None;
                }
                let task = match self.create_task(parent, task_data) {
                    Some(t) => t,
                    None => return None,
                };
                proof {
                    lemma_inserted_top(s, i as int, task.id, task@);
                    assert(!has_key(s, task.id));
                }
                table_shift_insert(&mut self.tasks, i, task.id, task);
                Some(())
            },
        }
    }
}

} // verus!
