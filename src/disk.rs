//! The persisted document: the whole table and view position as plain values,
//! and the conversions between it and a running application.

use vstd::prelude::*;
use crate::app::App;
use crate::entities::{ParentTask, Task, TaskView};
use crate::links::{key_index, lemma_lookup_at, table_wf};
use crate::storage::AppStorage;
use crate::table::{has_key, table_entries, table_get_index, table_insert, table_len, table_new};
use crate::view::ViewStorage;

verus! {

/// Everything that is saved between runs: the tasks in table order, the open
/// subtree and the selection memory.
#[derive(Debug)]
pub struct State {
    pub tasks: Vec<Task>,
    pub opened_task: ParentTask,
    pub positions_in_opened_task: Vec<(ParentTask, usize)>,
}

/// The views of a list of tasks.
pub open spec fn task_views(v: Seq<Task>) -> Seq<TaskView> {
    v.map_values(|t: Task| t@)
}

/// The tasks of a table, in order.
pub open spec fn values_of(s: Seq<(u64, TaskView)>) -> Seq<TaskView> {
    s.map_values(|e: (u64, TaskView)| e.1)
}

/// The table `s` after storing `v` under key `k`: in place when the key is
/// present, else at the end.
pub open spec fn put(s: Seq<(u64, TaskView)>, k: u64, v: TaskView) -> Seq<(u64, TaskView)> {
    if has_key(s, k) {
        s.update(key_index(s, k), (k, v))
    } else {
        s.push((k, v))
    }
}

/// The table built by storing each task under its id, in order; a later
/// task with the same id takes the place of the earlier one.
pub open spec fn build(ts: Seq<TaskView>) -> Seq<(u64, TaskView)>
    decreases ts.len(),
{
    if ts.len() == 0 {
        Seq::empty()
    } else {
        put(build(ts.drop_last()), ts.last().id, ts.last())
    }
}

/// A table built by storing tasks under their ids is well formed.
proof fn lemma_build_wf(ts: Seq<TaskView>)
    ensures
        table_wf(build(ts)),
    decreases ts.len(),
{
    if ts.len() > 0 {
        let p = build(ts.drop_last());
        lemma_build_wf(ts.drop_last());
        let t = ts.last();
        if has_key(p, t.id) {
            lemma_lookup_at(p, key_index(p, t.id));
            let q = key_index(p, t.id);
            let b = build(ts);
            assert(b == p.update(q, (t.id, t)));
            assert forall|i: int, j: int|
                0 <= i < b.len() && 0 <= j < b.len() && i != j implies b[i].0 != b[j].0 by {
                assert(b[i].0 == p[i].0 && b[j].0 == p[j].0);
            }
        } else {
            let b = build(ts);
            assert(b == p.push((t.id, t)));
            assert forall|i: int, j: int|
                0 <= i < b.len() && 0 <= j < b.len() && i != j implies b[i].0 != b[j].0 by {
                if i < p.len() && j < p.len() {
                } else if i < p.len() {
                    assert(p[i].0 != t.id);
                } else {
                    assert(p[j].0 != t.id);
                }
            }
        }
    }
}

/// A copy of a task.
fn copy_task(t: &Task) -> (r: Task)
    ensures
        r@ == t@,
{
    let mut children: Vec<u64> = Vec::new();
    let mut i: usize = 0;
    while i < t.children.len()
        invariant
            i <= t.children@.len(),
            children@ == t.children@.subrange(0, i as int),
        decreases t.children@.len() - i,
    {
        children.push(t.children[i]);
        i += 1;
        proof {
            assert(children@ =~= t.children@.subrange(0, i as int));
        }
    }
    proof {
        assert(children@ =~= t.children@);
    }
    Task { id: t.id, parent: t.parent, title: t.title.clone(), children, done: t.done }
}

/// Storing the tasks of a well-formed table under their ids, in order, gives
/// that table back.
pub proof fn lemma_build_values(s: Seq<(u64, TaskView)>)
    requires
        table_wf(s),
    ensures
        build(values_of(s)) == s,
    decreases s.len(),
{
    if s.len() > 0 {
        let p = s.drop_last();
        assert(table_wf(p));
        assert(values_of(s).drop_last() == values_of(p));
        lemma_build_values(p);
        assert(!has_key(p, s.last().0)) by {
            if has_key(p, s.last().0) {
                let j = choose|j: int| 0 <= j < p.len() && p[j].0 == s.last().0;
                assert(s[j].0 == s[s.len() - 1].0);
            }
        }
        assert(values_of(s).last() == s.last().1);
        assert(s.last().1.id == s.last().0);
        assert(p.push(s.last()) == s);
    }
}

impl State {
    /// Captures what is saved of `app`.
    pub fn from_app(app: &App) -> (r: State)
        requires
            app.wf(),
        ensures
            task_views(r.tasks@) == values_of(app.storage.entries()),
            r.opened_task == app.storage.view.opened_task,
            r.positions_in_opened_task@ == app.storage.view.positions_in_opened_task@,
    {
        let ghost s = app.storage.entries();
        let n = table_len(&app.storage.tasks);
        let mut tasks: Vec<Task> = Vec::new();
        let mut i: usize = 0;
        while i < n
            invariant
                n == s.len(),
                s == app.storage.entries(),
                i <= n,
                task_views(tasks@) == values_of(s.subrange(0, i as int)),
            decreases n - i,
        {
            match table_get_index(&app.storage.tasks, i) {
                Some(p) => {
                    let ghost prev = tasks@;
                    tasks.push(copy_task(p.1));
                    proof {
                        assert(task_views(tasks@) =~= task_views(prev).push(p.1@));
                        assert(values_of(s.subrange(0, i + 1)) =~= values_of(s.subrange(0, i as int)).push(
                            s[i as int].1,
                        ));
                    }
                },
                None => {},
            }
            i += 1;
        }
        proof {
            assert(s.subrange(0, n as int) == s);
        }
        let ps = &app.storage.view.positions_in_opened_task;
        let mut positions: Vec<(ParentTask, usize)> = Vec::new();
        let mut j: usize = 0;
        while j < ps.len()
            invariant
                j <= ps@.len(),
                positions@ == ps@.subrange(0, j as int),
            decreases ps@.len() - j,
        {
            positions.push(ps[j]);
            j += 1;
            proof {
                assert(positions@ =~= ps@.subrange(0, j as int));
            }
        }
        proof {
            assert(positions@ =~= ps@);
        }
        State {
            tasks,
            opened_task: app.storage.view.opened_task,
            positions_in_opened_task: positions,
        }
    }

    /// Builds the application this document describes: each task is stored
    /// under its id, in order, with an empty history.
    pub fn into_app(self) -> (r: App)
        ensures
            r.wf(),
            r.storage.entries() == build(task_views(self.tasks@)),
            r.storage.view.opened_task == self.opened_task,
            r.storage.view.positions_in_opened_task == self.positions_in_opened_task,
            r.history@.undo.len() == 0,
            r.history@.redo.len() == 0,
    {
        let ghost all = task_views(self.tasks@);
        let mut tasks = self.tasks;
        let mut table = table_new();
        let total = tasks.len();
        let ghost n = total as nat;
        let mut k: usize = 0;
        while tasks.len() > 0
            invariant
                n == all.len(),
                n <= usize::MAX,
                k + tasks@.len() == n,
                task_views(tasks@) == all.subrange(k as int, n as int),
                table_entries(table) == build(all.subrange(0, k as int)),
            decreases tasks@.len(),
        {
            let ghost before_tasks = tasks@;
            let t = tasks.remove(0);
            proof {
                assert(all.subrange(0, k + 1).drop_last() == all.subrange(0, k as int));
                assert(all[k as int] == t@) by {
                    assert(task_views(before_tasks)[0] == all.subrange(k as int, n as int)[0]);
                }
                lemma_build_wf(all.subrange(0, k as int));
            }
            let ghost before = table_entries(table);
            let id = t.id;
            let prev = table_insert(&mut table, id, t);
            proof {
                if prev is Some {
                    let j = choose|j: int|
                        0 <= j < before.len() && before[j].0 == id && table_entries(table)
                            == before.update(j, (id, all[k as int]));
                    lemma_lookup_at(before, j);
                }
                assert(tasks@ == before_tasks.remove(0));
                assert forall|j: int| 0 <= j < tasks@.len() implies task_views(tasks@)[j] == all.subrange(
                    k + 1,
                    n as int,
                )[j] by {
                    assert(tasks@[j] == before_tasks[j + 1]);
                    assert(task_views(before_tasks)[j + 1] == all.subrange(k as int, n as int)[j + 1]);
                }
                assert(task_views(tasks@) =~= all.subrange(k + 1, n as int));
            }
            k += 1;
        }
        proof {
            assert(all.subrange(0, n as int) == all);
            lemma_build_wf(all);
        }
        App::new(
            AppStorage {
                view: ViewStorage {
                    opened_task: self.opened_task,
                    positions_in_opened_task: self.positions_in_opened_task,
                },
                tasks: table,
            },
        )
    }
}

/// Saving an application into a document and building an application back
/// from that document gives the same table, open subtree and selection
/// memory. `saved` is what `from_app` gives for `app`, `loaded` what
/// `into_app` gives for `saved`.
pub proof fn lemma_state_round_trip(app: App, saved: State, loaded: App)
    requires
        app.wf(),
        task_views(saved.tasks@) == values_of(app.storage.entries()),
        saved.opened_task == app.storage.view.opened_task,
        saved.positions_in_opened_task@ == app.storage.view.positions_in_opened_task@,
        loaded.storage.entries() == build(task_views(saved.tasks@)),
        loaded.storage.view.opened_task == saved.opened_task,
        loaded.storage.view.positions_in_opened_task == saved.positions_in_opened_task,
    ensures
        loaded.storage.entries() == app.storage.entries(),
        loaded.storage.view.opened_task == app.storage.view.opened_task,
        loaded.storage.view.positions_in_opened_task@ == app.storage.view.positions_in_opened_task@,
        loaded.storage.selected() == app.storage.selected(),
{
    lemma_build_values(app.storage.entries());
}

} // verus!
