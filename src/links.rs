//! The mathematical model of the task table: lookups, parent/child links,
//! the listings shown to the user, and the table after each edit, with the
//! lemmas showing that edits keep it well formed and its links consistent.

use vstd::prelude::*;
use crate::entities::{empty_task_view, ParentTask, Task, TaskContent, TaskView};
use crate::table::{has_key, keys_unique};

verus! {

broadcast use vstd::seq_lib::group_filter_ensures;

/// The position of key `k` (meaningful when it is present).
pub open spec fn key_index(s: Seq<(u64, TaskView)>, k: u64) -> int {
    choose|i: int| 0 <= i < s.len() && s[i].0 == k
}

/// The task stored under `k`.
pub open spec fn lookup(s: Seq<(u64, TaskView)>, k: u64) -> Option<TaskView> {
    if has_key(s, k) {
        Some(s[key_index(s, k)].1)
    } else {
        None
    }
}

/// Keys are unique and each task is stored under its own id.
pub open spec fn table_wf(s: Seq<(u64, TaskView)>) -> bool {
    &&& keys_unique(s)
    &&& forall|i: int| 0 <= i < s.len() ==> (#[trigger] s[i]).0 == s[i].1.id
}

/// Every id in a children list names a task of the table whose parent is the
/// owner of the list.
pub open spec fn children_consistent(s: Seq<(u64, TaskView)>) -> bool {
    forall|i: int, j: int|
        0 <= i < s.len() && 0 <= j < s[i].1.children.len() ==> exists|k: int|
            0 <= k < s.len() && s[k].0 == #[trigger] s[i].1.children[j] && s[k].1.parent
                == ParentTask::Id(s[i].0)
}

/// The views of a sequence of borrowed tasks.
pub open spec fn views(v: Seq<&Task>) -> Seq<TaskView> {
    v.map_values(|t: &Task| t@)
}

/// The top-level tasks, in table order.
pub open spec fn roots_of(s: Seq<(u64, TaskView)>) -> Seq<TaskView>
    decreases s.len(),
{
    if s.len() == 0 {
        Seq::empty()
    } else {
        let r = roots_of(s.drop_last());
        if s.last().1.parent == ParentTask::Root {
            r.push(s.last().1)
        } else {
            r
        }
    }
}

/// The tasks named by `ids`, in that order, skipping ids with no task.
pub open spec fn resolve(s: Seq<(u64, TaskView)>, ids: Seq<u64>) -> Seq<TaskView>
    decreases ids.len(),
{
    if ids.len() == 0 {
        Seq::empty()
    } else {
        let r = resolve(s, ids.drop_last());
        match lookup(s, ids.last()) {
            Some(t) => r.push(t),
            None => r,
        }
    }
}

/// The children of task `id`, in display order.
pub open spec fn sub_tasks_of(s: Seq<(u64, TaskView)>, id: u64) -> Seq<TaskView> {
    match lookup(s, id) {
        Some(t) => resolve(s, t.children),
        None => Seq::empty(),
    }
}

/// The tasks listed when `opened` is the open subtree.
pub open spec fn opened_children(s: Seq<(u64, TaskView)>, opened: ParentTask) -> Seq<TaskView> {
    match opened {
        ParentTask::Root => roots_of(s),
        ParentTask::Id(id) => sub_tasks_of(s, id),
    }
}

/// The chain of tasks from `id` upwards, closest first, following at most
/// `fuel` links; it ends at a top-level task or at a missing one.
pub open spec fn ancestors(s: Seq<(u64, TaskView)>, id: u64, fuel: nat) -> Seq<TaskView>
    decreases fuel,
{
    if fuel == 0 {
        Seq::empty()
    } else {
        match lookup(s, id) {
            None => Seq::empty(),
            Some(t) => match t.parent {
                ParentTask::Root => seq![t],
                ParentTask::Id(p) => seq![t] + ancestors(s, p, (fuel - 1) as nat),
            },
        }
    }
}

/// The largest key, or 0 for an empty table.
pub open spec fn max_key(s: Seq<(u64, TaskView)>) -> u64
    decreases s.len(),
{
    if s.len() == 0 {
        0
    } else {
        let m = max_key(s.drop_last());
        if s.last().0 > m {
            s.last().0
        } else {
            m
        }
    }
}

/// In a table with unique keys, the pair at `i` is the one found by key.
pub proof fn lemma_lookup_at(s: Seq<(u64, TaskView)>, i: int)
    requires
        keys_unique(s),
        0 <= i < s.len(),
    ensures
        has_key(s, s[i].0),
        key_index(s, s[i].0) == i,
        lookup(s, s[i].0) == Some(s[i].1),
{
    assert(0 <= i < s.len() && s[i].0 == s[i].0);
}

pub(crate) proof fn lemma_max_key(s: Seq<(u64, TaskView)>)
    ensures
        forall|i: int| 0 <= i < s.len() ==> s[i].0 <= max_key(s),
    decreases s.len(),
{
    if s.len() > 0 {
        lemma_max_key(s.drop_last());
        assert forall|i: int| 0 <= i < s.len() implies s[i].0 <= max_key(s) by {
            if i < s.len() - 1 {
                assert(s[i] == s.drop_last()[i]);
            }
        }
    }
}

/// The task built from `data` for a new id and place.
pub open spec fn new_task_view(id: u64, parent: ParentTask, data: TaskContent) -> TaskView {
    TaskView { id, parent, title: data.title, children: data.children, done: data.done }
}

/// The largest id in play when inserting under `parent`: a missing parent
/// task is created first, so its id counts too.
pub open spec fn id_base(s: Seq<(u64, TaskView)>, parent: ParentTask) -> u64 {
    match parent {
        ParentTask::Id(p) => if !has_key(s, p) && p > max_key(s) {
            p
        } else {
            max_key(s)
        },
        ParentTask::Root => max_key(s),
    }
}

/// The table with an empty top-level task created for a missing parent.
pub open spec fn with_parent(s: Seq<(u64, TaskView)>, parent: ParentTask) -> Seq<(u64, TaskView)> {
    match parent {
        ParentTask::Id(p) => if has_key(s, p) {
            s
        } else {
            s.push((p, empty_task_view(p, ParentTask::Root)))
        },
        ParentTask::Root => s,
    }
}

/// The table with `id` appended to the children of `parent`.
pub open spec fn attach(s: Seq<(u64, TaskView)>, parent: ParentTask, id: u64) -> Seq<(u64, TaskView)> {
    match parent {
        ParentTask::Id(p) => {
            let t = s[key_index(s, p)].1;
            s.update(key_index(s, p), (p, TaskView { children: t.children.push(id), ..t }))
        },
        ParentTask::Root => s,
    }
}

/// The table after inserting a task with id `id` built from `data` under `parent`.
pub open spec fn inserted(
    s: Seq<(u64, TaskView)>,
    parent: ParentTask,
    id: u64,
    data: TaskContent,
) -> Seq<(u64, TaskView)> {
    attach(with_parent(s, parent), parent, id).push((id, new_task_view(id, parent, data)))
}

/// Ids other than `x`.
pub open spec fn other_id(x: u64) -> spec_fn(u64) -> bool {
    |c: u64| c != x
}

/// The table with `id` taken out of the children list of `parent`, if that
/// task is present.
pub open spec fn detached(s: Seq<(u64, TaskView)>, id: u64, parent: ParentTask) -> Seq<(u64, TaskView)> {
    match parent {
        ParentTask::Id(p) => if has_key(s, p) {
            let t = s[key_index(s, p)].1;
            s.update(key_index(s, p), (p, TaskView { children: t.children.filter(other_id(id)), ..t }))
        } else {
            s
        },
        ParentTask::Root => s,
    }
}

/// The table once task `id`, which is present, is detached from its parent.
pub open spec fn detached_from_parent(s: Seq<(u64, TaskView)>, id: u64) -> Seq<(u64, TaskView)> {
    detached(s, id, s[key_index(s, id)].1.parent)
}

/// The table after removing the present task `id`: it is detached from its
/// parent, then taken out; its own children stay in the table.
pub open spec fn removed(s: Seq<(u64, TaskView)>, id: u64) -> Seq<(u64, TaskView)> {
    let s1 = detached_from_parent(s, id);
    s1.remove(key_index(s1, id))
}

/// The table with the task at `i` given the value `v`, its key kept.
pub open spec fn replaced(s: Seq<(u64, TaskView)>, i: int, v: TaskView) -> Seq<(u64, TaskView)> {
    s.update(i, (s[i].0, v))
}

/// Replacing a value under the same key keeps keys unique and positions.
pub(crate) proof fn lemma_replaced(s: Seq<(u64, TaskView)>, i: int, v: TaskView)
    requires
        keys_unique(s),
        0 <= i < s.len(),
    ensures
        keys_unique(replaced(s, i, v)),
        key_index(replaced(s, i, v), s[i].0) == i,
        forall|k: u64| has_key(replaced(s, i, v), k) == has_key(s, k),
        forall|k: u64|
            k != s[i].0 && has_key(s, k) ==> key_index(replaced(s, i, v), k) == key_index(s, k),
{
    let s2 = replaced(s, i, v);
    lemma_lookup_at(s2, i);
    assert forall|k: u64| has_key(s2, k) == has_key(s, k) by {
        if has_key(s, k) {
            let j = choose|j: int| 0 <= j < s.len() && s[j].0 == k;
            assert(s2[j].0 == k);
        }
        if has_key(s2, k) {
            let j = choose|j: int| 0 <= j < s2.len() && s2[j].0 == k;
            assert(s[j].0 == k);
        }
    }
    assert forall|k: u64| k != s[i].0 && has_key(s, k) implies key_index(s2, k) == key_index(
        s,
        k,
    ) by {
        let j = key_index(s, k);
        lemma_lookup_at(s, j);
        assert(s2[j].0 == k);
        lemma_lookup_at(s2, j);
    }
}

/// Replacing a task by one with the same id, parent and children keeps the
/// table well formed and its links consistent.
pub(crate) proof fn lemma_replaced_links(s: Seq<(u64, TaskView)>, i: int, v: TaskView)
    requires
        table_wf(s),
        0 <= i < s.len(),
        v.id == s[i].1.id,
        v.parent == s[i].1.parent,
        forall|j: int| 0 <= j < v.children.len() ==> s[i].1.children.contains(#[trigger] v.children[j]),
    ensures
        table_wf(replaced(s, i, v)),
        children_consistent(s) ==> children_consistent(replaced(s, i, v)),
{
    let s2 = replaced(s, i, v);
    lemma_replaced(s, i, v);
    if children_consistent(s) {
        assert forall|a: int, b: int|
            0 <= a < s2.len() && 0 <= b < s2[a].1.children.len() implies exists|k: int|
            0 <= k < s2.len() && s2[k].0 == #[trigger] s2[a].1.children[b] && s2[k].1.parent
                == ParentTask::Id(s2[a].0) by {
            let c = s2[a].1.children[b];
            let b0 = if a == i {
                choose|b0: int| 0 <= b0 < s[a].1.children.len() && s[a].1.children[b0] == c
            } else {
                b
            };
            assert(s[a].1.children[b0] == c);
            let k = choose|k: int|
                0 <= k < s.len() && s[k].0 == c && s[k].1.parent == ParentTask::Id(s[a].0);
            assert(s2[k].0 == c && s2[k].1.parent == ParentTask::Id(s2[a].0));
        }
    }
}

/// A fresh task placed under `parent` keeps the table well formed, and keeps
/// its links consistent when the new task brings no children of its own.
pub(crate) proof fn lemma_inserted(s: Seq<(u64, TaskView)>, parent: ParentTask, id: u64, data: TaskContent)
    requires
        table_wf(s),
        id_base(s, parent) < u64::MAX,
        id == id_base(s, parent) + 1,
    ensures
        table_wf(inserted(s, parent, id, data)),
        children_consistent(s) && data.children.len() == 0 ==> children_consistent(
            inserted(s, parent, id, data),
        ),
{
    lemma_max_key(s);
    let s1 = with_parent(s, parent);
    let tv = new_task_view(id, parent, data);
    assert(forall|i: int| 0 <= i < s1.len() ==> s1[i].0 < id);
    assert(table_wf(s1)) by {
        if s1.len() > s.len() {
            assert forall|i: int, j: int|
                0 <= i < s1.len() && 0 <= j < s1.len() && i != j implies s1[i].0 != s1[j].0 by {
                if i < s.len() && j < s.len() {
                } else if i < s.len() {
                    assert(s[i].0 != s1[j].0);
                } else {
                    assert(s[j].0 != s1[i].0);
                }
            }
        }
    }
    match parent {
        ParentTask::Root => {
            assert(has_key(s1, id) == false);
        },
        ParentTask::Id(p) => {
            assert(has_key(s1, p)) by {
                if s1.len() > s.len() {
                    assert(s1[s.len() as int].0 == p);
                }
            }
            let q = key_index(s1, p);
            let t = s1[q].1;
            lemma_replaced(s1, q, TaskView { children: t.children.push(id), ..t });
        },
    }
    let s2 = attach(s1, parent, id);
    let s3 = s2.push((id, tv));
    assert(s3 == inserted(s, parent, id, data));
    assert(s2.len() == s1.len());
    assert(forall|i: int| 0 <= i < s2.len() ==> s2[i].0 == s1[i].0);
    assert(table_wf(s3)) by {
        assert forall|i: int, j: int|
            0 <= i < s3.len() && 0 <= j < s3.len() && i != j implies s3[i].0 != s3[j].0 by {
            if i < s2.len() && j < s2.len() {
                assert(s1[i].0 != s1[j].0);
            } else if i < s2.len() {
                assert(s1[i].0 < id);
            } else {
                assert(s1[j].0 < id);
            }
        }
        assert forall|i: int| 0 <= i < s3.len() implies (#[trigger] s3[i]).0 == s3[i].1.id by {
            if i < s2.len() {
                assert(s1[i].0 == s1[i].1.id);
            }
        }
    }
    if children_consistent(s) && data.children.len() == 0 {
        assert(children_consistent(s1)) by {
            assert forall|a: int, b: int|
                0 <= a < s1.len() && 0 <= b < s1[a].1.children.len() implies exists|k: int|
                0 <= k < s1.len() && s1[k].0 == #[trigger] s1[a].1.children[b] && s1[k].1.parent
                    == ParentTask::Id(s1[a].0) by {
                let c = s[a].1.children[b];
                let k = choose|k: int|
                    0 <= k < s.len() && s[k].0 == c && s[k].1.parent == ParentTask::Id(s[a].0);
                assert(s1[k] == s[k]);
            }
        }
        assert forall|a: int, b: int|
            0 <= a < s3.len() && 0 <= b < s3[a].1.children.len() implies exists|k: int|
            0 <= k < s3.len() && s3[k].0 == #[trigger] s3[a].1.children[b] && s3[k].1.parent
                == ParentTask::Id(s3[a].0) by {
            let last = s2.len() as int;
            if a == last {
                assert(s3[a].1.children.len() == 0);
            } else {
                match parent {
                    ParentTask::Id(p) => {
                        let q = key_index(s1, p);
                        if a == q && b == s1[q].1.children.len() {
                            assert(s3[last].0 == s3[a].1.children[b]);
                            assert(s3[last].1.parent == ParentTask::Id(s3[a].0));
                        } else {
                            assert(s3[a].1.children[b] == s1[a].1.children[b]);
                            let c = s1[a].1.children[b];
                            let k = choose|k: int|
                                0 <= k < s1.len() && s1[k].0 == c && s1[k].1.parent == ParentTask::Id(
                                    s1[a].0,
                                );
                            assert(s3[k].0 == c && s3[k].1.parent == ParentTask::Id(s3[a].0));
                        }
                    },
                    ParentTask::Root => {
                        let c = s1[a].1.children[b];
                        let k = choose|k: int|
                            0 <= k < s1.len() && s1[k].0 == c && s1[k].1.parent == ParentTask::Id(
                                s1[a].0,
                            );
                        assert(s3[k].0 == c && s3[k].1.parent == ParentTask::Id(s3[a].0));
                    },
                }
            }
        }
    }
}

/// Removing a present task keeps the table well formed and its links
/// consistent.
pub(crate) proof fn lemma_removed(s: Seq<(u64, TaskView)>, id: u64)
    requires
        table_wf(s),
        has_key(s, id),
    ensures
        table_wf(removed(s, id)),
        children_consistent(s) ==> children_consistent(removed(s, id)),
{
    let r = key_index(s, id);
    lemma_lookup_at(s, r);
    let par = s[r].1.parent;
    let s1 = detached_from_parent(s, id);
    match par {
        ParentTask::Id(p) => {
            if has_key(s, p) {
                let q = key_index(s, p);
                lemma_lookup_at(s, q);
                let t = s[q].1;
                lemma_replaced(s, q, TaskView { children: t.children.filter(other_id(id)), ..t });
                lemma_replaced_links(s, q, TaskView { children: t.children, ..t });
            }
        },
        ParentTask::Root => {},
    }
    assert(s1.len() == s.len());
    assert(forall|i: int| 0 <= i < s1.len() ==> s1[i].0 == s[i].0 && s1[i].1.id == s[i].1.id
        && s1[i].1.parent == s[i].1.parent);
    assert(keys_unique(s1));
    lemma_lookup_at(s1, r);
    let s2 = s1.remove(r);
    assert(s2 == removed(s, id));
    assert(table_wf(s2)) by {
        assert forall|i: int, j: int|
            0 <= i < s2.len() && 0 <= j < s2.len() && i != j implies s2[i].0 != s2[j].0 by {
            let i1 = if i < r { i } else { i + 1 };
            let j1 = if j < r { j } else { j + 1 };
            assert(s2[i] == s1[i1] && s2[j] == s1[j1]);
        }
        assert forall|i: int| 0 <= i < s2.len() implies (#[trigger] s2[i]).0 == s2[i].1.id by {
            let i1 = if i < r { i } else { i + 1 };
            assert(s2[i] == s1[i1]);
        }
    }
    if children_consistent(s) {
        assert forall|a: int, b: int|
            0 <= a < s2.len() && 0 <= b < s2[a].1.children.len() implies exists|k: int|
            0 <= k < s2.len() && s2[k].0 == #[trigger] s2[a].1.children[b] && s2[k].1.parent
                == ParentTask::Id(s2[a].0) by {
            let a1 = if a < r { a } else { a + 1 };
            assert(s2[a] == s1[a1]);
            let c = s1[a1].1.children[b];
            let detached_here = match par {
                ParentTask::Id(p) => has_key(s, p) && a1 == key_index(s, p),
                ParentTask::Root => false,
            };
            if detached_here {
                let p = par->Id_0;
                let q = key_index(s, p);
                let t = s[q].1;
                assert(s1[q].1.children == t.children.filter(other_id(id)));
                assert(other_id(id)(t.children.filter(other_id(id))[b]));
                assert(t.children.filter(other_id(id)).contains(c));
                t.children.lemma_filter_contains_rev(other_id(id), c);
                assert(t.children.contains(c));
                assert(c != id);
            } else {
                assert(s1[a1].1.children == s[a1].1.children);
            }
            let b0 = if detached_here {
                choose|b0: int| 0 <= b0 < s[a1].1.children.len() && s[a1].1.children[b0] == c
            } else {
                b
            };
            assert(c != id || !detached_here);
            assert(s[a1].1.children[b0] == c);
            let k = choose|k: int|
                0 <= k < s.len() && s[k].0 == c && s[k].1.parent == ParentTask::Id(s[a1].0);
            if k == r {
                assert(c == id);
                assert(par == ParentTask::Id(s[a1].0));
                lemma_lookup_at(s, a1);
                assert(detached_here);
            }
            let k2 = if k < r { k } else { k - 1 };
            assert(s2[k2] == s1[k]);
            assert(s2[k2].0 == c && s2[k2].1.parent == ParentTask::Id(s2[a].0));
        }
    }
}

/// `i` is the first position of `x` in `s`.
pub open spec fn is_first(s: Seq<u64>, x: u64, i: int) -> bool {
    0 <= i < s.len() && s[i] == x && forall|j: int| 0 <= j < i ==> s[j] != x
}

/// `s` with the items at `a` and `b` traded.
pub open spec fn swapped<A>(s: Seq<A>, a: int, b: int) -> Seq<A> {
    s.update(a, s[b]).update(b, s[a])
}

/// The first position of `x` in `s` (meaningful when it occurs).
pub open spec fn first_index(s: Seq<u64>, x: u64) -> int {
    choose|i: int| is_first(s, x, i)
}

pub(crate) proof fn lemma_first_index(s: Seq<u64>, x: u64, i: int)
    requires
        is_first(s, x, i),
    ensures
        first_index(s, x) == i,
{
    let k = first_index(s, x);
    assert(is_first(s, x, k));
    if k < i {
        assert(s[k] != x);
    } else if i < k {
        assert(s[i] != x);
    }
}

/// The table after trading the places of `from` and `to` in the subtree
/// `opened`: first occurrences in the open task's children, or table
/// positions of two top-level tasks. `None` when either is not found there.
pub open spec fn swap_in(s: Seq<(u64, TaskView)>, opened: ParentTask, from: u64, to: u64) -> Option<
    Seq<(u64, TaskView)>,
> {
    match opened {
        ParentTask::Id(p) => {
            let t = s[key_index(s, p)].1;
            if has_key(s, p) && t.children.contains(from) && t.children.contains(to) {
                Some(
                    replaced(
                        s,
                        key_index(s, p),
                        TaskView {
                            children: swapped(
                                t.children,
                                first_index(t.children, from),
                                first_index(t.children, to),
                            ),
                            ..t
                        },
                    ),
                )
            } else {
                None
            }
        },
        ParentTask::Root => {
            if has_key(s, from) && has_key(s, to) && s[key_index(s, from)].1.parent
                == ParentTask::Root && s[key_index(s, to)].1.parent == ParentTask::Root {
                Some(swapped(s, key_index(s, from), key_index(s, to)))
            } else {
                None
            }
        },
    }
}

/// Trading two entries of the table keeps it well formed and its links
/// consistent.
pub(crate) proof fn lemma_swapped_table(s: Seq<(u64, TaskView)>, a: int, b: int)
    requires
        table_wf(s),
        0 <= a < s.len(),
        0 <= b < s.len(),
    ensures
        table_wf(swapped(s, a, b)),
        children_consistent(s) ==> children_consistent(swapped(s, a, b)),
{
    let s2 = swapped(s, a, b);
    let m = |i: int| if i == a { b } else if i == b { a } else { i };
    assert forall|i: int| 0 <= i < s2.len() implies s2[i] == s[m(i)] by {}
    assert(table_wf(s2)) by {
        assert forall|i: int, j: int|
            0 <= i < s2.len() && 0 <= j < s2.len() && i != j implies s2[i].0 != s2[j].0 by {
            assert(s2[i] == s[m(i)] && s2[j] == s[m(j)]);
        }
        assert forall|i: int| 0 <= i < s2.len() implies (#[trigger] s2[i]).0 == s2[i].1.id by {
            assert(s2[i] == s[m(i)]);
        }
    }
    if children_consistent(s) {
        assert forall|x: int, y: int|
            0 <= x < s2.len() && 0 <= y < s2[x].1.children.len() implies exists|k: int|
            0 <= k < s2.len() && s2[k].0 == #[trigger] s2[x].1.children[y] && s2[k].1.parent
                == ParentTask::Id(s2[x].0) by {
            assert(s2[x] == s[m(x)]);
            let c = s[m(x)].1.children[y];
            let k = choose|k: int|
                0 <= k < s.len() && s[k].0 == c && s[k].1.parent == ParentTask::Id(s[m(x)].0);
            assert(s2[m(k)] == s[k]);
        }
    }
}

/// A fresh childless task put under the present task `p`, whose children list
/// becomes `nc` (its old children and the new id), keeps the table well formed
/// and its links consistent.
pub(crate) proof fn lemma_added_child(s: Seq<(u64, TaskView)>, p: u64, id: u64, nc: Seq<u64>, tv: TaskView)
    requires
        table_wf(s),
        has_key(s, p),
        forall|i: int| 0 <= i < s.len() ==> s[i].0 < id,
        tv.id == id,
        tv.parent == ParentTask::Id(p),
        forall|j: int| 0 <= j < nc.len() ==> nc[j] == id || s[key_index(s, p)].1.children.contains(
            #[trigger] nc[j],
        ),
    ensures
        table_wf(replaced(s, key_index(s, p), TaskView { children: nc, ..s[key_index(s, p)].1 }).push(
            (id, tv),
        )),
        children_consistent(s) && tv.children.len() == 0 ==> children_consistent(
            replaced(s, key_index(s, p), TaskView { children: nc, ..s[key_index(s, p)].1 }).push(
                (id, tv),
            ),
        ),
{
    let q = key_index(s, p);
    let t = s[q].1;
    lemma_lookup_at(s, q);
    lemma_replaced(s, q, TaskView { children: nc, ..t });
    let s2 = replaced(s, q, TaskView { children: nc, ..t });
    let s3 = s2.push((id, tv));
    assert(forall|i: int| 0 <= i < s2.len() ==> s2[i].0 == s[i].0);
    assert(table_wf(s3)) by {
        assert forall|i: int, j: int|
            0 <= i < s3.len() && 0 <= j < s3.len() && i != j implies s3[i].0 != s3[j].0 by {
            if i < s2.len() && j < s2.len() {
                assert(s[i].0 != s[j].0);
            } else if i < s2.len() {
                assert(s[i].0 < id);
            } else {
                assert(s[j].0 < id);
            }
        }
        assert forall|i: int| 0 <= i < s3.len() implies (#[trigger] s3[i]).0 == s3[i].1.id by {
            if i < s2.len() {
                assert(s[i].0 == s[i].1.id);
            }
        }
    }
    if children_consistent(s) && tv.children.len() == 0 {
        assert forall|a: int, b: int|
            0 <= a < s3.len() && 0 <= b < s3[a].1.children.len() implies exists|k: int|
            0 <= k < s3.len() && s3[k].0 == #[trigger] s3[a].1.children[b] && s3[k].1.parent
                == ParentTask::Id(s3[a].0) by {
            let last = s2.len() as int;
            let c = s3[a].1.children[b];
            if a == last {
                assert(s3[a].1.children.len() == 0);
            } else if c == id && a == q {
                assert(s3[last].0 == c);
                assert(s3[last].1.parent == ParentTask::Id(s3[a].0));
            } else {
                assert(s[a].1.children.contains(c)) by {
                    if a == q {
                        assert(nc[b] == c);
                    } else {
                        assert(s[a].1.children[b] == c);
                    }
                }
                let b0 = choose|b0: int| 0 <= b0 < s[a].1.children.len() && s[a].1.children[b0] == c;
                assert(s[a].1.children[b0] == c);
                let k = choose|k: int|
                    0 <= k < s.len() && s[k].0 == c && s[k].1.parent == ParentTask::Id(s[a].0);
                assert(s3[k].0 == c && s3[k].1.parent == ParentTask::Id(s3[a].0));
            }
        }
    }
}

/// A fresh childless top-level task put at position `pos` keeps the table
/// well formed and its links consistent.
pub(crate) proof fn lemma_inserted_top(s: Seq<(u64, TaskView)>, pos: int, id: u64, tv: TaskView)
    requires
        table_wf(s),
        0 <= pos <= s.len(),
        forall|i: int| 0 <= i < s.len() ==> s[i].0 < id,
        tv.id == id,
        tv.parent == ParentTask::Root,
    ensures
        table_wf(s.insert(pos, (id, tv))),
        children_consistent(s) && tv.children.len() == 0 ==> children_consistent(
            s.insert(pos, (id, tv)),
        ),
{
    let s2 = s.insert(pos, (id, tv));
    let m = |i: int| if i < pos { i } else { i + 1 };
    assert forall|i: int| 0 <= i < s.len() implies s2[m(i)] == s[i] by {}
    assert(table_wf(s2)) by {
        assert forall|i: int, j: int|
            0 <= i < s2.len() && 0 <= j < s2.len() && i != j implies s2[i].0 != s2[j].0 by {
            if i != pos && j != pos {
                let i0 = if i < pos { i } else { i - 1 };
                let j0 = if j < pos { j } else { j - 1 };
                assert(s2[i] == s[i0] && s2[j] == s[j0]);
            } else if i != pos {
                let i0 = if i < pos { i } else { i - 1 };
                assert(s2[i] == s[i0]);
            } else {
                let j0 = if j < pos { j } else { j - 1 };
                assert(s2[j] == s[j0]);
            }
        }
        assert forall|i: int| 0 <= i < s2.len() implies (#[trigger] s2[i]).0 == s2[i].1.id by {
            if i != pos {
                let i0 = if i < pos { i } else { i - 1 };
                assert(s2[i] == s[i0]);
            }
        }
    }
    if children_consistent(s) && tv.children.len() == 0 {
        assert forall|a: int, b: int|
            0 <= a < s2.len() && 0 <= b < s2[a].1.children.len() implies exists|k: int|
            0 <= k < s2.len() && s2[k].0 == #[trigger] s2[a].1.children[b] && s2[k].1.parent
                == ParentTask::Id(s2[a].0) by {
            if a == pos {
                assert(s2[a].1.children.len() == 0);
            } else {
                let a0 = if a < pos { a } else { a - 1 };
                assert(s2[a] == s[a0]);
                let c = s[a0].1.children[b];
                let k = choose|k: int|
                    0 <= k < s.len() && s[k].0 == c && s[k].1.parent == ParentTask::Id(s[a0].0);
                assert(s2[m(k)] == s[k]);
            }
        }
    }
}

/// A prefix holds no more top-level tasks than a longer prefix.
pub(crate) proof fn lemma_roots_prefix(s: Seq<(u64, TaskView)>, i: int, j: int)
    requires
        0 <= i <= j <= s.len(),
    ensures
        roots_of(s.subrange(0, i)).len() <= roots_of(s.subrange(0, j)).len(),
    decreases j - i,
{
    if i < j {
        lemma_roots_prefix(s, i, j - 1);
        assert(s.subrange(0, j).drop_last() == s.subrange(0, j - 1));
    }
}

/// Every task listed in a subtree is present in the table under its own id.
pub proof fn lemma_rows_present(s: Seq<(u64, TaskView)>, opened: ParentTask)
    requires
        table_wf(s),
    ensures
        forall|i: int|
            0 <= i < opened_children(s, opened).len() ==> lookup(
                s,
                (#[trigger] opened_children(s, opened)[i]).id,
            ) == Some(opened_children(s, opened)[i]),
{
    match opened {
        ParentTask::Root => {
            lemma_roots_present(s, s.len() as int);
            assert(s.subrange(0, s.len() as int) == s);
        },
        ParentTask::Id(p) => {
            if has_key(s, p) {
                let ids = s[key_index(s, p)].1.children;
                lemma_resolve_present(s, ids);
            }
        },
    }
}

pub(crate) proof fn lemma_roots_present(s: Seq<(u64, TaskView)>, n: int)
    requires
        table_wf(s),
        0 <= n <= s.len(),
    ensures
        forall|i: int|
            0 <= i < roots_of(s.subrange(0, n)).len() ==> lookup(
                s,
                (#[trigger] roots_of(s.subrange(0, n))[i]).id,
            ) == Some(roots_of(s.subrange(0, n))[i]),
    decreases n,
{
    if n > 0 {
        lemma_roots_present(s, n - 1);
        assert(s.subrange(0, n).drop_last() == s.subrange(0, n - 1));
        lemma_lookup_at(s, n - 1);
    }
    if n == s.len() {
        assert(s.subrange(0, n) == s);
    }
}

pub(crate) proof fn lemma_resolve_present(s: Seq<(u64, TaskView)>, ids: Seq<u64>)
    requires
        table_wf(s),
    ensures
        forall|i: int|
            0 <= i < resolve(s, ids).len() ==> lookup(s, (#[trigger] resolve(s, ids)[i]).id) == Some(
                resolve(s, ids)[i],
            ),
    decreases ids.len(),
{
    if ids.len() > 0 {
        lemma_resolve_present(s, ids.drop_last());
        if has_key(s, ids.last()) {
            lemma_lookup_at(s, key_index(s, ids.last()));
        }
    }
}

} // verus!
