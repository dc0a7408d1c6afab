//! Which subtree is open, and the row last selected in each subtree visited.

use vstd::prelude::*;
use crate::entities::ParentTask;

verus! {

broadcast use vstd::seq_lib::group_filter_ensures;

/// The remembered row of `key`: the first record for it, if any.
pub open spec fn position_in(ps: Seq<(ParentTask, usize)>, key: ParentTask) -> Option<usize> {
    if exists|i: int| 0 <= i < ps.len() && ps[i].0 == key {
        let i = choose|i: int|
            0 <= i < ps.len() && ps[i].0 == key && forall|j: int| 0 <= j < i ==> ps[j].0 != key;
        Some(ps[i].1)
    } else {
        None
    }
}

/// Records that belong to a subtree other than `key`.
pub open spec fn other_than(key: ParentTask) -> spec_fn((ParentTask, usize)) -> bool {
    |p: (ParentTask, usize)| p.0 != key
}

/// The first match of `key` in `ps` is at `i`.
proof fn lemma_first_match(ps: Seq<(ParentTask, usize)>, key: ParentTask, i: int)
    requires
        0 <= i < ps.len(),
        ps[i].0 == key,
        forall|j: int| 0 <= j < i ==> ps[j].0 != key,
    ensures
        position_in(ps, key) == Some(ps[i].1),
{
    let k = choose|k: int|
        0 <= k < ps.len() && ps[k].0 == key && forall|j: int| 0 <= j < k ==> ps[j].0 != key;
    assert(0 <= k < ps.len() && ps[k].0 == key && forall|j: int| 0 <= j < k ==> ps[j].0 != key);
    if k < i {
        assert(ps[k].0 != key);
    } else if i < k {
        assert(ps[i].0 != key);
    }
}

/// The open subtree and the selection memory.
#[derive(Debug)]
pub struct ViewStorage {
    pub opened_task: ParentTask,
    pub positions_in_opened_task: Vec<(ParentTask, usize)>,
}

impl Default for ViewStorage {
    fn default() -> (r: ViewStorage)
        ensures
            r.opened_task == ParentTask::Root,
            r.positions_in_opened_task@ == Seq::<(ParentTask, usize)>::empty(),
    {
        ViewStorage { opened_task: ParentTask::Root, positions_in_opened_task: Vec::new() }
    }
}

impl ViewStorage {
    /// The row remembered for the open subtree.
    pub open spec fn selected_spec(&self) -> Option<usize> {
        position_in(self.positions_in_opened_task@, self.opened_task)
    }

    pub fn get_opened_task(&self) -> (r: ParentTask)
        ensures
            r == self.opened_task,
    {
        self.opened_task
    }

    /// Opens another subtree; the selection memory is kept.
    pub fn set_opened_task(&mut self, opened_task: ParentTask)
        ensures
            final(self).opened_task == opened_task,
            final(self).positions_in_opened_task == old(self).positions_in_opened_task,
    {
        self.opened_task = opened_task;
    }

    /// The row remembered for the open subtree, if it was ever visited.
    pub fn get_selected_position(&self) -> (r: Option<usize>)
        ensures
            r == self.selected_spec(),
    {
        let ps = &self.positions_in_opened_task;
        let mut i: usize = 0;
        while i < ps.len()
            invariant
                i <= ps@.len(),
                ps@ == self.positions_in_opened_task@,
                forall|j: int| 0 <= j < i ==> ps@[j].0 != self.opened_task,
            decreases ps@.len() - i,
        {
            if ps[i].0 == self.opened_task {
                proof {
                    assert(ps@[i as int].0 == self.opened_task);
                    lemma_first_match(self.positions_in_opened_task@, self.opened_task, i as int);
                }
                return Some(ps[i].1);
            }
            i += 1;
        }
        None
    }

    /// Remembers `index` as the row of the open subtree, replacing any earlier
    /// record for it.
    pub fn set_selected_position(&mut self, index: usize)
        ensures
            final(self).opened_task == old(self).opened_task,
            final(self).positions_in_opened_task@ == old(
                self,
            ).positions_in_opened_task@.filter(other_than(old(self).opened_task)).push(
                (old(self).opened_task, index),
            ),
            final(self).selected_spec() == Some(index),
    {
        let key = self.opened_task;
        let ghost ps = self.positions_in_opened_task@;
        let mut kept: Vec<(ParentTask, usize)> = Vec::new();
        let mut i: usize = 0;
        while i < self.positions_in_opened_task.len()
            invariant
                i <= ps.len(),
                self.positions_in_opened_task@ == ps,
                kept@ == ps.subrange(0, i as int).filter(other_than(key)),
            decreases ps.len() - i,
        {
            let p = self.positions_in_opened_task[i];
            proof {
                assert(ps.subrange(0, i + 1) == ps.subrange(0, i as int).push(p));
                ps.subrange(0, i as int).lemma_filter_push(p, other_than(key));
            }
            if p.0 != key {
                kept.push(p);
            }
            i += 1;
        }
        proof {
            assert(ps.subrange(0, ps.len() as int) == ps);
        }
        kept.push((key, index));
        self.positions_in_opened_task = kept;
        proof {
            let f = ps.filter(other_than(key));
            let n = self.positions_in_opened_task@;
            assert forall|j: int| 0 <= j < f.len() implies n[j].0 != key by {
                assert(other_than(key)(f[j]));
            }
            lemma_first_match(n, key, f.len() as int);
        }
    }
}

} // verus!
