//! The ordered task table, kept in an `indexmap::IndexMap` keyed by task id.
//!
//! The map itself is opaque to the verifier; its contents are named by
//! `table_entries`, the sequence of (key, task) pairs in the map's order, and
//! each operation used by the library is stated over that sequence.

use vstd::prelude::*;
use indexmap::IndexMap;
use crate::entities::{Task, TaskView};

verus! {

#[verifier::external_type_specification]
#[verifier::external_body]
#[verifier::reject_recursive_types(K)]
#[verifier::reject_recursive_types(V)]
#[verifier::reject_recursive_types(S)]
pub struct ExIndexMap<K, V, S>(IndexMap<K, V, S>);

/// The pairs held by a task table, in the table's order.
pub uninterp spec fn table_entries(m: IndexMap<u64, Task>) -> Seq<(u64, TaskView)>;

/// No key occurs twice.
pub open spec fn keys_unique(s: Seq<(u64, TaskView)>) -> bool {
    forall|i: int, j: int| 0 <= i < s.len() && 0 <= j < s.len() && i != j ==> s[i].0 != s[j].0
}

/// Whether some pair has key `k`.
pub open spec fn has_key(s: Seq<(u64, TaskView)>, k: u64) -> bool {
    exists|i: int| 0 <= i < s.len() && s[i].0 == k
}

/// Relies on `IndexMap::new`: a new map is empty.
#[verifier::external_body]
pub(crate) fn table_new() -> (r: IndexMap<u64, Task>)
    ensures
        table_entries(r) == Seq::<(u64, TaskView)>::empty(),
{
    IndexMap::new()
}

/// Relies on `IndexMap::len`: the number of pairs.
#[verifier::external_body]
pub(crate) fn table_len(m: &IndexMap<u64, Task>) -> (r: usize)
    ensures
        r == table_entries(*m).len(),
{
    m.len()
}

/// Relies on `IndexMap::get_index_of`: the position of a key, if present.
#[verifier::external_body]
pub(crate) fn table_index_of(m: &IndexMap<u64, Task>, k: u64) -> (r: Option<usize>)
    ensures
        match r {
            Some(i) => i < table_entries(*m).len() && table_entries(*m)[i as int].0 == k,
            None => !has_key(table_entries(*m), k),
        },
{
    m.get_index_of(&k)
}

/// Relies on `IndexMap::get_index`: the pair at a position, if in bounds.
#[verifier::external_body]
pub(crate) fn table_get_index(m: &IndexMap<u64, Task>, i: usize) -> (r: Option<(&u64, &Task)>)
    ensures
        match r {
            Some(p) => i < table_entries(*m).len() && *p.0 == table_entries(*m)[i as int].0
                && p.1@ == table_entries(*m)[i as int].1,
            None => i >= table_entries(*m).len(),
        },
{
    m.get_index(i)
}

/// Relies on `IndexMap::insert`: a present key keeps its place and gets the
/// new value, the old one being returned; a new key goes last.
#[verifier::external_body]
pub(crate) fn table_insert(m: &mut IndexMap<u64, Task>, k: u64, v: Task) -> (r: Option<Task>)
    ensures
        match r {
            Some(prev) => exists|i: int|
                0 <= i < table_entries(*old(m)).len() && table_entries(*old(m))[i].0 == k
                    && prev@ == table_entries(*old(m))[i].1
                    && table_entries(*final(m)) == table_entries(*old(m)).update(i, (k, v@)),
            None => !has_key(table_entries(*old(m)), k) && table_entries(*final(m))
                == table_entries(*old(m)).push((k, v@)),
        },
{
    m.insert(k, v)
}

/// Relies on `IndexMap::shift_insert` for a key not yet present: the pair is
/// placed at `index` and the pairs from there on move one place back.
#[verifier::external_body]
pub(crate) fn table_shift_insert(m: &mut IndexMap<u64, Task>, index: usize, k: u64, v: Task)
    requires
        index <= table_entries(*old(m)).len(),
        !has_key(table_entries(*old(m)), k),
    ensures
        table_entries(*final(m)) == table_entries(*old(m)).insert(index as int, (k, v@)),
{
    m.shift_insert(index, k, v);
}

/// Relies on `IndexMap::shift_remove`: the pair with key `k` is taken out and
/// the pairs after it move one place forward.
#[verifier::external_body]
pub(crate) fn table_shift_remove(m: &mut IndexMap<u64, Task>, k: u64) -> (r: Option<Task>)
    ensures
        match r {
            Some(prev) => exists|i: int|
                0 <= i < table_entries(*old(m)).len() && table_entries(*old(m))[i].0 == k
                    && prev@ == table_entries(*old(m))[i].1
                    && table_entries(*final(m)) == table_entries(*old(m)).remove(i),
            None => !has_key(table_entries(*old(m)), k) && table_entries(*final(m))
                == table_entries(*old(m)),
        },
{
    m.shift_remove(&k)
}

/// Relies on `IndexMap::swap_indices`: the pairs at two positions trade places.
#[verifier::external_body]
pub(crate) fn table_swap_indices(m: &mut IndexMap<u64, Task>, a: usize, b: usize)
    requires
        a < table_entries(*old(m)).len(),
        b < table_entries(*old(m)).len(),
    ensures
        table_entries(*final(m)) == table_entries(*old(m)).update(
            a as int,
            table_entries(*old(m))[b as int],
        ).update(b as int, table_entries(*old(m))[a as int]),
{
    m.swap_indices(a, b)
}

/// Relies on `IndexMap::clone`, which clones each pair in order (the task
/// clone is the derived, field-by-field one).
#[verifier::external_body]
pub(crate) fn table_clone(m: &IndexMap<u64, Task>) -> (r: IndexMap<u64, Task>)
    ensures
        table_entries(r) == table_entries(*m),
{
    m.clone()
}

} // verus!
