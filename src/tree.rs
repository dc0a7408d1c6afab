//! A tree of text elements owning its children, addressed by index paths: a
//! path lists, from the root down, the position of each child to descend to.

use vstd::prelude::*;

verus! {

/// A text element and the elements under it.
#[derive(Debug, PartialEq)]
pub struct ElementTree {
    pub children: Vec<ElementTree>,
    pub text: String,
}

/// Every index of `path` but the last names an existing child on the way
/// down; the path is not empty.
pub open spec fn prefix_valid(t: ElementTree, path: Seq<usize>) -> bool
    decreases path.len(),
{
    if path.len() <= 1 {
        path.len() == 1
    } else {
        path[0] < t.children@.len() && prefix_valid(t.children@[path[0] as int], path.drop_first())
    }
}

/// Every index of `path` names an existing child; the path is not empty.
pub open spec fn path_valid(t: ElementTree, path: Seq<usize>) -> bool
    decreases path.len(),
{
    &&& path.len() >= 1
    &&& path[0] < t.children@.len()
    &&& path.len() > 1 ==> path_valid(t.children@[path[0] as int], path.drop_first())
}

/// The element that `path` names, if its last index is in range.
pub open spec fn node_at(t: ElementTree, path: Seq<usize>) -> Option<ElementTree>
    decreases path.len(),
{
    if path.len() == 0 {
        None
    } else if path.len() == 1 {
        if path[0] < t.children@.len() {
            Some(t.children@[path[0] as int])
        } else {
            None
        }
    } else if path[0] < t.children@.len() {
        node_at(t.children@[path[0] as int], path.drop_first())
    } else {
        None
    }
}

/// `new` is `old` with the children list at the end of `path` changed by
/// `last`: the element `path` names is taken out (`None`) or `node` is put at
/// the last index of `path` (`Some(node)`); everything else is the same.
pub open spec fn edited_at(old: ElementTree, new: ElementTree, path: Seq<usize>, last: Option<ElementTree>) -> bool
    decreases path.len(),
{
    &&& new.text == old.text
    &&& path.len() >= 1
    &&& if path.len() == 1 {
        match last {
            None => new.children@ == old.children@.remove(path[0] as int),
            Some(node) => new.children@ == old.children@.insert(path[0] as int, node),
        }
    } else {
        let i = path[0] as int;
        &&& new.children@.len() == old.children@.len()
        &&& forall|j: int| 0 <= j < old.children@.len() && j != i ==> new.children@[j] == old.children@[j]
        &&& edited_at(old.children@[i], new.children@[i], path.drop_first(), last)
    }
}

impl ElementTree {
    /// An element with no children.
    pub fn new_leaf(text: &str) -> (r: ElementTree)
        ensures
            r.children@.len() == 0,
            r.text@ == text@,
    {
        ElementTree { children: Vec::new(), text: text.to_owned() }
    }

    /// An element over the given children.
    pub fn new_branch(text: &str, children: Vec<ElementTree>) -> (r: ElementTree)
        ensures
            r.children == children,
            r.text@ == text@,
    {
        ElementTree { children, text: text.to_owned() }
    }

    /// Takes out and returns the element that `node_path` names.
    pub fn remove_node(&mut self, node_path: &[usize]) -> (r: ElementTree)
        requires
            path_valid(*old(self), node_path@),
        ensures
            node_at(*old(self), node_path@) == Some(r),
            edited_at(*old(self), *final(self), node_path@, None),
    {
        proof {
            assert(node_path@.subrange(0, node_path@.len() as int) == node_path@);
        }
        self.remove_from(node_path, 0)
    }

    fn remove_from(&mut self, node_path: &[usize], d: usize) -> (r: ElementTree)
        requires
            d < node_path@.len(),
            path_valid(*old(self), node_path@.subrange(d as int, node_path@.len() as int)),
        ensures
            node_at(*old(self), node_path@.subrange(d as int, node_path@.len() as int)) == Some(r),
            edited_at(*old(self), *final(self), node_path@.subrange(d as int, node_path@.len() as int), None),
        decreases node_path@.len() - d,
    {
        let ghost rest = node_path@.subrange(d as int, node_path@.len() as int);
        let i = node_path[d];
        proof {
            assert(rest[0] == i);
        }
        if d + 1 == node_path.len() {
            self.children.remove(i)
        } else {
            proof {
                assert(rest.drop_first() == node_path@.subrange(d + 1, node_path@.len() as int));
            }
            let mut child = self.children.remove(i);
            let r = child.remove_from(node_path, d + 1);
            self.children.insert(i, child);
            proof {
                let o = old(self).children@;
                let n = self.children@;
                assert forall|j: int| 0 <= j < o.len() && j != i implies n[j] == o[j] by {
                    if j < i {
                    } else {
                        assert(n[j] == o.remove(i as int)[j - 1]);
                    }
                }
            }
            r
        }
    }

    /// Puts `new_node` at the position that `node_path` names, moving later
    /// siblings one place on.
    pub fn insert_node(&mut self, node_path: &[usize], new_node: ElementTree)
        requires
            prefix_valid(*old(self), node_path@),
            node_path@[node_path@.len() - 1] <= node_at_parent_len(*old(self), node_path@),
        ensures
            edited_at(*old(self), *final(self), node_path@, Some(new_node)),
    {
        proof {
            assert(node_path@.subrange(0, node_path@.len() as int) == node_path@);
        }
        self.insert_from(node_path, 0, new_node)
    }

    fn insert_from(&mut self, node_path: &[usize], d: usize, new_node: ElementTree)
        requires
            d < node_path@.len(),
            prefix_valid(*old(self), node_path@.subrange(d as int, node_path@.len() as int)),
            node_path@[node_path@.len() - 1] <= node_at_parent_len(
                *old(self),
                node_path@.subrange(d as int, node_path@.len() as int),
            ),
        ensures
            edited_at(
                *old(self),
                *final(self),
                node_path@.subrange(d as int, node_path@.len() as int),
                Some(new_node),
            ),
        decreases node_path@.len() - d,
    {
        let ghost rest = node_path@.subrange(d as int, node_path@.len() as int);
        let i = node_path[d];
        proof {
            assert(rest[0] == i);
        }
        if d + 1 == node_path.len() {
            self.children.insert(i, new_node);
        } else {
            proof {
                assert(rest.drop_first() == node_path@.subrange(d + 1, node_path@.len() as int));
            }
            let mut child = self.children.remove(i);
            child.insert_from(node_path, d + 1, new_node);
            self.children.insert(i, child);
            proof {
                let o = old(self).children@;
                let n = self.children@;
                assert forall|j: int| 0 <= j < o.len() && j != i implies n[j] == o[j] by {
                    if j < i {
                    } else {
                        assert(n[j] == o.remove(i as int)[j - 1]);
                    }
                }
            }
        }
    }

    /// The element that `node_path` names; `None` when its last index is
    /// past the end.
    pub fn get_node(&self, node_path: &[usize]) -> (r: Option<&ElementTree>)
        requires
            prefix_valid(*self, node_path@),
        ensures
            match r {
                Some(n) => node_at(*self, node_path@) == Some(*n),
                None => node_at(*self, node_path@) is None,
            },
    {
        proof {
            assert(node_path@.subrange(0, node_path@.len() as int) == node_path@);
        }
        self.get_from(node_path, 0)
    }

    fn get_from(&self, node_path: &[usize], d: usize) -> (r: Option<&ElementTree>)
        requires
            d < node_path@.len(),
            prefix_valid(*self, node_path@.subrange(d as int, node_path@.len() as int)),
        ensures
            match r {
                Some(n) => node_at(*self, node_path@.subrange(d as int, node_path@.len() as int))
                    == Some(*n),
                None => node_at(*self, node_path@.subrange(d as int, node_path@.len() as int)) is None,
            },
        decreases node_path@.len() - d,
    {
        let ghost rest = node_path@.subrange(d as int, node_path@.len() as int);
        let i = node_path[d];
        proof {
            assert(rest[0] == i);
        }
        if d + 1 == node_path.len() {
            if i < self.children.len() {
                Some(&self.children[i])
            } else {
                None
            }
        } else {
            proof {
                assert(rest.drop_first() == node_path@.subrange(d + 1, node_path@.len() as int));
            }
            self.children[i].get_from(node_path, d + 1)
        }
    }
}

/// The number of children of the element whose children list the last index
/// of `path` points into.
pub open spec fn node_at_parent_len(t: ElementTree, path: Seq<usize>) -> int
    decreases path.len(),
{
    if path.len() <= 1 {
        t.children@.len() as int
    } else if path[0] < t.children@.len() {
        node_at_parent_len(t.children@[path[0] as int], path.drop_first())
    } else {
        0
    }
}

} // verus!
