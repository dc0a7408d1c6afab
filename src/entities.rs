//! The task record and the reference from a task to its parent.

use vstd::prelude::*;

verus! {

/// Where a task hangs in the tree: at the top level, or under another task.
#[derive(Debug, Clone, Copy, PartialEq, Eq, Hash, Structural)]
pub enum ParentTask {
    Root,
    Id(u64),
}

impl Default for ParentTask {
    fn default() -> (r: ParentTask)
        ensures
            r == ParentTask::Root,
    {
        ParentTask::Root
    }
}

/// The editable content of a task, without its identity and place.
#[derive(Debug, Clone, PartialEq)]
pub struct TaskData {
    pub title: String,
    pub children: Vec<u64>,
    pub done: bool,
}

/// The mathematical value of task content.
pub struct TaskContent {
    pub title: Seq<char>,
    pub children: Seq<u64>,
    pub done: bool,
}

impl View for TaskData {
    type V = TaskContent;

    open spec fn view(&self) -> TaskContent {
        TaskContent { title: self.title@, children: self.children@, done: self.done }
    }
}

/// A task as stored in the table.
#[derive(Debug, Clone, PartialEq)]
pub struct Task {
    pub id: u64,
    pub parent: ParentTask,
    pub title: String,
    pub children: Vec<u64>,
    pub done: bool,
}

/// The mathematical value of a task.
pub struct TaskView {
    pub id: u64,
    pub parent: ParentTask,
    pub title: Seq<char>,
    pub children: Seq<u64>,
    pub done: bool,
}

impl View for Task {
    type V = TaskView;

    open spec fn view(&self) -> TaskView {
        TaskView {
            id: self.id,
            parent: self.parent,
            title: self.title@,
            children: self.children@,
            done: self.done,
        }
    }
}

/// A task with no title, no children and not done.
pub open spec fn empty_task_view(id: u64, parent: ParentTask) -> TaskView {
    TaskView { id, parent, title: Seq::empty(), children: Seq::empty(), done: false }
}

impl Task {
    /// A fresh task with the given identity and place and no content.
    pub fn empty(id: u64, parent: ParentTask) -> (r: Task)
        ensures
            r@ == empty_task_view(id, parent),
    {
        Task { id, parent, title: String::new(), children: Vec::new(), done: false }
    }

    /// Keeps the identity and place of `self` and takes all content from `data`.
    pub fn with_data(self, data: TaskData) -> (r: Task)
        ensures
            r@ == (TaskView {
                id: self.id,
                parent: self.parent,
                title: data.title@,
                children: data.children@,
                done: data.done,
            }),
    {
        Task {
            id: self.id,
            parent: self.parent,
            title: data.title,
            children: data.children,
            done: data.done,
        }
    }
}

impl Default for Task {
    fn default() -> (r: Task)
        ensures
            r@ == empty_task_view(0, ParentTask::Root),
    {
        Task::empty(0, ParentTask::Root)
    }
}

impl From<Task> for TaskData {
    fn from(task: Task) -> (r: TaskData) {
        TaskData { title: task.title, children: task.children, done: task.done }
    }
}

impl vstd::std_specs::convert::FromSpecImpl<Task> for TaskData {
    open spec fn obeys_from_spec() -> bool {
        true
    }

    open spec fn from_spec(task: Task) -> TaskData {
        TaskData { title: task.title, children: task.children, done: task.done }
    }
}

} // verus!
