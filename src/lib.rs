//! A hierarchical task list: a flat table of tasks linked by parent
//! references, a per-subtree view position, whole-state undo/redo history and
//! the editing controller that composes them.

pub mod entities;
pub mod table;
pub mod view;
pub mod links;
pub mod storage;
pub mod history;
pub mod app;
pub mod disk;
pub mod tree;
