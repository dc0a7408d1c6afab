use nest::entities::{ParentTask, Task, TaskData};
use nest::storage::AppStorage;
use nest::view::ViewStorage;

fn data(title: &str) -> TaskData {
    TaskData { title: title.to_string(), children: vec![], done: false }
}

fn ids(tasks: &[&Task]) -> Vec<u64> {
    tasks.iter().map(|t| t.id).collect()
}

#[test]
fn ids_are_one_more_than_the_largest() {
    let mut s = AppStorage::new();
    assert_eq!(s.insert_task(ParentTask::Root, data("a")), Some(1));
    assert_eq!(s.insert_task(ParentTask::Root, data("b")), Some(2));
    s.remove_task(1);
    assert_eq!(s.insert_task(ParentTask::Root, data("c")), Some(3));
    s.remove_task(3);
    assert_eq!(s.insert_task(ParentTask::Root, data("d")), Some(3));
}

#[test]
fn ids_exhausted() {
    let mut s = AppStorage::new();
    s.tasks.insert(u64::MAX, Task { id: u64::MAX, parent: ParentTask::Root, title: "m".to_string(), children: vec![], done: false });
    assert_eq!(s.insert_task(ParentTask::Root, data("x")), None);
    assert_eq!(s.tasks.len(), 1);
}

#[test]
fn insert_under_parent_appends_child() {
    let mut s = AppStorage::new();
    s.insert_task(ParentTask::Root, data("p"));
    assert_eq!(s.insert_task(ParentTask::Id(1), data("c1")), Some(2));
    assert_eq!(s.insert_task(ParentTask::Id(1), data("c2")), Some(3));
    assert_eq!(s.get_task(1).unwrap().children, vec![2, 3]);
    assert_eq!(s.get_task(3).unwrap().parent, ParentTask::Id(1));
    assert_eq!(ids(&s.find_sub_tasks(1)), vec![2, 3]);
    assert_eq!(ids(&s.find_root_tasks()), vec![1]);
}

#[test]
fn insert_under_missing_parent_creates_it() {
    let mut s = AppStorage::new();
    assert_eq!(s.insert_task(ParentTask::Id(7), data("c")), Some(8));
    let p = s.get_task(7).unwrap();
    assert_eq!(p.id, 7);
    assert_eq!(p.parent, ParentTask::Root);
    assert_eq!(p.title, "");
    assert_eq!(p.children, vec![8]);
    assert_eq!(ids(&s.find_root_tasks()), vec![7]);
}

#[test]
fn remove_detaches_from_parent() {
    let mut s = AppStorage::new();
    s.insert_task(ParentTask::Root, data("p"));
    s.insert_task(ParentTask::Id(1), data("c1"));
    s.insert_task(ParentTask::Id(1), data("c2"));
    s.insert_task(ParentTask::Id(2), data("g"));
    let removed = s.remove_task(2).unwrap();
    assert_eq!(removed.title, "c1");
    assert_eq!(s.get_task(1).unwrap().children, vec![3]);
    assert!(s.get_task(2).is_none());
    assert_eq!(s.get_task(4).unwrap().parent, ParentTask::Id(2));
    assert!(s.remove_task(2).is_none());
    assert_eq!(s.tasks.len(), 3);
}

#[test]
fn remove_keeps_table_order() {
    let mut s = AppStorage::new();
    s.insert_task(ParentTask::Root, data("a"));
    s.insert_task(ParentTask::Root, data("b"));
    s.insert_task(ParentTask::Root, data("c"));
    s.remove_task(2);
    assert_eq!(ids(&s.find_root_tasks()), vec![1, 3]);
}

#[test]
fn rename_and_mark_done() {
    let mut s = AppStorage::new();
    s.insert_task(ParentTask::Root, data("a"));
    s.update_task_title(1, "b".to_string());
    s.update_task_state(1, true);
    let t = s.get_task(1).unwrap();
    assert_eq!(t.title, "b");
    assert!(t.done);
    s.update_task_title(9, "x".to_string());
    s.update_task_state(9, true);
    assert_eq!(s.tasks.len(), 1);
}

#[test]
fn swap_at_top_level_uses_table_order() {
    let mut s = AppStorage::new();
    s.insert_task(ParentTask::Root, data("a"));
    s.insert_task(ParentTask::Root, data("b"));
    s.insert_task(ParentTask::Id(1), data("c"));
    assert_eq!(s.swap_current_sub_tasks(1, 2), Some(()));
    assert_eq!(ids(&s.find_root_tasks()), vec![2, 1]);
    assert_eq!(s.swap_current_sub_tasks(1, 3), None);
    assert_eq!(s.swap_current_sub_tasks(1, 9), None);
    assert_eq!(ids(&s.find_root_tasks()), vec![2, 1]);
}

#[test]
fn swap_in_subtree() {
    let mut s = AppStorage::new();
    s.insert_task(ParentTask::Root, data("p"));
    s.insert_task(ParentTask::Id(1), data("a"));
    s.insert_task(ParentTask::Id(1), data("b"));
    s.insert_task(ParentTask::Id(1), data("c"));
    s.set_opened_task(ParentTask::Id(1));
    assert_eq!(s.swap_current_sub_tasks(2, 4), Some(()));
    assert_eq!(s.get_task(1).unwrap().children, vec![4, 3, 2]);
    assert_eq!(ids(&s.find_opened_sub_tasks()), vec![4, 3, 2]);
    assert_eq!(s.swap_current_sub_tasks(2, 1), None);
    s.set_opened_task(ParentTask::Id(9));
    assert_eq!(s.swap_current_sub_tasks(2, 3), None);
}

#[test]
fn insert_at_position_in_subtree() {
    let mut s = AppStorage::new();
    s.insert_task(ParentTask::Root, data("p"));
    s.insert_task(ParentTask::Id(1), data("a"));
    s.insert_task(ParentTask::Id(1), data("b"));
    assert_eq!(s.insert_task_at(ParentTask::Id(1), data("x"), 1), Some(()));
    assert_eq!(s.get_task(1).unwrap().children, vec![2, 4, 3]);
    assert_eq!(s.get_task(4).unwrap().parent, ParentTask::Id(1));
    assert_eq!(s.insert_task_at(ParentTask::Id(1), data("y"), 9), None);
    assert_eq!(s.tasks.len(), 4);
}

#[test]
fn insert_at_position_at_top_level() {
    let mut s = AppStorage::new();
    s.insert_task(ParentTask::Root, data("a"));
    s.insert_task(ParentTask::Id(1), data("a1"));
    s.insert_task(ParentTask::Root, data("b"));
    assert_eq!(s.insert_task_at(ParentTask::Root, data("x"), 1), Some(()));
    assert_eq!(ids(&s.find_root_tasks()), vec![1, 4, 3]);
    let order: Vec<u64> = s.tasks.keys().copied().collect();
    assert_eq!(order, vec![1, 2, 4, 3]);
    assert_eq!(s.insert_task_at(ParentTask::Root, data("y"), 0), Some(()));
    assert_eq!(ids(&s.find_root_tasks()), vec![5, 1, 4, 3]);
    assert_eq!(s.insert_task_at(ParentTask::Root, data("z"), 4), Some(()));
    assert_eq!(ids(&s.find_root_tasks()), vec![5, 1, 4, 3, 6]);
    assert_eq!(s.insert_task_at(ParentTask::Root, data("w"), 9), None);
}

#[test]
fn parents_stack_walks_up() {
    let mut s = AppStorage::new();
    s.insert_task(ParentTask::Root, data("a"));
    s.insert_task(ParentTask::Id(1), data("b"));
    s.insert_task(ParentTask::Id(2), data("c"));
    assert!(s.find_parents_stack().is_empty());
    s.set_opened_task(ParentTask::Id(3));
    assert_eq!(ids(&s.find_parents_stack()), vec![3, 2, 1]);
    s.remove_task(2);
    assert_eq!(ids(&s.find_parents_stack()), vec![3]);
}

#[test]
fn parents_stack_stops_on_a_cycle() {
    let mut s = AppStorage::new();
    s.tasks.insert(1, Task { id: 1, parent: ParentTask::Id(2), title: "a".to_string(), children: vec![], done: false });
    s.tasks.insert(2, Task { id: 2, parent: ParentTask::Id(1), title: "b".to_string(), children: vec![], done: false });
    s.set_opened_task(ParentTask::Id(1));
    assert_eq!(ids(&s.find_parents_stack()), vec![1, 2]);
}

#[test]
fn sub_tasks_skip_missing_ids() {
    let mut s = AppStorage::new();
    s.tasks.insert(1, Task { id: 1, parent: ParentTask::Root, title: "p".to_string(), children: vec![5, 2], done: false });
    s.tasks.insert(2, Task { id: 2, parent: ParentTask::Id(1), title: "c".to_string(), children: vec![], done: false });
    assert_eq!(ids(&s.find_sub_tasks(1)), vec![2]);
    assert!(s.find_sub_tasks(9).is_empty());
    assert!(s.get_task(9).is_none());
}

#[test]
fn view_memory_per_subtree() {
    let mut v = ViewStorage::default();
    assert_eq!(v.get_selected_position(), None);
    v.set_selected_position(3);
    v.set_opened_task(ParentTask::Id(4));
    assert_eq!(v.get_opened_task(), ParentTask::Id(4));
    assert_eq!(v.get_selected_position(), None);
    v.set_selected_position(1);
    v.set_selected_position(2);
    assert_eq!(v.get_selected_position(), Some(2));
    assert_eq!(v.positions_in_opened_task.len(), 2);
    v.set_opened_task(ParentTask::Root);
    assert_eq!(v.get_selected_position(), Some(3));
}

#[test]
fn with_data_keeps_identity() {
    let t = Task { id: 5, parent: ParentTask::Id(2), title: "old".to_string(), children: vec![1], done: true };
    let n = t.with_data(TaskData { title: "new".to_string(), children: vec![7, 8], done: false });
    assert_eq!(n.id, 5);
    assert_eq!(n.parent, ParentTask::Id(2));
    assert_eq!(n.title, "new");
    assert_eq!(n.children, vec![7, 8]);
    assert!(!n.done);
    let d = TaskData::from(n);
    assert_eq!(d.title, "new");
    assert_eq!(ParentTask::default(), ParentTask::Root);
    assert_eq!(Task::default().id, 0);
}

#[test]
fn swap_with_explicit_context() {
    let mut s = AppStorage::new();
    s.insert_task(ParentTask::Root, data("p"));
    s.insert_task(ParentTask::Id(1), data("a"));
    s.insert_task(ParentTask::Id(1), data("b"));
    s.insert_task(ParentTask::Root, data("q"));
    assert_eq!(s.get_opened_task(), ParentTask::Root);
    assert_eq!(s.swap_sub_tasks(ParentTask::Id(1), 2, 3), Some(()));
    assert_eq!(s.get_task(1).unwrap().children, vec![3, 2]);
    assert_eq!(s.swap_sub_tasks(ParentTask::Id(1), 2, 2), Some(()));
    assert_eq!(s.get_task(1).unwrap().children, vec![3, 2]);
    assert_eq!(s.swap_sub_tasks(ParentTask::Id(1), 2, 4), None);
    assert_eq!(s.swap_sub_tasks(ParentTask::Root, 1, 4), Some(()));
    assert_eq!(ids(&s.find_root_tasks()), vec![4, 1]);
    assert_eq!(s.swap_sub_tasks(ParentTask::Root, 1, 2), None);
}
