use nest::app::{App, AppState};
use nest::disk::State;
use nest::entities::{ParentTask, Task};
use nest::storage::AppStorage;

fn new_app() -> App {
    App::new(AppStorage::new())
}

fn add(app: &mut App, title: &str) {
    app.init_insert_mode_to_insert_new_task();
    app.close_insert_mode_inserting_new_task(title.to_string());
}

fn titles(tasks: &[&Task]) -> Vec<String> {
    tasks.iter().map(|t| t.title.clone()).collect()
}

fn assert_links_consistent(storage: &AppStorage) {
    for (owner, task) in storage.tasks.iter() {
        for child in task.children.iter() {
            let c = storage.get_task(*child).expect("listed child is in the table");
            assert_eq!(c.parent, ParentTask::Id(*owner));
        }
    }
}

#[test]
fn insert_two_then_delete_selected() {
    let mut app = new_app();
    add(&mut app, "A");
    add(&mut app, "B");
    assert_eq!(app.storage.get_selected_position(), Some(1));
    assert_eq!(app.get_selected_task().unwrap().title, "B");
    assert_eq!(app.delete_selected_task(), Some(2));
    let roots = app.storage.find_root_tasks();
    assert_eq!(titles(&roots), vec!["A".to_string()]);
    assert_eq!(app.storage.get_selected_position(), Some(0));
}

#[test]
fn reopening_a_subtree_restores_its_row() {
    let mut app = new_app();
    add(&mut app, "A");
    assert_eq!(app.get_selected_task().unwrap().id, 1);
    app.open_selected_task();
    assert_eq!(app.storage.get_opened_task(), ParentTask::Id(1));
    add(&mut app, "A1");
    assert_eq!(app.storage.get_selected_position(), Some(0));
    assert_eq!(app.get_back_to_parent(), Some(()));
    assert_eq!(app.storage.get_opened_task(), ParentTask::Root);
    app.open_selected_task();
    assert_eq!(app.storage.get_opened_task(), ParentTask::Id(1));
    assert_eq!(app.storage.get_selected_position(), Some(0));
    assert_eq!(app.get_selected_task().unwrap().title, "A1");
}

#[test]
fn reopening_a_subtree_keeps_a_later_row() {
    let mut app = new_app();
    add(&mut app, "A");
    app.open_selected_task();
    add(&mut app, "A1");
    add(&mut app, "A2");
    add(&mut app, "A3");
    app.move_selection_up();
    assert_eq!(app.storage.get_selected_position(), Some(1));
    app.get_back_to_parent();
    assert_eq!(app.storage.get_selected_position(), Some(0));
    app.open_selected_task();
    assert_eq!(app.storage.get_selected_position(), Some(1));
    assert_eq!(app.get_selected_task().unwrap().title, "A2");
}

#[test]
fn empty_edit_changes_nothing() {
    let mut app = new_app();
    add(&mut app, "A");
    let undo_before = app.history.undo_stack.len();
    assert_eq!(app.init_insert_mode_to_edit_task_title(), Some(()));
    assert_eq!(app.state, AppState::EditTask { task_id: 1 });
    app.close_insert_mode_updating_task_title(String::new());
    assert_eq!(app.state, AppState::Normal);
    assert_eq!(app.storage.get_task(1).unwrap().title, "A");
    assert_eq!(app.history.undo_stack.len(), undo_before);
}

#[test]
fn empty_insert_changes_nothing() {
    let mut app = new_app();
    app.init_insert_mode_to_insert_new_task();
    app.close_insert_mode_inserting_new_task(String::new());
    assert_eq!(app.state, AppState::Normal);
    assert_eq!(app.storage.tasks.len(), 0);
    assert_eq!(app.history.undo_stack.len(), 0);
}

#[test]
fn rename_undo_redo() {
    let mut app = new_app();
    add(&mut app, "A");
    app.init_insert_mode_to_edit_task_title();
    app.close_insert_mode_updating_task_title("Z".to_string());
    assert_eq!(app.storage.get_task(1).unwrap().title, "Z");
    assert_eq!(app.undo(), Some(()));
    assert_eq!(app.storage.get_task(1).unwrap().title, "A");
    assert_eq!(app.storage.get_selected_position(), Some(0));
    assert_eq!(app.redo(), Some(()));
    assert_eq!(app.storage.get_task(1).unwrap().title, "Z");
    assert_eq!(app.redo(), None);
}

#[test]
fn undo_of_insert_restores_empty_store() {
    let mut app = new_app();
    add(&mut app, "A");
    assert_eq!(app.undo(), Some(()));
    assert_eq!(app.storage.tasks.len(), 0);
    assert_eq!(app.undo(), None);
    assert_eq!(app.redo(), Some(()));
    assert_eq!(app.storage.tasks.len(), 1);
    assert_eq!(app.storage.get_selected_position(), Some(0));
}

#[test]
fn new_edit_after_undo_discards_redo() {
    let mut app = new_app();
    add(&mut app, "A");
    add(&mut app, "B");
    assert_eq!(app.undo(), Some(()));
    assert_eq!(app.history.redo_stack.len(), 1);
    add(&mut app, "C");
    assert_eq!(app.history.redo_stack.len(), 0);
    assert_eq!(app.redo(), None);
    let roots = app.storage.find_root_tasks();
    assert_eq!(titles(&roots), vec!["A".to_string(), "C".to_string()]);
}

#[test]
fn selection_stays_within_rows() {
    let mut app = new_app();
    app.move_selection_down();
    assert_eq!(app.storage.get_selected_position(), Some(0));
    app.move_selection_to_bottom();
    assert_eq!(app.storage.get_selected_position(), Some(0));
    add(&mut app, "A");
    add(&mut app, "B");
    add(&mut app, "C");
    app.move_selection_to(Some(50));
    assert_eq!(app.storage.get_selected_position(), Some(2));
    app.move_selection_down();
    assert_eq!(app.storage.get_selected_position(), Some(2));
    app.move_selection_to_top();
    assert_eq!(app.storage.get_selected_position(), Some(0));
    app.move_selection_up();
    assert_eq!(app.storage.get_selected_position(), Some(0));
    app.move_selection_down();
    assert_eq!(app.storage.get_selected_position(), Some(1));
    app.move_selection_to(None);
    assert_eq!(app.storage.get_selected_position(), Some(0));
}

#[test]
fn opening_brings_a_stale_row_into_range() {
    let mut app = new_app();
    add(&mut app, "A");
    app.open_selected_task();
    add(&mut app, "A1");
    add(&mut app, "A2");
    app.get_back_to_parent();
    app.open_selected_task();
    assert_eq!(app.storage.get_selected_position(), Some(1));
    app.delete_selected_task();
    app.delete_selected_task();
    assert_eq!(app.storage.find_sub_tasks(1).len(), 0);
    app.get_back_to_parent();
    app.open_selected_task();
    assert_eq!(app.storage.get_selected_position(), Some(0));
}

#[test]
fn get_or_init_position() {
    let mut app = new_app();
    assert_eq!(app.storage.get_selected_position(), None);
    assert_eq!(app.get_or_init_selected_position(), 0);
    assert_eq!(app.storage.get_selected_position(), Some(0));
}

#[test]
fn back_to_parent_at_top_level_is_refused() {
    let mut app = new_app();
    assert_eq!(app.get_back_to_parent(), None);
    assert_eq!(app.storage.get_opened_task(), ParentTask::Root);
}

#[test]
fn toggle_done_and_undo() {
    let mut app = new_app();
    assert_eq!(app.update_done_state(), None);
    add(&mut app, "A");
    assert_eq!(app.update_done_state(), Some(()));
    assert!(app.storage.get_task(1).unwrap().done);
    assert_eq!(app.update_done_state(), Some(()));
    assert!(!app.storage.get_task(1).unwrap().done);
    app.undo();
    assert!(app.storage.get_task(1).unwrap().done);
}

#[test]
fn swap_rows_at_top_level() {
    let mut app = new_app();
    add(&mut app, "A");
    add(&mut app, "B");
    add(&mut app, "C");
    assert_eq!(app.swap_up(), Some(()));
    assert_eq!(titles(&app.find_opened_sub_tasks()), vec!["A", "C", "B"]);
    assert_eq!(app.storage.get_selected_position(), Some(1));
    assert_eq!(app.swap_up(), Some(()));
    assert_eq!(titles(&app.find_opened_sub_tasks()), vec!["C", "A", "B"]);
    assert_eq!(app.storage.get_selected_position(), Some(0));
    let undo_len = app.history.undo_stack.len();
    assert_eq!(app.swap_up(), Some(()));
    assert_eq!(app.history.undo_stack.len(), undo_len);
    assert_eq!(app.swap_down(), Some(()));
    assert_eq!(titles(&app.find_opened_sub_tasks()), vec!["A", "C", "B"]);
    assert_eq!(app.storage.get_selected_position(), Some(1));
    app.undo();
    assert_eq!(titles(&app.find_opened_sub_tasks()), vec!["C", "A", "B"]);
}

#[test]
fn swap_rows_in_subtree() {
    let mut app = new_app();
    add(&mut app, "P");
    app.open_selected_task();
    add(&mut app, "x");
    add(&mut app, "y");
    app.move_selection_to_top();
    assert_eq!(app.swap_down(), Some(()));
    assert_eq!(titles(&app.find_opened_sub_tasks()), vec!["y", "x"]);
    assert_eq!(app.storage.get_task(1).unwrap().children, vec![3, 2]);
    assert_eq!(app.storage.get_selected_position(), Some(1));
    assert_links_consistent(&app.storage);
}

#[test]
fn swap_without_rows_is_refused() {
    let mut app = new_app();
    assert_eq!(app.swap_up(), None);
    assert_eq!(app.swap_down(), None);
}

#[test]
fn parents_titles_closest_first() {
    let mut app = new_app();
    add(&mut app, "A");
    app.open_selected_task();
    add(&mut app, "B");
    app.open_selected_task();
    add(&mut app, "C");
    app.open_selected_task();
    assert_eq!(app.find_parents_titles(), vec!["C", "B", "A"]);
    assert_eq!(app.find_parents_stack().len(), 3);
    app.get_back_to_parent();
    assert_eq!(app.find_parents_titles(), vec!["B", "A"]);
}

#[test]
fn cancel_leaves_store_alone() {
    let mut app = new_app();
    app.init_insert_mode_to_insert_new_task();
    assert_eq!(app.state, AppState::InsertTask { parent: ParentTask::Root });
    app.cancel_insert_mode();
    assert_eq!(app.state, AppState::Normal);
    assert_eq!(app.init_insert_mode_to_edit_task_title(), None);
    assert_eq!(app.state, AppState::Normal);
}

#[test]
fn state_round_trip() {
    let mut app = new_app();
    add(&mut app, "A");
    add(&mut app, "B");
    app.open_selected_task();
    add(&mut app, "B1");
    let saved = State::from_app(&app);
    assert_eq!(saved.tasks.len(), 3);
    let loaded = saved.into_app();
    let a: Vec<(u64, Task)> = app.storage.tasks.iter().map(|(k, v)| (*k, v.clone())).collect();
    let b: Vec<(u64, Task)> = loaded.storage.tasks.iter().map(|(k, v)| (*k, v.clone())).collect();
    assert_eq!(a, b);
    assert_eq!(loaded.storage.get_opened_task(), app.storage.get_opened_task());
    assert_eq!(loaded.storage.view.positions_in_opened_task, app.storage.view.positions_in_opened_task);
    assert_eq!(loaded.storage.get_selected_position(), Some(0));
}

#[test]
fn links_stay_consistent_over_edits() {
    let mut app = new_app();
    add(&mut app, "A");
    add(&mut app, "B");
    app.open_selected_task();
    add(&mut app, "B1");
    add(&mut app, "B2");
    assert_links_consistent(&app.storage);
    app.move_selection_to_top();
    app.delete_selected_task();
    assert_links_consistent(&app.storage);
    app.get_back_to_parent();
    app.move_selection_to_top();
    app.delete_selected_task();
    assert_links_consistent(&app.storage);
    assert_eq!(app.storage.get_task(2).unwrap().children, vec![4]);
}
