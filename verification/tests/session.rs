use ratatui::crossterm::event::{KeyCode, KeyEvent, KeyModifiers};
use task_tree::app::actions::handle_key_events;
use task_tree::app::state::AppMode;
use task_tree::app::task::Task;
use task_tree::app::App;
use task_tree::config::Config;
use task_tree::event::{AppEvent, Event};

fn named(name: &str) -> Task {
    Task::new(String::from(name))
}

fn press(code: KeyCode) -> KeyEvent {
    KeyEvent::new(code, KeyModifiers::NONE)
}

fn row(label: &str, path: &[usize]) -> (String, Vec<usize>) {
    (String::from(label), path.to_vec())
}

/// Feeds the event to the application, then every command that follows
/// from it, in the order in which they are queued.
fn run(app: &mut App, event: Event) {
    let mut queue = vec![event];
    while !queue.is_empty() {
        let next = queue.remove(0);
        if let Some(command) = app.handle_event(next) {
            queue.push(Event::App(command));
        }
    }
}

fn type_text(app: &mut App, text: &str) {
    for c in text.chars() {
        run(app, Event::Key(press(KeyCode::Char(c))));
    }
}

#[test]
fn new_app_is_running_empty_and_normal() {
    let app = App::new(Config::default());
    assert!(app.running);
    assert!(app.tasks.is_empty());
    assert_eq!(app.input, "");
    assert_eq!(app.mode, AppMode::Normal);
    assert_eq!(app.task_list_state.selected(), None);
}

#[test]
fn add_task_to_empty_tree_without_selection() {
    let mut app = App::new(Config::default());
    run(&mut app, Event::Key(press(KeyCode::Char('a'))));
    assert_eq!(app.mode, AppMode::Editing);
    type_text(&mut app, "Buy milk");
    assert_eq!(app.input, "Buy milk");
    run(&mut app, Event::Key(press(KeyCode::Enter)));
    assert_eq!(app.mode, AppMode::Normal);
    assert_eq!(app.input, "");
    assert_eq!(app.tasks.len(), 1);
    assert_eq!(app.tasks[0].name, "Buy milk");
    assert!(app.tasks[0].subtasks.is_empty());
    assert!(!app.tasks[0].expanded);
    assert_eq!(app.get_tasks_to_display(), vec![row("Buy milk", &[0])]);
}

#[test]
fn add_task_under_selected_node_expands_it() {
    let mut app = App::new(Config::default());
    app.tasks.push(named("A"));
    app.task_list_state.select(Some(0));
    app.mode = AppMode::Editing;
    app.input = String::from("child");
    app.add_task();
    assert_eq!(app.mode, AppMode::Normal);
    assert_eq!(app.input, "");
    assert_eq!(app.tasks.len(), 1);
    assert_eq!(app.tasks[0].name, "A");
    assert!(app.tasks[0].expanded);
    assert_eq!(app.tasks[0].subtasks.len(), 1);
    assert_eq!(app.tasks[0].subtasks[0].name, "child");
    assert!(!app.tasks[0].subtasks[0].expanded);
    let rows = app.get_tasks_to_display();
    assert_eq!(rows, vec![row("A", &[0]), row("  child", &[0, 0])]);
    assert_eq!(app.task_list_state.selected(), Some(0));
}

#[test]
fn add_task_appends_after_existing_children() {
    let mut app = App::new(Config::default());
    let mut a = named("A");
    a.subtasks.push(named("B"));
    app.tasks.push(a);
    app.task_list_state.select(Some(0));
    app.input = String::from("C");
    app.add_task();
    assert_eq!(app.tasks[0].subtasks.len(), 2);
    assert_eq!(app.tasks[0].subtasks[0].name, "B");
    assert_eq!(app.tasks[0].subtasks[1].name, "C");
}

#[test]
fn add_task_without_selection_appends_a_root() {
    let mut app = App::new(Config::default());
    app.tasks.push(named("A"));
    app.input = String::from("B");
    app.add_task();
    assert_eq!(app.tasks.len(), 2);
    assert_eq!(app.tasks[1].name, "B");
    assert!(app.tasks[0].subtasks.is_empty());
    assert!(!app.tasks[0].expanded);
}

#[test]
fn add_task_with_cursor_beyond_rows_adds_nothing() {
    let mut app = App::new(Config::default());
    app.tasks.push(named("A"));
    app.task_list_state.select(Some(7));
    app.mode = AppMode::Editing;
    app.input = String::from("lost");
    app.add_task();
    assert_eq!(app.tasks.len(), 1);
    assert!(app.tasks[0].subtasks.is_empty());
    assert_eq!(app.mode, AppMode::Normal);
    assert_eq!(app.input, "");
}

#[test]
fn delete_selected_subtask() {
    let mut app = App::new(Config::default());
    let mut a = named("A");
    a.subtasks.push(named("B"));
    a.subtasks.push(named("C"));
    a.expanded = true;
    app.tasks.push(a);
    app.task_list_state.select(Some(1));
    assert_eq!(app.get_tasks_to_display()[1], row("  B", &[0, 0]));
    run(&mut app, Event::Key(press(KeyCode::Char('x'))));
    assert_eq!(app.tasks.len(), 1);
    assert_eq!(app.tasks[0].subtasks.len(), 1);
    assert_eq!(app.tasks[0].subtasks[0].name, "C");
    assert_eq!(app.get_tasks_to_display(), vec![row("A", &[0]), row("  C", &[0, 0])]);
    assert_eq!(app.task_list_state.selected(), Some(1));
}

#[test]
fn delete_last_visible_row_moves_cursor_to_new_last() {
    let mut app = App::new(Config::default());
    let mut a = named("A");
    a.subtasks.push(named("B"));
    a.subtasks.push(named("C"));
    a.expanded = true;
    app.tasks.push(a);
    app.task_list_state.select(Some(2));
    app.delete_task();
    assert_eq!(app.tasks[0].subtasks.len(), 1);
    assert_eq!(app.tasks[0].subtasks[0].name, "B");
    assert_eq!(app.get_tasks_to_display().len(), 2);
    assert_eq!(app.task_list_state.selected(), Some(1));
}

#[test]
fn delete_only_task_clears_cursor() {
    let mut app = App::new(Config::default());
    app.tasks.push(named("A"));
    app.task_list_state.select(Some(0));
    app.delete_task();
    assert!(app.tasks.is_empty());
    assert!(app.get_tasks_to_display().is_empty());
    assert_eq!(app.task_list_state.selected(), None);
}

#[test]
fn delete_non_last_row_keeps_cursor_index() {
    let mut app = App::new(Config::default());
    app.tasks.push(named("A"));
    app.tasks.push(named("B"));
    app.tasks.push(named("C"));
    app.task_list_state.select(Some(1));
    app.delete_task();
    assert_eq!(app.tasks.len(), 2);
    assert_eq!(app.tasks[0].name, "A");
    assert_eq!(app.tasks[1].name, "C");
    assert_eq!(app.task_list_state.selected(), Some(1));
}

#[test]
fn delete_expanded_root_removes_its_subtree_and_clamps() {
    let mut app = App::new(Config::default());
    app.tasks.push(named("A"));
    let mut b = named("B");
    b.subtasks.push(named("C"));
    b.subtasks.push(named("D"));
    b.expanded = true;
    app.tasks.push(b);
    app.task_list_state.select(Some(1));
    assert_eq!(app.get_tasks_to_display().len(), 4);
    app.delete_task();
    assert_eq!(app.tasks.len(), 1);
    assert_eq!(app.tasks[0].name, "A");
    assert_eq!(app.get_tasks_to_display(), vec![row("A", &[0])]);
    assert_eq!(app.task_list_state.selected(), Some(0));
}

#[test]
fn delete_without_selection_changes_nothing() {
    let mut app = App::new(Config::default());
    app.tasks.push(named("A"));
    app.delete_task();
    assert_eq!(app.tasks.len(), 1);
    assert_eq!(app.task_list_state.selected(), None);
}

#[test]
fn delete_with_cursor_beyond_rows_changes_nothing() {
    let mut app = App::new(Config::default());
    app.tasks.push(named("A"));
    app.task_list_state.select(Some(3));
    app.delete_task();
    assert_eq!(app.tasks.len(), 1);
    assert_eq!(app.task_list_state.selected(), Some(3));
}

#[test]
fn update_after_node_was_deleted_is_dropped() {
    let mut app = App::new(Config::default());
    let mut a = named("A");
    a.subtasks.push(named("B"));
    a.expanded = true;
    app.tasks.push(a);
    app.task_list_state.select(Some(1));
    run(&mut app, Event::Key(press(KeyCode::Char('e'))));
    assert_eq!(app.mode, AppMode::EditingTask { path: vec![0, 0] });
    assert_eq!(app.input, "B");
    type_text(&mut app, "!");
    assert_eq!(app.input, "B!");
    run(&mut app, Event::App(AppEvent::DeleteTask));
    assert!(app.tasks[0].subtasks.is_empty());
    run(&mut app, Event::Key(press(KeyCode::Enter)));
    assert_eq!(app.mode, AppMode::Normal);
    assert_eq!(app.input, "");
    assert_eq!(app.tasks.len(), 1);
    assert_eq!(app.tasks[0].name, "A");
    assert!(app.tasks[0].subtasks.is_empty());
}

#[test]
fn update_renames_the_edited_node() {
    let mut app = App::new(Config::default());
    let mut a = named("A");
    a.subtasks.push(named("B"));
    a.expanded = true;
    app.tasks.push(a);
    app.task_list_state.select(Some(1));
    run(&mut app, Event::Key(press(KeyCode::Char('e'))));
    run(&mut app, Event::Key(press(KeyCode::Backspace)));
    type_text(&mut app, "Better");
    run(&mut app, Event::Key(press(KeyCode::Enter)));
    assert_eq!(app.mode, AppMode::Normal);
    assert_eq!(app.input, "");
    assert_eq!(app.tasks[0].name, "A");
    assert_eq!(app.tasks[0].subtasks[0].name, "Better");
    assert!(app.tasks[0].expanded);
}

#[test]
fn update_outside_of_editing_changes_no_task() {
    let mut app = App::new(Config::default());
    app.tasks.push(named("A"));
    app.mode = AppMode::Editing;
    app.input = String::from("text");
    app.update_task();
    assert_eq!(app.tasks[0].name, "A");
    assert_eq!(app.mode, AppMode::Normal);
    assert_eq!(app.input, "");
}

#[test]
fn quit_command_stops_the_session() {
    let mut app = App::new(Config::default());
    let emitted = app.handle_event(Event::Key(press(KeyCode::Char('q'))));
    assert_eq!(emitted, Some(AppEvent::Quit));
    assert!(app.running);
    assert_eq!(app.handle_event(Event::App(AppEvent::Quit)), None);
    assert!(!app.running);
}

#[test]
fn tick_changes_nothing() {
    let mut app = App::new(Config::default());
    app.tasks.push(named("A"));
    app.task_list_state.select(Some(0));
    app.tick();
    assert_eq!(app.handle_event(Event::Tick), None);
    assert!(app.running);
    assert_eq!(app.tasks.len(), 1);
    assert_eq!(app.mode, AppMode::Normal);
    assert_eq!(app.task_list_state.selected(), Some(0));
}

#[test]
fn commands_are_not_carried_out_by_the_key_that_queues_them() {
    let mut app = App::new(Config::default());
    app.mode = AppMode::Editing;
    app.input = String::from("later");
    let emitted = handle_key_events(press(KeyCode::Enter), &mut app);
    assert_eq!(emitted, Some(AppEvent::AddTask));
    assert!(app.tasks.is_empty());
    assert_eq!(app.mode, AppMode::Editing);
    assert_eq!(app.input, "later");
    app.mode = AppMode::EditingTask { path: vec![0] };
    let emitted = handle_key_events(press(KeyCode::Enter), &mut app);
    assert_eq!(emitted, Some(AppEvent::UpdateTask));
    app.mode = AppMode::Normal;
    app.tasks.push(named("A"));
    app.task_list_state.select(Some(0));
    let emitted = handle_key_events(press(KeyCode::Char('x')), &mut app);
    assert_eq!(emitted, Some(AppEvent::DeleteTask));
    assert_eq!(app.tasks.len(), 1);
}

#[test]
fn default_app_starts_like_a_new_one() {
    let app = App::default();
    assert!(app.running);
    assert!(app.tasks.is_empty());
    assert_eq!(app.input, "");
    assert_eq!(app.mode, AppMode::Normal);
    assert_eq!(app.task_list_state.selected(), None);
    assert_eq!(app.config.keys, Config::default().keys);
}

fn count_visible(tasks: &[Task]) -> usize {
    let mut count = 0;
    for task in tasks {
        count += 1;
        if task.expanded {
            count += count_visible(&task.subtasks);
        }
    }
    count
}

fn add_named(app: &mut App, name: &str) {
    app.input = String::from(name);
    app.add_task();
}

#[test]
fn row_count_follows_adds_and_deletes() {
    let mut app = App::new(Config::default());
    let mut expected_rows = Vec::new();
    for step in 0..60usize {
        let rows = app.get_tasks_to_display().len();
        match step % 7 {
            0 => {
                app.task_list_state.select(None);
                add_named(&mut app, "root");
            }
            1 | 2 | 4 => {
                if rows > 0 {
                    app.task_list_state.select(Some((step * 5) % rows));
                }
                add_named(&mut app, "child");
            }
            3 => {
                if rows > 0 {
                    app.task_list_state.select(Some((step * 3) % rows));
                }
                assert_eq!(app.handle_event(Event::Key(press(KeyCode::Enter))), None);
            }
            5 => {
                if rows > 0 {
                    app.task_list_state.select(Some(rows - 1));
                }
                app.delete_task();
            }
            _ => {
                if rows > 0 {
                    app.task_list_state.select(Some(step % rows));
                }
                app.delete_task();
            }
        }
        let rows = app.get_tasks_to_display();
        assert_eq!(rows.len(), count_visible(&app.tasks));
        match app.task_list_state.selected() {
            Some(index) => assert!(index < rows.len()),
            None => {}
        }
        assert_eq!(app.mode, AppMode::Normal);
        expected_rows.push(rows.len());
    }
    assert!(expected_rows.iter().any(|&n| n > 3));
}

#[test]
fn added_child_shows_under_a_collapsed_parent() {
    let mut app = App::new(Config::default());
    let mut a = named("A");
    a.subtasks.push(named("B"));
    app.tasks.push(a);
    app.tasks.push(named("Z"));
    app.task_list_state.select(Some(0));
    assert_eq!(app.get_tasks_to_display().len(), 2);
    add_named(&mut app, "C");
    assert_eq!(
        app.get_tasks_to_display(),
        vec![row("A", &[0]), row("  B", &[0, 0]), row("  C", &[0, 1]), row("Z", &[1])]
    );
}

#[test]
fn deleting_last_row_down_to_empty_keeps_cursor_in_range() {
    let mut app = App::new(Config::default());
    for name in ["A", "B", "C"] {
        app.task_list_state.select(None);
        add_named(&mut app, name);
    }
    app.task_list_state.select(Some(2));
    app.delete_task();
    assert_eq!(app.task_list_state.selected(), Some(1));
    app.delete_task();
    assert_eq!(app.task_list_state.selected(), Some(0));
    app.delete_task();
    assert_eq!(app.task_list_state.selected(), None);
    assert!(app.tasks.is_empty());
    app.delete_task();
    assert!(app.tasks.is_empty());
}
