use crate::app::display::{lemma_row_resolves, lemma_tree_fits, project, rows_view};
use crate::app::state::{AppMode, ModeView};
use crate::app::task::lemma_task_view;
use crate::app::task_utils::{get_task, get_task_mut, replace_at, resolve};
use crate::app::task::TaskView;
use crate::app::{selected_path, App, AppView};
use crate::config::{normal_action, Keybindings};
use crate::event::AppEvent;
use crate::keys::{key_press_of, read_key, Key, KeyAction};
use ratatui::crossterm::event::KeyEvent;
use vstd::prelude::*;

verus! {

/// The cursor after a step forward over `count` rows: the next row, the
/// first after the last, the first where nothing was selected; unchanged
/// where there is no row.
pub open spec fn next_index(selected: Option<usize>, count: nat) -> Option<usize> {
    if count == 0 {
        selected
    } else {
        match selected {
            Some(index) => if index >= count - 1 {
                Some(0)
            } else {
                Some((index + 1) as usize)
            },
            None => Some(0),
        }
    }
}

/// The cursor after a step back over `count` rows: the row before, the last
/// before the first, the first where nothing was selected; unchanged where
/// there is no row.
pub open spec fn previous_index(selected: Option<usize>, count: nat) -> Option<usize> {
    if count == 0 {
        selected
    } else {
        match selected {
            Some(index) => if index == 0 {
                Some((count - 1) as usize)
            } else {
                Some((index - 1) as usize)
            },
            None => Some(0),
        }
    }
}

/// The state after the selected node's expansion flag is flipped; the state
/// itself where the cursor is on no row.
pub open spec fn after_toggle(state: AppView) -> AppView {
    match selected_path(state) {
        Some(path) => {
            let node = resolve(state.tasks, path).unwrap();
            AppView {
                tasks: replace_at(
                    state.tasks,
                    path,
                    TaskView { expanded: !node.expanded, ..node },
                ),
                ..state
            }
        },
        None => state,
    }
}

/// The state after editing of the selected node begins: its name is the
/// text, and the mode holds its path; the state itself where the cursor is
/// on no row.
pub open spec fn after_begin_edit(state: AppView) -> AppView {
    match selected_path(state) {
        Some(path) => AppView {
            input: resolve(state.tasks, path).unwrap().name,
            mode: ModeView::EditingTask { path },
            ..state
        },
        None => state,
    }
}

/// The state after an action of normal mode, and the command it queues.
pub open spec fn after_action(state: AppView, action: KeyAction) -> (AppView, Option<AppEvent>) {
    match action {
        KeyAction::Quit => (state, Some(AppEvent::Quit)),
        KeyAction::AddTask => (AppView { mode: ModeView::Editing, ..state }, None),
        KeyAction::DeleteTask => (state, Some(AppEvent::DeleteTask)),
        KeyAction::EditTask => (after_begin_edit(state), None),
        KeyAction::ToggleExpand => (after_toggle(state), None),
        KeyAction::SelectPrevious => (
            AppView {
                selected: previous_index(state.selected, project(state.tasks).len()),
                ..state
            },
            None,
        ),
        KeyAction::SelectNext => (
            AppView {
                selected: next_index(state.selected, project(state.tasks).len()),
                ..state
            },
            None,
        ),
        KeyAction::Deselect => (AppView { selected: None, ..state }, None),
    }
}

/// The state after a key that types, and the command it queues. In the two
/// typing modes enter queues the commit that belongs to the mode, a character
/// is appended to the text, backspace takes the last one away, escape drops
/// the text and returns to normal mode, and any other key does nothing. In
/// normal mode nothing is typed.
pub open spec fn after_typing(state: AppView, key: Key) -> (AppView, Option<AppEvent>) {
    match (state.mode, key) {
        (ModeView::Normal, _) => (state, None),
        (ModeView::Editing, Key::Enter) => (state, Some(AppEvent::AddTask)),
        (ModeView::EditingTask { .. }, Key::Enter) => (state, Some(AppEvent::UpdateTask)),
        (_, Key::Char(c)) => (AppView { input: state.input.push(c), ..state }, None),
        (_, Key::Backspace) => (
            AppView {
                input: if state.input.len() > 0 {
                    state.input.drop_last()
                } else {
                    state.input
                },
                ..state
            },
            None,
        ),
        (_, Key::Esc) => (AppView { input: Seq::empty(), mode: ModeView::Normal, ..state }, None),
        (_, Key::Other) => (state, None),
    }
}

/// The state after a key event, and the command it queues: in normal mode
/// what the key's action does, in the typing modes what the key types.
pub open spec fn after_key(state: AppView, keys: Keybindings, key: KeyEvent) -> (
    AppView,
    Option<AppEvent>,
) {
    if state.mode is Normal {
        match normal_action(keys, key) {
            Some(action) => after_action(state, action),
            None => (state, None),
        }
    } else {
        after_typing(state, key_press_of(key).key)
    }
}

/// Handles a key event: updates the state and returns the command to queue,
/// if the key asks for one.
pub fn handle_key_events(key_event: KeyEvent, app: &mut App) -> (emitted: Option<AppEvent>)
    ensures
        (final(app)@, emitted) == after_key(old(app)@, old(app).config.keys, key_event),
        final(app).config == old(app).config,
{
    match app.mode {
        AppMode::Normal => match app.config.keys.action_for(&key_event) {
            Some(action) => apply_action(app, action),
            None => None,
        },
        _ => type_key(app, read_key(&key_event).key),
    }
}

/// Carries out an action of normal mode and returns the command to queue,
/// if the action asks for one.
pub fn apply_action(app: &mut App, action: KeyAction) -> (emitted: Option<AppEvent>)
    ensures
        (final(app)@, emitted) == after_action(old(app)@, action),
        final(app).config == old(app).config,
{
    match action {
        KeyAction::Quit => Some(AppEvent::Quit),
        KeyAction::AddTask => {
            app.mode = AppMode::Editing;
            None
        },
        KeyAction::DeleteTask => Some(AppEvent::DeleteTask),
        KeyAction::EditTask => {
            begin_edit(app);
            None
        },
        KeyAction::ToggleExpand => {
            toggle_expand_task(app);
            None
        },
        KeyAction::SelectPrevious => {
            select_previous_task(app);
            None
        },
        KeyAction::SelectNext => {
            select_next_task(app);
            None
        },
        KeyAction::Deselect => {
            app.task_list_state.select(None);
            None
        },
    }
}

/// Takes a key in one of the two typing modes and returns the command to
/// queue, if the key asks for one. In normal mode it does nothing.
pub fn type_key(app: &mut App, key: Key) -> (emitted: Option<AppEvent>)
    ensures
        (final(app)@, emitted) == after_typing(old(app)@, key),
        final(app).config == old(app).config,
{
    if let AppMode::Normal = app.mode {
        return None;
    }
    match key {
        Key::Enter => {
            match app.mode {
                AppMode::Editing => Some(AppEvent::AddTask),
                _ => Some(AppEvent::UpdateTask),
            }
        },
        Key::Char(c) => {
            app.input.push(c);
            None
        },
        Key::Backspace => {
            app.input.pop();
            None
        },
        Key::Esc => {
            app.input = String::new();
            app.mode = AppMode::Normal;
            None
        },
        Key::Other => None,
    }
}

/// Begins editing the selected node: takes its path into the mode and its
/// name into the text.
pub fn begin_edit(app: &mut App)
    ensures
        final(app)@ == after_begin_edit(old(app)@),
        final(app).config == old(app).config,
{
    if let Some(selected) = app.task_list_state.selected() {
        let tasks_to_display = app.get_tasks_to_display();
        if selected < tasks_to_display.len() {
            let task_path = tasks_to_display[selected].1.clone();
            proof {
                lemma_tree_fits(app.tasks);
                lemma_row_resolves(app@.tasks, selected as int);
                assert(rows_view(tasks_to_display@)[selected as int].1 == task_path@);
            }
            if let Some(task) = get_task(&app.tasks, &task_path) {
                app.input = task.name.clone();
                app.mode = AppMode::EditingTask { path: task_path };
            }
        }
    }
}

/// Flips the expansion flag of the selected node.
pub fn toggle_expand_task(app: &mut App)
    ensures
        final(app)@ == after_toggle(old(app)@),
        final(app).config == old(app).config,
{
    if let Some(selected_index) = app.task_list_state.selected() {
        let tasks_to_display = app.get_tasks_to_display();
        if selected_index < tasks_to_display.len() {
            let task_path = &tasks_to_display[selected_index].1;
            proof {
                lemma_tree_fits(app.tasks);
                lemma_row_resolves(app@.tasks, selected_index as int);
                assert(rows_view(tasks_to_display@)[selected_index as int].1 == task_path@);
            }
            if let Some(task) = get_task_mut(&mut app.tasks, task_path) {
                let ghost node = *task;
                task.expanded = !task.expanded;
                proof {
                    lemma_task_view(node);
                    lemma_task_view(*task);
                }
            }
        }
    }
}

/// Moves the cursor one row forward, from the last row to the first.
pub fn select_next_task(app: &mut App)
    ensures
        final(app)@ == (AppView {
            selected: next_index(old(app)@.selected, project(old(app)@.tasks).len()),
            ..old(app)@
        }),
        final(app).config == old(app).config,
{
    let task_count = app.get_tasks_to_display().len();
    if task_count == 0 {
        return ;
    }
    let i: usize = match app.task_list_state.selected() {
        Some(i) => {
            if i >= task_count - 1 {
                0
            } else {
                i + 1
            }
        },
        None => 0,
    };
    app.task_list_state.select(Some(i));
}

/// Moves the cursor one row back, from the first row to the last.
pub fn select_previous_task(app: &mut App)
    ensures
        final(app)@ == (AppView {
            selected: previous_index(old(app)@.selected, project(old(app)@.tasks).len()),
            ..old(app)@
        }),
        final(app).config == old(app).config,
{
    let task_count = app.get_tasks_to_display().len();
    if task_count == 0 {
        return ;
    }
    let i: usize = match app.task_list_state.selected() {
        Some(i) => {
            if i == 0 {
                task_count - 1
            } else {
                i - 1
            }
        },
        None => 0,
    };
    app.task_list_state.select(Some(i));
}

} // verus!
