use crate::app::actions::{
    after_action, after_key, after_toggle, after_typing, next_index, previous_index,
};
use crate::app::display::{
    fits, lemma_child_is_shown, lemma_count_remove, lemma_count_replace_same_weight,
    lemma_count_replace_visible, lemma_node_fits, lemma_row_count, lemma_row_resolves,
    lemma_rows_prefix_stable, lemma_visible_parent, lemma_visible_resolves, project, visible,
    weight,
};
use crate::app::state::ModeView;
use crate::app::task::TaskView;
use crate::app::task_utils::{
    lemma_replace_same, lemma_replace_twice, lemma_resolve_parent, lemma_resolve_replaced,
    remove_at, replace_at, resolve,
};
use crate::app::{
    after_add, after_command, after_delete, after_event, initial, leaf, selected_path,
    with_new_child, AppView,
};
use crate::config::{normal_action, Keybindings};
use crate::event::{AppEvent, Event};
use crate::keys::{Key, KeyAction};
use ratatui::crossterm::event::KeyEvent;
use vstd::prelude::*;

verus! {

/// Whether the cursor is on a row or nowhere.
pub open spec fn cursor_in_range(state: AppView) -> bool {
    state.selected is Some ==> state.selected.unwrap() < project(state.tasks).len()
}

/// What holds of the state between any two events: the cursor is on a row or
/// nowhere, and in normal mode no text is pending.
pub open spec fn valid(state: AppView) -> bool {
    cursor_in_range(state) && (state.mode is Normal ==> state.input.len() == 0)
}

/// A session begins in a valid state.
pub proof fn lemma_initial_valid()
    ensures
        valid(initial()),
{
}

/// Replacing the selected node by a node of the same name leaves the cursor
/// on the row of that node.
pub proof fn lemma_cursor_stays(state: AppView, node: TaskView)
    requires
        fits(state.tasks),
        selected_path(state) is Some,
        node.name == resolve(state.tasks, selected_path(state).unwrap()).unwrap().name,
    ensures
        selected_path(
            AppView {
                tasks: replace_at(state.tasks, selected_path(state).unwrap(), node),
                ..state
            },
        ) == selected_path(state),
{
    let index = state.selected.unwrap() as int;
    let rows = project(state.tasks);
    let path = rows[index].1;
    let tasks = replace_at(state.tasks, path, node);
    lemma_row_resolves(state.tasks, index);
    assert(path.skip(0) =~= path);
    lemma_rows_prefix_stable(state.tasks, Seq::empty(), 0, state.tasks.len(), index, node);
    assert(tasks.len() == state.tasks.len());
    assert(project(tasks)[index] == project(tasks).take(index + 1)[index]);
    assert(rows[index] == rows.take(index + 1)[index]);
}

/// The task that is added is shown at once: as the last root where nothing
/// was selected, as the last child of the selected node where the cursor was
/// on a row.
pub proof fn lemma_added_task_is_shown(state: AppView)
    requires
        fits(state.tasks),
    ensures
        state.selected is None ==> visible(
            after_add(state).tasks,
            seq![state.tasks.len() as usize],
        ) && resolve(after_add(state).tasks, seq![state.tasks.len() as usize]) == Some(
            leaf(state.input),
        ),
        selected_path(state) is Some ==> visible(
            after_add(state).tasks,
            selected_path(state).unwrap().push(
                resolve(state.tasks, selected_path(state).unwrap()).unwrap().subtasks.len() as usize,
            ),
        ) && resolve(
            after_add(state).tasks,
            selected_path(state).unwrap().push(
                resolve(state.tasks, selected_path(state).unwrap()).unwrap().subtasks.len() as usize,
            ),
        ) == Some(leaf(state.input)),
{
    if selected_path(state) is Some {
        let path = selected_path(state).unwrap();
        lemma_row_resolves(state.tasks, state.selected.unwrap() as int);
        lemma_node_fits(state.tasks, path);
        let node = resolve(state.tasks, path).unwrap();
        let grown = with_new_child(node, leaf(state.input));
        lemma_child_is_shown(state.tasks, path, grown, node.subtasks.len() as usize);
    }
}

/// Toggling the selected node twice gives back the state, and with it the
/// rows and their number.
pub proof fn lemma_toggle_twice(state: AppView)
    requires
        fits(state.tasks),
    ensures
        after_toggle(after_toggle(state)) == state,
        project(after_toggle(after_toggle(state)).tasks).len() == project(state.tasks).len(),
{
    if selected_path(state) is Some {
        let path = selected_path(state).unwrap();
        lemma_row_resolves(state.tasks, state.selected.unwrap() as int);
        let node = resolve(state.tasks, path).unwrap();
        let flipped = TaskView { expanded: !node.expanded, ..node };
        let once = after_toggle(state);
        lemma_cursor_stays(state, flipped);
        assert(selected_path(once) == Some(path));
        lemma_resolve_replaced(state.tasks, path, flipped);
        lemma_replace_twice(state.tasks, path, flipped, node);
        lemma_replace_same(state.tasks, path);
        assert(TaskView { expanded: !flipped.expanded, ..flipped } == node);
    }
}

/// Deleting a shown node takes away its row and the rows under it.
pub proof fn lemma_rows_after_remove(tasks: Seq<TaskView>, path: Seq<usize>)
    requires
        visible(tasks, path),
    ensures
        resolve(tasks, path) is Some,
        project(remove_at(tasks, path)).len() == project(tasks).len() - weight(
            resolve(tasks, path).unwrap(),
        ),
{
    lemma_visible_resolves(tasks, path);
    let after = remove_at(tasks, path);
    lemma_row_count(tasks);
    lemma_row_count(after);
    if path.len() == 1 {
        lemma_count_remove(tasks, path[0] as int, tasks.len());
    } else {
        let above = path.drop_last();
        lemma_resolve_parent(tasks, path);
        lemma_visible_parent(tasks, path);
        let parent = resolve(tasks, above).unwrap();
        let pruned = TaskView { subtasks: parent.subtasks.remove(path.last() as int), ..parent };
        lemma_count_remove(parent.subtasks, path.last() as int, parent.subtasks.len());
        lemma_count_replace_visible(tasks, above, pruned);
    }
}

/// Deleting leaves fewer rows, and the cursor on one of them: nowhere if no
/// row is left; on the new last row if it stood on the last row or would
/// stand beyond the rows; else where it stood.
pub proof fn lemma_delete_moves_cursor(state: AppView)
    requires
        fits(state.tasks),
        selected_path(state) is Some,
    ensures
        project(after_delete(state).tasks).len() < project(state.tasks).len(),
        project(after_delete(state).tasks).len() == 0 ==> after_delete(state).selected is None,
        project(after_delete(state).tasks).len() > 0 && state.selected.unwrap() + 1 == project(
            state.tasks,
        ).len() ==> after_delete(state).selected == Some(
            (project(after_delete(state).tasks).len() - 1) as usize,
        ),
        project(after_delete(state).tasks).len() > 0 && state.selected.unwrap() >= project(
            after_delete(state).tasks,
        ).len() ==> after_delete(state).selected == Some(
            (project(after_delete(state).tasks).len() - 1) as usize,
        ),
        state.selected.unwrap() < project(after_delete(state).tasks).len() ==> after_delete(
            state,
        ).selected == state.selected,
        cursor_in_range(after_delete(state)),
{
    let path = selected_path(state).unwrap();
    lemma_row_resolves(state.tasks, state.selected.unwrap() as int);
    lemma_rows_after_remove(state.tasks, path);
}

/// A step forward and a step back undo one another on every row, around the
/// ends of the list too.
pub proof fn lemma_steps_undo(index: usize, count: nat)
    requires
        index < count <= usize::MAX,
    ensures
        previous_index(next_index(Some(index), count), count) == Some(index),
        next_index(previous_index(Some(index), count), count) == Some(index),
{
}

/// Every event leaves a valid state valid.
pub proof fn lemma_event_keeps_valid(state: AppView, keys: Keybindings, event: Event)
    requires
        fits(state.tasks),
        valid(state),
    ensures
        valid(after_event(state, keys, event).0),
{
    match event {
        Event::Tick => {},
        Event::Key(key) => {
            lemma_key_keeps_valid(state, keys, key);
        },
        Event::App(command) => {
            lemma_command_keeps_valid(state, command);
        },
    }
}

/// Every queued command leaves a valid state valid.
pub proof fn lemma_command_keeps_valid(state: AppView, command: AppEvent)
    requires
        fits(state.tasks),
        valid(state),
    ensures
        valid(after_command(state, command)),
{
    match command {
        AppEvent::Quit => {},
        AppEvent::AddTask => {
            if selected_path(state) is Some {
                let path = selected_path(state).unwrap();
                let index = state.selected.unwrap() as int;
                lemma_row_resolves(state.tasks, index);
                let node = resolve(state.tasks, path).unwrap();
                lemma_cursor_stays(state, with_new_child(node, leaf(state.input)));
            }
        },
        AppEvent::UpdateTask => {
            match state.mode {
                ModeView::EditingTask { path } => {
                    if resolve(state.tasks, path) is Some {
                        let node = resolve(state.tasks, path).unwrap();
                        let renamed = TaskView { name: state.input, ..node };
                        lemma_count_replace_same_weight(state.tasks, path, renamed);
                        lemma_row_count(state.tasks);
                        lemma_row_count(replace_at(state.tasks, path, renamed));
                    }
                },
                _ => {},
            }
        },
        AppEvent::DeleteTask => {
            if selected_path(state) is Some {
                lemma_delete_moves_cursor(state);
            }
        },
    }
}

/// Every key leaves a valid state valid.
pub proof fn lemma_key_keeps_valid(state: AppView, keys: Keybindings, key: KeyEvent)
    requires
        fits(state.tasks),
        valid(state),
    ensures
        valid(after_key(state, keys, key).0),
{
    if state.mode is Normal {
        match normal_action(keys, key) {
            Some(action) => {
                lemma_action_keeps_valid(state, action);
            },
            None => {},
        }
    }
}

/// Every typed key leaves a valid state valid.
pub proof fn lemma_typing_keeps_valid(state: AppView, key: Key)
    requires
        valid(state),
    ensures
        valid(after_typing(state, key).0),
{
}

/// Every action of normal mode leaves a valid state valid.
pub proof fn lemma_action_keeps_valid(state: AppView, action: KeyAction)
    requires
        fits(state.tasks),
        valid(state),
    ensures
        valid(after_action(state, action).0),
{
    match action {
        KeyAction::ToggleExpand => {
            if selected_path(state) is Some {
                let path = selected_path(state).unwrap();
                lemma_row_resolves(state.tasks, state.selected.unwrap() as int);
                let node = resolve(state.tasks, path).unwrap();
                lemma_cursor_stays(state, TaskView { expanded: !node.expanded, ..node });
            }
        },
        _ => {},
    }
}

} // verus!
