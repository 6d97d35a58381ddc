pub mod actions;
pub mod display;
pub mod invariants;
pub mod state;
pub mod task;
pub mod task_utils;

use crate::app::actions::{after_key, handle_key_events};
use crate::app::display::{
    forest_rows, indent, label, lemma_row_count_is_shown_nodes, lemma_row_resolves,
    lemma_tree_fits, project, rows_view, task_rows, visible_paths,
};
use crate::app::invariants::{lemma_event_keeps_valid, valid};
use crate::app::state::{AppMode, ModeView};
use crate::app::task::{forest, lemma_task_view, Task, TaskView};
use crate::app::task_utils::{
    get_task_mut, lemma_forest_push, lemma_forest_remove, lemma_resolve_parent, remove_at,
    replace_at, resolve,
};
use crate::config::{default_config, Config, Keybindings};
use crate::cursor::selection;
use crate::event::{AppEvent, Event};
use ratatui::widgets::ListState;
use vstd::prelude::*;
use vstd::string::*;

verus! {

/// The state of one session.
#[derive(Debug)]
pub struct App {
    /// Whether the session goes on.
    pub running: bool,
    /// The top-level tasks.
    pub tasks: Vec<Task>,
    /// The text being typed.
    pub input: String,
    pub mode: AppMode,
    /// The list widget's state, which holds the selection cursor.
    pub task_list_state: ListState,
    pub config: Config,
}

/// What a session's state is, apart from its configuration.
pub struct AppView {
    pub running: bool,
    pub tasks: Seq<TaskView>,
    pub input: Seq<char>,
    pub mode: ModeView,
    pub selected: Option<usize>,
}

impl View for App {
    type V = AppView;

    open spec fn view(&self) -> AppView {
        AppView {
            running: self.running,
            tasks: forest(self.tasks@),
            input: self.input@,
            mode: self.mode@,
            selected: selection(self.task_list_state),
        }
    }
}

/// The state in which a session begins: running, without tasks, in normal
/// mode, with nothing typed and nothing selected.
pub open spec fn initial() -> AppView {
    AppView {
        running: true,
        tasks: Seq::empty(),
        input: Seq::empty(),
        mode: ModeView::Normal,
        selected: None,
    }
}

/// A collapsed task without children.
pub open spec fn leaf(name: Seq<char>) -> TaskView {
    TaskView { name, subtasks: Seq::empty(), expanded: false }
}

/// The path of the row that the cursor is on; `None` where nothing is
/// selected or the cursor is beyond the last row.
pub open spec fn selected_path(state: AppView) -> Option<Seq<usize>> {
    match state.selected {
        Some(index) => if index < project(state.tasks).len() {
            Some(project(state.tasks)[index as int].1)
        } else {
            None
        },
        None => None,
    }
}

/// `node` with `child` appended to its children, and expanded.
pub open spec fn with_new_child(node: TaskView, child: TaskView) -> TaskView {
    TaskView { subtasks: node.subtasks.push(child), expanded: true, ..node }
}

/// The tree after the typed text is committed as a new task: a child of the
/// selected node, which is expanded, or a new last root where nothing is
/// selected.
pub open spec fn tasks_after_add(state: AppView) -> Seq<TaskView> {
    if state.selected is None {
        state.tasks.push(leaf(state.input))
    } else {
        match selected_path(state) {
            Some(path) => replace_at(
                state.tasks,
                path,
                with_new_child(resolve(state.tasks, path).unwrap(), leaf(state.input)),
            ),
            None => state.tasks,
        }
    }
}

/// The state after the command that adds a task.
pub open spec fn after_add(state: AppView) -> AppView {
    AppView {
        tasks: tasks_after_add(state),
        input: Seq::empty(),
        mode: ModeView::Normal,
        ..state
    }
}

/// The tree after the typed text is committed as the name of the node that
/// was being edited: unchanged where no node was, or where its path names
/// none any more.
pub open spec fn tasks_after_update(state: AppView) -> Seq<TaskView> {
    match state.mode {
        ModeView::EditingTask { path } => match resolve(state.tasks, path) {
            Some(node) => replace_at(state.tasks, path, TaskView { name: state.input, ..node }),
            None => state.tasks,
        },
        _ => state.tasks,
    }
}

/// The state after the command that renames a task.
pub open spec fn after_update(state: AppView) -> AppView {
    AppView {
        tasks: tasks_after_update(state),
        input: Seq::empty(),
        mode: ModeView::Normal,
        ..state
    }
}

/// The cursor that stood at `index` once `count` rows are left: nowhere if
/// none is left, on the last row if `index` is beyond it, else where it was.
pub open spec fn clamp(index: usize, count: nat) -> Option<usize> {
    if count == 0 {
        None
    } else if index >= count {
        Some((count - 1) as usize)
    } else {
        Some(index)
    }
}

/// The state after the command that deletes the selected task.
pub open spec fn after_delete(state: AppView) -> AppView {
    match selected_path(state) {
        Some(path) => {
            let tasks = remove_at(state.tasks, path);
            AppView {
                tasks,
                selected: clamp(state.selected.unwrap(), project(tasks).len()),
                ..state
            }
        },
        None => state,
    }
}

impl Default for App {
    /// A session in its first state, with the default configuration.
    fn default() -> (app: App)
        ensures
            app@ == initial(),
            default_config(app.config),
    {
        App::new(Config::default())
    }
}

/// The state after a queued command is carried out.
pub open spec fn after_command(state: AppView, command: AppEvent) -> AppView {
    match command {
        AppEvent::Quit => AppView { running: false, ..state },
        AppEvent::AddTask => after_add(state),
        AppEvent::UpdateTask => after_update(state),
        AppEvent::DeleteTask => after_delete(state),
    }
}

/// The state after one event of the session, and the command that the event
/// queues: a tick changes nothing, a key does what the mode makes of it, a
/// command is carried out.
pub open spec fn after_event(state: AppView, keys: Keybindings, event: Event) -> (
    AppView,
    Option<AppEvent>,
) {
    match event {
        Event::Tick => (state, None),
        Event::Key(key) => after_key(state, keys, key),
        Event::App(command) => (after_command(state, command), None),
    }
}

impl App {
    /// A running session without tasks, in normal mode, with nothing typed
    /// and nothing selected.
    pub fn new(config: Config) -> (app: App)
        ensures
            app@ == initial(),
            app.config == config,
    {
        let app = App {
            running: true,
            tasks: Vec::new(),
            input: String::new(),
            mode: AppMode::Normal,
            task_list_state: ListState::default(),
            config,
        };
        assert(app@.tasks =~= Seq::empty());
        app
    }

    /// The timer fired: nothing happens.
    pub fn tick(&self) {
    }

    /// Ends the session: the event loop stops after the current event.
    pub fn quit(&mut self)
        ensures
            final(self)@ == (AppView { running: false, ..old(self)@ }),
            final(self).config == old(self).config,
    {
        self.running = false;
    }

    /// Handles one event of the session to completion and returns the
    /// command that it queues, if any. The command is not carried out here:
    /// it comes back as an event of its own, behind those already waiting.
    pub fn handle_event(&mut self, event: Event) -> (emitted: Option<AppEvent>)
        ensures
            (final(self)@, emitted) == after_event(old(self)@, old(self).config.keys, event),
            final(self).config == old(self).config,
            valid(old(self)@) ==> valid(final(self)@),
    {
        proof {
            if valid(self@) {
                lemma_tree_fits(self.tasks);
                lemma_event_keeps_valid(self@, self.config.keys, event);
            }
        }
        match event {
            Event::Tick => {
                self.tick();
                None
            },
            Event::Key(key_event) => handle_key_events(key_event, self),
            Event::App(command) => {
                self.handle_command(command);
                None
            },
        }
    }

    /// Carries out a queued command.
    pub fn handle_command(&mut self, command: AppEvent)
        ensures
            final(self)@ == after_command(old(self)@, command),
            final(self).config == old(self).config,
    {
        match command {
            AppEvent::Quit => self.quit(),
            AppEvent::AddTask => self.add_task(),
            AppEvent::UpdateTask => self.update_task(),
            AppEvent::DeleteTask => self.delete_task(),
        }
    }

    /// Commits the typed text as a new task and returns to normal mode. The
    /// task becomes a child of the selected node, which is expanded so that
    /// the child shows, or a new last root where nothing is selected.
    pub fn add_task(&mut self)
        ensures
            final(self)@ == after_add(old(self)@),
            final(self).config == old(self).config,
    {
        let mut name = String::new();
        core::mem::swap(&mut self.input, &mut name);
        match self.task_list_state.selected() {
            Some(selected_index) => {
                let tasks_to_display = self.get_tasks_to_display();
                if selected_index < tasks_to_display.len() {
                    let task_path = &tasks_to_display[selected_index].1;
                    proof {
                        lemma_tree_fits(self.tasks);
                        lemma_row_resolves(self@.tasks, selected_index as int);
                        assert(rows_view(tasks_to_display@)[selected_index as int].1
                            == task_path@);
                    }
                    if let Some(task) = get_task_mut(&mut self.tasks, task_path) {
                        let ghost node = *task;
                        let child = Task::new(name);
                        task.subtasks.push(child);
                        task.expanded = true;
                        proof {
                            lemma_task_view(node);
                            lemma_task_view(*task);
                            lemma_forest_push(node.subtasks@, child);
                        }
                    }
                }
            },
            None => {
                let child = Task::new(name);
                proof {
                    lemma_forest_push(self.tasks@, child);
                }
                self.tasks.push(child);
            },
        }
        self.mode = AppMode::Normal;
    }

    /// Commits the typed text as the name of the node that was being edited
    /// and returns to normal mode. Where the path taken when editing began
    /// names no node any more, the text is dropped and the tree stays as it
    /// is.
    pub fn update_task(&mut self)
        ensures
            final(self)@ == after_update(old(self)@),
            final(self).config == old(self).config,
    {
        let mut name = String::new();
        core::mem::swap(&mut self.input, &mut name);
        if let AppMode::EditingTask { path } = &self.mode {
            if let Some(task) = get_task_mut(&mut self.tasks, path) {
                let ghost node = *task;
                task.name = name;
                proof {
                    lemma_task_view(node);
                    lemma_task_view(*task);
                }
            }
        }
        self.mode = AppMode::Normal;
    }

    /// Removes the selected node with everything under it, then moves the
    /// cursor back into the rows that are left: nowhere if none is left, onto
    /// the last row if it stood beyond it.
    pub fn delete_task(&mut self)
        ensures
            final(self)@ == after_delete(old(self)@),
            final(self).config == old(self).config,
    {
        if let Some(selected_index) = self.task_list_state.selected() {
            let tasks_to_display = self.get_tasks_to_display();
            if selected_index < tasks_to_display.len() {
                let mut task_path = tasks_to_display[selected_index].1.clone();
                let ghost path = task_path@;
                proof {
                    lemma_tree_fits(self.tasks);
                    lemma_row_resolves(self@.tasks, selected_index as int);
                    assert(rows_view(tasks_to_display@)[selected_index as int].1 == path);
                }
                if task_path.len() > 1 {
                    proof {
                        lemma_resolve_parent(self@.tasks, path);
                    }
                    let task_index = task_path.pop().unwrap();
                    if let Some(parent_task) = get_task_mut(&mut self.tasks, &task_path) {
                        let ghost parent = *parent_task;
                        proof {
                            lemma_task_view(parent);
                            lemma_forest_remove(parent.subtasks@, task_index as int);
                        }
                        parent_task.subtasks.remove(task_index);
                        proof {
                            lemma_task_view(*parent_task);
                        }
                    }
                } else {
                    let task_index = task_path[0];
                    proof {
                        lemma_forest_remove(self.tasks@, task_index as int);
                    }
                    self.tasks.remove(task_index);
                }
                let task_count = self.get_tasks_to_display().len();
                if task_count == 0 {
                    self.task_list_state.select(None);
                } else if selected_index >= task_count {
                    self.task_list_state.select(Some(task_count - 1));
                }
            }
        }
    }

    /// The rows of the shown tasks, computed anew from the tree: one row
    /// for each node that has no collapsed node above it, in depth-first
    /// pre-order.
    pub fn get_tasks_to_display(&self) -> (rows: Vec<(String, Vec<usize>)>)
        ensures
            rows_view(rows@) == project(self@.tasks),
            rows@.len() == visible_paths(self@.tasks).len(),
    {
        let mut display_tasks: Vec<(String, Vec<usize>)> = Vec::new();
        let mut i: usize = 0;
        while i < self.tasks.len()
            invariant
                i <= self.tasks.len(),
                rows_view(display_tasks@) == forest_rows(self@.tasks, Seq::empty(), 0, i as nat),
            decreases self.tasks.len() - i,
        {
            let mut path: Vec<usize> = Vec::new();
            path.push(i);
            assert(path@ =~= Seq::<usize>::empty().push(i));
            self.add_task_to_display(&mut display_tasks, &self.tasks[i], path, 0);
            i += 1;
        }
        proof {
            lemma_tree_fits(self.tasks);
            lemma_row_count_is_shown_nodes(self@.tasks);
        }
        display_tasks
    }

    fn add_task_to_display(
        &self,
        display_tasks: &mut Vec<(String, Vec<usize>)>,
        task: &Task,
        path: Vec<usize>,
        depth: usize,
    )
        requires
            path@.len() == depth + 1,
        ensures
            rows_view(final(display_tasks)@) == rows_view(old(display_tasks)@) + task_rows(
                task@,
                path@,
                depth as nat,
            ),
        decreases task,
    {
        let mut display_name = String::new();
        let mut level: usize = 0;
        while level < depth
            invariant
                level <= depth,
                display_name@ == indent(level as nat),
            decreases depth - level,
        {
            proof {
                reveal_strlit("  ");
            }
            display_name.append("  ");
            level += 1;
            assert(display_name@ =~= indent(level as nat));
        }
        display_name.append(task.name.as_str());
        display_tasks.push((display_name, path.clone()));
        proof {
            lemma_task_view(*task);
            assert(rows_view(display_tasks@) =~= rows_view(old(display_tasks)@) + seq![
                (label(task@.name, depth as nat), path@),
            ]);
        }
        if task.expanded {
            let ghost own = rows_view(display_tasks@);
            let mut i: usize = 0;
            while i < task.subtasks.len()
                invariant
                    i <= task.subtasks.len(),
                    path@.len() == depth + 1,
                    task@.subtasks == forest(task.subtasks@),
                    rows_view(display_tasks@) == own + forest_rows(
                        task@.subtasks,
                        path@,
                        depth as nat + 1,
                        i as nat,
                    ),
                decreases task.subtasks.len() - i,
            {
                let mut sub_path = path.clone();
                sub_path.push(i);
                self.add_task_to_display(display_tasks, &task.subtasks[i], sub_path, depth + 1);
                i += 1;
            }
        }
    }
}

} // verus!
