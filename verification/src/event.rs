use ratatui::crossterm::event::KeyEvent;
use vstd::prelude::*;

verus! {

/// A command that the application queues for itself.
#[derive(Debug, Clone, Copy, PartialEq, Eq, Structural)]
pub enum AppEvent {
    /// End the session.
    Quit,
    /// Commit the composed text as a new task.
    AddTask,
    /// Commit the edited text as the new name of the edited task.
    UpdateTask,
    /// Remove the selected task.
    DeleteTask,
}

/// One event of the session, in the order in which the queue yields them.
#[derive(Debug, Clone, Copy)]
pub enum Event {
    /// The periodic timer fired.
    Tick,
    /// A key was pressed.
    Key(KeyEvent),
    /// A queued command is due.
    App(AppEvent),
}

} // verus!
