use vstd::prelude::*;

verus! {

/// What the keyboard currently does.
#[derive(Debug, PartialEq)]
pub enum AppMode {
    /// Browsing the list; no text is pending.
    Normal,
    /// Composing the name of a new task.
    Editing,
    /// Renaming the node that `path` named when editing began.
    EditingTask { path: Vec<usize> },
}

/// The mathematical value of an [`AppMode`].
pub enum ModeView {
    Normal,
    Editing,
    EditingTask { path: Seq<usize> },
}

impl View for AppMode {
    type V = ModeView;

    open spec fn view(&self) -> ModeView {
        match self {
            AppMode::Normal => ModeView::Normal,
            AppMode::Editing => ModeView::Editing,
            AppMode::EditingTask { path } => ModeView::EditingTask { path: path@ },
        }
    }
}

} // verus!
