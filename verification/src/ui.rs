use crate::app::state::{AppMode, ModeView};
use crate::config::Keybindings;
use crate::helpers::{chord_label, format_key_event};
use vstd::prelude::*;
use vstd::string::*;

verus! {

/// The help line of normal mode, which names the chord of each action.
pub open spec fn help_line(keys: Keybindings) -> Seq<char> {
    "Press '"@ + chord_label(keys.add_task) + "' to add, '"@ + chord_label(keys.deselect)
        + "' to deselect, '"@ + chord_label(keys.edit_task) + "' to edit, '"@ + chord_label(
        keys.delete_task,
    ) + " to delete', '"@ + chord_label(keys.select_previous) + "/"@ + chord_label(
        keys.select_next,
    ) + "' to navigate, "@ + chord_label(keys.toggle_expand) + " to expand, '"@ + chord_label(
        keys.quit,
    ) + "' to quit"@
}

/// The title of the input pane: what the text is for in a typing mode, the
/// help line in normal mode.
pub open spec fn title_for(mode: ModeView, keys: Keybindings) -> Seq<char> {
    match mode {
        ModeView::Editing => "Add Task (Press Enter to submit)"@,
        ModeView::EditingTask { .. } => "Edit Task (Press Enter to submit)"@,
        ModeView::Normal => help_line(keys),
    }
}

/// The help line of normal mode.
pub fn help_text(keys: &Keybindings) -> (text: String)
    ensures
        text@ == help_line(*keys),
{
    let mut text = String::from_str("Press '");
    text.append(format_key_event(keys.add_task).as_str());
    text.append("' to add, '");
    text.append(format_key_event(keys.deselect).as_str());
    text.append("' to deselect, '");
    text.append(format_key_event(keys.edit_task).as_str());
    text.append("' to edit, '");
    text.append(format_key_event(keys.delete_task).as_str());
    text.append(" to delete', '");
    text.append(format_key_event(keys.select_previous).as_str());
    text.append("/");
    text.append(format_key_event(keys.select_next).as_str());
    text.append("' to navigate, ");
    text.append(format_key_event(keys.toggle_expand).as_str());
    text.append(" to expand, '");
    text.append(format_key_event(keys.quit).as_str());
    text.append("' to quit");
    text
}

/// The title of the input pane in `mode`.
pub fn input_title(mode: &AppMode, keys: &Keybindings) -> (title: String)
    ensures
        title@ == title_for(mode@, *keys),
{
    match mode {
        AppMode::Editing => String::from_str("Add Task (Press Enter to submit)"),
        AppMode::EditingTask { .. } => String::from_str("Edit Task (Press Enter to submit)"),
        AppMode::Normal => help_text(keys),
    }
}

} // verus!
