use ratatui::crossterm::event::{KeyCode, KeyEvent, KeyModifiers};
use task_tree::app::state::AppMode;
use task_tree::config::{
    ColorsConfig, Config, IconsConfig, Keybindings, LayoutConfig, LayoutDirection, OtherConfig,
    ThemeConfig,
};
use task_tree::helpers::{
    format_key_event, format_key_press, modifier_for_name, parse_modifier, TextModifier,
};
use task_tree::keys::{Key, KeyPress, ALT, CONTROL, SHIFT};
use task_tree::ui::{help_text, input_title};

#[test]
fn parse_modifier_knows_each_name() {
    assert_eq!(parse_modifier("bold"), TextModifier::Bold);
    assert_eq!(parse_modifier("italic"), TextModifier::Italic);
    assert_eq!(parse_modifier("underline"), TextModifier::Underlined);
    assert_eq!(parse_modifier("slow_blink"), TextModifier::SlowBlink);
    assert_eq!(parse_modifier("rapid_blink"), TextModifier::RapidBlink);
    assert_eq!(parse_modifier("reversed"), TextModifier::Reversed);
    assert_eq!(parse_modifier("dim"), TextModifier::Dim);
    assert_eq!(parse_modifier("crossed_out"), TextModifier::CrossedOut);
}

#[test]
fn parse_modifier_ignores_case() {
    assert_eq!(parse_modifier("Bold"), TextModifier::Bold);
    assert_eq!(parse_modifier("ITALIC"), TextModifier::Italic);
    assert_eq!(parse_modifier("Crossed_Out"), TextModifier::CrossedOut);
}

#[test]
fn parse_modifier_unknown_is_empty() {
    assert_eq!(parse_modifier(""), TextModifier::Empty);
    assert_eq!(parse_modifier("underlined"), TextModifier::Empty);
    assert_eq!(parse_modifier(" bold"), TextModifier::Empty);
    assert_eq!(parse_modifier("hidden"), TextModifier::Empty);
}

#[test]
fn modifier_for_name_is_case_sensitive() {
    assert_eq!(modifier_for_name("dim"), TextModifier::Dim);
    assert_eq!(modifier_for_name("Dim"), TextModifier::Empty);
}

#[test]
fn format_plain_character() {
    assert_eq!(format_key_event(KeyEvent::new(KeyCode::Char('q'), KeyModifiers::NONE)), "q");
}

#[test]
fn format_named_keys_by_their_names() {
    assert_eq!(format_key_event(KeyEvent::new(KeyCode::Enter, KeyModifiers::NONE)), "Enter");
    assert_eq!(format_key_event(KeyEvent::new(KeyCode::Esc, KeyModifiers::NONE)), "Esc");
    assert_eq!(
        format_key_event(KeyEvent::new(KeyCode::Backspace, KeyModifiers::NONE)),
        "Backspace"
    );
    assert_eq!(format_key_event(KeyEvent::new(KeyCode::F(5), KeyModifiers::NONE)), "F(5)");
    assert_eq!(format_key_event(KeyEvent::new(KeyCode::PageUp, KeyModifiers::NONE)), "PageUp");
}

#[test]
fn format_modifiers_in_fixed_order() {
    let all = KeyModifiers::SHIFT | KeyModifiers::ALT | KeyModifiers::CONTROL;
    assert_eq!(format_key_event(KeyEvent::new(KeyCode::Char('x'), all)), "Ctrl+Alt+Shift+x");
    assert_eq!(
        format_key_event(KeyEvent::new(KeyCode::Char('c'), KeyModifiers::CONTROL)),
        "Ctrl+c"
    );
    assert_eq!(format_key_event(KeyEvent::new(KeyCode::Tab, KeyModifiers::ALT)), "Alt+Tab");
    assert_eq!(
        format_key_event(KeyEvent::new(KeyCode::Char('A'), KeyModifiers::SHIFT)),
        "Shift+A"
    );
    assert_eq!(format_key_event(KeyEvent::new(KeyCode::Char('s'), KeyModifiers::SUPER)), "s");
}

#[test]
fn format_key_press_from_plain_values() {
    let press = KeyPress { key: Key::Other, modifiers: CONTROL | SHIFT };
    assert_eq!(format_key_press(press, "Home"), "Ctrl+Shift+Home");
    let press = KeyPress { key: Key::Char('z'), modifiers: ALT };
    assert_eq!(format_key_press(press, "ignored"), "Alt+z");
    let press = KeyPress { key: Key::Enter, modifiers: 0 };
    assert_eq!(format_key_press(press, "Enter"), "Enter");
}

#[test]
fn modifier_bits_are_those_of_the_terminal_library() {
    assert_eq!(SHIFT, KeyModifiers::SHIFT.bits());
    assert_eq!(CONTROL, KeyModifiers::CONTROL.bits());
    assert_eq!(ALT, KeyModifiers::ALT.bits());
}

#[test]
fn help_text_for_default_bindings() {
    assert_eq!(
        help_text(&Keybindings::default()),
        "Press 'a' to add, 'd' to deselect, 'e' to edit, 'x to delete', 'k/j' to navigate, Enter to expand, 'q' to quit"
    );
}

#[test]
fn help_text_follows_the_bindings() {
    let mut keys = Keybindings::default();
    keys.quit = KeyEvent::new(KeyCode::Char('w'), KeyModifiers::CONTROL);
    keys.toggle_expand = KeyEvent::new(KeyCode::Tab, KeyModifiers::NONE);
    assert_eq!(
        help_text(&keys),
        "Press 'a' to add, 'd' to deselect, 'e' to edit, 'x to delete', 'k/j' to navigate, Tab to expand, 'Ctrl+w' to quit"
    );
}

#[test]
fn input_title_by_mode() {
    let keys = Keybindings::default();
    assert_eq!(input_title(&AppMode::Editing, &keys), "Add Task (Press Enter to submit)");
    assert_eq!(
        input_title(&AppMode::EditingTask { path: vec![0] }, &keys),
        "Edit Task (Press Enter to submit)"
    );
    assert_eq!(input_title(&AppMode::Normal, &keys), help_text(&keys));
}

#[test]
fn default_keybindings() {
    let keys = Keybindings::default();
    let plain = |c: char| KeyEvent::new(KeyCode::Char(c), KeyModifiers::NONE);
    assert_eq!(keys.quit, plain('q'));
    assert_eq!(keys.add_task, plain('a'));
    assert_eq!(keys.delete_task, plain('x'));
    assert_eq!(keys.edit_task, plain('e'));
    assert_eq!(keys.deselect, plain('d'));
    assert_eq!(keys.toggle_expand, KeyEvent::new(KeyCode::Enter, KeyModifiers::NONE));
    assert_eq!(keys.select_next, plain('j'));
    assert_eq!(keys.select_previous, plain('k'));
}

#[test]
fn default_layout() {
    let layout = LayoutConfig::default();
    assert!(matches!(layout.direction, LayoutDirection::Vertical));
    assert_eq!(layout.constraints, vec![80, 20]);
}

#[test]
fn default_theme() {
    let colors = ColorsConfig::default();
    assert_eq!(colors.main_fg, "White");
    assert_eq!(colors.input_fg, "Yellow");
    assert_eq!(OtherConfig::default().highlight_mod, "Bold");
    let icons = IconsConfig::default();
    assert_eq!(icons.expanded, "▼");
    assert_eq!(icons.collapsed, "▶");
    assert_eq!(icons.highlight_symbol, "> ");
    let theme = ThemeConfig::default();
    assert_eq!(theme.colors.main_fg, "White");
    assert_eq!(theme.other.highlight_mod, "Bold");
    assert_eq!(theme.icons.highlight_symbol, "> ");
}

#[test]
fn default_config_is_all_defaults() {
    let config = Config::default();
    assert_eq!(config.keys, Keybindings::default());
    assert_eq!(config.layout.constraints, vec![80, 20]);
    assert!(matches!(config.layout.direction, LayoutDirection::Vertical));
    assert_eq!(config.theme.colors.input_fg, "Yellow");
    assert_eq!(parse_modifier(&config.theme.other.highlight_mod), TextModifier::Bold);
}

#[test]
fn keybindings_clone_keeps_every_binding() {
    let mut keys = Keybindings::default();
    keys.quit = KeyEvent::new(KeyCode::Char('w'), KeyModifiers::CONTROL);
    keys.select_next = KeyEvent::new(KeyCode::Down, KeyModifiers::NONE);
    let twin = keys.clone();
    assert_eq!(twin, keys);
    assert_eq!(twin.quit, KeyEvent::new(KeyCode::Char('w'), KeyModifiers::CONTROL));
    assert_eq!(twin.select_next, KeyEvent::new(KeyCode::Down, KeyModifiers::NONE));
}
