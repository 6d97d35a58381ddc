use crate::keys::{
    char_key, enter_key, is_interrupt, key_press_of, read_key, same_chord, Key, KeyAction, KeyPress,
    CONTROL,
};
use ratatui::crossterm::event::KeyEvent;
use vstd::prelude::*;
use vstd::string::*;

verus! {

/// Everything the configuration file can set.
#[derive(Debug)]
pub struct Config {
    pub keys: Keybindings,
    pub layout: LayoutConfig,
    pub theme: ThemeConfig,
}

/// The chord bound to each action of normal mode.
#[derive(Debug, PartialEq, Eq)]
pub struct Keybindings {
    pub quit: KeyEvent,
    pub add_task: KeyEvent,
    pub delete_task: KeyEvent,
    pub edit_task: KeyEvent,
    pub deselect: KeyEvent,
    pub toggle_expand: KeyEvent,
    pub select_next: KeyEvent,
    pub select_previous: KeyEvent,
}

/// How the screen is divided between the panes.
#[derive(Debug)]
pub struct LayoutConfig {
    pub direction: LayoutDirection,
    /// Percentage of the screen given to each pane.
    pub constraints: Vec<u16>,
}

/// The direction in which the panes follow one another.
#[derive(Debug)]
pub enum LayoutDirection {
    Horizontal,
    Vertical,
}

/// Colors, text attributes and glyphs.
#[derive(Debug)]
pub struct ThemeConfig {
    pub colors: ColorsConfig,
    pub other: OtherConfig,
    pub icons: IconsConfig,
}

/// Foreground color names of the two panes.
#[derive(Debug)]
pub struct ColorsConfig {
    pub main_fg: String,
    pub input_fg: String,
}

/// Name of the text attribute of the highlighted row.
#[derive(Debug)]
pub struct OtherConfig {
    pub highlight_mod: String,
}

/// Glyphs of the list.
#[derive(Debug)]
pub struct IconsConfig {
    pub expanded: String,
    pub collapsed: String,
    pub highlight_symbol: String,
}

/// The reading of the key press of `c` alone.
pub open spec fn plain_char(c: char) -> KeyPress {
    KeyPress { key: Key::Char(c), modifiers: 0 }
}

/// The action that `keys` binds `key` to: that of the first binding that
/// is the same chord, in the order quit, add, delete, edit, toggle, previous,
/// next, deselect.
pub open spec fn bound_action(keys: Keybindings, key: KeyEvent) -> Option<KeyAction> {
    if same_chord(key, keys.quit) {
        Some(KeyAction::Quit)
    } else if same_chord(key, keys.add_task) {
        Some(KeyAction::AddTask)
    } else if same_chord(key, keys.delete_task) {
        Some(KeyAction::DeleteTask)
    } else if same_chord(key, keys.edit_task) {
        Some(KeyAction::EditTask)
    } else if same_chord(key, keys.toggle_expand) {
        Some(KeyAction::ToggleExpand)
    } else if same_chord(key, keys.select_previous) {
        Some(KeyAction::SelectPrevious)
    } else if same_chord(key, keys.select_next) {
        Some(KeyAction::SelectNext)
    } else if same_chord(key, keys.deselect) {
        Some(KeyAction::Deselect)
    } else {
        None
    }
}

/// What a key means in normal mode: control and `c` always quits, whatever
/// is bound; any other key does what it is bound to.
pub open spec fn normal_action(keys: Keybindings, key: KeyEvent) -> Option<KeyAction> {
    if is_interrupt(key_press_of(key)) {
        Some(KeyAction::Quit)
    } else {
        bound_action(keys, key)
    }
}

impl Clone for Keybindings {
    /// The same bindings once more.
    fn clone(&self) -> (keys: Self)
        ensures
            keys == *self,
    {
        Keybindings {
            quit: self.quit,
            add_task: self.add_task,
            delete_task: self.delete_task,
            edit_task: self.edit_task,
            deselect: self.deselect,
            toggle_expand: self.toggle_expand,
            select_next: self.select_next,
            select_previous: self.select_previous,
        }
    }
}

impl Keybindings {
    /// The action that `key` stands for in normal mode, if any.
    pub fn action_for(&self, key: &KeyEvent) -> (action: Option<KeyAction>)
        ensures
            action == normal_action(*self, *key),
    {
        let press = read_key(key);
        let interrupt = match press.key {
            Key::Char(c) => (c == 'c' || c == 'C') && press.modifiers == CONTROL,
            _ => false,
        };
        if interrupt {
            Some(KeyAction::Quit)
        } else if *key == self.quit {
            Some(KeyAction::Quit)
        } else if *key == self.add_task {
            Some(KeyAction::AddTask)
        } else if *key == self.delete_task {
            Some(KeyAction::DeleteTask)
        } else if *key == self.edit_task {
            Some(KeyAction::EditTask)
        } else if *key == self.toggle_expand {
            Some(KeyAction::ToggleExpand)
        } else if *key == self.select_previous {
            Some(KeyAction::SelectPrevious)
        } else if *key == self.select_next {
            Some(KeyAction::SelectNext)
        } else if *key == self.deselect {
            Some(KeyAction::Deselect)
        } else {
            None
        }
    }
}

/// Whether `keys` are the default bindings, as far as a chord is read: `q`
/// quits, `a` adds, `x` deletes, `e` edits, `d` deselects, enter toggles, `j`
/// selects the next row and `k` the previous one, each with no modifier.
pub open spec fn default_keys(keys: Keybindings) -> bool {
    &&& key_press_of(keys.quit) == plain_char('q')
    &&& key_press_of(keys.add_task) == plain_char('a')
    &&& key_press_of(keys.delete_task) == plain_char('x')
    &&& key_press_of(keys.edit_task) == plain_char('e')
    &&& key_press_of(keys.deselect) == plain_char('d')
    &&& key_press_of(keys.toggle_expand) == (KeyPress { key: Key::Enter, modifiers: 0 })
    &&& key_press_of(keys.select_next) == plain_char('j')
    &&& key_press_of(keys.select_previous) == plain_char('k')
}

/// Whether `layout` is the default layout: two panes, one above the other,
/// of 80 and 20 percent.
pub open spec fn default_layout(layout: LayoutConfig) -> bool {
    layout.direction is Vertical && layout.constraints@ == seq![80u16, 20u16]
}

/// Whether `colors` are the default colors.
pub open spec fn default_colors(colors: ColorsConfig) -> bool {
    colors.main_fg@ == "White"@ && colors.input_fg@ == "Yellow"@
}

/// Whether `icons` are the default glyphs.
pub open spec fn default_icons(icons: IconsConfig) -> bool {
    icons.expanded@ == "▼"@ && icons.collapsed@ == "▶"@ && icons.highlight_symbol@ == "> "@
}

/// Whether `theme` is the default theme.
pub open spec fn default_theme(theme: ThemeConfig) -> bool {
    default_colors(theme.colors) && theme.other.highlight_mod@ == "Bold"@ && default_icons(
        theme.icons,
    )
}

/// Whether `config` is the configuration that holds where no file sets
/// another.
pub open spec fn default_config(config: Config) -> bool {
    default_keys(config.keys) && default_layout(config.layout) && default_theme(config.theme)
}

impl Default for IconsConfig {
    fn default() -> (icons: Self)
        ensures
            default_icons(icons),
    {
        IconsConfig {
            expanded: String::from_str("▼"),
            collapsed: String::from_str("▶"),
            highlight_symbol: String::from_str("> "),
        }
    }
}

impl Default for Keybindings {
    fn default() -> (keys: Self)
        ensures
            default_keys(keys),
    {
        Keybindings {
            quit: char_key('q'),
            add_task: char_key('a'),
            delete_task: char_key('x'),
            edit_task: char_key('e'),
            deselect: char_key('d'),
            toggle_expand: enter_key(),
            select_next: char_key('j'),
            select_previous: char_key('k'),
        }
    }
}

impl Default for LayoutConfig {
    fn default() -> (layout: Self)
        ensures
            default_layout(layout),
    {
        let mut constraints: Vec<u16> = Vec::new();
        constraints.push(80);
        constraints.push(20);
        assert(constraints@ =~= seq![80u16, 20u16]);
        LayoutConfig { direction: LayoutDirection::Vertical, constraints }
    }
}

impl Default for ColorsConfig {
    fn default() -> (colors: Self)
        ensures
            default_colors(colors),
    {
        ColorsConfig { main_fg: String::from_str("White"), input_fg: String::from_str("Yellow") }
    }
}

impl Default for OtherConfig {
    fn default() -> (other: Self)
        ensures
            other.highlight_mod@ == "Bold"@,
    {
        OtherConfig { highlight_mod: String::from_str("Bold") }
    }
}

impl Default for ThemeConfig {
    fn default() -> (theme: Self)
        ensures
            default_theme(theme),
    {
        ThemeConfig {
            colors: ColorsConfig::default(),
            other: OtherConfig::default(),
            icons: IconsConfig::default(),
        }
    }
}

impl Default for Config {
    fn default() -> (config: Self)
        ensures
            default_config(config),
    {
        Config {
            keys: Keybindings::default(),
            layout: LayoutConfig::default(),
            theme: ThemeConfig::default(),
        }
    }
}

} // verus!
