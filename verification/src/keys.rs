use ratatui::crossterm::event::{KeyCode, KeyEvent, KeyModifiers};
use vstd::prelude::*;

verus! {

/// A key press as the terminal reports it: crossterm's `KeyEvent`, carried
/// through as an opaque value.
#[verifier::external_type_specification]
#[verifier::external_body]
pub struct ExKeyEvent(KeyEvent);

/// The key of a key press, as far as the application tells keys apart.
#[derive(Debug, Clone, Copy, PartialEq, Eq, Structural)]
pub enum Key {
    Enter,
    Char(char),
    Backspace,
    Esc,
    Other,
}

/// What the application reads from a key press: its key and the bits of the
/// modifiers held with it.
#[derive(Debug, Clone, Copy, PartialEq, Eq, Structural)]
pub struct KeyPress {
    pub key: Key,
    pub modifiers: u8,
}

/// Modifier bit of the shift key.
pub const SHIFT: u8 = 1;

/// Modifier bit of the control key.
pub const CONTROL: u8 = 2;

/// Modifier bit of the alt key.
pub const ALT: u8 = 4;

/// An action of normal mode that a chord can be bound to.
#[derive(Debug, Clone, Copy, PartialEq, Eq, Structural)]
pub enum KeyAction {
    Quit,
    AddTask,
    DeleteTask,
    EditTask,
    ToggleExpand,
    SelectPrevious,
    SelectNext,
    Deselect,
}

/// Whether a key press is control and `c`, in either case, with no other
/// modifier.
pub open spec fn is_interrupt(press: KeyPress) -> bool {
    (press.key == Key::Char('c') || press.key == Key::Char('C')) && press.modifiers == CONTROL
}

/// The reading of a key event: its key and modifier bits.
pub uninterp spec fn key_press_of(event: KeyEvent) -> KeyPress;

/// Whether two key events are the same chord, as crossterm compares them.
pub uninterp spec fn same_chord(a: KeyEvent, b: KeyEvent) -> bool;

/// Reads `event.code` and `event.modifiers.bits()` out of crossterm's
/// `KeyEvent`: `Enter`, `Char`, `Backspace` and `Esc` go to the variant of
/// the same name, every other key code to `Other`. The result is the named
/// reading of the event.
#[verifier::external_body]
pub(crate) fn read_key(event: &KeyEvent) -> (press: KeyPress)
    ensures
        press == key_press_of(*event),
{
    let key = match event.code {
        KeyCode::Enter => Key::Enter,
        KeyCode::Char(c) => Key::Char(c),
        KeyCode::Backspace => Key::Backspace,
        KeyCode::Esc => Key::Esc,
        _ => Key::Other,
    };
    KeyPress { key, modifiers: event.modifiers.bits() }
}

/// The name of a key event's key code, as crossterm's `Debug` writes it.
pub uninterp spec fn code_name_of(event: KeyEvent) -> Seq<char>;

/// Formats `event.code` with the `Debug` impl that crossterm derives for
/// `KeyCode`. The result is the named text of the event.
#[verifier::external_body]
pub(crate) fn code_name(event: &KeyEvent) -> (name: String)
    ensures
        name@ == code_name_of(*event),
{
    format!("{:?}", event.code)
}

/// crossterm's `==` on `KeyEvent`, which compares code, modifiers, kind and
/// state after it has made shift and upper case agree. The result is the
/// named comparison of the two events.
pub assume_specification[ <KeyEvent as PartialEq>::eq ](a: &KeyEvent, b: &KeyEvent) -> (same: bool)
    ensures
        same == same_chord(*a, *b),
;

/// `KeyEvent::new` with `KeyCode::Char(c)` and no modifiers: the press of
/// the key `c` alone.
#[verifier::external_body]
pub(crate) fn char_key(c: char) -> (event: KeyEvent)
    ensures
        key_press_of(event) == (KeyPress { key: Key::Char(c), modifiers: 0 }),
{
    KeyEvent::new(KeyCode::Char(c), KeyModifiers::NONE)
}

/// `KeyEvent::new` with `KeyCode::Enter` and no modifiers: the press of the
/// enter key alone.
#[verifier::external_body]
pub(crate) fn enter_key() -> (event: KeyEvent)
    ensures
        key_press_of(event) == (KeyPress { key: Key::Enter, modifiers: 0 }),
{
    KeyEvent::new(KeyCode::Enter, KeyModifiers::NONE)
}

} // verus!
