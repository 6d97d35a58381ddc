use crate::keys::{code_name, code_name_of, key_press_of, read_key, Key, KeyPress, ALT, CONTROL, SHIFT};
use crate::text::lowercase_of;
use ratatui::crossterm::event::KeyEvent;
use vstd::prelude::*;
use vstd::string::*;

verus! {

/// A text attribute that the theme can name for the highlighted row.
#[derive(Debug, Clone, Copy, PartialEq, Eq, Structural)]
pub enum TextModifier {
    Bold,
    Italic,
    Underlined,
    SlowBlink,
    RapidBlink,
    Reversed,
    Dim,
    CrossedOut,
    /// No attribute: what every unknown name stands for.
    Empty,
}

/// The attribute that a lower-case name stands for.
pub open spec fn modifier_named(name: Seq<char>) -> TextModifier {
    if name == "bold"@ {
        TextModifier::Bold
    } else if name == "italic"@ {
        TextModifier::Italic
    } else if name == "underline"@ {
        TextModifier::Underlined
    } else if name == "slow_blink"@ {
        TextModifier::SlowBlink
    } else if name == "rapid_blink"@ {
        TextModifier::RapidBlink
    } else if name == "reversed"@ {
        TextModifier::Reversed
    } else if name == "dim"@ {
        TextModifier::Dim
    } else if name == "crossed_out"@ {
        TextModifier::CrossedOut
    } else {
        TextModifier::Empty
    }
}

/// The attribute that `modifier_str` names, in any mix of upper and lower
/// case; no attribute for a name that is not known.
pub fn parse_modifier(modifier_str: &str) -> (modifier: TextModifier)
    ensures
        modifier == modifier_named(lowercase_of(modifier_str@)),
{
    let lower = modifier_str.to_lowercase();
    modifier_for_name(lower.as_str())
}

/// The attribute that the lower-case `name` stands for.
pub fn modifier_for_name(name: &str) -> (modifier: TextModifier)
    ensures
        modifier == modifier_named(name@),
{
    let name = String::from_str(name);
    if name == String::from_str("bold") {
        TextModifier::Bold
    } else if name == String::from_str("italic") {
        TextModifier::Italic
    } else if name == String::from_str("underline") {
        TextModifier::Underlined
    } else if name == String::from_str("slow_blink") {
        TextModifier::SlowBlink
    } else if name == String::from_str("rapid_blink") {
        TextModifier::RapidBlink
    } else if name == String::from_str("reversed") {
        TextModifier::Reversed
    } else if name == String::from_str("dim") {
        TextModifier::Dim
    } else if name == String::from_str("crossed_out") {
        TextModifier::CrossedOut
    } else {
        TextModifier::Empty
    }
}

/// Whether the modifier bits `modifiers` hold all bits of `mask`.
pub open spec fn holds(modifiers: u8, mask: u8) -> bool {
    modifiers & mask == mask
}

/// The text of a chord: `Ctrl+`, `Alt+` and `Shift+` for the modifiers held,
/// in this order, then the character of a character key, or else the name
/// of the key.
pub open spec fn chord_text(press: KeyPress, code_name: Seq<char>) -> Seq<char> {
    (if holds(press.modifiers, CONTROL) {
        "Ctrl+"@
    } else {
        Seq::empty()
    }) + (if holds(press.modifiers, ALT) {
        "Alt+"@
    } else {
        Seq::empty()
    }) + (if holds(press.modifiers, SHIFT) {
        "Shift+"@
    } else {
        Seq::empty()
    }) + (match press.key {
        Key::Char(c) => seq![c],
        _ => code_name,
    })
}

/// The text of the chord of a key event.
pub open spec fn chord_label(key_event: KeyEvent) -> Seq<char> {
    chord_text(key_press_of(key_event), code_name_of(key_event))
}

/// The text that shows a key event to the user.
pub fn format_key_event(key_event: KeyEvent) -> (text: String)
    ensures
        text@ == chord_label(key_event),
{
    let press = read_key(&key_event);
    match press.key {
        Key::Char(_) => format_key_press(press, ""),
        _ => {
            let name = code_name(&key_event);
            format_key_press(press, name.as_str())
        },
    }
}

/// The text that shows a key press to the user, where `code_name` is the
/// name of its key.
pub fn format_key_press(press: KeyPress, code_name: &str) -> (text: String)
    ensures
        text@ == chord_text(press, code_name@),
{
    let mut s = String::new();
    if press.modifiers & CONTROL == CONTROL {
        s.append("Ctrl+");
    }
    if press.modifiers & ALT == ALT {
        s.append("Alt+");
    }
    if press.modifiers & SHIFT == SHIFT {
        s.append("Shift+");
    }
    match press.key {
        Key::Char(c) => s.push(c),
        _ => s.append(code_name),
    }
    assert(s@ =~= chord_text(press, code_name@));
    s
}

} // verus!
