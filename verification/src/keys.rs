//! Which key presses close the picker.

use vstd::prelude::*;

verus! {

/// Whether a key event is a press, a repeat, or a release.
#[derive(Clone, Copy, Debug, PartialEq, Eq, Structural)]
pub enum KeyKind {
    Press,
    Repeat,
    Release,
}

/// The key of a key event, as far as the picker reads it.
#[derive(Clone, Copy, Debug, PartialEq, Eq, Structural)]
pub enum Key {
    Char(char),
    Esc,
    Enter,
    Other,
}

/// The modifier keys held during a key event.
#[derive(Clone, Copy, Debug, PartialEq, Eq, Structural)]
pub struct Modifiers {
    pub shift: bool,
    pub control: bool,
    pub alt: bool,
    pub super_key: bool,
    pub hyper: bool,
    pub meta: bool,
}

/// A key event.
#[derive(Clone, Copy, Debug, PartialEq, Eq, Structural)]
pub struct KeyEvent {
    pub key: Key,
    pub modifiers: Modifiers,
    pub kind: KeyKind,
}

/// No modifier is held.
pub open spec fn no_modifiers(m: Modifiers) -> bool {
    !m.shift && !m.control && !m.alt && !m.super_key && !m.hyper && !m.meta
}

/// Control, and only control, is held.
pub open spec fn control_only(m: Modifiers) -> bool {
    !m.shift && m.control && !m.alt && !m.super_key && !m.hyper && !m.meta
}

/// The event closes the picker: a press of `q` or Esc without modifiers,
/// or of Ctrl+C.
pub open spec fn quits(e: KeyEvent) -> bool {
    e.kind == KeyKind::Press && match e.key {
        Key::Char(c) => (c == 'q' && no_modifiers(e.modifiers)) || (c == 'c' && control_only(
            e.modifiers,
        )),
        Key::Esc => no_modifiers(e.modifiers),
        _ => false,
    }
}

/// Whether the key event closes the picker.
pub fn should_quit(e: KeyEvent) -> (r: bool)
    ensures
        r == quits(e),
{
    let m = e.modifiers;
    let none = !m.shift && !m.control && !m.alt && !m.super_key && !m.hyper && !m.meta;
    let control = !m.shift && m.control && !m.alt && !m.super_key && !m.hyper && !m.meta;
    e.kind == KeyKind::Press && match e.key {
        Key::Char(c) => if c == 'q' {
            none
        } else if c == 'c' {
            control
        } else {
            false
        },
        Key::Esc => none,
        _ => false,
    }
}

impl Modifiers {
    /// No modifier held.
    pub fn none() -> (r: Modifiers)
        ensures
            no_modifiers(r),
    {
        Modifiers { shift: false, control: false, alt: false, super_key: false, hyper: false, meta: false }
    }

    /// Control alone held.
    pub fn control() -> (r: Modifiers)
        ensures
            control_only(r),
    {
        Modifiers { shift: false, control: true, alt: false, super_key: false, hyper: false, meta: false }
    }

    /// Alt alone held.
    pub fn alt() -> (r: Modifiers)
        ensures
            r.alt && !r.shift && !r.control && !r.super_key && !r.hyper && !r.meta,
    {
        Modifiers { shift: false, control: false, alt: true, super_key: false, hyper: false, meta: false }
    }
}

impl KeyEvent {
    /// A key press.
    pub fn new(key: Key, modifiers: Modifiers) -> (r: KeyEvent)
        ensures
            r == (KeyEvent { key, modifiers, kind: KeyKind::Press }),
    {
        KeyEvent { key, modifiers, kind: KeyKind::Press }
    }

    /// A key event of the given kind.
    pub fn new_with_kind(key: Key, modifiers: Modifiers, kind: KeyKind) -> (r: KeyEvent)
        ensures
            r == (KeyEvent { key, modifiers, kind }),
    {
        KeyEvent { key, modifiers, kind }
    }
}

} // verus!
