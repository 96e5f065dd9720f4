//! Key presses.

use vstd::prelude::*;

verus! {

/// A key.
#[derive(Debug, Clone, Copy, PartialEq, Eq, Structural)]
pub enum KeyCode {
    Char(char),
    Enter,
    Esc,
    Tab,
    Backspace,
    Left,
    Right,
    Up,
    Down,
    Home,
    End,
    PageUp,
    PageDown,
    /// Any other key.
    Other,
}

/// The modifier keys held down.
#[derive(Debug, Clone, Copy, PartialEq, Eq, Structural)]
pub struct KeyModifiers {
    pub shift: bool,
    pub control: bool,
    pub alt: bool,
    pub meta: bool,
}

impl KeyModifiers {
    /// No modifier.
    pub open spec fn nothing() -> KeyModifiers {
        KeyModifiers { shift: false, control: false, alt: false, meta: false }
    }

    /// Shift alone.
    pub open spec fn only_shift() -> KeyModifiers {
        KeyModifiers { shift: true, control: false, alt: false, meta: false }
    }

    /// Control alone.
    pub open spec fn only_control() -> KeyModifiers {
        KeyModifiers { shift: false, control: true, alt: false, meta: false }
    }

    /// Alt alone.
    pub open spec fn only_alt() -> KeyModifiers {
        KeyModifiers { shift: false, control: false, alt: true, meta: false }
    }

    /// Whether no modifier is held.
    pub fn is_empty(self) -> (r: bool)
        ensures
            r == (self == KeyModifiers::nothing()),
    {
        !self.shift && !self.control && !self.alt && !self.meta
    }

    /// Whether shift alone is held.
    pub fn is_shift(self) -> (r: bool)
        ensures
            r == (self == KeyModifiers::only_shift()),
    {
        self.shift && !self.control && !self.alt && !self.meta
    }

    /// Whether control alone is held.
    pub fn is_control(self) -> (r: bool)
        ensures
            r == (self == KeyModifiers::only_control()),
    {
        !self.shift && self.control && !self.alt && !self.meta
    }

    /// Whether alt alone is held.
    pub fn is_alt(self) -> (r: bool)
        ensures
            r == (self == KeyModifiers::only_alt()),
    {
        !self.shift && !self.control && self.alt && !self.meta
    }
}

/// A key press.
#[derive(Debug, Clone, Copy, PartialEq, Eq, Structural)]
pub struct Key {
    pub code: KeyCode,
    pub modifiers: KeyModifiers,
}

/// What a view is told of.
#[derive(Debug, Clone, PartialEq, Eq)]
pub enum Event {
    /// A key press.
    Key(Key),
    /// Pasted text.
    Paste(String),
    /// The terminal changed its size.
    Resize,
    /// Anything else.
    Other,
}

/// The key on its own.
pub open spec fn plain(code: KeyCode) -> Key {
    Key { code, modifiers: KeyModifiers::nothing() }
}

/// The key with control.
pub open spec fn ctrl(c: char) -> Key {
    Key { code: KeyCode::Char(c), modifiers: KeyModifiers::only_control() }
}

impl Key {
    /// The key on its own.
    pub fn plain(code: KeyCode) -> (r: Key)
        ensures
            r == plain(code),
    {
        Key { code, modifiers: KeyModifiers { shift: false, control: false, alt: false, meta: false } }
    }

    /// The character key with control.
    pub fn ctrl(c: char) -> (r: Key)
        ensures
            r == ctrl(c),
    {
        Key {
            code: KeyCode::Char(c),
            modifiers: KeyModifiers { shift: false, control: true, alt: false, meta: false },
        }
    }

    /// The key with shift.
    pub fn shift(code: KeyCode) -> (r: Key)
        ensures
            r == (Key { code, modifiers: KeyModifiers::only_shift() }),
    {
        Key { code, modifiers: KeyModifiers { shift: true, control: false, alt: false, meta: false } }
    }

    /// The key with alt.
    pub fn alt(code: KeyCode) -> (r: Key)
        ensures
            r == (Key { code, modifiers: KeyModifiers::only_alt() }),
    {
        Key { code, modifiers: KeyModifiers { shift: false, control: false, alt: true, meta: false } }
    }

    /// Whether the key types its character: no modifier but shift is held.
    pub open spec fn types(self) -> bool {
        self.modifiers == KeyModifiers::nothing() || self.modifiers == KeyModifiers::only_shift()
    }

    /// Whether the key types its character.
    pub fn is_typed(self) -> (r: bool)
        ensures
            r == self.types(),
    {
        self.modifiers.is_empty() || self.modifiers.is_shift()
    }
}

/// A key is told from the same key with a modifier, and only shift leaves a character typed.
pub proof fn law_modifiers_are_told_apart(code: KeyCode, c: char, m: KeyModifiers)
    ensures
        plain(code).code == code,
        ctrl(c).code == KeyCode::Char(c),
        m == plain(code).modifiers <==> !m.shift && !m.control && !m.alt && !m.meta,
        m == ctrl(c).modifiers <==> !m.shift && m.control && !m.alt && !m.meta,
        m == KeyModifiers::only_shift() <==> m.shift && !m.control && !m.alt && !m.meta,
        m == KeyModifiers::only_alt() <==> !m.shift && !m.control && m.alt && !m.meta,
        (Key { code, modifiers: m }).types() <==> !m.control && !m.alt && !m.meta,
{
}

} // verus!
