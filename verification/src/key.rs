//! Key events: modifier sets ([`Mods`]), key codes ([`KeyCode`]) and chords ([`KeyPress`]).

use std::ops::{BitOr, BitOrAssign};
use vstd::prelude::*;

verus! {

/// A set of modifier keys, stored as a bitset.
#[derive(Clone, Copy, Debug, Default, PartialEq, Eq, Structural, Hash, PartialOrd, Ord)]
pub struct Mods(pub u8);

impl Mods {
    /// No modifiers.
    #[verifier::allow_in_spec]
    pub fn none() -> Self
        returns
            Mods(0),
    {
        Mods(0)
    }

    /// Control.
    #[verifier::allow_in_spec]
    pub fn ctrl() -> Self
        returns
            Mods(1),
    {
        Mods(1)
    }

    /// Alt / Meta.
    #[verifier::allow_in_spec]
    pub fn alt() -> Self
        returns
            Mods(2),
    {
        Mods(2)
    }

    /// Shift.
    #[verifier::allow_in_spec]
    pub fn shift() -> Self
        returns
            Mods(4),
    {
        Mods(4)
    }

    /// Super / Command.
    #[verifier::allow_in_spec]
    pub fn super_key() -> Self
        returns
            Mods(8),
    {
        Mods(8)
    }

    /// Whether the modifier with bit `bit` belongs to the set.
    pub open spec fn has(self, bit: u8) -> bool {
        self.0 & bit == bit
    }

    /// Whether `self` contains every modifier in `other`.
    pub fn contains(self, other: Self) -> (r: bool)
        ensures
            r == self.has(other.0),
    {
        self.0 & other.0 == other.0
    }

    /// Whether no modifiers are set.
    pub fn is_empty(self) -> (r: bool)
        ensures
            r == (self == Mods::none()),
    {
        self.0 == 0
    }
}

impl BitOr for Mods {
    type Output = Self;

    fn bitor(self, rhs: Self) -> (r: Self) {
        Mods(self.0 | rhs.0)
    }
}

impl vstd::std_specs::ops::BitOrSpecImpl for Mods {
    open spec fn obeys_bitor_spec() -> bool {
        true
    }

    open spec fn bitor_req(self, rhs: Self) -> bool {
        true
    }

    open spec fn bitor_spec(self, rhs: Self) -> Self {
        Mods(self.0 | rhs.0)
    }
}

impl BitOrAssign for Mods {
    fn bitor_assign(&mut self, rhs: Self)
        ensures
            *final(self) == Mods(old(self).0 | rhs.0),
    {
        self.0 = self.0 | rhs.0;
    }
}

/// The union of two sets of modifiers contains exactly the single modifiers that either of
/// them contains.
pub proof fn law_union_contains(a: Mods, b: Mods, bit: u8)
    requires
        bit == Mods::ctrl().0 || bit == Mods::alt().0 || bit == Mods::shift().0 || bit == Mods::super_key().0,
    ensures
        Mods(a.0 | b.0).has(bit) <==> a.has(bit) || b.has(bit),
{
    let x = a.0;
    let y = b.0;
    assert(bit == 1 || bit == 2 || bit == 4 || bit == 8 ==> (((x | y) & bit == bit) <==> (x & bit
        == bit || y & bit == bit))) by (bit_vector);
}

/// A physical key, independent of modifiers.
#[derive(Clone, Copy, Debug, PartialEq, Eq, Structural, Hash, PartialOrd, Ord)]
pub enum KeyCode {
    /// A character key (the produced character, lower-case for letters).
    Char(char),
    /// Return / Enter.
    Enter,
    /// Escape.
    Escape,
    /// Tab.
    Tab,
    /// Backspace.
    Backspace,
    /// Forward delete.
    Delete,
    /// Insert.
    Insert,
    /// Left arrow.
    Left,
    /// Right arrow.
    Right,
    /// Up arrow.
    Up,
    /// Down arrow.
    Down,
    /// Home.
    Home,
    /// End.
    End,
    /// Page Up.
    PageUp,
    /// Page Down.
    PageDown,
    /// A function key `F1`..`F12`.
    Function(u8),
}

/// A complete key chord: a [`KeyCode`] together with its active [`Mods`].
#[derive(Clone, Copy, Debug, PartialEq, Eq, Structural, Hash, PartialOrd, Ord)]
pub struct KeyPress {
    /// The active modifiers.
    pub mods: Mods,
    /// The key.
    pub code: KeyCode,
}

impl KeyPress {
    /// Creates a key press from `mods` and `code`.
    #[verifier::allow_in_spec]
    pub fn new(mods: Mods, code: KeyCode) -> Self
        returns
            (KeyPress { mods, code }),
    {
        KeyPress { mods, code }
    }

    /// An unmodified character key.
    #[verifier::allow_in_spec]
    pub fn char(c: char) -> Self
        returns
            (KeyPress { mods: Mods::none(), code: KeyCode::Char(c) }),
    {
        KeyPress { mods: Mods::none(), code: KeyCode::Char(c) }
    }

    /// A `Ctrl`-modified character key.
    #[verifier::allow_in_spec]
    pub fn ctrl(c: char) -> Self
        returns
            (KeyPress { mods: Mods::ctrl(), code: KeyCode::Char(c) }),
    {
        KeyPress { mods: Mods::ctrl(), code: KeyCode::Char(c) }
    }

    /// An `Alt`-modified character key.
    #[verifier::allow_in_spec]
    pub fn alt(c: char) -> Self
        returns
            (KeyPress { mods: Mods::alt(), code: KeyCode::Char(c) }),
    {
        KeyPress { mods: Mods::alt(), code: KeyCode::Char(c) }
    }

    /// An unmodified named key.
    #[verifier::allow_in_spec]
    pub fn key(code: KeyCode) -> Self
        returns
            (KeyPress { mods: Mods::none(), code }),
    {
        KeyPress { mods: Mods::none(), code }
    }
}

} // verus!
