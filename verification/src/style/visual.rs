//! Colours, modifiers and the style made of them.
//!
//! A [`Style`] is an incremental description: what it leaves open (`None`, a
//! modifier bit in neither set) is taken from whatever it is laid over.
use vstd::prelude::*;

verus! {

/// A terminal colour.
#[derive(Debug, Clone, Copy, PartialEq, Eq)]
pub enum Color {
    Reset,
    Black,
    Red,
    Green,
    Yellow,
    Blue,
    Magenta,
    Cyan,
    Gray,
    DarkGray,
    LightRed,
    LightGreen,
    LightYellow,
    LightBlue,
    LightMagenta,
    LightCyan,
    White,
    Rgb(u8, u8, u8),
    Indexed(u8),
}

/// Modifier bit: bold.
pub const BOLD: u16 = 0b0000_0000_0001;

/// Modifier bit: dim.
pub const DIM: u16 = 0b0000_0000_0010;

/// Modifier bit: italic.
pub const ITALIC: u16 = 0b0000_0000_0100;

/// Modifier bit: underlined.
pub const UNDERLINED: u16 = 0b0000_0000_1000;

/// Modifier bit: slow blink.
pub const SLOW_BLINK: u16 = 0b0000_0001_0000;

/// Modifier bit: rapid blink.
pub const RAPID_BLINK: u16 = 0b0000_0010_0000;

/// Modifier bit: reversed.
pub const REVERSED: u16 = 0b0000_0100_0000;

/// Modifier bit: hidden.
pub const HIDDEN: u16 = 0b0000_1000_0000;

/// Modifier bit: crossed out.
pub const CROSSED_OUT: u16 = 0b0001_0000_0000;

/// A set of visual attributes: colours to set, modifier bits to switch on and
/// modifier bits to switch off.
#[derive(Debug, Clone, Copy, PartialEq, Eq)]
pub struct Style {
    pub fg: Option<Color>,
    pub bg: Option<Color>,
    pub add_modifier: u16,
    pub sub_modifier: u16,
}

impl Style {
    /// The style that sets nothing.
    pub open spec fn plain() -> Style {
        Style { fg: None, bg: None, add_modifier: 0, sub_modifier: 0 }
    }

    /// `self` with the bits of `modifier` switched on.
    pub open spec fn with_added(self, modifier: u16) -> Style {
        Style {
            fg: self.fg,
            bg: self.bg,
            add_modifier: self.add_modifier | modifier,
            sub_modifier: self.sub_modifier & !modifier,
        }
    }

    /// `self` with the bits of `modifier` switched off.
    pub open spec fn with_removed(self, modifier: u16) -> Style {
        Style {
            fg: self.fg,
            bg: self.bg,
            add_modifier: self.add_modifier & !modifier,
            sub_modifier: self.sub_modifier | modifier,
        }
    }

    /// `other` laid over `self`: a colour that `other` sets wins, one that it
    /// leaves open stays; of the modifier bits, `other` has the last word.
    pub open spec fn patched(self, other: Style) -> Style {
        Style {
            fg: if other.fg is Some { other.fg } else { self.fg },
            bg: if other.bg is Some { other.bg } else { self.bg },
            add_modifier: (self.add_modifier & !other.sub_modifier) | other.add_modifier,
            sub_modifier: (self.sub_modifier & !other.add_modifier) | other.sub_modifier,
        }
    }

    /// The style that sets nothing.
    pub fn new() -> (r: Style)
        ensures
            r == Style::plain(),
    {
        Style { fg: None, bg: None, add_modifier: 0, sub_modifier: 0 }
    }

    /// Sets the foreground colour.
    pub fn fg(self, color: Color) -> (r: Style)
        ensures
            r == (Style { fg: Some(color), ..self }),
    {
        Style {
            fg: Some(color),
            bg: self.bg,
            add_modifier: self.add_modifier,
            sub_modifier: self.sub_modifier,
        }
    }

    /// Sets the background colour.
    pub fn bg(self, color: Color) -> (r: Style)
        ensures
            r == (Style { bg: Some(color), ..self }),
    {
        Style {
            fg: self.fg,
            bg: Some(color),
            add_modifier: self.add_modifier,
            sub_modifier: self.sub_modifier,
        }
    }

    /// Switches the bits of `modifier` on.
    pub fn add_modifier(self, modifier: u16) -> (r: Style)
        ensures
            r == self.with_added(modifier),
    {
        Style {
            fg: self.fg,
            bg: self.bg,
            add_modifier: self.add_modifier | modifier,
            sub_modifier: self.sub_modifier & !modifier,
        }
    }

    /// Switches the bits of `modifier` off.
    pub fn remove_modifier(self, modifier: u16) -> (r: Style)
        ensures
            r == self.with_removed(modifier),
    {
        Style {
            fg: self.fg,
            bg: self.bg,
            add_modifier: self.add_modifier & !modifier,
            sub_modifier: self.sub_modifier | modifier,
        }
    }

    /// Lays `other` over `self`.
    pub fn patch(self, other: Style) -> (r: Style)
        ensures
            r == self.patched(other),
    {
        Style {
            fg: match other.fg {
                Some(c) => Some(c),
                None => self.fg,
            },
            bg: match other.bg {
                Some(c) => Some(c),
                None => self.bg,
            },
            add_modifier: (self.add_modifier & !other.sub_modifier) | other.add_modifier,
            sub_modifier: (self.sub_modifier & !other.add_modifier) | other.sub_modifier,
        }
    }
}

impl Default for Style {
    fn default() -> (r: Style)
        ensures
            r == Style::plain(),
    {
        Style::new()
    }
}

} // verus!
