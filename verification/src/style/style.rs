//! The style table: one style for each part of a document.
use vstd::prelude::*;
use crate::style::visual::{Color, Style, BOLD, ITALIC};

verus! {

/// The styles of the parts of a document.
#[allow(dead_code)]
#[derive(Debug, PartialEq, Clone)]
pub struct MdStyle {
    pub heading: Style,
    pub h1: Style,
    pub h2: Style,
    pub h3: Style,
    pub h4: Style,
    pub h5: Style,
    pub h6: Style,
    pub underline_heading: Style,
    pub list: Style,
    pub text: Style,
    pub paragram: Style,
    pub bold: Style,
    pub italic: Style,
    pub backtick: Style,
    pub blocqoutes: Style,
    pub horizontal_rule: Style,
    pub colored: Style,
    pub link: Style,
    pub link_text: Style,
    pub tag: Style,
    pub code: Style,
}

/// The style that sets the foreground colour and nothing else.
pub open spec fn fg_only(color: Color) -> Style {
    Style { fg: Some(color), bg: None, add_modifier: 0, sub_modifier: 0 }
}

/// The style that sets the background colour and nothing else.
pub open spec fn bg_only(color: Color) -> Style {
    Style { fg: None, bg: Some(color), add_modifier: 0, sub_modifier: 0 }
}

/// The style that sets both colours and nothing else.
pub open spec fn fg_on_bg(fg: Color, bg: Color) -> Style {
    Style { fg: Some(fg), bg: Some(bg), add_modifier: 0, sub_modifier: 0 }
}

/// The table that a call works with: the given one, or the fixed one where
/// none is given.
pub open spec fn table_or_fixed(style: Option<MdStyle>) -> MdStyle {
    match style {
        None => MdStyle::fixed(),
        Some(style) => style,
    }
}

impl MdStyle {
    /// The table that is used where none is given.
    pub open spec fn fixed() -> MdStyle {
        MdStyle {
            heading: fg_only(Color::Cyan),
            h1: fg_only(Color::Magenta),
            h2: fg_only(Color::Magenta),
            h3: fg_only(Color::LightYellow),
            h4: fg_only(Color::LightYellow),
            h5: fg_only(Color::LightGreen),
            h6: fg_only(Color::LightCyan),
            underline_heading: fg_only(Color::LightGreen),
            list: fg_only(Color::LightRed),
            paragram: fg_only(Color::DarkGray),
            text: fg_only(Color::White),
            bold: Style { fg: None, bg: None, add_modifier: BOLD, sub_modifier: 0 },
            italic: Style { fg: None, bg: None, add_modifier: ITALIC, sub_modifier: 0 },
            backtick: fg_on_bg(Color::Gray, Color::Black),
            blocqoutes: fg_on_bg(Color::Gray, Color::Black),
            horizontal_rule: fg_on_bg(Color::Gray, Color::Red),
            colored: bg_only(Color::Yellow),
            link: fg_only(Color::Blue),
            link_text: fg_only(Color::Red),
            tag: bg_only(Color::Cyan),
            code: Style { fg: None, bg: Some(Color::DarkGray), add_modifier: BOLD, sub_modifier: 0 },
        }
    }

    /// The style of a heading of the given depth: one of the six levels, and
    /// the general heading style for every other depth.
    pub open spec fn heading_for(self, depth: nat) -> Style {
        if depth == 1 {
            self.h1
        } else if depth == 2 {
            self.h2
        } else if depth == 3 {
            self.h3
        } else if depth == 4 {
            self.h4
        } else if depth == 5 {
            self.h5
        } else if depth == 6 {
            self.h6
        } else {
            self.heading
        }
    }

    /// The style of a heading of the given depth.
    pub fn heading_style(&self, depth: usize) -> (r: Style)
        ensures
            r == self.heading_for(depth as nat),
    {
        match depth {
            1 => self.h1,
            2 => self.h2,
            3 => self.h3,
            4 => self.h4,
            5 => self.h5,
            6 => self.h6,
            _ => self.heading,
        }
    }
}

impl Default for MdStyle {
    fn default() -> (r: MdStyle)
        ensures
            r == MdStyle::fixed(),
    {
        proof {
            assert(0u16 | BOLD == BOLD && 0u16 & !BOLD == 0u16) by (bit_vector);
            assert(0u16 | ITALIC == ITALIC && 0u16 & !ITALIC == 0u16) by (bit_vector);
        }
        MdStyle {
            heading: Style::default().fg(Color::Cyan),
            h1: Style::default().fg(Color::Magenta),
            h2: Style::default().fg(Color::Magenta),
            h3: Style::default().fg(Color::LightYellow),
            h4: Style::default().fg(Color::LightYellow),
            h5: Style::default().fg(Color::LightGreen),
            h6: Style::default().fg(Color::LightCyan),
            underline_heading: Style::default().fg(Color::LightGreen),
            list: Style::default().fg(Color::LightRed),
            paragram: Style::default().fg(Color::DarkGray),
            text: Style::default().fg(Color::White),
            bold: Style::default().add_modifier(BOLD),
            italic: Style::default().add_modifier(ITALIC),
            backtick: Style::default().fg(Color::Gray).bg(Color::Black),
            blocqoutes: Style::default().fg(Color::Gray).bg(Color::Black),
            horizontal_rule: Style::default().fg(Color::Gray).bg(Color::Red),
            colored: Style::default().bg(Color::Yellow),
            link: Style::default().fg(Color::Blue),
            link_text: Style::default().fg(Color::Red),
            tag: Style::default().bg(Color::Cyan),
            code: Style::default().bg(Color::DarkGray).add_modifier(BOLD),
        }
    }
}

} // verus!
