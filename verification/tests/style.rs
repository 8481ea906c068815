use md_to_tui::style::style::MdStyle;
use md_to_tui::style::visual::{
    Color, Style, BOLD, CROSSED_OUT, DIM, HIDDEN, ITALIC, RAPID_BLINK, REVERSED, SLOW_BLINK,
    UNDERLINED,
};
use md_to_tui::text::{Line, Span, Text};
use ratatui::style::{Color as C, Modifier, Modifier as M, Style as S};

fn to_color(c: Color) -> ratatui::style::Color {
    match c {
        Color::Reset => ratatui::style::Color::Reset,
        Color::Black => ratatui::style::Color::Black,
        Color::Red => ratatui::style::Color::Red,
        Color::Green => ratatui::style::Color::Green,
        Color::Yellow => ratatui::style::Color::Yellow,
        Color::Blue => ratatui::style::Color::Blue,
        Color::Magenta => ratatui::style::Color::Magenta,
        Color::Cyan => ratatui::style::Color::Cyan,
        Color::Gray => ratatui::style::Color::Gray,
        Color::DarkGray => ratatui::style::Color::DarkGray,
        Color::LightRed => ratatui::style::Color::LightRed,
        Color::LightGreen => ratatui::style::Color::LightGreen,
        Color::LightYellow => ratatui::style::Color::LightYellow,
        Color::LightBlue => ratatui::style::Color::LightBlue,
        Color::LightMagenta => ratatui::style::Color::LightMagenta,
        Color::LightCyan => ratatui::style::Color::LightCyan,
        Color::White => ratatui::style::Color::White,
        Color::Rgb(r, g, b) => ratatui::style::Color::Rgb(r, g, b),
        Color::Indexed(i) => ratatui::style::Color::Indexed(i),
    }
}

fn to_style(s: Style) -> ratatui::style::Style {
    ratatui::style::Style {
        fg: s.fg.map(to_color),
        bg: s.bg.map(to_color),
        add_modifier: ratatui::style::Modifier::from_bits(s.add_modifier).unwrap(),
        sub_modifier: ratatui::style::Modifier::from_bits(s.sub_modifier).unwrap(),
    }
}

fn samples() -> Vec<Style> {
    vec![
        Style::default(),
        Style::default().fg(Color::Yellow),
        Style::default().bg(Color::Yellow),
        Style::default().fg(Color::Rgb(1, 2, 3)).bg(Color::Indexed(4)),
        Style::default().add_modifier(BOLD),
        Style::default().remove_modifier(BOLD),
        Style::default().add_modifier(ITALIC),
        Style::default().remove_modifier(ITALIC),
        Style::default().add_modifier(ITALIC | BOLD),
        Style::default().remove_modifier(ITALIC | BOLD),
        Style::default().add_modifier(UNDERLINED).remove_modifier(DIM).fg(Color::Reset),
        Style { fg: None, bg: None, add_modifier: BOLD | DIM, sub_modifier: BOLD | HIDDEN },
    ]
}

#[test]
fn modifier_bits_are_those_of_the_display() {
    assert_eq!(BOLD, Modifier::BOLD.bits());
    assert_eq!(DIM, Modifier::DIM.bits());
    assert_eq!(ITALIC, Modifier::ITALIC.bits());
    assert_eq!(UNDERLINED, Modifier::UNDERLINED.bits());
    assert_eq!(SLOW_BLINK, Modifier::SLOW_BLINK.bits());
    assert_eq!(RAPID_BLINK, Modifier::RAPID_BLINK.bits());
    assert_eq!(REVERSED, Modifier::REVERSED.bits());
    assert_eq!(HIDDEN, Modifier::HIDDEN.bits());
    assert_eq!(CROSSED_OUT, Modifier::CROSSED_OUT.bits());
}

#[test]
fn style_builders_give_exact_values() {
    assert_eq!(Style::new(), Style { fg: None, bg: None, add_modifier: 0, sub_modifier: 0 });
    assert_eq!(Style::default(), Style::new());
    assert_eq!(
        Style::new().fg(Color::Red),
        Style { fg: Some(Color::Red), bg: None, add_modifier: 0, sub_modifier: 0 }
    );
    assert_eq!(
        Style::new().bg(Color::Blue),
        Style { fg: None, bg: Some(Color::Blue), add_modifier: 0, sub_modifier: 0 }
    );
    assert_eq!(
        Style::new().fg(Color::Red).fg(Color::Green).bg(Color::Blue),
        Style { fg: Some(Color::Green), bg: Some(Color::Blue), add_modifier: 0, sub_modifier: 0 }
    );
    assert_eq!(
        Style::new().add_modifier(BOLD | ITALIC),
        Style { fg: None, bg: None, add_modifier: 5, sub_modifier: 0 }
    );
    assert_eq!(
        Style::new().add_modifier(BOLD | ITALIC).remove_modifier(BOLD),
        Style { fg: None, bg: None, add_modifier: 4, sub_modifier: 1 }
    );
    assert_eq!(
        Style::new().remove_modifier(DIM).add_modifier(DIM),
        Style { fg: None, bg: None, add_modifier: 2, sub_modifier: 0 }
    );
}

#[test]
fn patch_lays_the_second_style_over_the_first() {
    let base = Style::new().fg(Color::White).add_modifier(BOLD);
    let over = Style::new().bg(Color::Black).add_modifier(ITALIC).remove_modifier(BOLD);
    assert_eq!(
        base.patch(over),
        Style { fg: Some(Color::White), bg: Some(Color::Black), add_modifier: 4, sub_modifier: 1 }
    );
    assert_eq!(
        over.patch(base),
        Style { fg: Some(Color::White), bg: Some(Color::Black), add_modifier: 5, sub_modifier: 0 }
    );
    assert_eq!(base.patch(Style::new().fg(Color::Red)).fg, Some(Color::Red));
    for s in samples() {
        assert_eq!(s.patch(Style::new()), s);
        assert_eq!(Style::new().patch(s), s);
    }
}

#[test]
fn patch_is_associative() {
    let styles = samples();
    for &a in &styles {
        for &b in &styles {
            for &c in &styles {
                assert_eq!(a.patch(b).patch(c), a.patch(b.patch(c)));
            }
        }
    }
}

#[test]
fn styles_behave_as_those_of_the_display() {
    let styles = samples();
    for &a in &styles {
        assert_eq!(to_style(a.fg(Color::Cyan)), to_style(a).fg(ratatui::style::Color::Cyan));
        assert_eq!(to_style(a.bg(Color::Cyan)), to_style(a).bg(ratatui::style::Color::Cyan));
        assert_eq!(
            to_style(a.add_modifier(BOLD | REVERSED)),
            to_style(a).add_modifier(
                ratatui::style::Modifier::BOLD | ratatui::style::Modifier::REVERSED
            )
        );
        assert_eq!(
            to_style(a.remove_modifier(BOLD | DIM)),
            to_style(a)
                .remove_modifier(ratatui::style::Modifier::BOLD | ratatui::style::Modifier::DIM)
        );
        for &b in &styles {
            assert_eq!(to_style(a.patch(b)), to_style(a).patch(to_style(b)));
        }
    }
    assert_eq!(to_style(Style::new()), ratatui::style::Style::new());
    assert_eq!(to_style(Style::default()), ratatui::style::Style::default());
}

#[test]
fn fixed_table() {
    let t = MdStyle::default();
    assert_eq!(t.heading, Style::default().fg(Color::Cyan));
    assert_eq!(t.h1, Style::default().fg(Color::Magenta));
    assert_eq!(t.h2, Style::default().fg(Color::Magenta));
    assert_eq!(t.h3, Style::default().fg(Color::LightYellow));
    assert_eq!(t.h4, Style::default().fg(Color::LightYellow));
    assert_eq!(t.h5, Style::default().fg(Color::LightGreen));
    assert_eq!(t.h6, Style::default().fg(Color::LightCyan));
    assert_eq!(t.underline_heading, Style::default().fg(Color::LightGreen));
    assert_eq!(t.list, Style::default().fg(Color::LightRed));
    assert_eq!(t.paragram, Style::default().fg(Color::DarkGray));
    assert_eq!(t.text, Style::default().fg(Color::White));
    assert_eq!(t.bold, Style { fg: None, bg: None, add_modifier: 1, sub_modifier: 0 });
    assert_eq!(t.italic, Style { fg: None, bg: None, add_modifier: 4, sub_modifier: 0 });
    assert_eq!(t.backtick, Style::default().fg(Color::Gray).bg(Color::Black));
    assert_eq!(t.blocqoutes, Style::default().fg(Color::Gray).bg(Color::Black));
    assert_eq!(t.horizontal_rule, Style::default().fg(Color::Gray).bg(Color::Red));
    assert_eq!(t.colored, Style::default().bg(Color::Yellow));
    assert_eq!(t.link, Style::default().fg(Color::Blue));
    assert_eq!(t.link_text, Style::default().fg(Color::Red));
    assert_eq!(t.tag, Style::default().bg(Color::Cyan));
    assert_eq!(
        t.code,
        Style { fg: None, bg: Some(Color::DarkGray), add_modifier: 1, sub_modifier: 0 }
    );
}

#[test]
fn fixed_table_in_the_styles_of_the_display() {
    let t = MdStyle::default();
    assert_eq!(to_style(t.heading), S::default().fg(C::Cyan));
    assert_eq!(to_style(t.h1), S::default().fg(C::Magenta));
    assert_eq!(to_style(t.h2), S::default().fg(C::Magenta));
    assert_eq!(to_style(t.h3), S::default().fg(C::LightYellow));
    assert_eq!(to_style(t.h4), S::default().fg(C::LightYellow));
    assert_eq!(to_style(t.h5), S::default().fg(C::LightGreen));
    assert_eq!(to_style(t.h6), S::default().fg(C::LightCyan));
    assert_eq!(to_style(t.underline_heading), S::default().fg(C::LightGreen));
    assert_eq!(to_style(t.list), S::default().fg(C::LightRed));
    assert_eq!(to_style(t.paragram), S::default().fg(C::DarkGray));
    assert_eq!(to_style(t.text), S::default().fg(C::White));
    assert_eq!(to_style(t.bold), S::default().add_modifier(M::BOLD));
    assert_eq!(to_style(t.italic), S::default().add_modifier(M::ITALIC));
    assert_eq!(to_style(t.backtick), S::default().fg(C::Gray).bg(C::Black));
    assert_eq!(to_style(t.blocqoutes), S::default().fg(C::Gray).bg(C::Black));
    assert_eq!(to_style(t.horizontal_rule), S::default().fg(C::Gray).bg(C::Red));
    assert_eq!(to_style(t.colored), S::default().bg(C::Yellow));
    assert_eq!(to_style(t.link), S::default().fg(C::Blue));
    assert_eq!(to_style(t.link_text), S::default().fg(C::Red));
    assert_eq!(to_style(t.tag), S::default().bg(C::Cyan));
    assert_eq!(to_style(t.code), S::default().bg(C::DarkGray).add_modifier(M::BOLD));
}

#[test]
fn heading_style_by_depth() {
    let mut t = MdStyle::default();
    t.h2 = Style::default().fg(Color::Indexed(2));
    assert_eq!(t.heading_style(0), t.heading);
    assert_eq!(t.heading_style(1), t.h1);
    assert_eq!(t.heading_style(2), Style::default().fg(Color::Indexed(2)));
    assert_eq!(t.heading_style(3), t.h3);
    assert_eq!(t.heading_style(4), t.h4);
    assert_eq!(t.heading_style(5), t.h5);
    assert_eq!(t.heading_style(6), t.h6);
    assert_eq!(t.heading_style(7), t.heading);
    assert_eq!(t.heading_style(usize::MAX), t.heading);
}

#[test]
fn spans_lines_and_texts() {
    let raw = Span::raw("a".into());
    assert_eq!(raw, Span { content: "a".into(), style: Style::default() });
    let mut styled = Span::styled("b".into(), Style::default().fg(Color::Red));
    assert_eq!(styled, Span { content: "b".into(), style: Style::default().fg(Color::Red) });
    styled.patch_style(Style::default().bg(Color::Blue).add_modifier(BOLD));
    assert_eq!(
        styled,
        Span {
            content: "b".into(),
            style: Style {
                fg: Some(Color::Red),
                bg: Some(Color::Blue),
                add_modifier: 1,
                sub_modifier: 0
            }
        }
    );
    let line = Line::new(vec![raw.clone(), styled.clone()]);
    assert_eq!(line.spans, vec![raw.clone(), styled]);
    let text = Text::new(vec![line.clone(), Line::new(vec![])]);
    assert_eq!(text.lines, vec![line, Line { spans: vec![] }]);
    assert_eq!(Text::single("a".into()), Text { lines: vec![Line { spans: vec![raw] }] });
}
