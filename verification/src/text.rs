//! Styled text: spans, lines of spans, and texts of lines.
use vstd::prelude::*;
use vstd::string::StringExecFns;
use crate::style::visual::Style;

verus! {

/// The text of `n` copies of `c`.
pub open spec fn repeat(c: char, n: nat) -> Seq<char> {
    Seq::new(n, |i: int| c)
}

/// The text of `n` copies of the one character of `unit`.
pub(crate) fn repeated(unit: &str, n: usize) -> (r: String)
    requires
        unit@.len() == 1,
    ensures
        r@ == repeat(unit@[0], n as nat),
{
    let mut r = String::new();
    let mut i: usize = 0;
    assert(r@ =~= repeat(unit@[0], 0));
    while i < n
        invariant
            i <= n,
            unit@.len() == 1,
            r@ == repeat(unit@[0], i as nat),
        decreases n - i,
    {
        r.append(unit);
        i += 1;
        assert(r@ =~= repeat(unit@[0], i as nat));
    }
    r
}

/// A run of text with one style.
#[derive(Debug, Clone, PartialEq, Eq)]
pub struct Span {
    pub content: String,
    pub style: Style,
}

/// A [`Span`] with its content as a character sequence.
pub ghost struct SpanView {
    pub content: Seq<char>,
    pub style: Style,
}

impl View for Span {
    type V = SpanView;

    open spec fn view(&self) -> SpanView {
        SpanView { content: self.content@, style: self.style }
    }
}

/// The views of a sequence of spans.
pub open spec fn spans_view(spans: Seq<Span>) -> Seq<SpanView> {
    spans.map_values(|s: Span| s@)
}

impl Span {
    /// A span without styling.
    pub fn raw(content: String) -> (r: Span)
        ensures
            r@ == (SpanView { content: content@, style: Style::plain() }),
    {
        Span { content, style: Style::new() }
    }

    /// A span with the given style.
    pub fn styled(content: String, style: Style) -> (r: Span)
        ensures
            r@ == (SpanView { content: content@, style }),
    {
        Span { content, style }
    }

    /// Lays `style` over the span's own style.
    pub fn patch_style(&mut self, style: Style)
        ensures
            final(self)@ == (SpanView {
                content: old(self)@.content,
                style: old(self)@.style.patched(style),
            }),
    {
        self.style = self.style.patch(style);
    }
}

/// One row of spans.
#[derive(Debug, Clone, PartialEq, Eq)]
pub struct Line {
    pub spans: Vec<Span>,
}

impl View for Line {
    type V = Seq<SpanView>;

    open spec fn view(&self) -> Seq<SpanView> {
        spans_view(self.spans@)
    }
}

/// The views of a sequence of lines.
pub open spec fn lines_view(lines: Seq<Line>) -> Seq<Seq<SpanView>> {
    lines.map_values(|l: Line| l@)
}

impl Line {
    /// The line made of the given spans.
    pub fn new(spans: Vec<Span>) -> (r: Line)
        ensures
            r@ == spans_view(spans@),
    {
        Line { spans }
    }
}

/// Lines of spans, as handed to a display.
#[derive(Debug, Clone, PartialEq, Eq)]
pub struct Text {
    pub lines: Vec<Line>,
}

impl View for Text {
    type V = Seq<Seq<SpanView>>;

    open spec fn view(&self) -> Seq<Seq<SpanView>> {
        lines_view(self.lines@)
    }
}

impl Text {
    /// The text made of the given lines.
    pub fn new(lines: Vec<Line>) -> (r: Text)
        ensures
            r@ == lines_view(lines@),
    {
        Text { lines }
    }

    /// The text of one line that holds `content` unstyled.
    pub fn single(content: String) -> (r: Text)
        ensures
            r@ == seq![seq![SpanView { content: content@, style: Style::plain() }]],
    {
        let mut spans: Vec<Span> = Vec::new();
        spans.push(Span::raw(content));
        let mut lines: Vec<Line> = Vec::new();
        lines.push(Line::new(spans));
        let r = Text { lines };
        assert(r@ =~= seq![seq![SpanView { content: content@, style: Style::plain() }]]) by {
            assert(r.lines@[0]@ =~= seq![SpanView { content: content@, style: Style::plain() }]);
        }
        r
    }
}

} // verus!
