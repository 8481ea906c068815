//! The parser: tokens in, lines of styled spans out.
//!
//! An end-of-line or end-of-input token closes a line, and the line behind
//! the last of them is the last line. Within a line each token gives one
//! span, with two exceptions that take one token of lookahead:
//!
//! - a heading marker takes the space behind it as its separator, so that
//!   marker and space give one span;
//! - a line that is a run of three or more `=`, or of three or more `_`, and
//!   nothing else is a horizontal rule, and gives one span.
use vstd::prelude::*;
use vstd::string::StringExecFns;
use vstd::utf8::encode_utf8;
use crate::error::{Error, ErrorView};
use crate::parser::cursor::TokenCursor;
use crate::parser::parser_helpers::heading_marker;
use crate::parser::lexer::{lex, tokens_view, Lexer, Token, TokenView};
use crate::style::style::{table_or_fixed, MdStyle};
use crate::style::visual::{Color, Style};
use crate::text::{lines_view, repeat, repeated, spans_view, Line, Span, SpanView};

verus! {

/// The style of a span that names a token for which there is no text.
pub open spec fn diagnostic_style() -> Style {
    Style { fg: Some(Color::Red), bg: None, add_modifier: 0, sub_modifier: 0 }
}

/// The text that a token gives.
pub open spec fn token_text(t: TokenView) -> Seq<char> {
    match t {
        TokenView::Heading(d) => repeat('#', d).push(' '),
        TokenView::Indent(s) => s,
        TokenView::WhiteSpace => seq![' '],
        TokenView::Tab => seq!['\t'],
        TokenView::LeftSquare => seq!['['],
        TokenView::RightSquare => seq![']'],
        TokenView::LeftParen => seq![')'],
        TokenView::RightParen => seq!['('],
        TokenView::LeftAngle => seq!['<'],
        TokenView::RightAngle => seq!['>'],
        TokenView::Dot => seq!['.'],
        TokenView::Dash => seq!['-'],
        TokenView::Equal => seq!['='],
        TokenView::Plus => seq!['+'],
        TokenView::Asterisk => seq!['*'],
        TokenView::Undersocre => seq!['_'],
        TokenView::BackTick => seq!['`'],
        TokenView::BackSlash => seq!['\\'],
        TokenView::Slash => seq!['/'],
        TokenView::Colon => seq![':'],
        TokenView::SemiColon => seq![';'],
        TokenView::EOL => t.describe(),
        TokenView::EOF => t.describe(),
        TokenView::Illegal(_) => t.describe(),
    }
}

/// The style that a token gets from the table.
pub open spec fn token_style(t: TokenView, table: MdStyle) -> Style {
    match t {
        TokenView::Heading(d) => table.heading_for(d),
        TokenView::Indent(_) => table.text,
        TokenView::WhiteSpace => Style::plain(),
        TokenView::Tab => Style::plain(),
        TokenView::LeftSquare => table.link_text,
        TokenView::RightSquare => table.link_text,
        TokenView::LeftParen => table.link,
        TokenView::RightParen => table.link,
        TokenView::LeftAngle => table.blocqoutes,
        TokenView::RightAngle => table.blocqoutes,
        TokenView::Dot => table.text,
        TokenView::Dash => table.list,
        TokenView::Equal => table.text,
        TokenView::Plus => table.list,
        TokenView::Asterisk => table.bold,
        TokenView::Undersocre => table.italic,
        TokenView::BackTick => table.backtick,
        TokenView::BackSlash => table.text,
        TokenView::Slash => table.text,
        TokenView::Colon => table.text,
        TokenView::SemiColon => table.text,
        TokenView::EOL => diagnostic_style(),
        TokenView::EOF => diagnostic_style(),
        TokenView::Illegal(_) => diagnostic_style(),
    }
}

/// The span that a token gives by itself.
///
/// A token that closes a line, and a token that stands for a byte outside
/// the recognized set, has no text: its span describes the token, in a
/// style of its own.
pub open spec fn token_span(t: TokenView, table: MdStyle) -> SpanView {
    SpanView { content: token_text(t), style: token_style(t, table) }
}

/// The number of tokens from `i` up to the token that closes the line, or
/// up to the end of `t`.
pub open spec fn line_len(t: Seq<TokenView>, i: int) -> nat
    decreases t.len() - i,
{
    if 0 <= i < t.len() && !t[i].is_end() {
        1 + line_len(t, i + 1)
    } else {
        0
    }
}

/// A token that, repeated over a whole line, makes a horizontal rule.
pub open spec fn is_marker(t: TokenView) -> bool {
    t is Equal || t is Undersocre
}

/// The tokens from `from` up to `to` are three or more, all of them the
/// same marker.
pub open spec fn is_rule_line(t: Seq<TokenView>, from: int, to: int) -> bool {
    &&& to - from >= 3
    &&& is_marker(t[from])
    &&& forall|k: int| from <= k < to ==> #[trigger] t[k] == t[from]
}

/// The span of a horizontal rule made of `n` markers.
pub open spec fn rule_span(marker: TokenView, n: nat, table: MdStyle) -> SpanView {
    SpanView { content: repeat(token_text(marker)[0], n), style: table.horizontal_rule }
}

/// The spans of the tokens from `from` up to `to`, one for each, but for a
/// space that follows a heading marker.
pub open spec fn segments(t: Seq<TokenView>, from: int, to: int, table: MdStyle) -> Seq<
    SpanView,
>
    decreases to - from,
{
    if from >= to {
        seq![]
    } else if t[from] is Heading && from + 1 < to && t[from + 1] is WhiteSpace {
        seq![token_span(t[from], table)] + segments(t, from + 2, to, table)
    } else {
        seq![token_span(t[from], table)] + segments(t, from + 1, to, table)
    }
}

/// The spans of the line whose tokens are those from `from` up to `to`.
pub open spec fn render_line(t: Seq<TokenView>, from: int, to: int, table: MdStyle) -> Seq<
    SpanView,
> {
    if is_rule_line(t, from, to) {
        seq![rule_span(t[from], (to - from) as nat, table)]
    } else {
        segments(t, from, to, table)
    }
}

/// The lines of the tokens from `from` on: one for each token that closes a
/// line, and one for what follows the last of them.
pub open spec fn lines_from(t: Seq<TokenView>, from: int, table: MdStyle) -> Seq<Seq<SpanView>>
    decreases t.len() - from,
{
    let to = from + line_len(t, from);
    if 0 <= to < t.len() {
        seq![render_line(t, from, to, table)] + lines_from(t, to + 1, table)
    } else {
        seq![render_line(t, from, to, table)]
    }
}

/// Where the first line begins: behind the end-of-line token that opens the
/// sequence, if there is one.
pub open spec fn body_start(t: Seq<TokenView>) -> int {
    if t.len() > 0 && t[0] is EOL {
        1
    } else {
        0
    }
}

/// The lines that a token sequence gives.
pub open spec fn render(t: Seq<TokenView>, table: MdStyle) -> Seq<Seq<SpanView>> {
    lines_from(t, body_start(t), table)
}

/// The lines that a text gives, or the failure of lexing it.
pub open spec fn parse_bytes(s: Seq<u8>, table: MdStyle) -> Result<Seq<Seq<SpanView>>, ErrorView> {
    match lex(s) {
        Ok(t) => Ok(render(t, table)),
        Err(e) => Err(e),
    }
}

/// The first of the lines that a text gives, or the failure of lexing it.
pub open spec fn first_line(s: Seq<u8>, table: MdStyle) -> Result<Seq<SpanView>, ErrorView> {
    match parse_bytes(s, table) {
        Ok(lines) => Ok(lines[0]),
        Err(e) => Err(e),
    }
}

/// What a call that gives the spans of one line handed out, as a
/// mathematical value.
pub open spec fn parsed_line(r: Result<Vec<Span>, Error>) -> Result<Seq<SpanView>, ErrorView> {
    match r {
        Ok(spans) => Ok(spans_view(spans@)),
        Err(e) => Err(e@),
    }
}

/// What a call of the parser handed out, as a mathematical value.
pub open spec fn parsed(r: Result<Vec<Line>, Error>) -> Result<Seq<Seq<SpanView>>, ErrorView> {
    match r {
        Ok(lines) => Ok(lines_view(lines@)),
        Err(e) => Err(e@),
    }
}

/// A line lies inside `t`, holds no token that closes a line, and ends
/// before such a token or at the end of `t`.
pub proof fn lemma_line_len(t: Seq<TokenView>, i: int)
    requires
        0 <= i <= t.len(),
    ensures
        i + line_len(t, i) <= t.len(),
        forall|k: int| i <= k < i + line_len(t, i) ==> !(#[trigger] t[k]).is_end(),
        i + line_len(t, i) < t.len() ==> t[i + line_len(t, i)].is_end(),
    decreases t.len() - i,
{
    if i < t.len() && !t[i].is_end() {
        lemma_line_len(t, i + 1);
    }
}

/// Whether `b` is the marker `a` again.
fn same_marker(a: &Token, b: &Token) -> (r: bool)
    ensures
        r == (is_marker(a@) && a@ == b@),
{
    match (a, b) {
        (Token::Equal, Token::Equal) => true,
        (Token::Undersocre, Token::Undersocre) => true,
        _ => false,
    }
}

/// Turns a token sequence into lines with the styles of a table.
#[derive(Debug, Clone)]
pub struct Parser {
    pub input: String,
    pub style: MdStyle,
}

impl Parser {
    /// What parsing gives: the lines of the input in the styles of the
    /// table, or the failure of lexing the input.
    pub open spec fn outcome(&self) -> Result<Seq<Seq<SpanView>>, ErrorView> {
        parse_bytes(encode_utf8(self.input@), self.style)
    }

    /// A parser for `input`, with the given table or, where none is given,
    /// with the fixed one.
    pub fn new(input: String, style: Option<MdStyle>) -> (r: Parser)
        ensures
            r.input == input,
            r.style == table_or_fixed(style),
    {
        Parser {
            input,
            style: match style {
                None => MdStyle::default(),
                Some(style) => style,
            },
        }
    }

    /// Lexes the input and turns its tokens into lines.
    ///
    /// Fails exactly where a byte of the input is outside the recognized
    /// set, with the failure of the lexer and without any line.
    pub fn parse(&self) -> (r: Result<Vec<Line>, Error>)
        ensures
            parsed(r) == self.outcome(),
    {
        let mut lexer = Lexer::new();
        match lexer.parse(self.input.as_str()) {
            Ok(tokens) => Ok(self.parse_tokens(&tokens)),
            Err(e) => Err(e),
        }
    }

    /// Turns `tokens` into lines.
    ///
    /// An end-of-line token at the head of the sequence opens the first
    /// line and gives no line itself.
    pub fn parse_tokens(&self, tokens: &Vec<Token>) -> (r: Vec<Line>)
        ensures
            lines_view(r@) == render(tokens_view(tokens@), self.style),
    {
        let ghost t = tokens_view(tokens@);
        let mut cursor = TokenCursor::new(tokens);
        match cursor.peek() {
            Some(Token::EOL) => {
                cursor.advance();
            },
            _ => {},
        }
        let mut lines: Vec<Line> = Vec::new();
        assert(lines_view(lines@) + lines_from(t, cursor.position(), self.style) =~= render(
            t,
            self.style,
        ));
        loop
            invariant
                t == tokens_view(tokens@),
                cursor.tokens() == t,
                lines_view(lines@) + lines_from(t, cursor.position(), self.style) == render(
                    t,
                    self.style,
                ),
            decreases t.len() - cursor.position(),
        {
            let ghost from = cursor.position();
            let ghost before = lines_view(lines@);
            proof {
                cursor.lemma_position_bounds();
                lemma_line_len(t, from);
            }
            let spans = self.line_spans(&mut cursor);
            let line = Line::new(spans);
            proof {
                assert(lines_view(lines@.push(line)) =~= before.push(line@));
            }
            lines.push(line);
            match cursor.advance() {
                None => {
                    assert(lines_view(lines@) =~= render(t, self.style));
                    return lines;
                },
                Some(_) => {
                    assert(before.push(line@) + lines_from(t, cursor.position(), self.style)
                        =~= before + lines_from(t, from, self.style));
                },
            }
        }
    }

    /// Lexes `line` and hands out the spans of its first line: of the
    /// tokens up to the first that closes a line.
    pub fn parse_line(&self, line: String) -> (r: Result<Vec<Span>, Error>)
        ensures
            parsed_line(r) == first_line(encode_utf8(line@), self.style),
    {
        let mut lexer = Lexer::new();
        match lexer.parse(line.as_str()) {
            Ok(tokens) => {
                let mut cursor = TokenCursor::new(&tokens);
                match cursor.peek() {
                    Some(Token::EOL) => {
                        cursor.advance();
                    },
                    _ => {},
                }
                proof {
                    cursor.lemma_position_bounds();
                }
                Ok(self.line_spans(&mut cursor))
            },
            Err(e) => Err(e),
        }
    }

    /// The span that `token` gives by itself.
    pub fn token_span(&self, token: &Token) -> (r: Span)
        ensures
            r@ == token_span(token@, self.style),
    {
        proof {
            reveal_strlit(" ");
            reveal_strlit("\t");
            reveal_strlit("[");
            reveal_strlit("]");
            reveal_strlit(")");
            reveal_strlit("(");
            reveal_strlit("<");
            reveal_strlit(">");
            reveal_strlit(".");
            reveal_strlit("-");
            reveal_strlit("=");
            reveal_strlit("+");
            reveal_strlit("*");
            reveal_strlit("_");
            reveal_strlit("`");
            reveal_strlit("\\");
            reveal_strlit("/");
            reveal_strlit(":");
            reveal_strlit(";");
        }
        let r = match token {
            Token::Heading(depth) => heading_marker(*depth, &self.style),
            Token::Indent(text) => Span::styled(text.clone(), self.style.text),
            Token::WhiteSpace => Span::raw(String::from_str(" ")),
            Token::Tab => Span::raw(String::from_str("\t")),
            Token::LeftSquare => Span::styled(String::from_str("["), self.style.link_text),
            Token::RightSquare => Span::styled(String::from_str("]"), self.style.link_text),
            Token::LeftParen => Span::styled(String::from_str(")"), self.style.link),
            Token::RightParen => Span::styled(String::from_str("("), self.style.link),
            Token::LeftAngle => Span::styled(String::from_str("<"), self.style.blocqoutes),
            Token::RightAngle => Span::styled(String::from_str(">"), self.style.blocqoutes),
            Token::Dot => Span::styled(String::from_str("."), self.style.text),
            Token::Dash => Span::styled(String::from_str("-"), self.style.list),
            Token::Equal => Span::styled(String::from_str("="), self.style.text),
            Token::Plus => Span::styled(String::from_str("+"), self.style.list),
            Token::Asterisk => Span::styled(String::from_str("*"), self.style.bold),
            Token::Undersocre => Span::styled(String::from_str("_"), self.style.italic),
            Token::BackTick => Span::styled(String::from_str("`"), self.style.backtick),
            Token::BackSlash => Span::styled(String::from_str("\\"), self.style.text),
            Token::Slash => Span::styled(String::from_str("/"), self.style.text),
            Token::Colon => Span::styled(String::from_str(":"), self.style.text),
            Token::SemiColon => Span::styled(String::from_str(";"), self.style.text),
            Token::EOL => Span::styled(token.to_string(), Style::new().fg(Color::Red)),
            Token::EOF => Span::styled(token.to_string(), Style::new().fg(Color::Red)),
            Token::Illegal(_) => Span::styled(token.to_string(), Style::new().fg(Color::Red)),
        };
        assert(r@.content =~= token_text(token@));
        r
    }

    /// Consumes the tokens of one line, up to the token that closes it, and
    /// hands out the spans of the line.
    fn line_spans(&self, cursor: &mut TokenCursor<'_>) -> (r: Vec<Span>)
        ensures
            final(cursor).tokens() == old(cursor).tokens(),
            final(cursor).position() == old(cursor).position() + line_len(
                old(cursor).tokens(),
                old(cursor).position(),
            ),
            spans_view(r@) == render_line(
                old(cursor).tokens(),
                old(cursor).position(),
                final(cursor).position(),
                self.style,
            ),
    {
        let ghost t = cursor.tokens();
        let ghost from = cursor.position();
        let ghost to = from + line_len(t, from);
        proof {
            cursor.lemma_position_bounds();
            lemma_line_len(t, from);
        }
        let mut spans: Vec<Span> = Vec::new();
        assert(spans_view(spans@) + segments(t, from, to, self.style) =~= segments(
            t,
            from,
            to,
            self.style,
        ));
        let first = cursor.peek();
        let opens_with_marker = match first {
            Some(Token::Equal) => true,
            Some(Token::Undersocre) => true,
            _ => false,
        };
        if opens_with_marker {
            let marker = first.unwrap();
            let n = self.marker_run(cursor, marker);
            proof {
                cursor.lemma_position_bounds();
                if cursor.position() > to {
                    assert(t[to] == marker@);
                }
            }
            let closes = match cursor.peek() {
                None => true,
                Some(token) => token.is_end(),
            };
            if n >= 3 && closes {
                proof {
                    reveal_strlit("=");
                    reveal_strlit("_");
                }
                let unit = match marker {
                    Token::Equal => "=",
                    _ => "_",
                };
                spans.push(Span::styled(repeated(unit, n), self.style.horizontal_rule));
                proof {
                    if cursor.position() < to {
                        assert(!t[cursor.position()].is_end());
                    }
                    assert(cursor.position() == to);
                    assert(to - from >= 3);
                    assert(t[from] == marker@);
                    assert(is_rule_line(t, from, to));
                    assert(spans_view(spans@) =~= seq![rule_span(t[from], n as nat, self.style)]);
                }
                return spans;
            }
            proof {
                if is_rule_line(t, from, to) {
                    if cursor.position() < to {
                        assert(t[cursor.position()] == t[from]);
                    }
                    assert(false);
                }
            }
            let mut j: usize = 0;
            while j < n
                invariant
                    t == old(cursor).tokens(),
                    from == old(cursor).position(),
                    j <= n,
                    from + n <= to <= t.len(),
                    forall|k: int| from <= k < from + n ==> #[trigger] t[k] == marker@,
                    is_marker(marker@),
                    spans_view(spans@) + segments(t, from + j, to, self.style) == segments(
                        t,
                        from,
                        to,
                        self.style,
                    ),
                decreases n - j,
            {
                let ghost before = spans_view(spans@);
                let span = self.token_span(marker);
                proof {
                    assert(t[from + j] == marker@);
                    assert(spans_view(spans@.push(span)) =~= before.push(span@));
                    assert(before.push(span@) + segments(t, from + j + 1, to, self.style)
                        =~= before + segments(t, from + j, to, self.style));
                }
                spans.push(span);
                j += 1;
            }
        }
        loop
            invariant
                t == old(cursor).tokens(),
                from == old(cursor).position(),
                cursor.tokens() == t,
                from <= cursor.position() <= to <= t.len(),
                to == from + line_len(t, from),
                forall|k: int| from <= k < to ==> !(#[trigger] t[k]).is_end(),
                to < t.len() ==> t[to].is_end(),
                !is_rule_line(t, from, to),
                spans_view(spans@) + segments(t, cursor.position(), to, self.style) == segments(
                    t,
                    from,
                    to,
                    self.style,
                ),
            decreases to - cursor.position(),
        {
            let ghost at = cursor.position();
            let ghost before = spans_view(spans@);
            let token = match cursor.peek() {
                None => {
                    assert(spans_view(spans@) =~= segments(t, from, to, self.style));
                    return spans;
                },
                Some(token) => token,
            };
            if token.is_end() {
                assert(spans_view(spans@) =~= segments(t, from, to, self.style));
                return spans;
            }
            cursor.advance();
            let span = self.token_span(token);
            match token {
                Token::Heading(_) => {
                    match cursor.peek() {
                        Some(Token::WhiteSpace) => {
                            cursor.advance();
                        },
                        _ => {},
                    }
                },
                _ => {},
            }
            proof {
                assert(spans_view(spans@.push(span)) =~= before.push(span@));
                assert(before.push(span@) + segments(t, cursor.position(), to, self.style)
                    =~= before + segments(t, at, to, self.style));
            }
            spans.push(span);
        }
    }

    /// Consumes the run of tokens that are the marker `marker`, and counts
    /// them.
    fn marker_run(&self, cursor: &mut TokenCursor<'_>, marker: &Token) -> (n: usize)
        requires
            is_marker(marker@),
        ensures
            final(cursor).tokens() == old(cursor).tokens(),
            final(cursor).position() == old(cursor).position() + n,
            forall|k: int|
                old(cursor).position() <= k < final(cursor).position() ==> #[trigger] old(
                    cursor,
                ).tokens()[k] == marker@,
            final(cursor).next() != Some(marker@),
    {
        let ghost t = cursor.tokens();
        let ghost from = cursor.position();
        let mut n: usize = 0;
        proof {
            cursor.lemma_position_bounds();
        }
        loop
            invariant
                t == old(cursor).tokens(),
                from == old(cursor).position(),
                0 <= from,
                cursor.tokens() == t,
                cursor.position() == from + n,
                is_marker(marker@),
                forall|k: int| from <= k < cursor.position() ==> #[trigger] t[k] == marker@,
            decreases t.len() - cursor.position(),
        {
            proof {
                cursor.lemma_position_bounds();
            }
            let again = match cursor.peek() {
                Some(token) => same_marker(marker, token),
                None => false,
            };
            if !again {
                return n;
            }
            cursor.advance();
            proof {
                cursor.lemma_position_bounds();
            }
            n += 1;
        }
    }
}

} // verus!
