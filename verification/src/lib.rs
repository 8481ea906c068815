//! Markdown-like text to styled terminal lines.
//!
//! The input is scanned byte by byte into tokens ([`parser::lexer`]), and the
//! tokens are mapped to lines of styled spans ([`parser::parser`]) with the
//! styles of a table ([`style::style::MdStyle`]).
//!
//! [`MarkdownParsable`] is the short way: it is implemented for `str` and
//! `String`, and `parse_markdown` turns the text into a [`text::Text`]. A
//! text that cannot be lexed gives the one line that says so.
//!
//! ```text
//! let md = "# TODO\n\n- one\n- two\n";
//! let res = md.parse_markdown(None);
//! ```
pub mod ascii;
pub mod decimal;
pub mod error;
pub mod parser;
pub mod style;
pub mod text;

use vstd::prelude::*;
use vstd::string::StringExecFns;
use vstd::utf8::encode_utf8;
use crate::decimal::{decimal, lemma_decimal_digits};
use crate::error::Error;
use crate::parser::lexer::{all_legal, first_illegal, TokenView};
use crate::parser::parser::{parse_bytes, Parser};
use crate::style::style::{table_or_fixed, MdStyle};
use crate::style::visual::Style;
use crate::text::{SpanView, Text};

verus! {

/// The text that is shown for `source`: its lines in the styles of `table`,
/// or, where it cannot be lexed, one line that holds the failure's message
/// unstyled.
pub open spec fn markdown_text(source: Seq<char>, table: MdStyle) -> Seq<Seq<SpanView>> {
    match parse_bytes(encode_utf8(source), table) {
        Ok(lines) => lines,
        Err(e) => seq![seq![SpanView { content: e.message(), style: Style::plain() }]],
    }
}

/// Turns `input` into styled text. Never fails: a failure of the parser
/// becomes the text.
pub fn parse_markdown(input: &str, style: Option<MdStyle>) -> (r: Result<Text, Error>)
    ensures
        r is Ok,
        r->Ok_0@ == markdown_text(input@, table_or_fixed(style)),
{
    let parser = Parser::new(String::from_str(input), style);
    let res = parser.parse();
    match res {
        Err(err) => Ok(Text::single(err.to_string())),
        Ok(res) => Ok(Text::new(res)),
    }
}

/// What can be parsed as markdown and shown as styled text.
pub trait MarkdownParsable {
    /// The markdown source that the value holds.
    spec fn markdown_source(&self) -> Seq<char>;

    /// Turns the value into styled text.
    fn parse_markdown(&self, style: Option<MdStyle>) -> (r: Result<Text, Error>)
        ensures
            r is Ok,
            r->Ok_0@ == markdown_text(self.markdown_source(), table_or_fixed(style)),
    ;
}

impl MarkdownParsable for str {
    open spec fn markdown_source(&self) -> Seq<char> {
        self@
    }

    fn parse_markdown(&self, style: Option<MdStyle>) -> (r: Result<Text, Error>) {
        self::parse_markdown(self, style)
    }
}

impl MarkdownParsable for String {
    open spec fn markdown_source(&self) -> Seq<char> {
        self@
    }

    fn parse_markdown(&self, style: Option<MdStyle>) -> (r: Result<Text, Error>) {
        self::parse_markdown(self.as_str(), style)
    }
}

/// The text holds no newline.
pub open spec fn is_one_line(text: Seq<char>) -> bool {
    forall|i: int| 0 <= i < text.len() ==> #[trigger] text[i] != '\n'
}

/// Texts without a newline, put together, hold none.
proof fn lemma_one_line_joined(a: Seq<char>, b: Seq<char>)
    requires
        is_one_line(a),
        is_one_line(b),
    ensures
        is_one_line(a + b),
{
    assert forall|i: int| 0 <= i < (a + b).len() implies #[trigger] (a + b)[i] != '\n' by {
        if i < a.len() {
            assert((a + b)[i] == a[i]);
        } else {
            assert((a + b)[i] == b[i - a.len()]);
        }
    }
}

/// The message of a failure of the lexer holds no newline: the text that
/// shows it is one line, however a display breaks texts into lines.
pub proof fn lemma_failure_is_one_line(s: Seq<u8>, table: MdStyle)
    requires
        !all_legal(s),
    ensures
        parse_bytes(s, table) is Err,
        is_one_line(parse_bytes(s, table)->Err_0.message()),
{
    let b = s[first_illegal(s, 0)];
    reveal_strlit("md-to-tui error:  ");
    reveal_strlit("Parser Err ");
    reveal_strlit("Token -> ");
    reveal_strlit("Illegal: ");
    reveal_strlit(" ");
    lemma_decimal_digits(b as nat);
    assert(is_one_line(decimal(b as nat)));
    lemma_one_line_joined("Illegal: "@, decimal(b as nat));
    lemma_one_line_joined("Illegal: "@ + decimal(b as nat), " "@);
    lemma_one_line_joined("Token -> "@, "Illegal: "@ + decimal(b as nat) + " "@);
    let description = TokenView::Illegal(b).describe();
    lemma_one_line_joined("Parser Err "@, description);
    lemma_one_line_joined("md-to-tui error:  "@, "Parser Err "@ + description);
}

} // verus!
