//! The failures of lexing and parsing.
use vstd::prelude::*;
use vstd::string::StringExecFns;

verus! {

/// Why a text could not be turned into lines.
#[derive(Debug, PartialEq, Clone)]
pub enum Error {
    /// No particular failure.
    DefErr,
    /// The token sequence could not be parsed.
    ParserErr(String),
    /// A byte outside the recognized set was met; holds the description of
    /// the illegal token.
    LexerErr(String),
}

/// An [`Error`] with its texts as character sequences.
pub ghost enum ErrorView {
    DefErr,
    ParserErr(Seq<char>),
    LexerErr(Seq<char>),
}

impl View for Error {
    type V = ErrorView;

    open spec fn view(&self) -> ErrorView {
        match self {
            Error::DefErr => ErrorView::DefErr,
            Error::ParserErr(s) => ErrorView::ParserErr(s@),
            Error::LexerErr(s) => ErrorView::LexerErr(s@),
        }
    }
}

impl ErrorView {
    /// The line shown to the user for this failure.
    pub open spec fn message(self) -> Seq<char> {
        "md-to-tui error:  "@ + match self {
            ErrorView::DefErr => "Deafult error"@,
            ErrorView::ParserErr(s) => "Parser Err "@ + s,
            ErrorView::LexerErr(s) => "Parser Err "@ + s,
        }
    }
}

impl Error {
    /// The line shown to the user for this failure.
    pub fn to_string(&self) -> (r: String)
        ensures
            r@ == self@.message(),
    {
        let mut r = String::from_str("md-to-tui error:  ");
        match self {
            Error::DefErr => {
                r.append("Deafult error");
            },
            Error::ParserErr(s) => {
                r.append("Parser Err ");
                r.append(s.as_str());
                assert(r@ =~= self@.message());
            },
            Error::LexerErr(s) => {
                r.append("Parser Err ");
                r.append(s.as_str());
                assert(r@ =~= self@.message());
            },
        }
        r
    }
}

impl Default for Error {
    fn default() -> (r: Error)
        ensures
            r == Error::DefErr,
    {
        Error::DefErr
    }
}

} // verus!
