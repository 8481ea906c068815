//! The byte scanner: one pass over the text, one token per lexical unit.
use vstd::prelude::*;
use vstd::string::StringExecFns;
use vstd::string::StringSliceAdditionalSpecFns;
use vstd::utf8::{encode_utf8, is_ascii_chars_encode_utf8};
use crate::ascii::{ascii_slice, ascii_text, is_ascii_bytes};
use crate::decimal::{decimal, push_decimal};
use crate::error::{Error, ErrorView};
use crate::parser::bytes::{
    ASTERISK, BACKSLASH, BACKTICK, CLOSING_PAREN, COLON, COMMA, DASH, DIGIT_0, DIGIT_9, DOT,
    DOUBLE_QUOTE, EQUAL, HASH, LEFT_ANGLE, LEFT_SQUARE, LOWER_A, LOWER_Z, NEWLINE, NUL,
    OPENING_PAREN, PLUS, RIGHT_ANGLE, RIGHT_SQUARE, SEMICOLON, SINGLE_QUOTE, SLASH, SPACE, TAB,
    UNDERSCORE, UPPER_A, UPPER_Z,
};

verus! {

/// One lexical unit.
#[allow(dead_code)]
#[derive(Debug, PartialEq, Eq, Clone)]
pub enum Token {
    /// A run of `#`, with its length.
    Heading(usize),
    /// A maximal run of word bytes, with its text.
    Indent(String),
    /// One space.
    WhiteSpace,
    /// One tab.
    Tab,
    /// The end of a line.
    EOL,
    /// The end of the input.
    EOF,
    /// `[`
    LeftSquare,
    /// `]`
    RightSquare,
    /// `)`
    LeftParen,
    /// `(`
    RightParen,
    /// `<`
    LeftAngle,
    /// `>`
    RightAngle,
    /// `.`
    Dot,
    /// `-`
    Dash,
    /// `=`
    Equal,
    /// `+`
    Plus,
    /// `*`
    Asterisk,
    /// `_`
    Undersocre,
    /// `` ` ``
    BackTick,
    /// `\`
    BackSlash,
    /// `/`
    Slash,
    /// `:`
    Colon,
    /// `;`
    SemiColon,
    /// A byte outside the recognized set.
    Illegal(u8),
}

/// A [`Token`] as a mathematical value: the depth of a heading as a natural
/// number, the text of a word as a character sequence.
pub ghost enum TokenView {
    Heading(nat),
    Indent(Seq<char>),
    WhiteSpace,
    Tab,
    EOL,
    EOF,
    LeftSquare,
    RightSquare,
    LeftParen,
    RightParen,
    LeftAngle,
    RightAngle,
    Dot,
    Dash,
    Equal,
    Plus,
    Asterisk,
    Undersocre,
    BackTick,
    BackSlash,
    Slash,
    Colon,
    SemiColon,
    Illegal(u8),
}

impl View for Token {
    type V = TokenView;

    open spec fn view(&self) -> TokenView {
        match self {
            Token::Heading(d) => TokenView::Heading(*d as nat),
            Token::Indent(s) => TokenView::Indent(s@),
            Token::WhiteSpace => TokenView::WhiteSpace,
            Token::Tab => TokenView::Tab,
            Token::EOL => TokenView::EOL,
            Token::EOF => TokenView::EOF,
            Token::LeftSquare => TokenView::LeftSquare,
            Token::RightSquare => TokenView::RightSquare,
            Token::LeftParen => TokenView::LeftParen,
            Token::RightParen => TokenView::RightParen,
            Token::LeftAngle => TokenView::LeftAngle,
            Token::RightAngle => TokenView::RightAngle,
            Token::Dot => TokenView::Dot,
            Token::Dash => TokenView::Dash,
            Token::Equal => TokenView::Equal,
            Token::Plus => TokenView::Plus,
            Token::Asterisk => TokenView::Asterisk,
            Token::Undersocre => TokenView::Undersocre,
            Token::BackTick => TokenView::BackTick,
            Token::BackSlash => TokenView::BackSlash,
            Token::Slash => TokenView::Slash,
            Token::Colon => TokenView::Colon,
            Token::SemiColon => TokenView::SemiColon,
            Token::Illegal(b) => TokenView::Illegal(*b),
        }
    }
}

/// The views of a sequence of tokens.
pub open spec fn tokens_view(tokens: Seq<Token>) -> Seq<TokenView> {
    tokens.map_values(|t: Token| t@)
}

impl TokenView {
    /// The token closes a line.
    pub open spec fn is_end(self) -> bool {
        self is EOF || self is EOL
    }

    /// The description of the token, as it is shown in messages.
    pub open spec fn describe(self) -> Seq<char> {
        "Token -> "@ + match self {
            TokenView::Heading(d) => "Heading: #"@ + decimal(d),
            TokenView::Indent(s) => "Indent: "@ + s + " "@,
            TokenView::Illegal(b) => "Illegal: "@ + decimal(b as nat) + " "@,
            TokenView::WhiteSpace => "WhiteSpace"@,
            TokenView::Tab => "Tab"@,
            TokenView::EOL => "EOL"@,
            TokenView::EOF => "EOF"@,
            TokenView::LeftSquare => "LeftSquare"@,
            TokenView::RightSquare => "RightSquare"@,
            TokenView::LeftParen => "LeftParen"@,
            TokenView::RightParen => "RightParen"@,
            TokenView::LeftAngle => "LeftAngle"@,
            TokenView::RightAngle => "RightAngle"@,
            TokenView::Dot => "Dot"@,
            TokenView::Dash => "Dash"@,
            TokenView::Equal => "Equal"@,
            TokenView::Plus => "Plus"@,
            TokenView::Asterisk => "Asterisk"@,
            TokenView::Undersocre => "Undersocre"@,
            TokenView::BackTick => "BackTick"@,
            TokenView::BackSlash => "BackSlash"@,
            TokenView::Colon => "Colon"@,
            TokenView::SemiColon => "SemiColon"@,
            TokenView::Slash => "Slash"@,
        }
    }
}

impl Token {
    /// Whether the token closes a line: the end of a line or of the input.
    pub fn is_end(&self) -> (r: bool)
        ensures
            r == self@.is_end(),
    {
        match self {
            Token::EOF => true,
            Token::EOL => true,
            _ => false,
        }
    }

    /// The description of the token, as it is shown in messages.
    pub fn to_string(&self) -> (r: String)
        ensures
            r@ == self@.describe(),
    {
        let mut r = String::from_str("Token -> ");
        match self {
            Token::Heading(d) => {
                r.append("Heading: #");
                push_decimal(&mut r, *d);
            },
            Token::Indent(s) => {
                r.append("Indent: ");
                r.append(s.as_str());
                r.append(" ");
            },
            Token::Illegal(b) => {
                r.append("Illegal: ");
                push_decimal(&mut r, *b as usize);
                r.append(" ");
            },
            Token::WhiteSpace => r.append("WhiteSpace"),
            Token::Tab => r.append("Tab"),
            Token::EOL => r.append("EOL"),
            Token::EOF => r.append("EOF"),
            Token::LeftSquare => r.append("LeftSquare"),
            Token::RightSquare => r.append("RightSquare"),
            Token::LeftParen => r.append("LeftParen"),
            Token::RightParen => r.append("RightParen"),
            Token::LeftAngle => r.append("LeftAngle"),
            Token::RightAngle => r.append("RightAngle"),
            Token::Dot => r.append("Dot"),
            Token::Dash => r.append("Dash"),
            Token::Equal => r.append("Equal"),
            Token::Plus => r.append("Plus"),
            Token::Asterisk => r.append("Asterisk"),
            Token::Undersocre => r.append("Undersocre"),
            Token::BackTick => r.append("BackTick"),
            Token::BackSlash => r.append("BackSlash"),
            Token::Colon => r.append("Colon"),
            Token::SemiColon => r.append("SemiColon"),
            Token::Slash => r.append("Slash"),
        }
        assert(r@ =~= self@.describe());
        r
    }
}

impl Default for Token {
    fn default() -> (r: Token)
        ensures
            r == Token::EOF,
    {
        Token::EOF
    }
}

/// The word class: ASCII letters, digits, comma and the two quotes.
pub open spec fn is_word_byte(b: u8) -> bool {
    ||| LOWER_A <= b <= LOWER_Z
    ||| UPPER_A <= b <= UPPER_Z
    ||| DIGIT_0 <= b <= DIGIT_9
    ||| b == COMMA
    ||| b == DOUBLE_QUOTE
    ||| b == SINGLE_QUOTE
}

/// The token of a byte that is a lexical unit by itself; `Illegal` for every
/// byte that is none.
pub open spec fn single_token(b: u8) -> TokenView {
    if b == SPACE {
        TokenView::WhiteSpace
    } else if b == LEFT_SQUARE {
        TokenView::LeftSquare
    } else if b == RIGHT_SQUARE {
        TokenView::RightSquare
    } else if b == CLOSING_PAREN {
        TokenView::LeftParen
    } else if b == OPENING_PAREN {
        TokenView::RightParen
    } else if b == LEFT_ANGLE {
        TokenView::LeftAngle
    } else if b == RIGHT_ANGLE {
        TokenView::RightAngle
    } else if b == DASH {
        TokenView::Dash
    } else if b == PLUS {
        TokenView::Plus
    } else if b == EQUAL {
        TokenView::Equal
    } else if b == NUL {
        TokenView::EOF
    } else if b == NEWLINE {
        TokenView::EOL
    } else if b == DOT {
        TokenView::Dot
    } else if b == UNDERSCORE {
        TokenView::Undersocre
    } else if b == BACKTICK {
        TokenView::BackTick
    } else if b == BACKSLASH {
        TokenView::BackSlash
    } else if b == ASTERISK {
        TokenView::Asterisk
    } else if b == COLON {
        TokenView::Colon
    } else if b == SEMICOLON {
        TokenView::SemiColon
    } else if b == SLASH {
        TokenView::Slash
    } else {
        TokenView::Illegal(b)
    }
}

/// The recognized set: `#`, the word class, and the bytes that are a token
/// by themselves.
pub open spec fn is_legal(b: u8) -> bool {
    b == HASH || is_word_byte(b) || !(single_token(b) is Illegal)
}

/// Every byte of `s` is in the recognized set.
pub open spec fn all_legal(s: Seq<u8>) -> bool {
    forall|i: int| 0 <= i < s.len() ==> is_legal(#[trigger] s[i])
}

/// The place of the first byte at or after `i` that is outside the
/// recognized set; the length of `s` if there is none.
pub open spec fn first_illegal(s: Seq<u8>, i: int) -> int
    decreases s.len() - i,
{
    if i < 0 || i >= s.len() {
        s.len() as int
    } else if !is_legal(s[i]) {
        i
    } else {
        first_illegal(s, i + 1)
    }
}

/// Whether `b` continues a run: of word bytes if `word`, of `#` otherwise.
pub open spec fn in_run(b: u8, word: bool) -> bool {
    if word {
        is_word_byte(b)
    } else {
        b == HASH
    }
}

/// The length of the maximal run that starts at `i`.
pub open spec fn run_len(s: Seq<u8>, i: int, word: bool) -> nat
    decreases s.len() - i,
{
    if 0 <= i < s.len() && in_run(s[i], word) {
        1 + run_len(s, i + 1, word)
    } else {
        0
    }
}

/// The token that starts at byte `i` of `s`.
pub open spec fn token_at(s: Seq<u8>, i: int) -> TokenView {
    if s[i] == HASH {
        TokenView::Heading(run_len(s, i, false))
    } else if is_word_byte(s[i]) {
        TokenView::Indent(ascii_text(s.subrange(i, i + run_len(s, i, true))))
    } else {
        single_token(s[i])
    }
}

/// The number of bytes that the token at `i` takes.
pub open spec fn token_width(s: Seq<u8>, i: int) -> nat {
    if s[i] == HASH {
        1 + run_len(s, i + 1, false)
    } else if is_word_byte(s[i]) {
        1 + run_len(s, i + 1, true)
    } else {
        1
    }
}

/// The tokens of `s` from byte `i` on.
pub open spec fn scan(s: Seq<u8>, i: int) -> Seq<TokenView>
    decreases
            (if i < s.len() {
                s.len() - i
            } else {
                0
            }),
{
    if i < 0 || i >= s.len() {
        seq![]
    } else {
        seq![token_at(s, i)] + scan(s, i + token_width(s, i))
    }
}

/// The bytes that a token stands for.
pub open spec fn token_bytes(t: TokenView) -> Seq<u8> {
    match t {
        TokenView::Heading(d) => Seq::new(d, |i: int| HASH),
        TokenView::Indent(text) => Seq::new(text.len(), |i: int| text[i] as u8),
        TokenView::WhiteSpace => seq![SPACE],
        TokenView::Tab => seq![TAB],
        TokenView::EOL => seq![NEWLINE],
        TokenView::EOF => seq![NUL],
        TokenView::LeftSquare => seq![LEFT_SQUARE],
        TokenView::RightSquare => seq![RIGHT_SQUARE],
        TokenView::LeftParen => seq![CLOSING_PAREN],
        TokenView::RightParen => seq![OPENING_PAREN],
        TokenView::LeftAngle => seq![LEFT_ANGLE],
        TokenView::RightAngle => seq![RIGHT_ANGLE],
        TokenView::Dot => seq![DOT],
        TokenView::Dash => seq![DASH],
        TokenView::Equal => seq![EQUAL],
        TokenView::Plus => seq![PLUS],
        TokenView::Asterisk => seq![ASTERISK],
        TokenView::Undersocre => seq![UNDERSCORE],
        TokenView::BackTick => seq![BACKTICK],
        TokenView::BackSlash => seq![BACKSLASH],
        TokenView::Slash => seq![SLASH],
        TokenView::Colon => seq![COLON],
        TokenView::SemiColon => seq![SEMICOLON],
        TokenView::Illegal(b) => seq![b],
    }
}

/// The bytes that a token sequence stands for: those of its tokens, one
/// after the other.
pub open spec fn tokens_bytes(t: Seq<TokenView>) -> Seq<u8>
    decreases t.len(),
{
    if t.len() == 0 {
        seq![]
    } else {
        token_bytes(t[0]) + tokens_bytes(t.drop_first())
    }
}

/// What lexing the bytes `s` gives: the tokens of `s` behind the
/// end-of-line token that opens every sequence, or, if a byte of `s` is
/// outside the recognized set, the failure that describes the first such
/// byte.
pub open spec fn lex(s: Seq<u8>) -> Result<Seq<TokenView>, ErrorView> {
    if all_legal(s) {
        Ok(seq![TokenView::EOL] + scan(s, 0))
    } else {
        Err(ErrorView::LexerErr(TokenView::Illegal(s[first_illegal(s, 0)]).describe()))
    }
}

/// What a call of the lexer handed out, as a mathematical value.
pub open spec fn lexed(r: Result<Vec<Token>, Error>) -> Result<Seq<TokenView>, ErrorView> {
    match r {
        Ok(tokens) => Ok(tokens_view(tokens@)),
        Err(e) => Err(e@),
    }
}

/// The byte at `i`, and the end-of-buffer sentinel past the end.
pub open spec fn byte_at(s: Seq<u8>, i: int) -> u8 {
    if 0 <= i < s.len() {
        s[i]
    } else {
        NUL
    }
}

/// A run that is closed by the end of `s` or by a byte outside the class
/// has the length of the stretch that was walked.
pub proof fn lemma_run_len(s: Seq<u8>, i: int, j: int, word: bool)
    requires
        0 <= i <= j <= s.len(),
        forall|k: int| i <= k < j ==> in_run(#[trigger] s[k], word),
        j == s.len() || !in_run(s[j], word),
    ensures
        run_len(s, i, word) == j - i,
    decreases j - i,
{
    if i < j {
        assert(in_run(s[i], word));
        lemma_run_len(s, i + 1, j, word);
    }
}

/// A run that a byte outside the class closes at `to`, or before it, is the
/// run of the stretch from `from` to `to` by itself.
pub proof fn lemma_run_agrees(s: Seq<u8>, from: int, to: int, i: int, word: bool)
    requires
        0 <= from <= i <= to <= s.len(),
        to < s.len() ==> !in_run(s[to], word),
    ensures
        run_len(s.subrange(from, to), i - from, word) == run_len(s, i, word),
        i + run_len(s, i, word) <= to,
    decreases to - i,
{
    let piece = s.subrange(from, to);
    if i < to {
        assert(piece[i - from] == s[i]);
        if in_run(s[i], word) {
            lemma_run_agrees(s, from, to, i + 1, word);
        }
    }
}

/// Behind a stretch of recognized bytes, the first unrecognized byte is the
/// first of all.
pub proof fn lemma_first_illegal(s: Seq<u8>, i: int, p: int)
    requires
        0 <= i <= p <= s.len(),
        forall|k: int| i <= k < p ==> is_legal(#[trigger] s[k]),
        p < s.len() ==> !is_legal(s[p]),
    ensures
        first_illegal(s, i) == p,
    decreases p - i,
{
    if i < p {
        assert(is_legal(s[i]));
        lemma_first_illegal(s, i + 1, p);
    }
}

/// Whether `b` is in the word class.
fn is_indent_char(b: u8) -> (r: bool)
    ensures
        r == is_word_byte(b),
{
    (LOWER_A <= b && b <= LOWER_Z) || (UPPER_A <= b && b <= UPPER_Z) || (DIGIT_0 <= b && b
        <= DIGIT_9) || b == COMMA || b == DOUBLE_QUOTE || b == SINGLE_QUOTE
}

/// The bytes of a buffer without the sentinel behind them, where one stands
/// there.
pub open spec fn without_sentinel(buffer: Seq<u8>) -> Seq<u8> {
    if buffer.len() > 0 && buffer.last() == NUL {
        buffer.drop_last()
    } else {
        buffer
    }
}

/// The bytes of one text behind those of another are the bytes of the two
/// texts behind one another.
proof fn lemma_encode_joined(a: Seq<char>, b: Seq<char>)
    ensures
        encode_utf8(a + b) == encode_utf8(a) + encode_utf8(b),
    decreases a.len(),
{
    if a.len() == 0 {
        assert(a + b =~= b);
        assert(encode_utf8(a) + encode_utf8(b) =~= encode_utf8(b));
    } else {
        assert((a + b).drop_first() =~= a.drop_first() + b);
        lemma_encode_joined(a.drop_first(), b);
        assert(encode_utf8(a + b) =~= encode_utf8(a) + encode_utf8(b));
    }
}

/// The scanner: the text, a cursor on its current byte, that byte, and the
/// read position one ahead of the cursor.
///
/// While a text is scanned it is held with the sentinel behind it, so that
/// the read position can stand behind the last byte of every text.
#[allow(dead_code)]
#[derive(Debug)]
pub struct Lexer {
    position: usize,
    read_position: usize,
    ch: u8,
    input: String,
}

#[allow(dead_code)]
impl Lexer {
    /// The bytes that the scanner holds.
    spec fn buffer(&self) -> Seq<u8> {
        encode_utf8(self.input@)
    }

    /// The bytes of the text that the scanner holds.
    pub closed spec fn source(&self) -> Seq<u8> {
        without_sentinel(self.buffer())
    }

    /// The place of the current byte.
    pub closed spec fn cursor(&self) -> int {
        self.position as int
    }

    /// The place of the byte that is read next.
    pub closed spec fn read_ahead(&self) -> int {
        self.read_position as int
    }

    /// The current byte.
    pub closed spec fn current(&self) -> u8 {
        self.ch
    }

    /// The current byte is the byte under the cursor, and the read position
    /// is one ahead of the cursor.
    spec fn primed(&self) -> bool {
        &&& self.read_position == self.position + 1
        &&& self.ch == byte_at(self.source(), self.position as int)
    }

    /// A scanner that holds no text: cursor and read position at the start,
    /// the current byte the sentinel.
    pub fn new() -> (r: Lexer)
        ensures
            r.source() == Seq::<u8>::empty(),
            r.cursor() == 0,
            r.read_ahead() == 0,
            r.current() == NUL,
    {
        return Lexer { position: 0, read_position: 0, ch: NUL, input: String::new() };
    }

    /// Scans `input` from its first byte to its last.
    ///
    /// The tokens come behind an end-of-line token, so that the first line
    /// follows a line boundary as every other line does. A byte outside the
    /// recognized set stops the scan: no token is handed out then, and the
    /// failure describes the byte. The cursor is left behind the last byte,
    /// or on the byte that stopped the scan; the current byte is the byte
    /// under it, and the read position is one ahead.
    pub fn parse(&mut self, input: &str) -> (r: Result<Vec<Token>, Error>)
        ensures
            final(self).source() == input.spec_bytes(),
            final(self).cursor() == first_illegal(input.spec_bytes(), 0),
            final(self).read_ahead() == final(self).cursor() + 1,
            final(self).current() == byte_at(input.spec_bytes(), final(self).cursor()),
            lexed(r) == lex(input.spec_bytes()),
    {
        let ghost s = input.spec_bytes();
        let mut held = String::from_str(input);
        held.append("\0");
        proof {
            reveal_strlit("\0");
            lemma_encode_joined(input@, "\0"@);
            is_ascii_chars_encode_utf8("\0"@);
            assert(encode_utf8("\0"@) =~= seq![NUL]);
            assert(encode_utf8(held@) =~= s.push(NUL));
            assert(s.push(NUL).drop_last() =~= s);
        }
        self.input = held;
        self.position = 0;
        self.read_position = 0;
        self.ch = NUL;
        let end: usize = self.input.as_str().as_bytes().len() - 1;
        self.read_char();
        let mut tokens: Vec<Token> = Vec::new();
        tokens.push(Token::EOL);
        assert(tokens_view(tokens@) =~= seq![TokenView::EOL]);
        while self.position < end
            invariant
                s == input.spec_bytes(),
                self.source() == s,
                end == s.len(),
                end < usize::MAX,
                self.primed(),
                self.position <= s.len(),
                forall|k: int| 0 <= k < self.position ==> is_legal(#[trigger] s[k]),
                tokens_view(tokens@) + scan(s, self.position as int) == seq![TokenView::EOL]
                    + scan(s, 0),
            decreases s.len() - self.position,
        {
            let ghost p = self.position as int;
            match self.next_token() {
                Ok(t) => {
                    proof {
                        lemma_token_legal(s, p);
                        assert(tokens_view(tokens@.push(t)) =~= tokens_view(tokens@).push(t@));
                        assert(tokens_view(tokens@).push(t@) + scan(s, self.position as int)
                            =~= tokens_view(tokens@) + scan(s, p));
                    }
                    tokens.push(t);
                },
                Err(e) => {
                    proof {
                        lemma_first_illegal(s, 0, p);
                    }
                    return Err(e);
                },
            }
        }
        proof {
            lemma_first_illegal(s, 0, s.len() as int);
            assert(tokens_view(tokens@) =~= seq![TokenView::EOL] + scan(s, 0));
        }
        Ok(tokens)
    }

    /// Hands out the token under the cursor and moves the cursor behind it;
    /// fails, without moving, on a byte outside the recognized set.
    fn next_token(&mut self) -> (r: Result<Token, Error>)
        requires
            old(self).primed(),
            old(self).position < old(self).source().len() < usize::MAX,
        ensures
            final(self).input == old(self).input,
            match r {
                Ok(t) => {
                    &&& is_legal(old(self).ch)
                    &&& t@ == token_at(old(self).source(), old(self).position as int)
                    &&& final(self).primed()
                    &&& final(self).position == old(self).position + token_width(
                        old(self).source(),
                        old(self).position as int,
                    )
                    &&& final(self).position <= old(self).source().len()
                    &&& final(self).read_position > old(self).read_position
                },
                Err(e) => {
                    &&& !is_legal(old(self).ch)
                    &&& e@ == ErrorView::LexerErr(TokenView::Illegal(old(self).ch).describe())
                    &&& *final(self) == *old(self)
                },
            },
    {
        let tk = match self.ch {
            SPACE => Token::WhiteSpace,
            LEFT_SQUARE => Token::LeftSquare,
            RIGHT_SQUARE => Token::RightSquare,
            CLOSING_PAREN => Token::LeftParen,
            OPENING_PAREN => Token::RightParen,
            LEFT_ANGLE => Token::LeftAngle,
            RIGHT_ANGLE => Token::RightAngle,
            DASH => Token::Dash,
            PLUS => Token::Plus,
            EQUAL => Token::Equal,
            HASH => return Ok(self.read_heading()),
            ch if is_indent_char(ch) => return Ok(self.read_indent()),
            NUL => Token::EOF,
            NEWLINE => Token::EOL,
            DOT => Token::Dot,
            UNDERSCORE => Token::Undersocre,
            BACKTICK => Token::BackTick,
            BACKSLASH => Token::BackSlash,
            ASTERISK => Token::Asterisk,
            COLON => Token::Colon,
            SEMICOLON => Token::SemiColon,
            SLASH => Token::Slash,
            _ => Token::Illegal(self.ch),
        };

        match tk {
            Token::Illegal(_) => return Err(Error::LexerErr(tk.to_string())),
            _ => (),
        }

        self.read_char();
        Ok(tk)
    }

    /// Moves the cursor to the read position, takes the byte there, the
    /// sentinel past the end, and moves the read position one further.
    fn read_char(&mut self)
        requires
            old(self).read_position < usize::MAX,
        ensures
            final(self).input == old(self).input,
            final(self).position == old(self).read_position,
            final(self).read_position == old(self).read_position + 1,
            final(self).ch == byte_at(old(self).source(), old(self).read_position as int),
    {
        let bytes = self.input.as_str().as_bytes();
        if self.read_position >= bytes.len() {
            self.ch = NUL;
        } else {
            self.ch = bytes[self.read_position]
        }
        self.position = self.read_position;
        self.read_position += 1;
    }

    /// The byte at the read position, without moving; the sentinel past the
    /// end.
    fn peek(&self) -> (r: u8)
        ensures
            r == byte_at(self.source(), self.read_position as int),
    {
        let bytes = self.input.as_str().as_bytes();
        if self.read_position >= bytes.len() {
            return NUL;
        } else {
            bytes[self.read_position]
        }
    }

    /// Takes the maximal run of word bytes under the cursor.
    fn read_indent(&mut self) -> (t: Token)
        requires
            old(self).primed(),
            old(self).position < old(self).source().len() < usize::MAX,
            is_word_byte(old(self).ch),
        ensures
            final(self).input == old(self).input,
            final(self).primed(),
            final(self).position == old(self).position + run_len(
                old(self).source(),
                old(self).position as int,
                true,
            ),
            final(self).position <= old(self).source().len(),
            t@ == TokenView::Indent(
                ascii_text(
                    old(self).source().subrange(
                        old(self).position as int,
                        final(self).position as int,
                    ),
                ),
            ),
    {
        let pos = self.position;
        let ghost s = self.source();
        while is_indent_char(self.ch)
            invariant
                self.input == old(self).input,
                self.primed(),
                pos <= self.position <= s.len() < usize::MAX,
                s == self.source(),
                forall|k: int| pos <= k < self.position ==> is_word_byte(#[trigger] s[k]),
            decreases s.len() - self.position,
        {
            self.read_char()
        }
        proof {
            lemma_run_len(s, pos as int, self.position as int, true);
            assert(self.buffer().subrange(pos as int, self.position as int) =~= s.subrange(
                pos as int,
                self.position as int,
            ));
            assert(is_ascii_bytes(s.subrange(pos as int, self.position as int)));
        }
        return Token::Indent(String::from_str(ascii_slice(self.input.as_str(), pos, self.position)));
    }

    /// Takes the maximal run of `#` under the cursor.
    fn read_heading(&mut self) -> (t: Token)
        requires
            old(self).primed(),
            old(self).position < old(self).source().len() < usize::MAX,
            old(self).ch == HASH,
        ensures
            final(self).input == old(self).input,
            final(self).primed(),
            final(self).position == old(self).position + run_len(
                old(self).source(),
                old(self).position as int,
                false,
            ),
            final(self).position <= old(self).source().len(),
            t@ == TokenView::Heading(run_len(old(self).source(), old(self).position as int, false)),
    {
        let pos = self.position;
        let ghost s = self.source();
        while self.ch == HASH
            invariant
                self.input == old(self).input,
                self.primed(),
                pos <= self.position <= s.len() < usize::MAX,
                s == self.source(),
                forall|k: int| pos <= k < self.position ==> #[trigger] s[k] == HASH,
            decreases s.len() - self.position,
        {
            self.read_char()
        }
        proof {
            lemma_run_len(s, pos as int, self.position as int, false);
        }
        Token::Heading(self.position - pos)
    }
}

/// No token of a text is `Illegal` unless a byte of the text is outside the
/// recognized set.
pub proof fn lemma_scan_legal(s: Seq<u8>, i: int)
    requires
        all_legal(s),
    ensures
        forall|k: int| 0 <= k < scan(s, i).len() ==> !(#[trigger] scan(s, i)[k] is Illegal),
    decreases
            (if i < s.len() {
                s.len() - i
            } else {
                0
            }),
{
    if 0 <= i < s.len() {
        assert(is_legal(s[i]));
        lemma_scan_legal(s, i + token_width(s, i));
    }
}

/// Exactness of heading depth. The token that starts at a `#` is a heading
/// marker, and its depth is the length of the run of `#`: one at least and
/// without a cap, every byte of the run a `#`, and none behind it.
pub proof fn lemma_heading_token(s: Seq<u8>, i: int)
    requires
        0 <= i < s.len(),
        s[i] == HASH,
    ensures
        token_at(s, i) == TokenView::Heading(token_width(s, i)),
        token_width(s, i) >= 1,
        i + token_width(s, i) <= s.len(),
        forall|k: int| i <= k < i + token_width(s, i) ==> #[trigger] s[k] == HASH,
        i + token_width(s, i) < s.len() ==> s[i + token_width(s, i)] != HASH,
{
    lemma_run_members(s, i + 1, false);
    assert forall|k: int| i <= k < i + token_width(s, i) implies #[trigger] s[k] == HASH by {
        if k > i {
            assert(in_run(s[k], false));
        }
    }
}

/// Maximality of word runs. The token that starts at a byte of the word
/// class is a word, and its text is the run of word bytes: one byte at
/// least, every byte of the run in the class, and none behind it, so that
/// the run never crosses a byte outside the class.
pub proof fn lemma_word_token(s: Seq<u8>, i: int)
    requires
        0 <= i < s.len(),
        is_word_byte(s[i]),
    ensures
        token_at(s, i) == TokenView::Indent(ascii_text(s.subrange(i, i + token_width(s, i)))),
        token_width(s, i) >= 1,
        i + token_width(s, i) <= s.len(),
        forall|k: int| i <= k < i + token_width(s, i) ==> is_word_byte(#[trigger] s[k]),
        i + token_width(s, i) < s.len() ==> !is_word_byte(s[i + token_width(s, i)]),
{
    lemma_run_members(s, i + 1, true);
    assert forall|k: int| i <= k < i + token_width(s, i) implies is_word_byte(#[trigger] s[k]) by {
        if k > i {
            assert(in_run(s[k], true));
        }
    }
}

/// The tokens of a text stand for its bytes, each byte once and in its
/// place.
pub proof fn lemma_scan_covers(s: Seq<u8>, i: int)
    requires
        0 <= i <= s.len(),
    ensures
        tokens_bytes(scan(s, i)) == s.subrange(i, s.len() as int),
    decreases s.len() - i,
{
    if i < s.len() {
        let w = token_width(s, i) as int;
        let head = token_at(s, i);
        let rest = scan(s, i + w);
        if s[i] == HASH {
            lemma_run_members(s, i + 1, false);
        } else if is_word_byte(s[i]) {
            lemma_run_members(s, i + 1, true);
        }
        lemma_scan_covers(s, i + w);
        assert(token_bytes(head) =~= s.subrange(i, i + w)) by {
            if s[i] == HASH {
                assert forall|k: int| i <= k < i + w implies s[k] == HASH by {
                    if k > i {
                        assert(in_run(s[k], false));
                    }
                }
            } else if is_word_byte(s[i]) {
                let text = ascii_text(s.subrange(i, i + w));
                assert forall|k: int| 0 <= k < w implies text[k] as u8 == s[i + k] by {
                    assert(text[k] == s.subrange(i, i + w)[k] as char);
                }
            }
        }
        assert((seq![head] + rest).drop_first() =~= rest);
        assert(s.subrange(i, i + w) + s.subrange(i + w, s.len() as int) =~= s.subrange(
            i,
            s.len() as int,
        ));
    } else {
        assert(s.subrange(i, s.len() as int) =~= seq![]);
    }
}

/// Every byte is accounted for: the tokens that lexing hands out stand for
/// the text behind one newline, byte for byte.
pub proof fn lemma_lex_covers(s: Seq<u8>)
    requires
        all_legal(s),
    ensures
        lex(s) is Ok,
        tokens_bytes(lex(s)->Ok_0) == seq![NEWLINE] + s,
{
    lemma_scan_covers(s, 0);
    let t = seq![TokenView::EOL] + scan(s, 0);
    assert(t.drop_first() =~= scan(s, 0));
    assert(s.subrange(0, s.len() as int) =~= s);
}

/// Totality over the recognized set: where every byte of the text is in
/// the set, lexing succeeds and hands out no `Illegal` token.
pub proof fn lemma_lex_total(s: Seq<u8>)
    requires
        all_legal(s),
    ensures
        lex(s) is Ok,
        forall|k: int| 0 <= k < lex(s)->Ok_0.len() ==> !(#[trigger] lex(s)->Ok_0[k] is Illegal),
{
    lemma_scan_legal(s, 0);
}

/// A byte outside the recognized set, wherever it stands, makes lexing
/// fail: the failure is that of the lexer, and it describes the first such
/// byte of the text.
pub proof fn lemma_lex_rejects(s: Seq<u8>, i: int)
    requires
        0 <= i < s.len(),
        !is_legal(s[i]),
    ensures
        lex(s) is Err,
        lex(s)->Err_0 is LexerErr,
        0 <= first_illegal(s, 0) <= i,
        !is_legal(s[first_illegal(s, 0)]),
{
    lemma_first_illegal_found(s, 0, i);
}

/// Where a byte at or behind `from` is outside the recognized set, the
/// first such byte is found at or before it.
pub proof fn lemma_first_illegal_found(s: Seq<u8>, from: int, i: int)
    requires
        0 <= from <= i < s.len(),
        !is_legal(s[i]),
    ensures
        from <= first_illegal(s, from) <= i,
        !is_legal(s[first_illegal(s, from)]),
    decreases i - from,
{
    if is_legal(s[from]) {
        lemma_first_illegal_found(s, from + 1, i);
    }
}

/// The bytes of a token that is no `Illegal` are in the recognized set.
proof fn lemma_token_legal(s: Seq<u8>, i: int)
    requires
        0 <= i < s.len(),
        is_legal(s[i]),
    ensures
        forall|k: int| i <= k < i + token_width(s, i) ==> is_legal(#[trigger] s[k]),
        i + token_width(s, i) <= s.len(),
{
    if s[i] == HASH {
        lemma_run_members(s, i + 1, false);
    } else if is_word_byte(s[i]) {
        lemma_run_members(s, i + 1, true);
    }
}

/// A run lies inside `s`, and each of its bytes is in the class.
pub proof fn lemma_run_members(s: Seq<u8>, i: int, word: bool)
    requires
        0 <= i <= s.len(),
    ensures
        i + run_len(s, i, word) <= s.len(),
        forall|k: int| i <= k < i + run_len(s, i, word) ==> in_run(#[trigger] s[k], word),
        i + run_len(s, i, word) < s.len() ==> !in_run(s[i + run_len(s, i, word)], word),
    decreases s.len() - i,
{
    if i < s.len() && in_run(s[i], word) {
        lemma_run_members(s, i + 1, word);
    }
}

} // verus!
