//! What holds of lexing and parsing every text.
use vstd::prelude::*;
use crate::error::{Error, ErrorView};
use crate::ascii::ascii_text;
use crate::parser::bytes::{HASH, NEWLINE, NUL, SPACE};
use crate::parser::lexer::{
    all_legal, in_run, is_legal, is_word_byte, lemma_lex_rejects, lemma_run_agrees,
    lemma_run_members, scan, single_token, token_at, token_width, TokenView,
};
use crate::parser::lines::{lemma_until_newline, split_from, split_lines, until_newline};
use crate::parser::parser::{
    first_line, is_marker, is_rule_line, lemma_line_len, line_len, lines_from, parse_bytes, parsed,
    render, render_line, rule_span, segments, token_span, token_text, Parser,
};
use crate::style::style::MdStyle;
use crate::text::{repeat, Line, SpanView};

verus! {

/// The number of bytes from `i` on that are `b`.
pub open spec fn count_from(s: Seq<u8>, i: int, b: u8) -> nat
    decreases s.len() - i,
{
    if i < 0 || i >= s.len() {
        0
    } else if s[i] == b {
        1 + count_from(s, i + 1, b)
    } else {
        count_from(s, i + 1, b)
    }
}

/// The number of bytes of `s` that are `b`.
pub open spec fn count_byte(s: Seq<u8>, b: u8) -> nat {
    count_from(s, 0, b)
}

/// The number of tokens from `i` on that close a line.
pub open spec fn ends_from(t: Seq<TokenView>, i: int) -> nat
    decreases t.len() - i,
{
    if i < 0 || i >= t.len() {
        0
    } else if t[i].is_end() {
        1 + ends_from(t, i + 1)
    } else {
        ends_from(t, i + 1)
    }
}

/// Bytes other than `b` add nothing to the count of `b`.
proof fn lemma_count_skip(s: Seq<u8>, i: int, j: int, b: u8)
    requires
        0 <= i <= j <= s.len(),
        forall|k: int| i <= k < j ==> #[trigger] s[k] != b,
    ensures
        count_from(s, i, b) == count_from(s, j, b),
    decreases j - i,
{
    if i < j {
        assert(s[i] != b);
        lemma_count_skip(s, i + 1, j, b);
    }
}

/// A count of zero says that the byte does not occur.
proof fn lemma_count_zero(s: Seq<u8>, i: int, b: u8)
    requires
        0 <= i <= s.len(),
        count_from(s, i, b) == 0,
    ensures
        forall|k: int| i <= k < s.len() ==> s[k] != b,
    decreases s.len() - i,
{
    if i < s.len() {
        lemma_count_zero(s, i + 1, b);
    }
}

/// Tokens that close no line add nothing to the count of those that do.
proof fn lemma_ends_skip(t: Seq<TokenView>, i: int, j: int)
    requires
        0 <= i <= j <= t.len(),
        forall|k: int| i <= k < j ==> !(#[trigger] t[k]).is_end(),
    ensures
        ends_from(t, i) == ends_from(t, j),
    decreases j - i,
{
    if i < j {
        assert(!t[i].is_end());
        lemma_ends_skip(t, i + 1, j);
    }
}

/// Behind a first token, the tokens that close a line are those of the
/// rest.
proof fn lemma_ends_shift(head: TokenView, rest: Seq<TokenView>, j: int)
    requires
        0 <= j <= rest.len(),
    ensures
        ends_from(seq![head] + rest, j + 1) == ends_from(rest, j),
    decreases rest.len() - j,
{
    let t = seq![head] + rest;
    if j < rest.len() {
        assert(t[j + 1] == rest[j]);
        lemma_ends_shift(head, rest, j + 1);
    }
}

/// A token sequence gives one line more than it holds tokens that close a
/// line, the end-of-line token that opens it not counted.
pub proof fn lemma_lines_from_len(t: Seq<TokenView>, from: int, table: MdStyle)
    requires
        0 <= from <= t.len(),
    ensures
        lines_from(t, from, table).len() == 1 + ends_from(t, from),
    decreases t.len() - from,
{
    let to = from + line_len(t, from);
    lemma_line_len(t, from);
    lemma_ends_skip(t, from, to);
    if to < t.len() {
        lemma_lines_from_len(t, to + 1, table);
    }
}

/// The tokens of a text that close a line are as many as its newline and
/// null bytes.
pub proof fn lemma_scan_ends(s: Seq<u8>, i: int)
    requires
        0 <= i <= s.len(),
    ensures
        ends_from(scan(s, i), 0) == count_from(s, i, NEWLINE) + count_from(s, i, NUL),
    decreases s.len() - i,
{
    if i < s.len() {
        let w = token_width(s, i) as int;
        let head = token_at(s, i);
        let rest = scan(s, i + w);
        if s[i] == HASH {
            lemma_run_members(s, i + 1, false);
        } else if is_word_byte(s[i]) {
            lemma_run_members(s, i + 1, true);
        }
        assert(i + w <= s.len());
        assert forall|k: int| i < k < i + w implies s[k] != NEWLINE && s[k] != NUL by {
            if s[i] == HASH {
                assert(in_run(s[k], false));
            } else if is_word_byte(s[i]) {
                assert(in_run(s[k], true));
            }
        }
        lemma_count_skip(s, i + 1, i + w, NEWLINE);
        lemma_count_skip(s, i + 1, i + w, NUL);
        lemma_scan_ends(s, i + w);
        lemma_ends_shift(head, rest, 0);
        assert(head.is_end() <==> (s[i] == NEWLINE || s[i] == NUL));
    }
}

/// The line count: a text whose bytes are all in the recognized set gives
/// one line more than it holds newline and null bytes.
pub proof fn lemma_line_count(s: Seq<u8>, table: MdStyle)
    requires
        all_legal(s),
    ensures
        parse_bytes(s, table) is Ok,
        parse_bytes(s, table)->Ok_0.len() == count_byte(s, NEWLINE) + count_byte(s, NUL) + 1,
{
    let t = seq![TokenView::EOL] + scan(s, 0);
    assert(t[0] is EOL);
    lemma_lines_from_len(t, 1, table);
    lemma_ends_shift(TokenView::EOL, scan(s, 0), 0);
    lemma_scan_ends(s, 0);
}

/// A text with `k` newline bytes and without a null byte, all of its bytes
/// in the recognized set, gives `k + 1` lines.
pub proof fn lemma_newlines_give_lines(s: Seq<u8>, table: MdStyle, k: nat)
    requires
        all_legal(s),
        count_byte(s, NEWLINE) == k,
        count_byte(s, NUL) == 0,
    ensures
        parse_bytes(s, table) is Ok,
        parse_bytes(s, table)->Ok_0.len() == k + 1,
{
    lemma_line_count(s, table);
}

/// A text has one line more than it has newlines.
pub proof fn lemma_split_len(s: Seq<u8>, from: int)
    requires
        0 <= from <= s.len(),
    ensures
        split_from(s, from).len() == count_from(s, from, NEWLINE) + 1,
    decreases s.len() - from,
{
    let to = from + until_newline(s, from);
    lemma_until_newline(s, from);
    lemma_count_skip(s, from, to, NEWLINE);
    if to < s.len() {
        lemma_split_len(s, to + 1);
    }
}

/// A byte outside the recognized set, wherever it stands, leaves no line:
/// parsing fails with the failure of the lexer.
pub proof fn lemma_illegal_byte_aborts(s: Seq<u8>, i: int, table: MdStyle)
    requires
        0 <= i < s.len(),
        !is_legal(s[i]),
    ensures
        parse_bytes(s, table) is Err,
        parse_bytes(s, table)->Err_0 is LexerErr,
{
    lemma_lex_rejects(s, i);
}

/// Parsing is a function of the text and the table alone: whatever two
/// calls of `parse` hand out, on one parser or on two that hold the same
/// text and the same table, is the same, lines or failure.
pub proof fn lemma_parse_deterministic(
    a: Parser,
    b: Parser,
    first: Result<Vec<Line>, Error>,
    second: Result<Vec<Line>, Error>,
)
    requires
        a.input@ == b.input@,
        a.style == b.style,
        parsed(first) == a.outcome(),
        parsed(second) == b.outcome(),
    ensures
        parsed(first) == parsed(second),
{
}

/// A stretch of tokens that close no line, closed by one that does or by
/// the end of `t`, is the line that starts at `i`.
proof fn lemma_line_len_is(t: Seq<TokenView>, i: int, e: int)
    requires
        0 <= i <= e <= t.len(),
        forall|k: int| i <= k < e ==> !(#[trigger] t[k]).is_end(),
        e < t.len() ==> t[e].is_end(),
    ensures
        line_len(t, i) == e - i,
    decreases e - i,
{
    if i < e {
        assert(!t[i].is_end());
        lemma_line_len_is(t, i + 1, e);
    }
}

/// The spans of a stretch of tokens depend on the tokens of the stretch
/// alone.
proof fn lemma_segments_same(
    t: Seq<TokenView>,
    i: int,
    u: Seq<TokenView>,
    j: int,
    n: int,
    table: MdStyle,
)
    requires
        0 <= n,
        0 <= i,
        i + n <= t.len(),
        0 <= j,
        j + n <= u.len(),
        t.subrange(i, i + n) == u.subrange(j, j + n),
    ensures
        segments(t, i, i + n, table) == segments(u, j, j + n, table),
    decreases n,
{
    let x = t.subrange(i, i + n);
    let y = u.subrange(j, j + n);
    if n > 0 {
        assert(t[i] == x[0] && u[j] == y[0]);
        if n > 1 {
            assert(t[i + 1] == x[1] && u[j + 1] == y[1]);
        }
        let step: int = if t[i] is Heading && i + 1 < i + n && t[i + 1] is WhiteSpace {
            2
        } else {
            1
        };
        assert(t.subrange(i + step, i + n) =~= x.subrange(step, n));
        assert(u.subrange(j + step, j + n) =~= y.subrange(step, n));
        lemma_segments_same(t, i + step, u, j + step, n - step, table);
    }
}

/// The spans of a line depend on the tokens of the line alone.
proof fn lemma_render_line_same(
    t: Seq<TokenView>,
    i: int,
    u: Seq<TokenView>,
    j: int,
    n: int,
    table: MdStyle,
)
    requires
        0 <= n,
        0 <= i,
        i + n <= t.len(),
        0 <= j,
        j + n <= u.len(),
        t.subrange(i, i + n) == u.subrange(j, j + n),
    ensures
        render_line(t, i, i + n, table) == render_line(u, j, j + n, table),
{
    let x = t.subrange(i, i + n);
    let y = u.subrange(j, j + n);
    lemma_segments_same(t, i, u, j, n, table);
    if n >= 3 {
        assert(t[i] == x[0] && u[j] == y[0]);
        if is_rule_line(t, i, i + n) {
            assert forall|k: int| j <= k < j + n implies #[trigger] u[k] == u[j] by {
                assert(u[k] == y[k - j]);
                assert(t[k - j + i] == x[k - j]);
            }
        }
        if is_rule_line(u, j, j + n) {
            assert forall|k: int| i <= k < i + n implies #[trigger] t[k] == t[i] by {
                assert(t[k] == x[k - i]);
                assert(u[k - i + j] == y[k - i]);
            }
        }
    }
}

/// The lines behind a stretch of tokens are those of the rest by itself.
proof fn lemma_lines_shift(a: Seq<TokenView>, b: Seq<TokenView>, j: int, table: MdStyle)
    requires
        0 <= j <= b.len(),
    ensures
        lines_from(a + b, a.len() + j, table) == lines_from(b, j, table),
    decreases b.len() - j,
{
    let t = a + b;
    let n = line_len(b, j) as int;
    lemma_line_len(b, j);
    assert forall|k: int| a.len() + j <= k < a.len() + j + n implies !(#[trigger] t[k]).is_end() by {
        assert(t[k] == b[k - a.len()]);
    }
    if j + n < b.len() {
        assert(t[a.len() + j + n] == b[j + n]);
    }
    lemma_line_len_is(t, a.len() + j, a.len() + j + n);
    assert(t.subrange(a.len() + j, a.len() + j + n) =~= b.subrange(j, j + n));
    lemma_render_line_same(t, a.len() + j, b, j, n, table);
    if j + n < b.len() {
        lemma_lines_shift(a, b, j + n + 1, table);
    }
}

/// A text without newline and null bytes has no token that closes a line.
proof fn lemma_scan_no_ends(s: Seq<u8>, i: int)
    requires
        forall|k: int| 0 <= k < s.len() ==> s[k] != NEWLINE && s[k] != NUL,
    ensures
        forall|k: int| 0 <= k < scan(s, i).len() ==> !(#[trigger] scan(s, i)[k]).is_end(),
    decreases
            (if i < s.len() {
                s.len() - i
            } else {
                0
            }),
{
    if 0 <= i < s.len() {
        assert(s[i] != NEWLINE && s[i] != NUL);
        let rest = scan(s, i + token_width(s, i));
        lemma_scan_no_ends(s, i + token_width(s, i));
        assert(!token_at(s, i).is_end());
        assert forall|k: int| 0 <= k < scan(s, i).len() implies !(#[trigger] scan(s, i)[k]).is_end() by {
            if k > 0 {
                assert(scan(s, i)[k] == rest[k - 1]);
            }
        }
    }
}

/// Up to its next newline, a text gives the tokens that the stretch gives
/// by itself; the newline gives the end-of-line token, and what follows
/// the tokens of the rest.
proof fn lemma_scan_split(s: Seq<u8>, from: int, to: int, i: int)
    requires
        0 <= from <= i <= to <= s.len(),
        forall|k: int| from <= k < to ==> #[trigger] s[k] != NEWLINE,
        to < s.len() ==> s[to] == NEWLINE,
    ensures
        scan(s, i) == scan(s.subrange(from, to), i - from) + (if to < s.len() {
            seq![TokenView::EOL] + scan(s, to + 1)
        } else {
            seq![]
        }),
    decreases to - i,
{
    let piece = s.subrange(from, to);
    let tail = if to < s.len() {
        seq![TokenView::EOL] + scan(s, to + 1)
    } else {
        seq![]
    };
    if i == to {
        assert(scan(s, i) =~= scan(piece, i - from) + tail);
    } else {
        let j = i - from;
        assert(piece[j] == s[i]);
        lemma_run_agrees(s, from, to, i, false);
        lemma_run_agrees(s, from, to, i, true);
        lemma_run_agrees(s, from, to, i + 1, false);
        lemma_run_agrees(s, from, to, i + 1, true);
        let w = token_width(s, i) as int;
        assert(token_width(piece, j) == w);
        assert(token_at(piece, j) == token_at(s, i)) by {
            if s[i] != HASH && is_word_byte(s[i]) {
                let n = w;
                assert(piece.subrange(j, j + n) =~= s.subrange(i, i + n));
            }
        }
        lemma_scan_split(s, from, to, i + w);
        assert(scan(s, i) =~= scan(piece, j) + tail);
    }
}

/// The spans of the one line that a text without newline and null bytes
/// gives.
pub open spec fn line_alone(piece: Seq<u8>, table: MdStyle) -> Seq<SpanView> {
    render(seq![TokenView::EOL] + scan(piece, 0), table)[0]
}

/// A text without newline and null bytes gives one line.
proof fn lemma_single_line(piece: Seq<u8>, table: MdStyle)
    requires
        forall|k: int| 0 <= k < piece.len() ==> piece[k] != NEWLINE && piece[k] != NUL,
    ensures
        render(seq![TokenView::EOL] + scan(piece, 0), table) == seq![line_alone(piece, table)],
        line_alone(piece, table) == render_line(
            scan(piece, 0),
            0,
            scan(piece, 0).len() as int,
            table,
        ),
{
    let a = scan(piece, 0);
    let t = seq![TokenView::EOL] + a;
    assert(t[0] is EOL);
    lemma_scan_no_ends(piece, 0);
    lemma_lines_shift(seq![TokenView::EOL], a, 0, table);
    lemma_line_len_is(a, 0, a.len() as int);
}

/// The lines of a text from the start of a line on are, one by one, the
/// lines that the stretches between its newlines give by themselves.
proof fn lemma_lines_split(s: Seq<u8>, from: int, table: MdStyle)
    requires
        0 <= from <= s.len(),
        forall|k: int| 0 <= k < s.len() ==> s[k] != NUL,
    ensures
        lines_from(scan(s, from), 0, table).len() == split_from(s, from).len(),
        forall|k: int|
            0 <= k < split_from(s, from).len() ==> lines_from(scan(s, from), 0, table)[k]
                == line_alone(#[trigger] split_from(s, from)[k], table),
        forall|k: int|
            0 <= k < split_from(s, from).len() ==> forall|m: int|
                0 <= m < (#[trigger] split_from(s, from)[k]).len() ==> split_from(s, from)[k][m]
                    != NEWLINE && split_from(s, from)[k][m] != NUL,
    decreases s.len() - from,
{
    let to = from + until_newline(s, from);
    lemma_until_newline(s, from);
    let piece = s.subrange(from, to);
    let a = scan(piece, 0);
    let t = scan(s, from);
    lemma_scan_split(s, from, to, from);
    assert forall|k: int| 0 <= k < piece.len() implies piece[k] != NEWLINE && piece[k] != NUL by {
        assert(piece[k] == s[from + k]);
    }
    lemma_scan_no_ends(piece, 0);
    lemma_single_line(piece, table);
    assert forall|k: int| 0 <= k < a.len() implies !(#[trigger] t[k]).is_end() by {
        assert(t[k] == a[k]);
    }
    if to < s.len() {
        assert(t[a.len() as int] == TokenView::EOL);
    }
    lemma_line_len_is(t, 0, a.len() as int);
    assert(t.subrange(0, a.len() as int) =~= a.subrange(0, a.len() as int));
    lemma_render_line_same(t, 0, a, 0, a.len() as int, table);
    if to < s.len() {
        let rest = scan(s, to + 1);
        assert(t =~= (a + seq![TokenView::EOL]) + rest);
        lemma_lines_shift(a + seq![TokenView::EOL], rest, 0, table);
        lemma_lines_split(s, to + 1, table);
        let lines = lines_from(t, 0, table);
        let below = lines_from(rest, 0, table);
        let pieces = split_from(s, from);
        let others = split_from(s, to + 1);
        assert(lines =~= seq![line_alone(piece, table)] + below);
        assert(pieces =~= seq![piece] + others);
        assert forall|k: int| 0 <= k < pieces.len() implies lines[k] == line_alone(
            #[trigger] pieces[k],
            table,
        ) by {
            if k > 0 {
                assert(pieces[k] == others[k - 1]);
                assert(lines[k] == below[k - 1]);
            }
        }
        assert forall|k: int| 0 <= k < pieces.len() implies forall|m: int|
            0 <= m < (#[trigger] pieces[k]).len() ==> pieces[k][m] != NEWLINE && pieces[k][m]
                != NUL by {
            if k > 0 {
                assert(pieces[k] == others[k - 1]);
            }
        }
    }
}

/// The lines of a text hold bytes of the text only.
proof fn lemma_split_legal(s: Seq<u8>, from: int)
    requires
        0 <= from <= s.len(),
        all_legal(s),
    ensures
        forall|k: int| 0 <= k < split_from(s, from).len() ==> all_legal(#[trigger] split_from(s, from)[k]),
    decreases s.len() - from,
{
    let to = from + until_newline(s, from);
    lemma_until_newline(s, from);
    let piece = s.subrange(from, to);
    assert(all_legal(piece)) by {
        assert forall|m: int| 0 <= m < piece.len() implies is_legal(#[trigger] piece[m]) by {
            assert(piece[m] == s[from + m]);
        }
    }
    if to < s.len() {
        lemma_split_legal(s, to + 1);
        let pieces = split_from(s, from);
        let others = split_from(s, to + 1);
        assert(pieces =~= seq![piece] + others);
        assert forall|k: int| 0 <= k < pieces.len() implies all_legal(#[trigger] pieces[k]) by {
            if k > 0 {
                assert(pieces[k] == others[k - 1]);
            }
        }
    }
}

/// Each line is parsed for itself. A text without a null byte, all of its
/// bytes in the recognized set, gives as many lines as its newlines part it
/// into; each stretch between the newlines, parsed alone, gives one line;
/// and that line is the line of its place in the whole.
pub proof fn lemma_lines_are_independent(s: Seq<u8>, table: MdStyle)
    requires
        all_legal(s),
        count_byte(s, NUL) == 0,
    ensures
        parse_bytes(s, table) is Ok,
        parse_bytes(s, table)->Ok_0.len() == split_lines(s).len(),
        forall|k: int|
            0 <= k < split_lines(s).len() ==> {
                &&& all_legal(#[trigger] split_lines(s)[k])
                &&& parse_bytes(split_lines(s)[k], table) == Ok::<Seq<Seq<SpanView>>, ErrorView>(
                    seq![parse_bytes(s, table)->Ok_0[k]],
                )
                &&& first_line(split_lines(s)[k], table) == Ok::<Seq<SpanView>, ErrorView>(
                    parse_bytes(s, table)->Ok_0[k],
                )
            },
{
    lemma_count_zero(s, 0, NUL);
    lemma_lines_split(s, 0, table);
    lemma_split_legal(s, 0);
    let t = seq![TokenView::EOL] + scan(s, 0);
    assert(t[0] is EOL);
    lemma_lines_shift(seq![TokenView::EOL], scan(s, 0), 0, table);
    assert forall|k: int| 0 <= k < split_lines(s).len() implies {
        &&& all_legal(#[trigger] split_lines(s)[k])
        &&& parse_bytes(split_lines(s)[k], table) == Ok::<Seq<Seq<SpanView>>, ErrorView>(
            seq![parse_bytes(s, table)->Ok_0[k]],
        )
        &&& first_line(split_lines(s)[k], table) == Ok::<Seq<SpanView>, ErrorView>(
            parse_bytes(s, table)->Ok_0[k],
        )
    } by {
        lemma_single_line(split_lines(s)[k], table);
    }
}

/// The contents of the spans, one behind the other.
pub open spec fn joined(spans: Seq<SpanView>) -> Seq<char>
    decreases spans.len(),
{
    if spans.len() == 0 {
        seq![]
    } else {
        spans[0].content + joined(spans.drop_first())
    }
}

/// Behind every run of `#` stands a space.
pub open spec fn headings_spaced(s: Seq<u8>) -> bool {
    forall|i: int|
        0 <= i < s.len() && #[trigger] s[i] == HASH ==> i + 1 < s.len() && (s[i + 1] == HASH || s[i
            + 1] == SPACE)
}

/// The contents behind a first span are joined to its content.
proof fn lemma_joined_cons(first: SpanView, rest: Seq<SpanView>)
    ensures
        joined(seq![first] + rest) == first.content + joined(rest),
{
    assert((seq![first] + rest).drop_first() =~= rest);
}

/// The text of the token of a single byte is that byte.
proof fn lemma_single_text(b: u8)
    requires
        is_legal(b),
        b != HASH,
        !is_word_byte(b),
        b != NEWLINE,
        b != NUL,
    ensures
        token_text(single_token(b)) == seq![b as char],
{
    assert(token_text(single_token(b)) =~= seq![b as char]);
}

/// The text of a token that is no heading marker and closes no line is
/// the stretch of the text that it was read from.
proof fn lemma_token_text(p: Seq<u8>, i: int)
    requires
        0 <= i < p.len(),
        is_legal(p[i]),
        p[i] != HASH,
        p[i] != NEWLINE,
        p[i] != NUL,
    ensures
        i + token_width(p, i) <= p.len(),
        !(token_at(p, i) is Heading),
        token_text(token_at(p, i)) == ascii_text(p.subrange(i, i + token_width(p, i))),
{
    if is_word_byte(p[i]) {
        lemma_run_members(p, i + 1, true);
    } else {
        lemma_single_text(p[i]);
        assert(p.subrange(i, i + 1) =~= seq![p[i]]);
        assert(ascii_text(seq![p[i]]) =~= seq![p[i] as char]);
    }
}

/// Where a space stands behind every run of `#`, a heading marker is
/// followed by the token of that space, and its text is the run and the
/// space as they were written.
proof fn lemma_heading_text(p: Seq<u8>, i: int)
    requires
        0 <= i < p.len(),
        p[i] == HASH,
        headings_spaced(p),
    ensures
        i + token_width(p, i) < p.len(),
        token_at(p, i) is Heading,
        token_at(p, i + token_width(p, i)) == TokenView::WhiteSpace,
        token_width(p, i + token_width(p, i)) == 1,
        token_text(token_at(p, i)) == ascii_text(p.subrange(i, i + token_width(p, i) + 1)),
{
    let w = token_width(p, i) as int;
    lemma_run_members(p, i + 1, false);
    let last = i + w - 1;
    assert(p[last] == HASH) by {
        if last > i {
            assert(in_run(p[last], false));
        }
    }
    assert(p[i + w] == SPACE);
    assert(token_text(token_at(p, i)) =~= ascii_text(p.subrange(i, i + w + 1))) by {
        assert forall|k: int| 0 <= k < w + 1 implies token_text(token_at(p, i))[k] == ascii_text(
            p.subrange(i, i + w + 1),
        )[k] by {
            if 0 < k < w {
                assert(in_run(p[i + k], false));
            }
        }
    }
}

/// The spans of a token sequence are the span of its first token and the
/// spans of the tokens behind it, or behind the space that a heading
/// marker takes with it.
proof fn lemma_segments_step(all: Seq<TokenView>, skip: int, rest: Seq<TokenView>, table: MdStyle)
    requires
        1 <= skip <= 2,
        all.len() == skip + rest.len(),
        all.subrange(skip, all.len() as int) == rest,
        skip == 2 <==> (all[0] is Heading && all[1] is WhiteSpace),
        skip == 1 ==> !(all[0] is Heading),
    ensures
        joined(segments(all, 0, all.len() as int, table)) == token_text(all[0]) + joined(
            segments(rest, 0, rest.len() as int, table),
        ),
{
    let n = all.len() as int;
    let below = segments(rest, 0, rest.len() as int, table);
    assert(all.subrange(skip, n) =~= rest.subrange(0, rest.len() as int));
    lemma_segments_same(all, skip, rest, 0, rest.len() as int, table);
    assert(segments(all, 0, n, table) =~= seq![token_span(all[0], table)] + below);
    lemma_joined_cons(token_span(all[0], table), below);
}

/// Where the token behind the token at `i` starts, or, behind a heading
/// marker, the token behind the space that the marker takes with it.
pub open spec fn next_start(p: Seq<u8>, i: int) -> int {
    if p[i] == HASH {
        i + token_width(p, i) + 1
    } else {
        i + token_width(p, i)
    }
}

/// The text of a stretch is the text of its first part and the text of
/// the rest.
proof fn lemma_ascii_text_split(p: Seq<u8>, i: int, j: int)
    requires
        0 <= i <= j <= p.len(),
    ensures
        ascii_text(p.subrange(i, p.len() as int)) == ascii_text(p.subrange(i, j)) + ascii_text(
            p.subrange(j, p.len() as int),
        ),
{
    assert(ascii_text(p.subrange(i, p.len() as int)) =~= ascii_text(p.subrange(i, j)) + ascii_text(
        p.subrange(j, p.len() as int),
    ));
}

/// The first span of the tokens of a text holds the stretch that it was
/// read from, and the other spans are those of the tokens behind it.
proof fn lemma_scan_text_step(p: Seq<u8>, i: int, table: MdStyle)
    requires
        0 <= i < p.len(),
        is_legal(p[i]),
        p[i] != NEWLINE,
        p[i] != NUL,
        headings_spaced(p),
    ensures
        i < next_start(p, i) <= p.len(),
        joined(segments(scan(p, i), 0, scan(p, i).len() as int, table)) == ascii_text(
            p.subrange(i, next_start(p, i)),
        ) + joined(
            segments(scan(p, next_start(p, i)), 0, scan(p, next_start(p, i)).len() as int, table),
        ),
{
    let w = token_width(p, i) as int;
    let all = scan(p, i);
    if p[i] == HASH {
        lemma_heading_text(p, i);
        let rest = scan(p, i + w + 1);
        assert(all =~= seq![token_at(p, i), TokenView::WhiteSpace] + rest) by {
            assert(scan(p, i + w) =~= seq![token_at(p, i + w)] + rest);
            assert(all =~= seq![token_at(p, i)] + scan(p, i + w));
        }
        assert(all.subrange(2, all.len() as int) =~= rest);
        lemma_segments_step(all, 2, rest, table);
    } else {
        lemma_token_text(p, i);
        let rest = scan(p, i + w);
        assert(all =~= seq![token_at(p, i)] + rest);
        assert(all.subrange(1, all.len() as int) =~= rest);
        lemma_segments_step(all, 1, rest, table);
    }
}

/// Where a space stands behind every run of `#`, the spans of the tokens
/// of a text without newline and null bytes hold the text as it was
/// written.
proof fn lemma_segments_text(p: Seq<u8>, i: int, table: MdStyle)
    requires
        all_legal(p),
        forall|k: int| 0 <= k < p.len() ==> p[k] != NEWLINE && p[k] != NUL,
        headings_spaced(p),
        0 <= i <= p.len(),
    ensures
        joined(segments(scan(p, i), 0, scan(p, i).len() as int, table)) == ascii_text(
            p.subrange(i, p.len() as int),
        ),
    decreases p.len() - i,
{
    if i < p.len() {
        assert(is_legal(p[i]));
        assert(p[i] != NEWLINE && p[i] != NUL);
        lemma_scan_text_step(p, i, table);
        lemma_segments_text(p, next_start(p, i), table);
        lemma_ascii_text_split(p, i, next_start(p, i));
    } else {
        assert(ascii_text(p.subrange(i, p.len() as int)) =~= seq![]);
    }
}

/// The spans of a run of one marker hold the marker as often as the run
/// is long.
proof fn lemma_rule_text(t: Seq<TokenView>, i: int, n: int, table: MdStyle)
    requires
        0 <= i <= n <= t.len(),
        i < t.len(),
        is_marker(t[i]),
        forall|k: int| i <= k < n ==> #[trigger] t[k] == t[i],
    ensures
        joined(segments(t, i, n, table)) == repeat(token_text(t[i])[0], (n - i) as nat),
    decreases n - i,
{
    let c = token_text(t[i])[0];
    if i < n {
        let below = segments(t, i + 1, n, table);
        if i + 1 < n {
            assert(t[i + 1] == t[i]);
            assert forall|k: int| i + 1 <= k < n implies #[trigger] t[k] == t[i + 1] by {}
            lemma_rule_text(t, i + 1, n, table);
        } else {
            assert(joined(below) =~= repeat(c, 0));
        }
        assert(segments(t, i, n, table) =~= seq![token_span(t[i], table)] + below);
        lemma_joined_cons(token_span(t[i], table), below);
        assert(token_text(t[i]) =~= seq![c]);
        assert(seq![c] + repeat(c, (n - i - 1) as nat) =~= repeat(c, (n - i) as nat));
    } else {
        assert(joined(segments(t, i, n, table)) =~= repeat(c, 0));
    }
}

/// Where a space stands behind every run of `#`, the one line of a text
/// without newline and null bytes holds the text as it was written.
proof fn lemma_line_text(p: Seq<u8>, table: MdStyle)
    requires
        all_legal(p),
        forall|k: int| 0 <= k < p.len() ==> p[k] != NEWLINE && p[k] != NUL,
        headings_spaced(p),
    ensures
        joined(line_alone(p, table)) == ascii_text(p),
{
    let a = scan(p, 0);
    let n = a.len() as int;
    lemma_single_line(p, table);
    lemma_segments_text(p, 0, table);
    assert(p.subrange(0, p.len() as int) =~= p);
    if is_rule_line(a, 0, n) {
        lemma_rule_text(a, 0, n, table);
        let rule = rule_span(a[0], n as nat, table);
        lemma_joined_cons(rule, seq![]);
        assert(seq![rule] + Seq::<SpanView>::empty() =~= seq![rule]);
        assert(rule.content + joined(Seq::<SpanView>::empty()) =~= rule.content);
    }
}

/// The lines of a text in which a space stands behind every run of `#`
/// are texts of that kind.
proof fn lemma_split_spaced(s: Seq<u8>, from: int)
    requires
        0 <= from <= s.len(),
        headings_spaced(s),
    ensures
        forall|k: int|
            0 <= k < split_from(s, from).len() ==> headings_spaced(#[trigger] split_from(s, from)[k]),
    decreases s.len() - from,
{
    let to = from + until_newline(s, from);
    lemma_until_newline(s, from);
    let piece = s.subrange(from, to);
    assert(headings_spaced(piece)) by {
        assert forall|i: int| 0 <= i < piece.len() && #[trigger] piece[i] == HASH implies i + 1
            < piece.len() && (piece[i + 1] == HASH || piece[i + 1] == SPACE) by {
            assert(s[from + i] == HASH);
            if from + i + 1 == to {
                assert(s[to] == NEWLINE);
            }
            assert(piece[i + 1] == s[from + i + 1]);
        }
    }
    if to < s.len() {
        lemma_split_spaced(s, to + 1);
        let pieces = split_from(s, from);
        let others = split_from(s, to + 1);
        assert(pieces =~= seq![piece] + others);
        assert forall|k: int| 0 <= k < pieces.len() implies headings_spaced(#[trigger] pieces[k]) by {
            if k > 0 {
                assert(pieces[k] == others[k - 1]);
            }
        }
    }
}

/// Every byte is shown once and in its place. Where a text has no null
/// byte, all of its bytes are in the recognized set, and a space stands
/// behind every run of `#`, the contents of the spans of each line, one
/// behind the other, are that line of the text as it was written.
pub proof fn lemma_lines_show_the_text(s: Seq<u8>, table: MdStyle)
    requires
        all_legal(s),
        count_byte(s, NUL) == 0,
        headings_spaced(s),
    ensures
        parse_bytes(s, table) is Ok,
        parse_bytes(s, table)->Ok_0.len() == split_lines(s).len(),
        forall|k: int|
            0 <= k < split_lines(s).len() ==> joined(parse_bytes(s, table)->Ok_0[k]) == ascii_text(
                #[trigger] split_lines(s)[k],
            ),
{
    lemma_lines_are_independent(s, table);
    lemma_count_zero(s, 0, NUL);
    lemma_lines_split(s, 0, table);
    lemma_split_legal(s, 0);
    lemma_split_spaced(s, 0);
    assert forall|k: int| 0 <= k < split_lines(s).len() implies joined(
        parse_bytes(s, table)->Ok_0[k],
    ) == ascii_text(#[trigger] split_lines(s)[k]) by {
        let piece = split_lines(s)[k];
        assert(all_legal(piece));
        lemma_line_text(piece, table);
    }
}

} // verus!
