//! The lines of a text: what stands between its newlines.
use vstd::prelude::*;
use vstd::string::StringExecFns;
use vstd::string::StringSliceAdditionalSpecFns;
use vstd::utf8::{
    encode_utf8, encode_utf8_valid_utf8, is_char_boundary_iff_not_is_continuation_byte,
    valid_utf8_split,
};
use crate::ascii::{is_ascii_bytes, lemma_ascii_prefix_boundary};
use crate::parser::bytes::NEWLINE;
use crate::parser::parser::Parser;

verus! {

/// The number of bytes from `i` up to the next newline, or up to the end of
/// `s`.
pub open spec fn until_newline(s: Seq<u8>, i: int) -> nat
    decreases s.len() - i,
{
    if 0 <= i < s.len() && s[i] != NEWLINE {
        1 + until_newline(s, i + 1)
    } else {
        0
    }
}

/// The lines of `s` from byte `from` on: the bytes up to each newline, and
/// those behind the last one.
pub open spec fn split_from(s: Seq<u8>, from: int) -> Seq<Seq<u8>>
    decreases s.len() - from,
{
    let to = from + until_newline(s, from);
    if 0 <= to < s.len() {
        seq![s.subrange(from, to)] + split_from(s, to + 1)
    } else {
        seq![s.subrange(from, to)]
    }
}

/// The lines of `s`.
pub open spec fn split_lines(s: Seq<u8>) -> Seq<Seq<u8>> {
    split_from(s, 0)
}

/// The bytes of each of the texts.
pub open spec fn texts_bytes(texts: Seq<String>) -> Seq<Seq<u8>> {
    texts.map_values(|t: String| encode_utf8(t@))
}

/// The stretch up to the next newline lies inside `s`, holds no newline,
/// and ends before one or at the end of `s`.
pub proof fn lemma_until_newline(s: Seq<u8>, i: int)
    requires
        0 <= i <= s.len(),
    ensures
        i + until_newline(s, i) <= s.len(),
        forall|k: int| i <= k < i + until_newline(s, i) ==> #[trigger] s[k] != NEWLINE,
        i + until_newline(s, i) < s.len() ==> s[i + until_newline(s, i)] == NEWLINE,
    decreases s.len() - i,
{
    if i < s.len() && s[i] != NEWLINE {
        lemma_until_newline(s, i + 1);
    }
}

/// A stretch without a newline that a newline or the end of `s` closes is
/// the stretch up to the next newline.
proof fn lemma_until_newline_is(s: Seq<u8>, i: int, j: int)
    requires
        0 <= i <= j <= s.len(),
        forall|k: int| i <= k < j ==> #[trigger] s[k] != NEWLINE,
        j < s.len() ==> s[j] == NEWLINE,
    ensures
        until_newline(s, i) == j - i,
    decreases j - i,
{
    if i < j {
        assert(s[i] != NEWLINE);
        lemma_until_newline_is(s, i + 1, j);
    }
}

impl Parser {
    /// The lines of the input, each as a text of its own, without the
    /// newlines between them.
    pub fn source_lines(&self) -> (r: Vec<String>)
        ensures
            texts_bytes(r@) == split_lines(encode_utf8(self.input@)),
    {
        let ghost s = encode_utf8(self.input@);
        let mut lines: Vec<String> = Vec::new();
        let mut rest: &str = self.input.as_str();
        let ghost mut from: int = 0;
        assert(s.subrange(0, s.len() as int) =~= s);
        assert(texts_bytes(lines@) + split_from(s, 0) =~= split_lines(s));
        loop
            invariant
                s == encode_utf8(self.input@),
                0 <= from <= s.len(),
                rest.spec_bytes() == s.subrange(from, s.len() as int),
                texts_bytes(lines@) + split_from(s, from) == split_lines(s),
            decreases s.len() - from,
        {
            let bytes = rest.as_bytes();
            let mut i: usize = 0;
            while i < bytes.len() && bytes[i] != NEWLINE
                invariant
                    bytes@ == s.subrange(from, s.len() as int),
                    0 <= from <= s.len(),
                    i <= bytes@.len(),
                    forall|k: int| from <= k < from + i ==> #[trigger] s[k] != NEWLINE,
                decreases bytes@.len() - i,
            {
                assert(bytes@[i as int] == s[from + i]);
                i += 1;
            }
            let ghost to = from + i;
            let ghost before = texts_bytes(lines@);
            proof {
                if i < bytes@.len() {
                    assert(bytes@[i as int] == s[to]);
                }
                lemma_until_newline_is(s, from, to);
                encode_utf8_valid_utf8(rest@);
            }
            if i >= bytes.len() {
                let last = String::from_str(rest);
                proof {
                    assert(encode_utf8(last@) =~= s.subrange(from, to));
                    assert(texts_bytes(lines@.push(last)) =~= before.push(encode_utf8(last@)));
                    assert(before.push(encode_utf8(last@)) =~= before + split_from(s, from));
                }
                lines.push(last);
                return lines;
            }
            proof {
                is_char_boundary_iff_not_is_continuation_byte(bytes@, i as int);
            }
            let (head, tail) = rest.split_at(i);
            proof {
                valid_utf8_split(bytes@, i as int);
                assert(tail.spec_bytes()[0] == bytes@[i as int]);
                assert(is_ascii_bytes(tail.spec_bytes().subrange(0, 1)));
                lemma_ascii_prefix_boundary(tail.spec_bytes(), 1);
            }
            let (_, after) = tail.split_at(1);
            let line = String::from_str(head);
            proof {
                assert(encode_utf8(line@) =~= s.subrange(from, to));
                assert(after.spec_bytes() =~= s.subrange(to + 1, s.len() as int));
                assert(texts_bytes(lines@.push(line)) =~= before.push(encode_utf8(line@)));
                assert(before.push(encode_utf8(line@)) + split_from(s, to + 1) =~= before
                    + split_from(s, from));
                from = to + 1;
            }
            lines.push(line);
            rest = after;
        }
    }
}

} // verus!
