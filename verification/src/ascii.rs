//! ASCII stretches inside UTF-8 text.
//!
//! A byte below `0x80` is a character of its own in UTF-8, so a stretch of
//! such bytes can be cut out of a string at byte positions, and its
//! characters are its bytes.
use vstd::prelude::*;
use vstd::utf8::*;
use vstd::string::StringSliceAdditionalSpecFns;

verus! {

/// The characters that a sequence of ASCII bytes spells.
pub open spec fn ascii_text(bytes: Seq<u8>) -> Seq<char> {
    Seq::new(bytes.len(), |i: int| bytes[i] as char)
}

/// All of the bytes are below `0x80`.
pub open spec fn is_ascii_bytes(bytes: Seq<u8>) -> bool {
    forall|i: int| 0 <= i < bytes.len() ==> #[trigger] bytes[i] <= 0x7f
}

/// ASCII bytes are valid UTF-8 and decode to themselves.
pub proof fn lemma_ascii_decode(bytes: Seq<u8>)
    requires
        is_ascii_bytes(bytes),
    ensures
        valid_utf8(bytes),
        decode_utf8(bytes) == ascii_text(bytes),
    decreases bytes.len(),
{
    if bytes.len() == 0 {
        assert(decode_utf8(bytes) =~= ascii_text(bytes));
    } else {
        let b = bytes[0];
        assert(b <= 0x7f);
        assert((b & 0x7f) as u32 == b as u32) by (bit_vector)
            requires
                b <= 0x7f,
        ;
        let rest = pop_first_scalar(bytes);
        assert(rest =~= bytes.subrange(1, bytes.len() as int));
        assert(is_ascii_bytes(rest)) by {
            assert forall|i: int| 0 <= i < rest.len() implies #[trigger] rest[i] <= 0x7f by {
                assert(rest[i] == bytes[i + 1]);
            }
        }
        lemma_ascii_decode(rest);
        assert(valid_first_scalar(bytes));
        assert(valid_utf8(bytes));
        assert(decode_first_scalar(bytes) as char == b as char);
        assert(decode_utf8(bytes) =~= ascii_text(bytes)) by {
            assert forall|i: int| 0 <= i < bytes.len() implies decode_utf8(bytes)[i] == ascii_text(
                bytes,
            )[i] by {
                if i > 0 {
                    assert(decode_utf8(rest)[i - 1] == ascii_text(rest)[i - 1]);
                    assert(rest[i - 1] == bytes[i]);
                }
            }
        }
    }
}

/// In valid UTF-8 that begins with `n` ASCII bytes, a character ends after
/// the `n`-th byte.
pub proof fn lemma_ascii_prefix_boundary(bytes: Seq<u8>, n: int)
    requires
        valid_utf8(bytes),
        0 <= n <= bytes.len(),
        is_ascii_bytes(bytes.subrange(0, n)),
    ensures
        is_char_boundary(bytes, n),
    decreases n,
{
    if n > 0 {
        assert(bytes.subrange(0, n)[0] == bytes[0]);
        assert(bytes[0] <= 0x7f);
        let rest = pop_first_scalar(bytes);
        assert(rest =~= bytes.subrange(1, bytes.len() as int));
        assert(is_ascii_bytes(rest.subrange(0, n - 1))) by {
            assert forall|i: int| 0 <= i < n - 1 implies #[trigger] rest.subrange(0, n - 1)[i]
                <= 0x7f by {
                assert(rest.subrange(0, n - 1)[i] == bytes.subrange(0, n)[i + 1]);
            }
        }
        lemma_ascii_prefix_boundary(rest, n - 1);
    }
}

/// The stretch of `s` from byte `from` up to byte `to`, which holds ASCII
/// bytes only.
pub(crate) fn ascii_slice(s: &str, from: usize, to: usize) -> (r: &str)
    requires
        from < to <= s.spec_bytes().len(),
        is_ascii_bytes(s.spec_bytes().subrange(from as int, to as int)),
    ensures
        r@ == ascii_text(s.spec_bytes().subrange(from as int, to as int)),
{
    let ghost bytes = s.spec_bytes();
    proof {
        encode_utf8_valid_utf8(s@);
        assert(bytes.subrange(from as int, to as int)[0] == bytes[from as int]);
        is_char_boundary_iff_not_is_continuation_byte(bytes, from as int);
    }
    let (_, tail) = s.split_at(from);
    let ghost tail_bytes = tail.spec_bytes();
    proof {
        valid_utf8_split(bytes, from as int);
        assert(tail_bytes.subrange(0, to - from) =~= bytes.subrange(from as int, to as int));
        lemma_ascii_prefix_boundary(tail_bytes, to - from);
    }
    let (word, _) = tail.split_at(to - from);
    proof {
        let wb = word.spec_bytes();
        assert(wb =~= bytes.subrange(from as int, to as int));
        lemma_ascii_decode(wb);
        encode_utf8_decode_utf8(word@);
    }
    word
}

} // verus!
