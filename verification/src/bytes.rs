//! Bytes as text.

use vstd::prelude::*;
use vstd::utf8::{
    decode_utf8, encode_utf8, encode_utf8_decode_utf8, encode_utf8_first_scalar,
    encode_utf8_valid_utf8, is_ascii_chars, is_ascii_chars_encode_utf8, is_char_boundary,
    length_of_first_scalar, pop_first_scalar, valid_utf8,
};

verus! {

/// The text that `String::from_utf8_lossy` makes of some bytes.
pub uninterp spec fn lossy_text(bytes: Seq<u8>) -> Seq<char>;

/// `String::from_utf8_lossy` turns bytes into text, which depends on the bytes
/// alone. Valid UTF-8 is decoded as it stands. Where in other input the
/// replacement characters come to stand is left unsaid.
#[verifier::external_body]
pub(crate) fn text_from_bytes(bytes: &[u8]) -> (r: String)
    ensures
        r@ == lossy_text(bytes@),
        valid_utf8(bytes@) ==> r@ == decode_utf8(bytes@),
{
    String::from_utf8_lossy(bytes).into_owned()
}

/// `s` can be cut behind its first `n` bytes.
pub open spec fn can_cut(s: Seq<char>, n: int) -> bool {
    is_char_boundary(encode_utf8(s), n)
}

/// The text that the first `n` bytes of `s` hold.
pub open spec fn byte_prefix(s: Seq<char>, n: int) -> Seq<char> {
    decode_utf8(encode_utf8(s).subrange(0, n))
}

/// Take the first `n` bytes of `s`.
pub fn first_bytes(s: &str, n: usize) -> (r: String)
    requires
        can_cut(s@, n as int),
    ensures
        r@ == byte_prefix(s@, n as int),
{
    let front = s.split_at(n).0;
    proof {
        assert(encode_utf8(front@) =~= encode_utf8(s@).subrange(0, n as int));
        encode_utf8_decode_utf8(front@);
    }
    front.to_owned()
}

proof fn lemma_ascii_take(s: Seq<char>, n: int)
    requires
        is_ascii_chars(s),
        0 <= n <= s.len(),
    ensures
        encode_utf8(s.take(n)) == encode_utf8(s).subrange(0, n),
{
    is_ascii_chars_encode_utf8(s);
    let front = s.take(n);
    assert(is_ascii_chars(front)) by {
        assert forall|i: int| 0 <= i < front.len() implies '\0' <= #[trigger] front[i] <= '\u{7f}' by {
            assert(front[i] == s[i]);
        }
    }
    is_ascii_chars_encode_utf8(front);
    assert forall|i: int| 0 <= i < n implies encode_utf8(front)[i] == encode_utf8(s)[i] by {
        assert(front[i] == s[i]);
    }
    assert(encode_utf8(front) =~= encode_utf8(s).subrange(0, n));
}

/// A text of ASCII characters can be cut anywhere, and its first bytes are its
/// first characters.
pub proof fn lemma_ascii_can_be_cut(s: Seq<char>, n: int)
    requires
        is_ascii_chars(s),
        0 <= n <= s.len(),
    ensures
        can_cut(s, n),
        byte_prefix(s, n) == s.take(n),
    decreases n,
{
    lemma_ascii_take(s, n);
    encode_utf8_decode_utf8(s.take(n));
    encode_utf8_valid_utf8(s);
    if n > 0 {
        let rest = s.drop_first();
        assert(is_ascii_chars(rest)) by {
            assert forall|i: int| 0 <= i < rest.len() implies '\0' <= #[trigger] rest[i] <= '\u{7f}' by {
                assert(rest[i] == s[i + 1]);
            }
        }
        lemma_ascii_can_be_cut(rest, n - 1);
        is_ascii_chars_encode_utf8(s);
        encode_utf8_first_scalar(s);
        assert('\0' <= s[0] <= '\u{7f}');
        assert(length_of_first_scalar(encode_utf8(s)) == 1);
        assert(pop_first_scalar(encode_utf8(s)) =~= encode_utf8(rest));
    }
}

} // verus!
