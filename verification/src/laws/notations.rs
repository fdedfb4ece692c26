//! How numbers, bytes and texts are written down.

use vstd::prelude::*;

use crate::engine::history::{fnv, signed_hex};
use crate::json::{escaped, escaped_char, json_string};
use crate::login::{decoded, hex_value};
use crate::number::{digits_in, hex_of, zero_padded};

verus! {

/// Hexadecimal notation is positional, with small letters.
pub proof fn lemma_hexadecimal_notation(n: nat, d: nat)
    requires
        d < 16,
    ensures
        n > 0 ==> hex_of(16 * n + d) == hex_of(n).push("0123456789abcdef"@[d as int]),
        hex_of(d) == seq!["0123456789abcdef"@[d as int]],
{
    reveal_strlit("0123456789abcdef");
    assert((16 * n + d) / 16 == n && (16 * n + d) % 16 == d) by (nonlinear_arith)
        requires
            d < 16,
    ;
    assert(hex_of(d) =~= seq!["0123456789abcdef"@[d as int]]);
    if n > 0 {
        assert(digits_in(16 * n + d, 16) == digits_in(n, 16).push(
            crate::number::digit_char(d),
        ));
    }
}

/// Padding puts zeros before a text that is too short, and nothing else.
pub proof fn lemma_padding(s: Seq<char>, width: nat, i: int)
    ensures
        s.len() >= width ==> zero_padded(s, width) == s,
        s.len() <= width ==> zero_padded(s, width).len() == width,
        zero_padded(s, width).len() >= s.len(),
        zero_padded(s, width).skip(zero_padded(s, width).len() - s.len()) == s,
        0 <= i < zero_padded(s, width).len() - s.len() ==> zero_padded(s, width)[i] == '0',
    decreases width - s.len(),
{
    if s.len() < width {
        let more = seq!['0'] + s;
        lemma_padding(more, width, i);
        let r = zero_padded(s, width);
        assert(r == zero_padded(more, width));
        let cut = r.skip(r.len() - more.len());
        assert(cut[0] == r[r.len() - more.len()]);
        assert(r.skip(r.len() - s.len()) =~= cut.skip(1));
        assert(more.skip(1) =~= s);
    } else {
        assert(s.skip(0) =~= s);
    }
}

/// A time before the epoch is written as the unsigned number with the same
/// bits.
pub proof fn lemma_negative_times(n: i64, m: nat)
    requires
        m < 0x1_0000_0000_0000_0000,
        (m - n) % 0x1_0000_0000_0000_0000 == 0,
    ensures
        signed_hex(n) == hex_of(m),
{
}

/// The key of a repository takes in every byte in turn.
pub proof fn lemma_the_hash_takes_in_every_byte(bytes: Seq<u8>, b: u8)
    ensures
        fnv(Seq::empty()) == 14695981039346656037,
        fnv(bytes.push(b)) == ((fnv(bytes) ^ (b as u64)) * 1099511628211)
            % 0x1_0000_0000_0000_0000,
{
    assert(bytes.push(b).drop_last() =~= bytes);
}

/// In JSON, quotes, backslashes and control characters are escaped where they
/// stand, and everything else stays.
pub proof fn lemma_json_escapes(a: Seq<char>, c: char, b: Seq<char>)
    ensures
        json_string(a + seq![c] + b) == seq!['"'] + escaped(a) + escaped(seq![c]) + escaped(b) + seq![
            '"',
        ],
        c == '"' || c == '\\' ==> escaped(seq![c]) == seq!['\\', c],
        c == '\n' ==> escaped(seq![c]) == seq!['\\', 'n'],
        c == '\r' ==> escaped(seq![c]) == seq!['\\', 'r'],
        c == '\t' ==> escaped(seq![c]) == seq!['\\', 't'],
        c == '\u{8}' ==> escaped(seq![c]) == seq!['\\', 'b'],
        c == '\u{c}' ==> escaped(seq![c]) == seq!['\\', 'f'],
        c >= ' ' && c != '"' && c != '\\' ==> escaped(seq![c]) == seq![c],
        forall|i: int| 0 <= i < escaped(seq![c]).len() ==> #[trigger] escaped(seq![c])[i] >= ' ',
{
    let none: Seq<char> = Seq::empty();
    let one = seq![c];
    assert(one.drop_last() =~= none);
    assert(escaped(none) =~= none);
    assert(one.last() == c);
    assert(escaped(one) == escaped(none) + escaped_char(c));
    assert(escaped(one) =~= escaped_char(c));
    lemma_escaped_adds(a + one, b);
    lemma_escaped_adds(a, one);
    assert(json_string(a + one + b) =~= seq!['"'] + escaped(a) + escaped(one) + escaped(b) + seq![
        '"',
    ]);
}

proof fn lemma_escaped_adds(a: Seq<char>, b: Seq<char>)
    ensures
        escaped(a + b) == escaped(a) + escaped(b),
    decreases b.len(),
{
    if b.len() == 0 {
        assert(a + b =~= a);
        assert(escaped(a) + escaped(b) =~= escaped(a));
    } else {
        lemma_escaped_adds(a, b.drop_last());
        assert((a + b).drop_last() =~= a + b.drop_last());
        assert(escaped(a + b) =~= escaped(a) + escaped(b));
    }
}

/// The byte is the hexadecimal digit of this value, a small letter or a capital.
pub open spec fn writes(digit: u8, value: u8) -> bool {
    value < 16 && (digit as char == "0123456789abcdef"@[value as int] || digit as char
        == "0123456789ABCDEF"@[value as int])
}

/// A percent sign and two hexadecimal digits stand for the byte that they name.
pub proof fn lemma_percent_signs(high: u8, low: u8, x: u8, y: u8, rest: Seq<u8>)
    requires
        writes(high, x),
        writes(low, y),
    ensures
        decoded(seq![37u8, high, low] + rest) == seq![(16 * x + y) as u8 as char] + decoded(rest),
{
    reveal_strlit("0123456789abcdef");
    reveal_strlit("0123456789ABCDEF");
    assert(hex_value(high) == Some(x));
    assert(hex_value(low) == Some(y));
    let all = seq![37u8, high, low] + rest;
    assert(all.skip(3) =~= rest);
}

} // verus!
