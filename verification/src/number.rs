//! Numbers as text.

use vstd::prelude::*;

verus! {

// ── writing ─────────────────────────────────────────────────────────

/// The character of a digit below sixteen, letters in lower case.
pub open spec fn digit_char(d: nat) -> char {
    if d < 10 {
        (d + 48) as char
    } else {
        (d + 87) as char
    }
}

/// The digits of `n` to the base `base`, the most significant one first.
pub open spec fn digits_in(n: nat, base: nat) -> Seq<char>
    decreases n,
{
    if base < 2 || n < base {
        seq![digit_char(n)]
    } else {
        proof {
            assert(n / base < n) by (nonlinear_arith)
                requires
                    n >= base,
                    base >= 2,
            ;
        }
        digits_in(n / base, base).push(digit_char(n % base))
    }
}

/// `n` in decimal notation.
pub open spec fn decimal_of(n: nat) -> Seq<char> {
    digits_in(n, 10)
}

/// `n` in hexadecimal notation.
pub open spec fn hex_of(n: nat) -> Seq<char> {
    digits_in(n, 16)
}

fn digit(d: u64) -> (r: char)
    requires
        d < 16,
    ensures
        r == digit_char(d as nat),
{
    if d < 10 {
        (d as u8 + 48) as char
    } else {
        (d as u8 + 87) as char
    }
}

fn digits(n: u64, base: u64) -> (r: String)
    requires
        2 <= base <= 16,
    ensures
        r@ == digits_in(n as nat, base as nat),
    decreases n,
{
    if n < base {
        let mut out = String::new();
        out.push(digit(n));
        assert(out@ =~= seq![digit_char(n as nat)]);
        out
    } else {
        assert(n / base < n) by (nonlinear_arith)
            requires
                n >= base,
                base >= 2,
        ;
        assert(n % base < base) by (nonlinear_arith)
            requires
                base >= 2,
        ;
        let mut out = digits(n / base, base);
        out.push(digit(n % base));
        out
    }
}

/// Write `n` in decimal notation.
pub fn decimal(n: u64) -> (r: String)
    ensures
        r@ == decimal_of(n as nat),
{
    digits(n, 10)
}

/// Write a count in decimal notation.
pub fn count(n: usize) -> (r: String)
    ensures
        r@ == decimal_of(n as nat),
{
    digits(n as u64, 10)
}

/// Write `n` in hexadecimal notation.
pub fn hex(n: u64) -> (r: String)
    ensures
        r@ == hex_of(n as nat),
{
    digits(n, 16)
}

/// `s` with `0`s before it up to `width` characters.
pub open spec fn zero_padded(s: Seq<char>, width: nat) -> Seq<char>
    decreases width - s.len(),
{
    if s.len() >= width {
        s
    } else {
        zero_padded(seq!['0'] + s, width)
    }
}

/// Write `n` in hexadecimal notation with at least `width` digits.
pub fn padded_hex(n: u64, width: usize) -> (r: String)
    ensures
        r@ == zero_padded(hex_of(n as nat), width as nat),
{
    let mut out = hex(n);
    let mut len = crate::text::chars_of(out.as_str()).len();
    while len < width
        invariant
            len == out@.len(),
            zero_padded(out@, width as nat) == zero_padded(hex_of(n as nat), width as nat),
        decreases width - len,
    {
        let mut longer = String::new();
        longer.push('0');
        longer.append(out.as_str());
        assert(longer@ =~= seq!['0'] + out@);
        out = longer;
        len += 1;
    }
    out
}

// ── reading ─────────────────────────────────────────────────────────

/// Whether `c` is a decimal digit.
pub open spec fn is_digit(c: char) -> bool {
    '0' <= c <= '9'
}

/// The number that a run of decimal digits stands for.
pub open spec fn digits_value(s: Seq<char>) -> nat
    decreases s.len(),
{
    if s.len() == 0 {
        0
    } else {
        (digits_value(s.drop_last()) * 10 + (s.last() as int - 48)) as nat
    }
}

/// The digits of an unsigned number: what stands behind an optional plus.
pub open spec fn unsigned_digits(s: Seq<char>) -> Seq<char> {
    if s.len() > 0 && s[0] == '+' {
        s.drop_first()
    } else {
        s
    }
}

/// The unsigned number up to `max` that `s` stands for: an optional plus and
/// one decimal digit or more, and nothing else.
pub open spec fn unsigned_of(s: Seq<char>, max: nat) -> Option<nat> {
    let digits = unsigned_digits(s);
    if digits.len() > 0 && (forall|i: int| 0 <= i < digits.len() ==> is_digit(#[trigger] digits[i]))
        && digits_value(digits) <= max {
        Some(digits_value(digits))
    } else {
        None
    }
}

proof fn lemma_digits_value_grows(s: Seq<char>, n: int)
    requires
        0 <= n <= s.len(),
        forall|i: int| 0 <= i < s.len() ==> is_digit(#[trigger] s[i]),
    ensures
        digits_value(s.take(n)) <= digits_value(s),
    decreases s.len() - n,
{
    if n == s.len() {
        assert(s.take(n) =~= s);
    } else {
        lemma_digits_value_grows(s, n + 1);
        assert(s.take(n + 1).drop_last() =~= s.take(n));
        assert(is_digit(s.take(n + 1).last()));
    }
}

/// Read the unsigned number up to `max` that `s` stands for.
pub fn parse_unsigned(s: &[char], max: u64) -> (r: Option<u64>)
    ensures
        match r {
            Some(n) => unsigned_of(s@, max as nat) == Some(n as nat),
            None => unsigned_of(s@, max as nat) is None,
        },
{
    let ds: &[char] = if s.len() > 0 && s[0] == '+' {
        &s[1..s.len()]
    } else {
        s
    };
    assert(ds@ =~= unsigned_digits(s@));
    if ds.len() == 0 {
        return None;
    }
    let mut value: u64 = 0;
    for i in 0..ds.len()
        invariant
            ds@ == unsigned_digits(s@),
            ds@.len() > 0,
            forall|j: int| 0 <= j < i ==> is_digit(#[trigger] ds@[j]),
            value == digits_value(ds@.take(i as int)),
            value <= max,
    {
        let c = ds[i];
        if c < '0' || c > '9' {
            return None;
        }
        let d = c as u32 as u64 - 48;
        assert(ds@.take(i + 1).drop_last() =~= ds@.take(i as int));
        assert(digits_value(ds@.take(i + 1)) == value * 10 + d);
        if d > max || value > (max - d) / 10 {
            assert(digits_value(ds@.take(i + 1)) > max) by (nonlinear_arith)
                requires
                    digits_value(ds@.take(i + 1)) == value * 10 + d,
                    d > max || value > (max - d) / 10,
            ;
            proof {
                if forall|j: int| 0 <= j < ds@.len() ==> is_digit(#[trigger] ds@[j]) {
                    lemma_digits_value_grows(ds@, i + 1);
                }
            }
            return None;
        }
        value = value * 10 + d;
    }
    assert(ds@.take(ds@.len() as int) =~= ds@);
    Some(value)
}

// ── writing and reading ─────────────────────────────────────────────

/// Decimal notation consists of decimal digits, at least one.
pub proof fn lemma_decimal_digits(n: nat)
    ensures
        decimal_of(n).len() > 0,
        forall|i: int| 0 <= i < decimal_of(n).len() ==> is_digit(#[trigger] decimal_of(n)[i]),
    decreases n,
{
    if n >= 10 {
        lemma_decimal_digits(n / 10);
    }
}

/// A number that is written in decimal notation is read back.
pub proof fn lemma_decimal_is_read_back(n: nat, max: nat)
    requires
        n <= max,
    ensures
        unsigned_of(decimal_of(n), max) == Some(n),
{
    lemma_decimal_digits(n);
    lemma_decimal_value(n);
    assert(decimal_of(n)[0] != '+');
}

proof fn lemma_decimal_value(n: nat)
    ensures
        digits_value(decimal_of(n)) == n,
    decreases n,
{
    if n >= 10 {
        lemma_decimal_value(n / 10);
        assert(decimal_of(n).drop_last() =~= decimal_of(n / 10));
        assert(decimal_of(n).last() == digit_char(n % 10));
        assert(digit_char(n % 10) as int == n % 10 + 48);
    } else {
        assert(decimal_of(n).drop_last() =~= Seq::empty());
        assert(decimal_of(n).last() == digit_char(n));
        assert(digit_char(n) as int == n + 48);
        assert(digits_value(decimal_of(n).drop_last()) == 0);
    }
}

} // verus!
