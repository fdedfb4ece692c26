//! Texts: cutting, trimming, joining and changing case.

use vstd::prelude::*;

use crate::letters::ascii_lowered;
use crate::number::decimal_of;
use crate::order::text_less;
use crate::pieces::{
    head_piece, joined, last_piece, lemma_lines_are_read_back, lemma_split_on_nonempty,
    lemma_split_where_extend, lines_of, nonempty, replaced, split_on, split_where, with_newlines,
    without_cr, words_of,
};
use crate::text::{
    behind_last, drop_back, drop_front, first_index, is_white_space, just, last_index,
    lemma_first_index, lemma_last_index, occurs, occurs_at, prefix_stripped, suffix_stripped,
    trimmed, without_leading, without_trailing,
};

verus! {

/// The text does not hold the character.
pub open spec fn lacks(s: Seq<char>, c: char) -> bool {
    forall|i: int| 0 <= i < s.len() ==> #[trigger] s[i] != c
}

/// The text holds neither line feeds nor blanks nor any other white space.
pub open spec fn solid(s: Seq<char>) -> bool {
    forall|i: int| 0 <= i < s.len() ==> !is_white_space(#[trigger] s[i])
}

/// The text holds nothing but white space.
pub open spec fn blank(s: Seq<char>) -> bool {
    forall|i: int| 0 <= i < s.len() ==> is_white_space(#[trigger] s[i])
}

/// The text neither begins nor ends with white space.
pub open spec fn tight(s: Seq<char>) -> bool {
    s.len() > 0 ==> !is_white_space(s[0]) && !is_white_space(s.last())
}

// ── finding ─────────────────────────────────────────────────────────

/// The first place of a character is behind a beginning that lacks it.
pub proof fn lemma_first_place(a: Seq<char>, c: char, b: Seq<char>)
    requires
        lacks(a, c),
    ensures
        first_index(a + seq![c] + b, c) == Some(a.len() as int),
{
    let s = a + seq![c] + b;
    lemma_first_index(s, c);
    assert(s[a.len() as int] == c);
    assert(s.contains(c));
    let i = first_index(s, c)->0;
    if i < a.len() {
        assert(s[i] == a[i]);
    }
}

/// The last place of a character is before an end that lacks it.
pub proof fn lemma_last_place(a: Seq<char>, c: char, b: Seq<char>)
    requires
        lacks(b, c),
    ensures
        last_index(a + seq![c] + b, c) == Some(a.len() as int),
{
    let s = a + seq![c] + b;
    lemma_last_index(s, c);
    assert(s[a.len() as int] == c);
    assert(s.contains(c));
    let i = last_index(s, c)->0;
    if i > a.len() {
        assert(s[i] == b[i - a.len() - 1]);
    }
}

/// A text that lacks a character has no place of it.
pub proof fn lemma_no_place(s: Seq<char>, c: char)
    requires
        lacks(s, c),
    ensures
        first_index(s, c) is None,
        last_index(s, c) is None,
{
    lemma_first_index(s, c);
    lemma_last_index(s, c);
}

/// A prefix is taken off exactly where the text begins with it.
pub proof fn lemma_prefix_is_taken_off(prefix: Seq<char>, rest: Seq<char>, s: Seq<char>)
    ensures
        prefix_stripped(prefix + rest, prefix) == Some(rest),
        prefix_stripped(s, prefix) matches Some(t) ==> s == prefix + t,
{
    assert((prefix + rest).subrange(0, prefix.len() as int) =~= prefix);
    assert((prefix + rest).skip(prefix.len() as int) =~= rest);
    if let Some(t) = prefix_stripped(s, prefix) {
        assert(s =~= prefix + t);
    }
}

/// A suffix is taken off exactly where the text ends with it.
pub proof fn lemma_suffix_is_taken_off(suffix: Seq<char>, rest: Seq<char>, s: Seq<char>)
    ensures
        suffix_stripped(rest + suffix, suffix) == Some(rest),
        suffix_stripped(s, suffix) matches Some(t) ==> s == t + suffix,
{
    let all = rest + suffix;
    assert(all.subrange(all.len() - suffix.len(), all.len() as int) =~= suffix);
    assert(all.take(rest.len() as int) =~= rest);
    if let Some(t) = suffix_stripped(s, suffix) {
        assert(s =~= t + suffix);
    }
}

/// A text occurs in whatever is put around it.
pub proof fn lemma_occurs_inside(a: Seq<char>, needle: Seq<char>, b: Seq<char>)
    ensures
        occurs(a + needle + b, needle),
{
    let s = a + needle + b;
    assert(s.subrange(a.len() as int, (a.len() + needle.len()) as int) =~= needle);
    assert(occurs_at(s, needle, a.len() as int));
}

/// A text that occurs has something before it and something behind it.
pub proof fn lemma_occurrence_splits(s: Seq<char>, needle: Seq<char>)
    requires
        occurs(s, needle),
    ensures
        exists|a: Seq<char>, b: Seq<char>| s == #[trigger] (a + needle + b),
{
    let i = choose|i: int| occurs_at(s, needle, i);
    let a = s.take(i);
    let b = s.skip(i + needle.len());
    assert(s =~= a + needle + b);
}

/// A text without the first character of another does not hold it.
pub proof fn lemma_does_not_occur(s: Seq<char>, needle: Seq<char>)
    requires
        needle.len() > 0,
        lacks(s, needle[0]),
    ensures
        !occurs(s, needle),
        behind_last(s, needle) is None,
    decreases s.len(),
{
    if occurs(s, needle) {
        let i = choose|i: int| occurs_at(s, needle, i);
        assert(s.subrange(i, i + needle.len())[0] == s[i]);
    }
    if needle.is_suffix_of(s) {
        let at = s.len() - needle.len();
        assert(s.subrange(at, s.len() as int)[0] == s[at]);
    }
    if s.len() > 0 {
        assert(lacks(s.drop_last(), needle[0]));
        lemma_does_not_occur(s.drop_last(), needle);
    }
}

// ── pieces ──────────────────────────────────────────────────────────

/// A text that lacks the separator is one piece.
pub proof fn lemma_one_piece(s: Seq<char>, c: char)
    requires
        lacks(s, c),
    ensures
        split_on(s, c) == seq![s],
        last_piece(s, c) == s,
        head_piece(s, c) == s,
{
    lemma_split_where_extend(Seq::empty(), s, just(c));
    assert(Seq::empty() + s =~= s);
    assert(split_on(s, c) =~= seq![s]);
}

/// Two pieces of text with a separator between them are cut there.
pub proof fn lemma_pieces_of_two(a: Seq<char>, c: char, b: Seq<char>)
    ensures
        split_on(a + seq![c] + b, c) == split_on(a, c) + split_on(b, c),
        last_piece(a + seq![c] + b, c) == last_piece(b, c),
        head_piece(a + seq![c] + b, c) == head_piece(a, c),
    decreases b.len(),
{
    let s = a + seq![c] + b;
    lemma_split_on_nonempty(a, c);
    lemma_split_on_nonempty(b, c);
    if b.len() == 0 {
        assert(s.drop_last() =~= a);
        assert(s.last() == c);
        assert(split_on(b, c) =~= seq![Seq::<char>::empty()]);
        assert(split_on(s, c) =~= split_on(a, c) + split_on(b, c));
    } else {
        lemma_pieces_of_two(a, c, b.drop_last());
        lemma_split_on_nonempty(b.drop_last(), c);
        assert(s.drop_last() =~= a + seq![c] + b.drop_last());
        assert(s.last() == b.last());
        assert(split_on(s, c) =~= split_on(a, c) + split_on(b, c));
    }
    assert((split_on(a, c) + split_on(b, c)).last() == split_on(b, c).last());
}

/// The piece behind the last separator, and the piece before the first.
pub proof fn lemma_end_pieces(a: Seq<char>, c: char, b: Seq<char>)
    ensures
        lacks(b, c) ==> last_piece(a + seq![c] + b, c) == b,
        lacks(a, c) ==> head_piece(a + seq![c] + b, c) == a,
{
    lemma_pieces_of_two(a, c, b);
    if lacks(b, c) {
        lemma_one_piece(b, c);
    }
    if lacks(a, c) {
        lemma_one_piece(a, c);
    }
}

/// The pieces put together again, with the separator between them, are the
/// text.
pub proof fn lemma_pieces_are_put_together(s: Seq<char>, c: char)
    ensures
        joined(split_on(s, c), seq![c]) == s,
    decreases s.len(),
{
    lemma_split_on_nonempty(s, c);
    if s.len() == 0 {
        assert(joined(split_on(s, c), seq![c]) =~= s);
    } else {
        let front = s.drop_last();
        lemma_pieces_are_put_together(front, c);
        lemma_split_on_nonempty(front, c);
        let before = split_on(front, c);
        let after = split_on(s, c);
        if s.last() == c {
            assert(after.drop_last() =~= before);
            assert(joined(after, seq![c]) =~= s);
        } else {
            assert(after.drop_last() =~= before.drop_last());
            assert(after.last() =~= before.last().push(s.last()));
            assert(s =~= front.push(s.last()));
            if before.len() == 1 {
                assert(joined(before, seq![c]) == before[0]);
                assert(joined(after, seq![c]) == after[0]);
            }
            assert(joined(after, seq![c]) =~= s);
        }
    }
}

/// A text without white space is one word.
pub proof fn lemma_single_word(s: Seq<char>)
    requires
        solid(s),
        s.len() > 0,
    ensures
        words_of(s) == seq![s],
{
    let cut = |c: char| is_white_space(c);
    lemma_split_where_extend(Seq::empty(), s, cut);
    assert(Seq::empty() + s =~= s);
    let pieces = split_where(s, cut);
    let none: Seq<Seq<char>> = Seq::empty();
    assert(pieces =~= none.push(s));
    none.lemma_filter_push(s, |p: Seq<char>| p.len() > 0);
    assert(none.filter(|p: Seq<char>| p.len() > 0) =~= none) by {
        reveal(Seq::filter);
    }
    assert(nonempty(pieces) =~= seq![s]);
}

/// Joining texts is joining their parts with the separator between these, and
/// one text is joined to itself.
pub proof fn lemma_joined_parts(a: Seq<Seq<char>>, b: Seq<Seq<char>>, sep: Seq<char>)
    requires
        a.len() > 0,
        b.len() > 0,
    ensures
        joined(a + b, sep) == joined(a, sep) + sep + joined(b, sep),
        joined(seq![a[0]], sep) == a[0],
    decreases b.len(),
{
    let all = a + b;
    assert(all.drop_last() =~= a + b.drop_last());
    if b.len() == 1 {
        assert(all.drop_last() =~= a);
    } else {
        lemma_joined_parts(a, b.drop_last(), sep);
    }
    assert(joined(all, sep) =~= joined(a, sep) + sep + joined(b, sep));
}

// ── trimming ────────────────────────────────────────────────────────

proof fn lemma_front_dropped(a: Seq<char>, s: Seq<char>, drop: spec_fn(char) -> bool)
    requires
        forall|i: int| 0 <= i < a.len() ==> drop(#[trigger] a[i]),
        s.len() > 0 ==> !drop(s[0]),
    ensures
        drop_front(a + s, drop) == s,
    decreases a.len(),
{
    if a.len() == 0 {
        assert(a + s =~= s);
    } else {
        assert(drop(a[0]));
        assert((a + s).drop_first() =~= a.drop_first() + s);
        lemma_front_dropped(a.drop_first(), s, drop);
    }
}

proof fn lemma_back_dropped(s: Seq<char>, b: Seq<char>, drop: spec_fn(char) -> bool)
    requires
        forall|i: int| 0 <= i < b.len() ==> drop(#[trigger] b[i]),
        s.len() > 0 ==> !drop(s.last()),
    ensures
        drop_back(s + b, drop) == s,
    decreases b.len(),
{
    if b.len() == 0 {
        assert(s + b =~= s);
    } else {
        assert(drop(b[b.len() - 1]));
        assert((s + b).drop_last() =~= s + b.drop_last());
        lemma_back_dropped(s, b.drop_last(), drop);
    }
}

/// Trimming takes off the white space around a text and nothing else.
pub proof fn lemma_trimmed(a: Seq<char>, s: Seq<char>, b: Seq<char>)
    requires
        blank(a),
        blank(b),
        tight(s),
    ensures
        trimmed(a + s + b) == s,
        trimmed(s) == s,
{
    let ws = |c: char| is_white_space(c);
    let none: Seq<char> = Seq::empty();
    if s.len() == 0 {
        let all = a + s + b;
        assert(all + none =~= all);
        assert forall|i: int| 0 <= i < all.len() implies ws(#[trigger] all[i]) by {
            if i < a.len() {
                assert(all[i] == a[i]);
            } else {
                assert(all[i] == b[i - a.len()]);
            }
        }
        lemma_front_dropped(all, none, ws);
        lemma_back_dropped(none, none, ws);
        assert(none + none =~= none);
        assert(s =~= none);
    } else {
        assert(a + s + b =~= a + (s + b));
        lemma_front_dropped(a, s + b, ws);
        lemma_back_dropped(s, b, ws);
        lemma_front_dropped(none, s, ws);
        lemma_back_dropped(s, none, ws);
        assert(none + s =~= s);
        assert(s + none =~= s);
    }
}

/// Leading and trailing characters of one kind are taken off, and no others.
pub proof fn lemma_edges_taken_off(a: Seq<char>, s: Seq<char>, b: Seq<char>, c: char)
    requires
        forall|i: int| 0 <= i < a.len() ==> #[trigger] a[i] == c,
        forall|i: int| 0 <= i < b.len() ==> #[trigger] b[i] == c,
        s.len() > 0 ==> s[0] != c && s.last() != c,
    ensures
        without_leading(a + s, c) == s,
        without_trailing(s + b, c) == s,
{
    lemma_front_dropped(a, s, just(c));
    lemma_back_dropped(s, b, just(c));
}

// ── letter case ─────────────────────────────────────────────────────

/// Lower case keeps the length and every character but the capital letters of
/// ASCII, does nothing a second time, and goes part by part.
pub proof fn lemma_lower_case(a: Seq<char>, b: Seq<char>)
    ensures
        ascii_lowered(a).len() == a.len(),
        forall|i: int|
            0 <= i < a.len() ==> if 'A' <= #[trigger] a[i] <= 'Z' {
                ascii_lowered(a)[i] as u32 == a[i] as u32 + 32
            } else {
                ascii_lowered(a)[i] == a[i]
            },
        ascii_lowered(ascii_lowered(a)) == ascii_lowered(a),
        ascii_lowered(a + b) == ascii_lowered(a) + ascii_lowered(b),
{
    assert(ascii_lowered(ascii_lowered(a)) =~= ascii_lowered(a));
    assert(ascii_lowered(a + b) =~= ascii_lowered(a) + ascii_lowered(b));
}

// ── replacing ───────────────────────────────────────────────────────

/// What is searched for is replaced where it stands, and a beginning that lacks
/// its first character stays as it is.
pub proof fn lemma_replaced(a: Seq<char>, from: Seq<char>, rest: Seq<char>, to: Seq<char>)
    requires
        from.len() > 0,
        lacks(a, from[0]),
    ensures
        replaced(a + from + rest, from, to) == a + to + replaced(rest, from, to),
        replaced(a, from, to) == a,
    decreases a.len(),
{
    let s = a + from + rest;
    if a.len() == 0 {
        assert(s =~= from + rest);
        assert(s.subrange(0, from.len() as int) =~= from);
        assert(s.skip(from.len() as int) =~= rest);
        assert(replaced(s, from, to) =~= a + to + replaced(rest, from, to));
    } else {
        let tail = a.drop_first();
        assert(lacks(tail, from[0])) by {
            assert forall|i: int| 0 <= i < tail.len() implies #[trigger] tail[i] != from[0] by {
                assert(tail[i] == a[i + 1]);
            }
        }
        lemma_replaced(tail, from, rest, to);
        assert(a[0] != from[0]);
        if from.is_prefix_of(s) {
            assert(s.subrange(0, from.len() as int)[0] == s[0]);
        }
        if from.is_prefix_of(a) {
            assert(a.subrange(0, from.len() as int)[0] == a[0]);
        }
        assert(s.drop_first() =~= tail + from + rest);
        assert(replaced(s, from, to) =~= a + to + replaced(rest, from, to));
        assert(replaced(a, from, to) =~= a);
    }
}

// ── parts of a text ─────────────────────────────────────────────────

/// What stands in a part of a text stands in the text.
pub proof fn lemma_occurs_in_part(a: Seq<char>, part: Seq<char>, b: Seq<char>, needle: Seq<char>)
    requires
        occurs(part, needle),
    ensures
        occurs(a + part + b, needle),
        occurs(a + part, needle),
        occurs(part + b, needle),
{
    lemma_occurrence_splits(part, needle);
    let (x, y) = choose|x: Seq<char>, y: Seq<char>| part == #[trigger] (x + needle + y);
    assert(a + part + b =~= (a + x) + needle + (y + b));
    assert(a + part =~= (a + x) + needle + y);
    assert(part + b =~= x + needle + (y + b));
    lemma_occurs_inside(a + x, needle, y + b);
    lemma_occurs_inside(a + x, needle, y);
    lemma_occurs_inside(x, needle, y + b);
}

/// A text occurs in itself.
pub proof fn lemma_occurs_in_itself(s: Seq<char>)
    ensures
        occurs(s, s),
{
    let none: Seq<char> = Seq::empty();
    lemma_occurs_inside(none, s, none);
    assert(none + s + none =~= s);
}

proof fn lemma_split_where_two(a: Seq<char>, c: char, b: Seq<char>, cut: spec_fn(char) -> bool)
    requires
        cut(c),
    ensures
        split_where(a + seq![c] + b, cut) == split_where(a, cut) + split_where(b, cut),
    decreases b.len(),
{
    let s = a + seq![c] + b;
    crate::pieces::lemma_split_where_nonempty(a, cut);
    crate::pieces::lemma_split_where_nonempty(b, cut);
    if b.len() == 0 {
        assert(s.drop_last() =~= a);
        assert(s.last() == c);
        assert(split_where(b, cut) =~= seq![Seq::<char>::empty()]);
        assert(split_where(s, cut) =~= split_where(a, cut) + split_where(b, cut));
    } else {
        lemma_split_where_two(a, c, b.drop_last(), cut);
        crate::pieces::lemma_split_where_nonempty(b.drop_last(), cut);
        assert(s.drop_last() =~= a + seq![c] + b.drop_last());
        assert(s.last() == b.last());
        assert(split_where(s, cut) =~= split_where(a, cut) + split_where(b, cut));
    }
}

/// Filtering goes part by part.
pub proof fn lemma_filter_parts<A>(a: Seq<A>, b: Seq<A>, keep: spec_fn(A) -> bool)
    ensures
        (a + b).filter(keep) == a.filter(keep) + b.filter(keep),
    decreases b.len(),
{
    if b.len() == 0 {
        assert(a + b =~= a);
        assert(b.filter(keep) =~= Seq::empty()) by {
            reveal(Seq::filter);
        }
        assert(a.filter(keep) + b.filter(keep) =~= a.filter(keep));
    } else {
        let front = b.drop_last();
        let x = b.last();
        lemma_filter_parts(a, front, keep);
        assert(b =~= front.push(x));
        assert(a + b =~= (a + front).push(x));
        front.lemma_filter_push(x, keep);
        (a + front).lemma_filter_push(x, keep);
        assert((a + b).filter(keep) =~= a.filter(keep) + b.filter(keep));
    }
}

/// The words of two texts with white space between them are the words of both.
pub proof fn lemma_words_of_two(a: Seq<char>, gap: char, b: Seq<char>)
    requires
        is_white_space(gap),
    ensures
        words_of(a + seq![gap] + b) == words_of(a) + words_of(b),
{
    let cut = |c: char| is_white_space(c);
    lemma_split_where_two(a, gap, b, cut);
    lemma_filter_parts(split_where(a, cut), split_where(b, cut), |p: Seq<char>| p.len() > 0);
}

/// A text that begins with a line and a line feed has that line first.
pub proof fn lemma_first_line(line: Seq<char>, rest: Seq<char>)
    requires
        lacks(line, '\n'),
    ensures
        lines_of(line + seq!['\n'] + rest).len() > 0,
        lines_of(line + seq!['\n'] + rest)[0] == without_cr(line),
{
    let head = line + seq!['\n'];
    lemma_one_piece(line, '\n');
    lemma_pieces_of_two(line, '\n', rest);
    lemma_split_on_nonempty(rest, '\n');
    let pieces = split_on(head + rest, '\n');
    assert(pieces =~= seq![line] + split_on(rest, '\n'));
    assert(pieces.drop_last()[0] == line);
}

/// Lines that are written with line feeds behind them are read back, where none
/// of them ends in a carriage return.
pub proof fn lemma_plain_lines_are_read_back(items: Seq<Seq<char>>)
    requires
        forall|i: int| 0 <= i < items.len() ==> lacks(#[trigger] items[i], '\n') && lacks(
            items[i],
            '\r',
        ),
    ensures
        lines_of(with_newlines(items)) == items,
{
    assert forall|i: int, j: int| 0 <= i < items.len() && 0 <= j < items[i].len() implies #[trigger] items[i][j]
        != '\n' by {
        assert(lacks(items[i], '\n'));
    }
    lemma_lines_are_read_back(items);
    assert forall|i: int| 0 <= i < items.len() implies without_cr(items[i]) == items[i] by {
        let line = items[i];
        assert(lacks(items[i], '\r'));
        if line.len() > 0 {
            assert(line[line.len() - 1] != '\r');
        }
    }
    assert(items.map_values(|p: Seq<char>| without_cr(p)) =~= items);
}

// ── numbers and order ───────────────────────────────────────────────

/// Decimal notation puts the last digit behind the notation of the rest.
pub proof fn lemma_decimal_notation(n: nat, d: nat)
    requires
        d < 10,
    ensures
        n > 0 ==> decimal_of(10 * n + d) == decimal_of(n).push((48 + d) as u8 as char),
        decimal_of(d) == seq![(48 + d) as u8 as char],
{
    assert((10 * n + d) / 10 == n && (10 * n + d) % 10 == d) by (nonlinear_arith)
        requires
            d < 10,
    ;
    assert(decimal_of(d) =~= seq![(48 + d) as u8 as char]);
    if n > 0 {
        assert(decimal_of(10 * n + d) =~= decimal_of(n).push((48 + d) as u8 as char));
    }
}

/// Different numbers have different notations.
pub proof fn lemma_numbers_are_told_apart(m: nat, n: nat)
    requires
        decimal_of(m) == decimal_of(n),
    ensures
        m == n,
{
    crate::number::lemma_decimal_is_read_back(m, m + n);
    crate::number::lemma_decimal_is_read_back(n, m + n);
}

/// Texts are ordered by the first character in which they differ, and a text
/// comes before those that begin with it and go on.
pub proof fn lemma_text_order(
    start: Seq<char>,
    a: char,
    x: Seq<char>,
    b: char,
    y: Seq<char>,
)
    ensures
        a != b ==> (text_less(start + seq![a] + x, start + seq![b] + y) <==> a < b),
        text_less(start, start + seq![a] + x),
        !text_less(start + seq![a] + x, start),
    decreases start.len(),
{
    let s = start + seq![a] + x;
    let t = start + seq![b] + y;
    if start.len() > 0 {
        let rest = start.drop_first();
        lemma_text_order(rest, a, x, b, y);
        assert(s.drop_first() =~= rest + seq![a] + x);
        assert(t.drop_first() =~= rest + seq![b] + y);
        assert(s[0] == start[0] && t[0] == start[0]);
    } else {
        assert(s[0] == a && t[0] == b);
    }
}

} // verus!
