//! Taking texts apart and putting them together.

use vstd::prelude::*;

use crate::text::{
    chars_of, is_white_space, just, lemma_parts_push, parts, starts_with, texts, white_space,
};

verus! {

// ── splitting ───────────────────────────────────────────────────────

/// The pieces of `s` between the characters that satisfy `cut`. There is
/// always one piece more than there are cuts.
pub open spec fn split_where(s: Seq<char>, cut: spec_fn(char) -> bool) -> Seq<Seq<char>>
    decreases s.len(),
{
    if s.len() == 0 {
        seq![Seq::empty()]
    } else {
        let before = split_where(s.drop_last(), cut);
        if cut(s.last()) {
            before.push(Seq::empty())
        } else {
            before.update(before.len() - 1, before.last().push(s.last()))
        }
    }
}

/// The pieces of `s` between the `c`s.
pub open spec fn split_on(s: Seq<char>, c: char) -> Seq<Seq<char>> {
    split_where(s, just(c))
}

pub proof fn lemma_split_where_nonempty(s: Seq<char>, cut: spec_fn(char) -> bool)
    ensures
        split_where(s, cut).len() >= 1,
    decreases s.len(),
{
    if s.len() > 0 {
        lemma_split_where_nonempty(s.drop_last(), cut);
    }
}

pub broadcast proof fn lemma_split_on_nonempty(s: Seq<char>, c: char)
    ensures
        #[trigger] split_on(s, c).len() >= 1,
{
    lemma_split_where_nonempty(s, just(c));
}

/// What one character more does to the pieces.
proof fn lemma_split_on_step(s: Seq<char>, c: char, i: int)
    requires
        0 <= i < s.len(),
    ensures
        ({
            let before = split_on(s.take(i), c);
            &&& before.len() >= 1
            &&& split_on(s.take(i + 1), c) == if s[i] == c {
                before.push(Seq::empty())
            } else {
                before.update(before.len() - 1, before.last().push(s[i]))
            }
        }),
{
    lemma_split_on_nonempty(s.take(i), c);
    assert(s.take(i + 1).drop_last() =~= s.take(i));
    assert(s.take(i + 1).last() == s[i]);
}

/// Cut `s` at every `c`.
pub fn split(s: &[char], c: char) -> (r: Vec<&[char]>)
    ensures
        parts(r@) == split_on(s@, c),
        r@.len() >= 1,
{
    broadcast use lemma_parts_push;

    let mut out: Vec<&[char]> = Vec::new();
    let mut start: usize = 0;
    assert(split_on(s@.take(0), c) =~= seq![Seq::<char>::empty()]);
    assert(s@.subrange(0, 0) =~= Seq::<char>::empty());
    assert(parts(out@).push(s@.subrange(0, 0)) =~= seq![Seq::<char>::empty()]);
    for i in 0..s.len()
        invariant
            start <= i <= s@.len(),
            split_on(s@.take(i as int), c) == parts(out@).push(
                s@.subrange(start as int, i as int),
            ),
    {
        proof {
            lemma_split_on_step(s@, c, i as int);
        }
        let ghost done = parts(out@);
        let ghost open_piece = s@.subrange(start as int, i as int);
        assert(done.push(open_piece).last() == open_piece);
        if s[i] == c {
            out.push(&s[start..i]);
            start = i + 1;
            assert(s@.subrange(start as int, i + 1) =~= Seq::<char>::empty());
        } else {
            assert(s@.subrange(start as int, i + 1) =~= open_piece.push(s@[i as int]));
            assert(done.push(open_piece).update(done.len() as int, open_piece.push(s@[i as int]))
                =~= done.push(open_piece.push(s@[i as int])));
        }
    }
    assert(s@.take(s@.len() as int) =~= s@);
    out.push(&s[start..s.len()]);
    out
}

/// The first piece of `s` before any `c`.
pub open spec fn head_piece(s: Seq<char>, c: char) -> Seq<char> {
    split_on(s, c).first()
}

/// The last piece of `s` behind every `c`.
pub open spec fn last_piece(s: Seq<char>, c: char) -> Seq<char> {
    split_on(s, c).last()
}

/// Take the piece of `s` before any `c`.
pub fn first_of_split(s: &[char], c: char) -> (r: &[char])
    ensures
        r@ == head_piece(s@, c),
{
    let pieces = split(s, c);
    assert(parts(pieces@)[0] == pieces@[0]@);
    pieces[0]
}

/// Take the piece of `s` behind every `c`.
pub fn last_of_split(s: &[char], c: char) -> (r: &[char])
    ensures
        r@ == last_piece(s@, c),
{
    let pieces = split(s, c);
    assert(parts(pieces@).last() == pieces@.last()@);
    pieces[pieces.len() - 1]
}

// ── lines ───────────────────────────────────────────────────────────

/// `s` without one carriage return at its end.
pub open spec fn without_cr(s: Seq<char>) -> Seq<char> {
    if s.len() > 0 && s.last() == '\r' {
        s.drop_last()
    } else {
        s
    }
}

/// The lines of `s`. A line ends at a line feed or at the end of the text; a
/// carriage return right before the line feed is no part of the line, and no
/// empty line is counted behind the last line feed.
pub open spec fn lines_of(s: Seq<char>) -> Seq<Seq<char>> {
    let pieces = split_on(s, '\n');
    let ended = pieces.drop_last().map_values(|p: Seq<char>| without_cr(p));
    if pieces.last().len() == 0 {
        ended
    } else {
        ended.push(pieces.last())
    }
}

/// Cut `s` into its lines.
pub fn lines(s: &[char]) -> (r: Vec<&[char]>)
    ensures
        parts(r@) == lines_of(s@),
{
    broadcast use lemma_parts_push;

    let pieces = split(s, '\n');
    let ghost ended = split_on(s@, '\n').drop_last().map_values(|p: Seq<char>| without_cr(p));
    let mut out: Vec<&[char]> = Vec::new();
    for i in 0..pieces.len() - 1
        invariant
            pieces@.len() >= 1,
            parts(pieces@) == split_on(s@, '\n'),
            ended == split_on(s@, '\n').drop_last().map_values(|p: Seq<char>| without_cr(p)),
            parts(out@) == ended.take(i as int),
    {
        let piece = pieces[i];
        assert(parts(pieces@)[i as int] == piece@);
        let n = piece.len();
        if n > 0 && piece[n - 1] == '\r' {
            let kept = &piece[0..n - 1];
            assert(kept@ =~= piece@.drop_last());
            out.push(kept);
        } else {
            out.push(piece);
        }
        assert(ended.take(i + 1) =~= ended.take(i as int).push(ended[i as int]));
    }
    assert(ended.take(ended.len() as int) =~= ended);
    let last = pieces[pieces.len() - 1];
    assert(parts(pieces@).last() == last@);
    if last.len() > 0 {
        out.push(last);
    }
    out
}

// ── words ───────────────────────────────────────────────────────────

/// The non-empty ones among `pieces`, in their order.
pub open spec fn nonempty(pieces: Seq<Seq<char>>) -> Seq<Seq<char>> {
    pieces.filter(|p: Seq<char>| p.len() > 0)
}

/// The runs of characters in `s` that are no white space.
pub open spec fn words_of(s: Seq<char>) -> Seq<Seq<char>> {
    nonempty(split_where(s, |c: char| is_white_space(c)))
}

/// Cut `s` into its words.
pub fn words(s: &[char]) -> (r: Vec<&[char]>)
    ensures
        parts(r@) == words_of(s@),
{
    broadcast use lemma_parts_push;

    let ghost ws = |c: char| is_white_space(c);
    let ghost full = |p: Seq<char>| p.len() > 0;
    let mut out: Vec<&[char]> = Vec::new();
    let mut start: usize = 0;
    let ghost mut done: Seq<Seq<char>> = Seq::empty();
    assert(split_where(s@.take(0), ws) =~= seq![Seq::<char>::empty()]);
    assert(s@.subrange(0, 0) =~= Seq::<char>::empty());
    assert(done.push(s@.subrange(0, 0)) =~= seq![Seq::<char>::empty()]);
    assert(done.filter(full) =~= Seq::<Seq<char>>::empty()) by {
        reveal(Seq::filter);
    }
    for i in 0..s.len()
        invariant
            start <= i <= s@.len(),
            ws == (|c: char| is_white_space(c)),
            full == (|p: Seq<char>| p.len() > 0),
            split_where(s@.take(i as int), ws) == done.push(s@.subrange(start as int, i as int)),
            parts(out@) == done.filter(full),
    {
        let ghost piece = s@.subrange(start as int, i as int);
        proof {
            assert(s@.take(i + 1).drop_last() =~= s@.take(i as int));
            assert(s@.take(i + 1).last() == s@[i as int]);
            assert(done.push(piece).last() == piece);
            done.lemma_filter_push(piece, full);
        }
        if white_space(s[i]) {
            if start < i {
                out.push(&s[start..i]);
            }
            start = i + 1;
            proof {
                done = done.push(piece);
                assert(s@.subrange(start as int, i + 1) =~= Seq::<char>::empty());
            }
        } else {
            assert(s@.subrange(start as int, i + 1) =~= piece.push(s@[i as int]));
            assert(done.push(piece).update(done.len() as int, piece.push(s@[i as int]))
                =~= done.push(piece.push(s@[i as int])));
        }
    }
    assert(s@.take(s@.len() as int) =~= s@);
    proof {
        done.lemma_filter_push(s@.subrange(start as int, s@.len() as int), full);
    }
    if start < s.len() {
        out.push(&s[start..s.len()]);
    }
    out
}

// ── joining ─────────────────────────────────────────────────────────

/// The texts one after the other with `sep` between them.
pub open spec fn joined(items: Seq<Seq<char>>, sep: Seq<char>) -> Seq<char>
    decreases items.len(),
{
    if items.len() == 0 {
        Seq::empty()
    } else if items.len() == 1 {
        items[0]
    } else {
        joined(items.drop_last(), sep) + sep + items.last()
    }
}

/// Put the texts together with `sep` between them.
pub fn join(items: &[String], sep: &str) -> (r: String)
    ensures
        r@ == joined(texts(items@), sep@),
{
    let mut out = String::new();
    for i in 0..items.len()
        invariant
            out@ == joined(texts(items@).take(i as int), sep@),
    {
        assert(texts(items@).take(i + 1).drop_last() =~= texts(items@).take(i as int));
        assert(texts(items@).take(i + 1).last() == items@[i as int]@);
        if i > 0 {
            out.append(sep);
            out.append(items[i].as_str());
        } else {
            out = items[i].clone();
        }
    }
    assert(texts(items@).take(items@.len() as int) =~= texts(items@));
    out
}

/// Each text with a line feed behind it, one after the other.
pub open spec fn with_newlines(items: Seq<Seq<char>>) -> Seq<char>
    decreases items.len(),
{
    if items.len() == 0 {
        Seq::empty()
    } else {
        with_newlines(items.drop_last()) + items.last() + seq!['\n']
    }
}

pub proof fn lemma_with_newlines_push(items: Seq<Seq<char>>, item: Seq<char>)
    ensures
        with_newlines(items.push(item)) == with_newlines(items) + item + seq!['\n'],
{
    assert(items.push(item).drop_last() =~= items);
}

pub proof fn lemma_with_newlines_add(a: Seq<Seq<char>>, b: Seq<Seq<char>>)
    ensures
        with_newlines(a + b) == with_newlines(a) + with_newlines(b),
    decreases b.len(),
{
    if b.len() == 0 {
        assert(a + b =~= a);
        assert(with_newlines(a) + with_newlines(b) =~= with_newlines(a));
    } else {
        lemma_with_newlines_add(a, b.drop_last());
        assert((a + b).drop_last() =~= a + b.drop_last());
        assert((a + b).last() == b.last());
        assert(with_newlines(a + b) =~= with_newlines(a) + with_newlines(b));
    }
}

/// Put each text with a line feed behind it at the end of `out`.
pub fn push_lines(out: &mut String, items: &[String])
    ensures
        final(out)@ == old(out)@ + with_newlines(texts(items@)),
{
    let ghost start = out@;
    assert(start + with_newlines(texts(items@).take(0)) =~= start);
    for i in 0..items.len()
        invariant
            out@ == start + with_newlines(texts(items@).take(i as int)),
    {
        out.append(items[i].as_str());
        out.push('\n');
        assert(texts(items@).take(i + 1) =~= texts(items@).take(i as int).push(items@[i as int]@));
        proof {
            lemma_with_newlines_push(texts(items@).take(i as int), items@[i as int]@);
        }
        assert(out@ =~= start + with_newlines(texts(items@).take(i + 1)));
    }
    assert(texts(items@).take(items@.len() as int) =~= texts(items@));
}

// ── replacing ───────────────────────────────────────────────────────

/// `s` with every `from` replaced by `to`, from left to right.
pub open spec fn replaced(s: Seq<char>, from: Seq<char>, to: Seq<char>) -> Seq<char>
    recommends
        from.len() > 0,
    decreases s.len(),
{
    if s.len() == 0 || from.len() == 0 {
        s
    } else if from.is_prefix_of(s) {
        to + replaced(s.skip(from.len() as int), from, to)
    } else {
        seq![s[0]] + replaced(s.drop_first(), from, to)
    }
}

/// Replace every `from` in `s` by `to`.
pub fn replace(s: &str, from: &str, to: &str) -> (r: String)
    requires
        from@.len() > 0,
    ensures
        r@ == replaced(s@, from@, to@),
{
    let cs = chars_of(s);
    let width = chars_of(from).len();
    let mut out = String::new();
    let mut i: usize = 0;
    assert(cs@.skip(0) =~= cs@);
    assert(out@ + replaced(cs@.skip(0), from@, to@) =~= replaced(s@, from@, to@));
    while i < cs.len()
        invariant
            i <= cs@.len(),
            width == from@.len(),
            width > 0,
            out@ + replaced(cs@.skip(i as int), from@, to@) == replaced(s@, from@, to@),
        decreases cs@.len() - i,
    {
        let rest = &cs.as_slice()[i..cs.len()];
        assert(rest@ =~= cs@.skip(i as int));
        let ghost before = out@;
        if starts_with(rest, from) {
            assert(rest@.skip(width as int) =~= cs@.skip(i + width));
            out.append(to);
            assert(out@ + replaced(cs@.skip(i + width), from@, to@) =~= before + (to@ + replaced(
                cs@.skip(i + width),
                from@,
                to@,
            )));
            i += width;
        } else {
            assert(rest@.drop_first() =~= cs@.skip(i + 1));
            out.push(cs[i]);
            assert(out@ + replaced(cs@.skip(i + 1), from@, to@) =~= before + (seq![rest@[0]]
                + replaced(cs@.skip(i + 1), from@, to@)));
            i += 1;
        }
    }
    assert(cs@.skip(i as int) =~= Seq::empty());
    assert(out@ + replaced(cs@.skip(i as int), from@, to@) =~= out@);
    out
}

// ── lines put together and taken apart ──────────────────────────────

/// Characters without a cut only lengthen the last piece.
pub proof fn lemma_split_where_extend(s: Seq<char>, t: Seq<char>, cut: spec_fn(char) -> bool)
    requires
        forall|i: int| 0 <= i < t.len() ==> !cut(#[trigger] t[i]),
    ensures
        ({
            let before = split_where(s, cut);
            split_where(s + t, cut) == before.update(before.len() - 1, before.last() + t)
        }),
    decreases t.len(),
{
    lemma_split_where_nonempty(s, cut);
    let before = split_where(s, cut);
    if t.len() == 0 {
        assert(s + t =~= s);
        assert(before.last() + t =~= before.last());
        assert(before.update(before.len() - 1, before.last()) =~= before);
    } else {
        let front = t.drop_last();
        assert forall|i: int| 0 <= i < front.len() implies !cut(#[trigger] front[i]) by {
            assert(front[i] == t[i]);
        }
        lemma_split_where_extend(s, front, cut);
        assert((s + t).drop_last() =~= s + front);
        assert((s + t).last() == t.last());
        assert(t[t.len() - 1] == t.last());
        assert((before.last() + front).push(t.last()) =~= before.last() + t);
        assert(split_where(s + t, cut) =~= before.update(before.len() - 1, before.last() + t));
    }
}

/// Behind a cut, or at the start, the rest is cut by itself.
pub proof fn lemma_split_on_add(s: Seq<char>, t: Seq<char>, c: char)
    requires
        s.len() == 0 || s.last() == c,
    ensures
        split_on(s + t, c) == split_on(s, c).drop_last() + split_on(t, c),
    decreases t.len(),
{
    lemma_split_on_nonempty(s, c);
    lemma_split_on_nonempty(t, c);
    if t.len() == 0 {
        assert(s + t =~= s);
        assert(split_on(s, c).last() =~= Seq::<char>::empty());
        assert(split_on(s, c) =~= split_on(s, c).drop_last() + split_on(t, c));
    } else {
        let front = t.drop_last();
        lemma_split_on_add(s, front, c);
        lemma_split_on_nonempty(front, c);
        assert((s + t).drop_last() =~= s + front);
        assert((s + t).last() == t.last());
        assert(split_on(s + t, c) =~= split_on(s, c).drop_last() + split_on(t, c));
    }
}

/// No piece holds the character that the text was cut at.
pub proof fn lemma_split_on_holds_no_cut(s: Seq<char>, c: char)
    ensures
        forall|i: int, j: int|
            0 <= i < split_on(s, c).len() && 0 <= j < split_on(s, c)[i].len()
                ==> #[trigger] split_on(s, c)[i][j] != c,
    decreases s.len(),
{
    if s.len() > 0 {
        lemma_split_on_holds_no_cut(s.drop_last(), c);
        lemma_split_on_nonempty(s.drop_last(), c);
    }
}

/// A text with lines of its own behind a line feed has these lines too.
pub proof fn lemma_lines_of_add(s: Seq<char>, t: Seq<char>)
    requires
        s.len() == 0 || s.last() == '\n',
    ensures
        lines_of(s + t) == lines_of(s) + lines_of(t),
{
    lemma_split_on_add(s, t, '\n');
    lemma_split_on_nonempty(s, '\n');
    lemma_split_on_nonempty(t, '\n');
    assert(split_on(s, '\n').last().len() == 0);
    let a = split_on(s, '\n').drop_last();
    let b = split_on(t, '\n');
    assert((a + b).last() == b.last());
    assert((a + b).drop_last() =~= a + b.drop_last());
    assert((a + b.drop_last()).map_values(|p: Seq<char>| without_cr(p)) =~= a.map_values(
        |p: Seq<char>| without_cr(p),
    ) + b.drop_last().map_values(|p: Seq<char>| without_cr(p)));
    assert(lines_of(s + t) =~= lines_of(s) + lines_of(t));
}

/// No line holds a line feed.
pub proof fn lemma_lines_hold_no_line_feed(s: Seq<char>)
    ensures
        forall|i: int, j: int|
            0 <= i < lines_of(s).len() && 0 <= j < lines_of(s)[i].len()
                ==> #[trigger] lines_of(s)[i][j] != '\n',
{
    lemma_split_on_holds_no_cut(s, '\n');
    lemma_split_on_nonempty(s, '\n');
    let pieces = split_on(s, '\n');
    assert forall|i: int, j: int|
        0 <= i < lines_of(s).len() && 0 <= j < lines_of(s)[i].len() implies #[trigger] lines_of(
        s,
    )[i][j] != '\n' by {
        assert(lines_of(s)[i][j] == pieces[i][j]);
    }
}

/// Lines that are written one under another are read back, each without a
/// carriage return at its end.
pub proof fn lemma_lines_are_read_back(items: Seq<Seq<char>>)
    requires
        forall|i: int, j: int|
            0 <= i < items.len() && 0 <= j < items[i].len() ==> #[trigger] items[i][j] != '\n',
    ensures
        lines_of(with_newlines(items)) == items.map_values(|p: Seq<char>| without_cr(p)),
        with_newlines(items).len() == 0 || with_newlines(items).last() == '\n',
    decreases items.len(),
{
    if items.len() == 0 {
        assert(lines_of(with_newlines(items)) =~= items.map_values(|p: Seq<char>| without_cr(p)));
    } else {
        let front = items.drop_last();
        let item = items.last();
        assert(items[items.len() - 1] == item);
        assert forall|i: int, j: int|
            0 <= i < front.len() && 0 <= j < front[i].len() implies #[trigger] front[i][j] != '\n' by {
            assert(front[i][j] == items[i][j]);
        }
        lemma_lines_are_read_back(front);
        let head = with_newlines(front);
        let line = item + seq!['\n'];
        assert(with_newlines(items) =~= head + line);
        lemma_lines_of_add(head, line);
        assert forall|j: int| 0 <= j < item.len() implies !just('\n')(#[trigger] item[j]) by {
            assert(items[items.len() - 1][j] == item[j]);
        }
        lemma_split_where_extend(Seq::empty(), item, just('\n'));
        assert(Seq::empty() + item =~= item);
        assert(line.drop_last() =~= item);
        assert(split_on(line.drop_last(), '\n') =~= seq![item]);
        assert(split_on(line, '\n') =~= seq![item, Seq::empty()]);
        assert(lines_of(line) =~= seq![without_cr(item)]);
        assert(lines_of(with_newlines(items)) =~= items.map_values(
            |p: Seq<char>| without_cr(p),
        ));
    }
}

proof fn lemma_split_on_count(s: Seq<char>, c: char)
    ensures
        split_on(s, c).len() + split_on(s, c).last().len() <= s.len() + 1,
    decreases s.len(),
{
    if s.len() > 0 {
        lemma_split_on_count(s.drop_last(), c);
        lemma_split_on_nonempty(s.drop_last(), c);
    }
}

/// A text has no more lines than characters.
pub proof fn lemma_lines_are_no_more_than_characters(s: Seq<char>)
    ensures
        lines_of(s).len() <= s.len(),
{
    lemma_split_on_count(s, '\n');
    lemma_split_on_nonempty(s, '\n');
}

proof fn lemma_split_on_lacks(s: Seq<char>, c: char, absent: char)
    requires
        forall|i: int| 0 <= i < s.len() ==> #[trigger] s[i] != absent,
    ensures
        forall|i: int, j: int|
            0 <= i < split_on(s, c).len() && 0 <= j < split_on(s, c)[i].len()
                ==> #[trigger] split_on(s, c)[i][j] != absent,
    decreases s.len(),
{
    if s.len() > 0 {
        let front = s.drop_last();
        assert forall|i: int| 0 <= i < front.len() implies #[trigger] front[i] != absent by {
            assert(front[i] == s[i]);
        }
        lemma_split_on_lacks(front, c, absent);
        lemma_split_on_nonempty(front, c);
        assert(s[s.len() - 1] == s.last());
    }
}

/// The lines of a text without carriage returns end in none.
pub proof fn lemma_lines_without_carriage_returns(s: Seq<char>)
    requires
        forall|i: int| 0 <= i < s.len() ==> #[trigger] s[i] != '\r',
    ensures
        forall|i: int|
            0 <= i < lines_of(s).len() ==> without_cr(#[trigger] lines_of(s)[i]) == lines_of(s)[i],
{
    lemma_split_on_lacks(s, '\n', '\r');
    lemma_split_on_nonempty(s, '\n');
    let pieces = split_on(s, '\n');
    assert forall|i: int| 0 <= i < lines_of(s).len() implies without_cr(#[trigger] lines_of(s)[i])
        == lines_of(s)[i] by {
        let piece = pieces[i];
        if piece.len() > 0 {
            assert(pieces[i][piece.len() - 1] != '\r');
        }
        assert(lines_of(s)[i] == piece);
    }
}

} // verus!
