//! Text as sequences of characters.
//!
//! Every contract of this crate speaks of a string as the sequence of its
//! characters. The functions here work on character slices, so that a part of
//! a text is a sub-slice of it and no part is copied before it is kept.

use vstd::prelude::*;

verus! {

// ── conversion ──────────────────────────────────────────────────────

/// `String::push` appends one character at the end of the string and leaves
/// the characters before it alone.
pub assume_specification[ String::push ](s: &mut String, c: char)
    ensures
        final(s)@ == old(s)@.push(c),
;

/// The characters of each string.
pub open spec fn texts(strings: Seq<String>) -> Seq<Seq<char>> {
    strings.map_values(|s: String| s@)
}

/// The characters of each slice.
pub open spec fn parts(slices: Seq<&[char]>) -> Seq<Seq<char>> {
    slices.map_values(|s: &[char]| s@)
}

pub broadcast proof fn lemma_texts_push(strings: Seq<String>, s: String)
    ensures
        #[trigger] texts(strings.push(s)) == texts(strings).push(s@),
{
    assert(texts(strings.push(s)) =~= texts(strings).push(s@));
}

pub broadcast proof fn lemma_parts_push(slices: Seq<&[char]>, s: &[char])
    ensures
        #[trigger] parts(slices.push(s)) == parts(slices).push(s@),
{
    assert(parts(slices.push(s)) =~= parts(slices).push(s@));
}

/// The characters of `s`, one by one.
pub fn chars_of(s: &str) -> (r: Vec<char>)
    ensures
        r@ == s@,
{
    let mut out: Vec<char> = Vec::new();
    for c in it: s.chars()
        invariant
            it.seq() == s@,
            out@ == it.seq().take(it.index()),
    {
        out.push(c);
    }
    assert(out@ =~= s@);
    out
}

/// The string made of the characters `cs`.
pub fn text_of(cs: &[char]) -> (r: String)
    ensures
        r@ == cs@,
{
    let mut out = String::new();
    for i in 0..cs.len()
        invariant
            out@ == cs@.take(i as int),
    {
        out.push(cs[i]);
        assert(cs@.take(i + 1) =~= cs@.take(i as int).push(cs@[i as int]));
    }
    assert(cs@.take(cs@.len() as int) =~= cs@);
    out
}

/// The strings made of each slice.
pub fn texts_of(slices: &[&[char]]) -> (r: Vec<String>)
    ensures
        texts(r@) == parts(slices@),
{
    let mut out: Vec<String> = Vec::new();
    for i in 0..slices.len()
        invariant
            out@.len() == i,
            forall|j: int| 0 <= j < i ==> out@[j]@ == #[trigger] slices@[j]@,
    {
        out.push(text_of(slices[i]));
    }
    assert(texts(out@) =~= parts(slices@));
    out
}

/// A copy of `strings` with the same characters in every place.
pub fn copy_texts(strings: &[String]) -> (r: Vec<String>)
    ensures
        texts(r@) == texts(strings@),
        r@ == strings@,
{
    let mut out: Vec<String> = Vec::new();
    for i in 0..strings.len()
        invariant
            out@ =~= strings@.take(i as int),
    {
        out.push(strings[i].clone());
    }
    assert(out@ =~= strings@);
    out
}

// ── comparison ──────────────────────────────────────────────────────

/// Whether `s` holds exactly the characters of `literal`.
pub fn is_text(s: &[char], literal: &str) -> (r: bool)
    ensures
        r == (s@ == literal@),
{
    match strip_prefix(s, literal) {
        Some(rest) => {
            assert(literal@.len() == s@.len() ==> literal@ =~= s@);
            rest.len() == 0
        },
        None => {
            assert(s@ == literal@ ==> literal@.is_prefix_of(s@));
            false
        },
    }
}

/// Whether both slices hold the same characters.
pub fn same_chars(a: &[char], b: &[char]) -> (r: bool)
    ensures
        r == (a@ == b@),
{
    if a.len() != b.len() {
        return false;
    }
    for i in 0..a.len()
        invariant
            a@.len() == b@.len(),
            forall|j: int| 0 <= j < i ==> a@[j] == b@[j],
    {
        if a[i] != b[i] {
            return false;
        }
    }
    assert(a@ =~= b@);
    true
}

/// Whether both strings hold the same characters.
pub fn same_text(a: &str, b: &str) -> (r: bool)
    ensures
        r == (a@ == b@),
{
    let cs = chars_of(a);
    is_text(cs.as_slice(), b)
}

/// Whether `s` begins with `prefix`.
pub fn starts_with(s: &[char], prefix: &str) -> (r: bool)
    ensures
        r == prefix@.is_prefix_of(s@),
{
    match strip_prefix(s, prefix) {
        Some(_) => true,
        None => false,
    }
}

/// The rest of `s` behind `prefix`, where `s` begins with it.
pub open spec fn prefix_stripped(s: Seq<char>, prefix: Seq<char>) -> Option<Seq<char>> {
    if prefix.is_prefix_of(s) {
        Some(s.skip(prefix.len() as int))
    } else {
        None
    }
}

/// The view of an optional slice.
pub open spec fn part(s: Option<&[char]>) -> Option<Seq<char>> {
    match s {
        Some(p) => Some(p@),
        None => None,
    }
}

/// The view of an optional string.
pub open spec fn text(s: Option<String>) -> Option<Seq<char>> {
    match s {
        Some(p) => Some(p@),
        None => None,
    }
}

/// The view of an optional string slice.
pub open spec fn text_ref(s: Option<&str>) -> Option<Seq<char>> {
    match s {
        Some(p) => Some(p@),
        None => None,
    }
}

/// Take `prefix` off the front of `s`.
pub fn strip_prefix<'a>(s: &'a [char], prefix: &str) -> (r: Option<&'a [char]>)
    ensures
        part(r) == prefix_stripped(s@, prefix@),
{
    let mut k: usize = 0;
    for c in it: prefix.chars()
        invariant
            it.seq() == prefix@,
            k == it.index(),
            k <= s@.len(),
            forall|j: int| 0 <= j < k ==> prefix@[j] == s@[j],
    {
        if k >= s.len() || s[k] != c {
            assert(prefix@.is_prefix_of(s@) ==> prefix@[k as int] == s@[k as int]);
            return None;
        }
        k += 1;
    }
    assert(prefix@ =~= s@.subrange(0, prefix@.len() as int));
    let rest = &s[k..s.len()];
    assert(rest@ =~= s@.skip(prefix@.len() as int));
    Some(rest)
}

/// The part of `s` before `suffix`, where `s` ends with it.
pub open spec fn suffix_stripped(s: Seq<char>, suffix: Seq<char>) -> Option<Seq<char>> {
    if suffix.is_suffix_of(s) {
        Some(s.take(s.len() - suffix.len()))
    } else {
        None
    }
}

/// Take `suffix` off the end of `s`.
pub fn strip_suffix<'a>(s: &'a [char], suffix: &str) -> (r: Option<&'a [char]>)
    ensures
        part(r) == suffix_stripped(s@, suffix@),
{
    let tail = chars_of(suffix);
    if tail.len() > s.len() {
        return None;
    }
    let at = s.len() - tail.len();
    let end = &s[at..s.len()];
    if same_chars(end, tail.as_slice()) {
        let rest = &s[0..at];
        assert(rest@ =~= s@.take(s@.len() - suffix@.len()));
        Some(rest)
    } else {
        None
    }
}

/// Whether `s` ends with `suffix`.
pub fn ends_with(s: &[char], suffix: &str) -> (r: bool)
    ensures
        r == suffix@.is_suffix_of(s@),
{
    match strip_suffix(s, suffix) {
        Some(_) => true,
        None => false,
    }
}

// ── occurrence ──────────────────────────────────────────────────────

/// Whether `needle` stands in `s` from position `i` on.
pub open spec fn occurs_at(s: Seq<char>, needle: Seq<char>, i: int) -> bool {
    0 <= i && i + needle.len() <= s.len() && s.subrange(i, i + needle.len()) == needle
}

/// Whether `needle` stands anywhere in `s`.
pub open spec fn occurs(s: Seq<char>, needle: Seq<char>) -> bool {
    exists|i: int| occurs_at(s, needle, i)
}

/// Whether `needle` stands anywhere in `s`.
pub fn contains(s: &[char], needle: &str) -> (r: bool)
    ensures
        r == occurs(s@, needle@),
{
    let mut i: usize = 0;
    loop
        invariant
            i <= s@.len(),
            forall|j: int| 0 <= j < i ==> !#[trigger] occurs_at(s@, needle@, j),
        decreases s@.len() - i,
    {
        let rest = &s[i..s.len()];
        if starts_with(rest, needle) {
            assert(s@.subrange(i as int, i + needle@.len()) =~= rest@.subrange(
                0,
                needle@.len() as int,
            ));
            assert(occurs_at(s@, needle@, i as int));
            return true;
        }
        assert(!occurs_at(s@, needle@, i as int)) by {
            if occurs_at(s@, needle@, i as int) {
                assert(rest@.subrange(0, needle@.len() as int) =~= s@.subrange(
                    i as int,
                    i + needle@.len(),
                ));
                assert(needle@.is_prefix_of(rest@));
            }
        }
        if i == s.len() {
            assert forall|j: int| !occurs_at(s@, needle@, j) by {}
            return false;
        }
        i += 1;
    }
}

/// Where `c` stands first in `s`.
pub open spec fn first_index(s: Seq<char>, c: char) -> Option<int>
    decreases s.len(),
{
    if s.len() == 0 {
        None
    } else if s[0] == c {
        Some(0)
    } else {
        match first_index(s.drop_first(), c) {
            Some(i) => Some(i + 1),
            None => None,
        }
    }
}

/// `first_index` names the least position that holds `c`.
pub proof fn lemma_first_index(s: Seq<char>, c: char)
    ensures
        match first_index(s, c) {
            Some(i) => 0 <= i < s.len() && s[i] == c && forall|j: int| 0 <= j < i ==> s[j] != c,
            None => !s.contains(c),
        },
    decreases s.len(),
{
    if s.len() > 0 && s[0] != c {
        lemma_first_index(s.drop_first(), c);
        match first_index(s.drop_first(), c) {
            Some(i) => {
                assert forall|j: int| 0 <= j < i + 1 implies s[j] != c by {
                    if j > 0 {
                        assert(s.drop_first()[j - 1] == s[j]);
                    }
                }
            },
            None => {
                assert forall|j: int| 0 <= j < s.len() implies s[j] != c by {
                    if j > 0 {
                        assert(s.drop_first()[j - 1] == s[j]);
                        assert(s.drop_first().contains(s[j]));
                    }
                }
            },
        }
    }
}

/// Find the first `c` in `s`.
pub fn find(s: &[char], c: char) -> (r: Option<usize>)
    ensures
        match r {
            Some(i) => first_index(s@, c) == Some(i as int) && i < s@.len(),
            None => first_index(s@, c) is None,
        },
{
    proof {
        lemma_first_index(s@, c);
    }
    for i in 0..s.len()
        invariant
            forall|j: int| 0 <= j < i ==> s@[j] != c,
            match first_index(s@, c) {
                Some(i) => 0 <= i < s@.len() && s@[i] == c && forall|j: int|
                    0 <= j < i ==> s@[j] != c,
                None => !s@.contains(c),
            },
    {
        if s[i] == c {
            assert(s@.contains(s@[i as int]));
            return Some(i);
        }
    }
    None
}

/// Where `c` stands last in `s`.
pub open spec fn last_index(s: Seq<char>, c: char) -> Option<int>
    decreases s.len(),
{
    if s.len() == 0 {
        None
    } else if s.last() == c {
        Some(s.len() - 1)
    } else {
        last_index(s.drop_last(), c)
    }
}

/// `last_index` names the greatest position that holds `c`.
pub proof fn lemma_last_index(s: Seq<char>, c: char)
    ensures
        match last_index(s, c) {
            Some(i) => 0 <= i < s.len() && s[i] == c && forall|j: int| i < j < s.len() ==> s[j] != c,
            None => !s.contains(c),
        },
    decreases s.len(),
{
    if s.len() > 0 && s.last() != c {
        lemma_last_index(s.drop_last(), c);
        match last_index(s.drop_last(), c) {
            Some(i) => {
                assert forall|j: int| i < j < s.len() implies s[j] != c by {
                    if j < s.len() - 1 {
                        assert(s.drop_last()[j] == s[j]);
                    }
                }
            },
            None => {
                assert forall|j: int| 0 <= j < s.len() implies s[j] != c by {
                    if j < s.len() - 1 {
                        assert(s.drop_last()[j] == s[j]);
                        assert(s.drop_last().contains(s[j]));
                    }
                }
            },
        }
    }
}

/// Find the last `c` in `s`.
pub fn rfind(s: &[char], c: char) -> (r: Option<usize>)
    ensures
        match r {
            Some(i) => last_index(s@, c) == Some(i as int) && i < s@.len(),
            None => last_index(s@, c) is None,
        },
{
    let mut n: usize = s.len();
    assert(s@.take(n as int) =~= s@);
    while n > 0
        invariant
            n <= s@.len(),
            last_index(s@, c) == last_index(s@.take(n as int), c),
        decreases n,
    {
        if s[n - 1] == c {
            return Some(n - 1);
        }
        assert(s@.take(n as int).drop_last() =~= s@.take(n - 1));
        n -= 1;
    }
    None
}

/// Where `needle` stands last in `s`.
pub open spec fn last_occurrence(s: Seq<char>, needle: Seq<char>) -> Option<int>
    decreases s.len(),
{
    if needle.is_suffix_of(s) {
        Some(s.len() - needle.len())
    } else if s.len() == 0 {
        None
    } else {
        last_occurrence(s.drop_last(), needle)
    }
}

/// What stands behind the last `needle` in `s`, where there is one.
pub open spec fn behind_last(s: Seq<char>, needle: Seq<char>) -> Option<Seq<char>> {
    match last_occurrence(s, needle) {
        Some(i) => Some(s.skip(i + needle.len())),
        None => None,
    }
}

proof fn lemma_last_occurrence(before: Seq<char>, needle: Seq<char>, rest: Seq<char>)
    requires
        needle.len() > 0,
        forall|i: int| 0 < i < needle.len() ==> #[trigger] needle[i] != needle[0],
        forall|i: int| 0 <= i < rest.len() ==> #[trigger] rest[i] != needle[0],
    ensures
        last_occurrence(before + needle + rest, needle) == Some(before.len() as int),
    decreases rest.len(),
{
    let s = before + needle + rest;
    if rest.len() == 0 {
        assert(s.subrange(s.len() - needle.len(), s.len() as int) =~= needle);
    } else {
        let at = s.len() - needle.len();
        if needle.is_suffix_of(s) {
            assert(s.subrange(at, s.len() as int)[0] == needle[0]);
            assert(s[at] == needle[0]);
            let k = at - before.len();
            if k < needle.len() {
                assert(s[at] == needle[k]);
            } else {
                assert(s[at] == rest[k - needle.len()]);
            }
        }
        lemma_last_occurrence(before, needle, rest.drop_last());
        assert(s.drop_last() =~= before + needle + rest.drop_last());
    }
}

/// Behind the last `needle` stands all that follows it, where its first
/// character comes nowhere later.
pub proof fn lemma_behind_last(before: Seq<char>, needle: Seq<char>, rest: Seq<char>)
    requires
        needle.len() > 0,
        forall|i: int| 0 < i < needle.len() ==> #[trigger] needle[i] != needle[0],
        forall|i: int| 0 <= i < rest.len() ==> #[trigger] rest[i] != needle[0],
    ensures
        behind_last(before + needle + rest, needle) == Some(rest),
{
    lemma_last_occurrence(before, needle, rest);
    assert((before + needle + rest).skip((before + needle).len() as int) =~= rest);
}

/// Take what stands behind the last `needle` in `s`.
pub fn after_last<'a>(s: &'a [char], needle: &str) -> (r: Option<&'a [char]>)
    ensures
        part(r) == behind_last(s@, needle@),
{
    let mut n: usize = s.len();
    assert(s@.take(n as int) =~= s@);
    loop
        invariant
            n <= s@.len(),
            last_occurrence(s@, needle@) == last_occurrence(s@.take(n as int), needle@),
        decreases n,
    {
        let head = &s[0..n];
        assert(head@ =~= s@.take(n as int));
        if ends_with(head, needle) {
            let rest = &s[n..s.len()];
            assert(rest@ =~= s@.skip(n as int));
            return Some(rest);
        }
        if n == 0 {
            return None;
        }
        assert(s@.take(n as int).drop_last() =~= s@.take(n - 1));
        n -= 1;
    }
}

// ── white space ─────────────────────────────────────────────────────

/// The characters with the Unicode property `White_Space`.
pub open spec fn is_white_space(c: char) -> bool {
    ||| '\u{9}' <= c <= '\u{d}'
    ||| c == '\u{20}'
    ||| c == '\u{85}'
    ||| c == '\u{a0}'
    ||| c == '\u{1680}'
    ||| '\u{2000}' <= c <= '\u{200a}'
    ||| c == '\u{2028}'
    ||| c == '\u{2029}'
    ||| c == '\u{202f}'
    ||| c == '\u{205f}'
    ||| c == '\u{3000}'
}

/// Whether `c` has the Unicode property `White_Space`.
pub fn white_space(c: char) -> (r: bool)
    ensures
        r == is_white_space(c),
{
    ('\u{9}' <= c && c <= '\u{d}') || c == '\u{20}' || c == '\u{85}' || c == '\u{a0}' || c
        == '\u{1680}' || ('\u{2000}' <= c && c <= '\u{200a}') || c == '\u{2028}' || c == '\u{2029}'
        || c == '\u{202f}' || c == '\u{205f}' || c == '\u{3000}'
}

/// `s` without the leading characters that satisfy `drop`.
pub open spec fn drop_front(s: Seq<char>, drop: spec_fn(char) -> bool) -> Seq<char>
    decreases s.len(),
{
    if s.len() > 0 && drop(s[0]) {
        drop_front(s.drop_first(), drop)
    } else {
        s
    }
}

/// `s` without the trailing characters that satisfy `drop`.
pub open spec fn drop_back(s: Seq<char>, drop: spec_fn(char) -> bool) -> Seq<char>
    decreases s.len(),
{
    if s.len() > 0 && drop(s.last()) {
        drop_back(s.drop_last(), drop)
    } else {
        s
    }
}

/// `s` without white space at either end.
pub open spec fn trimmed(s: Seq<char>) -> Seq<char> {
    drop_back(drop_front(s, |c: char| is_white_space(c)), |c: char| is_white_space(c))
}

/// Take the white space off both ends of `s`.
pub fn trim(s: &[char]) -> (r: &[char])
    ensures
        r@ == trimmed(s@),
{
    let ghost ws = |c: char| is_white_space(c);
    let mut i: usize = 0;
    assert(s@.skip(0) =~= s@);
    while i < s.len() && white_space(s[i])
        invariant
            i <= s@.len(),
            ws == (|c: char| is_white_space(c)),
            drop_front(s@, ws) == drop_front(s@.skip(i as int), ws),
        decreases s@.len() - i,
    {
        assert(s@.skip(i as int).drop_first() =~= s@.skip(i + 1));
        i += 1;
    }
    let mut n: usize = s.len();
    assert(s@.subrange(i as int, n as int) =~= s@.skip(i as int));
    while n > i && white_space(s[n - 1])
        invariant
            i <= n <= s@.len(),
            ws == (|c: char| is_white_space(c)),
            drop_back(s@.skip(i as int), ws) == drop_back(s@.subrange(i as int, n as int), ws),
        decreases n,
    {
        assert(s@.subrange(i as int, n as int).drop_last() =~= s@.subrange(i as int, n - 1));
        n -= 1;
    }
    &s[i..n]
}

/// Holds of `c` alone.
pub open spec fn just(c: char) -> spec_fn(char) -> bool {
    |x: char| x == c
}

/// `s` without leading `c`s.
pub open spec fn without_leading(s: Seq<char>, c: char) -> Seq<char> {
    drop_front(s, just(c))
}

/// `s` without trailing `c`s.
pub open spec fn without_trailing(s: Seq<char>, c: char) -> Seq<char> {
    drop_back(s, just(c))
}

/// Take the `c`s off the front of `s`.
pub fn trim_leading(s: &[char], c: char) -> (r: &[char])
    ensures
        r@ == without_leading(s@, c),
{
    let mut i: usize = 0;
    assert(s@.skip(0) =~= s@);
    while i < s.len() && s[i] == c
        invariant
            i <= s@.len(),
            without_leading(s@, c) == without_leading(s@.skip(i as int), c),
        decreases s@.len() - i,
    {
        assert(s@.skip(i as int).drop_first() =~= s@.skip(i + 1));
        i += 1;
    }
    let r = &s[i..s.len()];
    assert(r@ =~= s@.skip(i as int));
    r
}

/// Take the `c`s off the end of `s`.
pub fn trim_trailing(s: &[char], c: char) -> (r: &[char])
    ensures
        r@ == without_trailing(s@, c),
{
    let mut n: usize = s.len();
    assert(s@.take(n as int) =~= s@);
    while n > 0 && s[n - 1] == c
        invariant
            n <= s@.len(),
            without_trailing(s@, c) == without_trailing(s@.take(n as int), c),
        decreases n,
    {
        assert(s@.take(n as int).drop_last() =~= s@.take(n - 1));
        n -= 1;
    }
    let r = &s[0..n];
    assert(r@ =~= s@.take(n as int));
    r
}

/// `s` is one of the listed texts.
pub open spec fn among(s: Seq<char>, names: Seq<&str>) -> bool {
    exists|i: int| 0 <= i < names.len() && (#[trigger] names[i])@ == s
}

/// Whether `s` is one of the listed texts.
pub fn is_one_of(s: &[char], names: &[&str]) -> (r: bool)
    ensures
        r == among(s@, names@),
{
    for i in 0..names.len()
        invariant
            forall|j: int| 0 <= j < i ==> (#[trigger] names@[j])@ != s@,
    {
        if is_text(s, names[i]) {
            return true;
        }
    }
    false
}

/// Dropping from the front leaves an end of the text, and one that begins with
/// no dropped character.
pub proof fn lemma_drop_front(s: Seq<char>, drop: spec_fn(char) -> bool)
    ensures
        drop_front(s, drop).len() <= s.len(),
        drop_front(s, drop) == s.skip(s.len() - drop_front(s, drop).len()),
        drop_front(s, drop).len() > 0 ==> !drop(drop_front(s, drop)[0]),
    decreases s.len(),
{
    if s.len() > 0 && drop(s[0]) {
        lemma_drop_front(s.drop_first(), drop);
        let rest = drop_front(s.drop_first(), drop);
        assert(s.drop_first().skip(s.len() - 1 - rest.len()) =~= s.skip(s.len() - rest.len()));
    } else {
        assert(s.skip(0) =~= s);
    }
}

/// Dropping from the back leaves a beginning of the text, and one that ends in
/// no dropped character.
pub proof fn lemma_drop_back(s: Seq<char>, drop: spec_fn(char) -> bool)
    ensures
        drop_back(s, drop).len() <= s.len(),
        drop_back(s, drop) == s.take(drop_back(s, drop).len() as int),
        drop_back(s, drop).len() > 0 ==> !drop(drop_back(s, drop).last()),
    decreases s.len(),
{
    if s.len() > 0 && drop(s.last()) {
        lemma_drop_back(s.drop_last(), drop);
        let rest = drop_back(s.drop_last(), drop);
        assert(s.drop_last().take(rest.len() as int) =~= s.take(rest.len() as int));
    } else {
        assert(s.take(s.len() as int) =~= s);
    }
}

} // verus!
