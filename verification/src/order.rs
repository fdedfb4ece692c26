//! Sorted lists without repetition.

use vstd::prelude::*;

use crate::text::{chars_of, same_text};

verus! {

// ── the mathematical list ───────────────────────────────────────────

/// Put `x` where it belongs in a sorted list, unless it is there already.
pub open spec fn placed<K>(sorted: Seq<K>, x: K, less: spec_fn(K, K) -> bool) -> Seq<K>
    decreases sorted.len(),
{
    if sorted.len() == 0 {
        seq![x]
    } else if sorted.last() == x {
        sorted
    } else if less(sorted.last(), x) {
        sorted.push(x)
    } else {
        placed(sorted.drop_last(), x, less).push(sorted.last())
    }
}

/// The members of `items` in increasing order, each once.
pub open spec fn sorted_set<K>(items: Seq<K>, less: spec_fn(K, K) -> bool) -> Seq<K>
    decreases items.len(),
{
    if items.len() == 0 {
        Seq::empty()
    } else {
        placed(sorted_set(items.drop_last(), less), items.last(), less)
    }
}

/// `less` is a strict order in which any two different values are ordered.
pub open spec fn strict_order<K>(less: spec_fn(K, K) -> bool) -> bool {
    &&& forall|a: K| !#[trigger] less(a, a)
    &&& forall|a: K, b: K, c: K| #[trigger] less(a, b) && #[trigger] less(b, c) ==> less(a, c)
    &&& forall|a: K, b: K| a != b ==> #[trigger] less(a, b) || less(b, a)
}

/// Every member of `s` stands before every greater one.
pub open spec fn increasing<K>(s: Seq<K>, less: spec_fn(K, K) -> bool) -> bool {
    forall|i: int, j: int| 0 <= i < j < s.len() ==> less(#[trigger] s[i], #[trigger] s[j])
}

proof fn lemma_placed<K>(sorted: Seq<K>, x: K, less: spec_fn(K, K) -> bool)
    requires
        strict_order(less),
        increasing(sorted, less),
    ensures
        increasing(placed(sorted, x, less), less),
        forall|k: K| #[trigger] placed(sorted, x, less).contains(k) <==> sorted.contains(k) || k == x,
    decreases sorted.len(),
{
    let r = placed(sorted, x, less);
    if sorted.len() == 0 {
        assert forall|k: K| #[trigger] r.contains(k) <==> sorted.contains(k) || k == x by {
            assert(r[0] == x);
        }
    } else if sorted.last() == x {
        assert forall|k: K| #[trigger] r.contains(k) <==> sorted.contains(k) || k == x by {
            assert(sorted[sorted.len() - 1] == x);
        }
    } else if less(sorted.last(), x) {
        assert forall|i: int, j: int| 0 <= i < j < r.len() implies less(
            #[trigger] r[i],
            #[trigger] r[j],
        ) by {
            if j == sorted.len() {
                if i < sorted.len() - 1 {
                    assert(less(sorted[i], sorted[sorted.len() - 1]));
                }
            }
        }
        assert forall|k: K| #[trigger] r.contains(k) <==> sorted.contains(k) || k == x by {
            assert(r[sorted.len() as int] == x);
            if sorted.contains(k) {
                let i = choose|i: int| 0 <= i < sorted.len() && sorted[i] == k;
                assert(r[i] == k);
            }
        }
    } else {
        let front = sorted.drop_last();
        let top = sorted.last();
        lemma_placed(front, x, less);
        let inner = placed(front, x, less);
        assert(less(x, top));
        assert forall|i: int, j: int| 0 <= i < j < r.len() implies less(
            #[trigger] r[i],
            #[trigger] r[j],
        ) by {
            if j == inner.len() {
                assert(inner.contains(inner[i]));
                if inner[i] != x {
                    let k = choose|k: int| 0 <= k < front.len() && front[k] == inner[i];
                    assert(less(sorted[k], sorted[sorted.len() - 1]));
                }
            } else {
                assert(less(inner[i], inner[j]));
            }
        }
        assert forall|k: K| #[trigger] r.contains(k) <==> sorted.contains(k) || k == x by {
            assert(r[inner.len() as int] == top);
            assert(sorted[sorted.len() - 1] == top);
            if r.contains(k) {
                let i = choose|i: int| 0 <= i < r.len() && r[i] == k;
                if i < inner.len() {
                    assert(inner[i] == k);
                    assert(inner.contains(k));
                    if front.contains(k) {
                        let j = choose|j: int| 0 <= j < front.len() && front[j] == k;
                        assert(sorted[j] == k);
                    }
                }
            }
            if sorted.contains(k) || k == x {
                if k != top {
                    if k != x {
                        let j = choose|j: int| 0 <= j < sorted.len() && sorted[j] == k;
                        assert(front[j] == k);
                    }
                    assert(inner.contains(k));
                    let i = choose|i: int| 0 <= i < inner.len() && inner[i] == k;
                    assert(r[i] == k);
                }
            }
        }
    }
}

/// A sorted set is increasing, so that no value occurs twice in it, and its
/// members are exactly those of the list it was made from.
pub proof fn lemma_sorted_set<K>(items: Seq<K>, less: spec_fn(K, K) -> bool)
    requires
        strict_order(less),
    ensures
        increasing(sorted_set(items, less), less),
        sorted_set(items, less).no_duplicates(),
        forall|k: K| #[trigger] sorted_set(items, less).contains(k) <==> items.contains(k),
    decreases items.len(),
{
    if items.len() > 0 {
        let front = items.drop_last();
        lemma_sorted_set(front, less);
        lemma_placed(sorted_set(front, less), items.last(), less);
        assert forall|k: K| #[trigger] sorted_set(items, less).contains(k) <==> items.contains(
            k,
        ) by {
            if front.contains(k) {
                let i = choose|i: int| 0 <= i < front.len() && front[i] == k;
                assert(items[i] == k);
            }
            if items.contains(k) {
                let i = choose|i: int| 0 <= i < items.len() && items[i] == k;
                if i < front.len() {
                    assert(front[i] == k);
                }
            }
            assert(items[items.len() - 1] == items.last());
        }
    }
    let r = sorted_set(items, less);
    assert forall|i: int, j: int| 0 <= i < r.len() && 0 <= j < r.len() && i != j implies r[i]
        != r[j] by {
        if i < j {
            assert(less(r[i], r[j]));
        } else {
            assert(less(r[j], r[i]));
        }
    }
}

pub proof fn lemma_increasing_unique<K>(a: Seq<K>, b: Seq<K>, less: spec_fn(K, K) -> bool)
    requires
        strict_order(less),
        increasing(a, less),
        increasing(b, less),
        forall|k: K| #[trigger] a.contains(k) <==> b.contains(k),
    ensures
        a == b,
    decreases a.len(),
{
    if a.len() == 0 {
        if b.len() > 0 {
            assert(a.contains(b[0]) <==> b.contains(b[0]));
        }
        assert(a =~= b);
    } else {
        assert(a.contains(a[0]));
        assert(b.len() > 0);
        let x = a.last();
        let y = b.last();
        assert(a[a.len() - 1] == x && b[b.len() - 1] == y);
        assert(a.contains(x) && b.contains(y));
        assert(a.contains(y) <==> b.contains(y));
        if x != y {
            let i = choose|i: int| 0 <= i < b.len() && b[i] == x;
            let j = choose|j: int| 0 <= j < a.len() && a[j] == y;
            assert(less(b[i], b[b.len() - 1]));
            assert(less(a[j], a[a.len() - 1]));
            assert(less(x, x));
        }
        let fa = a.drop_last();
        let fb = b.drop_last();
        assert forall|k: K| #[trigger] fa.contains(k) <==> fb.contains(k) by {
            if fa.contains(k) {
                let i = choose|i: int| 0 <= i < fa.len() && fa[i] == k;
                assert(a[i] == k && less(a[i], a[a.len() - 1]));
                assert(a.contains(k));
                let j = choose|j: int| 0 <= j < b.len() && b[j] == k;
                assert(fb[j] == k);
            }
            if fb.contains(k) {
                let i = choose|i: int| 0 <= i < fb.len() && fb[i] == k;
                assert(b[i] == k && less(b[i], b[b.len() - 1]));
                assert(a.contains(k));
                let j = choose|j: int| 0 <= j < a.len() && a[j] == k;
                assert(fa[j] == k);
            }
        }
        lemma_increasing_unique(fa, fb, less);
        assert(a =~= fa.push(x));
        assert(b =~= fb.push(y));
    }
}

/// Lists with the same members give the same sorted set.
pub proof fn lemma_sorted_set_depends_on_members<K>(
    a: Seq<K>,
    b: Seq<K>,
    less: spec_fn(K, K) -> bool,
)
    requires
        strict_order(less),
        forall|k: K| #[trigger] a.contains(k) <==> b.contains(k),
    ensures
        sorted_set(a, less) == sorted_set(b, less),
{
    lemma_sorted_set(a, less);
    lemma_sorted_set(b, less);
    assert forall|k: K| #[trigger] sorted_set(a, less).contains(k) <==> sorted_set(b, less).contains(
        k,
    ) by {
        assert(a.contains(k) <==> b.contains(k));
    }
    lemma_increasing_unique(sorted_set(a, less), sorted_set(b, less), less);
}

// ── the executable list ─────────────────────────────────────────────

/// Values that are sorted by a key.
pub trait Keyed: Sized {
    /// What a value is sorted by.
    type Key;

    spec fn key(&self) -> Self::Key;

    /// The order of the keys.
    spec fn key_less() -> spec_fn(Self::Key, Self::Key) -> bool;

    fn same_key(&self, other: &Self) -> (r: bool)
        ensures
            r == (self.key() == other.key()),
    ;

    fn precedes(&self, other: &Self) -> (r: bool)
        ensures
            r == Self::key_less()(self.key(), other.key()),
    ;
}

/// The key of each value.
pub open spec fn keys<T: Keyed>(items: Seq<T>) -> Seq<T::Key> {
    items.map_values(|x: T| x.key())
}

proof fn lemma_placed_front<K>(sorted: Seq<K>, x: K, less: spec_fn(K, K) -> bool, p: int)
    requires
        0 <= p <= sorted.len(),
        forall|j: int|
            p <= j < sorted.len() ==> #[trigger] sorted[j] != x && !less(sorted[j], x),
    ensures
        placed(sorted, x, less) == placed(sorted.take(p), x, less) + sorted.skip(p),
    decreases sorted.len(),
{
    if p == sorted.len() {
        assert(sorted.take(p) =~= sorted);
        assert(placed(sorted, x, less) + sorted.skip(p) =~= placed(sorted, x, less));
    } else {
        let front = sorted.drop_last();
        lemma_placed_front(front, x, less, p);
        assert(front.take(p) =~= sorted.take(p));
        assert(sorted.skip(p) =~= front.skip(p).push(sorted.last()));
        assert(sorted[sorted.len() - 1] == sorted.last());
        assert(placed(sorted, x, less) =~= placed(sorted.take(p), x, less) + sorted.skip(p));
    }
}

fn place<T: Keyed>(sorted: &mut Vec<T>, x: T)
    ensures
        keys(final(sorted)@) == placed(keys(old(sorted)@), x.key(), T::key_less()),
{
    let ghost less = T::key_less();
    let ghost before = keys(sorted@);
    let ghost k = x.key();
    let mut p: usize = sorted.len();
    while p > 0
        invariant
            p <= sorted@.len(),
            less == T::key_less(),
            before == keys(sorted@),
            sorted@ == old(sorted)@,
            k == x.key(),
            forall|j: int| p <= j < before.len() ==> #[trigger] before[j] != k && !less(before[j], k),
        decreases p,
    {
        assert(before[p - 1] == sorted@[p - 1].key());
        if sorted[p - 1].same_key(&x) {
            proof {
                lemma_placed_front(before, k, less, p as int);
                assert(before.take(p as int).last() == k);
                assert(before.take(p as int) + before.skip(p as int) =~= before);
            }
            return ;
        }
        if sorted[p - 1].precedes(&x) {
            proof {
                lemma_placed_front(before, k, less, p as int);
                assert(before.take(p as int).last() == before[p - 1]);
            }
            sorted.insert(p, x);
            assert(keys(sorted@) =~= before.take(p as int).push(k) + before.skip(p as int));
            return ;
        }
        p -= 1;
    }
    proof {
        lemma_placed_front(before, k, less, 0);
        assert(before.take(0) =~= Seq::empty());
    }
    sorted.insert(0, x);
    assert(keys(sorted@) =~= seq![k] + before.skip(0));
}

/// Sort `items` by their keys and keep the first value of every key.
pub fn sorted_once<T: Keyed>(items: Vec<T>) -> (r: Vec<T>)
    ensures
        keys(r@) == sorted_set(keys(items@), T::key_less()),
{
    let ghost all = items@;
    let ghost n = all.len();
    let mut items = items;
    let mut reversed: Vec<T> = Vec::new();
    while items.len() > 0
        invariant
            items@.len() + reversed@.len() == n,
            n == all.len(),
            items@ == all.take(items@.len() as int),
            forall|j: int| 0 <= j < reversed@.len() ==> #[trigger] reversed@[j] == all[n - 1 - j],
        decreases items@.len(),
    {
        let ghost before = items@;
        let x = items.pop();
        match x {
            Some(v) => {
                reversed.push(v);
            },
            None => {},
        }
        assert(items@ =~= all.take(items@.len() as int));
    }
    let mut out: Vec<T> = Vec::new();
    assert(keys(out@) =~= sorted_set(keys(all).take(0), T::key_less()));
    while reversed.len() > 0
        invariant
            reversed@.len() <= n,
            n == all.len(),
            forall|j: int| 0 <= j < reversed@.len() ==> #[trigger] reversed@[j] == all[n - 1 - j],
            keys(out@) == sorted_set(keys(all).take(n - reversed@.len()), T::key_less()),
        decreases reversed@.len(),
    {
        let ghost done = (n - reversed@.len()) as int;
        let x = reversed.pop();
        match x {
            Some(v) => {
                assert(v == all[done]);
                assert(keys(all).take(done + 1).drop_last() =~= keys(all).take(done));
                assert(keys(all).take(done + 1).last() == v.key());
                place(&mut out, v);
            },
            None => {},
        }
    }
    assert(keys(all).take(n as int) =~= keys(all));
    out
}

// ── names ───────────────────────────────────────────────────────────

/// The order of strings: by the first character in which they differ, and the
/// shorter one first where there is none.
pub open spec fn text_less(a: Seq<char>, b: Seq<char>) -> bool
    decreases a.len(),
{
    if b.len() == 0 {
        false
    } else if a.len() == 0 {
        true
    } else if a[0] != b[0] {
        a[0] < b[0]
    } else {
        text_less(a.drop_first(), b.drop_first())
    }
}

/// The order of strings as a function.
pub open spec fn by_text() -> spec_fn(Seq<char>, Seq<char>) -> bool {
    |a: Seq<char>, b: Seq<char>| text_less(a, b)
}

proof fn lemma_text_less_irreflexive(a: Seq<char>)
    ensures
        !text_less(a, a),
    decreases a.len(),
{
    if a.len() > 0 {
        lemma_text_less_irreflexive(a.drop_first());
    }
}

proof fn lemma_text_less_transitive(a: Seq<char>, b: Seq<char>, c: Seq<char>)
    requires
        text_less(a, b),
        text_less(b, c),
    ensures
        text_less(a, c),
    decreases a.len(),
{
    if a.len() > 0 && b.len() > 0 && c.len() > 0 && a[0] == b[0] && b[0] == c[0] {
        lemma_text_less_transitive(a.drop_first(), b.drop_first(), c.drop_first());
    }
}

proof fn lemma_text_less_total(a: Seq<char>, b: Seq<char>)
    requires
        a != b,
    ensures
        text_less(a, b) || text_less(b, a),
    decreases a.len(),
{
    if a.len() == 0 {
        if b.len() == 0 {
            assert(a =~= b);
        }
    } else if b.len() > 0 && a[0] == b[0] {
        if a.drop_first() == b.drop_first() {
            assert(a =~= seq![a[0]] + a.drop_first());
            assert(b =~= seq![b[0]] + b.drop_first());
        }
        lemma_text_less_total(a.drop_first(), b.drop_first());
    }
}

/// Strings are strictly and totally ordered.
pub proof fn lemma_by_text_is_strict_order()
    ensures
        strict_order(by_text()),
{
    let less = by_text();
    assert forall|a: Seq<char>| !#[trigger] less(a, a) by {
        lemma_text_less_irreflexive(a);
    }
    assert forall|a: Seq<char>, b: Seq<char>, c: Seq<char>| #[trigger]
        less(a, b) && #[trigger] less(b, c) implies less(a, c) by {
        lemma_text_less_transitive(a, b, c);
    }
    assert forall|a: Seq<char>, b: Seq<char>| a != b implies #[trigger] less(a, b) || less(
        b,
        a,
    ) by {
        lemma_text_less_total(a, b);
    }
}

fn chars_less(a: &[char], b: &[char]) -> (r: bool)
    ensures
        r == text_less(a@, b@),
{
    let mut i: usize = 0;
    assert(a@.skip(0) =~= a@);
    assert(b@.skip(0) =~= b@);
    loop
        invariant
            i <= a@.len(),
            i <= b@.len(),
            text_less(a@, b@) == text_less(a@.skip(i as int), b@.skip(i as int)),
        decreases a@.len() - i,
    {
        if i == b.len() {
            return false;
        }
        if i == a.len() {
            return true;
        }
        if a[i] != b[i] {
            return a[i] < b[i];
        }
        assert(a@.skip(i as int).drop_first() =~= a@.skip(i + 1));
        assert(b@.skip(i as int).drop_first() =~= b@.skip(i + 1));
        i += 1;
    }
}

/// Whether `a` stands before `b` in the order of strings.
pub fn before(a: &str, b: &str) -> (r: bool)
    ensures
        r == text_less(a@, b@),
{
    let x = chars_of(a);
    let y = chars_of(b);
    chars_less(x.as_slice(), y.as_slice())
}

impl Keyed for String {
    type Key = Seq<char>;

    open spec fn key(&self) -> Seq<char> {
        self@
    }

    open spec fn key_less() -> spec_fn(Seq<char>, Seq<char>) -> bool {
        by_text()
    }

    fn same_key(&self, other: &Self) -> (r: bool) {
        same_text(self.as_str(), other.as_str())
    }

    fn precedes(&self, other: &Self) -> (r: bool) {
        before(self.as_str(), other.as_str())
    }
}

/// The different texts of `items` in increasing order.
pub open spec fn sorted_texts(items: Seq<Seq<char>>) -> Seq<Seq<char>> {
    sorted_set(items, by_text())
}

/// Sort `items` and drop repetitions.
pub fn sorted_names(items: Vec<String>) -> (r: Vec<String>)
    ensures
        crate::text::texts(r@) == sorted_texts(crate::text::texts(items@)),
{
    let ghost all = items@;
    let out = sorted_once(items);
    assert(keys(all) =~= crate::text::texts(all));
    assert(keys(out@) =~= crate::text::texts(out@));
    out
}

} // verus!
