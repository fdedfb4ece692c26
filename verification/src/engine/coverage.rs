//! What it means that a plan is accepted.

use vstd::prelude::*;

use crate::engine::hunks::FileView;
use crate::engine::plan::{
    claim_fault, claimed, claims_fault, coverage_fault, covered, group_claims, hunk_ids, id_claims,
    inclusion_fault, partial_claims, plan_claims, plan_fault, record, splits, whole_claims, wholes,
    ClaimView, GroupView,
};

verus! {

/// How often `a` stands in `s`.
pub open spec fn times<A>(s: Seq<A>, a: A) -> nat
    decreases s.len(),
{
    if s.len() == 0 {
        0
    } else {
        times(s.drop_last(), a) + if s.last() == a {
            1nat
        } else {
            0nat
        }
    }
}

/// The plan takes every file of the diff whole, or every hunk of it, and
/// nothing twice; it takes nothing else, no group is empty, and every expected
/// path is in it.
pub open spec fn partitions(
    files: Seq<FileView>,
    groups: Seq<GroupView>,
    expected: Seq<Seq<char>>,
) -> bool {
    let claims = plan_claims(groups);
    &&& forall|g: int|
        0 <= g < groups.len() ==> (#[trigger] groups[g]).whole.len() + groups[g].partial.len() > 0
    &&& sound_claims(files, claims)
    &&& forall|i: int| 0 <= i < files.len() ==> covered(claims, #[trigger] files[i])
    &&& forall|i: int| 0 <= i < expected.len() ==> claimed(claims, #[trigger] expected[i])
}

/// No file is taken whole twice, or whole and in part; only files of the diff
/// are taken, and in part only those that can be split; and of a split file
/// only hunks that exist, none of them twice.
pub open spec fn sound_claims(files: Seq<FileView>, claims: Seq<ClaimView>) -> bool {
    &&& wholes(claims).no_duplicates()
    &&& forall|p: Seq<char>| #[trigger]
        wholes(claims).contains(p) ==> record(files, p) is Some && !splits(claims).contains(p)
    &&& forall|p: Seq<char>| #[trigger]
        splits(claims).contains(p) ==> record(files, p) is Some && !record(files, p)->0.atomic
    &&& forall|p: Seq<char>| #[trigger] sound_ids(files, claims, p)
}

/// The claimed hunks of `path` exist and are claimed once each.
pub open spec fn sound_ids(files: Seq<FileView>, claims: Seq<ClaimView>, path: Seq<char>) -> bool {
    let ids = hunk_ids(claims, path);
    &&& ids.no_duplicates()
    &&& ids.len() > 0 ==> record(files, path) is Some
    &&& forall|i: int|
        0 <= i < ids.len() ==> 1 <= #[trigger] ids[i] <= record(files, path)->0.hunks.len()
}

// ── the order of claims ─────────────────────────────────────────────

/// Every claim of a hunk comes after a claim of part of the same file.
spec fn hunks_follow_parts(claims: Seq<ClaimView>) -> bool {
    forall|j: int|
        0 <= j < claims.len() ==> (#[trigger] claims[j] matches ClaimView::Hunk { path, .. }
            ==> splits(claims.take(j)).contains(path))
}

proof fn lemma_splits_add(a: Seq<ClaimView>, b: Seq<ClaimView>)
    ensures
        splits(a + b) == splits(a) + splits(b),
    decreases b.len(),
{
    if b.len() == 0 {
        assert(a + b =~= a);
        assert(splits(a) + splits(b) =~= splits(a));
    } else {
        lemma_splits_add(a, b.drop_last());
        assert((a + b).drop_last() =~= a + b.drop_last());
        assert((a + b).last() == b.last());
        assert(splits(a + b) =~= splits(a) + splits(b));
    }
}

proof fn lemma_follow_add(a: Seq<ClaimView>, b: Seq<ClaimView>)
    requires
        hunks_follow_parts(a),
        hunks_follow_parts(b),
    ensures
        hunks_follow_parts(a + b),
{
    let all = a + b;
    assert forall|j: int| 0 <= j < all.len() implies (#[trigger] all[j] matches ClaimView::Hunk {
        path,
        ..
    } ==> splits(all.take(j)).contains(path)) by {
        if let ClaimView::Hunk { group, path, hunk } = all[j] {
            if j < a.len() {
                assert(all.take(j) =~= a.take(j));
                assert(a[j] == all[j]);
            } else {
                let k = j - a.len();
                assert(b[k] == all[j]);
                assert(all.take(j) =~= a + b.take(k));
                lemma_splits_add(a, b.take(k));
                let i = choose|i: int|
                    0 <= i < splits(b.take(k)).len() && splits(b.take(k))[i] == path;
                assert(splits(all.take(j))[splits(a).len() + i] == path);
            }
        }
    }
}

proof fn lemma_partial_follow(partial: Seq<(Seq<char>, Seq<usize>)>, group: nat)
    ensures
        hunks_follow_parts(partial_claims(partial, group)),
        forall|j: int|
            0 <= j < partial_claims(partial, group).len() ==> !(#[trigger] partial_claims(
                partial,
                group,
            )[j] is Nothing),
    decreases partial.len(),
{
    if partial.len() > 0 {
        let (path, ids) = partial.last();
        let front = partial_claims(partial.drop_last(), group);
        lemma_partial_follow(partial.drop_last(), group);
        let tail = seq![ClaimView::Part { group, path }] + id_claims(path, ids, group);
        assert(hunks_follow_parts(tail)) by {
            assert forall|j: int| 0 <= j < tail.len() implies (#[trigger] tail[j] matches ClaimView::Hunk {
                path: p,
                ..
            } ==> splits(tail.take(j)).contains(p)) by {
                if j > 0 {
                    assert(tail[j] == ClaimView::Hunk { group, path, hunk: ids[j - 1] });
                    let first = seq![ClaimView::Part { group, path }];
                    assert(tail.take(j) =~= first + tail.subrange(1, j));
                    lemma_splits_add(first, tail.subrange(1, j));
                    assert(first.last() == ClaimView::Part { group, path });
                    assert(splits(first.drop_last()).len() == 0);
                    assert(splits(first) =~= splits(first.drop_last()).push(path));
                    assert(splits(tail.take(j))[0] == path);
                }
            }
        }
        lemma_follow_add(front, tail);
        assert(partial_claims(partial, group) =~= front + tail);
        assert forall|j: int|
            0 <= j < partial_claims(partial, group).len() implies !(#[trigger] partial_claims(
            partial,
            group,
        )[j] is Nothing) by {
            if j < front.len() {
                assert(front[j] == partial_claims(partial, group)[j]);
            } else {
                assert(tail[j - front.len()] == partial_claims(partial, group)[j]);
            }
        }
    }
}

proof fn lemma_group_follow(g: GroupView, group: nat)
    ensures
        hunks_follow_parts(group_claims(g, group)),
        g.whole.len() + g.partial.len() > 0 ==> forall|j: int|
            0 <= j < group_claims(g, group).len() ==> !(#[trigger] group_claims(g, group)[j] is Nothing),
{
    lemma_partial_follow(g.partial, group);
    if g.whole.len() + g.partial.len() > 0 {
        let w = whole_claims(g.whole, group);
        assert(hunks_follow_parts(w)) by {
            assert forall|j: int| 0 <= j < w.len() implies (#[trigger] w[j] matches ClaimView::Hunk {
                path: p,
                ..
            } ==> splits(w.take(j)).contains(p)) by {
                assert(w[j] == ClaimView::Whole { group, path: g.whole[j] });
            }
        }
        let part = partial_claims(g.partial, group);
        lemma_follow_add(w, part);
        assert forall|j: int| 0 <= j < group_claims(g, group).len() implies !(
        #[trigger] group_claims(g, group)[j] is Nothing) by {
            if j < w.len() {
                assert(w[j] == ClaimView::Whole { group, path: g.whole[j] });
            } else {
                assert(part[j - w.len()] == group_claims(g, group)[j]);
            }
        }
    }
}

proof fn lemma_plan_follow(groups: Seq<GroupView>)
    ensures
        hunks_follow_parts(plan_claims(groups)),
    decreases groups.len(),
{
    if groups.len() > 0 {
        lemma_plan_follow(groups.drop_last());
        lemma_group_follow(groups.last(), groups.len());
        lemma_follow_add(
            plan_claims(groups.drop_last()),
            group_claims(groups.last(), groups.len()),
        );
    }
}

/// A plan has a claim of nothing only where it has an empty group.
proof fn lemma_no_empty_group(groups: Seq<GroupView>)
    requires
        forall|g: int|
            0 <= g < groups.len() ==> (#[trigger] groups[g]).whole.len() + groups[g].partial.len()
                > 0,
    ensures
        forall|j: int|
            0 <= j < plan_claims(groups).len() ==> !(#[trigger] plan_claims(groups)[j] is Nothing),
    decreases groups.len(),
{
    if groups.len() > 0 {
        let front = groups.drop_last();
        assert forall|g: int| 0 <= g < front.len() implies (#[trigger] front[g]).whole.len()
            + front[g].partial.len() > 0 by {
            assert(front[g] == groups[g]);
        }
        lemma_no_empty_group(front);
        assert(groups[groups.len() - 1] == groups.last());
        lemma_group_follow(groups.last(), groups.len());
        let a = plan_claims(front);
        let b = group_claims(groups.last(), groups.len());
        assert forall|j: int| 0 <= j < plan_claims(groups).len() implies !(
        #[trigger] plan_claims(groups)[j] is Nothing) by {
            if j < a.len() {
                assert(a[j] == plan_claims(groups)[j]);
            } else {
                assert(b[j - a.len()] == plan_claims(groups)[j]);
            }
        }
    }
}

/// An empty group makes a claim of nothing.
proof fn lemma_empty_group_claims_nothing(groups: Seq<GroupView>, g: int)
    requires
        0 <= g < groups.len(),
        groups[g].whole.len() + groups[g].partial.len() == 0,
    ensures
        exists|j: int| 0 <= j < plan_claims(groups).len() && plan_claims(groups)[j] is Nothing,
    decreases groups.len(),
{
    let a = plan_claims(groups.drop_last());
    let b = group_claims(groups.last(), groups.len());
    if g == groups.len() - 1 {
        assert(plan_claims(groups)[a.len() as int] == b[0]);
    } else {
        lemma_empty_group_claims_nothing(groups.drop_last(), g);
        let j = choose|j: int| 0 <= j < a.len() && a[j] is Nothing;
        assert(plan_claims(groups)[j] == a[j]);
    }
}

// ── what a plan claims ──────────────────────────────────────────────

/// The whole files of all groups, in order.
pub open spec fn whole_paths(groups: Seq<GroupView>) -> Seq<Seq<char>>
    decreases groups.len(),
{
    if groups.len() == 0 {
        Seq::empty()
    } else {
        whole_paths(groups.drop_last()) + groups.last().whole
    }
}

/// The paths of the hunk claims.
pub open spec fn claim_paths(partial: Seq<(Seq<char>, Seq<usize>)>) -> Seq<Seq<char>> {
    partial.map_values(|p: (Seq<char>, Seq<usize>)| p.0)
}

/// The split files of all groups, in order.
pub open spec fn part_paths(groups: Seq<GroupView>) -> Seq<Seq<char>>
    decreases groups.len(),
{
    if groups.len() == 0 {
        Seq::empty()
    } else {
        part_paths(groups.drop_last()) + claim_paths(groups.last().partial)
    }
}

proof fn lemma_wholes_add(a: Seq<ClaimView>, b: Seq<ClaimView>)
    ensures
        wholes(a + b) == wholes(a) + wholes(b),
    decreases b.len(),
{
    if b.len() == 0 {
        assert(a + b =~= a);
        assert(wholes(a) + wholes(b) =~= wholes(a));
    } else {
        lemma_wholes_add(a, b.drop_last());
        assert((a + b).drop_last() =~= a + b.drop_last());
        assert((a + b).last() == b.last());
        assert(wholes(a + b) =~= wholes(a) + wholes(b));
    }
}

proof fn lemma_whole_claims(whole: Seq<Seq<char>>, group: nat)
    ensures
        wholes(whole_claims(whole, group)) == whole,
        splits(whole_claims(whole, group)).len() == 0,
    decreases whole.len(),
{
    let claims = whole_claims(whole, group);
    if whole.len() > 0 {
        lemma_whole_claims(whole.drop_last(), group);
        assert(claims.drop_last() =~= whole_claims(whole.drop_last(), group));
        assert(claims.last() == ClaimView::Whole { group, path: whole.last() });
        assert(wholes(claims) =~= whole);
    } else {
        assert(wholes(claims) =~= whole);
    }
}

proof fn lemma_id_claims(path: Seq<char>, ids: Seq<usize>, group: nat)
    ensures
        wholes(id_claims(path, ids, group)).len() == 0,
        splits(id_claims(path, ids, group)).len() == 0,
    decreases ids.len(),
{
    let claims = id_claims(path, ids, group);
    if ids.len() > 0 {
        lemma_id_claims(path, ids.drop_last(), group);
        assert(claims.drop_last() =~= id_claims(path, ids.drop_last(), group));
        assert(claims.last() == ClaimView::Hunk { group, path, hunk: ids.last() });
    }
}

proof fn lemma_partial_claims(partial: Seq<(Seq<char>, Seq<usize>)>, group: nat)
    ensures
        wholes(partial_claims(partial, group)).len() == 0,
        splits(partial_claims(partial, group)) == claim_paths(partial),
    decreases partial.len(),
{
    if partial.len() > 0 {
        let (path, ids) = partial.last();
        let front = partial_claims(partial.drop_last(), group);
        lemma_partial_claims(partial.drop_last(), group);
        let mark = seq![ClaimView::Part { group, path }];
        let hunks = id_claims(path, ids, group);
        lemma_id_claims(path, ids, group);
        assert(partial_claims(partial, group) =~= (front + mark) + hunks);
        lemma_wholes_add(front + mark, hunks);
        lemma_splits_add(front + mark, hunks);
        assert((front + mark).drop_last() =~= front);
        assert((front + mark).last() == ClaimView::Part { group, path });
        assert(splits(front + mark) == splits(front).push(path));
        assert(splits(partial_claims(partial, group)) =~= claim_paths(partial));
        assert(wholes(partial_claims(partial, group)) =~= Seq::empty());
    } else {
        assert(splits(partial_claims(partial, group)) =~= claim_paths(partial));
    }
}

/// A plan claims the whole files and the split files of its groups, and
/// nothing else.
pub proof fn lemma_plan_claims_its_groups(groups: Seq<GroupView>)
    ensures
        wholes(plan_claims(groups)) == whole_paths(groups),
        splits(plan_claims(groups)) == part_paths(groups),
    decreases groups.len(),
{
    if groups.len() > 0 {
        let front = groups.drop_last();
        let g = groups.last();
        let n = groups.len();
        lemma_plan_claims_its_groups(front);
        let claims = group_claims(g, n);
        lemma_wholes_add(plan_claims(front), claims);
        lemma_splits_add(plan_claims(front), claims);
        if g.whole.len() == 0 && g.partial.len() == 0 {
            assert(claims.last() is Nothing);
            assert(wholes(claims.drop_last()).len() == 0);
            assert(splits(claims.drop_last()).len() == 0);
            assert(wholes(claims) =~= g.whole);
            assert(splits(claims) =~= claim_paths(g.partial));
        } else {
            let w = whole_claims(g.whole, n);
            let p = partial_claims(g.partial, n);
            lemma_whole_claims(g.whole, n);
            lemma_partial_claims(g.partial, n);
            lemma_wholes_add(w, p);
            lemma_splits_add(w, p);
            assert(wholes(claims) =~= g.whole);
            assert(splits(claims) =~= claim_paths(g.partial));
        }
    }
}

// ── the claimed numbers ─────────────────────────────────────────────

proof fn lemma_ids_add(a: Seq<ClaimView>, b: Seq<ClaimView>, path: Seq<char>)
    ensures
        hunk_ids(a + b, path) == hunk_ids(a, path) + hunk_ids(b, path),
    decreases b.len(),
{
    if b.len() == 0 {
        assert(a + b =~= a);
        assert(hunk_ids(a, path) + hunk_ids(b, path) =~= hunk_ids(a, path));
    } else {
        lemma_ids_add(a, b.drop_last(), path);
        assert((a + b).drop_last() =~= a + b.drop_last());
        assert((a + b).last() == b.last());
        assert(hunk_ids(a + b, path) =~= hunk_ids(a, path) + hunk_ids(b, path));
    }
}

proof fn lemma_ids_of_wholes(paths: Seq<Seq<char>>, group: nat, path: Seq<char>)
    ensures
        hunk_ids(whole_claims(paths, group), path).len() == 0,
    decreases paths.len(),
{
    if paths.len() > 0 {
        lemma_ids_of_wholes(paths.drop_last(), group, path);
        assert(whole_claims(paths, group).drop_last() =~= whole_claims(paths.drop_last(), group));
    }
}

proof fn lemma_ids_of_one(p: Seq<char>, ids: Seq<usize>, group: nat, path: Seq<char>)
    ensures
        hunk_ids(id_claims(p, ids, group), path) == if p == path {
            ids
        } else {
            Seq::empty()
        },
    decreases ids.len(),
{
    let claims = id_claims(p, ids, group);
    if ids.len() > 0 {
        lemma_ids_of_one(p, ids.drop_last(), group, path);
        assert(claims.drop_last() =~= id_claims(p, ids.drop_last(), group));
        assert(claims.last() == ClaimView::Hunk { group, path: p, hunk: ids.last() });
        assert(ids =~= ids.drop_last().push(ids.last()));
    } else {
        assert(hunk_ids(claims, path) =~= ids);
    }
}

/// The hunk numbers that a group claims of one file, in the order of its claims.
pub open spec fn group_ids(partial: Seq<(Seq<char>, Seq<usize>)>, path: Seq<char>) -> Seq<usize>
    decreases partial.len(),
{
    if partial.len() == 0 {
        Seq::empty()
    } else {
        group_ids(partial.drop_last(), path) + if partial.last().0 == path {
            partial.last().1
        } else {
            Seq::empty()
        }
    }
}

proof fn lemma_group_ids(partial: Seq<(Seq<char>, Seq<usize>)>, group: nat, path: Seq<char>)
    ensures
        hunk_ids(partial_claims(partial, group), path) == group_ids(partial, path),
    decreases partial.len(),
{
    if partial.len() > 0 {
        let (p, ids) = partial.last();
        let front = partial_claims(partial.drop_last(), group);
        let mark = seq![ClaimView::Part { group, path: p }];
        lemma_group_ids(partial.drop_last(), group, path);
        lemma_ids_of_one(p, ids, group, path);
        lemma_ids_add(front + mark, id_claims(p, ids, group), path);
        assert((front + mark).drop_last() =~= front);
        assert((front + mark).last() == ClaimView::Part { group, path: p });
    }
}

/// The hunks that a plan claims of a file are those that its groups claim, one
/// group after the other.
pub proof fn lemma_ids_of_last_group(groups: Seq<GroupView>, path: Seq<char>)
    requires
        groups.len() > 0,
    ensures
        hunk_ids(plan_claims(groups), path) == hunk_ids(plan_claims(groups.drop_last()), path)
            + group_ids(groups.last().partial, path),
{
    let g = groups.last();
    let n = groups.len();
    let claims = group_claims(g, n);
    lemma_ids_add(plan_claims(groups.drop_last()), claims, path);
    lemma_group_ids(g.partial, n, path);
    if g.whole.len() == 0 && g.partial.len() == 0 {
        assert(claims.last() is Nothing);
        assert(claims.drop_last() =~= Seq::empty());
        assert(hunk_ids(claims, path) =~= group_ids(g.partial, path));
    } else {
        lemma_ids_of_wholes(g.whole, n, path);
        lemma_ids_add(whole_claims(g.whole, n), partial_claims(g.partial, n), path);
        assert(hunk_ids(claims, path) =~= group_ids(g.partial, path));
    }
}

// ── prefixes ────────────────────────────────────────────────────────

pub proof fn lemma_prefixes(claims: Seq<ClaimView>, n: int, path: Seq<char>)
    requires
        0 <= n <= claims.len(),
    ensures
        wholes(claims.take(n)).is_prefix_of(wholes(claims)),
        splits(claims.take(n)).is_prefix_of(splits(claims)),
        hunk_ids(claims.take(n), path).is_prefix_of(hunk_ids(claims, path)),
    decreases claims.len(),
{
    if n == claims.len() {
        assert(claims.take(n) =~= claims);
    } else {
        lemma_prefixes(claims.drop_last(), n, path);
        assert(claims.drop_last().take(n) =~= claims.take(n));
    }
}

proof fn lemma_prefix_contains<A>(a: Seq<A>, b: Seq<A>, x: A)
    requires
        a.is_prefix_of(b),
        a.contains(x),
    ensures
        b.contains(x),
{
    let i = choose|i: int| 0 <= i < a.len() && a[i] == x;
    assert(b[i] == a[i]);
}

pub proof fn lemma_contains_push<A>(s: Seq<A>, a: A, x: A)
    ensures
        s.push(a).contains(x) <==> s.contains(x) || x == a,
{
    assert(s.push(a)[s.len() as int] == a);
    if s.contains(x) {
        let i = choose|i: int| 0 <= i < s.len() && s[i] == x;
        assert(s.push(a)[i] == x);
    }
}

pub proof fn lemma_no_duplicates_push<A>(s: Seq<A>, a: A)
    ensures
        s.push(a).no_duplicates() <==> s.no_duplicates() && !s.contains(a),
{
    let t = s.push(a);
    assert(t[s.len() as int] == a);
    if t.no_duplicates() {
        assert forall|i: int, j: int|
            0 <= i < s.len() && 0 <= j < s.len() && i != j implies s[i] != s[j] by {
            assert(t[i] == s[i] && t[j] == s[j]);
        }
        if s.contains(a) {
            let i = choose|i: int| 0 <= i < s.len() && s[i] == a;
            assert(t[i] == t[s.len() as int]);
        }
    }
}

// ── faultless claims are sound ──────────────────────────────────────

proof fn lemma_faultless_is_sound(files: Seq<FileView>, claims: Seq<ClaimView>)
    requires
        claims_fault(files, claims) is None,
    ensures
        sound_claims(files, claims),
        forall|j: int| 0 <= j < claims.len() ==> !(#[trigger] claims[j] is Nothing),
    decreases claims.len(),
{
    if claims.len() > 0 {
        let front = claims.drop_last();
        let c = claims.last();
        lemma_faultless_is_sound(files, front);
        assert(claim_fault(files, front, c) is None);
        assert forall|j: int| 0 <= j < claims.len() implies !(#[trigger] claims[j] is Nothing) by {
            if j < front.len() {
                assert(front[j] == claims[j]);
            }
        }
        match c {
            ClaimView::Whole { group, path } => {
                lemma_no_duplicates_push(wholes(front), path);
                assert forall|p: Seq<char>| #[trigger] wholes(claims).contains(p) implies record(
                    files,
                    p,
                ) is Some && !splits(claims).contains(p) by {
                    lemma_contains_push(wholes(front), path, p);
                }
                assert(splits(claims) == splits(front));
            },
            ClaimView::Part { group, path } => {
                assert forall|p: Seq<char>| #[trigger] wholes(claims).contains(p) implies record(
                    files,
                    p,
                ) is Some && !splits(claims).contains(p) by {
                    lemma_contains_push(splits(front), path, p);
                }
                assert forall|p: Seq<char>| #[trigger] splits(claims).contains(p) implies record(
                    files,
                    p,
                ) is Some && !record(files, p)->0.atomic by {
                    lemma_contains_push(splits(front), path, p);
                }
            },
            _ => {
                assert(wholes(claims) == wholes(front));
                assert(splits(claims) == splits(front));
            },
        }
        assert forall|p: Seq<char>| #[trigger] sound_ids(files, claims, p) by {
            assert(sound_ids(files, front, p));
            if let ClaimView::Hunk { group, path, hunk } = c {
                if p == path {
                    lemma_no_duplicates_push(hunk_ids(front, p), hunk);
                }
            }
        }
        assert(wholes(claims).no_duplicates());
        assert(forall|p: Seq<char>| #[trigger]
            wholes(claims).contains(p) ==> record(files, p) is Some && !splits(claims).contains(p));
        assert(forall|p: Seq<char>| #[trigger]
            splits(claims).contains(p) ==> record(files, p) is Some && !record(files, p)->0.atomic);
    } else {
        assert forall|p: Seq<char>| #[trigger] sound_ids(files, claims, p) by {}
        assert(wholes(claims).len() == 0 && splits(claims).len() == 0);
    }
}

/// A claim of a hunk is a claim of part of its file.
proof fn lemma_ids_need_split(claims: Seq<ClaimView>, path: Seq<char>)
    requires
        hunks_follow_parts(claims),
        hunk_ids(claims, path).len() > 0,
    ensures
        splits(claims).contains(path),
    decreases claims.len(),
{
    let front = claims.drop_last();
    lemma_prefixes(claims, claims.len() - 1, path);
    assert(claims.take(claims.len() - 1) =~= front);
    if hunk_ids(front, path).len() > 0 {
        assert(hunks_follow_parts(front)) by {
            assert forall|j: int|
                0 <= j < front.len() implies (#[trigger] front[j] matches ClaimView::Hunk {
                path: p,
                ..
            } ==> splits(front.take(j)).contains(p)) by {
                assert(front[j] == claims[j]);
                assert(front.take(j) =~= claims.take(j));
            }
        }
        lemma_ids_need_split(front, path);
        lemma_prefix_contains(splits(front), splits(claims), path);
    } else {
        assert(claims[claims.len() - 1] == claims.last());
        lemma_prefix_contains(splits(front), splits(claims), path);
    }
}

/// A plan claims hunks only of files that it splits.
pub proof fn lemma_claimed_hunk_is_split(groups: Seq<GroupView>, path: Seq<char>)
    requires
        hunk_ids(plan_claims(groups), path).len() > 0,
    ensures
        part_paths(groups).contains(path),
{
    lemma_plan_follow(groups);
    lemma_ids_need_split(plan_claims(groups), path);
    lemma_plan_claims_its_groups(groups);
}

// ── sound claims are faultless ──────────────────────────────────────

proof fn lemma_sound_is_faultless(files: Seq<FileView>, claims: Seq<ClaimView>, n: int)
    requires
        0 <= n <= claims.len(),
        sound_claims(files, claims),
        hunks_follow_parts(claims),
        forall|j: int| 0 <= j < claims.len() ==> !(#[trigger] claims[j] is Nothing),
    ensures
        claims_fault(files, claims.take(n)) is None,
    decreases n,
{
    if n > 0 {
        lemma_sound_is_faultless(files, claims, n - 1);
        let before = claims.take(n - 1);
        let now = claims.take(n);
        assert(now.drop_last() =~= before);
        let c = claims[n - 1];
        assert(now.last() == c);
        match c {
            ClaimView::Nothing { group, message } => {},
            ClaimView::Whole { group, path } => {
                lemma_prefixes(claims, n, path);
                lemma_prefixes(claims, n - 1, path);
                lemma_contains_push(wholes(before), path, path);
                lemma_prefix_contains(wholes(now), wholes(claims), path);
                lemma_no_duplicates_prefix(wholes(now), wholes(claims));
                lemma_no_duplicates_push(wholes(before), path);
                if splits(before).contains(path) {
                    lemma_prefix_contains(splits(before), splits(claims), path);
                }
            },
            ClaimView::Part { group, path } => {
                lemma_prefixes(claims, n, path);
                lemma_prefixes(claims, n - 1, path);
                lemma_contains_push(splits(before), path, path);
                lemma_prefix_contains(splits(now), splits(claims), path);
                if wholes(before).contains(path) {
                    lemma_prefix_contains(wholes(before), wholes(claims), path);
                }
            },
            ClaimView::Hunk { group, path, hunk } => {
                lemma_prefixes(claims, n, path);
                lemma_prefixes(claims, n - 1, path);
                assert(splits(before).contains(path));
                lemma_prefix_contains(splits(before), splits(claims), path);
                assert(sound_ids(files, claims, path));
                let ids = hunk_ids(claims, path);
                let seen = hunk_ids(before, path);
                assert(hunk_ids(now, path) == seen.push(hunk));
                assert(ids[seen.len() as int] == hunk) by {
                    assert(seen.push(hunk)[seen.len() as int] == hunk);
                }
                lemma_no_duplicates_prefix(seen.push(hunk), ids);
                lemma_no_duplicates_push(seen, hunk);
            },
        }
    }
}

proof fn lemma_no_duplicates_prefix<A>(a: Seq<A>, b: Seq<A>)
    requires
        a.is_prefix_of(b),
        b.no_duplicates(),
    ensures
        a.no_duplicates(),
{
    assert forall|i: int, j: int| 0 <= i < a.len() && 0 <= j < a.len() && i != j implies a[i]
        != a[j] by {
        assert(b[i] == a[i] && b[j] == a[j]);
    }
}

proof fn lemma_coverage(files: Seq<FileView>, claims: Seq<ClaimView>, n: int)
    requires
        0 <= n <= files.len(),
    ensures
        coverage_fault(files, claims, n) is None <==> forall|i: int|
            0 <= i < n ==> covered(claims, #[trigger] files[i]),
    decreases n,
{
    if n > 0 {
        lemma_coverage(files, claims, n - 1);
        assert(covered(claims, files[n - 1]) || !covered(claims, files[n - 1]));
    }
}

proof fn lemma_inclusion(expected: Seq<Seq<char>>, claims: Seq<ClaimView>)
    ensures
        inclusion_fault(expected, claims) is None <==> forall|i: int|
            0 <= i < expected.len() ==> claimed(claims, #[trigger] expected[i]),
    decreases expected.len(),
{
    if expected.len() > 0 {
        let front = expected.drop_last();
        lemma_inclusion(front, claims);
        assert(expected[expected.len() - 1] == expected.last());
        assert((forall|i: int| 0 <= i < front.len() ==> claimed(claims, #[trigger] front[i])) <==> (
        forall|i: int| 0 <= i < expected.len() - 1 ==> claimed(claims, #[trigger] expected[i])))
            by {
            assert forall|i: int| 0 <= i < front.len() implies front[i] == expected[i] by {}
            if forall|i: int| 0 <= i < front.len() ==> claimed(claims, #[trigger] front[i]) {
                assert forall|i: int| 0 <= i < expected.len() - 1 implies claimed(
                    claims,
                    #[trigger] expected[i],
                ) by {
                    assert(front[i] == expected[i]);
                }
            }
        }
    }
}

// ── the laws ────────────────────────────────────────────────────────

/// A plan is accepted exactly when it partitions the diff.
pub proof fn lemma_accepted_iff_partition(
    files: Seq<FileView>,
    groups: Seq<GroupView>,
    expected: Seq<Seq<char>>,
)
    ensures
        plan_fault(files, groups, expected) is None <==> partitions(files, groups, expected),
{
    let claims = plan_claims(groups);
    lemma_plan_follow(groups);
    lemma_coverage(files, claims, files.len() as int);
    lemma_inclusion(expected, claims);
    if claims_fault(files, claims) is None {
        lemma_faultless_is_sound(files, claims);
        assert forall|g: int| 0 <= g < groups.len() implies (#[trigger] groups[g]).whole.len()
            + groups[g].partial.len() > 0 by {
            if groups[g].whole.len() + groups[g].partial.len() == 0 {
                lemma_empty_group_claims_nothing(groups, g);
            }
        }
    }
    if partitions(files, groups, expected) {
        lemma_no_empty_group(groups);
        lemma_sound_is_faultless(files, claims, claims.len() as int);
        assert(claims.take(claims.len() as int) =~= claims);
    }
}

pub proof fn lemma_times_add<A>(a: Seq<A>, b: Seq<A>, x: A)
    ensures
        times(a + b, x) == times(a, x) + times(b, x),
    decreases b.len(),
{
    if b.len() == 0 {
        assert(a + b =~= a);
    } else {
        lemma_times_add(a, b.drop_last(), x);
        assert((a + b).drop_last() =~= a + b.drop_last());
        assert((a + b).last() == b.last());
    }
}

pub proof fn lemma_times_push<A>(a: Seq<A>, y: A, x: A)
    ensures
        times(a.push(y), x) == times(a, x) + if x == y {
            1nat
        } else {
            0nat
        },
{
    assert(a.push(y).drop_last() =~= a);
}

pub proof fn lemma_times_positive<A>(s: Seq<A>, x: A)
    ensures
        s.contains(x) <==> times(s, x) > 0,
    decreases s.len(),
{
    if s.len() > 0 {
        let front = s.drop_last();
        assert(s =~= front.push(s.last()));
        lemma_contains_push(front, s.last(), x);
        lemma_times_positive(front, x);
    }
}

pub proof fn lemma_times_at_most_once<A>(s: Seq<A>, a: A)
    requires
        s.no_duplicates(),
    ensures
        times(s, a) == if s.contains(a) {
            1nat
        } else {
            0nat
        },
    decreases s.len(),
{
    if s.len() > 0 {
        let front = s.drop_last();
        assert(s =~= front.push(s.last()));
        lemma_no_duplicates_push(front, s.last());
        lemma_contains_push(front, s.last(), a);
        lemma_times_at_most_once(front, a);
    }
}

pub proof fn lemma_at_most_once<A>(s: Seq<A>)
    requires
        forall|x: A| #[trigger] times(s, x) <= 1,
    ensures
        s.no_duplicates(),
    decreases s.len(),
{
    if s.len() > 0 {
        let front = s.drop_last();
        let y = s.last();
        assert(s =~= front.push(y));
        assert forall|x: A| #[trigger] times(front, x) <= 1 by {
            assert(times(s, x) <= 1);
        }
        lemma_at_most_once(front);
        lemma_no_duplicates_push(front, y);
        if front.contains(y) {
            lemma_times_positive(front, y);
            assert(times(s, y) <= 1);
        }
    }
}

/// `n` different numbers from `1..=n` are all of them.
pub proof fn lemma_all_numbers(ids: Seq<usize>, n: nat, h: usize)
    requires
        ids.no_duplicates(),
        ids.len() == n,
        forall|i: int| 0 <= i < ids.len() ==> 1 <= #[trigger] ids[i] <= n,
        1 <= h <= n,
    ensures
        ids.contains(h),
{
    if !ids.contains(h) {
        let mapped = ids.map_values(|id: usize| id as int);
        assert(mapped.no_duplicates());
        mapped.unique_seq_to_set();
        let range = vstd::set_lib::set_int_range(1, n as int + 1);
        vstd::set_lib::lemma_int_range(1, n as int + 1);
        let rest = range.remove(h as int);
        assert forall|x: int| mapped.to_set().contains(x) implies rest.contains(x) by {
            let i = choose|i: int| 0 <= i < mapped.len() && mapped[i] == x;
            assert(ids[i] as int == x);
            if x == h {
                assert(ids.contains(h));
            }
        }
        vstd::set_lib::lemma_len_subset(mapped.to_set(), rest);
    }
}

pub proof fn lemma_record_is_a_file(files: Seq<FileView>, path: Seq<char>)
    requires
        record(files, path) is Some,
    ensures
        exists|i: int|
            0 <= i < files.len() && #[trigger] files[i] == record(files, path)->0 && files[i].path
                == path,
    decreases files.len(),
{
    if files.last().path == path {
        assert(files[files.len() - 1] == files.last());
    } else {
        lemma_record_is_a_file(files.drop_last(), path);
        let i = choose|i: int|
            0 <= i < files.drop_last().len() && #[trigger] files.drop_last()[i] == record(
                files.drop_last(),
                path,
            )->0 && files.drop_last()[i].path == path;
        assert(files[i] == files.drop_last()[i]);
    }
}

/// In an accepted plan every hunk of every file is claimed exactly once:
/// either its file is taken whole by one group and no hunk of it is claimed,
/// or no group takes the file whole and the hunk is claimed by itself.
pub proof fn lemma_every_hunk_is_claimed_once(
    files: Seq<FileView>,
    groups: Seq<GroupView>,
    expected: Seq<Seq<char>>,
    i: int,
    hunk: usize,
)
    requires
        plan_fault(files, groups, expected) is None,
        0 <= i < files.len(),
        1 <= hunk <= files[i].hunks.len(),
    ensures
        times(wholes(plan_claims(groups)), files[i].path) + times(
            hunk_ids(plan_claims(groups), files[i].path),
            hunk,
        ) == 1,
{
    let claims = plan_claims(groups);
    let path = files[i].path;
    let ids = hunk_ids(claims, path);
    lemma_accepted_iff_partition(files, groups, expected);
    lemma_plan_follow(groups);
    assert(sound_ids(files, claims, path));
    assert(covered(claims, files[i]));
    lemma_times_at_most_once(wholes(claims), path);
    lemma_times_at_most_once(ids, hunk);
    if wholes(claims).contains(path) {
        if ids.len() > 0 {
            lemma_ids_need_split(claims, path);
        }
    } else {
        lemma_record_is_a_file(files, path);
        let k = choose|k: int|
            0 <= k < files.len() && #[trigger] files[k] == record(files, path)->0 && files[k].path
                == path;
        assert(covered(claims, files[k]));
        lemma_all_numbers(ids, files[i].hunks.len(), hunk);
    }
}

/// In an accepted plan a file that cannot be split is taken whole, by one
/// group.
pub proof fn lemma_atomic_file_is_taken_whole(
    files: Seq<FileView>,
    groups: Seq<GroupView>,
    expected: Seq<Seq<char>>,
    i: int,
)
    requires
        plan_fault(files, groups, expected) is None,
        0 <= i < files.len(),
        record(files, files[i].path) == Some(files[i]),
        files[i].atomic,
    ensures
        times(wholes(plan_claims(groups)), files[i].path) == 1,
        hunk_ids(plan_claims(groups), files[i].path).len() == 0,
{
    let claims = plan_claims(groups);
    let path = files[i].path;
    lemma_accepted_iff_partition(files, groups, expected);
    lemma_plan_follow(groups);
    assert(covered(claims, files[i]));
    lemma_times_at_most_once(wholes(claims), path);
    if hunk_ids(claims, path).len() > 0 {
        lemma_ids_need_split(claims, path);
    }
}

// ── the order of a plan ─────────────────────────────────────────────

/// What a group takes: its whole files and its hunk claims.
pub type Share = (Seq<Seq<char>>, Seq<(Seq<char>, Seq<usize>)>);

/// What the groups take, without their messages.
pub open spec fn shares(groups: Seq<GroupView>) -> Seq<Share> {
    groups.map_values(|g: GroupView| (g.whole, g.partial))
}

/// The values of all items, added up.
spec fn total<A>(items: Seq<A>, value: spec_fn(A) -> nat) -> nat
    decreases items.len(),
{
    if items.len() == 0 {
        0
    } else {
        total(items.drop_last(), value) + value(items.last())
    }
}

proof fn lemma_total_without<A>(items: Seq<A>, value: spec_fn(A) -> nat, j: int)
    requires
        0 <= j < items.len(),
    ensures
        total(items, value) == total(items.remove(j), value) + value(items[j]),
    decreases items.len(),
{
    let front = items.drop_last();
    if j == items.len() - 1 {
        assert(items.remove(j) =~= front);
    } else {
        lemma_total_without(front, value, j);
        assert(items.remove(j).drop_last() =~= front.remove(j));
        assert(items.remove(j).last() == items.last());
    }
}

/// The sum does not depend on the order of the items.
proof fn lemma_total_rearranged<A>(a: Seq<A>, b: Seq<A>, value: spec_fn(A) -> nat)
    requires
        a.to_multiset() == b.to_multiset(),
    ensures
        total(a, value) == total(b, value),
    decreases a.len(),
{
    a.to_multiset_ensures();
    b.to_multiset_ensures();
    if a.len() > 0 {
        let n = a.len() - 1;
        let x = a.last();
        assert(a[n] == x && a.contains(x));
        assert(a.to_multiset().count(x) > 0);
        assert(b.contains(x));
        let j = choose|j: int| 0 <= j < b.len() && b[j] == x;
        assert(a.remove(n) =~= a.drop_last());
        assert(a.remove(n).to_multiset() =~= b.remove(j).to_multiset());
        lemma_total_rearranged(a.drop_last(), b.remove(j), value);
        lemma_total_without(b, value, j);
    }
}

/// How often a group takes a file whole.
spec fn whole_times(path: Seq<char>) -> spec_fn(Share) -> nat {
    |s: Share| times(s.0, path)
}

/// How often a group splits a file.
spec fn split_times(path: Seq<char>) -> spec_fn(Share) -> nat {
    |s: Share| times(claim_paths(s.1), path)
}

/// How often a group claims a hunk of a file.
spec fn id_times(path: Seq<char>, id: usize) -> spec_fn(Share) -> nat {
    |s: Share| times(group_ids(s.1, path), id)
}

/// How many hunks of a file a group claims.
spec fn id_count(path: Seq<char>) -> spec_fn(Share) -> nat {
    |s: Share| group_ids(s.1, path).len()
}

proof fn lemma_claims_are_totals(groups: Seq<GroupView>, path: Seq<char>, id: usize)
    ensures
        times(wholes(plan_claims(groups)), path) == total(shares(groups), whole_times(path)),
        times(splits(plan_claims(groups)), path) == total(shares(groups), split_times(path)),
        times(hunk_ids(plan_claims(groups), path), id) == total(
            shares(groups),
            id_times(path, id),
        ),
        hunk_ids(plan_claims(groups), path).len() == total(shares(groups), id_count(path)),
    decreases groups.len(),
{
    lemma_plan_claims_its_groups(groups);
    if groups.len() > 0 {
        let front = groups.drop_last();
        let g = groups.last();
        lemma_claims_are_totals(front, path, id);
        lemma_plan_claims_its_groups(front);
        assert(shares(groups).drop_last() =~= shares(front));
        assert(shares(groups).last() == (g.whole, g.partial));
        lemma_times_add(whole_paths(front), g.whole, path);
        lemma_times_add(part_paths(front), claim_paths(g.partial), path);
        lemma_ids_of_last_group(groups, path);
        lemma_times_add(hunk_ids(plan_claims(front), path), group_ids(g.partial, path), id);
    }
}

proof fn lemma_rearranged_claims(
    a: Seq<GroupView>,
    b: Seq<GroupView>,
    path: Seq<char>,
    id: usize,
)
    requires
        shares(a).to_multiset() == shares(b).to_multiset(),
    ensures
        times(wholes(plan_claims(a)), path) == times(wholes(plan_claims(b)), path),
        times(splits(plan_claims(a)), path) == times(splits(plan_claims(b)), path),
        times(hunk_ids(plan_claims(a), path), id) == times(hunk_ids(plan_claims(b), path), id),
        hunk_ids(plan_claims(a), path).len() == hunk_ids(plan_claims(b), path).len(),
        wholes(plan_claims(a)).contains(path) == wholes(plan_claims(b)).contains(path),
        splits(plan_claims(a)).contains(path) == splits(plan_claims(b)).contains(path),
        hunk_ids(plan_claims(a), path).contains(id) == hunk_ids(plan_claims(b), path).contains(id),
{
    lemma_claims_are_totals(a, path, id);
    lemma_claims_are_totals(b, path, id);
    lemma_total_rearranged(shares(a), shares(b), whole_times(path));
    lemma_total_rearranged(shares(a), shares(b), split_times(path));
    lemma_total_rearranged(shares(a), shares(b), id_times(path, id));
    lemma_total_rearranged(shares(a), shares(b), id_count(path));
    lemma_times_positive(wholes(plan_claims(a)), path);
    lemma_times_positive(wholes(plan_claims(b)), path);
    lemma_times_positive(splits(plan_claims(a)), path);
    lemma_times_positive(splits(plan_claims(b)), path);
    lemma_times_positive(hunk_ids(plan_claims(a), path), id);
    lemma_times_positive(hunk_ids(plan_claims(b), path), id);
}

proof fn lemma_same_members<A>(a: Seq<A>, b: Seq<A>, x: A)
    requires
        a.to_multiset() == b.to_multiset(),
    ensures
        a.contains(x) == b.contains(x),
{
    vstd::seq_lib::to_multiset_contains(a, x);
    vstd::seq_lib::to_multiset_contains(b, x);
}

proof fn lemma_rearranged_ids(
    files: Seq<FileView>,
    a: Seq<GroupView>,
    b: Seq<GroupView>,
    path: Seq<char>,
)
    requires
        shares(a).to_multiset() == shares(b).to_multiset(),
        sound_ids(files, plan_claims(a), path),
    ensures
        sound_ids(files, plan_claims(b), path),
{
    let old_ids = hunk_ids(plan_claims(a), path);
    let ids = hunk_ids(plan_claims(b), path);
    assert forall|id: usize| #[trigger] times(ids, id) <= 1 by {
        lemma_rearranged_claims(a, b, path, id);
        lemma_times_at_most_once(old_ids, id);
    }
    lemma_at_most_once(ids);
    lemma_rearranged_claims(a, b, path, 0);
    assert forall|i: int| 0 <= i < ids.len() implies 1 <= #[trigger] ids[i] <= record(
        files,
        path,
    )->0.hunks.len() by {
        lemma_rearranged_claims(a, b, path, ids[i]);
        assert(ids.contains(ids[i]));
        let k = choose|k: int| 0 <= k < old_ids.len() && old_ids[k] == ids[i];
        assert(1 <= old_ids[k] <= record(files, path)->0.hunks.len());
    }
}

proof fn lemma_rearranged_partition(
    files: Seq<FileView>,
    a: Seq<GroupView>,
    b: Seq<GroupView>,
    wanted_a: Seq<Seq<char>>,
    wanted_b: Seq<Seq<char>>,
)
    requires
        shares(a).to_multiset() == shares(b).to_multiset(),
        wanted_a.to_multiset() == wanted_b.to_multiset(),
        partitions(files, a, wanted_a),
    ensures
        partitions(files, b, wanted_b),
{
    let ca = plan_claims(a);
    let cb = plan_claims(b);
    assert forall|g: int| 0 <= g < b.len() implies (#[trigger] b[g]).whole.len()
        + b[g].partial.len() > 0 by {
        let share = shares(b)[g];
        assert(shares(b).contains(share));
        lemma_same_members(shares(a), shares(b), share);
        let k = choose|k: int| 0 <= k < shares(a).len() && shares(a)[k] == share;
        assert(a[k].whole.len() + a[k].partial.len() > 0);
        assert(share == (b[g].whole, b[g].partial) && share == (a[k].whole, a[k].partial));
    }
    assert forall|p: Seq<char>| #[trigger] times(wholes(cb), p) <= 1 by {
        lemma_rearranged_claims(a, b, p, 0);
        lemma_times_at_most_once(wholes(ca), p);
    }
    lemma_at_most_once(wholes(cb));
    assert forall|p: Seq<char>| #[trigger] wholes(cb).contains(p) implies record(files, p) is Some
        && !splits(cb).contains(p) by {
        lemma_rearranged_claims(a, b, p, 0);
        assert(wholes(ca).contains(p));
    }
    assert forall|p: Seq<char>| #[trigger] splits(cb).contains(p) implies record(files, p) is Some
        && !record(files, p)->0.atomic by {
        lemma_rearranged_claims(a, b, p, 0);
        assert(splits(ca).contains(p));
    }
    assert forall|p: Seq<char>| #[trigger] sound_ids(files, cb, p) by {
        assert(sound_ids(files, ca, p));
        lemma_rearranged_ids(files, a, b, p);
    }
    assert(sound_claims(files, cb));
    assert forall|i: int| 0 <= i < files.len() implies covered(cb, #[trigger] files[i]) by {
        assert(covered(ca, files[i]));
        lemma_rearranged_claims(a, b, files[i].path, 0);
    }
    assert forall|i: int| 0 <= i < wanted_b.len() implies claimed(cb, #[trigger] wanted_b[i]) by {
        let p = wanted_b[i];
        assert(wanted_b.contains(p));
        lemma_same_members(wanted_a, wanted_b, p);
        let k = choose|k: int| 0 <= k < wanted_a.len() && wanted_a[k] == p;
        assert(claimed(ca, wanted_a[k]));
        lemma_rearranged_claims(a, b, p, 0);
    }
}

/// Whether a plan is accepted depends neither on the order of its groups, nor
/// on their messages, nor on the order of the expected paths.
pub proof fn lemma_order_does_not_matter(
    files: Seq<FileView>,
    a: Seq<GroupView>,
    b: Seq<GroupView>,
    wanted_a: Seq<Seq<char>>,
    wanted_b: Seq<Seq<char>>,
)
    requires
        shares(a).to_multiset() == shares(b).to_multiset(),
        wanted_a.to_multiset() == wanted_b.to_multiset(),
    ensures
        plan_fault(files, b, wanted_b) is None <==> plan_fault(files, a, wanted_a) is None,
{
    lemma_accepted_iff_partition(files, a, wanted_a);
    lemma_accepted_iff_partition(files, b, wanted_b);
    if partitions(files, a, wanted_a) {
        lemma_rearranged_partition(files, a, b, wanted_a, wanted_b);
    }
    if partitions(files, b, wanted_b) {
        lemma_rearranged_partition(files, b, a, wanted_b, wanted_a);
    }
}

} // verus!
