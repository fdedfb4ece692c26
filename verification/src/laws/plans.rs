//! Which plans are accepted, and what a refusal tells.

use vstd::prelude::*;
use crate::analysis::ChangeGroupView;
use crate::commit::proposal::{kept_whole, plan_of, split_paths};
use crate::engine::coverage::{
    claim_paths, lemma_accepted_iff_partition, lemma_plan_claims_its_groups, lemma_prefixes,
    lemma_record_is_a_file, lemma_times_at_most_once, lemma_times_positive, lemma_times_push,
    part_paths, times, whole_paths,
};
use crate::engine::hunks::FileView;
use crate::engine::plan::{
    claim_fault, claimed, claims_fault, coverage_fault, covered, hunk_ids, inclusion_fault,
    missing_ids, plan_claims, plan_fault, record, refusal_text, splits, wholes, ClaimView,
    GroupView, PlanErrorView,
};
use crate::laws::texts::lemma_occurs_inside;
use crate::number::decimal_of;
use crate::text::occurs;

verus! {

/// The diff has a record with this path.
pub open spec fn in_diff(files: Seq<FileView>, path: Seq<char>) -> bool {
    exists|i: int| 0 <= i < files.len() && (#[trigger] files[i]).path == path
}

proof fn lemma_no_record(files: Seq<FileView>, path: Seq<char>)
    ensures
        record(files, path) is Some <==> in_diff(files, path),
    decreases files.len(),
{
    if files.len() > 0 {
        let front = files.drop_last();
        lemma_no_record(front, path);
        assert(files[files.len() - 1] == files.last());
        if in_diff(front, path) {
            let i = choose|i: int| 0 <= i < front.len() && (#[trigger] front[i]).path == path;
            assert(files[i].path == path);
        }
        if in_diff(files, path) && files.last().path != path {
            let i = choose|i: int| 0 <= i < files.len() && (#[trigger] files[i]).path == path;
            assert(front[i].path == path);
        }
    }
}

/// In an accepted plan no group is empty; only changed files are taken; no file
/// is taken whole twice, or whole and in part; only files that can be split are
/// taken in part; and every file of the diff and every expected path is taken.
pub proof fn lemma_accepted_plans(
    files: Seq<FileView>,
    groups: Seq<GroupView>,
    expected: Seq<Seq<char>>,
    path: Seq<char>,
)
    requires
        plan_fault(files, groups, expected) is None,
    ensures
        forall|g: int|
            0 <= g < groups.len() ==> (#[trigger] groups[g]).whole.len() > 0 || groups[g].partial.len()
                > 0,
        whole_paths(groups).contains(path) ==> in_diff(files, path) && !part_paths(groups).contains(
            path,
        ),
        times(whole_paths(groups), path) <= 1,
        part_paths(groups).contains(path) ==> exists|i: int|
            0 <= i < files.len() && (#[trigger] files[i]).path == path && !files[i].atomic,
        in_diff(files, path) || expected.contains(path) ==> whole_paths(groups).contains(path)
            || part_paths(groups).contains(path),
{
    let claims = plan_claims(groups);
    lemma_accepted_iff_partition(files, groups, expected);
    lemma_plan_claims_its_groups(groups);
    lemma_no_record(files, path);
    lemma_times_at_most_once(wholes(claims), path);
    if splits(claims).contains(path) {
        lemma_record_is_a_file(files, path);
        let i = choose|i: int|
            0 <= i < files.len() && #[trigger] files[i] == record(files, path)->0 && files[i].path
                == path;
        assert(!files[i].atomic);
    }
    if in_diff(files, path) {
        let i = choose|i: int| 0 <= i < files.len() && (#[trigger] files[i]).path == path;
        assert(covered(claims, files[i]));
    }
    if expected.contains(path) {
        let i = choose|i: int| 0 <= i < expected.len() && expected[i] == path;
        assert(claimed(claims, expected[i]));
    }
}

proof fn lemma_faulty_claim(files: Seq<FileView>, claims: Seq<ClaimView>)
    requires
        claims_fault(files, claims) is Some,
    ensures
        exists|j: int|
            0 <= j < claims.len() && claim_fault(files, claims.take(j), #[trigger] claims[j])
                == claims_fault(files, claims),
    decreases claims.len(),
{
    let front = claims.drop_last();
    if claims_fault(files, front) is Some {
        lemma_faulty_claim(files, front);
        let j = choose|j: int|
            0 <= j < front.len() && claim_fault(files, front.take(j), #[trigger] front[j])
                == claims_fault(files, front);
        assert(front.take(j) =~= claims.take(j));
        assert(claims[j] == front[j]);
    } else {
        let j = claims.len() - 1;
        assert(claims.take(j) =~= front);
        assert(claims[j] == claims.last());
    }
}

proof fn lemma_missing(ids: Seq<usize>, n: nat, id: usize)
    requires
        n <= usize::MAX,
    ensures
        missing_ids(ids, n).contains(id) <==> 1 <= id <= n && !ids.contains(id),
    decreases n,
{
    if n > 0 {
        lemma_missing(ids, (n - 1) as nat, id);
        if !ids.contains(n as usize) {
            crate::engine::coverage::lemma_contains_push(
                missing_ids(ids, (n - 1) as nat),
                n as usize,
                id,
            );
        }
    }
}

proof fn lemma_uncovered(files: Seq<FileView>, claims: Seq<ClaimView>, n: int)
    requires
        0 <= n <= files.len(),
        coverage_fault(files, claims, n) is Some,
    ensures
        exists|i: int|
            0 <= i < n && !covered(claims, #[trigger] files[i]) && coverage_fault(files, claims, n)
                == Some(
                PlanErrorView::Unaccounted {
                    path: files[i].path,
                    missing: missing_ids(hunk_ids(claims, files[i].path), files[i].hunks.len()),
                },
            ),
    decreases n,
{
    if n > 0 {
        if coverage_fault(files, claims, n - 1) is Some {
            lemma_uncovered(files, claims, n - 1);
        } else {
            assert(!covered(claims, files[n - 1]));
        }
    }
}

proof fn lemma_left_out(expected: Seq<Seq<char>>, claims: Seq<ClaimView>)
    requires
        inclusion_fault(expected, claims) is Some,
    ensures
        inclusion_fault(expected, claims) matches Some(PlanErrorView::NotIncluded { path })
            && expected.contains(path) && !claimed(claims, path),
    decreases expected.len(),
{
    let front = expected.drop_last();
    if inclusion_fault(front, claims) is Some {
        lemma_left_out(front, claims);
        let path = inclusion_fault(front, claims)->0->NotIncluded_path;
        let i = choose|i: int| 0 <= i < front.len() && front[i] == path;
        assert(expected[i] == path);
    } else {
        assert(expected[expected.len() - 1] == expected.last());
    }
}

/// A refusal is true: what it says of the plan and the diff holds.
pub open spec fn is_true(
    e: PlanErrorView,
    files: Seq<FileView>,
    groups: Seq<GroupView>,
    expected: Seq<Seq<char>>,
) -> bool {
    let claims = plan_claims(groups);
    match e {
        PlanErrorView::EmptyGroup { .. } => true,
        PlanErrorView::UnknownPath { path } => !in_diff(files, path),
        PlanErrorView::WholeTwice { path, .. } => times(whole_paths(groups), path) >= 2,
        PlanErrorView::Ambiguous { path } => whole_paths(groups).contains(path)
            && part_paths(groups).contains(path),
        PlanErrorView::NotSplittable { path } => exists|i: int|
            0 <= i < files.len() && (#[trigger] files[i]).path == path && files[i].atomic,
        PlanErrorView::HunkOutOfRange { path, hunks, hunk, .. } => !(1 <= hunk <= hunks) && exists|
            i: int,
        |
            0 <= i < files.len() && (#[trigger] files[i]).path == path && files[i].hunks.len()
                == hunks,
        PlanErrorView::HunkTwice { path, hunk } => times(hunk_ids(claims, path), hunk) >= 2,
        PlanErrorView::Unaccounted { path, missing } => in_diff(files, path) && !whole_paths(
            groups,
        ).contains(path) && forall|id: usize| #[trigger]
            missing.contains(id) ==> id >= 1 && !hunk_ids(claims, path).contains(id),
        PlanErrorView::NotIncluded { path } => expected.contains(path) && !whole_paths(
            groups,
        ).contains(path) && !part_paths(groups).contains(path),
    }
}

proof fn lemma_twice<A>(front: Seq<A>, all: Seq<A>, x: A)
    requires
        front.contains(x),
        front.push(x).is_prefix_of(all),
    ensures
        times(all, x) >= 2,
{
    lemma_times_positive(front, x);
    lemma_times_push(front, x, x);
    let n = front.len() as int + 1;
    assert(all =~= all.take(n) + all.skip(n));
    assert(all.take(n) =~= front.push(x));
    crate::engine::coverage::lemma_times_add(front.push(x), all.skip(n), x);
}

/// Whatever a plan is refused for is so.
pub proof fn lemma_refusals_are_true(
    files: Seq<FileView>,
    groups: Seq<GroupView>,
    expected: Seq<Seq<char>>,
)
    requires
        forall|i: int| 0 <= i < files.len() ==> (#[trigger] files[i]).hunks.len() <= usize::MAX,
    ensures
        plan_fault(files, groups, expected) matches Some(e) ==> is_true(e, files, groups, expected),
{
    let claims = plan_claims(groups);
    lemma_plan_claims_its_groups(groups);
    if claims_fault(files, claims) is Some {
        lemma_faulty_claim(files, claims);
        let j = choose|j: int|
            0 <= j < claims.len() && claim_fault(files, claims.take(j), #[trigger] claims[j])
                == claims_fault(files, claims);
        let before = claims.take(j);
        let now = claims.take(j + 1);
        assert(now.drop_last() =~= before);
        assert(now.last() == claims[j]);
        match claims[j] {
            ClaimView::Nothing { .. } => {},
            ClaimView::Whole { path, .. } => {
                lemma_no_record(files, path);
                lemma_prefixes(claims, j, path);
                lemma_prefixes(claims, j + 1, path);
                assert(wholes(now) == wholes(before).push(path));
                assert(wholes(now)[wholes(before).len() as int] == path);
                assert(wholes(claims)[wholes(before).len() as int] == path);
                if wholes(before).contains(path) {
                    lemma_twice(wholes(before), wholes(claims), path);
                }
                if splits(before).contains(path) {
                    let i = choose|i: int| 0 <= i < splits(before).len() && splits(before)[i] == path;
                    assert(splits(claims)[i] == path);
                }
            },
            ClaimView::Part { path, .. } => {
                lemma_no_record(files, path);
                if record(files, path) is Some {
                    lemma_record_is_a_file(files, path);
                }
                lemma_prefixes(claims, j, path);
                lemma_prefixes(claims, j + 1, path);
                assert(splits(now) == splits(before).push(path));
                assert(splits(now)[splits(before).len() as int] == path);
                assert(splits(claims)[splits(before).len() as int] == path);
                if wholes(before).contains(path) {
                    let i = choose|i: int| 0 <= i < wholes(before).len() && wholes(before)[i] == path;
                    assert(wholes(claims)[i] == path);
                }
            },
            ClaimView::Hunk { path, hunk, .. } => {
                lemma_no_record(files, path);
                if record(files, path) is Some {
                    lemma_record_is_a_file(files, path);
                }
                lemma_prefixes(claims, j + 1, path);
                assert(hunk_ids(now, path) == hunk_ids(before, path).push(hunk));
                if hunk_ids(before, path).contains(hunk) {
                    lemma_twice(hunk_ids(before, path), hunk_ids(claims, path), hunk);
                }
            },
        }
    } else if coverage_fault(files, claims, files.len() as int) is Some {
        lemma_uncovered(files, claims, files.len() as int);
        let i = choose|i: int|
            0 <= i < files.len() && !covered(claims, #[trigger] files[i]) && coverage_fault(
                files,
                claims,
                files.len() as int,
            ) == Some(
                PlanErrorView::Unaccounted {
                    path: files[i].path,
                    missing: missing_ids(hunk_ids(claims, files[i].path), files[i].hunks.len()),
                },
            );
        let ids = hunk_ids(claims, files[i].path);
        assert forall|id: usize| #[trigger]
            missing_ids(ids, files[i].hunks.len()).contains(id) implies id >= 1 && !ids.contains(id) by {
            lemma_missing(ids, files[i].hunks.len(), id);
        }
    } else if inclusion_fault(expected, claims) is Some {
        lemma_left_out(expected, claims);
    }
}

/// The file that a refusal is about is named in it.
pub proof fn lemma_refusals_name_the_file(e: PlanErrorView, path: Seq<char>)
    requires
        match e {
            PlanErrorView::EmptyGroup { message, .. } => message == path,
            PlanErrorView::UnknownPath { path: p } => p == path,
            PlanErrorView::WholeTwice { path: p, .. } => p == path,
            PlanErrorView::Ambiguous { path: p } => p == path,
            PlanErrorView::NotSplittable { path: p } => p == path,
            PlanErrorView::HunkOutOfRange { path: p, .. } => p == path,
            PlanErrorView::HunkTwice { path: p, .. } => p == path,
            PlanErrorView::Unaccounted { path: p, .. } => p == path,
            PlanErrorView::NotIncluded { path: p } => p == path,
        },
    ensures
        occurs(refusal_text(e), path),
{
    let s = refusal_text(e);
    let head = match e {
        PlanErrorView::EmptyGroup { group, .. } => "group "@ + decimal_of(group) + " ("@,
        PlanErrorView::NotIncluded { .. } => "changed file '"@,
        _ => "'"@,
    };
    let rest = s.skip((head + path).len() as int);
    assert(s =~= head + path + rest);
    lemma_occurs_inside(head, path, rest);
}

/// A file that is not fully taken is refused with exactly its hunks that no
/// group takes.
pub proof fn lemma_unclaimed_hunks_are_told(
    files: Seq<FileView>,
    groups: Seq<GroupView>,
    expected: Seq<Seq<char>>,
    id: usize,
)
    requires
        forall|i: int| 0 <= i < files.len() ==> (#[trigger] files[i]).hunks.len() <= usize::MAX,
        forall|i: int, j: int|
            0 <= i < j < files.len() ==> (#[trigger] files[i]).path != (#[trigger] files[j]).path,
    ensures
        plan_fault(files, groups, expected) matches Some(
            PlanErrorView::Unaccounted { path, missing },
        ) ==> forall|i: int|
            0 <= i < files.len() && (#[trigger] files[i]).path == path ==> (missing.contains(id)
                <==> 1 <= id <= files[i].hunks.len() && !hunk_ids(plan_claims(groups), path).contains(
                id,
            )),
{
    let claims = plan_claims(groups);
    if let Some(PlanErrorView::Unaccounted { path, missing }) = plan_fault(files, groups, expected) {
        if claims_fault(files, claims) is Some {
            lemma_faulty_claim(files, claims);
        } else if coverage_fault(files, claims, files.len() as int) is Some {
            lemma_uncovered(files, claims, files.len() as int);
            let k = choose|k: int|
                0 <= k < files.len() && !covered(claims, #[trigger] files[k]) && coverage_fault(
                    files,
                    claims,
                    files.len() as int,
                ) == Some(
                    PlanErrorView::Unaccounted {
                        path: files[k].path,
                        missing: missing_ids(hunk_ids(claims, files[k].path), files[k].hunks.len()),
                    },
                );
            assert forall|i: int|
                0 <= i < files.len() && (#[trigger] files[i]).path == path implies i == k by {}
            lemma_missing(hunk_ids(claims, path), files[k].hunks.len(), id);
        } else {
            lemma_left_out(expected, claims);
        }
    }
}

/// A group takes whole exactly those of its files that no group takes in part.
pub proof fn lemma_split_files_are_not_whole(groups: Seq<ChangeGroupView>, g: int, path: Seq<char>)
    requires
        0 <= g < groups.len(),
    ensures
        plan_of(groups).len() == groups.len(),
        plan_of(groups)[g].message == groups[g].commit_message,
        plan_of(groups)[g].partial == groups[g].partial_files,
        plan_of(groups)[g].whole.no_duplicates(),
        plan_of(groups)[g].whole.contains(path) <==> groups[g].files.contains(path) && !(exists|
            h: int,
            k: int,
        |
            0 <= h < groups.len() && 0 <= k < groups[h].partial_files.len() && (
            #[trigger] groups[h].partial_files[k]).0 == path),
{
    lemma_kept(groups[g].files, split_paths(groups), path);
    lemma_split_paths(groups, path);
}

proof fn lemma_kept(files: Seq<Seq<char>>, split: Seq<Seq<char>>, path: Seq<char>)
    ensures
        kept_whole(files, split).contains(path) <==> files.contains(path) && !split.contains(path),
        kept_whole(files, split).no_duplicates(),
    decreases files.len(),
{
    if files.len() > 0 {
        let front = files.drop_last();
        let last = files.last();
        let before = kept_whole(front, split);
        lemma_kept(front, split, path);
        lemma_kept(front, split, last);
        assert(files =~= front.push(last));
        assert(files.contains(path) <==> front.contains(path) || last == path) by {
            if files.contains(path) {
                let i = files.index_of(path);
                if i < front.len() {
                    assert(front[i] == path);
                }
            }
            if front.contains(path) {
                assert(files[front.index_of(path)] == path);
            }
            assert(files[files.len() - 1] == last);
        }
        let more = before.push(last);
        assert(more.contains(path) <==> before.contains(path) || last == path) by {
            if more.contains(path) {
                let i = more.index_of(path);
                if i < before.len() {
                    assert(before[i] == path);
                }
            }
            if before.contains(path) {
                assert(more[before.index_of(path)] == path);
            }
            assert(more[before.len() as int] == last);
        }
        if !before.contains(last) {
            assert(more.no_duplicates());
        }
    }
}

proof fn lemma_split_paths(groups: Seq<ChangeGroupView>, path: Seq<char>)
    ensures
        split_paths(groups).contains(path) <==> exists|h: int, k: int|
            0 <= h < groups.len() && 0 <= k < groups[h].partial_files.len() && (
            #[trigger] groups[h].partial_files[k]).0 == path,
    decreases groups.len(),
{
    if groups.len() > 0 {
        let front = groups.drop_last();
        let last = groups.last();
        let n = groups.len() - 1;
        lemma_split_paths(front, path);
        let a = split_paths(front);
        let b = claim_paths(last.partial_files);
        let all = split_paths(groups);
        assert(all == a + b);
        if all.contains(path) {
            let i = all.index_of(path);
            if i < a.len() {
                assert(a[i] == path);
                let (h, k) = choose|h: int, k: int|
                    0 <= h < front.len() && 0 <= k < front[h].partial_files.len() && (
                    #[trigger] front[h].partial_files[k]).0 == path;
                assert(groups[h].partial_files[k].0 == path);
            } else {
                assert(b[i - a.len()] == path);
                assert(groups[n].partial_files[i - a.len()].0 == path);
            }
        }
        if exists|h: int, k: int|
            0 <= h < groups.len() && 0 <= k < groups[h].partial_files.len() && (
            #[trigger] groups[h].partial_files[k]).0 == path {
            let (h, k) = choose|h: int, k: int|
                0 <= h < groups.len() && 0 <= k < groups[h].partial_files.len() && (
                #[trigger] groups[h].partial_files[k]).0 == path;
            if h < n {
                assert(front[h].partial_files[k].0 == path);
                assert(all[a.index_of(path)] == path);
            } else {
                assert(b[k] == path);
                assert(all[a.len() + k] == path);
            }
        }
    }
}

} // verus!
