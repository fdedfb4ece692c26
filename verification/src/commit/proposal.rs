//! From the proposal of the backend to a plan.

use vstd::prelude::*;

use crate::analysis::{
    change_group_views, partial_file_views, ChangeGroup, ChangeGroupView, PartialFile,
};
use crate::engine::coverage::{
    claim_paths, lemma_contains_push, lemma_plan_claims_its_groups, part_paths, whole_paths,
};
use crate::engine::plan::{
    group_views, ids_text, join_ids, partial_views, plan_claims, splits, wholes, GroupView,
    PlanGroup,
};
use crate::pieces::{join, joined, last_of_split, last_piece};
use crate::text::{chars_of, copy_texts, lemma_texts_push, same_chars, starts_with, text_of, texts};

verus! {

// ── repairing paths ─────────────────────────────────────────────────

/// `s` without the prefix, as often as it begins with it.
pub open spec fn without_prefixes(s: Seq<char>, prefix: Seq<char>) -> Seq<char>
    decreases s.len(),
{
    if prefix.len() > 0 && prefix.is_prefix_of(s) {
        without_prefixes(s.skip(prefix.len() as int), prefix)
    } else {
        s
    }
}

/// A path without the prefixes that a model may put before it.
pub open spec fn cleaned_path(path: Seq<char>) -> Seq<char> {
    without_prefixes(without_prefixes(without_prefixes(path, "./"@), "b/"@), "a/"@)
}

/// The first of the paths with this file name.
pub open spec fn first_with_name(paths: Seq<Seq<char>>, name: Seq<char>) -> Option<Seq<char>>
    decreases paths.len(),
{
    if paths.len() == 0 {
        None
    } else {
        match first_with_name(paths.drop_last(), name) {
            Some(p) => Some(p),
            None => if last_piece(paths.last(), '/') == name {
                Some(paths.last())
            } else {
                None
            },
        }
    }
}

/// The changed path that a path of the proposal stands for: itself, itself
/// without added prefixes, or the first one with its file name. A path that
/// stands for none is kept.
pub open spec fn resolved(path: Seq<char>, actual: Seq<Seq<char>>) -> Seq<char> {
    let cleaned = cleaned_path(path);
    if actual.contains(path) {
        path
    } else if actual.contains(cleaned) {
        cleaned
    } else {
        match first_with_name(actual, last_piece(cleaned, '/')) {
            Some(found) => found,
            None => path,
        }
    }
}

/// The paths, each resolved.
pub open spec fn all_resolved(paths: Seq<Seq<char>>, actual: Seq<Seq<char>>) -> Seq<Seq<char>> {
    paths.map_values(|p: Seq<char>| resolved(p, actual))
}

/// The hunk claims with their paths resolved.
pub open spec fn claims_resolved(
    partial: Seq<(Seq<char>, Seq<usize>)>,
    actual: Seq<Seq<char>>,
) -> Seq<(Seq<char>, Seq<usize>)> {
    partial.map_values(|p: (Seq<char>, Seq<usize>)| (resolved(p.0, actual), p.1))
}

/// A group with its paths resolved.
pub open spec fn group_resolved(
    group: ChangeGroupView,
    actual: Seq<Seq<char>>,
) -> ChangeGroupView {
    ChangeGroupView {
        files: all_resolved(group.files, actual),
        commit_message: group.commit_message,
        rationale: group.rationale,
        partial_files: claims_resolved(group.partial_files, actual),
    }
}

/// The groups with their paths resolved.
pub open spec fn groups_resolved(
    groups: Seq<ChangeGroupView>,
    actual: Seq<Seq<char>>,
) -> Seq<ChangeGroupView> {
    groups.map_values(|g: ChangeGroupView| group_resolved(g, actual))
}

fn strip_prefixes<'a>(s: &'a [char], prefix: &str) -> (r: &'a [char])
    requires
        prefix@.len() > 0,
    ensures
        r@ == without_prefixes(s@, prefix@),
{
    let n = s.len();
    let width: usize = chars_of(prefix).len();
    let mut i: usize = 0;
    assert(s@.skip(0) =~= s@);
    assert(s@.subrange(0, n as int) =~= s@);
    loop
        invariant_except_break
            n == s@.len(),
            i <= n,
            width == prefix@.len(),
            width > 0,
            without_prefixes(s@, prefix@) == without_prefixes(s@.skip(i as int), prefix@),
        ensures
            i <= n,
            without_prefixes(s@, prefix@) == s@.skip(i as int),
        decreases n - i,
    {
        assert(s@.subrange(i as int, n as int) =~= s@.skip(i as int));
        if !starts_with(&s[i..n], prefix) {
            break ;
        }
        assert(s@.skip(i as int).skip(width as int) =~= s@.skip(i + width));
        i += width;
    }
    assert(s@.subrange(i as int, n as int) =~= s@.skip(i as int));
    &s[i..n]
}

fn holds_path(paths: &[String], path: &[char]) -> (r: bool)
    ensures
        r == texts(paths@).contains(path@),
{
    let ghost all = texts(paths@);
    for i in 0..paths.len()
        invariant
            all == texts(paths@),
            forall|j: int| 0 <= j < i ==> all[j] != path@,
    {
        assert(all[i as int] == paths@[i as int]@);
        let chars = chars_of(paths[i].as_str());
        if same_chars(chars.as_slice(), path) {
            return true;
        }
    }
    false
}

fn find_by_name(paths: &[String], name: &[char]) -> (r: Option<String>)
    ensures
        crate::text::text(r) == first_with_name(texts(paths@), name@),
{
    let ghost all = texts(paths@);
    let mut found: Option<String> = None;
    for i in 0..paths.len()
        invariant
            all == texts(paths@),
            crate::text::text(found) == first_with_name(all.take(i as int), name@),
    {
        assert(all.take(i + 1).drop_last() =~= all.take(i as int));
        assert(all.take(i + 1).last() == paths@[i as int]@);
        if found.is_none() {
            let chars = chars_of(paths[i].as_str());
            if same_chars(last_of_split(chars.as_slice(), '/'), name) {
                found = Some(paths[i].clone());
            }
        }
    }
    assert(all.take(all.len() as int) =~= all);
    found
}

fn resolve(path: &String, actual: &[String]) -> (r: String)
    ensures
        r@ == resolved(path@, texts(actual@)),
{
    proof {
        reveal_strlit("./");
        reveal_strlit("b/");
        reveal_strlit("a/");
    }
    let chars = chars_of(path.as_str());
    let whole = chars.as_slice();
    if holds_path(actual, whole) {
        return path.clone();
    }
    let cleaned = strip_prefixes(strip_prefixes(strip_prefixes(whole, "./"), "b/"), "a/");
    if holds_path(actual, cleaned) {
        return text_of(cleaned);
    }
    match find_by_name(actual, last_of_split(cleaned, '/')) {
        Some(found) => found,
        None => path.clone(),
    }
}

fn resolve_files(paths: &[String], actual: &[String]) -> (r: Vec<String>)
    ensures
        texts(r@) == all_resolved(texts(paths@), texts(actual@)),
{
    let ghost known = texts(actual@);
    let mut out: Vec<String> = Vec::new();
    for i in 0..paths.len()
        invariant
            known == texts(actual@),
            out@.len() == i,
            forall|j: int| 0 <= j < i ==> (#[trigger] out@[j])@ == resolved(paths@[j]@, known),
    {
        out.push(resolve(&paths[i], actual));
    }
    assert(texts(out@) =~= all_resolved(texts(paths@), known));
    out
}

fn copy_ids(ids: &[usize]) -> (r: Vec<usize>)
    ensures
        r@ == ids@,
{
    let mut out: Vec<usize> = Vec::new();
    for i in 0..ids.len()
        invariant
            out@ == ids@.take(i as int),
    {
        out.push(ids[i]);
        assert(ids@.take(i + 1) =~= ids@.take(i as int).push(ids@[i as int]));
    }
    assert(ids@.take(ids@.len() as int) =~= ids@);
    out
}

fn resolve_partial(partial: &[PartialFile], actual: &[String]) -> (r: Vec<PartialFile>)
    ensures
        partial_file_views(r@) == claims_resolved(partial_file_views(partial@), texts(actual@)),
{
    let ghost known = texts(actual@);
    let mut out: Vec<PartialFile> = Vec::new();
    for i in 0..partial.len()
        invariant
            known == texts(actual@),
            out@.len() == i,
            forall|j: int|
                0 <= j < i ==> (#[trigger] out@[j])@ == (
                    resolved(partial@[j].path@, known),
                    partial@[j].hunks@,
                ),
    {
        out.push(
            PartialFile {
                path: resolve(&partial[i].path, actual),
                hunks: copy_ids(partial[i].hunks.as_slice()),
            },
        );
    }
    assert(partial_file_views(out@) =~= claims_resolved(partial_file_views(partial@), known));
    out
}

fn resolve_group(group: &mut ChangeGroup, actual: &[String])
    ensures
        final(group)@ == group_resolved(old(group)@, texts(actual@)),
{
    group.files = resolve_files(group.files.as_slice(), actual);
    group.partial_files = resolve_partial(group.partial_files.as_slice(), actual);
}

/// Replace the paths of the groups by the changed paths that they stand for.
pub fn normalize_group_paths(groups: &mut Vec<ChangeGroup>, actual: &[String])
    ensures
        change_group_views(final(groups)@) == groups_resolved(
            change_group_views(old(groups)@),
            texts(actual@),
        ),
{
    let ghost given = groups@;
    let ghost known = texts(actual@);
    let n = groups.len();
    for i in 0..n
        invariant
            n == groups@.len(),
            given == old(groups)@,
            given.len() == n,
            known == texts(actual@),
            forall|j: int| 0 <= j < i ==> (#[trigger] groups@[j])@ == group_resolved(given[j]@, known),
            forall|j: int| i <= j < n ==> #[trigger] groups@[j] == given[j],
    {
        resolve_group(&mut groups[i], actual);
    }
    assert(change_group_views(groups@) =~= groups_resolved(change_group_views(given), known));
}

// ── building the plan ───────────────────────────────────────────────

/// The paths that are split anywhere in the proposal.
pub open spec fn split_paths(groups: Seq<ChangeGroupView>) -> Seq<Seq<char>>
    decreases groups.len(),
{
    if groups.len() == 0 {
        Seq::empty()
    } else {
        split_paths(groups.drop_last()) + claim_paths(groups.last().partial_files)
    }
}

/// The files that a group takes whole: those that are split nowhere, each once.
pub open spec fn kept_whole(files: Seq<Seq<char>>, split: Seq<Seq<char>>) -> Seq<Seq<char>>
    decreases files.len(),
{
    if files.len() == 0 {
        Seq::empty()
    } else {
        let before = kept_whole(files.drop_last(), split);
        if split.contains(files.last()) || before.contains(files.last()) {
            before
        } else {
            before.push(files.last())
        }
    }
}

/// The plan group that a proposed group becomes.
pub open spec fn planned(group: ChangeGroupView, split: Seq<Seq<char>>) -> GroupView {
    GroupView {
        message: group.commit_message,
        whole: kept_whole(group.files, split),
        partial: group.partial_files,
    }
}

/// The plan groups where these paths are split.
pub open spec fn plan_without(
    groups: Seq<ChangeGroupView>,
    split: Seq<Seq<char>>,
) -> Seq<GroupView> {
    groups.map_values(|g: ChangeGroupView| planned(g, split))
}

/// The plan that a proposal becomes.
pub open spec fn plan_of(groups: Seq<ChangeGroupView>) -> Seq<GroupView> {
    plan_without(groups, split_paths(groups))
}

fn gather_split(groups: &[ChangeGroup]) -> (r: Vec<String>)
    ensures
        texts(r@) == split_paths(change_group_views(groups@)),
{
    broadcast use lemma_texts_push;

    let ghost all = change_group_views(groups@);
    let mut out: Vec<String> = Vec::new();
    assert(texts(out@) =~= split_paths(all.take(0)));
    for i in 0..groups.len()
        invariant
            all == change_group_views(groups@),
            texts(out@) == split_paths(all.take(i as int)),
    {
        let ghost before = texts(out@);
        let partial = &groups[i].partial_files;
        let ghost paths = claim_paths(partial_file_views(partial@));
        assert(before + paths.take(0) =~= before);
        for j in 0..partial.len()
            invariant
                paths == claim_paths(partial_file_views(partial@)),
                texts(out@) == before + paths.take(j as int),
        {
            let ghost so_far = texts(out@);
            out.push(partial[j].path.clone());
            assert(texts(out@) == so_far.push(paths[j as int]));
            assert(paths.take(j + 1) =~= paths.take(j as int).push(paths[j as int]));
            assert(texts(out@) =~= before + paths.take(j + 1));
        }
        assert(paths.take(paths.len() as int) =~= paths);
        assert(all.take(i + 1).drop_last() =~= all.take(i as int));
        assert(all.take(i + 1).last() == groups@[i as int]@);
    }
    assert(all.take(all.len() as int) =~= all);
    out
}

fn keep_whole(files: &[String], split: &[String]) -> (r: Vec<String>)
    ensures
        texts(r@) == kept_whole(texts(files@), texts(split@)),
{
    broadcast use lemma_texts_push;

    let ghost all = texts(files@);
    let ghost gone = texts(split@);
    let mut out: Vec<String> = Vec::new();
    assert(texts(out@) =~= kept_whole(all.take(0), gone));
    for i in 0..files.len()
        invariant
            all == texts(files@),
            gone == texts(split@),
            texts(out@) == kept_whole(all.take(i as int), gone),
    {
        assert(all.take(i + 1).drop_last() =~= all.take(i as int));
        assert(all.take(i + 1).last() == files@[i as int]@);
        let path = chars_of(files[i].as_str());
        if !holds_path(split, path.as_slice()) && !holds_path(out.as_slice(), path.as_slice()) {
            out.push(files[i].clone());
        }
    }
    assert(all.take(all.len() as int) =~= all);
    out
}

fn copy_claims(partial: &[PartialFile]) -> (r: Vec<(String, Vec<usize>)>)
    ensures
        partial_views(r@) == partial_file_views(partial@),
{
    let mut out: Vec<(String, Vec<usize>)> = Vec::new();
    for i in 0..partial.len()
        invariant
            out@.len() == i,
            forall|j: int|
                0 <= j < i ==> (#[trigger] out@[j]).0@ == partial@[j].path@ && out@[j].1@
                    == partial@[j].hunks@,
    {
        out.push((partial[i].path.clone(), copy_ids(partial[i].hunks.as_slice())));
    }
    assert(partial_views(out@) =~= partial_file_views(partial@));
    out
}

/// Turn a proposal into a plan. A file that is split anywhere is taken whole
/// nowhere.
pub fn build_plan(groups: &[ChangeGroup]) -> (r: Vec<PlanGroup>)
    ensures
        group_views(r@) == plan_of(change_group_views(groups@)),
{
    let ghost all = change_group_views(groups@);
    let split = gather_split(groups);
    let ghost gone = split_paths(all);
    let mut out: Vec<PlanGroup> = Vec::new();
    for i in 0..groups.len()
        invariant
            all == change_group_views(groups@),
            gone == split_paths(all),
            gone == texts(split@),
            out@.len() == i,
            forall|j: int| 0 <= j < i ==> (#[trigger] out@[j])@ == planned(all[j], gone),
    {
        let group = &groups[i];
        assert(all[i as int] == group@);
        out.push(
            PlanGroup {
                message: group.commit_message.clone(),
                whole: keep_whole(group.files.as_slice(), split.as_slice()),
                partial: copy_claims(group.partial_files.as_slice()),
            },
        );
    }
    assert(group_views(out@) =~= plan_of(all));
    out
}

// ── describing the plan ─────────────────────────────────────────────

/// A hunk claim in words.
pub open spec fn claim_text(claim: (Seq<char>, Seq<usize>)) -> Seq<char> {
    claim.0 + " (hunks "@ + ids_text(claim.1) + ")"@
}

/// The whole files of a group and its hunk claims in words.
pub open spec fn group_parts(group: GroupView) -> Seq<Seq<char>> {
    group.whole + group.partial.map_values(|c: (Seq<char>, Seq<usize>)| claim_text(c))
}

/// One line that lists what a group holds.
pub open spec fn group_text(group: GroupView) -> Seq<char> {
    joined(group_parts(group), ", "@)
}

/// Write a hunk claim in words.
pub fn describe_claim(claim: &(String, Vec<usize>)) -> (r: String)
    ensures
        r@ == claim_text((claim.0@, claim.1@)),
{
    let mut out = claim.0.clone();
    out.append(" (hunks ");
    out.append(join_ids(claim.1.as_slice()).as_str());
    out.append(")");
    out
}

/// List the whole files of a group and its hunk claims.
pub fn group_items(group: &PlanGroup) -> (r: Vec<String>)
    ensures
        texts(r@) == group_parts(group@),
{
    broadcast use lemma_texts_push;

    let mut out = copy_texts(group.whole.as_slice());
    let ghost front = texts(group.whole@);
    let ghost claims = partial_views(group.partial@).map_values(
        |c: (Seq<char>, Seq<usize>)| claim_text(c),
    );
    assert(front + claims.take(0) =~= front);
    for i in 0..group.partial.len()
        invariant
            claims == partial_views(group.partial@).map_values(
                |c: (Seq<char>, Seq<usize>)| claim_text(c),
            ),
            texts(out@) == front + claims.take(i as int),
    {
        let ghost so_far = texts(out@);
        out.push(describe_claim(&group.partial[i]));
        assert(texts(out@) == so_far.push(claims[i as int]));
        assert(claims.take(i + 1) =~= claims.take(i as int).push(claims[i as int]));
        assert(texts(out@) =~= front + claims.take(i + 1));
    }
    assert(claims.take(claims.len() as int) =~= claims);
    out
}

/// Describe in one line what a group holds.
pub fn describe_group(group: &PlanGroup) -> (r: String)
    ensures
        r@ == group_text(group@),
{
    join(group_items(group).as_slice(), ", ")
}

// ── laws ────────────────────────────────────────────────────────────

proof fn lemma_first_with_name(paths: Seq<Seq<char>>, name: Seq<char>)
    ensures
        match first_with_name(paths, name) {
            Some(p) => paths.contains(p) && last_piece(p, '/') == name,
            None => forall|i: int| 0 <= i < paths.len() ==> last_piece(#[trigger] paths[i], '/') != name,
        },
    decreases paths.len(),
{
    if paths.len() > 0 {
        let front = paths.drop_last();
        lemma_first_with_name(front, name);
        assert(paths[paths.len() - 1] == paths.last());
        match first_with_name(front, name) {
            Some(p) => {
                let i = choose|i: int| 0 <= i < front.len() && front[i] == p;
                assert(paths[i] == p);
            },
            None => {
                if last_piece(paths.last(), '/') != name {
                    assert forall|i: int| 0 <= i < paths.len() implies last_piece(
                        #[trigger] paths[i],
                        '/',
                    ) != name by {
                        if i < front.len() {
                            assert(front[i] == paths[i]);
                        }
                    }
                }
            },
        }
    }
}

/// A changed path stands for itself. Any other path becomes a changed path or
/// is kept, and it becomes one where its file name is that of a changed path.
/// Resolving a second time changes nothing.
pub proof fn lemma_paths_resolve_to_changed_files(path: Seq<char>, actual: Seq<Seq<char>>)
    ensures
        actual.contains(path) ==> resolved(path, actual) == path,
        actual.contains(resolved(path, actual)) || resolved(path, actual) == path,
        (exists|i: int|
            0 <= i < actual.len() && last_piece(#[trigger] actual[i], '/') == last_piece(
                cleaned_path(path),
                '/',
            )) ==> actual.contains(resolved(path, actual)),
        resolved(resolved(path, actual), actual) == resolved(path, actual),
{
    lemma_first_with_name(actual, last_piece(cleaned_path(path), '/'));
}

proof fn lemma_kept_whole(files: Seq<Seq<char>>, split: Seq<Seq<char>>)
    ensures
        kept_whole(files, split).no_duplicates(),
        forall|p: Seq<char>| #[trigger]
            kept_whole(files, split).contains(p) <==> files.contains(p) && !split.contains(p),
    decreases files.len(),
{
    if files.len() > 0 {
        let front = files.drop_last();
        let f = files.last();
        lemma_kept_whole(front, split);
        assert(files =~= front.push(f));
        assert forall|p: Seq<char>| #[trigger] kept_whole(files, split).contains(p)
            <==> files.contains(p) && !split.contains(p) by {
            lemma_contains_push(front, f, p);
            lemma_contains_push(kept_whole(front, split), f, p);
        }
    }
}

/// In the plan of a proposal a group takes no file whole twice, and takes
/// whole exactly those of its files that no group splits.
pub proof fn lemma_planned_group(groups: Seq<ChangeGroupView>, g: int)
    requires
        0 <= g < groups.len(),
    ensures
        plan_of(groups)[g].whole.no_duplicates(),
        forall|p: Seq<char>| #[trigger]
            plan_of(groups)[g].whole.contains(p) <==> groups[g].files.contains(p) && !split_paths(
                groups,
            ).contains(p),
        plan_of(groups)[g].partial == groups[g].partial_files,
        plan_of(groups)[g].message == groups[g].commit_message,
{
    lemma_kept_whole(groups[g].files, split_paths(groups));
}

proof fn lemma_planned_parts(groups: Seq<ChangeGroupView>, split: Seq<Seq<char>>)
    ensures
        part_paths(plan_without(groups, split)) == split_paths(groups),
        forall|p: Seq<char>| #[trigger]
            whole_paths(plan_without(groups, split)).contains(p)
                ==> !split.contains(p),
    decreases groups.len(),
{
    let plan = plan_without(groups, split);
    if groups.len() > 0 {
        let front = groups.drop_last();
        lemma_planned_parts(front, split);
        let before = plan_without(front, split);
        assert(plan.drop_last() =~= before);
        lemma_kept_whole(groups.last().files, split);
        assert forall|p: Seq<char>| #[trigger] whole_paths(plan).contains(p) implies !split.contains(
            p,
        ) by {
            let all = whole_paths(plan);
            let i = choose|i: int| 0 <= i < all.len() && all[i] == p;
            let k = whole_paths(before).len();
            if i < k {
                assert(whole_paths(before)[i] == p);
                assert(whole_paths(before).contains(p));
            } else {
                assert(plan.last().whole[i - k] == p);
                assert(plan.last().whole.contains(p));
            }
        }
    }
}

/// The plan of a proposal takes no file both whole and in part.
pub proof fn lemma_split_files_are_never_whole(groups: Seq<ChangeGroupView>, path: Seq<char>)
    requires
        splits(plan_claims(plan_of(groups))).contains(path),
    ensures
        !wholes(plan_claims(plan_of(groups))).contains(path),
{
    lemma_plan_claims_its_groups(plan_of(groups));
    lemma_planned_parts(groups, split_paths(groups));
}

} // verus!
