//! Commit plans and the check that a plan covers a diff exactly once.

use vstd::prelude::*;

use crate::engine::hunks::{file_views, FileDiff, FileView};
use crate::number::{count, decimal_of};
use crate::pieces::joined;
use crate::text::{lemma_texts_push, texts};

verus! {

/// One commit's share of a diff: whole files, and hunks of split files.
#[derive(Debug, Clone)]
pub struct PlanGroup {
    pub message: String,
    pub whole: Vec<String>,
    /// Paths with hunk numbers counted from one, in claim order.
    pub partial: Vec<(String, Vec<usize>)>,
}

/// A plan group as texts.
pub struct GroupView {
    pub message: Seq<char>,
    pub whole: Seq<Seq<char>>,
    pub partial: Seq<(Seq<char>, Seq<usize>)>,
}

/// The hunk claims as texts and numbers.
pub open spec fn partial_views(partial: Seq<(String, Vec<usize>)>) -> Seq<(Seq<char>, Seq<usize>)> {
    partial.map_values(|p: (String, Vec<usize>)| (p.0@, p.1@))
}

impl View for PlanGroup {
    type V = GroupView;

    open spec fn view(&self) -> GroupView {
        GroupView {
            message: self.message@,
            whole: texts(self.whole@),
            partial: partial_views(self.partial@),
        }
    }
}

/// The groups as texts.
pub open spec fn group_views(groups: Seq<PlanGroup>) -> Seq<GroupView> {
    groups.map_values(|g: PlanGroup| g@)
}

// ── why a plan is refused ───────────────────────────────────────────

/// Why a plan is refused. Groups are counted from one.
#[derive(Debug, Clone)]
pub enum PlanError {
    /// A group claims nothing.
    EmptyGroup { group: usize, message: String },
    /// A claimed path is not in the diff.
    UnknownPath { path: String },
    /// A path is claimed whole a second time.
    WholeTwice { path: String, group: usize },
    /// A path is claimed whole and in part.
    Ambiguous { path: String },
    /// A file that can only be committed whole is claimed in part.
    NotSplittable { path: String },
    /// A claimed hunk does not exist.
    HunkOutOfRange { path: String, hunks: usize, group: usize, hunk: usize },
    /// A hunk is claimed a second time.
    HunkTwice { path: String, hunk: usize },
    /// Hunks of a file are claimed by no group.
    Unaccounted { path: String, missing: Vec<usize> },
    /// A changed file is in no group.
    NotIncluded { path: String },
}

/// The same with texts.
pub enum PlanErrorView {
    EmptyGroup { group: nat, message: Seq<char> },
    UnknownPath { path: Seq<char> },
    WholeTwice { path: Seq<char>, group: nat },
    Ambiguous { path: Seq<char> },
    NotSplittable { path: Seq<char> },
    HunkOutOfRange { path: Seq<char>, hunks: nat, group: nat, hunk: usize },
    HunkTwice { path: Seq<char>, hunk: usize },
    Unaccounted { path: Seq<char>, missing: Seq<usize> },
    NotIncluded { path: Seq<char> },
}

impl View for PlanError {
    type V = PlanErrorView;

    open spec fn view(&self) -> PlanErrorView {
        match self {
            PlanError::EmptyGroup { group, message } => PlanErrorView::EmptyGroup {
                group: *group as nat,
                message: message@,
            },
            PlanError::UnknownPath { path } => PlanErrorView::UnknownPath { path: path@ },
            PlanError::WholeTwice { path, group } => PlanErrorView::WholeTwice {
                path: path@,
                group: *group as nat,
            },
            PlanError::Ambiguous { path } => PlanErrorView::Ambiguous { path: path@ },
            PlanError::NotSplittable { path } => PlanErrorView::NotSplittable { path: path@ },
            PlanError::HunkOutOfRange { path, hunks, group, hunk } => {
                PlanErrorView::HunkOutOfRange {
                    path: path@,
                    hunks: *hunks as nat,
                    group: *group as nat,
                    hunk: *hunk,
                }
            },
            PlanError::HunkTwice { path, hunk } => PlanErrorView::HunkTwice {
                path: path@,
                hunk: *hunk,
            },
            PlanError::Unaccounted { path, missing } => PlanErrorView::Unaccounted {
                path: path@,
                missing: missing@,
            },
            PlanError::NotIncluded { path } => PlanErrorView::NotIncluded { path: path@ },
        }
    }
}

/// The numbers in decimal notation with commas between them.
pub open spec fn ids_text(ids: Seq<usize>) -> Seq<char> {
    joined(ids.map_values(|id: usize| decimal_of(id as nat)), ", "@)
}

/// Write the numbers with commas between them.
pub fn join_ids(ids: &[usize]) -> (r: String)
    ensures
        r@ == ids_text(ids@),
{
    broadcast use lemma_texts_push;

    let ghost all = ids@.map_values(|id: usize| decimal_of(id as nat));
    let mut shown: Vec<String> = Vec::new();
    for i in 0..ids.len()
        invariant
            all == ids@.map_values(|id: usize| decimal_of(id as nat)),
            texts(shown@) == all.take(i as int),
    {
        shown.push(count(ids[i]));
        assert(all.take(i + 1) =~= all.take(i as int).push(all[i as int]));
    }
    assert(all.take(all.len() as int) =~= all);
    crate::pieces::join(shown.as_slice(), ", ")
}

/// What a refusal is reported as.
pub open spec fn refusal_text(e: PlanErrorView) -> Seq<char> {
    match e {
        PlanErrorView::EmptyGroup { group, message } => "group "@ + decimal_of(group) + " ("@
            + message + ") has no files or hunks assigned"@,
        PlanErrorView::UnknownPath { path } => "'"@ + path
            + "' appears in the suggested split but is not part of the analyzed diff"@,
        PlanErrorView::WholeTwice { path, group } => "'"@ + path
            + "' is assigned whole to more than one group (already claimed before group "@
            + decimal_of(group) + ")"@,
        PlanErrorView::Ambiguous { path } => "'"@ + path
            + "' is claimed whole AND partially — ambiguous, refusing"@,
        PlanErrorView::NotSplittable { path } => "'"@ + path
            + "' cannot be split at hunk level (binary/new/deleted/renamed/mode-only) — assign it whole"@,
        PlanErrorView::HunkOutOfRange { path, hunks, group, hunk } => "'"@ + path + "' has "@
            + decimal_of(hunks) + " hunk(s), but group "@ + decimal_of(group)
            + " references hunk "@ + decimal_of(hunk as nat),
        PlanErrorView::HunkTwice { path, hunk } => "'"@ + path + "' hunk "@ + decimal_of(
            hunk as nat,
        ) + " is assigned more than once"@,
        PlanErrorView::Unaccounted { path, missing } => "'"@ + path
            + "' is not fully accounted for — unclaimed hunk(s): "@ + ids_text(missing)
            + "; every changed line must belong to exactly one group"@,
        PlanErrorView::NotIncluded { path } => "changed file '"@ + path
            + "' was not included in any group"@,
    }
}

impl PlanError {
    /// What the refusal is reported as.
    pub fn describe(&self) -> (r: String)
        ensures
            r@ == refusal_text(self@),
    {
        match self {
            PlanError::EmptyGroup { group, message } => {
                let mut out = "group ".to_owned();
                out.append(count(*group).as_str());
                out.append(" (");
                out.append(message.as_str());
                out.append(") has no files or hunks assigned");
                out
            },
            PlanError::UnknownPath { path } => {
                let mut out = "'".to_owned();
                out.append(path.as_str());
                out.append("' appears in the suggested split but is not part of the analyzed diff");
                out
            },
            PlanError::WholeTwice { path, group } => {
                let mut out = "'".to_owned();
                out.append(path.as_str());
                out.append(
                    "' is assigned whole to more than one group (already claimed before group ",
                );
                out.append(count(*group).as_str());
                out.append(")");
                out
            },
            PlanError::Ambiguous { path } => {
                let mut out = "'".to_owned();
                out.append(path.as_str());
                out.append("' is claimed whole AND partially — ambiguous, refusing");
                out
            },
            PlanError::NotSplittable { path } => {
                let mut out = "'".to_owned();
                out.append(path.as_str());
                out.append(
                    "' cannot be split at hunk level (binary/new/deleted/renamed/mode-only) — assign it whole",
                );
                out
            },
            PlanError::HunkOutOfRange { path, hunks, group, hunk } => {
                let mut out = "'".to_owned();
                out.append(path.as_str());
                out.append("' has ");
                out.append(count(*hunks).as_str());
                out.append(" hunk(s), but group ");
                out.append(count(*group).as_str());
                out.append(" references hunk ");
                out.append(count(*hunk).as_str());
                out
            },
            PlanError::HunkTwice { path, hunk } => {
                let mut out = "'".to_owned();
                out.append(path.as_str());
                out.append("' hunk ");
                out.append(count(*hunk).as_str());
                out.append(" is assigned more than once");
                out
            },
            PlanError::Unaccounted { path, missing } => {
                let mut out = "'".to_owned();
                out.append(path.as_str());
                out.append("' is not fully accounted for — unclaimed hunk(s): ");
                out.append(join_ids(missing.as_slice()).as_str());
                out.append("; every changed line must belong to exactly one group");
                out
            },
            PlanError::NotIncluded { path } => {
                let mut out = "changed file '".to_owned();
                out.append(path.as_str());
                out.append("' was not included in any group");
                out
            },
        }
    }
}

// ── claims ──────────────────────────────────────────────────────────

/// What a plan claims, one claim after the other. `group` counts from one.
pub enum ClaimView {
    /// The group claims nothing.
    Nothing { group: nat, message: Seq<char> },
    /// The group takes a whole file.
    Whole { group: nat, path: Seq<char> },
    /// The group takes hunks of a file.
    Part { group: nat, path: Seq<char> },
    /// The group takes one hunk of a file.
    Hunk { group: nat, path: Seq<char>, hunk: usize },
}

/// The claims of whole files.
pub open spec fn whole_claims(paths: Seq<Seq<char>>, group: nat) -> Seq<ClaimView> {
    paths.map_values(|path: Seq<char>| ClaimView::Whole { group, path })
}

/// The claims of hunks of one file.
pub open spec fn id_claims(path: Seq<char>, ids: Seq<usize>, group: nat) -> Seq<ClaimView> {
    ids.map_values(|hunk: usize| ClaimView::Hunk { group, path, hunk })
}

/// The claims of the split files of a group.
pub open spec fn partial_claims(partial: Seq<(Seq<char>, Seq<usize>)>, group: nat) -> Seq<ClaimView>
    decreases partial.len(),
{
    if partial.len() == 0 {
        Seq::empty()
    } else {
        let (path, ids) = partial.last();
        partial_claims(partial.drop_last(), group) + seq![ClaimView::Part { group, path }]
            + id_claims(path, ids, group)
    }
}

/// The claims of a group: its whole files first.
pub open spec fn group_claims(g: GroupView, group: nat) -> Seq<ClaimView> {
    if g.whole.len() == 0 && g.partial.len() == 0 {
        seq![ClaimView::Nothing { group, message: g.message }]
    } else {
        whole_claims(g.whole, group) + partial_claims(g.partial, group)
    }
}

/// The claims of a plan, group by group.
pub open spec fn plan_claims(groups: Seq<GroupView>) -> Seq<ClaimView>
    decreases groups.len(),
{
    if groups.len() == 0 {
        Seq::empty()
    } else {
        plan_claims(groups.drop_last()) + group_claims(groups.last(), groups.len())
    }
}

/// The paths that are claimed whole, in claim order.
pub open spec fn wholes(claims: Seq<ClaimView>) -> Seq<Seq<char>>
    decreases claims.len(),
{
    if claims.len() == 0 {
        Seq::empty()
    } else {
        let before = wholes(claims.drop_last());
        match claims.last() {
            ClaimView::Whole { path, .. } => before.push(path),
            _ => before,
        }
    }
}

/// The paths that are claimed in part, in claim order.
pub open spec fn splits(claims: Seq<ClaimView>) -> Seq<Seq<char>>
    decreases claims.len(),
{
    if claims.len() == 0 {
        Seq::empty()
    } else {
        let before = splits(claims.drop_last());
        match claims.last() {
            ClaimView::Part { path, .. } => before.push(path),
            _ => before,
        }
    }
}

/// The numbers of the hunks of `path` that are claimed, in claim order.
pub open spec fn hunk_ids(claims: Seq<ClaimView>, path: Seq<char>) -> Seq<usize>
    decreases claims.len(),
{
    if claims.len() == 0 {
        Seq::empty()
    } else {
        let before = hunk_ids(claims.drop_last(), path);
        match claims.last() {
            ClaimView::Hunk { path: p, hunk, .. } => if p == path {
                before.push(hunk)
            } else {
                before
            },
            _ => before,
        }
    }
}

/// The record that a path stands for: the last one with that path.
pub open spec fn record(files: Seq<FileView>, path: Seq<char>) -> Option<FileView>
    decreases files.len(),
{
    if files.len() == 0 {
        None
    } else if files.last().path == path {
        Some(files.last())
    } else {
        record(files.drop_last(), path)
    }
}

/// What is wrong with a claim that comes after the claims `before`.
pub open spec fn claim_fault(files: Seq<FileView>, before: Seq<ClaimView>, claim: ClaimView) -> Option<
    PlanErrorView,
> {
    match claim {
        ClaimView::Nothing { group, message } => Some(
            PlanErrorView::EmptyGroup { group, message },
        ),
        ClaimView::Whole { group, path } => if record(files, path) is None {
            Some(PlanErrorView::UnknownPath { path })
        } else if wholes(before).contains(path) {
            Some(PlanErrorView::WholeTwice { path, group })
        } else if splits(before).contains(path) {
            Some(PlanErrorView::Ambiguous { path })
        } else {
            None
        },
        ClaimView::Part { group, path } => match record(files, path) {
            None => Some(PlanErrorView::UnknownPath { path }),
            Some(file) => if file.atomic {
                Some(PlanErrorView::NotSplittable { path })
            } else if wholes(before).contains(path) {
                Some(PlanErrorView::Ambiguous { path })
            } else {
                None
            },
        },
        ClaimView::Hunk { group, path, hunk } => match record(files, path) {
            None => Some(PlanErrorView::UnknownPath { path }),
            Some(file) => if !(1 <= hunk <= file.hunks.len()) {
                Some(PlanErrorView::HunkOutOfRange { path, hunks: file.hunks.len(), group, hunk })
            } else if hunk_ids(before, path).contains(hunk) {
                Some(PlanErrorView::HunkTwice { path, hunk })
            } else {
                None
            },
        },
    }
}

/// What is wrong with the first faulty claim.
pub open spec fn claims_fault(files: Seq<FileView>, claims: Seq<ClaimView>) -> Option<PlanErrorView>
    decreases claims.len(),
{
    if claims.len() == 0 {
        None
    } else {
        match claims_fault(files, claims.drop_last()) {
            Some(e) => Some(e),
            None => claim_fault(files, claims.drop_last(), claims.last()),
        }
    }
}

/// Whether the claims take the whole file or all of its hunks.
pub open spec fn covered(claims: Seq<ClaimView>, file: FileView) -> bool {
    ||| wholes(claims).contains(file.path)
    ||| splits(claims).contains(file.path) && hunk_ids(claims, file.path).len() == file.hunks.len()
}

/// The numbers up to `n` that are not among `ids`.
pub open spec fn missing_ids(ids: Seq<usize>, n: nat) -> Seq<usize>
    decreases n,
{
    if n == 0 {
        Seq::empty()
    } else if ids.contains(n as usize) {
        missing_ids(ids, (n - 1) as nat)
    } else {
        missing_ids(ids, (n - 1) as nat).push(n as usize)
    }
}

/// The first file that the claims do not cover.
pub open spec fn coverage_fault(files: Seq<FileView>, claims: Seq<ClaimView>, n: int) -> Option<
    PlanErrorView,
>
    decreases n,
{
    if n <= 0 {
        None
    } else {
        match coverage_fault(files, claims, n - 1) {
            Some(e) => Some(e),
            None => {
                let file = files[n - 1];
                if covered(claims, file) {
                    None
                } else {
                    Some(
                        PlanErrorView::Unaccounted {
                            path: file.path,
                            missing: missing_ids(hunk_ids(claims, file.path), file.hunks.len()),
                        },
                    )
                }
            },
        }
    }
}

/// Whether a path is claimed at all.
pub open spec fn claimed(claims: Seq<ClaimView>, path: Seq<char>) -> bool {
    wholes(claims).contains(path) || splits(claims).contains(path)
}

/// The first expected path that no claim names.
pub open spec fn inclusion_fault(expected: Seq<Seq<char>>, claims: Seq<ClaimView>) -> Option<
    PlanErrorView,
>
    decreases expected.len(),
{
    if expected.len() == 0 {
        None
    } else {
        match inclusion_fault(expected.drop_last(), claims) {
            Some(e) => Some(e),
            None => if claimed(claims, expected.last()) {
                None
            } else {
                Some(PlanErrorView::NotIncluded { path: expected.last() })
            },
        }
    }
}

/// Why a plan is refused for a diff: the first faulty claim, else the first
/// file that is not covered, else the first expected path that is missing.
pub open spec fn plan_fault(
    files: Seq<FileView>,
    groups: Seq<GroupView>,
    expected: Seq<Seq<char>>,
) -> Option<PlanErrorView> {
    let claims = plan_claims(groups);
    match claims_fault(files, claims) {
        Some(e) => Some(e),
        None => match coverage_fault(files, claims, files.len() as int) {
            Some(e) => Some(e),
            None => inclusion_fault(expected, claims),
        },
    }
}

// ── checking ────────────────────────────────────────────────────────

/// One claim of a plan.
enum Claim<'a> {
    Nothing { group: usize, message: &'a String },
    Whole { group: usize, path: &'a String },
    Part { group: usize, path: &'a String },
    Hunk { group: usize, path: &'a String, hunk: usize },
}

impl<'a> View for Claim<'a> {
    type V = ClaimView;

    closed spec fn view(&self) -> ClaimView {
        match self {
            Claim::Nothing { group, message } => ClaimView::Nothing {
                group: *group as nat,
                message: message@,
            },
            Claim::Whole { group, path } => ClaimView::Whole { group: *group as nat, path: path@ },
            Claim::Part { group, path } => ClaimView::Part { group: *group as nat, path: path@ },
            Claim::Hunk { group, path, hunk } => ClaimView::Hunk {
                group: *group as nat,
                path: path@,
                hunk: *hunk,
            },
        }
    }
}

spec fn claim_views(claims: Seq<Claim>) -> Seq<ClaimView> {
    claims.map_values(|c: Claim| c@)
}

proof fn lemma_claim_views_push(claims: Seq<Claim>, c: Claim)
    ensures
        claim_views(claims.push(c)) == claim_views(claims).push(c@),
{
    assert(claim_views(claims.push(c)) =~= claim_views(claims).push(c@));
}

/// Put the claims of a group at the end of `out`.
fn push_group_claims<'a>(out: &mut Vec<Claim<'a>>, g: &'a PlanGroup, group: usize)
    ensures
        claim_views(final(out)@) == claim_views(old(out)@) + group_claims(g@, group as nat),
{
    let ghost start = claim_views(out@);
    if g.whole.len() == 0 && g.partial.len() == 0 {
        out.push(Claim::Nothing { group, message: &g.message });
        assert(claim_views(out@) =~= start + group_claims(g@, group as nat));
        return ;
    }
    let ghost whole_part = whole_claims(texts(g.whole@), group as nat);
    for i in 0..g.whole.len()
        invariant
            whole_part == whole_claims(texts(g.whole@), group as nat),
            claim_views(out@) =~= start + whole_part.take(i as int),
    {
        let claim = Claim::Whole { group, path: &g.whole[i] };
        proof {
            lemma_claim_views_push(out@, claim);
            assert(whole_part[i as int] == claim@);
        }
        out.push(claim);
    }
    assert(whole_part.take(whole_part.len() as int) =~= whole_part);
    let ghost partial = partial_views(g.partial@);
    assert(partial_claims(partial.take(0), group as nat) =~= Seq::empty());
    for i in 0..g.partial.len()
        invariant
            partial == partial_views(g.partial@),
            claim_views(out@) =~= start + whole_part + partial_claims(
                partial.take(i as int),
                group as nat,
            ),
    {
        let entry = &g.partial[i];
        let ghost before = partial_claims(partial.take(i as int), group as nat);
        let ghost path = entry.0@;
        let ghost hunk_part = id_claims(path, entry.1@, group as nat);
        out.push(Claim::Part { group, path: &entry.0 });
        for j in 0..entry.1.len()
            invariant
                path == entry.0@,
                hunk_part == id_claims(path, entry.1@, group as nat),
                claim_views(out@) =~= start + whole_part + before + seq![
                    ClaimView::Part { group: group as nat, path },
                ] + hunk_part.take(j as int),
        {
            let claim = Claim::Hunk { group, path: &entry.0, hunk: entry.1[j] };
            proof {
                lemma_claim_views_push(out@, claim);
                assert(hunk_part[j as int] == claim@);
            }
            out.push(claim);
        }
        assert(hunk_part.take(hunk_part.len() as int) =~= hunk_part);
        assert(partial.take(i + 1).drop_last() =~= partial.take(i as int));
        assert(partial.take(i + 1).last() == (entry.0@, entry.1@));
        assert(partial_claims(partial.take(i + 1), group as nat) == before + seq![
            ClaimView::Part { group: group as nat, path },
        ] + hunk_part);
        assert(claim_views(out@) =~= start + whole_part + partial_claims(
            partial.take(i + 1),
            group as nat,
        ));
    }
    assert(partial.take(partial.len() as int) =~= partial);
    assert(claim_views(out@) =~= start + group_claims(g@, group as nat));
}

/// The claims of a plan, group by group.
fn claims_of(groups: &[PlanGroup]) -> (r: Vec<Claim<'_>>)
    ensures
        claim_views(r@) == plan_claims(group_views(groups@)),
{
    let mut out: Vec<Claim<'_>> = Vec::new();
    let ghost all = group_views(groups@);
    assert(claim_views(out@) =~= plan_claims(all.take(0)));
    for i in 0..groups.len()
        invariant
            all == group_views(groups@),
            claim_views(out@) == plan_claims(all.take(i as int)),
    {
        assert(all.take(i + 1).drop_last() =~= all.take(i as int));
        push_group_claims(&mut out, &groups[i], i + 1);
    }
    assert(all.take(all.len() as int) =~= all);
    out
}

proof fn lemma_push_contains<A>(s: Seq<A>, a: A)
    ensures
        forall|x: A| #[trigger] s.push(a).contains(x) <==> s.contains(x) || x == a,
{
    assert forall|x: A| #[trigger] s.push(a).contains(x) <==> s.contains(x) || x == a by {
        assert(s.push(a)[s.len() as int] == a);
        if s.contains(x) {
            let i = choose|i: int| 0 <= i < s.len() && s[i] == x;
            assert(s.push(a)[i] == x);
        }
    }
}

/// Whether one of the first `n` claims takes `path` whole.
fn taken_whole(claims: &[Claim<'_>], n: usize, path: &String) -> (r: bool)
    requires
        n <= claims@.len(),
    ensures
        r == wholes(claim_views(claims@).take(n as int)).contains(path@),
{
    let ghost all = claim_views(claims@);
    for i in 0..n
        invariant
            n <= claims@.len(),
            all == claim_views(claims@),
            !wholes(all.take(i as int)).contains(path@),
    {
        assert(all.take(i + 1).drop_last() =~= all.take(i as int));
        assert(all.take(i + 1).last() == claims@[i as int]@);
        if let Claim::Whole { group: _, path: p } = &claims[i] {
            proof {
                lemma_push_contains(wholes(all.take(i as int)), p@);
            }
            if **p == *path {
                proof {
                    lemma_wholes_grow(all, i + 1, n as int, path@);
                }
                return true;
            }
        }
    }
    false
}

proof fn lemma_wholes_grow(claims: Seq<ClaimView>, i: int, n: int, path: Seq<char>)
    requires
        0 <= i <= n <= claims.len(),
        wholes(claims.take(i)).contains(path),
    ensures
        wholes(claims.take(n)).contains(path),
    decreases n - i,
{
    if i < n {
        assert(claims.take(i + 1).drop_last() =~= claims.take(i));
        if let ClaimView::Whole { group, path: p } = claims[i] {
            lemma_push_contains(wholes(claims.take(i)), p);
        }
        lemma_wholes_grow(claims, i + 1, n, path);
    }
}

proof fn lemma_splits_grow(claims: Seq<ClaimView>, i: int, n: int, path: Seq<char>)
    requires
        0 <= i <= n <= claims.len(),
        splits(claims.take(i)).contains(path),
    ensures
        splits(claims.take(n)).contains(path),
    decreases n - i,
{
    if i < n {
        assert(claims.take(i + 1).drop_last() =~= claims.take(i));
        if let ClaimView::Part { group, path: p } = claims[i] {
            lemma_push_contains(splits(claims.take(i)), p);
        }
        lemma_splits_grow(claims, i + 1, n, path);
    }
}

/// Whether one of the first `n` claims takes part of `path`.
fn taken_in_part(claims: &[Claim<'_>], n: usize, path: &String) -> (r: bool)
    requires
        n <= claims@.len(),
    ensures
        r == splits(claim_views(claims@).take(n as int)).contains(path@),
{
    let ghost all = claim_views(claims@);
    for i in 0..n
        invariant
            n <= claims@.len(),
            all == claim_views(claims@),
            !splits(all.take(i as int)).contains(path@),
    {
        assert(all.take(i + 1).drop_last() =~= all.take(i as int));
        assert(all.take(i + 1).last() == claims@[i as int]@);
        if let Claim::Part { group: _, path: p } = &claims[i] {
            proof {
                lemma_push_contains(splits(all.take(i as int)), p@);
            }
            if **p == *path {
                proof {
                    lemma_splits_grow(all, i + 1, n as int, path@);
                }
                return true;
            }
        }
    }
    false
}

/// The hunks of `path` among the first `n` claims.
fn taken_hunks(claims: &[Claim<'_>], n: usize, path: &String) -> (r: Vec<usize>)
    requires
        n <= claims@.len(),
    ensures
        r@ == hunk_ids(claim_views(claims@).take(n as int), path@),
{
    let ghost all = claim_views(claims@);
    let mut out: Vec<usize> = Vec::new();
    for i in 0..n
        invariant
            n <= claims@.len(),
            all == claim_views(claims@),
            out@ == hunk_ids(all.take(i as int), path@),
    {
        assert(all.take(i + 1).drop_last() =~= all.take(i as int));
        assert(all.take(i + 1).last() == claims@[i as int]@);
        if let Claim::Hunk { group: _, path: p, hunk } = &claims[i] {
            if **p == *path {
                out.push(*hunk);
            }
        }
    }
    out
}

fn has_id(ids: &[usize], id: usize) -> (r: bool)
    ensures
        r == ids@.contains(id),
{
    for i in 0..ids.len()
        invariant
            forall|j: int| 0 <= j < i ==> ids@[j] != id,
    {
        if ids[i] == id {
            return true;
        }
    }
    false
}

/// Find the record that a path stands for.
fn lookup<'a>(files: &'a [FileDiff], path: &String) -> (r: Option<&'a FileDiff>)
    ensures
        match r {
            Some(file) => record(file_views(files@), path@) == Some(file@),
            None => record(file_views(files@), path@) is None,
        },
{
    let ghost all = file_views(files@);
    let mut n: usize = files.len();
    assert(all.take(n as int) =~= all);
    while n > 0
        invariant
            n <= files@.len(),
            all == file_views(files@),
            record(all, path@) == record(all.take(n as int), path@),
        decreases n,
    {
        assert(all.take(n as int).last() == files@[n - 1]@);
        if files[n - 1].path == *path {
            return Some(&files[n - 1]);
        }
        assert(all.take(n as int).drop_last() =~= all.take(n - 1));
        n -= 1;
    }
    None
}

/// Check the claim at place `n` against the claims before it.
fn check_claim(files: &[FileDiff], claims: &[Claim<'_>], n: usize) -> (r: Result<(), PlanError>)
    requires
        n < claims@.len(),
    ensures
        match r {
            Ok(()) => claim_fault(
                file_views(files@),
                claim_views(claims@).take(n as int),
                claims@[n as int]@,
            ) is None,
            Err(e) => claim_fault(
                file_views(files@),
                claim_views(claims@).take(n as int),
                claims@[n as int]@,
            ) == Some(e@),
        },
{
    match &claims[n] {
        Claim::Nothing { group, message } => Err(
            PlanError::EmptyGroup { group: *group, message: (*message).clone() },
        ),
        Claim::Whole { group, path } => {
            if lookup(files, path).is_none() {
                return Err(PlanError::UnknownPath { path: (*path).clone() });
            }
            if taken_whole(claims, n, path) {
                return Err(PlanError::WholeTwice { path: (*path).clone(), group: *group });
            }
            if taken_in_part(claims, n, path) {
                return Err(PlanError::Ambiguous { path: (*path).clone() });
            }
            Ok(())
        },
        Claim::Part { group: _, path } => match lookup(files, path) {
            None => Err(PlanError::UnknownPath { path: (*path).clone() }),
            Some(file) => {
                if file.atomic {
                    return Err(PlanError::NotSplittable { path: (*path).clone() });
                }
                if taken_whole(claims, n, path) {
                    return Err(PlanError::Ambiguous { path: (*path).clone() });
                }
                Ok(())
            },
        },
        Claim::Hunk { group, path, hunk } => match lookup(files, path) {
            None => Err(PlanError::UnknownPath { path: (*path).clone() }),
            Some(file) => {
                assert(file@.hunks.len() == file.hunks@.len());
                if *hunk == 0 || *hunk > file.hunks.len() {
                    return Err(
                        PlanError::HunkOutOfRange {
                            path: (*path).clone(),
                            hunks: file.hunks.len(),
                            group: *group,
                            hunk: *hunk,
                        },
                    );
                }
                let ids = taken_hunks(claims, n, path);
                if has_id(ids.as_slice(), *hunk) {
                    return Err(PlanError::HunkTwice { path: (*path).clone(), hunk: *hunk });
                }
                Ok(())
            },
        },
    }
}

proof fn lemma_first_fault(files: Seq<FileView>, claims: Seq<ClaimView>, n: int)
    requires
        0 <= n <= claims.len(),
        claims_fault(files, claims.take(n)) is Some,
    ensures
        claims_fault(files, claims) == claims_fault(files, claims.take(n)),
    decreases claims.len() - n,
{
    if n == claims.len() {
        assert(claims.take(n) =~= claims);
    } else {
        assert(claims.take(n + 1).drop_last() =~= claims.take(n));
        lemma_first_fault(files, claims, n + 1);
    }
}

proof fn lemma_first_uncovered(files: Seq<FileView>, claims: Seq<ClaimView>, i: int, n: int)
    requires
        0 <= i <= n,
        coverage_fault(files, claims, i) is Some,
    ensures
        coverage_fault(files, claims, n) == coverage_fault(files, claims, i),
    decreases n - i,
{
    if i < n {
        lemma_first_uncovered(files, claims, i + 1, n);
    }
}

proof fn lemma_first_missing(expected: Seq<Seq<char>>, claims: Seq<ClaimView>, n: int)
    requires
        0 <= n <= expected.len(),
        inclusion_fault(expected.take(n), claims) is Some,
    ensures
        inclusion_fault(expected, claims) == inclusion_fault(expected.take(n), claims),
    decreases expected.len() - n,
{
    if n == expected.len() {
        assert(expected.take(n) =~= expected);
    } else {
        assert(expected.take(n + 1).drop_last() =~= expected.take(n));
        lemma_first_missing(expected, claims, n + 1);
    }
}

/// The numbers up to `n` that are not among `ids`.
fn unclaimed(ids: &[usize], n: usize) -> (r: Vec<usize>)
    ensures
        r@ == missing_ids(ids@, n as nat),
{
    let mut out: Vec<usize> = Vec::new();
    for i in 0..n
        invariant
            out@ == missing_ids(ids@, i as nat),
    {
        if !has_id(ids, i + 1) {
            out.push(i + 1);
        }
    }
    out
}

/// Check that every file is covered.
fn check_coverage(files: &[FileDiff], claims: &[Claim<'_>]) -> (r: Result<(), PlanError>)
    ensures
        match r {
            Ok(()) => coverage_fault(
                file_views(files@),
                claim_views(claims@),
                files@.len() as int,
            ) is None,
            Err(e) => coverage_fault(file_views(files@), claim_views(claims@), files@.len() as int)
                == Some(e@),
        },
{
    let ghost all = claim_views(claims@);
    let ghost views = file_views(files@);
    let n = claims.len();
    assert(all.take(n as int) =~= all);
    for i in 0..files.len()
        invariant
            all == claim_views(claims@),
            all.take(n as int) == all,
            n == claims@.len(),
            views == file_views(files@),
            coverage_fault(views, all, i as int) is None,
    {
        let file = &files[i];
        assert(views[i as int] == file@);
        assert(file@.hunks.len() == file.hunks@.len());
        let ids = taken_hunks(claims, n, &file.path);
        let split = taken_in_part(claims, n, &file.path) && ids.len() == file.hunks.len();
        if !taken_whole(claims, n, &file.path) && !split {
            let missing = unclaimed(ids.as_slice(), file.hunks.len());
            proof {
                lemma_first_uncovered(views, all, i + 1, files@.len() as int);
            }
            return Err(PlanError::Unaccounted { path: file.path.clone(), missing });
        }
    }
    Ok(())
}

/// Check that every expected path is claimed.
fn check_inclusion(expected_paths: &[String], claims: &[Claim<'_>]) -> (r: Result<(), PlanError>)
    ensures
        match r {
            Ok(()) => inclusion_fault(texts(expected_paths@), claim_views(claims@)) is None,
            Err(e) => inclusion_fault(texts(expected_paths@), claim_views(claims@)) == Some(e@),
        },
{
    let ghost all = claim_views(claims@);
    let ghost expected = texts(expected_paths@);
    let n = claims.len();
    assert(all.take(n as int) =~= all);
    assert(inclusion_fault(expected.take(0), all) is None);
    for i in 0..expected_paths.len()
        invariant
            all == claim_views(claims@),
            all.take(n as int) == all,
            n == claims@.len(),
            expected == texts(expected_paths@),
            inclusion_fault(expected.take(i as int), all) is None,
    {
        let path = &expected_paths[i];
        assert(expected.take(i + 1).drop_last() =~= expected.take(i as int));
        assert(expected.take(i + 1).last() == path@);
        if !taken_whole(claims, n, path) && !taken_in_part(claims, n, path) {
            proof {
                lemma_first_missing(expected, all, i + 1);
            }
            return Err(PlanError::NotIncluded { path: path.clone() });
        }
    }
    assert(expected.take(expected.len() as int) =~= expected);
    Ok(())
}

/// Check that `groups` claim the whole diff, every hunk exactly once, and that
/// every expected path is claimed.
pub fn validate(files: &[FileDiff], groups: &[PlanGroup], expected_paths: &[String]) -> (r: Result<
    (),
    PlanError,
>)
    ensures
        match r {
            Ok(()) => plan_fault(
                file_views(files@),
                group_views(groups@),
                texts(expected_paths@),
            ) is None,
            Err(e) => plan_fault(
                file_views(files@),
                group_views(groups@),
                texts(expected_paths@),
            ) == Some(e@),
        },
{
    let claims = claims_of(groups);
    let ghost all = claim_views(claims@);
    let ghost views = file_views(files@);
    assert(claims_fault(views, all.take(0)) is None);
    for i in 0..claims.len()
        invariant
            all == claim_views(claims@),
            all == plan_claims(group_views(groups@)),
            views == file_views(files@),
            claims_fault(views, all.take(i as int)) is None,
    {
        assert(all.take(i + 1).drop_last() =~= all.take(i as int));
        assert(all.take(i + 1).last() == claims@[i as int]@);
        let checked = check_claim(files, claims.as_slice(), i);
        if let Err(e) = checked {
            proof {
                lemma_first_fault(views, all, i + 1);
            }
            return Err(e);
        }
    }
    assert(all.take(all.len() as int) =~= all);
    let coverage = check_coverage(files, claims.as_slice());
    if let Err(e) = coverage {
        return Err(e);
    }
    check_inclusion(expected_paths, claims.as_slice())
}

} // verus!
