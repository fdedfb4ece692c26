//! Carrying out an approved plan, commit by commit.

use vstd::prelude::*;

use crate::commit::branch::{push_unique, with_action};
use crate::commit::proposal::{group_items, group_parts};
use crate::engine::history::{SessionCommit, SessionCommitView};
use crate::engine::hunks::{build_patch, file_views, patch_of, FileDiff, FileView};
use crate::engine::plan::{group_views, partial_views, GroupView, PlanGroup};
use crate::number::{count, decimal_of};
use crate::pieces::{lines, lines_of};
use crate::text::{chars_of, copy_texts, parts, same_text, text_of, texts, trim, trimmed};

verus! {

// ── the guards ──────────────────────────────────────────────────────

/// Why a plan is not carried out on a changed tree.
pub open spec fn stale_text() -> Seq<char> {
    "The working tree changed since the analysis started.\nRe-run `commitor commit` so the plan matches the current diff\ninstead of committing against a stale one."@
}

/// Check that the tree is as it was when the diff was collected. Both
/// arguments are what `git status --porcelain -uno` prints.
pub fn ensure_tree_unchanged(baseline: &str, current: &str) -> (r: Result<(), String>)
    ensures
        match r {
            Ok(_) => current@ == baseline@,
            Err(why) => current@ != baseline@ && why@ == stale_text(),
        },
{
    if same_text(current, baseline) {
        Ok(())
    } else {
        Err(
            "The working tree changed since the analysis started.\nRe-run `commitor commit` so the plan matches the current diff\ninstead of committing against a stale one.".to_owned(),
        )
    }
}

/// A status line shows something that is staged: its first column is not
/// blank.
pub open spec fn shows_staged(line: Seq<char>) -> bool {
    line.len() > 0 && line[0] != ' '
}

/// Some line of a status shows something that is staged.
pub open spec fn something_staged(status: Seq<char>) -> bool {
    exists|i: int| 0 <= i < lines_of(status).len() && shows_staged(#[trigger] lines_of(status)[i])
}

/// Whether a status shows that something is staged.
pub fn has_other_staged_work(status: &str) -> (r: bool)
    ensures
        r == something_staged(status@),
{
    let chars = chars_of(status);
    let all = lines(chars.as_slice());
    let ghost views = parts(all@);
    for i in 0..all.len()
        invariant
            views == parts(all@),
            views == lines_of(status@),
            forall|j: int| 0 <= j < i ==> !shows_staged(#[trigger] views[j]),
    {
        assert(views[i as int] == all@[i as int]@);
        let line = all[i];
        if line.len() > 0 && line[0] != ' ' {
            assert(shows_staged(lines_of(status@)[i as int]));
            return true;
        }
    }
    false
}

// ── what one commit takes ───────────────────────────────────────────

/// The patch that stages the hunk claims of a group.
pub open spec fn staging_patch(
    files: Seq<FileView>,
    partial: Seq<(Seq<char>, Seq<usize>)>,
) -> Seq<char>
    decreases partial.len(),
{
    if partial.len() == 0 {
        Seq::empty()
    } else {
        staging_patch(files, partial.drop_last()) + patch_of(
            files,
            partial.last().0,
            partial.last().1,
        )
    }
}

/// Build the patch that stages the hunk claims of a group.
pub fn build_staging_patch(files: &[FileDiff], partial: &[(String, Vec<usize>)]) -> (r: String)
    ensures
        r@ == staging_patch(file_views(files@), partial_views(partial@)),
{
    let ghost all = partial_views(partial@);
    let ghost records = file_views(files@);
    let mut out = String::new();
    assert(out@ =~= staging_patch(records, all.take(0)));
    for i in 0..partial.len()
        invariant
            all == partial_views(partial@),
            records == file_views(files@),
            out@ == staging_patch(records, all.take(i as int)),
    {
        assert(all.take(i + 1).drop_last() =~= all.take(i as int));
        assert(all.take(i + 1).last() == (partial@[i as int].0@, partial@[i as int].1@));
        let patch = build_patch(files, &partial[i]);
        out.append(patch.as_str());
    }
    assert(all.take(all.len() as int) =~= all);
    out
}

/// The whole files of a group and then its split files, none twice.
pub open spec fn files_with(
    whole: Seq<Seq<char>>,
    partial: Seq<(Seq<char>, Seq<usize>)>,
) -> Seq<Seq<char>>
    decreases partial.len(),
{
    if partial.len() == 0 {
        whole
    } else {
        with_action(files_with(whole, partial.drop_last()), partial.last().0)
    }
}

/// The record of the commit that a group became.
pub open spec fn recorded_commit(group: GroupView, sha: Seq<char>) -> SessionCommitView {
    SessionCommitView {
        sha,
        message: group.message,
        files: files_with(group.whole, group.partial),
    }
}

/// Make the record of the commit that a group became.
pub fn record_commit(group: &PlanGroup, sha: String) -> (r: SessionCommit)
    ensures
        r@ == recorded_commit(group@, sha@),
{
    let mut files = copy_texts(group.whole.as_slice());
    let ghost all = partial_views(group.partial@);
    let ghost whole = texts(group.whole@);
    assert(texts(files@) == files_with(whole, all.take(0)));
    for i in 0..group.partial.len()
        invariant
            all == partial_views(group.partial@),
            texts(files@) == files_with(whole, all.take(i as int)),
    {
        assert(all.take(i + 1).drop_last() =~= all.take(i as int));
        assert(all.take(i + 1).last() == (group.partial@[i as int].0@, group.partial@[i as int].1@));
        push_unique(&mut files, group.partial[i].0.clone());
    }
    assert(all.take(all.len() as int) =~= all);
    SessionCommit { sha, message: group.message.clone(), files }
}

// ── what is said ────────────────────────────────────────────────────

/// The items as a bullet list.
pub open spec fn bullets(items: Seq<Seq<char>>) -> Seq<char>
    decreases items.len(),
{
    if items.len() == 0 {
        Seq::empty()
    } else {
        bullets(items.drop_last()) + "  - "@ + items.last() + "\n"@
    }
}

/// What the groups hold, as one list.
pub open spec fn pending_parts(plan: Seq<GroupView>) -> Seq<Seq<char>>
    decreases plan.len(),
{
    if plan.len() == 0 {
        Seq::empty()
    } else {
        pending_parts(plan.drop_last()) + group_parts(plan.last())
    }
}

/// The report of a plan that stopped half-way: which commits were made and
/// what is in none of them.
pub open spec fn failure_report(committed: Seq<Seq<char>>, pending: Seq<GroupView>) -> Seq<char> {
    "\n"@ + (if committed.len() == 0 {
        "No commits were created.\n"@
    } else {
        "Commits that succeeded before the failure:\n"@ + bullets(committed)
    }) + "Files not included in any commit:\n"@ + bullets(pending_parts(pending))
        + "Some of them may already be staged — `git status` shows which.\n\nThe split stopped here and was NOT rolled back.\nRun `git status` and `git log` to see exactly where things stand,\nthen finish the remaining commits manually or fix the issue and\nrun `commitor commit` again.\n"@
}

fn write_bullets(out: String, items: &[String]) -> (r: String)
    ensures
        r@ == out@ + bullets(texts(items@)),
{
    let ghost head = out@;
    let ghost all = texts(items@);
    let mut out = out;
    assert(head + bullets(all.take(0)) =~= head);
    for i in 0..items.len()
        invariant
            all == texts(items@),
            out@ == head + bullets(all.take(i as int)),
    {
        assert(all.take(i + 1).drop_last() =~= all.take(i as int));
        assert(all.take(i + 1).last() == items@[i as int]@);
        out.append("  - ");
        out.append(items[i].as_str());
        out.append("\n");
        assert(out@ =~= head + bullets(all.take(i + 1)));
    }
    assert(all.take(all.len() as int) =~= all);
    out
}

fn list_pending(plan: &[PlanGroup]) -> (r: Vec<String>)
    ensures
        texts(r@) == pending_parts(group_views(plan@)),
{
    let ghost all = group_views(plan@);
    let mut out: Vec<String> = Vec::new();
    assert(texts(out@) =~= pending_parts(all.take(0)));
    for i in 0..plan.len()
        invariant
            all == group_views(plan@),
            texts(out@) == pending_parts(all.take(i as int)),
    {
        assert(all.take(i + 1).drop_last() =~= all.take(i as int));
        assert(all.take(i + 1).last() == plan@[i as int]@);
        let ghost before = texts(out@);
        let mut items = group_items(&plan[i]);
        let ghost added = texts(items@);
        out.append(&mut items);
        assert(texts(out@) =~= before + added);
    }
    assert(all.take(all.len() as int) =~= all);
    out
}

/// Report a plan that stopped half-way.
pub fn report_partial_failure(committed: &[String], pending: &[PlanGroup]) -> (r: String)
    ensures
        r@ == failure_report(texts(committed@), group_views(pending@)),
{
    let mut out = "\n".to_owned();
    let ghost head = out@;
    assert(texts(committed@).len() == committed@.len());
    let out = if committed.len() == 0 {
        out.append("No commits were created.\n");
        out
    } else {
        out.append("Commits that succeeded before the failure:\n");
        write_bullets(out, committed)
    };
    assert(out@ =~= head + (if committed@.len() == 0 {
        "No commits were created.\n"@
    } else {
        "Commits that succeeded before the failure:\n"@ + bullets(texts(committed@))
    }));
    let mut out = out;
    out.append("Files not included in any commit:\n");
    let mut out = write_bullets(out, list_pending(pending).as_slice());
    out.append(
        "Some of them may already be staged — `git status` shows which.\n\nThe split stopped here and was NOT rolled back.\nRun `git status` and `git log` to see exactly where things stand,\nthen finish the remaining commits manually or fix the issue and\nrun `commitor commit` again.\n",
    );
    out
}

/// The lines, each indented.
pub open spec fn indented(lines: Seq<Seq<char>>) -> Seq<char>
    decreases lines.len(),
{
    if lines.len() == 0 {
        Seq::empty()
    } else {
        indented(lines.drop_last()) + "  "@ + lines.last() + "\n"@
    }
}

/// What is said of a commit that was made.
pub open spec fn committed_text(
    message: Seq<char>,
    number: nat,
    total: nat,
    output: Seq<char>,
) -> Seq<char> {
    "["@ + decimal_of(number) + "/"@ + decimal_of(total) + "] Committed: "@ + message + "\n"@
        + indented(lines_of(trimmed(output)))
}

/// Say that a commit was made, with what git printed.
pub fn say_committed(message: &str, number: usize, total: usize, output: &str) -> (r: String)
    ensures
        r@ == committed_text(message@, number as nat, total as nat, output@),
{
    let mut out = "[".to_owned();
    out.append(count(number).as_str());
    out.append("/");
    out.append(count(total).as_str());
    out.append("] Committed: ");
    out.append(message);
    out.append("\n");
    let ghost head = out@;
    let chars = chars_of(output);
    let all = lines(trim(chars.as_slice()));
    let ghost views = parts(all@);
    assert(head + indented(views.take(0)) =~= head);
    for i in 0..all.len()
        invariant
            views == parts(all@),
            out@ == head + indented(views.take(i as int)),
    {
        assert(views.take(i + 1).drop_last() =~= views.take(i as int));
        assert(views.take(i + 1).last() == all@[i as int]@);
        out.append("  ");
        out.append(text_of(all[i]).as_str());
        out.append("\n");
        assert(out@ =~= head + indented(views.take(i + 1)));
    }
    assert(views.take(views.len() as int) =~= views);
    out
}

/// The complaint about a group that could not be staged.
pub open spec fn staging_error(what: Seq<char>, number: nat, total: nat, why: Seq<char>) -> Seq<
    char,
> {
    "error: couldn't stage "@ + what + " for commit "@ + decimal_of(number) + "/"@ + decimal_of(
        total,
    ) + ": "@ + why + "\n"@
}

/// Complain about a group that could not be staged.
pub fn say_staging_error(what: &str, number: usize, total: usize, why: &str) -> (r: String)
    ensures
        r@ == staging_error(what@, number as nat, total as nat, why@),
{
    let mut out = "error: couldn't stage ".to_owned();
    out.append(what);
    out.append(" for commit ");
    out.append(count(number).as_str());
    out.append("/");
    out.append(count(total).as_str());
    out.append(": ");
    out.append(why);
    out.append("\n");
    out
}

} // verus!
