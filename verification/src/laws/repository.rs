//! The repository: what git tells, which diff is taken, and what is recorded.

use vstd::prelude::*;
use crate::analysis::DiffView;
use crate::analysis::collect::{
    looks_binary, section_lines, section_of, tracked_diff, unreadable_warnings, wanted_untracked,
    with_untracked, UntrackedFile, WorkingChanges,
};
use crate::analysis::untracked::readable;
use crate::bytes::lossy_text;
use crate::commit::execute::{
    bullets, failure_report, files_with, pending_parts, recorded_commit, something_staged,
    staging_patch,
};
use crate::commit::proposal::{claim_text, group_parts};
use crate::engine::coverage::lemma_contains_push;
use crate::engine::git::{
    branches_of, combined_diff, current_branch_of, full_lines, names_in, text_outcome,
};
use crate::engine::grouping::{answer_json, directory_commit, local_grouping, under};
use crate::engine::history::{
    entries_of, lemma_session_index, marked_reverted, repo_id_of, SessionView,
};
use crate::engine::hunks::{patch_of, FileView};
use crate::engine::plan::GroupView;
use crate::laws::subjects::lemma_filter_members;
use crate::laws::texts::{
    blank, lacks, lemma_occurs_in_itself, lemma_occurs_in_part, lemma_occurs_inside,
    lemma_plain_lines_are_read_back, lemma_prefix_is_taken_off, lemma_suffix_is_taken_off,
    lemma_trimmed, tight,
};
use crate::number::decimal_of;
use crate::pieces::{head_piece, lines_of, with_newlines};
use crate::text::{is_white_space, occurs, texts, trimmed};

verus! {

// ── what git prints ─────────────────────────────────────────────────

/// A list of names, one on each line, is read back, blank lines left out.
pub proof fn lemma_names_are_read_back(names: Seq<Seq<char>>)
    requires
        forall|i: int|
            0 <= i < names.len() ==> (#[trigger] names[i]).len() > 0 && tight(names[i]) && lacks(
                names[i],
                '\n',
            ) && lacks(names[i], '\r'),
    ensures
        names_in(with_newlines(names)) == names,
{
    lemma_plain_lines_are_read_back(names);
    lemma_full_lines(names);
}

proof fn lemma_full_lines(names: Seq<Seq<char>>)
    requires
        forall|i: int| 0 <= i < names.len() ==> (#[trigger] names[i]).len() > 0 && tight(names[i]),
    ensures
        full_lines(names) == names,
    decreases names.len(),
{
    if names.len() > 0 {
        let front = names.drop_last();
        let none: Seq<char> = Seq::empty();
        assert forall|i: int| 0 <= i < front.len() implies (#[trigger] front[i]).len() > 0 && tight(
            front[i],
        ) by {
            assert(front[i] == names[i]);
        }
        lemma_full_lines(front);
        assert(names[names.len() - 1] == names.last());
        lemma_trimmed(none, names.last(), none);
        assert(front.push(names.last()) =~= names);
    } else {
        assert(full_lines(names) =~= names);
    }
}

/// A blank line names nothing, and any other line the text on it.
pub proof fn lemma_one_name_for_each_line(before: Seq<Seq<char>>, line: Seq<char>)
    ensures
        full_lines(before.push(line)) == if blank(line) {
            full_lines(before)
        } else {
            full_lines(before).push(trimmed(line))
        },
{
    assert(before.push(line).drop_last() =~= before);
    let none: Seq<char> = Seq::empty();
    if blank(line) {
        lemma_trimmed(line, none, none);
        assert(line + none + none =~= line);
    } else {
        crate::laws::subjects::lemma_trimming_leaves_a_part(line);
        if trimmed(line).len() == 0 {
            let (a, b) = choose|a: Seq<char>, b: Seq<char>|
                line == #[trigger] (a + trimmed(line) + b) && blank(a) && blank(b);
            assert forall|i: int| 0 <= i < line.len() implies is_white_space(#[trigger] line[i]) by {
                if i < a.len() {
                    assert(line[i] == a[i]);
                } else {
                    assert(line[i] == b[i - a.len()]);
                }
            }
        }
    }
}

/// The branch that is checked out is the name that git prints; a detached head
/// and a failure are no branch.
pub proof fn lemma_the_current_branch(a: Seq<char>, name: Seq<char>, b: Seq<char>, why: Seq<char>)
    requires
        blank(a),
        blank(b),
        tight(name),
    ensures
        current_branch_of(Ok(a + name + b)) == if name.len() == 0 || name == "HEAD"@ {
            None::<Seq<char>>
        } else {
            Some(name)
        },
        current_branch_of(Err(why)) is None,
        branches_of(Err(why)).len() == 0,
{
    lemma_trimmed(a, name, b);
}

/// A call that succeeds gives what it printed, whatever it complained of; one
/// that fails gives its complaint, whatever it printed.
pub proof fn lemma_outcomes(
    out: Seq<char>,
    other: Seq<char>,
    err: Seq<char>,
    complaint: Seq<char>,
)
    ensures
        text_outcome(true, out, err, complaint) == Ok::<Seq<char>, Seq<char>>(out),
        text_outcome(false, out, err, complaint) == text_outcome(false, other, err, complaint),
        text_outcome(false, out, err, complaint) matches Err(why) && complaint.is_prefix_of(why)
            && trimmed(err).is_suffix_of(why),
{
    let why = complaint + trimmed(err);
    assert(why.subrange(0, complaint.len() as int) =~= complaint);
    assert(why.subrange(why.len() - trimmed(err).len(), why.len() as int) =~= trimmed(err));
}

/// Both patches stand in the combined one, the staged one first; where only
/// staged changes are wanted, the unstaged ones do not matter.
pub proof fn lemma_combined_diffs(staged: Seq<char>, unstaged: Seq<char>, other: Seq<char>)
    ensures
        staged.is_prefix_of(combined_diff(false, staged, unstaged)),
        unstaged.is_suffix_of(combined_diff(false, staged, unstaged)),
        combined_diff(true, staged, unstaged) == combined_diff(true, staged, other),
        combined_diff(true, staged, unstaged) == staged,
{
    let all = combined_diff(false, staged, unstaged);
    assert(all.subrange(0, staged.len() as int) =~= staged);
    assert(all.subrange(all.len() - unstaged.len(), all.len() as int) =~= unstaged);
}

/// Something is staged exactly where a line of the status begins with something
/// else than a blank.
pub proof fn lemma_what_is_staged(status: Seq<Seq<char>>)
    requires
        forall|i: int|
            0 <= i < status.len() ==> lacks(#[trigger] status[i], '\n') && lacks(status[i], '\r'),
    ensures
        something_staged(with_newlines(status)) <==> exists|i: int|
            0 <= i < status.len() && (#[trigger] status[i]).len() > 0 && status[i][0] != ' ',
{
    lemma_plain_lines_are_read_back(status);
    let read = lines_of(with_newlines(status));
    if something_staged(with_newlines(status)) {
        let i = choose|i: int|
            0 <= i < read.len() && crate::commit::execute::shows_staged(#[trigger] read[i]);
        assert(status[i].len() > 0 && status[i][0] != ' ');
    }
    if exists|i: int| 0 <= i < status.len() && (#[trigger] status[i]).len() > 0 && status[i][0] != ' ' {
        let i = choose|i: int|
            0 <= i < status.len() && (#[trigger] status[i]).len() > 0 && status[i][0] != ' ';
        assert(crate::commit::execute::shows_staged(lines_of(with_newlines(status))[i]));
    }
}

// ── the diff ────────────────────────────────────────────────────────

/// Staged changes are taken where there are some, unless all are asked for;
/// else the unstaged ones. What is not taken does not matter.
pub proof fn lemma_which_changes_are_taken(
    staged: WorkingChanges,
    unstaged: WorkingChanges,
    other: WorkingChanges,
)
    ensures
        staged.files@.len() > 0 ==> tracked_diff(false, staged, unstaged).staged_used
            && tracked_diff(false, staged, unstaged).files == texts(staged.files@)
            && tracked_diff(false, staged, unstaged).patch == staged.patch@,
        staged.files@.len() == 0 ==> tracked_diff(false, staged, unstaged) == tracked_diff(
            true,
            other,
            unstaged,
        ),
        !tracked_diff(true, staged, unstaged).staged_used,
        tracked_diff(true, staged, unstaged).files == texts(unstaged.files@),
        unstaged.files@.len() > 0 ==> tracked_diff(true, staged, unstaged).patch == unstaged.patch@,
        unstaged.files@.len() == 0 ==> tracked_diff(true, staged, unstaged).patch.len() == 0,
        tracked_diff(false, staged, unstaged).untracked.len() == 0,
{
    assert(texts(staged.files@).len() == staged.files@.len());
    assert(texts(other.files@).len() == other.files@.len());
}

/// The paths of the untracked files that can be read.
pub open spec fn readable_paths(untracked: Seq<UntrackedFile>) -> Seq<Seq<char>> {
    readable(untracked).map_values(|f: (Seq<char>, Seq<u8>)| f.0)
}

/// Every untracked file that can be read is added behind the tracked ones, and
/// told as untracked; for each other one there is a warning that names it.
pub proof fn lemma_untracked_files_are_added(diff: DiffView, untracked: Seq<UntrackedFile>, i: int)
    requires
        0 <= i < untracked.len(),
    ensures
        with_untracked(diff, untracked).files == diff.files + readable_paths(untracked),
        with_untracked(diff, untracked).untracked == diff.untracked + readable_paths(untracked),
        with_untracked(diff, untracked).staged_used == diff.staged_used,
        diff.patch.is_prefix_of(with_untracked(diff, untracked).patch),
        untracked[i].content is Ok ==> readable_paths(untracked).contains(untracked[i].path@),
        untracked[i].content is Err ==> exists|k: int|
            0 <= k < unreadable_warnings(untracked).len() && occurs(
                #[trigger] unreadable_warnings(untracked)[k],
                untracked[i].path@,
            ),
        readable_paths(untracked).len() + unreadable_warnings(untracked).len() == untracked.len(),
        wanted_untracked(false, untracked).len() == 0,
        wanted_untracked(true, untracked) == untracked,
    decreases untracked.len(),
{
    let front = untracked.drop_last();
    let file = untracked.last();
    let none: Seq<Seq<char>> = Seq::empty();
    if front.len() > 0 {
        lemma_untracked_files_are_added(diff, front, if i < front.len() {
            i
        } else {
            0
        });
    } else {
        assert(readable_paths(front) =~= none);
        assert(diff.files + none =~= diff.files);
        assert(diff.untracked + none =~= diff.untracked);
        assert(diff.patch.subrange(0, diff.patch.len() as int) =~= diff.patch);
        assert(unreadable_warnings(front) =~= none);
    }
    let before = with_untracked(diff, front);
    let after = with_untracked(diff, untracked);
    assert(untracked[untracked.len() - 1] == file);
    match file.content {
        Ok(bytes) => {
            assert(readable_paths(untracked) =~= readable_paths(front).push(file.path@));
            assert(after.files =~= diff.files + readable_paths(untracked));
            assert(after.untracked =~= diff.untracked + readable_paths(untracked));
            assert(after.patch.subrange(0, diff.patch.len() as int) =~= before.patch.subrange(
                0,
                diff.patch.len() as int,
            ));
            if i < front.len() {
                if untracked[i].content is Ok {
                    lemma_contains_push(readable_paths(front), file.path@, untracked[i].path@);
                }
            } else {
                lemma_contains_push(readable_paths(front), file.path@, file.path@);
            }
        },
        Err(why) => {
            assert(readable_paths(untracked) =~= readable_paths(front));
            let told = "warning: skipping unreadable file "@ + file.path@ + ": "@ + why@;
            assert(unreadable_warnings(untracked) == unreadable_warnings(front).push(told));
            assert(told =~= "warning: skipping unreadable file "@ + file.path@ + (": "@ + why@));
            lemma_occurs_inside("warning: skipping unreadable file "@, file.path@, ": "@ + why@);
            let n = unreadable_warnings(front).len() as int;
            assert(unreadable_warnings(untracked)[n] == told);
            if i < front.len() && untracked[i].content is Err {
                let k = choose|k: int|
                    0 <= k < unreadable_warnings(front).len() && occurs(
                        #[trigger] unreadable_warnings(front)[k],
                        front[i].path@,
                    );
                assert(unreadable_warnings(untracked)[k] == unreadable_warnings(front)[k]);
            }
        },
    }
}

/// A file is binary exactly where one of its first 8192 bytes is zero.
pub proof fn lemma_binary_files(bytes: Seq<u8>, i: int)
    ensures
        0 <= i < bytes.len() && i < 8192 && bytes[i] == 0 ==> looks_binary(bytes),
        (forall|j: int| 0 <= j < bytes.len() && j < 8192 ==> #[trigger] bytes[j] != 0)
            ==> !looks_binary(bytes),
{
}

// ── commits ─────────────────────────────────────────────────────────

/// The patch of several claims is the patches of the claims, one after the
/// other.
pub proof fn lemma_staging_goes_claim_by_claim(
    files: Seq<FileView>,
    a: Seq<(Seq<char>, Seq<usize>)>,
    b: Seq<(Seq<char>, Seq<usize>)>,
    path: Seq<char>,
    ids: Seq<usize>,
)
    ensures
        staging_patch(files, a + b) == staging_patch(files, a) + staging_patch(files, b),
        staging_patch(files, seq![(path, ids)]) == patch_of(files, path, ids),
    decreases b.len(),
{
    let one = seq![(path, ids)];
    let none: Seq<(Seq<char>, Seq<usize>)> = Seq::empty();
    assert(one.drop_last() =~= none);
    assert(staging_patch(files, none) =~= Seq::empty());
    assert(staging_patch(files, one) =~= patch_of(files, path, ids));
    if b.len() == 0 {
        assert(a + b =~= a);
        assert(staging_patch(files, a) + staging_patch(files, b) =~= staging_patch(files, a));
    } else {
        lemma_staging_goes_claim_by_claim(files, a, b.drop_last(), path, ids);
        assert((a + b).drop_last() =~= a + b.drop_last());
        assert((a + b).last() == b.last());
        assert(staging_patch(files, a + b) =~= staging_patch(files, a) + staging_patch(files, b));
    }
}

/// The record of a commit holds its identifier, its message, and exactly the
/// files that its group takes whole or in part.
pub proof fn lemma_commits_are_recorded(group: GroupView, sha: Seq<char>, path: Seq<char>)
    ensures
        recorded_commit(group, sha).sha == sha,
        recorded_commit(group, sha).message == group.message,
        recorded_commit(group, sha).files.contains(path) <==> group.whole.contains(path) || exists|
            k: int,
        |
            0 <= k < group.partial.len() && (#[trigger] group.partial[k]).0 == path,
{
    lemma_files_with(group.whole, group.partial, path);
}

proof fn lemma_files_with(
    whole: Seq<Seq<char>>,
    partial: Seq<(Seq<char>, Seq<usize>)>,
    path: Seq<char>,
)
    ensures
        files_with(whole, partial).contains(path) <==> whole.contains(path) || exists|k: int|
            0 <= k < partial.len() && (#[trigger] partial[k]).0 == path,
    decreases partial.len(),
{
    if partial.len() > 0 {
        let front = partial.drop_last();
        let p = partial.last().0;
        lemma_files_with(whole, front, path);
        lemma_contains_push(files_with(whole, front), p, path);
        assert(partial[partial.len() - 1] == partial.last());
        if exists|k: int| 0 <= k < front.len() && (#[trigger] front[k]).0 == path {
            let k = choose|k: int| 0 <= k < front.len() && (#[trigger] front[k]).0 == path;
            assert(partial[k].0 == path);
        }
        if exists|k: int| 0 <= k < partial.len() && (#[trigger] partial[k]).0 == path {
            let k = choose|k: int| 0 <= k < partial.len() && (#[trigger] partial[k]).0 == path;
            if k < front.len() {
                assert(front[k].0 == path);
            }
        }
    }
}

proof fn lemma_bullets(items: Seq<Seq<char>>, i: int)
    requires
        0 <= i < items.len(),
    ensures
        occurs(bullets(items), "  - "@ + items[i] + "\n"@),
    decreases items.len(),
{
    let front = items.drop_last();
    let none: Seq<char> = Seq::empty();
    let last = "  - "@ + items.last() + "\n"@;
    assert(bullets(items) =~= bullets(front) + last);
    if i < front.len() {
        lemma_bullets(front, i);
        lemma_occurs_in_part(none, bullets(front), last, "  - "@ + items[i] + "\n"@);
    } else {
        lemma_occurs_in_itself(last);
        lemma_occurs_in_part(bullets(front), last, none, last);
    }
}

proof fn lemma_pending(plan: Seq<GroupView>, g: int, k: int)
    requires
        0 <= g < plan.len(),
        0 <= k < group_parts(plan[g]).len(),
    ensures
        pending_parts(plan).contains(group_parts(plan[g])[k]),
    decreases plan.len(),
{
    let front = plan.drop_last();
    if g < front.len() {
        lemma_pending(front, g, k);
        let x = choose|x: int|
            0 <= x < pending_parts(front).len() && pending_parts(front)[x] == group_parts(plan[g])[k];
        assert(pending_parts(plan)[x] == group_parts(plan[g])[k]);
    } else {
        assert(pending_parts(plan)[pending_parts(front).len() + k] == group_parts(plan[g])[k]);
    }
}

/// The report of a run that stopped names every commit that was made and every
/// file and hunk that is in none.
pub proof fn lemma_stopped_runs_are_reported(
    committed: Seq<Seq<char>>,
    pending: Seq<GroupView>,
    i: int,
    g: int,
    k: int,
)
    ensures
        0 <= i < committed.len() ==> occurs(
            failure_report(committed, pending),
            "  - "@ + committed[i] + "\n"@,
        ),
        0 <= g < pending.len() && 0 <= k < pending[g].whole.len() ==> occurs(
            failure_report(committed, pending),
            "  - "@ + pending[g].whole[k] + "\n"@,
        ),
        0 <= g < pending.len() && 0 <= k < pending[g].partial.len() ==> occurs(
            failure_report(committed, pending),
            "  - "@ + claim_text(pending[g].partial[k]) + "\n"@,
        ),
{
    let s = failure_report(committed, pending);
    let parts = pending_parts(pending);
    let made = if committed.len() == 0 {
        "No commits were created.\n"@
    } else {
        "Commits that succeeded before the failure:\n"@ + bullets(committed)
    };
    let head = "\n"@ + made + "Files not included in any commit:\n"@;
    let tail = s.skip((head + bullets(parts)).len() as int);
    assert(s =~= head + bullets(parts) + tail);
    if 0 <= i < committed.len() {
        lemma_bullets(committed, i);
        let a = "\n"@ + "Commits that succeeded before the failure:\n"@;
        let b = s.skip((a + bullets(committed)).len() as int);
        assert(s =~= a + bullets(committed) + b);
        lemma_occurs_in_part(a, bullets(committed), b, "  - "@ + committed[i] + "\n"@);
    }
    if 0 <= g < pending.len() && 0 <= k < pending[g].whole.len() {
        assert(group_parts(pending[g])[k] == pending[g].whole[k]);
        lemma_pending(pending, g, k);
        let x = choose|x: int| 0 <= x < parts.len() && parts[x] == pending[g].whole[k];
        lemma_bullets(parts, x);
        lemma_occurs_in_part(head, bullets(parts), tail, "  - "@ + parts[x] + "\n"@);
    }
    if 0 <= g < pending.len() && 0 <= k < pending[g].partial.len() {
        let n = pending[g].whole.len();
        let claim = claim_text(pending[g].partial[k]);
        assert(group_parts(pending[g])[n + k] == claim);
        lemma_pending(pending, g, n + k);
        let x = choose|x: int| 0 <= x < parts.len() && parts[x] == claim;
        lemma_bullets(parts, x);
        lemma_occurs_in_part(head, bullets(parts), tail, "  - "@ + parts[x] + "\n"@);
    }
}

// ── the session log ─────────────────────────────────────────────────

/// Repositories with the same remote share one log, wherever they are; without
/// a remote the log is that of the place.
pub proof fn lemma_which_log(remote: Seq<char>, here: Seq<char>, there: Seq<char>, none: Seq<char>)
    requires
        trimmed(remote).len() > 0,
        trimmed(none).len() == 0,
    ensures
        repo_id_of(Some(remote), here) == repo_id_of(Some(remote), there),
        repo_id_of(None, remote) == repo_id_of(Some(remote), here),
        repo_id_of(Some(none), here) == repo_id_of(None, here),
{
}

/// Marking marks the first session with the identifier, with the time that is
/// given; without such a session nothing changes.
pub proof fn lemma_the_named_session_is_marked(
    sessions: Seq<SessionView>,
    id: Seq<char>,
    now: Seq<char>,
    i: int,
)
    ensures
        0 <= i < sessions.len() && sessions[i].session_id == id && (forall|j: int|
            0 <= j < i ==> (#[trigger] sessions[j]).session_id != id) ==> {
            let after = marked_reverted(sessions, id, now)[i];
            after.reverted && after.reverted_at == Some(now) && after.commits
                == sessions[i].commits && after.branch == sessions[i].branch && after.timestamp
                == sessions[i].timestamp && after.session_id == id
        },
        (forall|j: int| 0 <= j < sessions.len() ==> (#[trigger] sessions[j]).session_id != id)
            ==> marked_reverted(sessions, id, now) == sessions,
{
    lemma_session_index(sessions, id);
}

/// The entries of a log are its lines that are not blank, each with its number
/// among all lines.
pub proof fn lemma_entries_of_a_log(before: Seq<Seq<char>>, line: Seq<char>)
    ensures
        entries_of(before.push(line)) == if trimmed(line).len() > 0 {
            entries_of(before).push(((before.len() + 1) as int, trimmed(line)))
        } else {
            entries_of(before)
        },
        entries_of(Seq::empty()).len() == 0,
{
    assert(before.push(line).drop_last() =~= before);
}

// ── grouping ────────────────────────────────────────────────────────

/// The JSON of a model is what stands between the fences of a code block, or
/// all of it where there are none.
#[verifier::rlimit(40)]
pub proof fn lemma_fences_are_taken_off(json: Seq<char>)
    requires
        tight(json),
        json.len() > 0,
        json[0] != '`',
        json.last() != '`',
    ensures
        answer_json("```json\n"@ + json + "\n```"@) == json,
        answer_json("```\n"@ + json + "\n```"@) == json,
        answer_json(json) == json,
{
    reveal_strlit("```json\n");
    reveal_strlit("```\n");
    reveal_strlit("\n```");
    reveal_strlit("```json");
    reveal_strlit("```");
    reveal_strlit("\n");
    let none: Seq<char> = Seq::empty();
    let fence = "```"@;
    let inner = seq!['\n'] + json + seq!['\n'];
    let a = "```json\n"@ + json + "\n```"@;
    let b = "```\n"@ + json + "\n```"@;
    lemma_trimmed(none, a, none);
    lemma_trimmed(none, b, none);
    lemma_trimmed(none, json, none);
    lemma_trimmed(seq!['\n'], json, seq!['\n']);
    // with the name of the language
    let a1 = inner + fence;
    assert(a =~= "```json"@ + a1);
    lemma_prefix_is_taken_off("```json"@, a1, a);
    assert(a1[0] == '\n');
    crate::laws::paths::lemma_begins_otherwise(fence, a1);
    lemma_suffix_is_taken_off(fence, inner, a1);
    assert(trimmed(inner) == json);
    // without it
    assert(b =~= fence + a1);
    if "```json"@.is_prefix_of(b) {
        assert(b.subrange(0, 7)[3] == b[3]);
    }
    lemma_prefix_is_taken_off(fence, a1, b);
    // without a fence
    crate::laws::paths::lemma_begins_otherwise("```json"@, json);
    crate::laws::paths::lemma_begins_otherwise(fence, json);
    if fence.is_suffix_of(json) {
        assert(json.subrange(json.len() - 3, json.len() as int)[2] == json[json.len() - 1]);
    }
}

/// Each commit of a local grouping holds the files below one directory, and no
/// others.
pub proof fn lemma_local_groups_share_a_directory(files: Seq<Seq<char>>, i: int, path: Seq<char>)
    requires
        0 <= i < local_grouping(files).commits.len(),
    ensures
        exists|dir: Seq<char>|
            (forall|p: Seq<char>| #[trigger]
                local_grouping(files).commits[i].files.contains(p) <==> files.contains(p)
                    && #[trigger] head_piece(p, '/') == dir) && #[trigger] occurs(
                local_grouping(files).commits[i].message,
                dir,
            ),
{
    let dirs = crate::order::sorted_texts(crate::engine::grouping::first_segments(files));
    let dir = dirs[i];
    let commit = local_grouping(files).commits[i];
    assert(commit == directory_commit(files, dir));
    assert forall|p: Seq<char>| #[trigger] commit.files.contains(p) <==> files.contains(p)
        && #[trigger] head_piece(p, '/') == dir by {
        lemma_filter_members(files, under(dir), p);
    }
    let m = commit.message;
    let head = m.take(m.len() - dir.len());
    let none: Seq<char> = Seq::empty();
    assert(m =~= head + dir + none);
    lemma_occurs_inside(head, dir, none);
}

/// The message of a local group counts its files, and the summary counts all of
/// them.
pub proof fn lemma_local_groups_are_counted(files: Seq<Seq<char>>, i: int)
    ensures
        occurs(local_grouping(files).summary, " "@ + decimal_of(files.len()) + " file(s)"@),
        0 <= i < local_grouping(files).commits.len() ==> occurs(
            local_grouping(files).commits[i].message,
            " "@ + decimal_of(local_grouping(files).commits[i].files.len()) + " file(s)"@,
        ),
{
    reveal_strlit("locally grouped ");
    reveal_strlit(" file(s) by top-level directory");
    reveal_strlit(" file(s)");
    reveal_strlit(" ");
    reveal_strlit("chore: update ");
    reveal_strlit(" file(s) in ");
    let n = decimal_of(files.len());
    let a = "locally grouped"@;
    reveal_strlit("locally grouped");
    let b = " by top-level directory"@;
    reveal_strlit(" by top-level directory");
    assert(local_grouping(files).summary =~= a + (" "@ + n + " file(s)"@) + b);
    lemma_occurs_inside(a, " "@ + n + " file(s)"@, b);
    if 0 <= i < local_grouping(files).commits.len() {
        let commit = local_grouping(files).commits[i];
        let dir = crate::order::sorted_texts(crate::engine::grouping::first_segments(files))[i];
        assert(commit == directory_commit(files, dir));
        let k = decimal_of(commit.files.len());
        reveal_strlit("chore: update");
        reveal_strlit(" in ");
        let c = "chore: update"@;
        let d = " in "@ + dir;
        assert(commit.message =~= c + (" "@ + k + " file(s)"@) + d);
        lemma_occurs_inside(c, " "@ + k + " file(s)"@, d);
    }
}

/// An untracked text is shown as a new file: its lines are all added, and its
/// only hunk counts them. A binary file is only named.
pub proof fn lemma_untracked_files_are_shown(path: Seq<char>, bytes: Seq<u8>, i: int)
    ensures
        ({
            let s = section_lines(path, bytes);
            let content = lines_of(lossy_text(bytes));
            &&& s[0] == "diff --git a/"@ + path + " b/"@ + path
            &&& s[1] == "new file mode 100644"@
            &&& looks_binary(bytes) ==> s.len() == 3 && occurs(s[2], path) && "Binary files "@.is_prefix_of(
                s[2],
            )
            &&& !looks_binary(bytes) ==> s[2] == "--- /dev/null"@ && s[3] == "+++ b/"@ + path
            &&& !looks_binary(bytes) && content.len() == 0 ==> s.len() == 4
            &&& !looks_binary(bytes) && content.len() > 0 ==> s.len() == 5 + content.len() && s[4]
                == "@@ -0,0 +1,"@ + decimal_of(content.len()) + " @@"@ && (0 <= i < content.len()
                ==> s[5 + i] == seq!['+'] + content[i])
        }),
        section_of(path, bytes) == with_newlines(section_lines(path, bytes)),
{
    let s = section_lines(path, bytes);
    let content = lines_of(lossy_text(bytes));
    if looks_binary(bytes) {
        lemma_occurs_inside("Binary files /dev/null and b/"@, path, " differ"@);
        reveal_strlit("Binary files /dev/null and b/");
        reveal_strlit("Binary files ");
        assert("Binary files "@ =~= s[2].subrange(0, 13));
    } else if content.len() > 0 {
        reveal_strlit("+");
        if 0 <= i < content.len() {
            assert(s[5 + i] =~= seq!['+'] + content[i]);
        }
    }
}

} // verus!
