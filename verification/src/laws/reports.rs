//! What is shown: nothing that was found is left out.

use vstd::prelude::*;

use crate::analysis::{ChangeGroupView, DiffView, ResponseView};
use crate::analysis::reply::quota_hint;
use crate::changelog::{
    markdown_categories, markdown_lines, markdown_text, terminal_categories, terminal_line,
    terminal_lines, terminal_text, EntryView, ReportView,
};
use crate::commit::approval::{
    message_questions, rationale_of, split_entries, split_entry, split_text, total_hunks,
    updated_entries, updated_text,
};
use crate::commit::execute::{committed_text, indented, staging_error};
use crate::commit::picker::{menu, menu_entries};
use crate::commit::proposal::{claim_text, group_parts, group_text};
use crate::engine::history::{SessionCommitView, SessionView};
use crate::engine::hunks::FileView;
use crate::engine::plan::{ids_text, GroupView};
use crate::heuristics::{verdict_of, VerdictView};
use crate::laws::texts::{
    lacks, lemma_occurs_in_itself, lemma_occurs_in_part, lemma_occurs_inside, lemma_replaced,
};
use crate::number::decimal_of;
use crate::pieces::{joined, lines_of};
use crate::revert::{session_text, short_sha, shown_commit, shown_commits, summary_of};
use crate::scan::{
    answer_hint, answer_text, local_reason, markdown_row, markdown_rows, mixed_entries,
    mixed_entry, one_change, progress_text, row_files, row_reason, ScanFlags,
};
use crate::style::styled;
use crate::text::{occurs, text, trimmed};

verus! {

/// A list that is joined holds each of its items.
pub proof fn lemma_joined_lists_hold_their_items(items: Seq<Seq<char>>, sep: Seq<char>, i: int)
    requires
        0 <= i < items.len(),
    ensures
        occurs(joined(items, sep), items[i]),
    decreases items.len(),
{
    let none: Seq<char> = Seq::empty();
    let front = items.drop_last();
    if items.len() == 1 {
        lemma_occurs_in_itself(items[0]);
    } else if i < front.len() {
        lemma_joined_lists_hold_their_items(front, sep, i);
        lemma_occurs_in_part(none, joined(front, sep), sep + items.last(), items[i]);
        assert(joined(items, sep) =~= joined(front, sep) + (sep + items.last()));
    } else {
        assert(joined(items, sep) =~= (joined(front, sep) + sep) + items.last() + none);
        lemma_occurs_inside(joined(front, sep) + sep, items.last(), none);
    }
}

/// Styling keeps the text, and without colors it changes nothing.
pub proof fn lemma_styles_keep_the_text(code: Seq<char>, shown: Seq<char>, color: bool)
    ensures
        occurs(styled(code, shown, color), shown),
        styled(code, shown, false) == shown,
{
    lemma_occurs_in_itself(shown);
    if color {
        let a = "\x1b["@ + code + "m"@;
        assert(styled(code, shown, color) =~= a + shown + "\x1b[0m"@);
        lemma_occurs_inside(a, shown, "\x1b[0m"@);
    }
}

// ── plans ───────────────────────────────────────────────────────────

/// What a group holds is told in full: every whole file, and every split file
/// with its hunks.
pub proof fn lemma_groups_are_told_in_full(group: GroupView, k: int)
    ensures
        0 <= k < group.whole.len() ==> occurs(group_text(group), group.whole[k]),
        0 <= k < group.partial.len() ==> occurs(
            group_text(group),
            group.partial[k].0 + " (hunks "@ + ids_text(group.partial[k].1) + ")"@,
        ),
{
    let parts = group_parts(group);
    if 0 <= k < group.whole.len() {
        assert(parts[k] == group.whole[k]);
        lemma_joined_lists_hold_their_items(parts, ", "@, k);
    }
    if 0 <= k < group.partial.len() {
        let n = group.whole.len() as int + k;
        assert(parts[n] == claim_text(group.partial[k]));
        lemma_joined_lists_hold_their_items(parts, ", "@, n);
    }
}

/// Numbers of hunks are told in order, each of them.
pub proof fn lemma_hunks_are_told(ids: Seq<usize>, i: int)
    requires
        0 <= i < ids.len(),
    ensures
        occurs(ids_text(ids), decimal_of(ids[i] as nat)),
{
    let words = ids.map_values(|id: usize| decimal_of(id as nat));
    assert(words[i] == decimal_of(ids[i] as nat));
    lemma_joined_lists_hold_their_items(words, ", "@, i);
}

proof fn lemma_split_entry(group: GroupView, number: nat, rationale: Seq<char>)
    ensures
        occurs(split_entry(group, number, rationale), decimal_of(number) + ". "@ + group.message + "\n"@),
        group_text(group).len() > 0 ==> occurs(split_entry(group, number, rationale), group_text(group)),
        rationale.len() > 0 ==> occurs(split_entry(group, number, rationale), rationale),
{
    let none: Seq<char> = Seq::empty();
    let s = split_entry(group, number, rationale);
    let head = decimal_of(number) + ". "@ + group.message + "\n"@;
    let files = if group_text(group).len() > 0 {
        "   files: "@ + group_text(group) + "\n"@
    } else {
        Seq::empty()
    };
    let why = if rationale.len() > 0 {
        "   why:   "@ + rationale + "\n"@
    } else {
        Seq::empty()
    };
    assert(s =~= head + files + why + "\n"@);
    assert(s =~= none + head + (files + why + "\n"@));
    lemma_occurs_inside(none, head, files + why + "\n"@);
    if group_text(group).len() > 0 {
        let a = head + "   files: "@;
        let b = "\n"@ + why + "\n"@;
        assert(s =~= a + group_text(group) + b);
        lemma_occurs_inside(a, group_text(group), b);
    }
    if rationale.len() > 0 {
        let a = head + files + "   why:   "@;
        assert(s =~= a + rationale + ("\n"@ + "\n"@));
        lemma_occurs_inside(a, rationale, "\n"@ + "\n"@);
    }
}

proof fn lemma_split_entries(plan: Seq<GroupView>, groups: Seq<ChangeGroupView>, i: int)
    requires
        0 <= i < plan.len(),
    ensures
        occurs(
            split_entries(plan, groups),
            decimal_of((i + 1) as nat) + ". "@ + plan[i].message + "\n"@,
        ),
        group_text(plan[i]).len() > 0 ==> occurs(split_entries(plan, groups), group_text(plan[i])),
        i < groups.len() && groups[i].rationale.len() > 0 ==> occurs(
            split_entries(plan, groups),
            groups[i].rationale,
        ),
    decreases plan.len(),
{
    let none: Seq<char> = Seq::empty();
    let front = plan.drop_last();
    let last = split_entry(plan.last(), plan.len(), rationale_of(groups, plan.len() - 1));
    let mark = decimal_of((i + 1) as nat) + ". "@ + plan[i].message + "\n"@;
    if i < front.len() {
        lemma_split_entries(front, groups, i);
        assert(front[i] == plan[i]);
        lemma_occurs_in_part(none, split_entries(front, groups), last, mark);
        if group_text(plan[i]).len() > 0 {
            lemma_occurs_in_part(none, split_entries(front, groups), last, group_text(plan[i]));
        }
        if i < groups.len() && groups[i].rationale.len() > 0 {
            lemma_occurs_in_part(none, split_entries(front, groups), last, groups[i].rationale);
        }
    } else {
        let why = rationale_of(groups, i);
        lemma_split_entry(plan[i], plan.len(), why);
        lemma_occurs_in_part(split_entries(front, groups), last, none, mark);
        if group_text(plan[i]).len() > 0 {
            lemma_occurs_in_part(split_entries(front, groups), last, none, group_text(plan[i]));
        }
        if why.len() > 0 {
            lemma_occurs_in_part(split_entries(front, groups), last, none, why);
        }
    }
}

/// A proposed split shows every commit with its number and message, its files
/// and its rationale, the number of commits, and the local hint.
pub proof fn lemma_proposed_splits_are_shown_in_full(
    plan: Seq<GroupView>,
    groups: Seq<ChangeGroupView>,
    hint: Option<Seq<char>>,
    files: Seq<FileView>,
    i: int,
)
    requires
        0 <= i < plan.len(),
    ensures
        occurs(
            split_text(plan, groups, hint, files),
            decimal_of((i + 1) as nat) + ". "@ + plan[i].message + "\n"@,
        ),
        group_text(plan[i]).len() > 0 ==> occurs(
            split_text(plan, groups, hint, files),
            group_text(plan[i]),
        ),
        i < groups.len() && groups[i].rationale.len() > 0 ==> occurs(
            split_text(plan, groups, hint, files),
            groups[i].rationale,
        ),
        hint matches Some(h) ==> occurs(split_text(plan, groups, hint, files), h),
        occurs(split_text(plan, groups, hint, files), decimal_of(plan.len()) + " commits:\n"@),
{
    let s = split_text(plan, groups, hint, files);
    let a0 = "\nThis changeset looks mixed — proposed split into "@;
    let mark = decimal_of(plan.len()) + " commits:\n"@;
    let hinted = match hint {
        Some(h) => "  local hint: "@ + h + "\n"@,
        None => Seq::empty(),
    };
    let head = a0 + mark + hinted + "\n"@;
    let entries = split_entries(plan, groups);
    let tail = s.skip((head + entries).len() as int);
    assert(s =~= head + entries + tail);
    lemma_split_entries(plan, groups, i);
    lemma_occurs_in_part(
        head,
        entries,
        tail,
        decimal_of((i + 1) as nat) + ". "@ + plan[i].message + "\n"@,
    );
    if group_text(plan[i]).len() > 0 {
        lemma_occurs_in_part(head, entries, tail, group_text(plan[i]));
    }
    if i < groups.len() && groups[i].rationale.len() > 0 {
        lemma_occurs_in_part(head, entries, tail, groups[i].rationale);
    }
    assert(s =~= a0 + mark + (hinted + "\n"@ + entries + tail));
    lemma_occurs_inside(a0, mark, hinted + "\n"@ + entries + tail);
    if let Some(h) = hint {
        let a = a0 + mark + "  local hint: "@;
        let b = "\n"@ + "\n"@ + entries + tail;
        assert(s =~= a + h + b);
        lemma_occurs_inside(a, h, b);
    }
}

/// All hunks of all files are counted.
pub proof fn lemma_hunks_add_up(a: Seq<FileView>, b: Seq<FileView>)
    ensures
        total_hunks(a + b) == total_hunks(a) + total_hunks(b),
        a.len() == 1 ==> total_hunks(a) == a[0].hunks.len(),
    decreases b.len(),
{
    if b.len() == 0 {
        assert(a + b =~= a);
    } else {
        lemma_hunks_add_up(a, b.drop_last());
        assert((a + b).drop_last() =~= a + b.drop_last());
        assert((a + b).last() == b.last());
    }
    if a.len() == 1 {
        assert(total_hunks(a.drop_last()) == 0);
    }
}

proof fn lemma_updated_entries(plan: Seq<GroupView>, i: int)
    requires
        0 <= i < plan.len(),
    ensures
        occurs(
            updated_entries(plan),
            decimal_of((i + 1) as nat) + ". "@ + plan[i].message + " — files: "@ + group_text(
                plan[i],
            ) + "\n"@,
        ),
    decreases plan.len(),
{
    let none: Seq<char> = Seq::empty();
    let front = plan.drop_last();
    let mark = decimal_of((i + 1) as nat) + ". "@ + plan[i].message + " — files: "@ + group_text(
        plan[i],
    ) + "\n"@;
    let last = decimal_of(plan.len()) + ". "@ + plan.last().message + " — files: "@ + group_text(
        plan.last(),
    ) + "\n"@;
    assert(updated_entries(plan) =~= updated_entries(front) + last);
    if i < front.len() {
        lemma_updated_entries(front, i);
        lemma_occurs_in_part(none, updated_entries(front), last, mark);
    } else {
        lemma_occurs_in_itself(last);
        lemma_occurs_in_part(updated_entries(front), last, none, mark);
    }
}

/// After an edit, every commit is shown again with its message and its files;
/// and the message of each is asked for with the one that it has.
pub proof fn lemma_edited_plans_are_shown_in_full(plan: Seq<GroupView>, i: int)
    requires
        0 <= i < plan.len(),
    ensures
        occurs(
            updated_text(plan),
            decimal_of((i + 1) as nat) + ". "@ + plan[i].message + " — files: "@ + group_text(
                plan[i],
            ) + "\n"@,
        ),
        message_questions(plan).len() == plan.len(),
        occurs(message_questions(plan)[i], plan[i].message),
        occurs(
            message_questions(plan)[i],
            decimal_of((i + 1) as nat) + "/"@ + decimal_of(plan.len()),
        ),
{
    lemma_updated_entries(plan, i);
    let none: Seq<char> = Seq::empty();
    let mark = decimal_of((i + 1) as nat) + ". "@ + plan[i].message + " — files: "@ + group_text(
        plan[i],
    ) + "\n"@;
    lemma_occurs_in_part("\nUpdated plan:\n"@, updated_entries(plan), none, mark);
    let q = message_questions(plan)[i];
    let m = plan[i].message;
    let nums = decimal_of((i + 1) as nat) + "/"@ + decimal_of(plan.len());
    let b = " (current: \""@;
    assert(q =~= ("Message "@ + nums + b) + m + "\"): "@);
    lemma_occurs_inside("Message "@ + nums + b, m, "\"): "@);
    assert(q =~= "Message "@ + nums + (b + m + "\"): "@));
    lemma_occurs_inside("Message "@, nums, b + m + "\"): "@);
}

/// A commit that was made is told with its message and its place, and with
/// every line that git printed; one that could not be staged with the reason.
pub proof fn lemma_commits_are_told(
    message: Seq<char>,
    number: nat,
    total: nat,
    output: Seq<char>,
    what: Seq<char>,
    why: Seq<char>,
    i: int,
)
    ensures
        occurs(committed_text(message, number, total, output), message),
        occurs(
            committed_text(message, number, total, output),
            decimal_of(number) + "/"@ + decimal_of(total),
        ),
        0 <= i < lines_of(trimmed(output)).len() ==> occurs(
            committed_text(message, number, total, output),
            lines_of(trimmed(output))[i],
        ),
        occurs(staging_error(what, number, total, why), why),
        occurs(
            staging_error(what, number, total, why),
            decimal_of(number) + "/"@ + decimal_of(total),
        ),
{
    let s = committed_text(message, number, total, output);
    let nums = decimal_of(number) + "/"@ + decimal_of(total);
    let all = lines_of(trimmed(output));
    let b = "] Committed: "@;
    assert(s =~= "["@ + nums + (b + message + "\n"@ + indented(all)));
    lemma_occurs_inside("["@, nums, b + message + "\n"@ + indented(all));
    assert(s =~= ("["@ + nums + b) + message + ("\n"@ + indented(all)));
    lemma_occurs_inside("["@ + nums + b, message, "\n"@ + indented(all));
    if 0 <= i < all.len() {
        let none: Seq<char> = Seq::empty();
        lemma_indented(all, i);
        lemma_occurs_in_part("["@ + nums + b + message + "\n"@, indented(all), none, all[i]);
        assert(s =~= "["@ + nums + b + message + "\n"@ + indented(all));
    }
    let e = staging_error(what, number, total, why);
    let c = "error: couldn't stage "@ + what + " for commit "@;
    assert(e =~= c + nums + (": "@ + why + "\n"@));
    lemma_occurs_inside(c, nums, ": "@ + why + "\n"@);
    assert(e =~= (c + nums + ": "@) + why + "\n"@);
    lemma_occurs_inside(c + nums + ": "@, why, "\n"@);
}

proof fn lemma_indented(all: Seq<Seq<char>>, i: int)
    requires
        0 <= i < all.len(),
    ensures
        occurs(indented(all), all[i]),
    decreases all.len(),
{
    let none: Seq<char> = Seq::empty();
    let front = all.drop_last();
    let tail = indented(all).skip(indented(front).len() as int);
    assert(indented(all) =~= indented(front) + tail);
    if i < front.len() {
        lemma_indented(front, i);
        lemma_occurs_in_part(none, indented(front), tail, all[i]);
    } else {
        assert(indented(all) =~= (indented(front) + "  "@) + all[i] + "\n"@);
        lemma_occurs_inside(indented(front) + "  "@, all[i], "\n"@);
    }
}

// ── branches ────────────────────────────────────────────────────────

/// The list of branches holds every branch with its number, marks the one that
/// is checked out and no other, and ends with the choice of a new one.
pub proof fn lemma_every_branch_is_listed(
    branches: Seq<Seq<char>>,
    current: Option<Seq<char>>,
    i: int,
)
    requires
        0 <= i < branches.len(),
    ensures
        occurs(
            menu(branches, current),
            "  "@ + decimal_of((i + 1) as nat) + ": "@ + branches[i] + (if current == Some(
                branches[i],
            ) {
                " (current)\n"@
            } else {
                "\n"@
            }),
        ),
        occurs(
            menu(branches, current),
            "  "@ + decimal_of(branches.len() + 1) + ": create a new branch\n"@,
        ),
{
    let mark = "  "@ + decimal_of((i + 1) as nat) + ": "@ + branches[i] + (if current == Some(
        branches[i],
    ) {
        " (current)\n"@
    } else {
        "\n"@
    });
    lemma_menu_entries(branches, current, i);
    let s = menu(branches, current);
    let a = "\nChoose a branch to commit to:\n"@;
    let list = menu_entries(branches, current);
    let last = "  "@ + decimal_of(branches.len() + 1) + ": create a new branch\n"@;
    reveal_strlit(": create a new branch\n");
    reveal_strlit(": create a new branch\n\n");
    reveal_strlit("\n");
    assert(": create a new branch\n\n"@ =~= ": create a new branch\n"@ + "\n"@);
    assert(s =~= a + list + (last + "\n"@));
    lemma_occurs_in_part(a, list, last + "\n"@, mark);
    assert(s =~= (a + list) + last + "\n"@);
    lemma_occurs_inside(a + list, last, "\n"@);
}

proof fn lemma_menu_entries(branches: Seq<Seq<char>>, current: Option<Seq<char>>, i: int)
    requires
        0 <= i < branches.len(),
    ensures
        occurs(
            menu_entries(branches, current),
            "  "@ + decimal_of((i + 1) as nat) + ": "@ + branches[i] + (if current == Some(
                branches[i],
            ) {
                " (current)\n"@
            } else {
                "\n"@
            }),
        ),
    decreases branches.len(),
{
    let none: Seq<char> = Seq::empty();
    let front = branches.drop_last();
    let before = menu_entries(front, current);
    let mark = "  "@ + decimal_of((i + 1) as nat) + ": "@ + branches[i] + (if current == Some(
        branches[i],
    ) {
        " (current)\n"@
    } else {
        "\n"@
    });
    let last = menu_entries(branches, current).skip(before.len() as int);
    assert(menu_entries(branches, current) =~= before + last);
    if i < front.len() {
        lemma_menu_entries(front, current, i);
        lemma_occurs_in_part(none, before, last, mark);
    } else {
        assert(menu_entries(branches, current) =~= before + mark + none);
        lemma_occurs_inside(before, mark, none);
    }
}

// ── scans ───────────────────────────────────────────────────────────

proof fn lemma_mixed_entries(groups: Seq<ChangeGroupView>, i: int)
    requires
        0 <= i < groups.len(),
    ensures
        occurs(
            mixed_entries(groups),
            decimal_of((i + 1) as nat) + ". "@ + groups[i].commit_message + "\n"@,
        ),
        groups[i].files.len() > 0 ==> occurs(mixed_entries(groups), joined(groups[i].files, ", "@)),
        groups[i].rationale.len() > 0 ==> occurs(mixed_entries(groups), groups[i].rationale),
    decreases groups.len(),
{
    let none: Seq<char> = Seq::empty();
    let front = groups.drop_last();
    let before = mixed_entries(front);
    let last = mixed_entry(groups.last(), groups.len());
    let g = groups[i];
    let mark = decimal_of((i + 1) as nat) + ". "@ + g.commit_message + "\n"@;
    if i < front.len() {
        lemma_mixed_entries(front, i);
        assert(front[i] == g);
        lemma_occurs_in_part(none, before, last, mark);
        if g.files.len() > 0 {
            lemma_occurs_in_part(none, before, last, joined(g.files, ", "@));
        }
        if g.rationale.len() > 0 {
            lemma_occurs_in_part(none, before, last, g.rationale);
        }
    } else {
        let files = if g.files.len() > 0 {
            "   files: "@ + joined(g.files, ", "@) + "\n"@
        } else {
            Seq::empty()
        };
        let why = if g.rationale.len() > 0 {
            "   why:   "@ + g.rationale + "\n"@
        } else {
            Seq::empty()
        };
        let s = mixed_entries(groups);
        assert(s =~= before + mark + (files + why + "\n"@));
        lemma_occurs_inside(before, mark, files + why + "\n"@);
        if g.files.len() > 0 {
            let a = before + mark + "   files: "@;
            assert(s =~= a + joined(g.files, ", "@) + ("\n"@ + why + "\n"@));
            lemma_occurs_inside(a, joined(g.files, ", "@), "\n"@ + why + "\n"@);
        }
        if g.rationale.len() > 0 {
            let a = before + mark + files + "   why:   "@;
            assert(s =~= a + g.rationale + ("\n"@ + "\n"@));
            lemma_occurs_inside(a, g.rationale, "\n"@ + "\n"@);
        }
    }
}

/// The report on a mixed change shows every group with its number, its message,
/// its files and its rationale, and the local hint.
pub proof fn lemma_mixed_changes_are_shown_in_full(
    flags: ScanFlags,
    files: Seq<Seq<char>>,
    response: ResponseView,
    color: bool,
    i: int,
)
    requires
        !flags.json,
        !flags.markdown,
        response.groups.len() > 1,
        0 <= i < response.groups.len(),
    ensures
        ({
            let s = answer_text(flags, files, response, color);
            let g = response.groups[i];
            &&& occurs(s, decimal_of((i + 1) as nat) + ". "@ + g.commit_message + "\n"@)
            &&& g.files.len() > 0 ==> occurs(s, joined(g.files, ", "@))
            &&& g.rationale.len() > 0 ==> occurs(s, g.rationale)
            &&& verdict_of(files) matches VerdictView::Inconclusive { reason } ==> occurs(s, reason)
        }),
{
    let reason = local_reason(files);
    let s = answer_text(flags, files, response, color);
    let g = response.groups[i];
    let title = styled("31"@, "✗ This commit looks mixed"@, color);
    let head = title + "\n  local hint: "@ + reason + "\n\n"@;
    let list = mixed_entries(response.groups);
    let tail = s.skip((head + list).len() as int);
    assert(s =~= head + list + tail);
    lemma_mixed_entries(response.groups, i);
    lemma_occurs_in_part(
        head,
        list,
        tail,
        decimal_of((i + 1) as nat) + ". "@ + g.commit_message + "\n"@,
    );
    if g.files.len() > 0 {
        lemma_occurs_in_part(head, list, tail, joined(g.files, ", "@));
    }
    if g.rationale.len() > 0 {
        lemma_occurs_in_part(head, list, tail, g.rationale);
    }
    let a = title + "\n  local hint: "@;
    let b = "\n\n"@ + list + tail;
    assert(s =~= a + reason + b);
    lemma_occurs_inside(a, reason, b);
}

proof fn lemma_markdown_rows(groups: Seq<ChangeGroupView>, i: int)
    requires
        0 <= i < groups.len(),
    ensures
        occurs(markdown_rows(groups), markdown_row(groups[i], (i + 1) as nat)),
    decreases groups.len(),
{
    let none: Seq<char> = Seq::empty();
    let front = groups.drop_last();
    let row = markdown_row(groups[i], (i + 1) as nat);
    if i < front.len() {
        lemma_markdown_rows(front, i);
        lemma_occurs_in_part(
            none,
            markdown_rows(front),
            markdown_row(groups.last(), groups.len()),
            row,
        );
    } else {
        lemma_occurs_in_itself(row);
        lemma_occurs_in_part(markdown_rows(front), row, none, row);
    }
}

/// The table on a mixed change has a row for every group, with its number, its
/// message and its files, the split ones where it has no whole ones; bars in a
/// rationale are escaped, so that they end no cell.
pub proof fn lemma_every_group_has_a_row(
    flags: ScanFlags,
    files: Seq<Seq<char>>,
    response: ResponseView,
    color: bool,
    i: int,
    k: int,
)
    requires
        flags.markdown,
        response.groups.len() > 1,
        0 <= i < response.groups.len(),
    ensures
        ({
            let s = answer_text(flags, files, response, color);
            let g = response.groups[i];
            let start = "| "@ + decimal_of((i + 1) as nat) + " | "@ + g.commit_message + " | "@;
            &&& occurs(s, start)
            &&& 0 <= k < g.files.len() ==> occurs(s, g.files[k])
            &&& g.files.len() == 0 && 0 <= k < g.partial_files.len() ==> occurs(
                s,
                g.partial_files[k].0,
            )
        }),
{
    let s = answer_text(flags, files, response, color);
    let g = response.groups[i];
    let reason = local_reason(files);
    let rows = markdown_rows(response.groups);
    let row = markdown_row(g, (i + 1) as nat);
    let none: Seq<char> = Seq::empty();
    let head = crate::scan::markdown_head()
        + "**Severity: High** — this PR bundles multiple unrelated changes.\n\n⚠️ "@ + reason
        + " Consider splitting it into separate commits:\n\n| # | Suggested commit | Severity | Files | Why |\n|---|---|---|---|---|\n"@;
    let tail = s.skip((head + rows).len() as int);
    assert(s =~= head + rows + tail);
    lemma_markdown_rows(response.groups, i);
    lemma_occurs_in_part(head, rows, tail, row);
    let start = "| "@ + decimal_of((i + 1) as nat) + " | "@ + g.commit_message + " | "@;
    reveal_strlit(" | ");
    reveal_strlit(" | Medium | ");
    reveal_strlit("Medium | ");
    assert(" | Medium | "@ =~= " | "@ + "Medium | "@);
    let named = row_files(g);
    let list = joined(named, ", "@);
    let end = " | "@ + row_reason(g) + " |\n"@;
    assert(row =~= none + start + ("Medium | "@ + list + end));
    lemma_occurs_inside(none, start, "Medium | "@ + list + end);
    lemma_inside(s, row, start);
    assert(row =~= (start + "Medium | "@) + list + end);
    if 0 <= k < named.len() {
        lemma_joined_lists_hold_their_items(named, ", "@, k);
        lemma_occurs_in_part(start + "Medium | "@, list, end, named[k]);
        lemma_inside(s, row, named[k]);
    }
}

/// What occurs in a part that occurs in a text occurs in the text.
pub proof fn lemma_inside(s: Seq<char>, part: Seq<char>, needle: Seq<char>)
    requires
        occurs(s, part),
        occurs(part, needle),
    ensures
        occurs(s, needle),
{
    crate::laws::texts::lemma_occurrence_splits(s, part);
    let (a, b) = choose|a: Seq<char>, b: Seq<char>| s == #[trigger] (a + part + b);
    lemma_occurs_in_part(a, part, b, needle);
}

/// A bar in a rationale is escaped where it stands.
pub proof fn lemma_bars_are_escaped(group: ChangeGroupView, a: Seq<char>, b: Seq<char>)
    requires
        group.rationale == a + seq!['|'] + b,
        lacks(a, '|'),
        lacks(b, '|'),
    ensures
        row_reason(group) == a + seq!['\\', '|'] + b,
{
    reveal_strlit("|");
    reveal_strlit("\\|");
    let none: Seq<char> = Seq::empty();
    assert("|"@ =~= seq!['|']);
    assert("\\|"@ =~= seq!['\\', '|']);
    lemma_replaced(a, "|"@, b, "\\|"@);
    lemma_replaced(b, "|"@, none, "\\|"@);
}

/// One group, or none, is reported as one change, with the message of the group
/// where there is one.
pub proof fn lemma_one_group_is_one_change(
    flags: ScanFlags,
    files: Seq<Seq<char>>,
    response: ResponseView,
    color: bool,
)
    requires
        !flags.json || flags.markdown,
        response.groups.len() <= 1,
    ensures
        response.groups.len() == 1 ==> occurs(
            answer_text(flags, files, response, color),
            response.groups[0].commit_message,
        ),
        response.groups.len() == 0 ==> occurs(
            answer_text(flags, files, response, color),
            "single logical change"@,
        ),
{
    let s = answer_text(flags, files, response, color);
    let m = one_change(response.groups);
    if flags.markdown {
        let a = crate::scan::markdown_head() + "✅ **Looks like a single logical change** — "@;
        let b = s.skip((a + m).len() as int);
        assert(s =~= a + m + b);
        lemma_occurs_inside(a, m, b);
    } else {
        let a = styled("32"@, "✓ Looks like a single logical change"@, color) + "\n  "@;
        assert(s =~= a + m + "\n"@);
        lemma_occurs_inside(a, m, "\n"@);
    }
}

/// Output for machines holds neither progress nor hints; other output tells how
/// many files are looked at.
pub proof fn lemma_machines_get_no_chatter(
    flags: ScanFlags,
    diff: DiffView,
    remaining: Option<u32>,
)
    ensures
        flags.json || flags.markdown ==> progress_text(flags, diff).len() == 0 && answer_hint(
            flags,
            remaining,
        ).len() == 0,
        !flags.json && !flags.markdown ==> occurs(
            progress_text(flags, diff),
            decimal_of(diff.files.len()),
        ),
        !flags.json && !flags.markdown ==> (quota_hint(remaining) matches Some(h) ==> occurs(
            answer_hint(flags, remaining),
            h,
        )),
{
    if !flags.json && !flags.markdown {
        let s = progress_text(flags, diff);
        let n = decimal_of(diff.files.len());
        let a = if text(flags.diff_range) is Some {
            "Analyzing "@
        } else {
            "Scanning "@
        };
        let b = s.skip((a + n).len() as int);
        assert(s =~= a + n + b);
        lemma_occurs_inside(a, n, b);
        if let Some(h) = quota_hint(remaining) {
            assert(answer_hint(flags, remaining) =~= "\n"@ + h + "\n"@);
            lemma_occurs_inside("\n"@, h, "\n"@);
        }
    }
}

// ── changelogs ──────────────────────────────────────────────────────

/// The lines of commits are those of the parts.
pub proof fn lemma_commit_lines(
    a: Seq<EntryView>,
    b: Seq<EntryView>,
    left: Seq<char>,
    right: Seq<char>,
)
    ensures
        terminal_lines(a + b, left, right) == terminal_lines(a, left, right) + terminal_lines(
            b,
            left,
            right,
        ),
        markdown_lines(a + b) == markdown_lines(a) + markdown_lines(b),
    decreases b.len(),
{
    if b.len() == 0 {
        assert(a + b =~= a);
        assert(terminal_lines(a, left, right) + terminal_lines(b, left, right) =~= terminal_lines(
            a,
            left,
            right,
        ));
        assert(markdown_lines(a) + markdown_lines(b) =~= markdown_lines(a));
    } else {
        lemma_commit_lines(a, b.drop_last(), left, right);
        assert((a + b).drop_last() =~= a + b.drop_last());
        assert((a + b).last() == b.last());
        assert(terminal_lines(a + b, left, right) =~= terminal_lines(a, left, right)
            + terminal_lines(b, left, right));
        assert(markdown_lines(a + b) =~= markdown_lines(a) + markdown_lines(b));
    }
}

/// A line on the terminal shows type, scope, summary and hash of a commit.
pub proof fn lemma_terminal_lines_show_the_commit(e: EntryView, left: Seq<char>, right: Seq<char>)
    ensures
        occurs(terminal_line(e, left, right), e.summary),
        occurs(terminal_line(e, left, right), e.hash),
        occurs(terminal_line(e, left, right), e.commit_type),
        e.scope matches Some(s) ==> occurs(terminal_line(e, left, right), "("@ + s + ")"@),
        terminal_lines(seq![e], left, right) == terminal_line(e, left, right),
{
    let none: Seq<EntryView> = Seq::empty();
    assert(seq![e].drop_last() =~= none);
    assert(terminal_lines(none, left, right).len() == 0);
    assert(terminal_lines(seq![e], left, right) =~= terminal_line(e, left, right));
    let t = terminal_line(e, left, right);
    let scope = crate::changelog::bracketed(e.scope);
    let head = "  • "@ + e.commit_type;
    let tail = left + e.hash + right;
    let rest = ": "@ + e.summary + tail;
    assert(t =~= "  • "@ + e.commit_type + (scope + rest));
    lemma_occurs_inside("  • "@, e.commit_type, scope + rest);
    assert(t =~= head + scope + rest);
    lemma_occurs_inside(head, scope, rest);
    let front = head + scope + ": "@;
    assert(t =~= front + e.summary + tail);
    lemma_occurs_inside(front, e.summary, tail);
    assert(t =~= (front + e.summary + left) + e.hash + right);
    lemma_occurs_inside(front + e.summary + left, e.hash, right);
}

/// A line in Markdown shows scope, summary and hash of a commit.
pub proof fn lemma_markdown_lines_show_the_commit(e: EntryView)
    ensures
        occurs(markdown_lines(seq![e]), e.summary),
        occurs(markdown_lines(seq![e]), e.hash),
        e.scope matches Some(s) ==> occurs(markdown_lines(seq![e]), s),
{
    let none: Seq<EntryView> = Seq::empty();
    let one = seq![e];
    assert(one.drop_last() =~= none);
    let m = markdown_lines(one);
    let bold = crate::changelog::emphasized(e.scope);
    let tail = " (`"@ + e.hash + "`)\n"@;
    assert(markdown_lines(none).len() == 0);
    assert(m =~= ("- "@ + bold) + e.summary + tail);
    lemma_occurs_inside("- "@ + bold, e.summary, tail);
    let front = "- "@ + bold + e.summary + " (`"@;
    assert(m =~= front + e.hash + "`)\n"@);
    lemma_occurs_inside(front, e.hash, "`)\n"@);
    if let Some(s) = e.scope {
        let rest = "**: "@ + e.summary + tail;
        assert(bold =~= "**"@ + s + "**: "@);
        assert(m =~= ("- "@ + "**"@) + s + rest);
        lemma_occurs_inside("- "@ + "**"@, s, rest);
    }
}

proof fn lemma_terminal_categories(
    categories: Seq<(Seq<char>, Seq<EntryView>)>,
    color: bool,
    i: int,
)
    requires
        0 <= i < categories.len(),
    ensures
        occurs(terminal_categories(categories, color), "### "@ + categories[i].0),
        occurs(
            terminal_categories(categories, color),
            terminal_lines(categories[i].1, " ("@, ")\n"@),
        ),
    decreases categories.len(),
{
    let none: Seq<char> = Seq::empty();
    let front = categories.drop_last();
    let before = terminal_categories(front, color);
    let (name, entries) = categories.last();
    let heading = styled("32"@, "### "@ + name, color);
    let list = terminal_lines(entries, " ("@, ")\n"@);
    let last = heading + "\n"@ + list + "\n"@;
    assert(terminal_categories(categories, color) =~= before + last);
    if i < front.len() {
        lemma_terminal_categories(front, color, i);
        lemma_occurs_in_part(none, before, last, "### "@ + categories[i].0);
        lemma_occurs_in_part(none, before, last, terminal_lines(categories[i].1, " ("@, ")\n"@));
    } else {
        lemma_styles_keep_the_text("32"@, "### "@ + name, color);
        lemma_block(heading, list, "### "@ + name);
        lemma_occurs_in_part(before, last, none, "### "@ + name);
        lemma_occurs_in_part(before, last, none, list);
    }
}

proof fn lemma_block(heading: Seq<char>, list: Seq<char>, name: Seq<char>)
    requires
        occurs(heading, name),
    ensures
        occurs(heading + "\n"@ + list + "\n"@, name),
        occurs(heading + "\n"@ + list + "\n"@, list),
{
    let none: Seq<char> = Seq::empty();
    let s = heading + "\n"@ + list + "\n"@;
    assert(s =~= none + heading + ("\n"@ + list + "\n"@));
    lemma_occurs_in_part(none, heading, "\n"@ + list + "\n"@, name);
    lemma_occurs_inside(heading + "\n"@, list, "\n"@);
}

proof fn lemma_markdown_categories(categories: Seq<(Seq<char>, Seq<EntryView>)>, i: int)
    requires
        0 <= i < categories.len(),
    ensures
        occurs(markdown_categories(categories), "## "@ + categories[i].0 + "\n\n"@),
        occurs(markdown_categories(categories), markdown_lines(categories[i].1)),
    decreases categories.len(),
{
    let none: Seq<char> = Seq::empty();
    let front = categories.drop_last();
    let before = markdown_categories(front);
    let (name, entries) = categories.last();
    let heading = "## "@ + name + "\n\n"@;
    let list = markdown_lines(entries);
    let last = heading + list + "\n"@;
    assert(markdown_categories(categories) =~= before + last);
    if i < front.len() {
        lemma_markdown_categories(front, i);
        lemma_occurs_in_part(none, before, last, "## "@ + categories[i].0 + "\n\n"@);
        lemma_occurs_in_part(none, before, last, markdown_lines(categories[i].1));
    } else {
        assert(last =~= none + heading + (list + "\n"@));
        lemma_occurs_inside(none, heading, list + "\n"@);
        lemma_occurs_inside(heading, list, "\n"@);
        lemma_occurs_in_part(before, last, none, heading);
        lemma_occurs_in_part(before, last, none, list);
    }
}

/// The title of a report, and the line with the number of its commits.
spec fn terminal_head(report: ReportView, color: bool) -> Seq<char> {
    styled("1"@, "📋 Commitor Changelog ("@ + report.range + ")"@, color)
        + "\nTotal Conventional Commits: "@ + decimal_of(report.total_commits) + "\n\n"@
}

/// The breaking changes of a report.
spec fn terminal_warning(report: ReportView, color: bool) -> Seq<char> {
    if report.breaking_changes.len() > 0 {
        styled("33"@, "🚨 BREAKING CHANGES:"@, color) + "\n"@ + terminal_lines(
            report.breaking_changes,
            " ["@,
            "]\n"@,
        ) + "\n"@
    } else {
        Seq::empty()
    }
}

proof fn lemma_terminal_parts(report: ReportView, color: bool)
    ensures
        terminal_text(report, color) == terminal_head(report, color) + terminal_warning(report, color)
            + terminal_categories(report.categories, color),
{
}

proof fn lemma_terminal_head(report: ReportView, color: bool)
    ensures
        occurs(terminal_head(report, color), report.range),
        occurs(
            terminal_head(report, color),
            "\nTotal Conventional Commits: "@ + decimal_of(report.total_commits) + "\n\n"@,
        ),
{
    let none: Seq<char> = Seq::empty();
    let title = "📋 Commitor Changelog ("@ + report.range + ")"@;
    let shown = styled("1"@, title, color);
    let total = "\nTotal Conventional Commits: "@ + decimal_of(report.total_commits) + "\n\n"@;
    lemma_styles_keep_the_text("1"@, title, color);
    lemma_occurs_inside("📋 Commitor Changelog ("@, report.range, ")"@);
    lemma_inside(shown, title, report.range);
    assert(terminal_head(report, color) =~= shown + total);
    lemma_occurs_in_part(none, shown, total, report.range);
    lemma_occurs_in_itself(total);
    lemma_occurs_in_part(shown, total, none, total);
}

/// On the terminal a report shows every category with all its commits, all
/// breaking changes, the range and the number of commits.
pub proof fn lemma_reports_on_the_terminal(report: ReportView, color: bool, i: int)
    ensures
        0 <= i < report.categories.len() ==> occurs(
            terminal_text(report, color),
            "### "@ + report.categories[i].0,
        ) && occurs(
            terminal_text(report, color),
            terminal_lines(report.categories[i].1, " ("@, ")\n"@),
        ),
        report.breaking_changes.len() > 0 ==> occurs(
            terminal_text(report, color),
            terminal_lines(report.breaking_changes, " ["@, "]\n"@),
        ),
        occurs(terminal_text(report, color), report.range),
        occurs(
            terminal_text(report, color),
            "\nTotal Conventional Commits: "@ + decimal_of(report.total_commits) + "\n\n"@,
        ),
{
    let none: Seq<char> = Seq::empty();
    let head = terminal_head(report, color);
    let warning = terminal_warning(report, color);
    let cats = terminal_categories(report.categories, color);
    let t = head + warning + cats;
    lemma_terminal_parts(report, color);
    lemma_terminal_head(report, color);
    assert(t =~= head + (warning + cats));
    lemma_occurs_in_part(none, head, warning + cats, report.range);
    lemma_occurs_in_part(
        none,
        head,
        warning + cats,
        "\nTotal Conventional Commits: "@ + decimal_of(report.total_commits) + "\n\n"@,
    );
    if report.breaking_changes.len() > 0 {
        let list = terminal_lines(report.breaking_changes, " ["@, "]\n"@);
        let heading = styled("33"@, "🚨 BREAKING CHANGES:"@, color);
        lemma_occurs_inside(heading + "\n"@, list, "\n"@);
        lemma_occurs_in_part(head, warning, cats, list);
    }
    if 0 <= i < report.categories.len() {
        let (name, entries) = report.categories[i];
        lemma_terminal_categories(report.categories, color, i);
        lemma_occurs_in_part(head + warning, cats, none, "### "@ + name);
        lemma_occurs_in_part(head + warning, cats, none, terminal_lines(entries, " ("@, ")\n"@));
    }
}

/// In Markdown a report shows every category with all its commits, all breaking
/// changes and the range.
pub proof fn lemma_reports_in_markdown(report: ReportView, i: int)
    ensures
        0 <= i < report.categories.len() ==> occurs(
            markdown_text(report),
            "## "@ + report.categories[i].0 + "\n\n"@,
        ) && occurs(markdown_text(report), markdown_lines(report.categories[i].1)),
        report.breaking_changes.len() > 0 ==> occurs(
            markdown_text(report),
            markdown_lines(report.breaking_changes),
        ),
        occurs(markdown_text(report), report.range),
{
    let m = markdown_text(report);
    let head = "# Changelog ("@ + report.range + ")\n\n"@;
    let list = markdown_lines(report.breaking_changes);
    let warning = "## 🚨 BREAKING CHANGES\n\n"@;
    let broken = if report.breaking_changes.len() > 0 {
        warning + list + "\n"@
    } else {
        Seq::empty()
    };
    let cats = markdown_categories(report.categories);
    let tail = "---\n_Generated by [Commitor](https://github.com/Commitor-AI/commitor)_\n"@;
    let rest = broken + cats + tail;
    assert(m =~= head + rest);
    assert(m =~= "# Changelog ("@ + report.range + (")\n\n"@ + rest));
    lemma_occurs_inside("# Changelog ("@, report.range, ")\n\n"@ + rest);
    if report.breaking_changes.len() > 0 {
        assert(m =~= (head + warning) + list + ("\n"@ + cats + tail));
        lemma_occurs_inside(head + warning, list, "\n"@ + cats + tail);
    }
    if 0 <= i < report.categories.len() {
        let (name, entries) = report.categories[i];
        lemma_markdown_categories(report.categories, i);
        assert(m =~= (head + broken) + cats + tail);
        lemma_occurs_in_part(head + broken, cats, tail, "## "@ + name + "\n\n"@);
        lemma_occurs_in_part(head + broken, cats, tail, markdown_lines(entries));
    }
}

// ── sessions ────────────────────────────────────────────────────────

proof fn lemma_shown_commits(commits: Seq<SessionCommitView>, i: int)
    requires
        0 <= i < commits.len(),
    ensures
        occurs(shown_commits(commits), short_sha(commits[i].sha) + " "@ + summary_of(commits[i].message)),
        commits[i].files.len() > 0 ==> occurs(shown_commits(commits), joined(commits[i].files, ", "@)),
    decreases commits.len(),
{
    let none: Seq<char> = Seq::empty();
    let front = commits.drop_last();
    let before = shown_commits(front);
    let last = shown_commit(commits.last());
    let c = commits[i];
    let mark = short_sha(c.sha) + " "@ + summary_of(c.message);
    if i < front.len() {
        lemma_shown_commits(front, i);
        lemma_occurs_in_part(none, before, last, mark);
        if c.files.len() > 0 {
            lemma_occurs_in_part(none, before, last, joined(c.files, ", "@));
        }
    } else {
        let files = if c.files.len() > 0 {
            "    files: "@ + joined(c.files, ", "@) + "\n"@
        } else {
            Seq::empty()
        };
        let s = shown_commits(commits);
        assert(s =~= (before + "  "@) + mark + ("\n"@ + files));
        lemma_occurs_inside(before + "  "@, mark, "\n"@ + files);
        if c.files.len() > 0 {
            let a = before + "  "@ + mark + "\n"@ + "    files: "@;
            assert(s =~= a + joined(c.files, ", "@) + "\n"@);
            lemma_occurs_inside(a, joined(c.files, ", "@), "\n"@);
        }
    }
}

/// A session is shown with its branches and with every commit and its files.
pub proof fn lemma_sessions_are_shown_in_full(session: SessionView, i: int)
    ensures
        0 <= i < session.commits.len() ==> occurs(
            session_text(session),
            short_sha(session.commits[i].sha) + " "@ + summary_of(session.commits[i].message),
        ),
        0 <= i < session.commits.len() && session.commits[i].files.len() > 0 ==> occurs(
            session_text(session),
            joined(session.commits[i].files, ", "@),
        ),
        session.branch matches Some(b) ==> occurs(session_text(session), "Branch: "@ + b + "\n"@),
        session.base_branch matches Some(b) ==> occurs(
            session_text(session),
            "Forked from: "@ + b + "\n"@,
        ),
{
    let none: Seq<char> = Seq::empty();
    let s = session_text(session);
    let list = shown_commits(session.commits);
    let head = s.take(s.len() - list.len());
    assert(s =~= head + list + none);
    if 0 <= i < session.commits.len() {
        lemma_shown_commits(session.commits, i);
        let c = session.commits[i];
        lemma_occurs_in_part(head, list, none, short_sha(c.sha) + " "@ + summary_of(c.message));
        if c.files.len() > 0 {
            lemma_occurs_in_part(head, list, none, joined(c.files, ", "@));
        }
    }
    let first = "Session "@ + session.session_id + " — "@ + decimal_of(session.commits.len())
        + " commit(s), recorded at "@ + session.timestamp + "\n"@;
    let branch = match session.branch {
        Some(b) => "Branch: "@ + b + "\n"@,
        None => "Branch: (detached HEAD)\n"@,
    };
    let base = match session.base_branch {
        Some(b) => "Forked from: "@ + b + "\n"@,
        None => Seq::empty(),
    };
    assert(s =~= first + branch + (base + list));
    lemma_occurs_inside(first, branch, base + list);
    assert(s =~= (first + branch) + base + list);
    lemma_occurs_inside(first + branch, base, list);
}

} // verus!
