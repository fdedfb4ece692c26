//! What the patches of an accepted plan stage.

use vstd::prelude::*;

use crate::engine::coverage::{
    group_ids, lemma_accepted_iff_partition, lemma_all_numbers, lemma_ids_of_last_group,
    lemma_plan_claims_its_groups, lemma_times_add, sound_ids, times,
};
use crate::engine::hunks::{
    all_hunk_lines, file_of, first_with_path, hunk_lines, hunk_of, ids_within, lemma_preamble_add,
    lemma_sections_add, lemma_sections_are_marked, lemma_sections_hold,
    lemma_sections_keep_every_line, lemma_sections_of_runs, parsed, patch_of, sections,
    selected_lines, FileView, HunkView,
};
use crate::engine::plan::{
    covered, hunk_ids, plan_claims, plan_fault, record, splits, wholes, GroupView,
};
use crate::pieces::{
    lemma_lines_are_read_back, lemma_lines_hold_no_line_feed, lemma_lines_without_carriage_returns,
    lines_of, with_newlines, without_cr,
};

verus! {

/// The lines of the hunks of one file that a group stages.
pub open spec fn group_stages(
    hunks: Seq<HunkView>,
    partial: Seq<(Seq<char>, Seq<usize>)>,
    path: Seq<char>,
) -> Seq<Seq<char>>
    decreases partial.len(),
{
    if partial.len() == 0 {
        Seq::empty()
    } else {
        group_stages(hunks, partial.drop_last(), path) + if partial.last().0 == path {
            selected_lines(hunks, partial.last().1)
        } else {
            Seq::empty()
        }
    }
}

/// The lines of the hunks of one file that all groups stage.
pub open spec fn plan_stages(
    hunks: Seq<HunkView>,
    groups: Seq<GroupView>,
    path: Seq<char>,
) -> Seq<Seq<char>>
    decreases groups.len(),
{
    if groups.len() == 0 {
        Seq::empty()
    } else {
        plan_stages(hunks, groups.drop_last(), path) + group_stages(
            hunks,
            groups.last().partial,
            path,
        )
    }
}

/// No two records have the same path.
pub open spec fn distinct_paths(files: Seq<FileView>) -> bool {
    forall|i: int, j: int|
        0 <= i < j < files.len() ==> (#[trigger] files[i]).path != (#[trigger] files[j]).path
}

// ── the claimed numbers ─────────────────────────────────────────────

proof fn lemma_selected_add(hunks: Seq<HunkView>, a: Seq<usize>, b: Seq<usize>)
    ensures
        selected_lines(hunks, a + b) == selected_lines(hunks, a) + selected_lines(hunks, b),
    decreases b.len(),
{
    if b.len() == 0 {
        assert(a + b =~= a);
        assert(selected_lines(hunks, a) + selected_lines(hunks, b) =~= selected_lines(hunks, a));
    } else {
        lemma_selected_add(hunks, a, b.drop_last());
        assert((a + b).drop_last() =~= a + b.drop_last());
        assert((a + b).last() == b.last());
        assert(selected_lines(hunks, a + b) =~= selected_lines(hunks, a) + selected_lines(hunks, b));
    }
}

proof fn lemma_group_stages(
    hunks: Seq<HunkView>,
    partial: Seq<(Seq<char>, Seq<usize>)>,
    path: Seq<char>,
)
    ensures
        group_stages(hunks, partial, path) == selected_lines(hunks, group_ids(partial, path)),
    decreases partial.len(),
{
    if partial.len() > 0 {
        let (p, ids) = partial.last();
        lemma_group_stages(hunks, partial.drop_last(), path);
        let before = group_ids(partial.drop_last(), path);
        if p == path {
            lemma_selected_add(hunks, before, ids);
        } else {
            assert(before + Seq::empty() =~= before);
            let lines = group_stages(hunks, partial.drop_last(), path);
            assert(lines + Seq::empty() =~= lines);
        }
    }
}

proof fn lemma_plan_stages(hunks: Seq<HunkView>, groups: Seq<GroupView>, path: Seq<char>)
    ensures
        plan_stages(hunks, groups, path) == selected_lines(
            hunks,
            hunk_ids(plan_claims(groups), path),
        ),
    decreases groups.len(),
{
    if groups.len() > 0 {
        let g = groups.last();
        let before = hunk_ids(plan_claims(groups.drop_last()), path);
        lemma_plan_stages(hunks, groups.drop_last(), path);
        lemma_ids_of_last_group(groups, path);
        lemma_selected_add(hunks, before, group_ids(g.partial, path));
        lemma_group_stages(hunks, g.partial, path);
    }
}

// ── counting lines ──────────────────────────────────────────────────

proof fn lemma_count_without(hunks: Seq<HunkView>, ids: Seq<usize>, j: int, line: Seq<char>)
    requires
        0 <= j < ids.len(),
    ensures
        times(selected_lines(hunks, ids), line) == times(
            selected_lines(hunks, ids.remove(j)),
            line,
        ) + times(hunk_lines(hunks[ids[j] - 1]), line),
{
    let a = ids.take(j);
    let b = ids.skip(j + 1);
    let one = seq![ids[j]];
    assert(ids =~= (a + one) + b);
    assert(ids.remove(j) =~= a + b);
    lemma_selected_add(hunks, a + one, b);
    lemma_selected_add(hunks, a, one);
    lemma_selected_add(hunks, a, b);
    assert(one.drop_last() =~= Seq::empty());
    assert(selected_lines(hunks, one.drop_last()).len() == 0);
    assert(one.last() == ids[j]);
    assert(selected_lines(hunks, one) =~= hunk_lines(hunks[ids[j] - 1]));
    let la = selected_lines(hunks, a);
    let lb = selected_lines(hunks, b);
    let lone = selected_lines(hunks, one);
    lemma_times_add(la + lone, lb, line);
    lemma_times_add(la, lone, line);
    lemma_times_add(la, lb, line);
}

proof fn lemma_all_ids_count(hunks: Seq<HunkView>, ids: Seq<usize>, n: nat, line: Seq<char>)
    requires
        n <= hunks.len() <= usize::MAX,
        ids.no_duplicates(),
        ids.len() == n,
        ids_within(ids, n),
    ensures
        times(selected_lines(hunks, ids), line) == times(
            all_hunk_lines(hunks.take(n as int)),
            line,
        ),
    decreases n,
{
    let lines = |h: HunkView| hunk_lines(h);
    if n == 0 {
        assert(hunks.take(0).map_values(lines) =~= Seq::empty());
    } else {
        let last = n as usize;
        lemma_all_numbers(ids, n, last);
        let j = choose|j: int| 0 <= j < ids.len() && ids[j] == last;
        let rest = ids.remove(j);
        assert forall|i: int| 0 <= i < rest.len() implies 1 <= #[trigger] rest[i] <= n - 1 by {
            let k = if i < j {
                i
            } else {
                i + 1
            };
            assert(rest[i] == ids[k]);
            assert(ids[k] != ids[j]);
        }
        assert(rest.no_duplicates()) by {
            assert forall|x: int, y: int|
                0 <= x < rest.len() && 0 <= y < rest.len() && x != y implies rest[x] != rest[y] by {
                let kx = if x < j {
                    x
                } else {
                    x + 1
                };
                let ky = if y < j {
                    y
                } else {
                    y + 1
                };
                assert(rest[x] == ids[kx] && rest[y] == ids[ky]);
            }
        }
        lemma_all_ids_count(hunks, rest, (n - 1) as nat, line);
        lemma_count_without(hunks, ids, j, line);
        let front = hunks.take(n - 1);
        assert(hunks.take(n as int).map_values(lines) =~= front.map_values(lines).push(
            hunk_lines(hunks[n - 1]),
        ));
        front.map_values(lines).lemma_flatten_push(hunk_lines(hunks[n - 1]));
        lemma_times_add(all_hunk_lines(front), hunk_lines(hunks[n - 1]), line);
    }
}

// ── laws ────────────────────────────────────────────────────────────

/// An accepted plan that does not take a file whole stages every line of its
/// hunks exactly as often as the diff holds it, over all commits together.
pub proof fn lemma_every_line_is_staged_once(
    files: Seq<FileView>,
    groups: Seq<GroupView>,
    expected: Seq<Seq<char>>,
    i: int,
    line: Seq<char>,
)
    requires
        plan_fault(files, groups, expected) is None,
        0 <= i < files.len(),
        record(files, files[i].path) == Some(files[i]),
        files[i].hunks.len() <= usize::MAX,
        !wholes(plan_claims(groups)).contains(files[i].path),
    ensures
        times(plan_stages(files[i].hunks, groups, files[i].path), line) == times(
            all_hunk_lines(files[i].hunks),
            line,
        ),
{
    let claims = plan_claims(groups);
    let file = files[i];
    let ids = hunk_ids(claims, file.path);
    lemma_accepted_iff_partition(files, groups, expected);
    assert(sound_ids(files, claims, file.path));
    assert(covered(claims, file));
    lemma_plan_stages(file.hunks, groups, file.path);
    lemma_all_ids_count(file.hunks, ids, file.hunks.len(), line);
    assert(file.hunks.take(file.hunks.len() as int) =~= file.hunks);
}

proof fn lemma_records_agree(files: Seq<FileView>, path: Seq<char>)
    requires
        distinct_paths(files),
    ensures
        first_with_path(files, path) == record(files, path),
    decreases files.len(),
{
    if files.len() > 0 {
        let front = files.drop_last();
        let n = files.len() - 1;
        assert forall|a: int, b: int| 0 <= a < b < front.len() implies (#[trigger] front[a]).path
            != (#[trigger] front[b]).path by {
            assert(files[a] == front[a] && files[b] == front[b]);
        }
        lemma_records_agree(front, path);
        lemma_first_of_push(front, files.last(), path);
        assert(files =~= front.push(files.last()));
        if files.last().path == path && first_with_path(front, path) is Some {
            lemma_first_is_at(front, path);
            let a = choose|a: int| 0 <= a < front.len() && (#[trigger] front[a]).path == path;
            assert(files[a].path != files[n].path);
        }
    }
}

proof fn lemma_first_of_push(files: Seq<FileView>, file: FileView, path: Seq<char>)
    ensures
        first_with_path(files.push(file), path) == if first_with_path(files, path) is Some {
            first_with_path(files, path)
        } else if file.path == path {
            Some(file)
        } else {
            None
        },
    decreases files.len(),
{
    let all = files.push(file);
    if files.len() == 0 {
        assert(all.drop_first() =~= Seq::empty());
        assert(first_with_path(all.drop_first(), path) is None);
        assert(all[0] == file);
    } else {
        lemma_first_of_push(files.drop_first(), file, path);
        assert(all.drop_first() =~= files.drop_first().push(file));
        assert(all[0] == files[0]);
    }
}

proof fn lemma_first_is_at(files: Seq<FileView>, path: Seq<char>)
    requires
        first_with_path(files, path) is Some,
    ensures
        exists|a: int|
            0 <= a < files.len() && #[trigger] files[a] == first_with_path(files, path)->0
                && files[a].path == path,
    decreases files.len(),
{
    if files[0].path != path {
        let rest = files.drop_first();
        lemma_first_is_at(rest, path);
        let a = choose|a: int|
            0 <= a < rest.len() && #[trigger] rest[a] == first_with_path(rest, path)->0
                && rest[a].path == path;
        assert(files[a + 1] == rest[a]);
    }
}

proof fn lemma_claim_is_among_ids(
    groups: Seq<GroupView>,
    g: int,
    k: int,
    i: int,
)
    requires
        0 <= g < groups.len(),
        0 <= k < groups[g].partial.len(),
        0 <= i < groups[g].partial[k].1.len(),
    ensures
        hunk_ids(plan_claims(groups), groups[g].partial[k].0).contains(groups[g].partial[k].1[i]),
    decreases groups.len(),
{
    let path = groups[g].partial[k].0;
    let id = groups[g].partial[k].1[i];
    let front = hunk_ids(plan_claims(groups.drop_last()), path);
    let tail = group_ids(groups.last().partial, path);
    lemma_ids_of_last_group(groups, path);
    if g < groups.len() - 1 {
        lemma_claim_is_among_ids(groups.drop_last(), g, k, i);
        let x = choose|x: int| 0 <= x < front.len() && front[x] == id;
        assert(hunk_ids(plan_claims(groups), path)[x] == id);
    } else {
        lemma_group_holds(groups.last().partial, k, i);
        let x = choose|x: int| 0 <= x < tail.len() && tail[x] == id;
        assert(hunk_ids(plan_claims(groups), path)[front.len() + x] == id);
    }
}

proof fn lemma_group_holds(partial: Seq<(Seq<char>, Seq<usize>)>, k: int, i: int)
    requires
        0 <= k < partial.len(),
        0 <= i < partial[k].1.len(),
    ensures
        group_ids(partial, partial[k].0).contains(partial[k].1[i]),
    decreases partial.len(),
{
    let path = partial[k].0;
    let id = partial[k].1[i];
    let before = group_ids(partial.drop_last(), path);
    if k < partial.len() - 1 {
        lemma_group_holds(partial.drop_last(), k, i);
        let x = choose|x: int| 0 <= x < before.len() && before[x] == id;
        assert(group_ids(partial, path)[x] == id);
    } else {
        assert(group_ids(partial, path)[before.len() + i] == id);
    }
}

proof fn lemma_claim_is_split(groups: Seq<GroupView>, g: int, k: int)
    requires
        0 <= g < groups.len(),
        0 <= k < groups[g].partial.len(),
    ensures
        splits(plan_claims(groups)).contains(groups[g].partial[k].0),
    decreases groups.len(),
{
    let path = groups[g].partial[k].0;
    let front = groups.drop_last();
    lemma_plan_claims_its_groups(groups);
    lemma_plan_claims_its_groups(front);
    let before = splits(plan_claims(front));
    if g < groups.len() - 1 {
        lemma_claim_is_split(front, g, k);
        let x = choose|x: int| 0 <= x < before.len() && before[x] == path;
        assert(splits(plan_claims(groups))[x] == path);
    } else {
        assert(splits(plan_claims(groups))[before.len() + k] == path);
    }
}

/// Where no two records have the same path, every claim of an accepted plan is
/// staged in full: its patch is the header of the file and all claimed hunks.
pub proof fn lemma_claims_are_staged_in_full(
    files: Seq<FileView>,
    groups: Seq<GroupView>,
    expected: Seq<Seq<char>>,
    g: int,
    k: int,
)
    requires
        plan_fault(files, groups, expected) is None,
        distinct_paths(files),
        0 <= g < groups.len(),
        0 <= k < groups[g].partial.len(),
    ensures
        ({
            let (path, ids) = groups[g].partial[k];
            record(files, path) matches Some(file) && patch_of(files, path, ids) == with_newlines(
                file.header + selected_lines(file.hunks, ids),
            )
        }),
{
    let claims = plan_claims(groups);
    let (path, ids) = groups[g].partial[k];
    lemma_accepted_iff_partition(files, groups, expected);
    lemma_claim_is_split(groups, g, k);
    lemma_records_agree(files, path);
    assert(sound_ids(files, claims, path));
    let n = record(files, path)->0.hunks.len();
    assert forall|i: int| 0 <= i < ids.len() implies 1 <= #[trigger] ids[i] <= n by {
        lemma_claim_is_among_ids(groups, g, k, i);
        let all = hunk_ids(claims, path);
        let x = choose|x: int| 0 <= x < all.len() && all[x] == ids[i];
        assert(1 <= all[x] <= n);
    }
}

// ── a patch is a diff ───────────────────────────────────────────────

/// The hunks that `ids` names, counted from one, in the order of `ids`.
pub open spec fn chosen_hunks(hunks: Seq<HunkView>, ids: Seq<usize>) -> Seq<HunkView> {
    Seq::new(ids.len(), |i: int| hunks[ids[i] - 1])
}

/// No line of a text ends in a carriage return.
pub open spec fn no_line_ends_in_cr(text: Seq<char>) -> bool {
    forall|i: int|
        0 <= i < lines_of(text).len() ==> without_cr(#[trigger] lines_of(text)[i]) == lines_of(
            text,
        )[i]
}

/// The line can be written and read back.
spec fn is_plain() -> spec_fn(Seq<char>) -> bool {
    |line: Seq<char>|
        without_cr(line) == line && forall|j: int| 0 <= j < line.len() ==> #[trigger] line[j] != '\n'
}

/// The line can be written and read back, and begins no section.
spec fn is_inner() -> spec_fn(Seq<char>) -> bool {
    |line: Seq<char>| is_plain()(line) && !"diff --git "@.is_prefix_of(line)
}

/// The hunk begins with a hunk line, holds no other, and begins no section.
spec fn is_whole_hunk(hunk: HunkView) -> bool {
    &&& "@@ "@.is_prefix_of(hunk.header)
    &&& is_inner()(hunk.header)
    &&& forall|j: int|
        0 <= j < hunk.body.len() ==> is_inner()(#[trigger] hunk.body[j]) && !"@@ "@.is_prefix_of(
            hunk.body[j],
        )
}

proof fn lemma_diff_lines_are_plain(diff: Seq<char>)
    requires
        no_line_ends_in_cr(diff),
    ensures
        forall|k: int, j: int|
            0 <= k < sections(lines_of(diff), "diff --git "@).len() && 0 <= j < sections(
                lines_of(diff),
                "diff --git "@,
            )[k].len() ==> is_plain()(#[trigger] sections(lines_of(diff), "diff --git "@)[k][j]),
{
    let all = lines_of(diff);
    lemma_lines_hold_no_line_feed(diff);
    assert forall|i: int| 0 <= i < all.len() implies is_plain()(#[trigger] all[i]) by {
        assert(without_cr(lines_of(diff)[i]) == lines_of(diff)[i]);
        assert forall|j: int| 0 <= j < all[i].len() implies #[trigger] all[i][j] != '\n' by {
            assert(lines_of(diff)[i][j] != '\n');
        }
    }
    lemma_sections_hold(all, "diff --git "@, is_plain());
}

proof fn lemma_parts_of_section(section: Seq<Seq<char>>)
    requires
        section.len() > 0,
        "diff --git "@.is_prefix_of(section[0]),
        forall|j: int| 0 < j < section.len() ==> !"diff --git "@.is_prefix_of(#[trigger] section[j]),
        forall|j: int| 0 <= j < section.len() ==> is_plain()(#[trigger] section[j]),
    ensures
        file_of(section).header.len() > 0,
        file_of(section).header[0] == section[0],
        forall|j: int|
            0 <= j < file_of(section).header.len() ==> !"@@ "@.is_prefix_of(
                #[trigger] file_of(section).header[j],
            ),
        forall|j: int|
            0 < j < file_of(section).header.len() ==> is_inner()(
                #[trigger] file_of(section).header[j],
            ),
        forall|k: int|
            0 <= k < file_of(section).hunks.len() ==> is_whole_hunk(
                #[trigger] file_of(section).hunks[k],
            ),
{
    let file = file_of(section);
    let pieces = sections(section, "@@ "@);
    lemma_sections_keep_every_line(section, "@@ "@);
    lemma_sections_are_marked(section, "@@ "@);
    assert(!"@@ "@.is_prefix_of(section[0])) by {
        reveal_strlit("@@ ");
        reveal_strlit("diff --git ");
        assert(section[0].subrange(0, 11)[0] == "diff --git "@[0]);
        if "@@ "@.is_prefix_of(section[0]) {
            assert(section[0].subrange(0, 3)[0] == "@@ "@[0]);
        }
    }
    assert forall|j: int| 0 < j < section.len() implies is_inner()(#[trigger] section[j]) by {
        assert(is_plain()(section[j]));
    }
    lemma_sections_hold(section, "@@ "@, is_inner());
    if file.header.len() == 0 {
        assert(pieces.len() > 0);
        assert(file.header + pieces.flatten() =~= pieces.flatten());
        lemma_flatten_first(pieces);
        assert(pieces[0][0] == section[0]);
    }
    assert forall|j: int| 0 <= j < file.header.len() implies file.header[j] == section[j] by {
        assert((file.header + pieces.flatten())[j] == file.header[j]);
    }
    assert forall|j: int| 0 < j < file.header.len() implies is_inner()(#[trigger] file.header[j]) by {
        assert(is_inner()(section[j]));
    }
    assert forall|k: int| 0 <= k < file.hunks.len() implies is_whole_hunk(
        #[trigger] file.hunks[k],
    ) by {
        let piece = pieces[k];
        let hunk = file.hunks[k];
        assert(hunk.header == pieces[k][0]);
        assert forall|j: int| 0 <= j < hunk.body.len() implies is_inner()(#[trigger] hunk.body[j])
            && !"@@ "@.is_prefix_of(hunk.body[j]) by {
            assert(hunk.body[j] == pieces[k][j + 1]);
        }
    }
}

proof fn lemma_flatten_first(pieces: Seq<Seq<Seq<char>>>)
    requires
        pieces.len() > 0,
        pieces[0].len() > 0,
    ensures
        pieces.flatten().len() > 0,
        pieces.flatten()[0] == pieces[0][0],
{
    assert(pieces.flatten() == pieces.first() + pieces.drop_first().flatten());
}

proof fn lemma_selected_hunks(hunks: Seq<HunkView>, ids: Seq<usize>)
    requires
        ids_within(ids, hunks.len()),
        forall|k: int| 0 <= k < hunks.len() ==> is_whole_hunk(#[trigger] hunks[k]),
    ensures
        sections(selected_lines(hunks, ids), "@@ "@) == chosen_hunks(hunks, ids).map_values(
            |h: HunkView| hunk_lines(h),
        ),
        selected_lines(hunks, ids).len() > 0 ==> "@@ "@.is_prefix_of(selected_lines(hunks, ids)[0]),
        ids.len() > 0 ==> selected_lines(hunks, ids).len() > 0,
        forall|j: int|
            0 <= j < selected_lines(hunks, ids).len() ==> is_inner()(
                #[trigger] selected_lines(hunks, ids)[j],
            ),
    decreases ids.len(),
{
    let lines = |h: HunkView| hunk_lines(h);
    let all = selected_lines(hunks, ids);
    if ids.len() == 0 {
        assert(sections(all, "@@ "@) =~= chosen_hunks(hunks, ids).map_values(lines));
    } else {
        let front = ids.drop_last();
        assert forall|i: int| 0 <= i < front.len() implies 1 <= #[trigger] front[i]
            <= hunks.len() by {
            assert(front[i] == ids[i]);
        }
        lemma_selected_hunks(hunks, front);
        assert(1 <= ids[ids.len() - 1] <= hunks.len());
        let hunk = hunks[ids.last() - 1];
        assert(is_whole_hunk(hunk));
        let run = hunk_lines(hunk);
        let nothing: Seq<Seq<char>> = Seq::empty();
        assert forall|j: int| 0 < j < run.len() implies !"@@ "@.is_prefix_of(#[trigger] run[j]) by {
            assert(run[j] == hunk.body[j - 1]);
        }
        lemma_sections_of_runs(nothing, run, "@@ "@);
        assert(nothing + run =~= run);
        lemma_sections_add(selected_lines(hunks, front), run, "@@ "@);
        assert(chosen_hunks(hunks, ids).map_values(lines) =~= chosen_hunks(hunks, front).map_values(
            lines,
        ) + seq![run]);
        assert forall|j: int| 0 <= j < all.len() implies is_inner()(#[trigger] all[j]) by {
            let n = selected_lines(hunks, front).len();
            if j < n {
                assert(all[j] == selected_lines(hunks, front)[j]);
            } else if j > n {
                assert(all[j] == hunk.body[j - n - 1]);
            }
        }
        if front.len() == 0 {
            assert(all[0] == run[0]);
        } else {
            assert(all[0] == selected_lines(hunks, front)[0]);
        }
    }
}

/// The record that the patch of some hunks of a file is read as: the same path
/// and header, and these hunks. It can be split as the file itself, and not at
/// all without a hunk.
pub open spec fn reduced(file: FileView, ids: Seq<usize>) -> FileView {
    FileView {
        path: file.path,
        header: file.header,
        hunks: chosen_hunks(file.hunks, ids),
        atomic: file.atomic || ids.len() == 0,
    }
}

proof fn lemma_reduced_section(section: Seq<Seq<char>>, ids: Seq<usize>)
    requires
        section.len() > 0,
        "diff --git "@.is_prefix_of(section[0]),
        forall|j: int| 0 < j < section.len() ==> !"diff --git "@.is_prefix_of(#[trigger] section[j]),
        forall|j: int| 0 <= j < section.len() ==> is_plain()(#[trigger] section[j]),
        ids_within(ids, file_of(section).hunks.len()),
    ensures
        ({
            let file = file_of(section);
            let lines = file.header + selected_lines(file.hunks, ids);
            parsed(with_newlines(lines)) == seq![reduced(file, ids)]
        }),
{
    let file = file_of(section);
    let chosen = selected_lines(file.hunks, ids);
    let lines = file.header + chosen;
    lemma_parts_of_section(section);
    lemma_selected_hunks(file.hunks, ids);
    assert(is_plain()(section[0]));
    assert forall|j: int| 0 <= j < lines.len() implies is_plain()(#[trigger] lines[j]) && (j > 0
        ==> !"diff --git "@.is_prefix_of(lines[j])) by {
        if j >= file.header.len() {
            assert(is_inner()(chosen[j - file.header.len()]));
        } else if j > 0 {
            assert(is_inner()(file.header[j]));
        }
    }
    assert forall|i: int, j: int|
        0 <= i < lines.len() && 0 <= j < lines[i].len() implies #[trigger] lines[i][j] != '\n' by {
        assert(is_plain()(lines[i]));
    }
    lemma_lines_are_read_back(lines);
    assert(lines_of(with_newlines(lines)) =~= lines) by {
        assert forall|i: int| 0 <= i < lines.len() implies without_cr(lines[i]) == lines[i] by {
            assert(is_plain()(lines[i]));
        }
    }
    let nothing: Seq<Seq<char>> = Seq::empty();
    lemma_sections_of_runs(nothing, lines, "diff --git "@);
    assert(nothing + lines =~= lines);
    lemma_preamble_add(file.header, chosen, "@@ "@);
    lemma_sections_of_runs(file.header, nothing, "@@ "@);
    assert(file.header + nothing =~= file.header);
    lemma_sections_add(file.header, chosen, "@@ "@);
    let pieces = sections(lines, "@@ "@);
    let view = |s: Seq<Seq<char>>| hunk_of(s);
    assert(pieces =~= chosen_hunks(file.hunks, ids).map_values(|h: HunkView| hunk_lines(h)));
    assert(pieces.map_values(view) =~= chosen_hunks(file.hunks, ids)) by {
        assert forall|i: int| 0 <= i < pieces.len() implies hunk_of(pieces[i])
            == file.hunks[ids[i] - 1] by {
            let hunk = file.hunks[ids[i] - 1];
            assert(pieces[i] == hunk_lines(hunk));
            assert(hunk_lines(hunk).skip(1) =~= hunk.body);
        }
    }
    if ids.len() > 0 {
        assert(1 <= ids[0] <= file.hunks.len());
    }
    assert(file_of(lines) == reduced(file, ids));
    assert(parsed(with_newlines(lines)) =~= seq![reduced(file, ids)]);
}

/// The patch of some hunks of a file is itself a diff of that one file: it is
/// read as one record with the path and the header of the file and with the
/// claimed hunks, in the order of the claim. A line that ends in a carriage
/// return loses it when a patch is read, so such diffs are left out.
pub proof fn lemma_patch_is_read_back(diff: Seq<char>, path: Seq<char>, ids: Seq<usize>)
    requires
        no_line_ends_in_cr(diff),
        first_with_path(parsed(diff), path) is Some,
        ids_within(ids, first_with_path(parsed(diff), path)->0.hunks.len()),
    ensures
        parsed(patch_of(parsed(diff), path, ids)) == seq![
            reduced(first_with_path(parsed(diff), path)->0, ids),
        ],
        reduced(first_with_path(parsed(diff), path)->0, ids).path == path,
{
    let files = parsed(diff);
    let pieces = sections(lines_of(diff), "diff --git "@);
    lemma_first_is_at(files, path);
    let k = choose|k: int|
        0 <= k < files.len() && #[trigger] files[k] == first_with_path(files, path)->0
            && files[k].path == path;
    let section = pieces[k];
    assert(files[k] == file_of(section));
    lemma_sections_are_marked(lines_of(diff), "diff --git "@);
    lemma_diff_lines_are_plain(diff);
    assert forall|j: int| 0 < j < section.len() implies !"diff --git "@.is_prefix_of(
        #[trigger] section[j],
    ) by {
        assert(section[j] == pieces[k][j]);
    }
    assert forall|j: int| 0 <= j < section.len() implies is_plain()(#[trigger] section[j]) by {
        assert(section[j] == pieces[k][j]);
    }
    lemma_reduced_section(section, ids);
}

/// Of a diff without carriage returns, every patch of some hunks of a file is
/// read back as the record of that file with these hunks.
pub proof fn lemma_patch_of_plain_diff_is_read_back(
    diff: Seq<char>,
    path: Seq<char>,
    ids: Seq<usize>,
)
    requires
        forall|i: int| 0 <= i < diff.len() ==> #[trigger] diff[i] != '\r',
        first_with_path(parsed(diff), path) is Some,
        ids_within(ids, first_with_path(parsed(diff), path)->0.hunks.len()),
    ensures
        parsed(patch_of(parsed(diff), path, ids)) == seq![
            reduced(first_with_path(parsed(diff), path)->0, ids),
        ],
        reduced(first_with_path(parsed(diff), path)->0, ids).path == path,
{
    lemma_lines_without_carriage_returns(diff);
    lemma_patch_is_read_back(diff, path, ids);
}

} // verus!
