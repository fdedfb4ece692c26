//! File sections, their hunks, and the patches that are made of them.

use vstd::prelude::*;

use crate::engine::hunks::{
    file_of, first_with_path, hunk_of, lemma_sections_add, lemma_sections_of_runs, marks_atomic,
    parsed, patch_of, sections, selected_lines, FileView,
};
use crate::laws::paths::{lemma_begins_otherwise, lemma_read_section, one_section};
use crate::laws::texts::{lacks, lemma_occurs_inside};
use crate::pieces::{lemma_with_newlines_add, lines_of, with_newlines};
use crate::text::occurs;

verus! {

/// A diff whose lines are those of one diff and then those of another, which
/// begins with a file section, holds the files of the one and then those of the
/// other.
pub proof fn lemma_sections_are_read_separately(a: Seq<char>, b: Seq<char>, both: Seq<char>)
    requires
        lines_of(both) == lines_of(a) + lines_of(b),
        lines_of(b).len() > 0 ==> "diff --git "@.is_prefix_of(lines_of(b)[0]),
    ensures
        parsed(both) == parsed(a) + parsed(b),
{
    lemma_sections_add(lines_of(a), lines_of(b), "diff --git "@);
    assert(parsed(both) =~= parsed(a) + parsed(b));
}

/// Every line that begins with `@@ ` opens a hunk, and the lines up to the next
/// such line are its body.
pub proof fn lemma_hunks_of_a_section(
    diff: Seq<char>,
    first: Seq<char>,
    header: Seq<Seq<char>>,
    before: Seq<Seq<char>>,
    opening: Seq<char>,
    body: Seq<Seq<char>>,
)
    requires
        one_section(first, header, before + seq![opening] + body),
        lines_of(diff) == seq![first] + header + (before + seq![opening] + body),
        "@@ "@.is_prefix_of(opening),
        forall|i: int| 0 <= i < body.len() ==> !"@@ "@.is_prefix_of(#[trigger] body[i]),
    ensures
        parsed(diff).len() == 1,
        parsed(diff)[0].hunks.len() > 0,
        parsed(diff)[0].hunks.last().header == opening,
        parsed(diff)[0].hunks.last().body == body,
        before.len() == 0 ==> parsed(diff)[0].hunks.len() == 1,
        forall|shorter: Seq<char>|
            lines_of(shorter) == seq![first] + header + before ==> (#[trigger] parsed(
                shorter,
            )).len() == 1 && parsed(shorter)[0].hunks == parsed(diff)[0].hunks.drop_last(),
{
    let marker = "@@ "@;
    let head = seq![first] + header;
    let run = seq![opening] + body;
    let none: Seq<Seq<char>> = Seq::empty();
    lemma_read_section(diff, first, header, before + seq![opening] + body);
    assert(run[0] == opening);
    assert forall|i: int| 0 < i < run.len() implies !marker.is_prefix_of(#[trigger] run[i]) by {
        assert(run[i] == body[i - 1]);
    }
    lemma_sections_of_runs(none, run, marker);
    assert(none + run =~= run);
    lemma_sections_add(head + before, run, marker);
    assert(lines_of(diff) =~= head + before + run);
    assert(hunk_of(run).body =~= body);
    assert(parsed(diff)[0] == file_of(lines_of(diff)));
    let all = parsed(diff)[0].hunks;
    assert(sections(lines_of(diff), marker) =~= sections(head + before, marker).push(run));
    assert(all =~= sections(head + before, marker).map_values(|s: Seq<Seq<char>>| hunk_of(s)).push(
        hunk_of(run),
    ));
    if before.len() == 0 {
        assert(head + before =~= head + none);
        assert forall|i: int| 0 <= i < head.len() implies !marker.is_prefix_of(
            #[trigger] head[i],
        ) by {
            lemma_header_is_unmarked(first, header, before + seq![opening] + body, i);
        }
        lemma_sections_of_runs(head, none, marker);
    }
    assert forall|shorter: Seq<char>| lines_of(shorter) == seq![first] + header + before implies (
    #[trigger] parsed(shorter)).len() == 1 && parsed(shorter)[0].hunks
        == parsed(diff)[0].hunks.drop_last() by {
        assert forall|i: int| 0 <= i < before.len() implies !"diff --git "@.is_prefix_of(
            #[trigger] before[i],
        ) by {
            assert((before + seq![opening] + body)[i] == before[i]);
        }
        if before.len() > 0 {
            assert((before + seq![opening] + body)[0] == before[0]);
        }
        lemma_read_section(shorter, first, header, before);
        assert(all.drop_last() =~= sections(head + before, marker).map_values(
            |s: Seq<Seq<char>>| hunk_of(s),
        ));
        assert(lines_of(shorter) =~= head + before);
    }
}

proof fn lemma_header_is_unmarked(
    first: Seq<char>,
    header: Seq<Seq<char>>,
    hunks: Seq<Seq<char>>,
    i: int,
)
    requires
        one_section(first, header, hunks),
        0 <= i <= header.len(),
    ensures
        !"@@ "@.is_prefix_of((seq![first] + header)[i]),
{
    if i == 0 {
        reveal_strlit("@@ ");
        reveal_strlit("diff --git ");
        assert(first.subrange(0, 11)[0] == first[0]);
        lemma_begins_otherwise("@@ "@, first);
    } else {
        assert((seq![first] + header)[i] == header[i - 1]);
    }
}

/// A file without hunks is only committed whole, and so is one whose header
/// says that it is new, deleted, renamed, copied or binary.
pub proof fn lemma_files_that_stay_whole(
    diff: Seq<char>,
    first: Seq<char>,
    header: Seq<Seq<char>>,
    hunks: Seq<Seq<char>>,
    i: int,
    before: Seq<char>,
    after: Seq<char>,
)
    requires
        one_section(first, header, hunks),
        lines_of(diff) == seq![first] + header + hunks,
        hunks.len() == 0 || (0 <= i < header.len() && {
            ||| header[i] == "new file mode"@ + after
            ||| header[i] == "deleted file mode"@ + after
            ||| header[i] == "rename "@ + after
            ||| header[i] == "copy "@ + after
            ||| header[i] == before + "GIT binary patch"@ + after
            ||| header[i] == before + "Binary files"@ + after
        }),
    ensures
        parsed(diff).len() == 1,
        parsed(diff)[0].atomic,
{
    lemma_read_section(diff, first, header, hunks);
    let head = seq![first] + header;
    let all = lines_of(diff);
    let none: Seq<Seq<char>> = Seq::empty();
    assert(parsed(diff)[0] == file_of(all));
    if hunks.len() == 0 {
        assert forall|k: int| 0 <= k < head.len() implies !"@@ "@.is_prefix_of(
            #[trigger] head[k],
        ) by {
            lemma_header_is_unmarked(first, header, hunks, k);
        }
        lemma_sections_of_runs(head, none, "@@ "@);
        assert(all =~= head + none);
    } else {
        let line = header[i];
        assert(parsed(diff)[0].header[i + 1] == line);
        if line == before + "GIT binary patch"@ + after {
            lemma_occurs_inside(before, "GIT binary patch"@, after);
        } else if line == before + "Binary files"@ + after {
            lemma_occurs_inside(before, "Binary files"@, after);
        } else if line == "new file mode"@ + after {
            assert("new file mode"@ =~= line.subrange(0, "new file mode"@.len() as int));
        } else if line == "deleted file mode"@ + after {
            assert("deleted file mode"@ =~= line.subrange(0, "deleted file mode"@.len() as int));
        } else if line == "rename "@ + after {
            assert("rename "@ =~= line.subrange(0, "rename "@.len() as int));
        } else {
            assert("copy "@ =~= line.subrange(0, "copy "@.len() as int));
        }
        assert(marks_atomic(line));
    }
}

/// A file with a hunk can be split where no line of its header says otherwise:
/// the lines that name the sides, the index and a change of the mode do not.
pub proof fn lemma_files_that_can_be_split(
    diff: Seq<char>,
    first: Seq<char>,
    header: Seq<Seq<char>>,
    hunks: Seq<Seq<char>>,
)
    requires
        one_section(first, header, hunks),
        lines_of(diff) == seq![first] + header + hunks,
        hunks.len() > 0,
        !occurs(first, "GIT binary patch"@) && !occurs(first, "Binary files"@),
        forall|i: int|
            0 <= i < header.len() ==> !occurs(#[trigger] header[i], "GIT binary patch"@) && !occurs(
                header[i],
                "Binary files"@,
            ) && header[i].len() > 0 && (lacks(seq!['n', 'd', 'r', 'c'], header[i][0])
                || "new mode "@.is_prefix_of(header[i])),
    ensures
        parsed(diff).len() == 1,
        !parsed(diff)[0].atomic,
{
    lemma_read_section(diff, first, header, hunks);
    let head = seq![first] + header;
    let all = lines_of(diff);
    let marks = seq!['n', 'd', 'r', 'c'];
    assert(parsed(diff)[0] == file_of(all));
    lemma_sections_add(head, hunks, "@@ "@);
    assert(all =~= head + hunks);
    reveal_strlit("new file mode");
    reveal_strlit("deleted file mode");
    reveal_strlit("rename ");
    reveal_strlit("copy ");
    reveal_strlit("diff --git ");
    assert forall|k: int| 0 <= k < head.len() implies !marks_atomic(#[trigger] head[k]) by {
        let line = head[k];
        if k == 0 {
            assert(first.subrange(0, 11)[0] == first[0]);
            assert(first.subrange(0, 11)[1] == first[1]);
            if "deleted file mode"@.is_prefix_of(line) {
                assert(first.subrange(0, "deleted file mode"@.len() as int)[1] == first[1]);
            }
        } else if "new mode "@.is_prefix_of(header[k - 1]) {
            reveal_strlit("new mode ");
            assert(line == header[k - 1]);
            assert(line.subrange(0, 9)[0] == line[0]);
            assert(line.subrange(0, 9)[4] == line[4]);
            if "new file mode"@.is_prefix_of(line) {
                assert(line.subrange(0, "new file mode"@.len() as int)[4] == line[4]);
            }
        } else {
            assert(line == header[k - 1]);
            assert(marks[0] == 'n' && marks[1] == 'd' && marks[2] == 'r' && marks[3] == 'c');
        }
        if line[0] != 'n' {
            lemma_begins_otherwise("new file mode"@, line);
        }
        lemma_begins_otherwise("rename "@, line);
        lemma_begins_otherwise("copy "@, line);
        if k > 0 {
            lemma_begins_otherwise("deleted file mode"@, line);
        }
    }
}

/// A patch begins with the header of the file, and each number adds the lines
/// of the hunk that it names, counted from one.
pub proof fn lemma_patches_grow_hunk_by_hunk(
    files: Seq<FileView>,
    j: int,
    ids: Seq<usize>,
    id: usize,
)
    requires
        0 <= j < files.len(),
        forall|i: int| 0 <= i < j ==> (#[trigger] files[i]).path != files[j].path,
        forall|i: int| 0 <= i < ids.len() ==> 1 <= #[trigger] ids[i] <= files[j].hunks.len(),
        1 <= id <= files[j].hunks.len(),
    ensures
        patch_of(files, files[j].path, Seq::empty()) == with_newlines(files[j].header),
        patch_of(files, files[j].path, ids.push(id)) == patch_of(files, files[j].path, ids)
            + with_newlines(
            seq![files[j].hunks[id - 1].header] + files[j].hunks[id - 1].body,
        ),
{
    let file = files[j];
    lemma_first_record(files, j);
    let none: Seq<usize> = Seq::empty();
    assert(selected_lines(file.hunks, none) =~= Seq::empty());
    assert(file.header + selected_lines(file.hunks, none) =~= file.header);
    assert(ids.push(id).drop_last() =~= ids);
    let more = seq![file.hunks[id - 1].header] + file.hunks[id - 1].body;
    assert(file.header + selected_lines(file.hunks, ids.push(id)) =~= file.header + selected_lines(
        file.hunks,
        ids,
    ) + more);
    lemma_with_newlines_add(file.header + selected_lines(file.hunks, ids), more);
}

/// A number that names no hunk, and a path without a record, give no patch.
pub proof fn lemma_wrong_claims_give_no_patch(
    files: Seq<FileView>,
    path: Seq<char>,
    ids: Seq<usize>,
    k: int,
)
    requires
        (forall|i: int| 0 <= i < files.len() ==> (#[trigger] files[i]).path != path) || (0 <= k
            < ids.len() && forall|i: int|
            0 <= i < files.len() && (#[trigger] files[i]).path == path ==> ids[k] == 0 || ids[k]
                > files[i].hunks.len()),
    ensures
        patch_of(files, path, ids) == Seq::<char>::empty(),
    decreases files.len(),
{
    if files.len() > 0 && files[0].path != path {
        let rest = files.drop_first();
        assert forall|i: int| 0 <= i < rest.len() implies #[trigger] rest[i] == files[i + 1] by {}
        lemma_wrong_claims_give_no_patch(rest, path, ids, k);
    }
}

proof fn lemma_first_record(files: Seq<FileView>, j: int)
    requires
        0 <= j < files.len(),
        forall|i: int| 0 <= i < j ==> (#[trigger] files[i]).path != files[j].path,
    ensures
        first_with_path(files, files[j].path) == Some(files[j]),
    decreases j,
{
    if j > 0 {
        let rest = files.drop_first();
        assert(rest[j - 1] == files[j]);
        assert forall|i: int| 0 <= i < j - 1 implies (#[trigger] rest[i]).path != files[j].path by {
            assert(rest[i] == files[i + 1]);
        }
        lemma_first_record(rest, j - 1);
    }
}

} // verus!
