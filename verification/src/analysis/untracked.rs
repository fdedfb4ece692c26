//! What becomes of untracked files in a collected diff.

use vstd::prelude::*;

use crate::analysis::DiffView;
use crate::analysis::collect::{
    added_lines, looks_binary, section_lines, section_of, with_untracked, UntrackedFile,
};
use crate::bytes::lossy_text;
use crate::engine::hunks::{
    file_of, last_marked, lemma_sections_add, lemma_sections_of_runs, marks_atomic, parsed,
    path_of, path_token, preamble, sections, without_side, FileView,
};
use crate::number::{decimal_of, lemma_decimal_digits};
use crate::pieces::{
    lemma_lines_are_read_back, lemma_lines_hold_no_line_feed, lemma_lines_of_add,
    lemma_split_where_extend, lines_of, nonempty, split_where, without_cr, words_of,
};
use crate::text::{is_white_space, lemma_behind_last, prefix_stripped};

verus! {

/// No character of `s` is white space.
pub open spec fn has_no_white_space(s: Seq<char>) -> bool {
    forall|i: int| 0 <= i < s.len() ==> !is_white_space(#[trigger] s[i])
}

proof fn lemma_one_word(s: Seq<char>)
    requires
        has_no_white_space(s),
        s.len() > 0,
    ensures
        words_of(s) == seq![s],
{
    let cut = |c: char| is_white_space(c);
    lemma_split_where_extend(Seq::empty(), s, cut);
    assert(Seq::empty() + s =~= s);
    let pieces = split_where(s, cut);
    assert(pieces =~= seq![s]);
    let none: Seq<Seq<char>> = Seq::empty();
    assert(pieces =~= none.push(s));
    none.lemma_filter_push(s, |p: Seq<char>| p.len() > 0);
    assert(none.filter(|p: Seq<char>| p.len() > 0) =~= none) by {
        reveal(Seq::filter);
    }
    assert(nonempty(pieces) =~= seq![s]);
}

proof fn lemma_other_start(marker: Seq<char>, s: Seq<char>)
    requires
        marker.len() > 0,
        s.len() > 0,
        marker[0] != s[0],
    ensures
        !marker.is_prefix_of(s),
        prefix_stripped(s, marker) is None,
{
    if marker.is_prefix_of(s) {
        assert(s.subrange(0, marker.len() as int)[0] == marker[0]);
    }
}

proof fn lemma_prefix_of_sum(marker: Seq<char>, rest: Seq<char>)
    ensures
        marker.is_prefix_of(marker + rest),
        prefix_stripped(marker + rest, marker) == Some(rest),
{
    assert((marker + rest).subrange(0, marker.len() as int) =~= marker);
    assert((marker + rest).skip(marker.len() as int) =~= rest);
}

/// No line of the section holds a line feed, and the lines that are not
/// content end in no carriage return.
proof fn lemma_section_lines_are_lines(path: Seq<char>, bytes: Seq<u8>)
    requires
        has_no_white_space(path),
    ensures
        forall|i: int, j: int|
            0 <= i < section_lines(path, bytes).len() && 0 <= j < section_lines(path, bytes)[i].len()
                ==> #[trigger] section_lines(path, bytes)[i][j] != '\n',
        forall|i: int|
            0 <= i < section_lines(path, bytes).len() && i < 5 ==> without_cr(
                #[trigger] section_lines(path, bytes)[i],
            ) == section_lines(path, bytes)[i],
{
    reveal_strlit("diff --git a/");
    reveal_strlit(" b/");
    reveal_strlit("new file mode 100644");
    reveal_strlit("Binary files /dev/null and b/");
    reveal_strlit(" differ");
    reveal_strlit("--- /dev/null");
    reveal_strlit("+++ b/");
    reveal_strlit("@@ -0,0 +1,");
    reveal_strlit(" @@");
    reveal_strlit("+");
    let all = section_lines(path, bytes);
    let content = lines_of(lossy_text(bytes));
    lemma_lines_hold_no_line_feed(lossy_text(bytes));
    lemma_decimal_digits(content.len());
    assert forall|i: int, j: int| 0 <= i < all.len() && 0 <= j < all[i].len() implies #[trigger] all[i][j]
        != '\n' by {
        if i >= 5 {
            assert(all[i] == "+"@ + content[i - 5]);
            if j > 0 {
                assert(all[i][j] == content[i - 5][j - 1]);
            }
        }
    }
}

/// The hunks of an untracked file: one that adds every line, or none where
/// there is no line or the content is binary.
pub open spec fn untracked_body(bytes: Seq<u8>) -> Seq<Seq<char>> {
    if looks_binary(bytes) {
        Seq::empty()
    } else {
        added_lines(lines_of(lossy_text(bytes))).map_values(|line: Seq<char>| without_cr(line))
    }
}

/// The record shows an untracked file as a new one that goes whole.
pub open spec fn shows_untracked(file: FileView, path: Seq<char>, bytes: Seq<u8>) -> bool {
    &&& file.path == path
    &&& file.atomic
    &&& file.hunks.len() == if untracked_body(bytes).len() == 0 {
        0nat
    } else {
        1nat
    }
    &&& file.hunks.len() == 1 ==> file.hunks[0].body == untracked_body(bytes)
}

proof fn lemma_binary_header(path: Seq<char>, header: Seq<Seq<char>>)
    requires
        has_no_white_space(path),
        header == seq![
            "diff --git a/"@ + path + " b/"@ + path,
            "new file mode 100644"@,
            "Binary files /dev/null and b/"@ + path + " differ"@,
        ],
    ensures
        path_of(header) == path,
{
    reveal_strlit("diff --git a/");
    reveal_strlit(" b/");
    reveal_strlit("new file mode 100644");
    reveal_strlit("Binary files /dev/null and b/");
    reveal_strlit("+++ ");
    reveal_strlit("--- ");
    let h2 = header.drop_last();
    let h1 = h2.drop_last();
    let h0 = h1.drop_last();
    lemma_other_start("+++ "@, header[2]);
    lemma_other_start("+++ "@, header[1]);
    lemma_other_start("+++ "@, header[0]);
    lemma_other_start("--- "@, header[2]);
    lemma_other_start("--- "@, header[1]);
    lemma_other_start("--- "@, header[0]);
    assert(header.last() == header[2] && h2.last() == header[1] && h1.last() == header[0]);
    assert(h0.len() == 0);
    assert(last_marked(h0, "+++ "@) is None);
    assert(last_marked(h1, "+++ "@) is None);
    assert(last_marked(h2, "+++ "@) is None);
    assert(last_marked(header, "+++ "@) is None);
    assert(last_marked(h0, "--- "@) is None);
    assert(last_marked(h1, "--- "@) is None);
    assert(last_marked(h2, "--- "@) is None);
    assert(last_marked(header, "--- "@) is None);
    lemma_behind_last("diff --git a/"@ + path, " b/"@, path);
}

proof fn lemma_text_header(path: Seq<char>, header: Seq<Seq<char>>)
    requires
        has_no_white_space(path),
        header.len() == 4,
        header[3] == "+++ b/"@ + path,
    ensures
        path_of(header) == path,
{
    reveal_strlit("+++ b/");
    reveal_strlit("+++ ");
    reveal_strlit("b/");
    reveal_strlit("/dev/null");
    let token = "b/"@ + path;
    assert(header.last() =~= "+++ "@ + token);
    lemma_prefix_of_sum("+++ "@, token);
    assert(last_marked(header, "+++ "@) == Some(token));
    lemma_one_word(token);
    assert(path_token(token) == token);
    assert(token[0] == 'b');
    assert("/dev/null"@[0] == '/');
    lemma_prefix_of_sum("b/"@, path);
    assert(without_side(token) == path);
}

/// The lines of the section as they are read.
spec fn read_lines(path: Seq<char>, bytes: Seq<u8>) -> Seq<Seq<char>> {
    section_lines(path, bytes).map_values(|p: Seq<char>| without_cr(p))
}

/// How many lines the header of the section has.
spec fn header_len(bytes: Seq<u8>) -> int {
    if looks_binary(bytes) {
        3
    } else {
        4
    }
}

proof fn lemma_read_lines(path: Seq<char>, bytes: Seq<u8>)
    requires
        has_no_white_space(path),
    ensures
        lines_of(section_of(path, bytes)) == read_lines(path, bytes),
        forall|i: int|
            0 <= i < read_lines(path, bytes).len() && i < 5 ==> #[trigger] read_lines(path, bytes)[i]
                == section_lines(path, bytes)[i],
        forall|i: int|
            5 <= i < read_lines(path, bytes).len() ==> (#[trigger] read_lines(path, bytes)[i]).len()
                > 0 && read_lines(path, bytes)[i][0] == '+',
{
    reveal_strlit("+");
    let written = section_lines(path, bytes);
    let content = lines_of(lossy_text(bytes));
    lemma_section_lines_are_lines(path, bytes);
    lemma_lines_are_read_back(written);
    let read = read_lines(path, bytes);
    assert forall|i: int| 0 <= i < read.len() && i < 5 implies #[trigger] read[i] == written[i] by {
        assert(without_cr(written[i]) == written[i]);
    }
    assert forall|i: int| 5 <= i < read.len() implies (#[trigger] read[i]).len() > 0 && read[i][0]
        == '+' by {
        assert(written[i] == "+"@ + content[i - 5]);
    }
}

proof fn lemma_read_as_one_section(path: Seq<char>, bytes: Seq<u8>)
    requires
        has_no_white_space(path),
    ensures
        "diff --git "@.is_prefix_of(read_lines(path, bytes)[0]),
        sections(read_lines(path, bytes), "diff --git "@) == seq![read_lines(path, bytes)],
{
    let written = section_lines(path, bytes);
    let read = read_lines(path, bytes);
    lemma_read_lines(path, bytes);
    let rest = "a/"@ + path + " b/"@ + path;
    assert("diff --git a/"@ =~= "diff --git "@ + "a/"@) by {
        reveal_strlit("diff --git a/");
        reveal_strlit("diff --git ");
        reveal_strlit("a/");
    }
    assert(read[0] == written[0]);
    assert(read[0] =~= "diff --git "@ + rest);
    lemma_prefix_of_sum("diff --git "@, rest);
    assert forall|i: int| 0 < i < read.len() implies !"diff --git "@.is_prefix_of(
        #[trigger] read[i],
    ) by {
        reveal_strlit("diff --git ");
        reveal_strlit("new file mode 100644");
        reveal_strlit("Binary files /dev/null and b/");
        reveal_strlit("--- /dev/null");
        reveal_strlit("+++ b/");
        reveal_strlit("@@ -0,0 +1,");
        if i < 5 {
            assert(read[i] == written[i]);
        }
        lemma_other_start("diff --git "@, read[i]);
    }
    let nothing: Seq<Seq<char>> = Seq::empty();
    lemma_sections_of_runs(nothing, read, "diff --git "@);
    assert(nothing + read =~= read);
}

proof fn lemma_read_hunks(path: Seq<char>, bytes: Seq<u8>)
    requires
        has_no_white_space(path),
    ensures
        ({
            let read = read_lines(path, bytes);
            let run = read.skip(header_len(bytes));
            &&& preamble(read, "@@ "@) == read.take(header_len(bytes))
            &&& sections(read, "@@ "@) == if run.len() == 0 {
                Seq::<Seq<Seq<char>>>::empty()
            } else {
                seq![run]
            }
        }),
{
    let written = section_lines(path, bytes);
    let content = lines_of(lossy_text(bytes));
    let read = read_lines(path, bytes);
    lemma_read_lines(path, bytes);
    let h = header_len(bytes);
    let header = read.take(h);
    let run = read.skip(h);
    assert(header + run =~= read);
    assert forall|i: int| 0 <= i < header.len() implies !"@@ "@.is_prefix_of(
        #[trigger] header[i],
    ) by {
        reveal_strlit("@@ ");
        reveal_strlit("diff --git a/");
        reveal_strlit("new file mode 100644");
        reveal_strlit("Binary files /dev/null and b/");
        reveal_strlit("--- /dev/null");
        reveal_strlit("+++ b/");
        assert(header[i] == written[i]);
        lemma_other_start("@@ "@, header[i]);
    }
    if run.len() > 0 {
        assert(run[0] == written[4]);
        let mark = "-0,0 +1,"@ + decimal_of(content.len()) + " @@"@;
        assert("@@ -0,0 +1,"@ =~= "@@ "@ + "-0,0 +1,"@) by {
            reveal_strlit("@@ -0,0 +1,");
            reveal_strlit("@@ ");
            reveal_strlit("-0,0 +1,");
        }
        assert(run[0] =~= "@@ "@ + mark);
        lemma_prefix_of_sum("@@ "@, mark);
    }
    assert forall|i: int| 0 < i < run.len() implies !"@@ "@.is_prefix_of(#[trigger] run[i]) by {
        reveal_strlit("@@ ");
        assert(run[i] == read[i + 4]);
        lemma_other_start("@@ "@, run[i]);
    }
    lemma_sections_of_runs(header, run, "@@ "@);
}

/// The section of an untracked file parses as one record, which shows the file
/// as a new one that goes whole. Paths with white space are left out: a path
/// line names its first word only.
pub proof fn lemma_untracked_section_is_one_file(path: Seq<char>, bytes: Seq<u8>)
    requires
        has_no_white_space(path),
    ensures
        parsed(section_of(path, bytes)).len() == 1,
        shows_untracked(parsed(section_of(path, bytes))[0], path, bytes),
{
    let written = section_lines(path, bytes);
    let content = lines_of(lossy_text(bytes));
    let read = read_lines(path, bytes);
    lemma_read_lines(path, bytes);
    lemma_read_as_one_section(path, bytes);
    lemma_read_hunks(path, bytes);
    let files = parsed(section_of(path, bytes));
    assert(files.len() == 1 && files[0] == file_of(read));
    let h = header_len(bytes);
    let header = read.take(h);
    let run = read.skip(h);
    assert(header[1] == written[1]);
    assert("new file mode 100644"@ =~= "new file mode"@ + " 100644"@) by {
        reveal_strlit("new file mode 100644");
        reveal_strlit("new file mode");
        reveal_strlit(" 100644");
    }
    lemma_prefix_of_sum("new file mode"@, " 100644"@);
    assert(marks_atomic(header[1]));
    if looks_binary(bytes) {
        assert(header[0] == written[0] && header[2] == written[2]);
        assert(header =~= seq![
            "diff --git a/"@ + path + " b/"@ + path,
            "new file mode 100644"@,
            "Binary files /dev/null and b/"@ + path + " differ"@,
        ]);
        lemma_binary_header(path, header);
        assert(run.len() == 0);
    } else {
        assert(header[3] == written[3]);
        lemma_text_header(path, header);
        if content.len() > 0 {
            assert(files[0].hunks.len() == 1);
            assert(files[0].hunks[0].body == run.skip(1));
            assert(run.skip(1) =~= untracked_body(bytes)) by {
                assert(run.skip(1).len() == content.len());
                assert forall|i: int| 0 <= i < content.len() implies run.skip(1)[i]
                    == untracked_body(bytes)[i] by {
                    assert(written[i + 5] == "+"@ + content[i]);
                }
            }
        } else {
            assert(run.len() == 0);
            assert(untracked_body(bytes).len() == 0);
        }
    }
}

/// The untracked files that can be read, with their content.
pub open spec fn readable(untracked: Seq<UntrackedFile>) -> Seq<(Seq<char>, Seq<u8>)>
    decreases untracked.len(),
{
    if untracked.len() == 0 {
        Seq::empty()
    } else {
        let before = readable(untracked.drop_last());
        let file = untracked.last();
        match file.content {
            Ok(bytes) => before.push((file.path@, bytes@)),
            Err(_) => before,
        }
    }
}

/// The text is empty or ends with a line feed.
pub open spec fn ends_a_line(s: Seq<char>) -> bool {
    s.len() == 0 || s.last() == '\n'
}

proof fn lemma_section_behind_patch(patch: Seq<char>, path: Seq<char>, bytes: Seq<u8>)
    requires
        ends_a_line(patch),
        has_no_white_space(path),
    ensures
        parsed(patch + section_of(path, bytes)) == parsed(patch) + parsed(section_of(path, bytes)),
        ends_a_line(patch + section_of(path, bytes)),
{
    let section = section_of(path, bytes);
    lemma_lines_of_add(patch, section);
    lemma_section_lines_are_lines(path, bytes);
    lemma_lines_are_read_back(section_lines(path, bytes));
    let read = lines_of(section);
    lemma_read_lines(path, bytes);
    lemma_read_as_one_section(path, bytes);
    lemma_sections_add(lines_of(patch), read, "diff --git "@);
    assert(parsed(patch + section) =~= parsed(patch) + parsed(section));
    assert(section.len() > 0);
    assert((patch + section).last() == section.last());
}

/// The records of a collected patch are those of the tracked changes, followed
/// by one for each readable untracked file, which shows it as a new file that
/// goes whole. Paths with white space are left out: a path line names its
/// first word only.
pub proof fn lemma_untracked_files_follow_the_tracked_ones(
    diff: DiffView,
    untracked: Seq<UntrackedFile>,
)
    requires
        ends_a_line(diff.patch),
        forall|i: int|
            0 <= i < readable(untracked).len() ==> has_no_white_space(
                (#[trigger] readable(untracked)[i]).0,
            ),
    ensures
        ({
            let records = parsed(with_untracked(diff, untracked).patch);
            let n = parsed(diff.patch).len();
            &&& records.len() == n + readable(untracked).len()
            &&& records.take(n as int) == parsed(diff.patch)
            &&& forall|i: int|
                0 <= i < readable(untracked).len() ==> shows_untracked(
                    #[trigger] records[n + i],
                    readable(untracked)[i].0,
                    readable(untracked)[i].1,
                )
        }),
        ends_a_line(with_untracked(diff, untracked).patch),
    decreases untracked.len(),
{
    let n = parsed(diff.patch).len();
    let records = parsed(with_untracked(diff, untracked).patch);
    if untracked.len() == 0 {
        assert(records.take(n as int) =~= parsed(diff.patch));
    } else {
        let front = untracked.drop_last();
        let file = untracked.last();
        assert forall|i: int| 0 <= i < readable(front).len() implies has_no_white_space(
            (#[trigger] readable(front)[i]).0,
        ) by {
            assert(readable(untracked)[i] == readable(front)[i]);
        }
        lemma_untracked_files_follow_the_tracked_ones(diff, front);
        let before = parsed(with_untracked(diff, front).patch);
        if let Ok(bytes) = file.content {
            let k = readable(front).len();
            assert(readable(untracked)[k as int] == (file.path@, bytes@));
            lemma_section_behind_patch(with_untracked(diff, front).patch, file.path@, bytes@);
            lemma_untracked_section_is_one_file(file.path@, bytes@);
            let one = parsed(section_of(file.path@, bytes@));
            assert(records == before + one);
            assert(records.take(n as int) =~= before.take(n as int));
            assert forall|i: int| 0 <= i < readable(untracked).len() implies shows_untracked(
                #[trigger] records[n + i],
                readable(untracked)[i].0,
                readable(untracked)[i].1,
            ) by {
                if i < k {
                    assert(records[n + i] == before[n + i]);
                    assert(readable(untracked)[i] == readable(front)[i]);
                } else {
                    assert(records[n + i] == one[0]);
                }
            }
        }
    }
}

} // verus!
