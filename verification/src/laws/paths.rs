//! The path of a changed file.

use vstd::prelude::*;

use crate::engine::hunks::{
    file_of, last_marked, lemma_preamble_add, lemma_sections_of_runs, parsed, path_of, path_token,
    without_side,
};
use crate::laws::texts::{lacks, lemma_prefix_is_taken_off, lemma_single_word, solid};
use crate::pieces::lines_of;
use crate::text::lemma_behind_last;

verus! {

/// The lines of one file section: a first line, further lines of the header,
/// and the hunks.
pub open spec fn one_section(
    first: Seq<char>,
    header: Seq<Seq<char>>,
    hunks: Seq<Seq<char>>,
) -> bool {
    &&& "diff --git "@.is_prefix_of(first)
    &&& forall|i: int|
        0 <= i < header.len() ==> !"diff --git "@.is_prefix_of(#[trigger] header[i])
            && !"@@ "@.is_prefix_of(header[i])
    &&& forall|i: int| 0 <= i < hunks.len() ==> !"diff --git "@.is_prefix_of(#[trigger] hunks[i])
    &&& hunks.len() > 0 ==> "@@ "@.is_prefix_of(hunks[0])
}

/// A line with another first character than a marker does not begin with it.
pub proof fn lemma_begins_otherwise(marker: Seq<char>, s: Seq<char>)
    requires
        marker.len() > 0,
        s.len() > 0 ==> s[0] != marker[0],
    ensures
        !marker.is_prefix_of(s),
{
    if marker.is_prefix_of(s) {
        assert(s.subrange(0, marker.len() as int)[0] == s[0]);
    }
}

/// A diff of one section has one record, whose header is that of the section.
pub proof fn lemma_read_section(
    diff: Seq<char>,
    first: Seq<char>,
    header: Seq<Seq<char>>,
    hunks: Seq<Seq<char>>,
)
    requires
        one_section(first, header, hunks),
        lines_of(diff) == seq![first] + header + hunks,
    ensures
        parsed(diff).len() == 1,
        parsed(diff)[0].header == seq![first] + header,
        parsed(diff)[0].path == path_of(seq![first] + header),
        parsed(diff)[0] == file_of(lines_of(diff)),
{
    let all = lines_of(diff);
    let none: Seq<Seq<char>> = Seq::empty();
    assert forall|i: int| 0 < i < all.len() implies !"diff --git "@.is_prefix_of(
        #[trigger] all[i],
    ) by {
        if i - 1 < header.len() {
            assert(all[i] == header[i - 1]);
        } else {
            assert(all[i] == hunks[i - 1 - header.len()]);
        }
    }
    lemma_sections_of_runs(none, all, "diff --git "@);
    assert(none + all =~= all);
    let head = seq![first] + header;
    assert(!"@@ "@.is_prefix_of(first)) by {
        reveal_strlit("@@ ");
        reveal_strlit("diff --git ");
        assert(first.subrange(0, 11)[0] == first[0]);
        lemma_begins_otherwise("@@ "@, first);
    }
    assert forall|i: int| 0 <= i < head.len() implies !"@@ "@.is_prefix_of(#[trigger] head[i]) by {
        if i > 0 {
            assert(head[i] == header[i - 1]);
        }
    }
    lemma_preamble_add(head, hunks, "@@ "@);
    assert(all =~= head + hunks);
    assert(parsed(diff) =~= seq![file_of(all)]);
}

proof fn lemma_token(side: Seq<char>, path: Seq<char>)
    requires
        solid(path),
        side == "a/"@ || side == "b/"@,
    ensures
        path_token(side + path) == side + path,
        without_side(side + path) == path,
        side + path != "/dev/null"@,
{
    reveal_strlit("a/");
    reveal_strlit("b/");
    reveal_strlit("/dev/null");
    let s = side + path;
    assert(solid(s)) by {
        assert forall|i: int| 0 <= i < s.len() implies !crate::text::is_white_space(
            #[trigger] s[i],
        ) by {
            if i >= 2 {
                assert(s[i] == path[i - 2]);
            }
        }
    }
    lemma_single_word(s);
    lemma_prefix_is_taken_off(side, path, s);
    assert(s[0] != '/');
    if side == "a/"@ {
        lemma_begins_otherwise("b/"@, s);
    }
}

proof fn lemma_side_lines(head: Seq<Seq<char>>, old_rest: Seq<char>, new_rest: Seq<char>)
    requires
        head.len() >= 2,
        head[head.len() - 2] == "--- "@ + old_rest,
        head.last() == "+++ "@ + new_rest,
    ensures
        last_marked(head, "+++ "@) == Some(new_rest),
        last_marked(head, "--- "@) == Some(old_rest),
{
    reveal_strlit("--- ");
    reveal_strlit("+++ ");
    lemma_prefix_is_taken_off("+++ "@, new_rest, head.last());
    lemma_prefix_is_taken_off("--- "@, old_rest, head.last());
    assert(head.last()[0] == '+');
    lemma_begins_otherwise("--- "@, head.last());
    let front = head.drop_last();
    assert(front.last() == "--- "@ + old_rest);
    assert(last_marked(front, "--- "@) == Some(old_rest));
}

proof fn lemma_dev_null()
    ensures
        path_token("/dev/null"@) == "/dev/null"@,
{
    reveal_strlit("/dev/null");
    lemma_single_word("/dev/null"@);
}

/// A file that is deleted has the whole path of its old side: only the one
/// marker of that side is removed.
pub proof fn lemma_path_of_a_deleted_file(
    diff: Seq<char>,
    first: Seq<char>,
    between: Seq<Seq<char>>,
    hunks: Seq<Seq<char>>,
    path: Seq<char>,
)
    requires
        solid(path),
        one_section(first, between + seq!["--- a/"@ + path, "+++ /dev/null"@], hunks),
        lines_of(diff) == seq![first] + (between + seq!["--- a/"@ + path, "+++ /dev/null"@])
            + hunks,
    ensures
        parsed(diff).len() == 1,
        parsed(diff)[0].path == path,
{
    let header = between + seq!["--- a/"@ + path, "+++ /dev/null"@];
    lemma_read_section(diff, first, header, hunks);
    reveal_strlit("--- a/");
    reveal_strlit("--- ");
    reveal_strlit("a/");
    reveal_strlit("+++ /dev/null");
    reveal_strlit("+++ ");
    reveal_strlit("/dev/null");
    let head = seq![first] + header;
    assert(head[head.len() - 2] =~= "--- "@ + ("a/"@ + path));
    assert(head.last() =~= "+++ "@ + "/dev/null"@);
    lemma_side_lines(head, "a/"@ + path, "/dev/null"@);
    lemma_dev_null();
    lemma_token("a/"@, path);
}

/// A file that is changed, made or renamed has the whole path of its new side,
/// whatever its old side is.
pub proof fn lemma_path_of_a_changed_file(
    diff: Seq<char>,
    first: Seq<char>,
    between: Seq<Seq<char>>,
    old_side: Seq<char>,
    hunks: Seq<Seq<char>>,
    path: Seq<char>,
)
    requires
        solid(path),
        one_section(first, between + seq!["--- "@ + old_side, "+++ b/"@ + path], hunks),
        lines_of(diff) == seq![first] + (between + seq!["--- "@ + old_side, "+++ b/"@ + path])
            + hunks,
    ensures
        parsed(diff).len() == 1,
        parsed(diff)[0].path == path,
{
    let header = between + seq!["--- "@ + old_side, "+++ b/"@ + path];
    lemma_read_section(diff, first, header, hunks);
    reveal_strlit("+++ b/");
    reveal_strlit("+++ ");
    reveal_strlit("b/");
    let head = seq![first] + header;
    assert(head.last() =~= "+++ "@ + ("b/"@ + path));
    lemma_side_lines(head, old_side, "b/"@ + path);
    lemma_token("b/"@, path);
}

proof fn lemma_no_side(head: Seq<Seq<char>>, marker: Seq<char>)
    requires
        forall|i: int| 0 <= i < head.len() ==> !marker.is_prefix_of(#[trigger] head[i]),
    ensures
        last_marked(head, marker) is None,
    decreases head.len(),
{
    if head.len() > 0 {
        let front = head.drop_last();
        assert forall|i: int| 0 <= i < front.len() implies !marker.is_prefix_of(
            #[trigger] front[i],
        ) by {
            assert(front[i] == head[i]);
        }
        assert(!marker.is_prefix_of(head[head.len() - 1]));
        lemma_no_side(front, marker);
    }
}

/// A file whose section names neither side, such as a mere rename or a change
/// of the mode, has the whole second path of the first line.
pub proof fn lemma_path_without_sides(
    diff: Seq<char>,
    old_path: Seq<char>,
    path: Seq<char>,
    header: Seq<Seq<char>>,
    hunks: Seq<Seq<char>>,
)
    requires
        lacks(path, ' '),
        one_section("diff --git a/"@ + old_path + " b/"@ + path, header, hunks),
        forall|i: int|
            0 <= i < header.len() ==> !"--- "@.is_prefix_of(#[trigger] header[i])
                && !"+++ "@.is_prefix_of(header[i]),
        lines_of(diff) == seq!["diff --git a/"@ + old_path + " b/"@ + path] + header + hunks,
    ensures
        parsed(diff).len() == 1,
        parsed(diff)[0].path == path,
{
    let first = "diff --git a/"@ + old_path + " b/"@ + path;
    lemma_read_section(diff, first, header, hunks);
    let head = seq![first] + header;
    reveal_strlit("diff --git a/");
    reveal_strlit(" b/");
    reveal_strlit("+++ ");
    reveal_strlit("--- ");
    lemma_begins_otherwise("--- "@, first);
    lemma_begins_otherwise("+++ "@, first);
    assert forall|i: int| 0 <= i < head.len() implies !"--- "@.is_prefix_of(#[trigger] head[i])
        && !"+++ "@.is_prefix_of(head[i]) by {
        if i > 0 {
            assert(head[i] == header[i - 1]);
        }
    }
    lemma_no_side(head, "--- "@);
    lemma_no_side(head, "+++ "@);
    lemma_behind_last("diff --git a/"@ + old_path, " b/"@, path);
    assert(head[0] == first);
}

} // verus!
