//! What a patch does to its files, and what kind of change that is.

use vstd::prelude::*;

use crate::commit::changes::{
    adds_code, category_of, changes_in, first_change, is_code, is_new_code, opened_path,
    primary_change, stem_of, subject_of, total_added, total_removed, type_of, verb_of, Category,
    ChangeType, ChangeView, FileKind,
};
use crate::engine::hunks::in_hunk;
use crate::laws::paths::{lemma_begins_otherwise, one_section};
use crate::laws::texts::{
    lacks, lemma_end_pieces, lemma_last_place, lemma_lower_case, lemma_occurs_inside,
    lemma_one_piece, lemma_prefix_is_taken_off,
};
use crate::letters::ascii_lowered;
use crate::number::decimal_of;
use crate::pieces::last_piece;
use crate::text::lemma_behind_last;

verus! {

/// How many of the lines begin with the character.
pub open spec fn beginning_with(lines: Seq<Seq<char>>, c: char) -> nat
    decreases lines.len(),
{
    if lines.len() == 0 {
        0
    } else {
        beginning_with(lines.drop_last(), c) + if lines.last().len() > 0 && lines.last()[0] == c {
            1nat
        } else {
            0nat
        }
    }
}

/// Some of the lines begins with the text.
pub open spec fn some_begins(lines: Seq<Seq<char>>, start: Seq<char>) -> bool {
    exists|i: int| 0 <= i < lines.len() && start.is_prefix_of(#[trigger] lines[i])
}

proof fn lemma_one_char_start(c: char, start: Seq<char>, line: Seq<char>)
    requires
        start == seq![c],
    ensures
        start.is_prefix_of(line) <==> line.len() > 0 && line[0] == c,
{
    if start.is_prefix_of(line) {
        assert(line.subrange(0, 1)[0] == line[0]);
    }
    if line.len() > 0 && line[0] == c {
        assert(line.subrange(0, 1) =~= start);
    }
}

/// The sections of a patch change their files independently.
pub proof fn lemma_sections_change_separately(a: Seq<Seq<char>>, b: Seq<Seq<char>>)
    requires
        b.len() > 0 ==> "diff --git "@.is_prefix_of(b[0]),
    ensures
        changes_in(a + b) == changes_in(a) + changes_in(b),
        b.len() > 0 ==> changes_in(b).len() > 0 && in_hunk(a + b) == in_hunk(b),
    decreases b.len(),
{
    if b.len() == 0 {
        assert(a + b =~= a);
        assert(changes_in(a) + changes_in(b) =~= changes_in(a));
    } else {
        let front = b.drop_last();
        lemma_sections_change_separately(a, front);
        assert((a + b).drop_last() =~= a + front);
        assert((a + b).last() == b.last());
        if front.len() == 0 {
            assert(b[0] == b.last());
            assert(opened_path(b.last()) is Some);
        }
        assert(changes_in(a + b) =~= changes_in(a) + changes_in(b));
    }
}

proof fn lemma_header_changes(first: Seq<char>, header: Seq<Seq<char>>)
    requires
        one_section(first, header, Seq::empty()),
        forall|i: int|
            0 <= i < header.len() ==> ("+"@.is_prefix_of(#[trigger] header[i])
                ==> "+++"@.is_prefix_of(header[i])) && ("-"@.is_prefix_of(header[i])
                ==> "---"@.is_prefix_of(header[i])),
    ensures
        changes_in(seq![first] + header).len() == 1,
        changes_in(seq![first] + header)[0].path == opened_path(first)->0,
        changes_in(seq![first] + header)[0].added == 0,
        changes_in(seq![first] + header)[0].removed == 0,
        !in_hunk(seq![first] + header),
        ({
            let kind = changes_in(seq![first] + header)[0].kind;
            let made = some_begins(header, "new file mode"@);
            let gone = some_begins(header, "deleted file mode"@);
            &&& made && !gone ==> kind == FileKind::Added
            &&& gone && !made ==> kind == FileKind::Deleted
            &&& !gone && !made ==> kind == FileKind::Modified
        }),
    decreases header.len(),
{
    let all = seq![first] + header;
    if header.len() == 0 {
        assert(all.drop_last() =~= Seq::empty());
        assert(all.last() == first);
        assert(opened_path(first) is Some);
        assert(changes_in(all.drop_last()).len() == 0);
    } else {
        let front = header.drop_last();
        let none: Seq<Seq<char>> = Seq::empty();
        let line = header.last();
        assert forall|i: int| 0 <= i < front.len() implies front[i] == header[i] by {}
        assert(one_section(first, front, none)) by {
            assert forall|i: int| 0 <= i < front.len() implies !"diff --git "@.is_prefix_of(
                #[trigger] front[i],
            ) && !"@@ "@.is_prefix_of(front[i]) by {
                assert(front[i] == header[i]);
            }
        }
        assert forall|i: int| 0 <= i < front.len() implies ("+"@.is_prefix_of(#[trigger] front[i])
            ==> "+++"@.is_prefix_of(front[i])) && ("-"@.is_prefix_of(front[i])
            ==> "---"@.is_prefix_of(front[i])) by {
            assert(front[i] == header[i]);
        }
        lemma_header_changes(first, front);
        assert(all.drop_last() =~= seq![first] + front);
        assert(all.last() == line);
        assert(header[header.len() - 1] == line);
        assert(opened_path(line) is None);
        if some_begins(front, "new file mode"@) {
            let i = choose|i: int|
                0 <= i < front.len() && "new file mode"@.is_prefix_of(#[trigger] front[i]);
            assert("new file mode"@.is_prefix_of(header[i]));
        }
        if some_begins(front, "deleted file mode"@) {
            let i = choose|i: int|
                0 <= i < front.len() && "deleted file mode"@.is_prefix_of(#[trigger] front[i]);
            assert("deleted file mode"@.is_prefix_of(header[i]));
        }
        if !"new file mode"@.is_prefix_of(line) && some_begins(header, "new file mode"@) {
            let i = choose|i: int|
                0 <= i < header.len() && "new file mode"@.is_prefix_of(#[trigger] header[i]);
            assert("new file mode"@.is_prefix_of(front[i]));
        }
        if !"deleted file mode"@.is_prefix_of(line) && some_begins(header, "deleted file mode"@) {
            let i = choose|i: int|
                0 <= i < header.len() && "deleted file mode"@.is_prefix_of(#[trigger] header[i]);
            assert("deleted file mode"@.is_prefix_of(front[i]));
        }
        reveal_strlit("new file mode");
        reveal_strlit("deleted file mode");
        if "new file mode"@.is_prefix_of(line) {
            assert(line.subrange(0, 13)[0] == 'n');
            if "deleted file mode"@.is_prefix_of(line) {
                assert(line.subrange(0, 17)[0] == 'd');
            }
        }
    }
}

/// The change of a file: the path behind the last ` b/` of its first line;
/// made, removed or edited as its header says; and as many lines added and
/// removed as lines of its hunks begin with a plus and a minus.
pub proof fn lemma_a_section_is_one_change(
    first: Seq<char>,
    header: Seq<Seq<char>>,
    hunks: Seq<Seq<char>>,
    old_path: Seq<char>,
    path: Seq<char>,
)
    requires
        one_section(first, header, hunks),
        first == "diff --git a/"@ + old_path + " b/"@ + path,
        lacks(path, ' '),
        forall|i: int|
            0 <= i < header.len() ==> ("+"@.is_prefix_of(#[trigger] header[i])
                ==> "+++"@.is_prefix_of(header[i])) && ("-"@.is_prefix_of(header[i])
                ==> "---"@.is_prefix_of(header[i])),
    ensures
        changes_in(seq![first] + header + hunks).len() == 1,
        ({
            let change = changes_in(seq![first] + header + hunks)[0];
            let made = some_begins(header, "new file mode"@);
            let gone = some_begins(header, "deleted file mode"@);
            &&& change.path == path
            &&& change.added == beginning_with(hunks, '+')
            &&& change.removed == beginning_with(hunks, '-')
            &&& made && !gone ==> change.kind == FileKind::Added
            &&& gone && !made ==> change.kind == FileKind::Deleted
            &&& !gone && !made ==> change.kind == FileKind::Modified
        }),
        hunks.len() > 0 ==> in_hunk(seq![first] + header + hunks),
    decreases hunks.len(),
{
    let all = seq![first] + header + hunks;
    let none: Seq<Seq<char>> = Seq::empty();
    if hunks.len() == 0 {
        assert(hunks =~= none);
        assert(all =~= seq![first] + header);
        lemma_header_changes(first, header);
        reveal_strlit("diff --git a/");
        reveal_strlit("diff --git ");
        reveal_strlit("a/");
        reveal_strlit(" b/");
        let rest = ("a/"@ + old_path) + " b/"@ + path;
        assert(first =~= "diff --git "@ + rest);
        lemma_prefix_is_taken_off("diff --git "@, rest, first);
        lemma_behind_last("a/"@ + old_path, " b/"@, path);
    } else {
        let front = hunks.drop_last();
        let line = hunks.last();
        assert(one_section(first, header, front)) by {
            assert forall|i: int| 0 <= i < front.len() implies !"diff --git "@.is_prefix_of(
                #[trigger] front[i],
            ) by {
                assert(front[i] == hunks[i]);
            }
        }
        lemma_a_section_is_one_change(first, header, front, old_path, path);
        assert(all.drop_last() =~= seq![first] + header + front);
        assert(all.last() == line);
        assert(hunks[hunks.len() - 1] == line);
        assert(opened_path(line) is None);
        reveal_strlit("+");
        reveal_strlit("-");
        reveal_strlit("@@ ");
        assert("+"@ =~= seq!['+']);
        assert("-"@ =~= seq!['-']);
        lemma_one_char_start('+', "+"@, line);
        lemma_one_char_start('-', "-"@, line);
        if front.len() == 0 {
            assert(line == hunks[0]);
            assert(line.subrange(0, 3)[0] == '@');
            lemma_header_changes_again(first, header, front);
            reveal_strlit("new file mode");
            reveal_strlit("deleted file mode");
            lemma_begins_otherwise("new file mode"@, line);
            lemma_begins_otherwise("deleted file mode"@, line);
        }
    }
}

proof fn lemma_header_changes_again(
    first: Seq<char>,
    header: Seq<Seq<char>>,
    front: Seq<Seq<char>>,
)
    requires
        front.len() == 0,
        one_section(first, header, front),
        forall|i: int|
            0 <= i < header.len() ==> ("+"@.is_prefix_of(#[trigger] header[i])
                ==> "+++"@.is_prefix_of(header[i])) && ("-"@.is_prefix_of(header[i])
                ==> "---"@.is_prefix_of(header[i])),
    ensures
        !in_hunk(seq![first] + header + front),
{
    assert(front =~= Seq::empty());
    lemma_header_changes(first, header);
    assert(seq![first] + header + front =~= seq![first] + header);
}

// ── categories ──────────────────────────────────────────────────────

/// Case does not matter to what a path stands for.
pub proof fn lemma_case_does_not_matter(path: Seq<char>)
    ensures
        category_of(ascii_lowered(path)) == category_of(path),
{
    lemma_lower_case(path, path);
}

/// A text without capitals is its own lower case.
pub proof fn lemma_lowered_word(word: Seq<char>)
    requires
        forall|i: int| 0 <= i < word.len() ==> !('A' <= #[trigger] word[i] <= 'Z'),
    ensures
        ascii_lowered(word) == word,
{
    assert(ascii_lowered(word) =~= word);
}

/// A file below a directory of tests is a test, whatever its name.
pub proof fn lemma_test_directories(a: Seq<char>, b: Seq<char>)
    ensures
        category_of(a + "/tests/"@ + b) == Category::Test,
        category_of(a + "/test/"@ + b) == Category::Test,
        category_of(a + "__tests__"@ + b) == Category::Test,
{
    reveal_strlit("/tests/");
    reveal_strlit("/test/");
    reveal_strlit("__tests__");
    let x = ascii_lowered(a);
    let y = ascii_lowered(b);
    lemma_lowered_word("/tests/"@);
    lemma_lowered_word("/test/"@);
    lemma_lowered_word("__tests__"@);
    lemma_lower_case(a + "/tests/"@, b);
    lemma_lower_case(a, "/tests/"@);
    lemma_lower_case(a + "/test/"@, b);
    lemma_lower_case(a, "/test/"@);
    lemma_lower_case(a + "__tests__"@, b);
    lemma_lower_case(a, "__tests__"@);
    lemma_occurs_inside(x, "/tests/"@, y);
    lemma_occurs_inside(x, "/test/"@, y);
    lemma_occurs_inside(x, "__tests__"@, y);
}

/// The file name of a path: what stands behind the last slash.
pub open spec fn names(path: Seq<char>, name: Seq<char>) -> bool {
    lacks(name, '/') && (path == name || exists|d: Seq<char>| path == #[trigger] (d + seq!['/'] + name))
}

/// The last piece of a path is its file name, in lower case too.
pub proof fn lemma_names(path: Seq<char>, name: Seq<char>)
    requires
        names(path, name),
    ensures
        last_piece(path, '/') == name,
        last_piece(ascii_lowered(path), '/') == ascii_lowered(name),
{
    let low = ascii_lowered(name);
    lemma_lower_case(name, name);
    assert(lacks(low, '/')) by {
        assert forall|i: int| 0 <= i < low.len() implies #[trigger] low[i] != '/' by {
            assert(name[i] != '/');
        }
    }
    if path == name {
        lemma_one_piece(name, '/');
        lemma_one_piece(low, '/');
    } else {
        let d = choose|d: Seq<char>| path == #[trigger] (d + seq!['/'] + name);
        lemma_end_pieces(d, '/', name);
        lemma_lower_case(d + seq!['/'], name);
        lemma_lower_case(d, seq!['/']);
        assert(ascii_lowered(seq!['/']) =~= seq!['/']);
        lemma_end_pieces(ascii_lowered(d), '/', low);
    }
}

/// A file whose name begins or ends like a test is a test, wherever it is.
pub proof fn lemma_test_names(path: Seq<char>, name: Seq<char>, part: Seq<char>)
    requires
        names(path, name),
        name == "test_"@ + part || name == part + "_test.rs"@ || name == part + "_test.py"@ || name
            == part + ".test.ts"@ || name == part + ".test.js"@ || name == part + "_spec.rs"@
            || name == part + "_spec.py"@,
    ensures
        category_of(path) == Category::Test,
{
    reveal_strlit("test_");
    reveal_strlit("_test.rs");
    reveal_strlit("_test.py");
    reveal_strlit(".test.ts");
    reveal_strlit(".test.js");
    reveal_strlit("_spec.rs");
    reveal_strlit("_spec.py");
    lemma_names(path, name);
    let low = ascii_lowered(name);
    lemma_lower_case(name, name);
    if name == "test_"@ + part {
        assert(low.subrange(0, 5) =~= "test_"@);
    } else {
        let n = low.len() as int;
        assert(low.subrange(n - 8, n) =~= name.subrange(n - 8, n));
        assert(name.subrange(n - 8, n) =~= name.skip(part.len() as int));
        assert(name.skip(part.len() as int) =~= "_test.rs"@ || name.skip(part.len() as int)
            =~= "_test.py"@ || name.skip(part.len() as int) =~= ".test.ts"@ || name.skip(
            part.len() as int,
        ) =~= ".test.js"@ || name.skip(part.len() as int) =~= "_spec.rs"@ || name.skip(
            part.len() as int,
        ) =~= "_spec.py"@);
    }
}

/// Markdown is documentation, or a test; it is never code.
pub proof fn lemma_markdown_is_documentation(path: Seq<char>, name: Seq<char>, part: Seq<char>)
    requires
        names(path, name),
        name == part + ".md"@ || name == part + ".rst"@ || name == "readme"@ + part || name
            == "changelog"@ + part || name == "license"@ + part,
    ensures
        category_of(path) == Category::Docs || category_of(path) == Category::Test,
{
    reveal_strlit(".md");
    reveal_strlit(".rst");
    reveal_strlit("readme");
    reveal_strlit("changelog");
    reveal_strlit("license");
    lemma_names(path, name);
    let low = ascii_lowered(name);
    lemma_lower_case(name, name);
    let n = low.len() as int;
    if name == part + ".md"@ {
        assert(low.subrange(n - 3, n) =~= ".md"@);
    } else if name == part + ".rst"@ {
        assert(low.subrange(n - 4, n) =~= ".rst"@);
    } else if name == "readme"@ + part {
        assert(low.subrange(0, 6) =~= "readme"@);
    } else if name == "changelog"@ + part {
        assert(low.subrange(0, 9) =~= "changelog"@);
    } else {
        assert(low.subrange(0, 7) =~= "license"@);
    }
}

// ── types ───────────────────────────────────────────────────────────

/// A changeset that is all tests, all documentation or all configuration is of
/// that type, however much it adds or removes.
pub proof fn lemma_uniform_changesets(changes: Seq<ChangeView>, category: Category)
    requires
        changes.len() > 0,
        forall|i: int|
            0 <= i < changes.len() ==> category_of((#[trigger] changes[i]).path) == category,
    ensures
        category == Category::Test ==> type_of(changes) == ChangeType::Test,
        category == Category::Docs ==> type_of(changes) == ChangeType::Docs,
        category == Category::Build ==> type_of(changes) == ChangeType::Build,
        category == Category::Source || category == Category::Other ==> type_of(changes)
            == ChangeType::Feat || type_of(changes) == ChangeType::Fix || type_of(changes)
            == ChangeType::Refactor,
{
    assert(category_of(changes[0].path) == category);
}

/// A new source file, or code that only grows, makes a changeset a feature.
pub proof fn lemma_new_code_is_a_feature(changes: Seq<ChangeView>, i: int)
    requires
        0 <= i < changes.len(),
        ({
            let category = category_of(changes[i].path);
            let c = changes[i];
            ||| c.kind == FileKind::Added && category == Category::Source
            ||| c.kind != FileKind::Deleted && (category == Category::Source || category
                == Category::Other) && c.added > 0 && c.removed == 0
        }),
    ensures
        type_of(changes) == ChangeType::Feat,
{
    assert(adds_code(changes[i]));
}

/// A changeset that only takes lines away, or edits lines, is no feature: of one
/// file it is a fix, and of several, where more is removed than added, a
/// restructuring.
pub proof fn lemma_edits_are_fixes(changes: Seq<ChangeView>)
    requires
        changes.len() > 0,
        forall|i: int|
            0 <= i < changes.len() ==> (#[trigger] changes[i]).kind == FileKind::Modified
                && changes[i].removed > 0 && changes[i].added >= 0 && category_of(changes[i].path)
                == Category::Source,
    ensures
        changes.len() == 1 ==> type_of(changes) == ChangeType::Fix,
        changes.len() > 1 && total_removed(changes) > total_added(changes) ==> type_of(changes)
            == ChangeType::Refactor,
        changes.len() > 1 && total_removed(changes) <= total_added(changes) ==> type_of(changes)
            == ChangeType::Fix,
{
    assert(category_of(changes[0].path) == Category::Source);
    assert forall|i: int| 0 <= i < changes.len() implies !adds_code(#[trigger] changes[i]) by {}
    lemma_removed_positive(changes);
}

proof fn lemma_removed_positive(changes: Seq<ChangeView>)
    requires
        forall|i: int| 0 <= i < changes.len() ==> (#[trigger] changes[i]).removed > 0,
    ensures
        total_removed(changes) >= changes.len(),
    decreases changes.len(),
{
    if changes.len() > 0 {
        let front = changes.drop_last();
        assert forall|i: int| 0 <= i < front.len() implies (#[trigger] front[i]).removed > 0 by {
            assert(front[i] == changes[i]);
        }
        lemma_removed_positive(front);
        assert(changes[changes.len() - 1].removed > 0);
    }
}

/// The lines of several changes are those of the parts.
pub proof fn lemma_totals_add_up(a: Seq<ChangeView>, b: Seq<ChangeView>)
    ensures
        total_added(a + b) == total_added(a) + total_added(b),
        total_removed(a + b) == total_removed(a) + total_removed(b),
        a.len() == 1 ==> total_added(a) == a[0].added && total_removed(a) == a[0].removed,
    decreases b.len(),
{
    if b.len() == 0 {
        assert(a + b =~= a);
    } else {
        lemma_totals_add_up(a, b.drop_last());
        assert((a + b).drop_last() =~= a + b.drop_last());
        assert((a + b).last() == b.last());
    }
    if a.len() == 1 {
        assert(total_added(a.drop_last()) == 0);
        assert(total_removed(a.drop_last()) == 0);
    }
}

/// A deleted file is a fix, whatever it held; it is never a feature.
pub proof fn lemma_deletions_are_fixes(change: ChangeView)
    requires
        change.kind == FileKind::Deleted,
        change.added == 0,
        change.removed >= 0,
        category_of(change.path) == Category::Source || category_of(change.path) == Category::Other,
    ensures
        type_of(seq![change]) == ChangeType::Fix,
{
    let one = seq![change];
    let none: Seq<ChangeView> = Seq::empty();
    lemma_totals_add_up(one, none);
    assert(one[0].kind == FileKind::Deleted);
}

// ── subjects ────────────────────────────────────────────────────────

proof fn lemma_first_change(changes: Seq<ChangeView>, wanted: spec_fn(ChangeView) -> bool)
    ensures
        match first_change(changes, wanted) {
            Some(c) => wanted(c) && exists|i: int|
                0 <= i < changes.len() && #[trigger] changes[i] == c && forall|j: int|
                    0 <= j < i ==> !wanted(#[trigger] changes[j]),
            None => forall|j: int| 0 <= j < changes.len() ==> !wanted(#[trigger] changes[j]),
        },
    decreases changes.len(),
{
    if changes.len() > 0 {
        let front = changes.drop_last();
        lemma_first_change(front, wanted);
        assert forall|j: int| 0 <= j < front.len() implies #[trigger] changes[j] == front[j] by {}
        match first_change(front, wanted) {
            Some(c) => {
                let i = choose|i: int|
                    0 <= i < front.len() && #[trigger] front[i] == c && forall|j: int|
                        0 <= j < i ==> !wanted(#[trigger] front[j]);
                assert(changes[i] == c);
                assert forall|j: int| 0 <= j < i implies !wanted(#[trigger] changes[j]) by {
                    assert(!wanted(front[j]));
                }
            },
            None => {
                assert forall|j: int| 0 <= j < front.len() implies !wanted(#[trigger] changes[j]) by {
                    assert(!wanted(front[j]));
                }
                let n = changes.len() - 1;
                assert(changes[n] == changes.last());
            },
        }
    }
}

/// The subject speaks of one of the changes: of the first new code file, where
/// there is one, and else of the first code file; and it counts the others.
pub proof fn lemma_the_subject_speaks_of_code(changes: Seq<ChangeView>)
    requires
        changes.len() > 0,
    ensures
        exists|i: int|
            0 <= i < changes.len() && ({
                let c = #[trigger] changes[i];
                let told = verb_of(c.kind) + " "@ + stem_of(c.path);
                &&& subject_of(changes) == if changes.len() == 1 {
                    told
                } else {
                    told + " and "@ + decimal_of((changes.len() - 1) as nat) + " more"@
                }
                &&& (exists|j: int| 0 <= j < changes.len() && code(#[trigger] changes[j]) && changes[j].kind
                    == FileKind::Added) ==> code(c) && c.kind == FileKind::Added && (forall|j: int|
                    0 <= j < i ==> !(code(#[trigger] changes[j]) && changes[j].kind
                        == FileKind::Added))
                &&& (exists|j: int| 0 <= j < changes.len() && code(#[trigger] changes[j])) ==> code(c)
                &&& !(exists|j: int| 0 <= j < changes.len() && code(#[trigger] changes[j])) ==> i == 0
            }),
{
    let fresh = |c: ChangeView| is_new_code(c);
    let any = |c: ChangeView| is_code(c);
    lemma_first_change(changes, fresh);
    lemma_first_change(changes, any);
    let c = primary_change(changes)->0;
    if first_change(changes, fresh) is Some {
        let i = choose|i: int|
            0 <= i < changes.len() && #[trigger] changes[i] == c && forall|j: int|
                0 <= j < i ==> !fresh(#[trigger] changes[j]);
        assert forall|j: int| 0 <= j < i implies !(code(#[trigger] changes[j]) && changes[j].kind
            == FileKind::Added) by {
            assert(!fresh(changes[j]));
        }
        assert(changes[i] == c);
    } else if first_change(changes, any) is Some {
        let i = choose|i: int|
            0 <= i < changes.len() && #[trigger] changes[i] == c && forall|j: int|
                0 <= j < i ==> !any(#[trigger] changes[j]);
        assert forall|j: int| 0 <= j < changes.len() implies !(code(#[trigger] changes[j])
            && changes[j].kind == FileKind::Added) by {
            assert(!fresh(changes[j]));
        }
        assert(changes[i] == c);
    } else {
        assert forall|j: int| 0 <= j < changes.len() implies !code(#[trigger] changes[j]) by {
            assert(!any(changes[j]));
        }
        assert(changes[0] == c);
    }
}

/// The change is to a file that may hold a feature or a fix.
pub open spec fn code(change: ChangeView) -> bool {
    category_of(change.path) == Category::Source || category_of(change.path) == Category::Other
}

/// A file is told by its name without directories and without its extension.
pub proof fn lemma_stems(path: Seq<char>, stem: Seq<char>, extension: Seq<char>)
    requires
        stem.len() > 0,
        lacks(extension, '.'),
        names(path, stem + seq!['.'] + extension),
    ensures
        stem_of(path) == stem,
{
    let name = stem + seq!['.'] + extension;
    lemma_names(path, name);
    lemma_last_place(stem, '.', extension);
    assert(name.take(stem.len() as int) =~= stem);
}

} // verus!
