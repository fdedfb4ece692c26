//! Unified diffs as per-file records.
//!
//! A diff is a list of lines. Every line that begins a file section opens a
//! record, and within a section every line that begins a hunk opens a hunk.
//!
//! Paths that git wraps in double quotes are taken as they stand: such a path
//! matches nothing in a plan, and the plan is refused.

use vstd::prelude::*;

use crate::pieces::{lines, lines_of, push_lines, with_newlines, words, words_of};
use crate::text::{
    after_last, behind_last, chars_of, contains, is_text, lemma_parts_push, occurs, part, parts,
    prefix_stripped, same_text, starts_with, strip_prefix, text_of, texts, texts_of,
};

verus! {

/// One `@@ -a,b +c,d @@` block and its content lines, without line ends.
#[derive(Debug, Clone, PartialEq)]
pub struct Hunk {
    pub header: String,
    pub body_lines: Vec<String>,
}

/// Everything the splitter needs to know about one changed file.
#[derive(Debug, Clone)]
pub struct FileDiff {
    /// Path in the repository: that of the new side, and that of the old side
    /// for a deleted file.
    pub path: String,
    /// The lines from `diff --git` up to the first hunk.
    pub header: Vec<String>,
    /// The hunks in diff order; plans count them from one.
    pub hunks: Vec<Hunk>,
    /// Whether the file can only be committed whole: binary, new, deleted,
    /// renamed and copied files, and changes of the mode alone.
    pub atomic: bool,
}

/// A hunk as texts.
pub struct HunkView {
    pub header: Seq<char>,
    pub body: Seq<Seq<char>>,
}

/// A file record as texts.
pub struct FileView {
    pub path: Seq<char>,
    pub header: Seq<Seq<char>>,
    pub hunks: Seq<HunkView>,
    pub atomic: bool,
}

impl View for Hunk {
    type V = HunkView;

    open spec fn view(&self) -> HunkView {
        HunkView { header: self.header@, body: texts(self.body_lines@) }
    }
}

/// The hunks as texts.
pub open spec fn hunk_views(hunks: Seq<Hunk>) -> Seq<HunkView> {
    hunks.map_values(|h: Hunk| h@)
}

impl View for FileDiff {
    type V = FileView;

    open spec fn view(&self) -> FileView {
        FileView {
            path: self.path@,
            header: texts(self.header@),
            hunks: hunk_views(self.hunks@),
            atomic: self.atomic,
        }
    }
}

/// The file records as texts.
pub open spec fn file_views(files: Seq<FileDiff>) -> Seq<FileView> {
    files.map_values(|f: FileDiff| f@)
}

// ── sections ────────────────────────────────────────────────────────

/// The runs of lines that each begin with a line marked by `marker` and hold
/// no other such line. What stands before the first one belongs to no run.
pub open spec fn sections(lines: Seq<Seq<char>>, marker: Seq<char>) -> Seq<Seq<Seq<char>>>
    decreases lines.len(),
{
    if lines.len() == 0 {
        Seq::empty()
    } else {
        let before = sections(lines.drop_last(), marker);
        if marker.is_prefix_of(lines.last()) {
            before.push(seq![lines.last()])
        } else if before.len() == 0 {
            before
        } else {
            before.update(before.len() - 1, before.last().push(lines.last()))
        }
    }
}

/// The lines before the first one marked by `marker`.
pub open spec fn preamble(lines: Seq<Seq<char>>, marker: Seq<char>) -> Seq<Seq<char>>
    decreases lines.len(),
{
    if lines.len() == 0 {
        Seq::empty()
    } else {
        let before = preamble(lines.drop_last(), marker);
        if before.len() == lines.len() - 1 && !marker.is_prefix_of(lines.last()) {
            before.push(lines.last())
        } else {
            before
        }
    }
}

/// Cutting a list of lines into sections loses no line and moves none.
pub proof fn lemma_sections_keep_every_line(lines: Seq<Seq<char>>, marker: Seq<char>)
    ensures
        preamble(lines, marker) + sections(lines, marker).flatten() == lines,
        sections(lines, marker).len() == 0 <==> preamble(lines, marker).len() == lines.len(),
        forall|i: int| 0 <= i < sections(lines, marker).len() ==> (#[trigger] sections(lines, marker)[i]).len() >= 1,
    decreases lines.len(),
{
    if lines.len() == 0 {
        assert(preamble(lines, marker) + sections(lines, marker).flatten() =~= lines);
    } else {
        let front = lines.drop_last();
        lemma_sections_keep_every_line(front, marker);
        let before = sections(front, marker);
        let p = preamble(front, marker);
        assert(lines =~= front.push(lines.last()));
        assert(p.len() <= front.len()) by {
            assert((p + before.flatten()).len() == p.len() + before.flatten().len());
        }
        if marker.is_prefix_of(lines.last()) {
            before.lemma_flatten_push(seq![lines.last()]);
            assert(p + before.push(seq![lines.last()]).flatten() =~= lines);
        } else if before.len() == 0 {
            assert(before.flatten() =~= Seq::empty());
            assert(p =~= front);
            assert(p.push(lines.last()) + before.flatten() =~= lines);
        } else {
            let opened = before.drop_last();
            let last = before.last();
            assert(before =~= opened.push(last));
            opened.lemma_flatten_push(last);
            opened.lemma_flatten_push(last.push(lines.last()));
            let grown = before.update(before.len() - 1, last.push(lines.last()));
            assert(grown =~= opened.push(last.push(lines.last())));
            assert(p + grown.flatten() =~= lines);
        }
    }
}

/// Lines that are not marked, and a run that begins with a marked line and holds
/// no other, make that one section.
pub proof fn lemma_sections_of_runs(
    head: Seq<Seq<char>>,
    run: Seq<Seq<char>>,
    marker: Seq<char>,
)
    requires
        forall|i: int| 0 <= i < head.len() ==> !marker.is_prefix_of(#[trigger] head[i]),
        run.len() > 0 ==> marker.is_prefix_of(run[0]),
        forall|i: int| 0 < i < run.len() ==> !marker.is_prefix_of(#[trigger] run[i]),
    ensures
        preamble(head + run, marker) == head,
        sections(head + run, marker) == if run.len() == 0 {
            Seq::<Seq<Seq<char>>>::empty()
        } else {
            seq![run]
        },
    decreases head.len() + run.len(),
{
    let all = head + run;
    if run.len() > 0 {
        let front = run.drop_last();
        assert forall|i: int| 0 < i < front.len() implies !marker.is_prefix_of(
            #[trigger] front[i],
        ) by {
            assert(front[i] == run[i]);
        }
        lemma_sections_of_runs(head, front, marker);
        assert(all.drop_last() =~= head + front);
        assert(all.last() == run.last());
        assert(run[run.len() - 1] == run.last());
        if run.len() == 1 {
            assert(run =~= seq![run.last()]);
            assert(sections(all, marker) =~= seq![run]);
        } else {
            assert(front.push(run.last()) =~= run);
            assert(sections(all, marker) =~= seq![run]);
        }
        assert(preamble(all, marker) =~= head);
    } else if head.len() > 0 {
        let front = head.drop_last();
        assert forall|i: int| 0 <= i < front.len() implies !marker.is_prefix_of(
            #[trigger] front[i],
        ) by {
            assert(front[i] == head[i]);
        }
        lemma_sections_of_runs(front, run, marker);
        assert(all =~= head);
        assert(front + run =~= front);
        assert(head[head.len() - 1] == head.last());
        assert(front.push(head.last()) =~= head);
    }
}

/// Sections that begin with a marked line do not mix with those before.
pub proof fn lemma_sections_add(a: Seq<Seq<char>>, b: Seq<Seq<char>>, marker: Seq<char>)
    requires
        b.len() > 0 ==> marker.is_prefix_of(b[0]),
    ensures
        sections(a + b, marker) == sections(a, marker) + sections(b, marker),
        b.len() > 0 ==> sections(b, marker).len() > 0,
    decreases b.len(),
{
    if b.len() == 0 {
        assert(a + b =~= a);
        assert(sections(a, marker) + sections(b, marker) =~= sections(a, marker));
    } else {
        let front = b.drop_last();
        lemma_sections_add(a, front, marker);
        assert((a + b).drop_last() =~= a + front);
        assert((a + b).last() == b.last());
        if front.len() == 0 {
            assert(b[0] == b.last());
        }
        assert(sections(a + b, marker) =~= sections(a, marker) + sections(b, marker));
    }
}

/// Every section begins with a marked line and holds no other.
pub proof fn lemma_sections_are_marked(lines: Seq<Seq<char>>, marker: Seq<char>)
    ensures
        forall|k: int|
            0 <= k < sections(lines, marker).len() ==> (#[trigger] sections(lines, marker)[k]).len()
                > 0 && marker.is_prefix_of(sections(lines, marker)[k][0]),
        forall|k: int, j: int|
            0 <= k < sections(lines, marker).len() && 0 < j < sections(lines, marker)[k].len()
                ==> !marker.is_prefix_of(#[trigger] sections(lines, marker)[k][j]),
        forall|j: int|
            0 <= j < preamble(lines, marker).len() ==> !marker.is_prefix_of(
                #[trigger] preamble(lines, marker)[j],
            ),
    decreases lines.len(),
{
    if lines.len() > 0 {
        let before = sections(lines.drop_last(), marker);
        let after = sections(lines, marker);
        lemma_sections_are_marked(lines.drop_last(), marker);
        assert forall|k: int| 0 <= k < after.len() implies (#[trigger] after[k]).len() > 0
            && marker.is_prefix_of(after[k][0]) by {
            if k < before.len() {
                assert(before[k].len() > 0 && marker.is_prefix_of(before[k][0]));
                assert(after[k][0] == before[k][0]);
            }
        }
        assert forall|k: int, j: int|
            0 <= k < after.len() && 0 < j < after[k].len() implies !marker.is_prefix_of(
            #[trigger] after[k][j],
        ) by {
            if k < before.len() && j < before[k].len() {
                assert(after[k][j] == before[k][j]);
            }
        }
        let head = preamble(lines.drop_last(), marker);
        assert forall|j: int| 0 <= j < preamble(lines, marker).len() implies !marker.is_prefix_of(
            #[trigger] preamble(lines, marker)[j],
        ) by {
            if j < head.len() {
                assert(preamble(lines, marker)[j] == head[j]);
            }
        }
    }
}

/// What holds of the lines holds of the lines of every section. Of the first
/// line it need hold only where that line is marked.
pub proof fn lemma_sections_hold(
    lines: Seq<Seq<char>>,
    marker: Seq<char>,
    holds: spec_fn(Seq<char>) -> bool,
)
    requires
        lines.len() > 0 && marker.is_prefix_of(lines[0]) ==> holds(lines[0]),
        forall|i: int| 0 < i < lines.len() ==> holds(#[trigger] lines[i]),
    ensures
        forall|k: int, j: int|
            0 <= k < sections(lines, marker).len() && 0 <= j < sections(lines, marker)[k].len()
                ==> holds(#[trigger] sections(lines, marker)[k][j]),
    decreases lines.len(),
{
    if lines.len() > 0 {
        let front = lines.drop_last();
        assert forall|i: int| 0 < i < front.len() implies holds(#[trigger] front[i]) by {
            assert(front[i] == lines[i]);
        }
        lemma_sections_hold(front, marker, holds);
        if lines.len() > 1 {
            assert(holds(lines[lines.len() - 1]));
        } else {
            assert(sections(front, marker).len() == 0);
            assert(lines.last() == lines[0]);
        }
    }
}

/// Lines behind the first marked one do not change what stands before it.
pub proof fn lemma_preamble_add(head: Seq<Seq<char>>, rest: Seq<Seq<char>>, marker: Seq<char>)
    requires
        forall|i: int| 0 <= i < head.len() ==> !marker.is_prefix_of(#[trigger] head[i]),
        rest.len() > 0 ==> marker.is_prefix_of(rest[0]),
    ensures
        preamble(head + rest, marker) == head,
    decreases rest.len(),
{
    let nothing: Seq<Seq<char>> = Seq::empty();
    lemma_sections_of_runs(head, nothing, marker);
    assert(head + nothing =~= head);
    if rest.len() == 0 {
        assert(head + rest =~= head);
    } else {
        let all = head + rest;
        lemma_preamble_add(head, rest.drop_last(), marker);
        assert(all.drop_last() =~= head + rest.drop_last());
        assert(all.last() == rest.last());
        if rest.len() == 1 {
            assert(rest[0] == rest.last());
        }
    }
}

/// The sections as texts.
pub open spec fn section_views(sections: Seq<Vec<&[char]>>) -> Seq<Seq<Seq<char>>> {
    sections.map_values(|s: Vec<&[char]>| parts(s@))
}

/// Cut `lines` at the lines that begin with `marker`: the lines before the
/// first of them, and the sections.
fn cut<'a>(lines: &[&'a [char]], marker: &str) -> (r: (Vec<&'a [char]>, Vec<Vec<&'a [char]>>))
    ensures
        parts(r.0@) == preamble(parts(lines@), marker@),
        section_views(r.1@) == sections(parts(lines@), marker@),
{
    broadcast use lemma_parts_push;

    let mut front: Vec<&'a [char]> = Vec::new();
    let mut done: Vec<Vec<&'a [char]>> = Vec::new();
    let mut current: Vec<&'a [char]> = Vec::new();
    let mut opened = false;
    let ghost all = parts(lines@);
    for i in 0..lines.len()
        invariant
            all == parts(lines@),
            !opened ==> done@.len() == 0 && current@.len() == 0,
            parts(front@) == preamble(all.take(i as int), marker@),
            opened ==> front@.len() < i,
            !opened ==> front@.len() == i,
            opened ==> sections(all.take(i as int), marker@) == section_views(done@).push(
                parts(current@),
            ),
            !opened ==> sections(all.take(i as int), marker@) == Seq::<Seq<Seq<char>>>::empty(),
    {
        let line = lines[i];
        assert(all.take(i + 1).drop_last() =~= all.take(i as int));
        assert(all.take(i + 1).last() == line@);
        let ghost finished = section_views(done@);
        let ghost piece = parts(current@);
        if starts_with(line, marker) {
            if opened {
                done.push(current);
                assert(section_views(done@) =~= finished.push(piece));
            } else {
                assert(section_views(done@) =~= Seq::<Seq<Seq<char>>>::empty());
            }
            current = Vec::new();
            current.push(line);
            assert(parts(current@) =~= seq![line@]);
            opened = true;
            assert(sections(all.take(i + 1), marker@) == section_views(done@).push(seq![line@]));
        } else if opened {
            current.push(line);
            assert(sections(all.take(i as int), marker@).len() == finished.len() + 1);
            assert(sections(all.take(i + 1), marker@) == finished.push(piece).update(
                finished.len() as int,
                piece.push(line@),
            ));
            assert(finished.push(piece).update(finished.len() as int, piece.push(line@))
                =~= finished.push(piece.push(line@)));
            assert(parts(current@) == piece.push(line@));
            assert(section_views(done@) == finished);
            assert(sections(all.take(i + 1), marker@) == section_views(done@).push(parts(current@)));
        } else {
            front.push(line);
        }
    }
    assert(all.take(all.len() as int) =~= all);
    if opened {
        let ghost finished = section_views(done@);
        let ghost piece = parts(current@);
        done.push(current);
        assert(section_views(done@) =~= finished.push(piece));
    } else {
        assert(section_views(done@) =~= Seq::<Seq<Seq<char>>>::empty());
    }
    (front, done)
}

// ── inside a hunk ───────────────────────────────────────────────────

/// Whether the line after `line` stands in a hunk, where `before` tells it of
/// `line` itself. A section has a hunk from its first hunk line on.
pub open spec fn hunk_goes_on(before: bool, line: Seq<char>) -> bool {
    !"diff --git "@.is_prefix_of(line) && (before || "@@ "@.is_prefix_of(line))
}

/// Whether a line behind these lines stands in a hunk.
pub open spec fn in_hunk(lines: Seq<Seq<char>>) -> bool
    decreases lines.len(),
{
    if lines.len() == 0 {
        false
    } else {
        hunk_goes_on(in_hunk(lines.drop_last()), lines.last())
    }
}

/// Whether the line after `line` stands in a hunk.
pub fn keeps_hunk(before: bool, line: &[char]) -> (r: bool)
    ensures
        r == hunk_goes_on(before, line@),
{
    !starts_with(line, "diff --git ") && (before || starts_with(line, "@@ "))
}

// ── paths ───────────────────────────────────────────────────────────

/// `token` without the `b/` or `a/` that git puts before a path.
pub open spec fn without_side(token: Seq<char>) -> Seq<char> {
    match prefix_stripped(token, "b/"@) {
        Some(rest) => rest,
        None => match prefix_stripped(token, "a/"@) {
            Some(rest) => rest,
            None => token,
        },
    }
}

/// What stands behind `marker` in the last of the lines that begin with it.
pub open spec fn last_marked(lines: Seq<Seq<char>>, marker: Seq<char>) -> Option<Seq<char>>
    decreases lines.len(),
{
    if lines.len() == 0 {
        None
    } else {
        match prefix_stripped(lines.last(), marker) {
            Some(rest) => Some(rest),
            None => last_marked(lines.drop_last(), marker),
        }
    }
}

/// What stands behind `marker` in the first of the lines that begin with it.
pub open spec fn first_marked(lines: Seq<Seq<char>>, marker: Seq<char>) -> Option<Seq<char>>
    decreases lines.len(),
{
    if lines.len() == 0 {
        None
    } else {
        match first_marked(lines.drop_last(), marker) {
            Some(rest) => Some(rest),
            None => prefix_stripped(lines.last(), marker),
        }
    }
}

/// The first word of a path line, or the line where it has no word.
pub open spec fn path_token(line: Seq<char>) -> Seq<char> {
    let ws = words_of(line);
    if ws.len() > 0 {
        ws[0]
    } else {
        line
    }
}

/// The path that a `---` or `+++` line names, where it names one.
pub open spec fn named_path(line: Option<Seq<char>>) -> Option<Seq<char>> {
    match line {
        Some(rest) => if path_token(rest) == "/dev/null"@ {
            None
        } else {
            Some(without_side(path_token(rest)))
        },
        None => None,
    }
}

/// The old side of a file section: its `---` line. A section that has a `+++`
/// line alone names it in its `diff --git` line.
pub open spec fn old_side(header: Seq<Seq<char>>) -> Option<Seq<char>> {
    match last_marked(header, "--- "@) {
        Some(rest) => Some(rest),
        None => if last_marked(header, "+++ "@) is Some {
            first_marked(header, "diff --git "@)
        } else {
            None
        },
    }
}

/// The path that the first line of a section names: what stands behind its last
/// ` b/`. A line without one names its first word.
pub open spec fn git_path(header: Seq<Seq<char>>) -> Seq<char> {
    let side = if header.len() > 0 {
        behind_last(header[0], " b/"@)
    } else {
        None
    };
    match side {
        Some(path) => path,
        None => match named_path(first_marked(header, "diff --git "@)) {
            Some(path) => path,
            None => Seq::empty(),
        },
    }
}

/// The path of a file section: that of the new side; that of the old side
/// where there is no new one; and that of the first line where neither side
/// names one, as in a mere rename or a change of the mode alone.
pub open spec fn path_of(header: Seq<Seq<char>>) -> Seq<char> {
    match named_path(last_marked(header, "+++ "@)) {
        Some(path) => path,
        None => match named_path(old_side(header)) {
            Some(path) => path,
            None => git_path(header),
        },
    }
}

fn strip_a_or_b_prefix(token: &[char]) -> (r: &[char])
    ensures
        r@ == without_side(token@),
{
    match strip_prefix(token, "b/") {
        Some(rest) => rest,
        None => match strip_prefix(token, "a/") {
            Some(rest) => rest,
            None => token,
        },
    }
}

fn path_on(line: Option<&[char]>) -> (r: Option<&[char]>)
    ensures
        part(r) == named_path(part(line)),
{
    match line {
        Some(rest) => {
            let ws = words(rest);
            assert(parts(ws@).len() == ws@.len());
            let token: &[char] = if ws.len() > 0 {
                assert(parts(ws@)[0] == ws@[0]@);
                ws[0]
            } else {
                rest
            };
            if is_text(token, "/dev/null") {
                None
            } else {
                Some(strip_a_or_b_prefix(token))
            }
        },
        None => None,
    }
}

/// The path of a file section.
fn extract_path(header: &[&[char]]) -> (r: String)
    ensures
        r@ == path_of(parts(header@)),
{
    let mut plus: Option<&[char]> = None;
    let mut minus: Option<&[char]> = None;
    let mut git: Option<&[char]> = None;
    let ghost all = parts(header@);
    for i in 0..header.len()
        invariant
            all == parts(header@),
            part(plus) == last_marked(all.take(i as int), "+++ "@),
            part(minus) == last_marked(all.take(i as int), "--- "@),
            part(git) == first_marked(all.take(i as int), "diff --git "@),
    {
        let line = header[i];
        assert(all.take(i + 1).drop_last() =~= all.take(i as int));
        assert(all.take(i + 1).last() == line@);
        if let Some(rest) = strip_prefix(line, "+++ ") {
            plus = Some(rest);
        }
        if let Some(rest) = strip_prefix(line, "--- ") {
            minus = Some(rest);
        }
        if git.is_none() {
            git = strip_prefix(line, "diff --git ");
        }
    }
    assert(all.take(all.len() as int) =~= all);
    if let Some(path) = path_on(plus) {
        return text_of(path);
    }
    let old_line: Option<&[char]> = if minus.is_some() {
        minus
    } else if plus.is_some() {
        git
    } else {
        None
    };
    if let Some(path) = path_on(old_line) {
        return text_of(path);
    }
    if header.len() > 0 {
        assert(all[0] == header@[0]@);
        if let Some(side) = after_last(header[0], " b/") {
            return text_of(side);
        }
    }
    match path_on(git) {
        Some(path) => text_of(path),
        None => {
            let none = String::new();
            assert(none@ =~= Seq::empty());
            none
        },
    }
}

// ── records ─────────────────────────────────────────────────────────

/// Whether a header line shows that the file can only be committed whole.
pub open spec fn marks_atomic(line: Seq<char>) -> bool {
    ||| occurs(line, "GIT binary patch"@)
    ||| occurs(line, "Binary files"@)
    ||| "new file mode"@.is_prefix_of(line)
    ||| "deleted file mode"@.is_prefix_of(line)
    ||| "rename "@.is_prefix_of(line)
    ||| "copy "@.is_prefix_of(line)
}

/// The hunk that a section of lines holds.
pub open spec fn hunk_of(section: Seq<Seq<char>>) -> HunkView {
    HunkView { header: section[0], body: section.skip(1) }
}

/// The record of a file section.
pub open spec fn file_of(section: Seq<Seq<char>>) -> FileView {
    let header = preamble(section, "@@ "@);
    let hunks = sections(section, "@@ "@).map_values(|s: Seq<Seq<char>>| hunk_of(s));
    FileView {
        path: path_of(header),
        header,
        hunks,
        atomic: hunks.len() == 0 || exists|i: int|
            0 <= i < header.len() && marks_atomic(#[trigger] header[i]),
    }
}

/// The records of a diff.
pub open spec fn parsed(diff: Seq<char>) -> Seq<FileView> {
    sections(lines_of(diff), "diff --git "@).map_values(|s: Seq<Seq<char>>| file_of(s))
}

fn shows_atomic(line: &[char]) -> (r: bool)
    ensures
        r == marks_atomic(line@),
{
    contains(line, "GIT binary patch") || contains(line, "Binary files") || starts_with(
        line,
        "new file mode",
    ) || starts_with(line, "deleted file mode") || starts_with(line, "rename ") || starts_with(
        line,
        "copy ",
    )
}

fn make_hunk(section: &[&[char]]) -> (r: Hunk)
    requires
        section@.len() >= 1,
    ensures
        r@ == hunk_of(parts(section@)),
{
    let header = text_of(section[0]);
    let body_lines = texts_of(&section[1..section.len()]);
    let hunk = Hunk { header, body_lines };
    assert(texts(body_lines@) =~= parts(section@).skip(1));
    hunk
}

/// Make the record of a file section.
fn finalize(section: &[&[char]]) -> (r: FileDiff)
    ensures
        r@ == file_of(parts(section@)),
{
    let (header_lines, pieces) = cut(section, "@@ ");
    let ghost expected = sections(parts(section@), "@@ "@).map_values(
        |s: Seq<Seq<char>>| hunk_of(s),
    );
    proof {
        lemma_sections_keep_every_line(parts(section@), "@@ "@);
    }
    let mut hunks: Vec<Hunk> = Vec::new();
    for i in 0..pieces.len()
        invariant
            section_views(pieces@) == sections(parts(section@), "@@ "@),
            forall|j: int|
                0 <= j < sections(parts(section@), "@@ "@).len() ==> (#[trigger] sections(
                    parts(section@),
                    "@@ "@,
                )[j]).len() >= 1,
            expected == sections(parts(section@), "@@ "@).map_values(
                |s: Seq<Seq<char>>| hunk_of(s),
            ),
            hunk_views(hunks@) == expected.take(i as int),
    {
        let piece = &pieces[i];
        assert(section_views(pieces@)[i as int] == parts(piece@));
        assert(sections(parts(section@), "@@ "@)[i as int].len() >= 1);
        let ghost before = hunks@;
        let hunk = make_hunk(piece.as_slice());
        hunks.push(hunk);
        assert(hunk_views(hunks@) =~= hunk_views(before).push(hunk@));
        assert(expected.take(i + 1) =~= expected.take(i as int).push(expected[i as int]));
    }
    assert(expected.take(expected.len() as int) =~= expected);
    let mut atomic = hunks.len() == 0;
    let ghost header = parts(header_lines@);
    for i in 0..header_lines.len()
        invariant
            header == parts(header_lines@),
            hunk_views(hunks@) == expected,
            atomic == (expected.len() == 0 || exists|j: int|
                0 <= j < i && marks_atomic(#[trigger] header[j])),
    {
        assert(header[i as int] == header_lines@[i as int]@);
        if shows_atomic(header_lines[i]) {
            atomic = true;
        }
    }
    FileDiff {
        path: extract_path(header_lines.as_slice()),
        header: texts_of(header_lines.as_slice()),
        hunks,
        atomic,
    }
}

/// Parse a unified diff into per-file records.
///
/// Lines before the first `diff --git` line belong to no record. A record ends
/// at the next such line, and a hunk body at the next hunk or with its record,
/// so that a `\ No newline at end of file` marker stays in the body before it.
pub fn parse(diff: &str) -> (r: Vec<FileDiff>)
    ensures
        file_views(r@) == parsed(diff@),
{
    let cs = chars_of(diff);
    let all = lines(cs.as_slice());
    let (_front, pieces) = cut(all.as_slice(), "diff --git ");
    let ghost expected = parsed(diff@);
    let mut files: Vec<FileDiff> = Vec::new();
    for i in 0..pieces.len()
        invariant
            section_views(pieces@) == sections(lines_of(diff@), "diff --git "@),
            expected == parsed(diff@),
            file_views(files@) == expected.take(i as int),
    {
        assert(section_views(pieces@)[i as int] == parts(pieces@[i as int]@));
        let ghost before = files@;
        let file = finalize(pieces[i].as_slice());
        files.push(file);
        assert(file_views(files@) =~= file_views(before).push(file@));
        assert(expected.take(i + 1) =~= expected.take(i as int).push(expected[i as int]));
    }
    assert(expected.take(expected.len() as int) =~= expected);
    files
}

// ── no line is lost ─────────────────────────────────────────────────

/// The lines of a hunk.
pub open spec fn hunk_lines(hunk: HunkView) -> Seq<Seq<char>> {
    seq![hunk.header] + hunk.body
}

/// The lines of the hunks, one hunk after the other.
pub open spec fn all_hunk_lines(hunks: Seq<HunkView>) -> Seq<Seq<char>> {
    hunks.map_values(|h: HunkView| hunk_lines(h)).flatten()
}

/// The lines of a file record.
pub open spec fn file_lines(file: FileView) -> Seq<Seq<char>> {
    file.header + all_hunk_lines(file.hunks)
}

/// A record holds every line of its section, in the order of the section.
pub proof fn lemma_record_keeps_every_line(section: Seq<Seq<char>>)
    ensures
        file_lines(file_of(section)) == section,
{
    lemma_sections_keep_every_line(section, "@@ "@);
    let pieces = sections(section, "@@ "@);
    let hunks = file_of(section).hunks;
    assert forall|i: int| 0 <= i < pieces.len() implies hunk_lines(#[trigger] hunks[i])
        == pieces[i] by {
        assert(pieces[i].len() >= 1);
        assert(seq![pieces[i][0]] + pieces[i].skip(1) =~= pieces[i]);
    }
    assert(hunks.map_values(|h: HunkView| hunk_lines(h)) =~= pieces);
}

/// Parsing loses no line of a diff and moves none: the lines before the first
/// file section and the lines of the records are the lines of the diff.
pub proof fn lemma_parse_keeps_every_line(diff: Seq<char>)
    ensures
        preamble(lines_of(diff), "diff --git "@) + parsed(diff).map_values(
            |f: FileView| file_lines(f),
        ).flatten() == lines_of(diff),
{
    let all = lines_of(diff);
    lemma_sections_keep_every_line(all, "diff --git "@);
    let pieces = sections(all, "diff --git "@);
    let back = parsed(diff).map_values(|f: FileView| file_lines(f));
    assert forall|i: int| 0 <= i < pieces.len() implies #[trigger] back[i] == pieces[i] by {
        lemma_record_keeps_every_line(pieces[i]);
    }
    assert(back =~= pieces);
}

// ── patches ─────────────────────────────────────────────────────────

/// The first record with this path.
pub open spec fn first_with_path(files: Seq<FileView>, path: Seq<char>) -> Option<FileView>
    decreases files.len(),
{
    if files.len() == 0 {
        None
    } else if files[0].path == path {
        Some(files[0])
    } else {
        first_with_path(files.drop_first(), path)
    }
}

/// The lines of the hunks that `ids` names, counted from one, in the order of
/// `ids`.
pub open spec fn selected_lines(hunks: Seq<HunkView>, ids: Seq<usize>) -> Seq<Seq<char>>
    decreases ids.len(),
{
    if ids.len() == 0 {
        Seq::empty()
    } else {
        selected_lines(hunks, ids.drop_last()) + hunk_lines(hunks[ids.last() - 1])
    }
}

/// Every number names one of `n` hunks.
pub open spec fn ids_within(ids: Seq<usize>, n: nat) -> bool {
    forall|i: int| 0 <= i < ids.len() ==> 1 <= #[trigger] ids[i] <= n
}

/// The patch that applies only the claimed hunks of one file. It is empty where
/// the path has no record or a number names no hunk.
pub open spec fn patch_of(files: Seq<FileView>, path: Seq<char>, ids: Seq<usize>) -> Seq<char> {
    match first_with_path(files, path) {
        Some(file) => if ids_within(ids, file.hunks.len()) {
            with_newlines(file.header + selected_lines(file.hunks, ids))
        } else {
            Seq::empty()
        },
        None => Seq::empty(),
    }
}

fn all_within(ids: &[usize], n: usize) -> (r: bool)
    ensures
        r == ids_within(ids@, n as nat),
{
    for i in 0..ids.len()
        invariant
            forall|j: int| 0 <= j < i ==> 1 <= #[trigger] ids@[j] <= n,
    {
        if ids[i] == 0 || ids[i] > n {
            return false;
        }
    }
    true
}

/// Build the patch that applies only the claimed hunks of `claim.0`.
///
/// A path without a record, or a number that names no hunk, gives an empty
/// patch.
pub fn build_patch(files: &[FileDiff], claim: &(String, Vec<usize>)) -> (r: String)
    ensures
        r@ == patch_of(file_views(files@), claim.0@, claim.1@),
{
    let mut k: usize = 0;
    assert(file_views(files@).skip(0) =~= file_views(files@));
    while k < files.len() && !same_text(files[k].path.as_str(), claim.0.as_str())
        invariant
            k <= files@.len(),
            first_with_path(file_views(files@), claim.0@) == first_with_path(
                file_views(files@).skip(k as int),
                claim.0@,
            ),
        decreases files@.len() - k,
    {
        assert(file_views(files@).skip(k as int)[0] == files@[k as int]@);
        assert(file_views(files@).skip(k as int).drop_first() =~= file_views(files@).skip(k + 1));
        k += 1;
    }
    if k == files.len() {
        assert(file_views(files@).skip(k as int) =~= Seq::empty());
        return String::new();
    }
    assert(file_views(files@).skip(k as int)[0] == files@[k as int]@);
    let file = &files[k];
    let ghost hunks = file@.hunks;
    let ids = &claim.1;
    assert(hunks.len() == file.hunks@.len());
    if !all_within(ids.as_slice(), file.hunks.len()) {
        return String::new();
    }
    let mut out = String::new();
    push_lines(&mut out, file.header.as_slice());
    let ghost mut emitted = file@.header;
    assert(out@ =~= with_newlines(emitted));
    assert(emitted =~= file@.header + selected_lines(hunks, ids@.take(0)));
    for i in 0..ids.len()
        invariant
            ids@ == claim.1@,
            ids_within(ids@, hunks.len()),
            hunks == file@.hunks,
            hunks == hunk_views(file.hunks@),
            emitted == file@.header + selected_lines(hunks, ids@.take(i as int)),
            out@ == with_newlines(emitted),
    {
        let id = ids[i];
        assert(ids@.take(i + 1).drop_last() =~= ids@.take(i as int));
        assert(1 <= ids@[i as int] <= hunks.len());
        let hunk = &file.hunks[id - 1];
        assert(hunks[id - 1] == hunk@);
        out.append(hunk.header.as_str());
        out.push('\n');
        push_lines(&mut out, hunk.body_lines.as_slice());
        proof {
            let before = emitted;
            crate::pieces::lemma_with_newlines_push(before, hunk.header@);
            crate::pieces::lemma_with_newlines_add(before.push(hunk.header@), hunk@.body);
            emitted = before + hunk_lines(hunk@);
            assert(emitted =~= before.push(hunk.header@) + hunk@.body);
            assert(out@ =~= with_newlines(emitted));
            assert(emitted =~= file@.header + selected_lines(hunks, ids@.take(i + 1)));
        }
    }
    assert(ids@.take(ids@.len() as int) =~= ids@);
    out
}

/// The numbers of all hunks in their order.
pub open spec fn every_id(n: nat) -> Seq<usize> {
    Seq::new(n, |i: int| (i + 1) as usize)
}

proof fn lemma_select_every_hunk(hunks: Seq<HunkView>, n: nat)
    requires
        n <= hunks.len(),
        hunks.len() <= usize::MAX,
    ensures
        selected_lines(hunks, every_id(n)) == all_hunk_lines(hunks.take(n as int)),
    decreases n,
{
    let lines = |h: HunkView| hunk_lines(h);
    if n == 0 {
        assert(hunks.take(0).map_values(lines) =~= Seq::empty());
    } else {
        lemma_select_every_hunk(hunks, (n - 1) as nat);
        assert(every_id(n).drop_last() =~= every_id((n - 1) as nat));
        let front = hunks.take(n - 1);
        assert(hunks.take(n as int).map_values(lines) =~= front.map_values(lines).push(
            hunk_lines(hunks[n - 1]),
        ));
        front.map_values(lines).lemma_flatten_push(hunk_lines(hunks[n - 1]));
    }
}

/// A patch of all hunks of a file is the section of that file as it stood in
/// the diff, each line with a line feed behind it.
pub proof fn lemma_patch_of_all_hunks_is_the_section(
    diff: Seq<char>,
    path: Seq<char>,
    section: Seq<Seq<char>>,
)
    requires
        first_with_path(parsed(diff), path) == Some(file_of(section)),
        file_of(section).hunks.len() <= usize::MAX,
    ensures
        patch_of(parsed(diff), path, every_id(file_of(section).hunks.len())) == with_newlines(
            section,
        ),
{
    let hunks = file_of(section).hunks;
    lemma_select_every_hunk(hunks, hunks.len());
    assert(ids_within(every_id(hunks.len()), hunks.len()));
    assert(hunks.take(hunks.len() as int) =~= hunks);
    lemma_record_keeps_every_line(section);
}

} // verus!
