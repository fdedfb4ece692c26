//! Which diff is analyzed, and how untracked files become part of it.

use vstd::prelude::*;

use crate::analysis::{CollectedDiff, DiffView};
use crate::bytes::{lossy_text, text_from_bytes};
use crate::number::{count, decimal_of};
use crate::pieces::{lines, lines_of, push_lines, with_newlines};
use crate::text::{chars_of, lemma_texts_push, parts, text_of, texts};

verus! {

/// How many leading bytes of a file are looked at for a zero byte.
pub const BINARY_SNIFF_BYTES: usize = 8192;

// ── untracked files ─────────────────────────────────────────────────

/// There is a zero byte among the leading bytes.
pub open spec fn looks_binary(bytes: Seq<u8>) -> bool {
    exists|i: int| 0 <= i < bytes.len() && i < BINARY_SNIFF_BYTES && #[trigger] bytes[i] == 0
}

/// The lines, each marked as added.
pub open spec fn added_lines(content: Seq<Seq<char>>) -> Seq<Seq<char>> {
    content.map_values(|line: Seq<char>| "+"@ + line)
}

/// The lines that present a file as a new one.
pub open spec fn new_file_lines(path: Seq<char>) -> Seq<Seq<char>> {
    seq!["diff --git a/"@ + path + " b/"@ + path, "new file mode 100644"@]
}

/// The lines that present a new file of these lines: one hunk adds them all,
/// and there is no hunk where there is no line.
pub open spec fn text_section_lines(path: Seq<char>, content: Seq<Seq<char>>) -> Seq<Seq<char>> {
    let sides = new_file_lines(path).push("--- /dev/null"@).push("+++ b/"@ + path);
    if content.len() == 0 {
        sides
    } else {
        sides.push("@@ -0,0 +1,"@ + decimal_of(content.len()) + " @@"@) + added_lines(content)
    }
}

/// The lines that present an untracked file as a new one: a note for binary
/// content, and else the lines of its text.
pub open spec fn section_lines(path: Seq<char>, bytes: Seq<u8>) -> Seq<Seq<char>> {
    if looks_binary(bytes) {
        new_file_lines(path).push("Binary files /dev/null and b/"@ + path + " differ"@)
    } else {
        text_section_lines(path, lines_of(lossy_text(bytes)))
    }
}

/// The section of a patch that presents an untracked file as a new one.
pub open spec fn section_of(path: Seq<char>, bytes: Seq<u8>) -> Seq<char> {
    with_newlines(section_lines(path, bytes))
}

fn binary(bytes: &[u8]) -> (r: bool)
    ensures
        r == looks_binary(bytes@),
{
    let n: usize = if bytes.len() < BINARY_SNIFF_BYTES {
        bytes.len()
    } else {
        BINARY_SNIFF_BYTES
    };
    for i in 0..n
        invariant
            n <= bytes@.len(),
            n <= BINARY_SNIFF_BYTES,
            forall|j: int| 0 <= j < i ==> #[trigger] bytes@[j] != 0,
    {
        if bytes[i] == 0 {
            return true;
        }
    }
    false
}

fn new_file_header(path: &str) -> (r: Vec<String>)
    ensures
        texts(r@) == new_file_lines(path@),
{
    let mut first = "diff --git a/".to_owned();
    first.append(path);
    first.append(" b/");
    first.append(path);
    let mut out: Vec<String> = Vec::new();
    out.push(first);
    out.push("new file mode 100644".to_owned());
    assert(texts(out@) =~= new_file_lines(path@));
    out
}

fn put_together(lines: Vec<String>) -> (r: String)
    ensures
        r@ == with_newlines(texts(lines@)),
{
    let mut section = String::new();
    push_lines(&mut section, lines.as_slice());
    assert(section@ =~= with_newlines(texts(lines@)));
    section
}

/// Build a section of a patch that presents a text as a new file.
pub fn text_section(path: &str, content: &str) -> (r: String)
    ensures
        r@ == with_newlines(text_section_lines(path@, lines_of(content@))),
{
    broadcast use lemma_texts_push;

    let mut out = new_file_header(path);
    out.push("--- /dev/null".to_owned());
    let mut side = "+++ b/".to_owned();
    side.append(path);
    out.push(side);
    let chars = chars_of(content);
    let shown = lines(chars.as_slice());
    let ghost all = parts(shown@);
    if shown.len() > 0 {
        let mut hunk = "@@ -0,0 +1,".to_owned();
        hunk.append(count(shown.len()).as_str());
        hunk.append(" @@");
        out.push(hunk);
        let ghost front = texts(out@);
        assert(front + added_lines(all.take(0)) =~= front);
        for i in 0..shown.len()
            invariant
                all == parts(shown@),
                texts(out@) == front + added_lines(all.take(i as int)),
        {
            let mut line = "+".to_owned();
            line.append(text_of(shown[i]).as_str());
            let ghost before = texts(out@);
            assert(line@ == "+"@ + shown@[i as int]@);
            out.push(line);
            assert(texts(out@) == before.push("+"@ + shown@[i as int]@));
            assert(added_lines(all.take(i + 1)) =~= added_lines(all.take(i as int)).push(
                "+"@ + shown@[i as int]@,
            ));
            assert(texts(out@) =~= front + added_lines(all.take(i + 1)));
        }
        assert(all.take(all.len() as int) =~= all);
    }
    put_together(out)
}

/// Build a section of a patch that presents an untracked file as a new one.
pub fn synthesize_untracked_section(path: &str, bytes: &[u8]) -> (r: String)
    ensures
        r@ == section_of(path@, bytes@),
{
    broadcast use lemma_texts_push;

    if binary(bytes) {
        let mut out = new_file_header(path);
        let mut note = "Binary files /dev/null and b/".to_owned();
        note.append(path);
        note.append(" differ");
        out.push(note);
        put_together(out)
    } else {
        text_section(path, text_from_bytes(bytes).as_str())
    }
}

// ── collecting ──────────────────────────────────────────────────────

/// Changes to tracked files, staged or unstaged: the changed paths and the patch.
#[derive(Debug, Clone)]
pub struct WorkingChanges {
    pub files: Vec<String>,
    pub patch: String,
}

/// An untracked file, with its content or with why it cannot be read.
#[derive(Debug)]
pub struct UntrackedFile {
    pub path: String,
    pub content: Result<Vec<u8>, String>,
}

/// What a collection gives: the diff, whether unstaged changes stand in for
/// missing staged ones, and a warning for each file that was left out.
#[derive(Debug, Clone)]
pub struct Collection {
    pub diff: CollectedDiff,
    pub fell_back: bool,
    pub warnings: Vec<String>,
}

/// Unstaged changes are to be analyzed: they are asked for, or nothing is
/// staged.
pub open spec fn unstaged_wanted(all: bool, staged_files: Seq<Seq<char>>) -> bool {
    all || staged_files.len() == 0
}

/// Whether unstaged changes are to be analyzed.
pub fn wants_unstaged(all: bool, staged_files: &[String]) -> (r: bool)
    ensures
        r == unstaged_wanted(all, texts(staged_files@)),
{
    all || staged_files.len() == 0
}

/// The tracked part of the diff.
pub open spec fn tracked_diff(all: bool, staged: WorkingChanges, unstaged: WorkingChanges) -> DiffView {
    if !unstaged_wanted(all, texts(staged.files@)) {
        DiffView {
            staged_used: true,
            files: texts(staged.files@),
            patch: staged.patch@,
            untracked: Seq::empty(),
        }
    } else {
        DiffView {
            staged_used: false,
            files: texts(unstaged.files@),
            patch: if unstaged.files@.len() == 0 {
                Seq::empty()
            } else {
                unstaged.patch@
            },
            untracked: Seq::empty(),
        }
    }
}

/// The diff with the readable untracked files.
pub open spec fn with_untracked(diff: DiffView, untracked: Seq<UntrackedFile>) -> DiffView
    decreases untracked.len(),
{
    if untracked.len() == 0 {
        diff
    } else {
        let before = with_untracked(diff, untracked.drop_last());
        let file = untracked.last();
        match file.content {
            Ok(bytes) => DiffView {
                staged_used: before.staged_used,
                files: before.files.push(file.path@),
                patch: before.patch + section_of(file.path@, bytes@),
                untracked: before.untracked.push(file.path@),
            },
            Err(_) => before,
        }
    }
}

/// A warning for each file that cannot be read.
pub open spec fn unreadable_warnings(untracked: Seq<UntrackedFile>) -> Seq<Seq<char>>
    decreases untracked.len(),
{
    if untracked.len() == 0 {
        Seq::empty()
    } else {
        let before = unreadable_warnings(untracked.drop_last());
        let file = untracked.last();
        match file.content {
            Ok(_) => before,
            Err(why) => before.push(
                "warning: skipping unreadable file "@ + file.path@ + ": "@ + why@,
            ),
        }
    }
}

fn collect_tracked(all: bool, staged: WorkingChanges, unstaged: WorkingChanges) -> (r: CollectedDiff)
    ensures
        r@ == tracked_diff(all, staged, unstaged),
{
    let untracked: Vec<String> = Vec::new();
    assert(texts(untracked@) =~= Seq::empty());
    if !wants_unstaged(all, staged.files.as_slice()) {
        CollectedDiff { staged_used: true, files: staged.files, patch: staged.patch, untracked }
    } else {
        let patch = if unstaged.files.len() == 0 {
            String::new()
        } else {
            unstaged.patch
        };
        assert(unstaged.files@.len() == 0 ==> patch@ =~= Seq::empty());
        CollectedDiff { staged_used: false, files: unstaged.files, patch, untracked }
    }
}

/// The untracked files that belong to the diff.
pub open spec fn wanted_untracked(
    include_untracked: bool,
    untracked: Seq<UntrackedFile>,
) -> Seq<UntrackedFile> {
    if include_untracked {
        untracked
    } else {
        Seq::empty()
    }
}

/// Decide which diff to analyze, and add to it the untracked files that can be
/// read, where these are wanted. Staged changes are used unless `all` is set or there are none.
pub fn collect_diff(
    all: bool,
    include_untracked: bool,
    staged: WorkingChanges,
    unstaged: WorkingChanges,
    untracked: &[UntrackedFile],
) -> (r: Collection)
    ensures
        r.diff@ == with_untracked(
            tracked_diff(all, staged, unstaged),
            wanted_untracked(include_untracked, untracked@),
        ),
        r.fell_back == (!all && staged.files@.len() == 0),
        texts(r.warnings@) == unreadable_warnings(wanted_untracked(include_untracked, untracked@)),
{
    broadcast use lemma_texts_push;

    let fell_back = !all && staged.files.len() == 0;
    let ghost base = tracked_diff(all, staged, unstaged);
    let mut diff = collect_tracked(all, staged, unstaged);
    let mut warnings: Vec<String> = Vec::new();
    assert(untracked@.take(0) =~= Seq::empty());
    assert(texts(warnings@) =~= Seq::empty());
    let n: usize = if include_untracked {
        untracked.len()
    } else {
        0
    };
    for i in 0..n
        invariant
            n <= untracked@.len(),
            diff@ == with_untracked(base, untracked@.take(i as int)),
            texts(warnings@) == unreadable_warnings(untracked@.take(i as int)),
    {
        assert(untracked@.take(i + 1).drop_last() =~= untracked@.take(i as int));
        assert(untracked@.take(i + 1).last() == untracked@[i as int]);
        let path = &untracked[i].path;
        let ghost before = diff;
        match &untracked[i].content {
            Ok(bytes) => {
                let section = synthesize_untracked_section(path.as_str(), bytes.as_slice());
                diff.patch.append(section.as_str());
                diff.files.push(path.clone());
                diff.untracked.push(path.clone());
                assert(texts(diff.files@) =~= texts(before.files@).push(path@));
                assert(texts(diff.untracked@) =~= texts(before.untracked@).push(path@));
            },
            Err(why) => {
                let mut warning = "warning: skipping unreadable file ".to_owned();
                warning.append(path.as_str());
                warning.append(": ");
                warning.append(why.as_str());
                warnings.push(warning);
            },
        }
    }
    assert(untracked@.take(n as int) =~= wanted_untracked(include_untracked, untracked@));
    Collection { diff, fell_back, warnings }
}

} // verus!
