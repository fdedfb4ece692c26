//! Grouping of changed files, by a model or by directory.

use vstd::prelude::*;

use crate::engine::coverage::{
    lemma_contains_push, lemma_no_duplicates_push, lemma_times_add, lemma_times_push, times,
};
use crate::number::{count, decimal_of};
use crate::order::{
    by_text, increasing, lemma_by_text_is_strict_order, lemma_sorted_set, sorted_names,
    sorted_texts,
};
use crate::pieces::{first_of_split, head_piece};
use crate::text::{
    chars_of, lemma_texts_push, prefix_stripped, same_chars, strip_prefix, strip_suffix,
    suffix_stripped, text, text_of, texts, trim, trimmed,
};

verus! {

/// A commit that is proposed.
#[derive(Debug, Clone, PartialEq, Eq)]
pub struct ProposedCommit {
    pub message: String,
    pub files: Vec<String>,
    pub reasoning: String,
    /// What speaks against the commit, where something does.
    pub bundling_warning: Option<String>,
}

/// Proposed commits.
#[derive(Debug, Clone, PartialEq, Eq)]
pub struct GroupingResult {
    pub commits: Vec<ProposedCommit>,
    pub summary: String,
}

/// A proposed commit as texts.
pub struct ProposedView {
    pub message: Seq<char>,
    pub files: Seq<Seq<char>>,
    pub reasoning: Seq<char>,
    pub bundling_warning: Option<Seq<char>>,
}

/// Proposed commits as texts.
pub struct GroupingView {
    pub commits: Seq<ProposedView>,
    pub summary: Seq<char>,
}

impl View for ProposedCommit {
    type V = ProposedView;

    open spec fn view(&self) -> ProposedView {
        ProposedView {
            message: self.message@,
            files: texts(self.files@),
            reasoning: self.reasoning@,
            bundling_warning: text(self.bundling_warning),
        }
    }
}

/// The proposed commits as texts.
pub open spec fn proposed_views(commits: Seq<ProposedCommit>) -> Seq<ProposedView> {
    commits.map_values(|c: ProposedCommit| c@)
}

impl View for GroupingResult {
    type V = GroupingView;

    open spec fn view(&self) -> GroupingView {
        GroupingView { commits: proposed_views(self.commits@), summary: self.summary@ }
    }
}

// ── by a model ──────────────────────────────────────────────────────

/// What stands before the diff in the question to a model.
pub const PROMPT_HEAD: &'static str =
    "You are Commitor, a tool that catches unrelated changes before they get buried in a commit.\n\nGiven the following diff, group the changed files into logical, atomic commits. Each commit should contain only files that belong together conceptually.\n\nFor each commit:\n- Write a Conventional Commits-style message (e.g. \"feat: add user login endpoint\", \"fix: resolve null pointer in parser\")\n- List the files that belong in that commit\n- Provide brief reasoning for why these files are grouped together\n- If you notice unrelated changes that appear bundled together and cannot be cleanly separated, set `bundling_warning` to a description of the concern. Otherwise set it to null.\n\nDiffs:\n";

/// What stands behind the diff in the question to a model.
pub const PROMPT_TAIL: &'static str =
    "\n\nRespond with **only** valid JSON — no preamble, no markdown fences. The JSON must match this exact structure:\n\n{\n  \"commits\": [\n    {\n      \"message\": \"type(scope): description\",\n      \"files\": [\"file/path.ext\"],\n      \"reasoning\": \"why these files belong together\",\n      \"bundling_warning\": null\n    }\n  ],\n  \"summary\": \"One-line overview of what this diff accomplishes\"\n}";

/// Ask a model to group a diff into commits.
pub fn build_commit_prompt(diff_text: &str) -> (r: String)
    ensures
        r@ == PROMPT_HEAD@ + diff_text@ + PROMPT_TAIL@,
{
    let mut out = PROMPT_HEAD.to_owned();
    out.append(diff_text);
    out.append(PROMPT_TAIL);
    out
}

/// The text without a prefix, where it begins with it.
pub open spec fn past(s: Seq<char>, prefix: Seq<char>) -> Seq<char> {
    match prefix_stripped(s, prefix) {
        Some(rest) => rest,
        None => s,
    }
}

/// A text without the fences of a code block around it.
pub open spec fn unfenced(s: Seq<char>) -> Seq<char> {
    let inner = past(past(s, "```json"@), "```"@);
    trimmed(
        match suffix_stripped(inner, "```"@) {
            Some(rest) => rest,
            None => inner,
        },
    )
}

/// The JSON in the answer of a model.
pub open spec fn answer_json(raw: Seq<char>) -> Seq<char> {
    unfenced(trimmed(raw))
}

fn strip_code_fences(s: &[char]) -> (r: &[char])
    ensures
        r@ == unfenced(s@),
{
    let s1: &[char] = match strip_prefix(s, "```json") {
        Some(rest) => rest,
        None => s,
    };
    let s2: &[char] = match strip_prefix(s1, "```") {
        Some(rest) => rest,
        None => s1,
    };
    let s3: &[char] = match strip_suffix(s2, "```") {
        Some(rest) => rest,
        None => s2,
    };
    trim(s3)
}

/// Take the JSON out of the answer of a model, which may stand in a code block.
pub fn model_json(raw: &str) -> (r: String)
    ensures
        r@ == answer_json(raw@),
{
    let chars = chars_of(raw);
    text_of(strip_code_fences(trim(chars.as_slice())))
}

/// What is said of an answer that is no JSON of the right shape.
pub fn unreadable_answer(raw: &str, why: &str) -> (r: String)
    ensures
        r@ == "failed to parse JSON from model response:\n"@ + trimmed(raw@) + ": "@ + why@,
{
    let chars = chars_of(raw);
    let mut out = "failed to parse JSON from model response:\n".to_owned();
    out.append(text_of(trim(chars.as_slice())).as_str());
    out.append(": ");
    out.append(why);
    out
}

// ── by directory ────────────────────────────────────────────────────

/// Holds of the paths under a directory.
pub open spec fn under(dir: Seq<char>) -> spec_fn(Seq<char>) -> bool {
    |path: Seq<char>| head_piece(path, '/') == dir
}

/// The paths under a directory.
pub open spec fn files_under(files: Seq<Seq<char>>, dir: Seq<char>) -> Seq<Seq<char>> {
    files.filter(under(dir))
}

/// The first segment of each path.
pub open spec fn first_segments(files: Seq<Seq<char>>) -> Seq<Seq<char>> {
    files.map_values(|path: Seq<char>| head_piece(path, '/'))
}

/// The commit for a directory.
pub open spec fn directory_commit(files: Seq<Seq<char>>, dir: Seq<char>) -> ProposedView {
    ProposedView {
        message: "chore: update "@ + decimal_of(files_under(files, dir).len()) + " file(s) in "@
            + dir,
        files: files_under(files, dir),
        reasoning: "all files under the "@ + dir + " directory"@,
        bundling_warning: None,
    }
}

/// The commits for some directories.
pub open spec fn directory_commits(files: Seq<Seq<char>>, dirs: Seq<Seq<char>>) -> Seq<
    ProposedView,
> {
    dirs.map_values(|dir: Seq<char>| directory_commit(files, dir))
}

/// One commit for each first segment of a path, in order.
pub open spec fn local_grouping(files: Seq<Seq<char>>) -> GroupingView {
    GroupingView {
        commits: directory_commits(files, sorted_texts(first_segments(files))),
        summary: "locally grouped "@ + decimal_of(files.len())
            + " file(s) by top-level directory"@,
    }
}

fn pick_under(files: &[String], dir: &str) -> (r: Vec<String>)
    ensures
        texts(r@) == files_under(texts(files@), dir@),
{
    broadcast use lemma_texts_push;

    let ghost all = texts(files@);
    let name = chars_of(dir);
    let mut out: Vec<String> = Vec::new();
    assert(all.take(0) =~= Seq::empty());
    assert(texts(out@) =~= files_under(all.take(0), dir@)) by {
        reveal(Seq::filter);
    }
    for i in 0..files.len()
        invariant
            all == texts(files@),
            name@ == dir@,
            texts(out@) == files_under(all.take(i as int), dir@),
    {
        proof {
            assert(all.take(i + 1) =~= all.take(i as int).push(files@[i as int]@));
            all.take(i as int).lemma_filter_push(files@[i as int]@, under(dir@));
        }
        let chars = chars_of(files[i].as_str());
        if same_chars(first_of_split(chars.as_slice(), '/'), name.as_slice()) {
            out.push(files[i].clone());
        }
    }
    assert(all.take(all.len() as int) =~= all);
    out
}

fn commit_for(files: &[String], dir: &str) -> (r: ProposedCommit)
    ensures
        r@ == directory_commit(texts(files@), dir@),
{
    let chosen = pick_under(files, dir);
    assert(texts(chosen@).len() == chosen@.len());
    let mut message = "chore: update ".to_owned();
    message.append(count(chosen.len()).as_str());
    message.append(" file(s) in ");
    message.append(dir);
    let mut reasoning = "all files under the ".to_owned();
    reasoning.append(dir);
    reasoning.append(" directory");
    ProposedCommit { message, files: chosen, reasoning, bundling_warning: None }
}

/// Group files by the first segment of their paths.
pub fn group_files_locally(changed_files: &[String]) -> (r: GroupingResult)
    ensures
        r@ == local_grouping(texts(changed_files@)),
{
    broadcast use lemma_texts_push;

    let ghost all = texts(changed_files@);
    let mut found: Vec<String> = Vec::new();
    assert(texts(found@) =~= first_segments(all).take(0));
    for i in 0..changed_files.len()
        invariant
            all == texts(changed_files@),
            texts(found@) == first_segments(all).take(i as int),
    {
        let chars = chars_of(changed_files[i].as_str());
        found.push(text_of(first_of_split(chars.as_slice(), '/')));
        assert(first_segments(all).take(i + 1) =~= first_segments(all).take(i as int).push(
            head_piece(changed_files@[i as int]@, '/'),
        ));
    }
    assert(first_segments(all).take(all.len() as int) =~= first_segments(all));
    let dirs = sorted_names(found);
    let ghost order = texts(dirs@);
    let mut commits: Vec<ProposedCommit> = Vec::new();
    assert(proposed_views(commits@) =~= directory_commits(all, order.take(0)));
    for i in 0..dirs.len()
        invariant
            all == texts(changed_files@),
            order == texts(dirs@),
            proposed_views(commits@) == directory_commits(all, order.take(i as int)),
    {
        let commit = commit_for(changed_files, dirs[i].as_str());
        let ghost before = proposed_views(commits@);
        commits.push(commit);
        assert(proposed_views(commits@) =~= before.push(commit@));
        assert(directory_commits(all, order.take(i + 1)) =~= directory_commits(
            all,
            order.take(i as int),
        ).push(directory_commit(all, order[i as int])));
    }
    assert(order.take(order.len() as int) =~= order);
    let mut summary = "locally grouped ".to_owned();
    summary.append(count(changed_files.len()).as_str());
    summary.append(" file(s) by top-level directory");
    GroupingResult { commits, summary }
}

// ── laws ────────────────────────────────────────────────────────────

/// The files of all commits, in order.
pub open spec fn grouped_files(commits: Seq<ProposedView>) -> Seq<Seq<char>>
    decreases commits.len(),
{
    if commits.len() == 0 {
        Seq::empty()
    } else {
        grouped_files(commits.drop_last()) + commits.last().files
    }
}

proof fn lemma_one_more_file(
    files: Seq<Seq<char>>,
    f: Seq<char>,
    dirs: Seq<Seq<char>>,
    p: Seq<char>,
)
    requires
        dirs.no_duplicates(),
    ensures
        times(grouped_files(directory_commits(files.push(f), dirs)), p) == times(
            grouped_files(directory_commits(files, dirs)),
            p,
        ) + if dirs.contains(head_piece(f, '/')) && f == p {
            1nat
        } else {
            0nat
        },
    decreases dirs.len(),
{
    let more = files.push(f);
    if dirs.len() > 0 {
        let front = dirs.drop_last();
        let d = dirs.last();
        assert(dirs =~= front.push(d));
        lemma_no_duplicates_push(front, d);
        lemma_contains_push(front, d, head_piece(f, '/'));
        lemma_one_more_file(files, f, front, p);
        assert(directory_commits(files, dirs).drop_last() =~= directory_commits(files, front));
        assert(directory_commits(more, dirs).drop_last() =~= directory_commits(more, front));
        let old_files = files_under(files, d);
        let new_files = files_under(more, d);
        assert(directory_commits(files, dirs).last().files == old_files);
        assert(directory_commits(more, dirs).last().files == new_files);
        lemma_times_add(grouped_files(directory_commits(files, front)), old_files, p);
        lemma_times_add(grouped_files(directory_commits(more, front)), new_files, p);
        files.lemma_filter_push(f, under(d));
        if head_piece(f, '/') == d {
            lemma_times_push(old_files, f, p);
        }
    } else {
        assert(directory_commits(more, dirs) =~= directory_commits(files, dirs));
    }
}

proof fn lemma_directories_keep_files(
    files: Seq<Seq<char>>,
    dirs: Seq<Seq<char>>,
    p: Seq<char>,
)
    requires
        dirs.no_duplicates(),
        forall|i: int| 0 <= i < files.len() ==> dirs.contains(head_piece(#[trigger] files[i], '/')),
    ensures
        times(grouped_files(directory_commits(files, dirs)), p) == times(files, p),
    decreases files.len(),
{
    if files.len() == 0 {
        lemma_no_files(files, dirs, p);
    } else {
        let front = files.drop_last();
        let f = files.last();
        assert(files =~= front.push(f));
        assert forall|i: int| 0 <= i < front.len() implies dirs.contains(
            head_piece(#[trigger] front[i], '/'),
        ) by {
            assert(front[i] == files[i]);
        }
        assert(files[files.len() - 1] == f);
        lemma_directories_keep_files(front, dirs, p);
        lemma_one_more_file(front, f, dirs, p);
        lemma_times_push(front, f, p);
    }
}

proof fn lemma_no_files(files: Seq<Seq<char>>, dirs: Seq<Seq<char>>, p: Seq<char>)
    requires
        files.len() == 0,
    ensures
        times(grouped_files(directory_commits(files, dirs)), p) == 0,
    decreases dirs.len(),
{
    if dirs.len() > 0 {
        let front = dirs.drop_last();
        lemma_no_files(files, front, p);
        assert(directory_commits(files, dirs).drop_last() =~= directory_commits(files, front));
        let last = directory_commits(files, dirs).last().files;
        assert(last.len() == 0) by {
            reveal(Seq::filter);
        }
        lemma_times_add(grouped_files(directory_commits(files, front)), last, p);
    }
}

/// Grouping by directory keeps every file, in one commit.
pub proof fn lemma_every_file_is_grouped_once(files: Seq<Seq<char>>, path: Seq<char>)
    ensures
        times(grouped_files(local_grouping(files).commits), path) == times(files, path),
        increasing(sorted_texts(first_segments(files)), by_text()),
{
    lemma_by_text_is_strict_order();
    let all = first_segments(files);
    lemma_sorted_set(all, by_text());
    assert forall|i: int| 0 <= i < files.len() implies sorted_texts(all).contains(
        head_piece(#[trigger] files[i], '/'),
    ) by {
        assert(all[i] == head_piece(files[i], '/'));
        assert(all.contains(all[i]));
    }
    lemma_directories_keep_files(files, sorted_texts(all), path);
}

} // verus!
