//! Calls of git: which arguments it gets, and what its output means.

use vstd::prelude::*;

use crate::bytes::{lossy_text, text_from_bytes};
use crate::pieces::{join, joined, lines, lines_of};
use crate::text::{
    chars_of, copy_texts, is_text, lemma_texts_push, parts, text, text_of, texts, trim, trimmed,
};

verus! {

/// A call of git.
#[derive(Debug, Clone)]
pub struct GitCommand {
    pub args: Vec<String>,
    /// What git reads, where it reads something.
    pub input: Option<String>,
}

/// What a call of git left behind.
#[derive(Debug, Clone)]
pub struct GitOutput {
    pub success: bool,
    pub stdout: Vec<u8>,
    pub stderr: Vec<u8>,
}

/// A call as texts.
pub struct CommandView {
    pub args: Seq<Seq<char>>,
    pub input: Option<Seq<char>>,
}

impl View for GitCommand {
    type V = CommandView;

    open spec fn view(&self) -> CommandView {
        CommandView { args: texts(self.args@), input: text(self.input) }
    }
}

/// A call that reads nothing.
pub open spec fn call(args: Seq<Seq<char>>) -> CommandView {
    CommandView { args, input: None }
}

/// The literals as texts.
pub open spec fn literals(words: Seq<&str>) -> Seq<Seq<char>> {
    words.map_values(|w: &str| w@)
}

fn command(words: &[&str]) -> (r: GitCommand)
    ensures
        r@ == call(literals(words@)),
{
    let mut args: Vec<String> = Vec::new();
    for i in 0..words.len()
        invariant
            args@.len() == i,
            forall|j: int| 0 <= j < i ==> (#[trigger] args@[j])@ == words@[j]@,
    {
        args.push(words[i].to_owned());
    }
    assert(texts(args@) =~= literals(words@));
    GitCommand { args, input: None }
}

// ── what git is asked ───────────────────────────────────────────────

/// Ask for the patch of the staged or of the unstaged changes.
pub fn diff_patch(staged: bool) -> (r: GitCommand)
    ensures
        r@ == call(
            if staged {
                seq!["diff"@, "--staged"@]
            } else {
                seq!["diff"@]
            },
        ),
{
    if staged {
        let words: Vec<&str> = vec!["diff", "--staged"];
        assert(literals(words@) =~= seq!["diff"@, "--staged"@]);
        command(words.as_slice())
    } else {
        let words: Vec<&str> = vec!["diff"];
        assert(literals(words@) =~= seq!["diff"@]);
        command(words.as_slice())
    }
}

/// Ask for the patch between a branch and the current head.
pub fn get_branch_diff(base: &str) -> (r: GitCommand)
    ensures
        r@ == call(seq!["diff"@, base@ + "...HEAD"@]),
{
    let mut range = base.to_owned();
    range.append("...HEAD");
    let words: Vec<&str> = vec!["diff", range.as_str()];
    assert(literals(words@) =~= seq!["diff"@, base@ + "...HEAD"@]);
    command(words.as_slice())
}

/// Ask for the paths of the staged or of the unstaged changes.
pub fn changed_files_command(staged: bool) -> (r: GitCommand)
    ensures
        r@ == call(
            if staged {
                seq!["diff"@, "--staged"@, "--name-only"@]
            } else {
                seq!["diff"@, "--name-only"@]
            },
        ),
{
    if staged {
        let words: Vec<&str> = vec!["diff", "--staged", "--name-only"];
        assert(literals(words@) =~= seq!["diff"@, "--staged"@, "--name-only"@]);
        command(words.as_slice())
    } else {
        let words: Vec<&str> = vec!["diff", "--name-only"];
        assert(literals(words@) =~= seq!["diff"@, "--name-only"@]);
        command(words.as_slice())
    }
}

/// Ask for the status of tracked files. Untracked files are left out: they are
/// in no diff.
pub fn status_porcelain() -> (r: GitCommand)
    ensures
        r@ == call(seq!["status"@, "--porcelain"@, "-uno"@]),
{
    let words: Vec<&str> = vec!["status", "--porcelain", "-uno"];
    assert(literals(words@) =~= seq!["status"@, "--porcelain"@, "-uno"@]);
    command(words.as_slice())
}

/// Ask for the untracked files that are not ignored.
pub fn untracked_files_command() -> (r: GitCommand)
    ensures
        r@ == call(seq!["ls-files"@, "--others"@, "--exclude-standard"@]),
{
    let words: Vec<&str> = vec!["ls-files", "--others", "--exclude-standard"];
    assert(literals(words@) =~= seq!["ls-files"@, "--others"@, "--exclude-standard"@]);
    command(words.as_slice())
}

/// Point the index back at the head and keep the working tree.
pub fn reset_index() -> (r: GitCommand)
    ensures
        r@ == call(seq!["reset"@, "-q"@]),
{
    let words: Vec<&str> = vec!["reset", "-q"];
    assert(literals(words@) =~= seq!["reset"@, "-q"@]);
    command(words.as_slice())
}

/// Switch to a branch.
pub fn checkout_branch(branch: &str) -> (r: GitCommand)
    ensures
        r@ == call(seq!["checkout"@, branch@]),
{
    let words: Vec<&str> = vec!["checkout", branch];
    assert(literals(words@) =~= seq!["checkout"@, branch@]);
    command(words.as_slice())
}

/// Make a branch at the head and switch to it.
pub fn create_branch(branch: &str) -> (r: GitCommand)
    ensures
        r@ == call(seq!["checkout"@, "-b"@, branch@]),
{
    let words: Vec<&str> = vec!["checkout", "-b", branch];
    assert(literals(words@) =~= seq!["checkout"@, "-b"@, branch@]);
    command(words.as_slice())
}

/// Ask for the names of the local branches.
pub fn branches_command() -> (r: GitCommand)
    ensures
        r@ == call(seq!["branch"@, "--format=%(refname:short)"@]),
{
    let words: Vec<&str> = vec!["branch", "--format=%(refname:short)"];
    assert(literals(words@) =~= seq!["branch"@, "--format=%(refname:short)"@]);
    command(words.as_slice())
}

/// Ask for the name of the branch that is checked out.
pub fn head_command() -> (r: GitCommand)
    ensures
        r@ == call(seq!["rev-parse"@, "--abbrev-ref"@, "HEAD"@]),
{
    let words: Vec<&str> = vec!["rev-parse", "--abbrev-ref", "HEAD"];
    assert(literals(words@) =~= seq!["rev-parse"@, "--abbrev-ref"@, "HEAD"@]);
    command(words.as_slice())
}

/// Stage exactly these paths. Behind the two hyphens no path is read as an
/// option.
pub fn add(paths: &[String]) -> (r: Result<GitCommand, String>)
    ensures
        match r {
            Ok(c) => paths@.len() > 0 && c@ == call(seq!["add"@, "--"@] + texts(paths@)),
            Err(why) => paths@.len() == 0 && why@
                == "no files to stage — the analysis returned a group without files"@,
        },
{
    if paths.len() == 0 {
        return Err("no files to stage — the analysis returned a group without files".to_owned());
    }
    let words: Vec<&str> = vec!["add", "--"];
    assert(literals(words@) =~= seq!["add"@, "--"@]);
    let mut c = command(words.as_slice());
    let ghost head = texts(c.args@);
    let mut rest = copy_texts(paths);
    let ghost added = texts(rest@);
    c.args.append(&mut rest);
    assert(texts(c.args@) =~= head + added);
    Ok(c)
}

/// Commit what is staged. A blank message is refused.
pub fn commit(message: &str) -> (r: Result<GitCommand, String>)
    ensures
        match r {
            Ok(c) => trimmed(message@).len() > 0 && c@ == call(
                seq!["commit"@, "-m"@, message@],
            ),
            Err(why) => trimmed(message@).len() == 0 && why@
                == "refusing to create a commit with an empty message"@,
        },
{
    let chars = chars_of(message);
    if trim(chars.as_slice()).len() == 0 {
        return Err("refusing to create a commit with an empty message".to_owned());
    }
    let words: Vec<&str> = vec!["commit", "-m", message];
    assert(literals(words@) =~= seq!["commit"@, "-m"@, message@]);
    Ok(command(words.as_slice()))
}

/// Stage a patch. A blank patch is refused.
pub fn apply_cached(patch: &str) -> (r: Result<GitCommand, String>)
    ensures
        match r {
            Ok(c) => trimmed(patch@).len() > 0 && c@ == (CommandView {
                args: seq!["apply"@, "--cached"@, "-"@],
                input: Some(patch@),
            }),
            Err(why) => trimmed(patch@).len() == 0 && why@
                == "no changes to stage — the plan produced an empty patch"@,
        },
{
    let chars = chars_of(patch);
    if trim(chars.as_slice()).len() == 0 {
        return Err("no changes to stage — the plan produced an empty patch".to_owned());
    }
    let words: Vec<&str> = vec!["apply", "--cached", "-"];
    assert(literals(words@) =~= seq!["apply"@, "--cached"@, "-"@]);
    let c = command(words.as_slice());
    Ok(GitCommand { args: c.args, input: Some(patch.to_owned()) })
}

// ── what git answers ────────────────────────────────────────────────

/// What a call printed, or `complaint` with what it printed as an error.
pub open spec fn text_outcome(
    success: bool,
    out: Seq<char>,
    err: Seq<char>,
    complaint: Seq<char>,
) -> Result<Seq<char>, Seq<char>> {
    if success {
        Ok(out)
    } else {
        Err(complaint + trimmed(err))
    }
}

/// What a call printed, or `complaint` with what it printed as an error, from
/// the bytes that it left behind.
pub open spec fn outcome(output: GitOutput, complaint: Seq<char>) -> Result<Seq<char>, Seq<char>> {
    text_outcome(
        output.success,
        lossy_text(output.stdout@),
        lossy_text(output.stderr@),
        complaint,
    )
}

/// A result as texts.
pub open spec fn outcome_view(r: Result<String, String>) -> Result<Seq<char>, Seq<char>> {
    match r {
        Ok(out) => Ok(out@),
        Err(why) => Err(why@),
    }
}

/// Take what a call printed, or complain with what it printed as an error.
pub fn read_texts(success: bool, out: String, err: &str, complaint: String) -> (r: Result<
    String,
    String,
>)
    ensures
        outcome_view(r) == text_outcome(success, out@, err@, complaint@),
{
    if success {
        Ok(out)
    } else {
        let chars = chars_of(err);
        let mut why = complaint;
        why.append(text_of(trim(chars.as_slice())).as_str());
        Err(why)
    }
}

fn read_outcome(output: &GitOutput, complaint: String) -> (r: Result<String, String>)
    ensures
        outcome_view(r) == outcome(*output, complaint@),
{
    let out = text_from_bytes(output.stdout.as_slice());
    let err = text_from_bytes(output.stderr.as_slice());
    read_texts(output.success, out, err.as_str(), complaint)
}

/// What a call printed, or that it failed and why.
pub fn run_git(args: &[String], output: &GitOutput) -> (r: Result<String, String>)
    ensures
        outcome_view(r) == outcome(
            *output,
            "git "@ + joined(texts(args@), " "@) + " failed: "@,
        ),
{
    let mut complaint = "git ".to_owned();
    complaint.append(join(args, " ").as_str());
    complaint.append(" failed: ");
    read_outcome(output, complaint)
}

/// What git printed on a commit, or why it rejected it.
pub fn commit_outcome(output: &GitOutput) -> (r: Result<String, String>)
    ensures
        outcome_view(r) == outcome(*output, "git rejected the commit: "@),
{
    read_outcome(output, "git rejected the commit: ".to_owned())
}

/// What git printed on staging a patch, or why it rejected it.
pub fn apply_outcome(output: &GitOutput) -> (r: Result<String, String>)
    ensures
        outcome_view(r) == outcome(*output, "git rejected staging: "@),
{
    read_outcome(output, "git rejected staging: ".to_owned())
}

/// What git's log printed, or why it failed.
pub fn log_outcome(output: &GitOutput) -> (r: Result<String, String>)
    ensures
        outcome_view(r) == outcome(*output, "git log failed: "@),
{
    read_outcome(output, "git log failed: ".to_owned())
}

/// The lines that hold something, trimmed.
pub open spec fn full_lines(lines: Seq<Seq<char>>) -> Seq<Seq<char>>
    decreases lines.len(),
{
    if lines.len() == 0 {
        Seq::empty()
    } else {
        let before = full_lines(lines.drop_last());
        if trimmed(lines.last()).len() > 0 {
            before.push(trimmed(lines.last()))
        } else {
            before
        }
    }
}

/// The names in a list of one name per line.
pub open spec fn names_in(output: Seq<char>) -> Seq<Seq<char>> {
    full_lines(lines_of(output))
}

fn read_names(output: &str) -> (r: Vec<String>)
    ensures
        texts(r@) == names_in(output@),
{
    broadcast use lemma_texts_push;

    let chars = chars_of(output);
    let all = lines(chars.as_slice());
    let ghost views = parts(all@);
    let mut out: Vec<String> = Vec::new();
    assert(texts(out@) =~= full_lines(views.take(0)));
    for i in 0..all.len()
        invariant
            views == parts(all@),
            texts(out@) == full_lines(views.take(i as int)),
    {
        assert(views.take(i + 1).drop_last() =~= views.take(i as int));
        assert(views.take(i + 1).last() == all@[i as int]@);
        let name = trim(all[i]);
        if name.len() > 0 {
            out.push(text_of(name));
        }
    }
    assert(views.take(views.len() as int) =~= views);
    out
}

/// Read the paths of the changes.
pub fn changed_files(output: &str) -> (r: Vec<String>)
    ensures
        texts(r@) == names_in(output@),
{
    read_names(output)
}

/// Read the paths of the untracked files.
pub fn untracked_files(output: &str) -> (r: Vec<String>)
    ensures
        texts(r@) == names_in(output@),
{
    read_names(output)
}

/// The staged patch, and behind it the unstaged one unless only the staged one
/// is wanted. An empty patch is left out.
pub open spec fn combined_diff(staged_only: bool, staged: Seq<char>, unstaged: Seq<char>) -> Seq<
    char,
> {
    if staged_only || unstaged.len() == 0 {
        staged
    } else if staged.len() == 0 {
        unstaged
    } else {
        staged + "\n"@ + unstaged
    }
}

/// Put the staged and the unstaged patch together.
pub fn get_diff(staged_only: bool, staged: &str, unstaged: &str) -> (r: String)
    ensures
        r@ == combined_diff(staged_only, staged@, unstaged@),
{
    if staged_only || chars_of(unstaged).len() == 0 {
        staged.to_owned()
    } else if chars_of(staged).len() == 0 {
        unstaged.to_owned()
    } else {
        let mut out = staged.to_owned();
        out.append("\n");
        out.append(unstaged);
        out
    }
}

/// The branch that is checked out: none with a detached head, or where git
/// knows none.
pub open spec fn current_branch_of(head: Result<Seq<char>, Seq<char>>) -> Option<Seq<char>> {
    match head {
        Ok(out) => if trimmed(out).len() == 0 || trimmed(out) == "HEAD"@ {
            None
        } else {
            Some(trimmed(out))
        },
        Err(_) => None,
    }
}

/// The local branches: none where git cannot list them.
pub open spec fn branches_of(branches: Result<Seq<char>, Seq<char>>) -> Seq<Seq<char>> {
    match branches {
        Ok(out) => names_in(out),
        Err(_) => Seq::empty(),
    }
}

/// Read the branch that is checked out.
pub fn current_branch(head: &Result<String, String>) -> (r: Option<String>)
    ensures
        text(r) == current_branch_of(outcome_view(*head)),
{
    match head {
        Ok(out) => {
            let chars = chars_of(out.as_str());
            let name = trim(chars.as_slice());
            if name.len() == 0 || is_text(name, "HEAD") {
                None
            } else {
                Some(text_of(name))
            }
        },
        Err(_) => None,
    }
}

/// Read the local branches and the one that is checked out. A repository
/// without a commit has neither.
pub fn list_branches(branches: &Result<String, String>, head: &Result<String, String>) -> (r: (
    Vec<String>,
    Option<String>,
))
    ensures
        texts(r.0@) == branches_of(outcome_view(*branches)),
        text(r.1) == current_branch_of(outcome_view(*head)),
{
    let names: Vec<String> = match branches {
        Ok(out) => read_names(out.as_str()),
        Err(_) => Vec::new(),
    };
    assert(branches is Err ==> texts(names@) =~= Seq::empty());
    (names, current_branch(head))
}

} // verus!
