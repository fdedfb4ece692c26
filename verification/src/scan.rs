//! `commitor scan`: does the working diff look like one logical change?

use vstd::prelude::*;

use crate::analysis::{
    change_group_views, AnalyzeResponse, ChangeGroup, ChangeGroupView, CollectedDiff, DiffView,
    ResponseView,
};
use crate::analysis::reply::{quota_hint, RateStatus};
use crate::commit::execution::{Said, SaidView};
use crate::engine::coverage::claim_paths;
use crate::heuristics::{evaluate, verdict_of, Verdict, VerdictView};
use crate::json::{json_string, json_text};
use crate::number::{count, decimal_of};
use crate::pieces::{join, joined, replace, replaced};
use crate::style::{green, red, styled};
use crate::text::{chars_of, text, texts};

verus! {

/// How the command was called.
#[derive(Debug, Clone, Default)]
pub struct ScanFlags {
    /// Use unstaged changes, though there are staged ones.
    pub all: bool,
    /// Use the local rules alone.
    pub offline: bool,
    /// Fail where the change looks mixed.
    pub strict: bool,
    /// Write JSON.
    pub json: bool,
    /// A range of revisions to analyze in place of the working tree.
    pub diff_range: Option<String>,
    /// Write Markdown.
    pub markdown: bool,
    /// What a pull request says of itself.
    pub context: Option<String>,
}

/// The backend must be asked, and the local verdict is not enough: always for
/// a range, and else where the verdict is not clean.
pub open spec fn escalates(verdict: VerdictView, diff_range: bool) -> bool {
    diff_range || !(verdict is Clean)
}

/// Whether the backend must be asked.
pub fn scan_escalates(verdict: &Verdict, diff_range: bool) -> (r: bool)
    ensures
        r == escalates(verdict@, diff_range),
{
    diff_range || match verdict {
        Verdict::Clean { summary: _ } => false,
        Verdict::Inconclusive { reason: _ } => true,
    }
}

// ── rendering ───────────────────────────────────────────────────────

/// A change that looks like one.
pub open spec fn success_text(summary: Seq<char>, color: bool) -> Seq<char> {
    styled("32"@, "✓ Looks like a single logical change"@, color) + "\n  "@ + summary + "\n"@
}

/// The line below every Markdown report.
pub open spec fn powered_by() -> Seq<char> {
    "\n<sub>Powered by [Commitor](https://github.com/Commitor-AI/commitor) — catches unrelated changes before they're buried.</sub>\n"@
}

/// The lines above every Markdown report.
pub open spec fn markdown_head() -> Seq<char> {
    "<!-- commitor-analysis -->\n\n## 🔍 Commitor Analysis\n\n"@
}

/// A change that looks like one, in Markdown.
pub open spec fn clean_markdown(summary: Seq<char>) -> Seq<char> {
    markdown_head() + "✅ **Looks like a single logical change** — "@ + summary + "\n\n"@
        + powered_by()
}

/// A change of which the local rules know nothing certain, in Markdown.
pub open spec fn offline_markdown(reason: Seq<char>) -> Seq<char> {
    markdown_head() + "⚠️ Local heuristics couldn't confirm a single logical change ("@ + reason
        + "). Run `commitor login` for a full AI analysis.\n\n"@ + powered_by()
}

/// A range without changes, in Markdown.
pub open spec fn empty_markdown(range: Seq<char>) -> Seq<char> {
    markdown_head() + "_No changes to analyze for range `"@ + range + "`._\n\n"@ + powered_by()
}

/// The files that a row of the table names: the whole files, or the split ones
/// where there are none.
pub open spec fn row_files(group: ChangeGroupView) -> Seq<Seq<char>> {
    if group.files.len() == 0 {
        claim_paths(group.partial_files)
    } else {
        group.files
    }
}

/// The rationale in a cell of the table.
pub open spec fn row_reason(group: ChangeGroupView) -> Seq<char> {
    if group.rationale.len() == 0 {
        "—"@
    } else {
        replaced(group.rationale, "|"@, "\\|"@)
    }
}

/// A row of the table.
pub open spec fn markdown_row(group: ChangeGroupView, number: nat) -> Seq<char> {
    "| "@ + decimal_of(number) + " | "@ + group.commit_message + " | Medium | "@ + joined(
        row_files(group),
        ", "@,
    ) + " | "@ + row_reason(group) + " |\n"@
}

/// The rows of the table.
pub open spec fn markdown_rows(groups: Seq<ChangeGroupView>) -> Seq<char>
    decreases groups.len(),
{
    if groups.len() == 0 {
        Seq::empty()
    } else {
        markdown_rows(groups.drop_last()) + markdown_row(groups.last(), groups.len())
    }
}

/// A mixed change, in Markdown.
pub open spec fn mixed_markdown(groups: Seq<ChangeGroupView>, reason: Seq<char>) -> Seq<char> {
    markdown_head()
        + "**Severity: High** — this PR bundles multiple unrelated changes.\n\n⚠️ "@ + reason
        + " Consider splitting it into separate commits:\n\n| # | Suggested commit | Severity | Files | Why |\n|---|---|---|---|---|\n"@
        + markdown_rows(groups) + "\nRun `commitor commit` to split this into separate commits.\n"@
        + powered_by()
}

/// One group of a mixed change.
pub open spec fn mixed_entry(group: ChangeGroupView, number: nat) -> Seq<char> {
    decimal_of(number) + ". "@ + group.commit_message + "\n"@ + (if group.files.len() > 0 {
        "   files: "@ + joined(group.files, ", "@) + "\n"@
    } else {
        Seq::empty()
    }) + (if group.rationale.len() > 0 {
        "   why:   "@ + group.rationale + "\n"@
    } else {
        Seq::empty()
    }) + "\n"@
}

/// The groups of a mixed change.
pub open spec fn mixed_entries(groups: Seq<ChangeGroupView>) -> Seq<char>
    decreases groups.len(),
{
    if groups.len() == 0 {
        Seq::empty()
    } else {
        mixed_entries(groups.drop_last()) + mixed_entry(groups.last(), groups.len())
    }
}

/// How sure the model is, where it says so.
pub open spec fn confidence_text(confidence: Option<Seq<char>>, tier: Option<Seq<char>>) -> Seq<
    char,
> {
    match confidence {
        Some(c) => match tier {
            Some(t) => "(confidence "@ + c + ", model tier: "@ + t + ")\n"@,
            None => "(confidence "@ + c + ")\n"@,
        },
        None => Seq::empty(),
    }
}

/// A mixed change.
pub open spec fn mixed_text(response: ResponseView, reason: Seq<char>, color: bool) -> Seq<char> {
    styled("31"@, "✗ This commit looks mixed"@, color) + "\n  local hint: "@ + reason + "\n\n"@
        + mixed_entries(response.groups) + confidence_text(
        response.confidence,
        response.model_tier,
    ) + "Run `commitor commit` to split this into separate commits.\n"@
}

/// A change that the local rules find clean, as JSON.
pub open spec fn local_json(summary: Seq<char>) -> Seq<char> {
    "{\"groups\":[{\"commit_message\":"@ + json_string(summary)
        + ",\"files\":[],\"rationale\":\"local heuristics found a single cluster\"}],\"model_tier\":\"local\"}\n"@
}

fn write_success(summary: &str, color: bool) -> (r: String)
    ensures
        r@ == success_text(summary@, color),
{
    let mut out = green("✓ Looks like a single logical change", color);
    out.append("\n  ");
    out.append(summary);
    out.append("\n");
    out
}

fn append_powered_by(out: String) -> (r: String)
    ensures
        r@ == out@ + powered_by(),
{
    let mut out = out;
    out.append(
        "\n<sub>Powered by [Commitor](https://github.com/Commitor-AI/commitor) — catches unrelated changes before they're buried.</sub>\n",
    );
    out
}

fn head_of_markdown() -> (r: String)
    ensures
        r@ == markdown_head(),
{
    "<!-- commitor-analysis -->\n\n## 🔍 Commitor Analysis\n\n".to_owned()
}

fn write_clean_markdown(summary: &str) -> (r: String)
    ensures
        r@ == clean_markdown(summary@),
{
    let mut out = head_of_markdown();
    out.append("✅ **Looks like a single logical change** — ");
    out.append(summary);
    out.append("\n\n");
    append_powered_by(out)
}

fn write_offline_markdown(reason: &str) -> (r: String)
    ensures
        r@ == offline_markdown(reason@),
{
    let mut out = head_of_markdown();
    out.append("⚠️ Local heuristics couldn't confirm a single logical change (");
    out.append(reason);
    out.append("). Run `commitor login` for a full AI analysis.\n\n");
    append_powered_by(out)
}

fn write_empty_markdown(range: &str) -> (r: String)
    ensures
        r@ == empty_markdown(range@),
{
    let mut out = head_of_markdown();
    out.append("_No changes to analyze for range `");
    out.append(range);
    out.append("`._\n\n");
    append_powered_by(out)
}

fn split_names(group: &ChangeGroup) -> (r: Vec<String>)
    ensures
        texts(r@) == claim_paths(group@.partial_files),
{
    let mut out: Vec<String> = Vec::new();
    for i in 0..group.partial_files.len()
        invariant
            out@.len() == i,
            forall|j: int| 0 <= j < i ==> (#[trigger] out@[j])@ == group.partial_files@[j].path@,
    {
        out.push(group.partial_files[i].path.clone());
    }
    assert(texts(out@) =~= claim_paths(group@.partial_files));
    out
}

fn write_row(group: &ChangeGroup, number: usize) -> (r: String)
    ensures
        r@ == markdown_row(group@, number as nat),
{
    let mut out = "| ".to_owned();
    out.append(count(number).as_str());
    out.append(" | ");
    out.append(group.commit_message.as_str());
    out.append(" | Medium | ");
    assert(group@.files.len() == group.files@.len());
    let files = if group.files.len() == 0 {
        join(split_names(group).as_slice(), ", ")
    } else {
        join(group.files.as_slice(), ", ")
    };
    out.append(files.as_str());
    out.append(" | ");
    if chars_of(group.rationale.as_str()).len() == 0 {
        out.append("—");
    } else {
        proof {
            reveal_strlit("|");
        }
        out.append(replace(group.rationale.as_str(), "|", "\\|").as_str());
    }
    out.append(" |\n");
    out
}

fn write_mixed_markdown(groups: &[ChangeGroup], reason: &str) -> (r: String)
    ensures
        r@ == mixed_markdown(change_group_views(groups@), reason@),
{
    let ghost all = change_group_views(groups@);
    let mut out = head_of_markdown();
    out.append(
        "**Severity: High** — this PR bundles multiple unrelated changes.\n\n⚠️ ",
    );
    out.append(reason);
    out.append(
        " Consider splitting it into separate commits:\n\n| # | Suggested commit | Severity | Files | Why |\n|---|---|---|---|---|\n",
    );
    let ghost head = out@;
    assert(head + markdown_rows(all.take(0)) =~= head);
    for i in 0..groups.len()
        invariant
            all == change_group_views(groups@),
            out@ == head + markdown_rows(all.take(i as int)),
    {
        assert(all.take(i + 1).drop_last() =~= all.take(i as int));
        assert(all.take(i + 1).last() == groups@[i as int]@);
        out.append(write_row(&groups[i], i + 1).as_str());
        assert(out@ =~= head + markdown_rows(all.take(i + 1)));
    }
    assert(all.take(all.len() as int) =~= all);
    out.append("\nRun `commitor commit` to split this into separate commits.\n");
    append_powered_by(out)
}

fn write_mixed_entry(group: &ChangeGroup, number: usize) -> (r: String)
    ensures
        r@ == mixed_entry(group@, number as nat),
{
    let mut out = count(number);
    out.append(". ");
    out.append(group.commit_message.as_str());
    out.append("\n");
    let ghost head = out@;
    assert(group@.files.len() == group.files@.len());
    if group.files.len() > 0 {
        out.append("   files: ");
        out.append(join(group.files.as_slice(), ", ").as_str());
        out.append("\n");
        assert(out@ =~= head + ("   files: "@ + joined(group@.files, ", "@) + "\n"@));
    } else {
        assert(out@ =~= head + Seq::empty());
    }
    let ghost with_files = out@;
    if chars_of(group.rationale.as_str()).len() > 0 {
        out.append("   why:   ");
        out.append(group.rationale.as_str());
        out.append("\n");
        assert(out@ =~= with_files + ("   why:   "@ + group@.rationale + "\n"@));
    } else {
        assert(out@ =~= with_files + Seq::empty());
    }
    out.append("\n");
    out
}

fn write_confidence(confidence: &Option<String>, tier: &Option<String>) -> (r: String)
    ensures
        r@ == confidence_text(text(*confidence), text(*tier)),
{
    match confidence {
        Some(c) => {
            let mut out = "(confidence ".to_owned();
            out.append(c.as_str());
            match tier {
                Some(t) => {
                    out.append(", model tier: ");
                    out.append(t.as_str());
                },
                None => {},
            }
            out.append(")\n");
            out
        },
        None => {
            let out = String::new();
            assert(out@ =~= Seq::empty());
            out
        },
    }
}

fn write_mixed(response: &AnalyzeResponse, reason: &str, color: bool) -> (r: String)
    ensures
        r@ == mixed_text(response@, reason@, color),
{
    let ghost all = change_group_views(response.groups@);
    let mut out = red("✗ This commit looks mixed", color);
    out.append("\n  local hint: ");
    out.append(reason);
    out.append("\n\n");
    let ghost head = out@;
    assert(head + mixed_entries(all.take(0)) =~= head);
    for i in 0..response.groups.len()
        invariant
            all == change_group_views(response.groups@),
            out@ == head + mixed_entries(all.take(i as int)),
    {
        assert(all.take(i + 1).drop_last() =~= all.take(i as int));
        assert(all.take(i + 1).last() == response.groups@[i as int]@);
        out.append(write_mixed_entry(&response.groups[i], i + 1).as_str());
        assert(out@ =~= head + mixed_entries(all.take(i + 1)));
    }
    assert(all.take(all.len() as int) =~= all);
    out.append(write_confidence(&response.confidence, &response.model_tier).as_str());
    out.append("Run `commitor commit` to split this into separate commits.\n");
    out
}

fn write_local_json(summary: &str) -> (r: String)
    ensures
        r@ == local_json(summary@),
{
    let mut out = "{\"groups\":[{\"commit_message\":".to_owned();
    out.append(json_text(summary).as_str());
    out.append(
        ",\"files\":[],\"rationale\":\"local heuristics found a single cluster\"}],\"model_tier\":\"local\"}\n",
    );
    out
}

// ── the command ─────────────────────────────────────────────────────

/// Refuse to scan outside a repository.
pub fn ensure_work_tree(inside: bool) -> (r: Result<(), String>)
    ensures
        match r {
            Ok(_) => inside,
            Err(why) => !inside && why@
                == "not a git repository — run `commitor scan` from inside a git repository"@,
        },
{
    if inside {
        Ok(())
    } else {
        Err("not a git repository — run `commitor scan` from inside a git repository".to_owned())
    }
}

/// Refuse flags that contradict each other.
pub fn check_flags(flags: &ScanFlags) -> (r: Result<(), String>)
    ensures
        match r {
            Ok(_) => !(flags.diff_range is Some && flags.all),
            Err(why) => flags.diff_range is Some && flags.all && why@
                == "`--diff-range` and `--all` are incompatible — a fixed range already defines exactly what to analyze, so there is no working-tree flavor (staged vs. unstaged) to choose between."@,
        },
{
    if flags.diff_range.is_some() && flags.all {
        Err(
            "`--diff-range` and `--all` are incompatible — a fixed range already defines exactly what to analyze, so there is no working-tree flavor (staged vs. unstaged) to choose between.".to_owned(),
        )
    } else {
        Ok(())
    }
}

/// What is printed where there is nothing to scan.
pub open spec fn nothing_text(flags: ScanFlags) -> Seq<char> {
    match text(flags.diff_range) {
        Some(range) => if flags.markdown {
            empty_markdown(range)
        } else {
            "No changes to analyze for range `"@ + range + "`.\n"@
        },
        None => "Nothing to scan — no staged or unstaged changes.\n"@,
    }
}

/// What is printed before the analysis, unless the output is for a machine.
pub open spec fn progress_text(flags: ScanFlags, diff: DiffView) -> Seq<char> {
    if flags.json || flags.markdown {
        Seq::empty()
    } else {
        match text(flags.diff_range) {
            Some(range) => "Analyzing "@ + decimal_of(diff.files.len())
                + " changed file(s) in range `"@ + range + "`.\n"@,
            None => "Scanning "@ + decimal_of(diff.files.len()) + " changed file(s) ("@ + (
            if diff.staged_used {
                "staged"@
            } else {
                "unstaged"@
            }) + ").\n"@,
        }
    }
}

/// What is printed of a change that the local rules find clean. `summary` is
/// for machines and `told` for people.
pub open spec fn local_text(
    flags: ScanFlags,
    summary: Seq<char>,
    told: Seq<char>,
    color: bool,
) -> Seq<char> {
    if flags.markdown {
        clean_markdown(summary)
    } else if flags.json {
        local_json(summary)
    } else {
        success_text(told, color)
    }
}

/// What is printed of a scan without the backend.
pub open spec fn offline_text(flags: ScanFlags, verdict: VerdictView, color: bool) -> Seq<char> {
    match verdict {
        VerdictView::Clean { .. } => local_text(
            flags,
            "single logical change"@,
            "Looks like a single logical change."@,
            color,
        ),
        VerdictView::Inconclusive { reason } => if flags.markdown {
            offline_markdown(reason)
        } else if flags.json {
            Seq::empty()
        } else {
            "\nLocal heuristics could not confirm one logical change ("@ + reason
                + ").\nRerun without --offline for a full AI analysis (requires `commitor login`).\n"@
        },
    }
}

/// What is printed first, and whether the backend is asked then. Where it is
/// not, the scan is over with success.
pub open spec fn scan_start(flags: ScanFlags, diff: DiffView, color: bool) -> (Seq<char>, bool) {
    let verdict = verdict_of(diff.files);
    let progress = progress_text(flags, diff);
    if diff.files.len() == 0 {
        (nothing_text(flags), false)
    } else if flags.offline {
        (progress + offline_text(flags, verdict, color), false)
    } else if escalates(verdict, flags.diff_range is Some) {
        (progress, true)
    } else {
        let summary = verdict->Clean_summary;
        (
            progress + local_text(
                flags,
                summary,
                "Looks like a single logical change — "@ + summary + "."@,
                color,
            ),
            false,
        )
    }
}

fn say_nothing(flags: &ScanFlags) -> (r: String)
    ensures
        r@ == nothing_text(*flags),
{
    match &flags.diff_range {
        Some(range) => if flags.markdown {
            write_empty_markdown(range.as_str())
        } else {
            let mut out = "No changes to analyze for range `".to_owned();
            out.append(range.as_str());
            out.append("`.\n");
            out
        },
        None => "Nothing to scan — no staged or unstaged changes.\n".to_owned(),
    }
}

fn say_progress(flags: &ScanFlags, diff: &CollectedDiff) -> (r: String)
    ensures
        r@ == progress_text(*flags, diff@),
{
    assert(diff@.files.len() == diff.files@.len());
    if flags.json || flags.markdown {
        let out = String::new();
        assert(out@ =~= Seq::empty());
        return out;
    }
    match &flags.diff_range {
        Some(range) => {
            let mut out = "Analyzing ".to_owned();
            out.append(count(diff.files.len()).as_str());
            out.append(" changed file(s) in range `");
            out.append(range.as_str());
            out.append("`.\n");
            out
        },
        None => {
            let mut out = "Scanning ".to_owned();
            out.append(count(diff.files.len()).as_str());
            out.append(" changed file(s) (");
            if diff.staged_used {
                out.append("staged");
            } else {
                out.append("unstaged");
            }
            out.append(").\n");
            out
        },
    }
}

fn say_local(flags: &ScanFlags, summary: &str, told: &str, color: bool) -> (r: String)
    ensures
        r@ == local_text(*flags, summary@, told@, color),
{
    if flags.markdown {
        write_clean_markdown(summary)
    } else if flags.json {
        write_local_json(summary)
    } else {
        write_success(told, color)
    }
}

fn say_offline(flags: &ScanFlags, verdict: &Verdict, color: bool) -> (r: String)
    ensures
        r@ == offline_text(*flags, verdict@, color),
{
    match verdict {
        Verdict::Clean { summary: _ } => say_local(
            flags,
            "single logical change",
            "Looks like a single logical change.",
            color,
        ),
        Verdict::Inconclusive { reason } => if flags.markdown {
            write_offline_markdown(reason.as_str())
        } else if flags.json {
            let out = String::new();
            assert(out@ =~= Seq::empty());
            out
        } else {
            let mut out = "\nLocal heuristics could not confirm one logical change (".to_owned();
            out.append(reason.as_str());
            out.append(
                ").\nRerun without --offline for a full AI analysis (requires `commitor login`).\n",
            );
            out
        },
    }
}

/// Judge the diff by the local rules. Returns what to print, and whether the
/// backend is to be asked; where it is not, the scan is over with success.
pub fn run(flags: &ScanFlags, diff: &CollectedDiff, color: bool) -> (r: (String, bool))
    ensures
        (r.0@, r.1) == scan_start(*flags, diff@, color),
{
    assert(diff@.files.len() == diff.files@.len());
    if diff.files.len() == 0 {
        return (say_nothing(flags), false);
    }
    let mut out = say_progress(flags, diff);
    let verdict = evaluate(diff.files.as_slice());
    if flags.offline {
        out.append(say_offline(flags, &verdict, color).as_str());
        return (out, false);
    }
    if scan_escalates(&verdict, flags.diff_range.is_some()) {
        return (out, true);
    }
    match &verdict {
        Verdict::Clean { summary } => {
            let mut told = "Looks like a single logical change — ".to_owned();
            told.append(summary.as_str());
            told.append(".");
            out.append(say_local(flags, summary.as_str(), told.as_str(), color).as_str());
        },
        Verdict::Inconclusive { reason: _ } => {},
    }
    (out, false)
}

/// What the backend found.
#[derive(Debug)]
pub struct ScanReport {
    pub said: Said,
    /// Whether the answer itself is to be printed as JSON.
    pub json: bool,
    /// Whether the command leaves with success.
    pub success: bool,
}

/// The reason that the local rules give, where they are not certain.
pub open spec fn local_reason(files: Seq<Seq<char>>) -> Seq<char> {
    match verdict_of(files) {
        VerdictView::Inconclusive { reason } => reason,
        VerdictView::Clean { .. } => Seq::empty(),
    }
}

/// What one group says of a whole change.
pub open spec fn one_change(groups: Seq<ChangeGroupView>) -> Seq<char> {
    if groups.len() > 0 {
        groups[0].commit_message
    } else {
        "single logical change"@
    }
}

/// What is printed of an answer.
pub open spec fn answer_text(
    flags: ScanFlags,
    files: Seq<Seq<char>>,
    response: ResponseView,
    color: bool,
) -> Seq<char> {
    let mixed = response.groups.len() > 1;
    if flags.markdown {
        if mixed {
            mixed_markdown(response.groups, local_reason(files))
        } else {
            clean_markdown(one_change(response.groups))
        }
    } else if flags.json {
        Seq::empty()
    } else if mixed {
        mixed_text(response, local_reason(files), color)
    } else {
        success_text(one_change(response.groups), color)
    }
}

/// The hint on the quota, on output for people only.
pub open spec fn answer_hint(flags: ScanFlags, remaining: Option<u32>) -> Seq<char> {
    if flags.json || flags.markdown {
        Seq::empty()
    } else {
        match quota_hint(remaining) {
            Some(hint) => "\n"@ + hint + "\n"@,
            None => Seq::empty(),
        }
    }
}

fn say_hint(flags: &ScanFlags, rate: &RateStatus) -> (r: String)
    ensures
        r@ == answer_hint(*flags, rate.remaining),
{
    let mut out = String::new();
    assert(out@ =~= Seq::empty());
    if !flags.json && !flags.markdown {
        match rate.low_quota_message() {
            Some(hint) => {
                out.append("\n");
                out.append(hint.as_str());
                out.append("\n");
                assert(out@ =~= "\n"@ + hint@ + "\n"@);
            },
            None => {},
        }
    }
    out
}

/// Report what the backend found. A mixed change fails a strict scan, and
/// nothing else does.
pub fn report(
    flags: &ScanFlags,
    files: &[String],
    response: &AnalyzeResponse,
    rate: &RateStatus,
    color: bool,
) -> (r: ScanReport)
    ensures
        r.said@ == (SaidView {
            out: answer_text(*flags, texts(files@), response@, color),
            err: answer_hint(*flags, rate.remaining),
        }),
        r.json == (flags.json && !flags.markdown),
        r.success == !(response.groups@.len() > 1 && flags.strict),
{
    let reason = match evaluate(files) {
        Verdict::Inconclusive { reason } => reason,
        Verdict::Clean { summary: _ } => {
            let none = String::new();
            assert(none@ =~= Seq::empty());
            none
        },
    };
    let n = response.groups.len();
    assert(response@.groups.len() == n);
    let mixed = n > 1;
    let summary = if n > 0 {
        assert(response@.groups[0] == response.groups@[0]@);
        response.groups[0].commit_message.clone()
    } else {
        "single logical change".to_owned()
    };
    let out = if flags.markdown {
        if mixed {
            write_mixed_markdown(response.groups.as_slice(), reason.as_str())
        } else {
            write_clean_markdown(summary.as_str())
        }
    } else if flags.json {
        let none = String::new();
        assert(none@ =~= Seq::empty());
        none
    } else if mixed {
        write_mixed(response, reason.as_str(), color)
    } else {
        write_success(summary.as_str(), color)
    };
    let err = say_hint(flags, rate);
    ScanReport {
        said: Said { out, err },
        json: flags.json && !flags.markdown,
        success: !(mixed && flags.strict),
    }
}

// ── laws ────────────────────────────────────────────────────────────

/// Offline, the backend is never asked.
pub proof fn lemma_offline_scan_stays_local(flags: ScanFlags, diff: DiffView, color: bool)
    requires
        flags.offline,
    ensures
        !scan_start(flags, diff, color).1,
{
}

/// A range with changes is always put to the backend, whatever the local rules
/// find.
pub proof fn lemma_ranges_are_always_analyzed(flags: ScanFlags, diff: DiffView, color: bool)
    requires
        !flags.offline,
        flags.diff_range is Some,
        diff.files.len() > 0,
    ensures
        scan_start(flags, diff, color).1,
{
}

/// The working tree is put to the backend only where the local rules are not
/// certain.
pub proof fn lemma_clean_working_tree_stays_local(flags: ScanFlags, diff: DiffView, color: bool)
    requires
        !flags.offline,
        flags.diff_range is None,
    ensures
        scan_start(flags, diff, color).1 <==> diff.files.len() > 0 && verdict_of(diff.files)
            is Inconclusive,
{
}

proof fn lemma_opens_with_head(rest: Seq<char>, s: Seq<char>)
    requires
        s == markdown_head() + rest,
    ensures
        markdown_head().is_prefix_of(s),
{
    assert(s.subrange(0, markdown_head().len() as int) =~= markdown_head());
}

proof fn lemma_markdown_texts(t: Seq<char>, groups: Seq<ChangeGroupView>)
    ensures
        markdown_head().is_prefix_of(clean_markdown(t)),
        markdown_head().is_prefix_of(offline_markdown(t)),
        markdown_head().is_prefix_of(empty_markdown(t)),
        markdown_head().is_prefix_of(mixed_markdown(groups, t)),
{
    let head = markdown_head();
    let n = head.len() as int;
    assert(clean_markdown(t) =~= head + clean_markdown(t).skip(n));
    lemma_opens_with_head(clean_markdown(t).skip(n), clean_markdown(t));
    assert(offline_markdown(t) =~= head + offline_markdown(t).skip(n));
    lemma_opens_with_head(offline_markdown(t).skip(n), offline_markdown(t));
    assert(empty_markdown(t) =~= head + empty_markdown(t).skip(n));
    lemma_opens_with_head(empty_markdown(t).skip(n), empty_markdown(t));
    assert(mixed_markdown(groups, t) =~= head + mixed_markdown(groups, t).skip(n));
    lemma_opens_with_head(mixed_markdown(groups, t).skip(n), mixed_markdown(groups, t));
}

/// Everything that is printed in Markdown opens with the marker by which an
/// earlier report is found. Only that there is nothing to scan in a working
/// tree is told in plain text.
pub proof fn lemma_markdown_opens_with_the_marker(
    flags: ScanFlags,
    diff: DiffView,
    response: ResponseView,
    color: bool,
)
    requires
        flags.markdown,
        diff.files.len() > 0 || flags.diff_range is Some,
    ensures
        !scan_start(flags, diff, color).1 ==> markdown_head().is_prefix_of(
            scan_start(flags, diff, color).0,
        ),
        markdown_head().is_prefix_of(answer_text(flags, diff.files, response, color)),
{
    let printed = scan_start(flags, diff, color).0;
    let answered = answer_text(flags, diff.files, response, color);
    let progress = progress_text(flags, diff);
    assert(progress =~= Seq::empty());
    if !scan_start(flags, diff, color).1 {
        if diff.files.len() == 0 {
            lemma_markdown_texts(text(flags.diff_range)->0, Seq::empty());
        } else {
            match verdict_of(diff.files) {
                VerdictView::Clean { summary } => {
                    lemma_markdown_texts(summary, Seq::empty());
                    lemma_markdown_texts("single logical change"@, Seq::empty());
                    assert(progress + clean_markdown(summary) =~= clean_markdown(summary));
                    assert(progress + clean_markdown("single logical change"@)
                        =~= clean_markdown("single logical change"@));
                },
                VerdictView::Inconclusive { reason } => {
                    lemma_markdown_texts(reason, Seq::empty());
                    assert(progress + offline_markdown(reason) =~= offline_markdown(reason));
                },
            }
        }
    }
    lemma_markdown_texts(one_change(response.groups), Seq::empty());
    lemma_markdown_texts(local_reason(diff.files), response.groups);
}

} // verus!
