//! What a scan sends, and what it says without an analysis.

use vstd::prelude::*;

use crate::analysis::{DiffView, ResponseView};
use crate::heuristics::verdict_of;
use crate::json::json_string;
use crate::laws::texts::{lemma_occurs_in_part, lemma_occurs_inside};
use crate::scan::{
    answer_text, clean_markdown, confidence_text, local_json, local_reason, local_text,
    markdown_head, mixed_entries, mixed_text, offline_markdown, offline_text, powered_by,
    progress_text, scan_start, success_text, ScanFlags,
};
use crate::style::styled;
use crate::text::occurs;

verus! {

/// An analysis is asked for exactly where something changed, the scan is not
/// offline, and a range is named or the local rules find no single change.
pub proof fn lemma_what_is_analyzed(flags: ScanFlags, diff: DiffView, color: bool)
    ensures
        scan_start(flags, diff, color).1 <==> diff.files.len() > 0 && !flags.offline && (
        flags.diff_range is Some || verdict_of(diff.files) is Inconclusive),
{
}

/// Where nothing changed, that is said, with the range that was asked for.
pub proof fn lemma_nothing_to_scan(flags: ScanFlags, diff: DiffView, color: bool)
    requires
        diff.files.len() == 0,
    ensures
        flags.diff_range is None ==> scan_start(flags, diff, color).0
            == "Nothing to scan — no staged or unstaged changes.\n"@,
        flags.diff_range matches Some(range) ==> ({
            let s = scan_start(flags, diff, color).0;
            &&& occurs(s, range@)
            &&& flags.markdown ==> markdown_head().is_prefix_of(s)
            &&& !flags.markdown ==> s == "No changes to analyze for range `"@ + range@ + "`.\n"@
        }),
{
    if let Some(range) = flags.diff_range {
        let s = scan_start(flags, diff, color).0;
        if flags.markdown {
            let head = markdown_head() + "_No changes to analyze for range `"@;
            let tail = "`._\n\n"@ + powered_by();
            assert(s =~= head + range@ + tail);
            lemma_occurs_inside(head, range@, tail);
            assert(s.subrange(0, markdown_head().len() as int) =~= markdown_head());
        } else {
            lemma_occurs_inside("No changes to analyze for range `"@, range@, "`.\n"@);
        }
    }
}

proof fn lemma_local_text(flags: ScanFlags, summary: Seq<char>, told: Seq<char>, color: bool)
    ensures
        flags.markdown ==> occurs(local_text(flags, summary, told, color), summary),
        !flags.markdown && flags.json ==> occurs(
            local_text(flags, summary, told, color),
            json_string(summary),
        ),
        !flags.markdown && !flags.json ==> occurs(local_text(flags, summary, told, color), told),
{
    if flags.markdown {
        let head = markdown_head() + "✅ **Looks like a single logical change** — "@;
        let tail = "\n\n"@ + powered_by();
        assert(clean_markdown(summary) =~= head + summary + tail);
        lemma_occurs_inside(head, summary, tail);
    } else if flags.json {
        let tail =
            ",\"files\":[],\"rationale\":\"local heuristics found a single cluster\"}],\"model_tier\":\"local\"}\n"@;
        assert(local_json(summary) == "{\"groups\":[{\"commit_message\":"@ + json_string(summary)
            + tail);
        lemma_occurs_inside("{\"groups\":[{\"commit_message\":"@, json_string(summary), tail);
    } else {
        let head = styled("32"@, "✓ Looks like a single logical change"@, color) + "\n  "@;
        assert(success_text(told, color) == head + told + "\n"@);
        lemma_occurs_inside(head, told, "\n"@);
    }
}

/// Where the local rules decide, what they found is told.
pub proof fn lemma_local_verdicts_are_told(flags: ScanFlags, diff: DiffView, color: bool)
    requires
        diff.files.len() > 0,
        flags.diff_range is None,
        !flags.offline,
        verdict_of(diff.files) is Clean,
    ensures
        flags.markdown || !flags.json ==> occurs(
            scan_start(flags, diff, color).0,
            verdict_of(diff.files)->summary,
        ),
        flags.json && !flags.markdown ==> occurs(
            scan_start(flags, diff, color).0,
            json_string(verdict_of(diff.files)->summary),
        ),
{
    let summary = verdict_of(diff.files)->summary;
    let progress = progress_text(flags, diff);
    let told = "Looks like a single logical change — "@ + summary + "."@;
    let local = local_text(flags, summary, told, color);
    let none: Seq<char> = Seq::empty();
    lemma_local_text(flags, summary, told, color);
    assert(scan_start(flags, diff, color).0 == progress + local);
    if flags.markdown {
        lemma_occurs_in_part(progress, local, none, summary);
    } else if flags.json {
        lemma_occurs_in_part(progress, local, none, json_string(summary));
    } else {
        lemma_occurs_in_part(progress, local, none, told);
        lemma_occurs_inside("Looks like a single logical change — "@, summary, "."@);
        crate::laws::reports::lemma_inside(progress + local, told, summary);
    }
}

/// Offline, the reason why the local rules could not decide is told.
pub proof fn lemma_offline_reasons_are_told(flags: ScanFlags, diff: DiffView, color: bool)
    requires
        diff.files.len() > 0,
        flags.offline,
        verdict_of(diff.files) is Inconclusive,
    ensures
        flags.markdown || !flags.json ==> occurs(
            scan_start(flags, diff, color).0,
            verdict_of(diff.files)->reason,
        ),
        flags.json && !flags.markdown ==> scan_start(flags, diff, color).0.len() == 0,
{
    let verdict = verdict_of(diff.files);
    let reason = verdict->reason;
    let progress = progress_text(flags, diff);
    let said = offline_text(flags, verdict, color);
    let none: Seq<char> = Seq::empty();
    if flags.markdown {
        let head = markdown_head()
            + "⚠️ Local heuristics couldn't confirm a single logical change ("@;
        let tail = "). Run `commitor login` for a full AI analysis.\n\n"@ + powered_by();
        assert(offline_markdown(reason) =~= head + reason + tail);
        lemma_occurs_inside(head, reason, tail);
        lemma_occurs_in_part(progress, said, none, reason);
    } else if !flags.json {
        lemma_occurs_inside(
            "\nLocal heuristics could not confirm one logical change ("@,
            reason,
            ").\nRerun without --offline for a full AI analysis (requires `commitor login`).\n"@,
        );
        lemma_occurs_in_part(progress, said, none, reason);
    }
}

/// The confidence of an analysis and the model behind it are told as such.
pub proof fn lemma_the_confidence_is_told(
    flags: ScanFlags,
    files: Seq<Seq<char>>,
    response: ResponseView,
    color: bool,
)
    requires
        !flags.markdown,
        !flags.json,
        response.groups.len() > 1,
        response.confidence is Some,
    ensures
        occurs(answer_text(flags, files, response, color), "(confidence "@ + response.confidence->0),
        response.model_tier matches Some(tier) ==> occurs(
            answer_text(flags, files, response, color),
            "model tier: "@ + tier + ")"@,
        ),
{
    let reason = local_reason(files);
    let c = response.confidence->0;
    let told = confidence_text(response.confidence, response.model_tier);
    let head = styled("31"@, "✗ This commit looks mixed"@, color) + "\n  local hint: "@ + reason
        + "\n\n"@ + mixed_entries(response.groups);
    let tail = "Run `commitor commit` to split this into separate commits.\n"@;
    assert(mixed_text(response, reason, color) =~= head + told + tail);
    let none: Seq<char> = Seq::empty();
    match response.model_tier {
        Some(tier) => {
            reveal_strlit(", model tier: ");
            reveal_strlit("model tier: ");
            reveal_strlit(")\n");
            reveal_strlit(")");
            reveal_strlit("\n");
            let a = "(confidence "@ + c;
            let b = "model tier: "@ + tier + ")"@;
            assert(told =~= none + a + (", model tier: "@ + tier + ")\n"@));
            lemma_occurs_inside(none, a, ", model tier: "@ + tier + ")\n"@);
            assert(told =~= (a + seq![',', ' ']) + b + "\n"@);
            lemma_occurs_inside(a + seq![',', ' '], b, "\n"@);
            lemma_occurs_in_part(head, told, tail, a);
            lemma_occurs_in_part(head, told, tail, b);
        },
        None => {
            let a = "(confidence "@ + c;
            assert(told =~= none + a + ")\n"@);
            lemma_occurs_inside(none, a, ")\n"@);
            lemma_occurs_in_part(head, told, tail, a);
        },
    }
}

} // verus!
