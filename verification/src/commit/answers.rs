//! What a typed line means.

use vstd::prelude::*;
use vstd::utf8::is_ascii_chars;

use crate::letters::{ascii_lowered, lowercase_of, to_lowercase};
use crate::text::{chars_of, is_text, same_text, text_of, trim, trimmed};

verus! {

/// What to do with a proposed message or plan.
#[derive(Debug, Clone, Copy, PartialEq, Eq, Structural)]
pub enum Choice {
    Accept,
    Edit,
    Cancel,
}

/// What to do when the analysis or its proposal failed.
#[derive(Debug, Clone, Copy, PartialEq, Eq, Structural)]
pub enum RetryDecision {
    Retry,
    Offline,
    Cancel,
}

/// The choice that a line stands for, where it stands for one. The end of the
/// input, a line without a single character, cancels; a blank line accepts.
pub open spec fn choice_of(line: Seq<char>) -> Option<Choice> {
    let answer = trimmed(line);
    if line.len() == 0 {
        Some(Choice::Cancel)
    } else if answer == ""@ || answer == "a"@ || answer == "A"@ {
        Some(Choice::Accept)
    } else if answer == "e"@ || answer == "E"@ {
        Some(Choice::Edit)
    } else if answer == "c"@ || answer == "C"@ {
        Some(Choice::Cancel)
    } else {
        None
    }
}

/// The decision that a line stands for, where it stands for one. The end of
/// the input cancels; a blank line retries.
pub open spec fn retry_of(line: Seq<char>) -> Option<RetryDecision> {
    let answer = trimmed(line);
    if line.len() == 0 {
        Some(RetryDecision::Cancel)
    } else if answer == ""@ || answer == "r"@ || answer == "R"@ {
        Some(RetryDecision::Retry)
    } else if answer == "o"@ || answer == "O"@ {
        Some(RetryDecision::Offline)
    } else if answer == "c"@ || answer == "C"@ {
        Some(RetryDecision::Cancel)
    } else {
        None
    }
}

/// The line says yes.
pub open spec fn says_yes(line: Seq<char>) -> bool {
    let answer = lowercase_of(trimmed(line));
    answer == "y"@ || answer == "yes"@
}

/// Read a line as a choice.
pub fn prompt_choice(line: &str) -> (r: Option<Choice>)
    ensures
        r == choice_of(line@),
{
    let chars = chars_of(line);
    if chars.len() == 0 {
        return Some(Choice::Cancel);
    }
    let answer = trim(chars.as_slice());
    if is_text(answer, "") || is_text(answer, "a") || is_text(answer, "A") {
        Some(Choice::Accept)
    } else if is_text(answer, "e") || is_text(answer, "E") {
        Some(Choice::Edit)
    } else if is_text(answer, "c") || is_text(answer, "C") {
        Some(Choice::Cancel)
    } else {
        None
    }
}

/// Read a line as a decision to retry.
pub fn prompt_retry(line: &str) -> (r: Option<RetryDecision>)
    ensures
        r == retry_of(line@),
{
    let chars = chars_of(line);
    if chars.len() == 0 {
        return Some(RetryDecision::Cancel);
    }
    let answer = trim(chars.as_slice());
    if is_text(answer, "") || is_text(answer, "r") || is_text(answer, "R") {
        Some(RetryDecision::Retry)
    } else if is_text(answer, "o") || is_text(answer, "O") {
        Some(RetryDecision::Offline)
    } else if is_text(answer, "c") || is_text(answer, "C") {
        Some(RetryDecision::Cancel)
    } else {
        None
    }
}

/// Read a line as a confirmation. Only `y` and `yes`, in any case, confirm.
pub fn prompt_confirm(line: &str) -> (r: bool)
    ensures
        r == says_yes(line@),
        is_ascii_chars(trimmed(line@)) ==> r == (ascii_lowered(trimmed(line@)) == "y"@
            || ascii_lowered(trimmed(line@)) == "yes"@),
{
    let answer = to_lowercase(prompt_line(line).as_str());
    same_text(answer.as_str(), "y") || same_text(answer.as_str(), "yes")
}

/// Read a line as a text, without white space at its ends.
pub fn prompt_line(line: &str) -> (r: String)
    ensures
        r@ == trimmed(line@),
{
    let chars = chars_of(line);
    text_of(trim(chars.as_slice()))
}

} // verus!
