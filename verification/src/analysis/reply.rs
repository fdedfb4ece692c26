//! What a reply of the backend means.

use vstd::prelude::*;

use crate::analysis::AnalyzeResponse;
use crate::auth::DASHBOARD_URL;
use crate::json::{json_member, member_in};
use crate::letters::{ascii_lowercase, ascii_lowered};
use crate::number::{decimal, decimal_of, parse_unsigned, unsigned_of};
use crate::text::{chars_of, is_text, text, text_of, text_ref, trim, trimmed};

verus! {

/// Seconds before an analysis gives up, unless the user sets another limit.
pub const ANALYZE_TIMEOUT_SECS: u64 = 180;

/// How many characters a patch may have on the free plan.
pub const MAX_PATCH_CHARS: usize = 190_000;

/// Where plans are sold.
pub const PRICING_URL: &'static str = "https://commitor.dev/pricing";

// ── quota ───────────────────────────────────────────────────────────

/// What is left of the daily quota, where the backend says so.
#[derive(Debug, Clone, Copy, Default)]
pub struct RateStatus {
    pub remaining: Option<u32>,
}

/// The hint that the quota runs out, where there is one to give.
pub open spec fn quota_hint(remaining: Option<u32>) -> Option<Seq<char>> {
    match remaining {
        Some(n) => if n > 3 {
            None
        } else if n == 1 {
            Some("1 analysis left today"@)
        } else {
            Some(decimal_of(n as nat) + " analyses left today"@)
        },
        None => None,
    }
}

impl RateStatus {
    /// The hint that the quota runs out, where there is one to give.
    pub fn low_quota_message(&self) -> (r: Option<String>)
        ensures
            text(r) == quota_hint(self.remaining),
    {
        match self.remaining {
            Some(n) => if n > 3 {
                None
            } else if n == 1 {
                Some("1 analysis left today".to_owned())
            } else {
                let mut out = decimal(n as u64);
                out.append(" analyses left today");
                Some(out)
            },
            None => None,
        }
    }
}

/// The quota that a header states; a header that is no number states none.
pub open spec fn stated_quota(header: Option<Seq<char>>) -> Option<nat> {
    match header {
        Some(value) => unsigned_of(value, u32::MAX as nat),
        None => None,
    }
}

/// Read the quota from the header `x-ratelimit-remaining`.
pub fn parse_rate_status(header: Option<&str>) -> (r: RateStatus)
    ensures
        match r.remaining {
            Some(n) => stated_quota(text_ref(header)) == Some(n as nat),
            None => stated_quota(text_ref(header)) is None,
        },
{
    let remaining: Option<u32> = match header {
        Some(value) => {
            let chars = chars_of(value);
            match parse_unsigned(chars.as_slice(), u32::MAX as u64) {
                Some(n) => Some(n as u32),
                None => None,
            }
        },
        None => None,
    };
    RateStatus { remaining }
}

// ── errors ──────────────────────────────────────────────────────────

/// Why there is no analysis.
#[derive(Debug, Clone)]
pub enum AnalyzeError {
    /// The quota is used up.
    RateLimited(String),
    /// The backend cannot be reached or does not answer as it should.
    Unavailable(String),
    /// The key was rejected.
    InvalidKey(String),
    /// Anything else.
    Other(String),
}

/// An error with its message as a text.
pub enum AnalyzeErrorView {
    RateLimited(Seq<char>),
    Unavailable(Seq<char>),
    InvalidKey(Seq<char>),
    Other(Seq<char>),
}

impl View for AnalyzeError {
    type V = AnalyzeErrorView;

    open spec fn view(&self) -> AnalyzeErrorView {
        match self {
            AnalyzeError::RateLimited(m) => AnalyzeErrorView::RateLimited(m@),
            AnalyzeError::Unavailable(m) => AnalyzeErrorView::Unavailable(m@),
            AnalyzeError::InvalidKey(m) => AnalyzeErrorView::InvalidKey(m@),
            AnalyzeError::Other(m) => AnalyzeErrorView::Other(m@),
        }
    }
}

/// The message of an error.
pub open spec fn error_message(error: AnalyzeErrorView) -> Seq<char> {
    match error {
        AnalyzeErrorView::RateLimited(m) => m,
        AnalyzeErrorView::Unavailable(m) => m,
        AnalyzeErrorView::InvalidKey(m) => m,
        AnalyzeErrorView::Other(m) => m,
    }
}

impl AnalyzeError {
    /// What is shown of the error.
    pub fn message(&self) -> (r: String)
        ensures
            r@ == error_message(self@),
    {
        match self {
            AnalyzeError::RateLimited(m) => m.clone(),
            AnalyzeError::Unavailable(m) => m.clone(),
            AnalyzeError::InvalidKey(m) => m.clone(),
            AnalyzeError::Other(m) => m.clone(),
        }
    }
}

// ── before the request ──────────────────────────────────────────────

/// The plan is a paid one. A plan that is empty or could not be verified is
/// not.
pub open spec fn is_paid(plan: Option<Seq<char>>) -> bool {
    match plan {
        Some(p) => p.len() > 0 && ascii_lowered(p) != "free"@,
        None => false,
    }
}

/// Whether the account is on a paid plan.
pub fn is_pro(plan: Option<&str>) -> (r: bool)
    ensures
        r == is_paid(text_ref(plan)),
{
    match plan {
        Some(p) => {
            let chars = chars_of(p);
            let lowered = ascii_lowercase(chars.as_slice());
            chars.len() > 0 && !is_text(lowered.as_slice(), "free")
        },
        None => false,
    }
}

/// What is said of a patch that is too large.
pub open spec fn too_large_text() -> Seq<char> {
    "The change is too large for analysis (>"@ + decimal_of(MAX_PATCH_CHARS as nat)
        + " characters).\nLarge diffs are a Commitor Pro feature — upgrade at "@ + PRICING_URL@
        + " to analyze\nchanges this big. Or split the changes into smaller commits manually."@
}

/// Refuse a patch that is too large for the plan. Paid plans have no limit
/// here.
pub fn enforce_size_guard(plan: Option<&str>, patch: &str) -> (r: Result<(), AnalyzeError>)
    ensures
        match r {
            Ok(_) => is_paid(text_ref(plan)) || patch@.len() <= MAX_PATCH_CHARS,
            Err(e) => !is_paid(text_ref(plan)) && patch@.len() > MAX_PATCH_CHARS && e@
                == AnalyzeErrorView::Other(too_large_text()),
        },
{
    if is_pro(plan) {
        return Ok(());
    }
    if chars_of(patch).len() > MAX_PATCH_CHARS {
        let mut out = "The change is too large for analysis (>".to_owned();
        out.append(decimal(MAX_PATCH_CHARS as u64).as_str());
        out.append(" characters).\nLarge diffs are a Commitor Pro feature — upgrade at ");
        out.append(PRICING_URL);
        out.append(
            " to analyze\nchanges this big. Or split the changes into smaller commits manually.",
        );
        return Err(AnalyzeError::Other(out));
    }
    Ok(())
}

/// The limit in seconds: a positive number where the user sets one, else the
/// usual one.
pub open spec fn timeout_of(setting: Option<Seq<char>>) -> nat {
    match setting {
        Some(value) => match unsigned_of(trimmed(value), u64::MAX as nat) {
            Some(n) => if n > 0 {
                n
            } else {
                ANALYZE_TIMEOUT_SECS as nat
            },
            None => ANALYZE_TIMEOUT_SECS as nat,
        },
        None => ANALYZE_TIMEOUT_SECS as nat,
    }
}

/// Seconds before an analysis gives up. `setting` is the value of
/// `COMMITOR_TIMEOUT_SECS`, where it is set.
pub fn analyze_timeout(setting: Option<&str>) -> (r: u64)
    ensures
        r == timeout_of(text_ref(setting)),
{
    match setting {
        Some(value) => {
            let chars = chars_of(value);
            match parse_unsigned(trim(chars.as_slice()), u64::MAX) {
                Some(n) => if n > 0 {
                    n
                } else {
                    ANALYZE_TIMEOUT_SECS
                },
                None => ANALYZE_TIMEOUT_SECS,
            }
        },
        None => ANALYZE_TIMEOUT_SECS,
    }
}

/// The address that a patch is sent to.
pub fn analyze_url(base: &str) -> (r: String)
    ensures
        r@ == base@ + "/analyze"@,
{
    let mut out = base.to_owned();
    out.append("/analyze");
    out
}

// ── the reply ───────────────────────────────────────────────────────

/// The text under `key` in a JSON object.
pub open spec fn text_under(body: Seq<char>, key: Seq<char>) -> Option<Seq<char>> {
    match member_in(body, key) {
        Some(Some(m)) => m.0,
        _ => None,
    }
}

/// The number under `key` in a JSON object.
pub open spec fn number_under(body: Seq<char>, key: Seq<char>) -> Option<u64> {
    match member_in(body, key) {
        Some(Some(m)) => m.1,
        _ => None,
    }
}

fn find_text(body: &str, key: &str) -> (r: Option<String>)
    ensures
        text(r) == text_under(body@, key@),
{
    match json_member(body, key) {
        Some(Some(m)) => m.text,
        _ => None,
    }
}


/// What is said where the backend found the change too large: its own message,
/// where it gives one.
pub open spec fn refused_size_text(message: Option<Seq<char>>) -> Seq<char> {
    match message {
        Some(m) => m,
        None => "This change is too large to analyze on your plan. Upgrade at https://commitor.dev/pricing for larger diffs."@,
    }
}

/// Say that the change is too large, in the words of the backend where it
/// gives a message.
pub fn diff_too_large(message: Option<String>) -> (r: String)
    ensures
        r@ == refused_size_text(text(message)),
{
    match message {
        Some(m) => m,
        None => "This change is too large to analyze on your plan. Upgrade at https://commitor.dev/pricing for larger diffs.".to_owned(),
    }
}

/// Turn the body of a refusal for size into a message.
pub fn describe_diff_too_large(body: &str) -> (r: String)
    ensures
        r@ == refused_size_text(text_under(body@, "message"@)),
{
    diff_too_large(find_text(body, "message"))
}

/// What is said where the quota is used up. `is_json` tells whether the body
/// could be read at all.
pub open spec fn quota_text(
    is_json: bool,
    limit: Option<u64>,
    reset_at: Option<Seq<char>>,
    message: Option<Seq<char>>,
) -> Seq<char> {
    let pricing = PRICING_URL@;
    if !is_json {
        "You've hit your usage limit. Wait a bit and try again, or see "@ + pricing
            + " for higher limits."@
    } else if limit is Some && reset_at is Some {
        "You've hit your daily limit ("@ + decimal_of(limit->0 as nat) + "/"@ + decimal_of(
            limit->0 as nat,
        ) + " analyses) — resets at "@ + reset_at->0 + ". Upgrade at "@ + pricing + " for more."@
    } else {
        match message {
            Some(m) => m + " See "@ + pricing + " for higher limits."@,
            None => "You've hit your usage limit. See "@ + pricing + " for higher limits."@,
        }
    }
}

/// Say that the quota is used up, with what the backend tells of it.
pub fn rate_limit_message(
    is_json: bool,
    limit: Option<u64>,
    reset_at: Option<String>,
    message: Option<String>,
) -> (r: String)
    ensures
        r@ == quota_text(is_json, limit, text(reset_at), text(message)),
{
    if !is_json {
        let mut out = "You've hit your usage limit. Wait a bit and try again, or see ".to_owned();
        out.append(PRICING_URL);
        out.append(" for higher limits.");
        return out;
    }
    match (limit, reset_at) {
        (Some(n), Some(at)) => {
            let mut out = "You've hit your daily limit (".to_owned();
            out.append(decimal(n).as_str());
            out.append("/");
            out.append(decimal(n).as_str());
            out.append(" analyses) — resets at ");
            out.append(at.as_str());
            out.append(". Upgrade at ");
            out.append(PRICING_URL);
            out.append(" for more.");
            out
        },
        _ => match message {
            Some(m) => {
                let mut out = m;
                out.append(" See ");
                out.append(PRICING_URL);
                out.append(" for higher limits.");
                out
            },
            None => {
                let mut out = "You've hit your usage limit. See ".to_owned();
                out.append(PRICING_URL);
                out.append(" for higher limits.");
                out
            },
        },
    }
}

/// What the body of a refusal for quota is turned into.
pub open spec fn quota_refusal(body: Seq<char>) -> Seq<char> {
    quota_text(
        member_in(body, "limit"@) is Some,
        number_under(body, "limit"@),
        text_under(body, "reset_at"@),
        text_under(body, "message"@),
    )
}

/// Turn the body of a refusal for quota into a message.
pub fn describe_rate_limit(body: &str) -> (r: String)
    ensures
        r@ == quota_refusal(body@),
{
    let (is_json, limit): (bool, Option<u64>) = match json_member(body, "limit") {
        None => (false, None),
        Some(None) => (true, None),
        Some(Some(m)) => (true, m.number),
    };
    let reset_at = find_text(body, "reset_at");
    let message = find_text(body, "message");
    rate_limit_message(is_json, limit, reset_at, message)
}

/// What came of sending a patch.
#[derive(Debug)]
pub enum Reply {
    /// No answer came, for this reason.
    Unreachable(String),
    /// An answer with this status. `parsed` is the body of a good answer, or
    /// why it could not be read.
    Answer {
        status: u16,
        status_text: String,
        remaining: Option<String>,
        body: String,
        parsed: Result<AnalyzeResponse, String>,
    },
}

/// The first 200 characters.
pub open spec fn snippet_of(body: Seq<char>) -> Seq<char> {
    if body.len() <= 200 {
        body
    } else {
        body.take(200)
    }
}

/// What is said of an answer with an unexpected status.
pub open spec fn odd_status_text(status_text: Seq<char>, url: Seq<char>, body: Seq<char>) -> Seq<
    char,
> {
    let head = "Commitor API returned HTTP "@ + status_text + " for "@ + url;
    if body.len() == 0 {
        head
    } else {
        head + "\nServer said: "@ + snippet_of(body)
    }
}

/// Take the first 200 characters.
pub fn snippet(body: &str) -> (r: String)
    ensures
        r@ == snippet_of(body@),
{
    let chars = chars_of(body);
    if chars.len() <= 200 {
        body.to_owned()
    } else {
        assert(chars@.subrange(0, 200) =~= chars@.take(200));
        text_of(&chars.as_slice()[0..200])
    }
}

/// Say that an answer has an unexpected status.
pub fn odd_status(status_text: &str, url: &str, body: &str) -> (r: String)
    ensures
        r@ == odd_status_text(status_text@, url@, body@),
{
    let mut out = "Commitor API returned HTTP ".to_owned();
    out.append(status_text);
    out.append(" for ");
    out.append(url);
    let shown = snippet(body);
    if chars_of(body).len() > 0 {
        out.append("\nServer said: ");
        out.append(shown.as_str());
    }
    out
}

/// What a failed request means, for each status but success.
pub open spec fn reply_error(
    status: u16,
    status_text: Seq<char>,
    url: Seq<char>,
    body: Seq<char>,
) -> AnalyzeErrorView {
    if status == 401 || status == 403 {
        AnalyzeErrorView::InvalidKey(
            "Your stored API key was rejected (HTTP "@ + status_text
                + ") — it may have expired or been revoked.\nRun `commitor login --key <your-key>` again (get a key at "@
                + DASHBOARD_URL@ + ")"@,
        )
    } else if status == 429 {
        AnalyzeErrorView::RateLimited(quota_refusal(body))
    } else if status == 413 {
        AnalyzeErrorView::Other(refused_size_text(text_under(body, "message"@)))
    } else {
        AnalyzeErrorView::Unavailable(odd_status_text(status_text, url, body))
    }
}

/// What is said where no answer came.
pub open spec fn unreachable_text(url: Seq<char>, cause: Seq<char>) -> Seq<char> {
    "couldn't reach the Commitor API at "@ + url + " ("@ + cause
        + "). Is your backend running? Set COMMITOR_API_URL if it lives elsewhere."@
}

/// What is said of a good answer that cannot be read.
pub open spec fn schema_text(url: Seq<char>, why: Seq<char>) -> Seq<char> {
    url + " returned a response that doesn't match the analyze schema: "@ + why
}

fn refuse(status: u16, status_text: &str, url: &str, body: &str) -> (r: AnalyzeError)
    ensures
        r@ == reply_error(status, status_text@, url@, body@),
{
    if status == 401 || status == 403 {
        let mut out = "Your stored API key was rejected (HTTP ".to_owned();
        out.append(status_text);
        out.append(
            ") — it may have expired or been revoked.\nRun `commitor login --key <your-key>` again (get a key at ",
        );
        out.append(DASHBOARD_URL);
        out.append(")");
        AnalyzeError::InvalidKey(out)
    } else if status == 429 {
        AnalyzeError::RateLimited(describe_rate_limit(body))
    } else if status == 413 {
        AnalyzeError::Other(describe_diff_too_large(body))
    } else {
        AnalyzeError::Unavailable(odd_status(status_text, url, body))
    }
}

/// What a reply means: an analysis with what is left of the quota, or why
/// there is none.
pub fn analyze_request(url: &str, reply: Reply) -> (r: Result<
    (AnalyzeResponse, RateStatus),
    AnalyzeError,
>)
    ensures
        match reply {
            Reply::Unreachable(cause) => r matches Err(e) && e@ == AnalyzeErrorView::Unavailable(
                unreachable_text(url@, cause@),
            ),
            Reply::Answer { status, status_text, remaining, body, parsed } => if status == 200 {
                match parsed {
                    Ok(answer) => r matches Ok((a, rate)) && a == answer && match rate.remaining {
                        Some(n) => stated_quota(text(remaining)) == Some(n as nat),
                        None => stated_quota(text(remaining)) is None,
                    },
                    Err(why) => r matches Err(e) && e@ == AnalyzeErrorView::Other(
                        schema_text(url@, why@),
                    ),
                }
            } else {
                r matches Err(e) && e@ == reply_error(status, status_text@, url@, body@)
            },
        },
{
    match reply {
        Reply::Unreachable(cause) => {
            let mut out = "couldn't reach the Commitor API at ".to_owned();
            out.append(url);
            out.append(" (");
            out.append(cause.as_str());
            out.append("). Is your backend running? Set COMMITOR_API_URL if it lives elsewhere.");
            Err(AnalyzeError::Unavailable(out))
        },
        Reply::Answer { status, status_text, remaining, body, parsed } => {
            if status == 200 {
                match parsed {
                    Ok(answer) => {
                        let rate = match &remaining {
                            Some(header) => parse_rate_status(Some(header.as_str())),
                            None => parse_rate_status(None),
                        };
                        Ok((answer, rate))
                    },
                    Err(why) => {
                        let mut out = url.to_owned();
                        out.append(
                            " returned a response that doesn't match the analyze schema: ",
                        );
                        out.append(why.as_str());
                        Err(AnalyzeError::Other(out))
                    },
                }
            } else {
                Err(refuse(status, status_text.as_str(), url, body.as_str()))
            }
        },
    }
}

} // verus!
