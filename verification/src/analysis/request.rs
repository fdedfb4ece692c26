//! What is sent to the backend, and when it may be sent.

use vstd::prelude::*;

use crate::analysis::AnalyzeRequest;
use crate::analysis::reply::{
    enforce_size_guard, is_paid, too_large_text, AnalyzeError, AnalyzeErrorView, MAX_PATCH_CHARS,
};
use crate::text::text_ref;

verus! {

/// The patch is too large for the plan.
pub open spec fn is_oversized(plan: Option<Seq<char>>, patch: Seq<char>) -> bool {
    !is_paid(plan) && patch.len() > MAX_PATCH_CHARS
}

/// The request asks for the analysis of this patch, with this context and in
/// this mode.
pub open spec fn asks_for(
    request: AnalyzeRequest,
    patch: Seq<char>,
    context: Option<Seq<char>>,
    mode: Seq<char>,
) -> bool {
    &&& request.diff@ == patch
    &&& text_ref(request.context) == context
    &&& text_ref(request.mode) == Some(mode)
}

/// Make the request for a patch in a mode, unless the patch is too large for
/// the plan of the account.
pub fn analyze_with_mode<'a>(
    plan: Option<&str>,
    patch: &'a str,
    mode: &'a str,
    context: Option<&'a str>,
) -> (r: Result<AnalyzeRequest<'a>, AnalyzeError>)
    ensures
        match r {
            Ok(request) => !is_oversized(text_ref(plan), patch@) && asks_for(
                request,
                patch@,
                text_ref(context),
                mode@,
            ),
            Err(e) => is_oversized(text_ref(plan), patch@) && e@ == AnalyzeErrorView::Other(
                too_large_text(),
            ),
        },
{
    match enforce_size_guard(plan, patch) {
        Ok(_) => Ok(AnalyzeRequest { diff: patch, context, mode: Some(mode) }),
        Err(e) => Err(e),
    }
}

/// Make the request for a scan.
pub fn analyze_with_key<'a>(
    plan: Option<&str>,
    patch: &'a str,
    context: Option<&'a str>,
) -> (r: Result<AnalyzeRequest<'a>, AnalyzeError>)
    ensures
        match r {
            Ok(request) => !is_oversized(text_ref(plan), patch@) && asks_for(
                request,
                patch@,
                text_ref(context),
                "scan"@,
            ),
            Err(e) => is_oversized(text_ref(plan), patch@) && e@ == AnalyzeErrorView::Other(
                too_large_text(),
            ),
        },
{
    analyze_with_mode(plan, patch, "scan", context)
}

/// Make the request for a scan where a key is stored. Without one, the reason
/// is the error.
pub fn analyze_patch<'a>(
    api_key: &Result<String, String>,
    plan: Option<&str>,
    patch: &'a str,
    context: Option<&'a str>,
) -> (r: Result<AnalyzeRequest<'a>, AnalyzeError>)
    ensures
        match api_key {
            Err(why) => r matches Err(e) && e@ == AnalyzeErrorView::Other(why@),
            Ok(_) => match r {
                Ok(request) => !is_oversized(text_ref(plan), patch@) && asks_for(
                    request,
                    patch@,
                    text_ref(context),
                    "scan"@,
                ),
                Err(e) => is_oversized(text_ref(plan), patch@) && e@ == AnalyzeErrorView::Other(
                    too_large_text(),
                ),
            },
        },
{
    match api_key {
        Err(why) => Err(AnalyzeError::Other(why.clone())),
        Ok(_) => analyze_with_key(plan, patch, context),
    }
}

} // verus!
