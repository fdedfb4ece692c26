//! Questions to the Gemini API and its answers.

use vstd::prelude::*;

use crate::number::{decimal, decimal_of};
use crate::pieces::{replace, replaced};

verus! {

/// The model that is asked.
pub const MODEL: &'static str = "gemini-3.7-flash";

/// The address of a model, with a placeholder for its name.
pub const API_URL_FORMAT: &'static str =
    "https://generativelanguage.googleapis.com/v1beta/models/{model}:generateContent";

/// The address of the model that is asked.
pub fn api_url() -> (r: String)
    ensures
        r@ == replaced(API_URL_FORMAT@, "{model}"@, MODEL@),
{
    proof {
        reveal_strlit("{model}");
    }
    replace(API_URL_FORMAT, "{model}", MODEL)
}

/// One answer, as a list of texts.
#[derive(Debug, Clone)]
pub struct Candidate {
    pub parts: Vec<String>,
}

/// The answers of a model.
#[derive(Debug, Clone)]
pub struct GenerateResponse {
    pub candidates: Vec<Candidate>,
}

/// The first text of the first answer, where there is one.
pub open spec fn first_text_of(response: GenerateResponse) -> Option<Seq<char>> {
    if response.candidates@.len() > 0 && response.candidates@[0].parts@.len() > 0 {
        Some(response.candidates@[0].parts@[0]@)
    } else {
        None
    }
}

/// Take the first text of the first answer.
pub fn first_text(response: &GenerateResponse) -> (r: Result<String, String>)
    ensures
        match first_text_of(*response) {
            Some(t) => r matches Ok(out) && out@ == t,
            None => r matches Err(why) && why@ == "Gemini API response contained no text"@,
        },
{
    if response.candidates.len() > 0 && response.candidates[0].parts.len() > 0 {
        Ok(response.candidates[0].parts[0].clone())
    } else {
        Err("Gemini API response contained no text".to_owned())
    }
}

/// What a reply of the API means: a text, or why there is none. `parsed` is the
/// body of a good reply, or why it could not be read.
pub fn call_gemini(
    success: bool,
    status: u16,
    body: &str,
    parsed: &Result<GenerateResponse, String>,
) -> (r: Result<String, String>)
    ensures
        if !success {
            r matches Err(why) && why@ == "Gemini API returned HTTP "@ + decimal_of(status as nat)
                + ": "@ + body@
        } else {
            match parsed {
                Err(told) => r matches Err(why) && why@ == "failed to parse Gemini API response: "@
                    + told@,
                Ok(response) => match first_text_of(*response) {
                    Some(t) => r matches Ok(out) && out@ == t,
                    None => r matches Err(why) && why@ == "Gemini API response contained no text"@,
                },
            }
        },
{
    if !success {
        let mut why = "Gemini API returned HTTP ".to_owned();
        why.append(decimal(status as u64).as_str());
        why.append(": ");
        why.append(body);
        return Err(why);
    }
    match parsed {
        Err(told) => {
            let mut why = "failed to parse Gemini API response: ".to_owned();
            why.append(told.as_str());
            Err(why)
        },
        Ok(response) => first_text(response),
    }
}

} // verus!
