//! Where the backend is.

use vstd::prelude::*;

use crate::text::{
    chars_of, just, lemma_drop_back, text_of, text_ref, trim, trim_trailing, trimmed,
    without_trailing,
};

verus! {

/// The backend, unless the user names another.
pub const DEFAULT_API_URL: &'static str = "https://commitor-api.vercel.app";

/// The address of the backend, without slashes at its end. A blank setting
/// counts as none.
pub open spec fn base_url_of(setting: Option<Seq<char>>) -> Seq<char> {
    without_trailing(
        match setting {
            Some(url) => if trimmed(url).len() > 0 {
                url
            } else {
                DEFAULT_API_URL@
            },
            None => DEFAULT_API_URL@,
        },
        '/',
    )
}

/// The address of the backend. `setting` is the value of `COMMITOR_API_URL`,
/// where it is set.
pub fn api_base_url(setting: Option<&str>) -> (r: String)
    ensures
        r@ == base_url_of(text_ref(setting)),
        r@.len() > 0 ==> r@.last() != '/',
{
    let url: &str = match setting {
        Some(url) => {
            let chars = chars_of(url);
            if trim(chars.as_slice()).len() > 0 {
                url
            } else {
                DEFAULT_API_URL
            }
        },
        None => DEFAULT_API_URL,
    };
    let chars = chars_of(url);
    proof {
        lemma_drop_back(chars@, just('/'));
    }
    text_of(trim_trailing(chars.as_slice(), '/'))
}

} // verus!
