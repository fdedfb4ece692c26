//! Keys, accounts and plans.

use vstd::prelude::*;

use crate::analysis::reply::{is_paid, odd_status, odd_status_text};
use crate::letters::{ascii_lowercase, ascii_lowered};
use crate::text::{among, chars_of, is_one_of, is_text, text, text_of, trim, trimmed};

verus! {

/// Where users manage their keys.
pub const DASHBOARD_URL: &'static str = "https://commitor-web.vercel.app/dashboard";

/// Where users sign in.
pub const FRONTEND_URL: &'static str = "https://commitor-web.vercel.app";

/// Seconds before a request for an account gives up.
pub const API_TIMEOUT_SECS: u64 = 15;

/// The port on which the browser hands over a key.
pub const CALLBACK_PORT: u16 = 18745;

// ── the account ─────────────────────────────────────────────────────

/// An account, as the backend describes it.
#[derive(Debug, Clone)]
pub struct MeResponse {
    pub email: String,
    pub plan: Option<String>,
    /// Whether the account is an admin, where the backend says so.
    pub admin: Option<bool>,
}

/// An account as texts.
pub struct MeView {
    pub email: Seq<char>,
    pub plan: Option<Seq<char>>,
    pub admin: Option<bool>,
}

impl View for MeResponse {
    type V = MeView;

    open spec fn view(&self) -> MeView {
        MeView { email: self.email@, plan: text(self.plan), admin: self.admin }
    }
}

/// The plan of an account: the free one where none is named.
pub open spec fn plan_of(me: MeView) -> Seq<char> {
    match me.plan {
        Some(p) => p,
        None => "free"@,
    }
}

/// The backend says that the account is an admin.
pub open spec fn admin_of(me: MeView) -> bool {
    me.admin == Some(true)
}

fn plan_name(me: &MeResponse) -> (r: String)
    ensures
        r@ == plan_of(me@),
{
    match &me.plan {
        Some(p) => p.clone(),
        None => "free".to_owned(),
    }
}

/// The plan of the account behind a key, or why it is not known.
pub fn plan_for_key(me: &Result<MeResponse, String>) -> (r: Result<String, String>)
    ensures
        match me {
            Ok(account) => r matches Ok(plan) && plan@ == plan_of(account@),
            Err(why) => r matches Err(e) && e@ == why@,
        },
{
    match me {
        Ok(account) => Ok(plan_name(account)),
        Err(why) => Err(why.clone()),
    }
}

/// Whether the backend says that the account behind a key is an admin, or why
/// that is not known.
pub fn backend_is_admin(me: &Result<MeResponse, String>) -> (r: Result<bool, String>)
    ensures
        match me {
            Ok(account) => r == Ok::<bool, String>(admin_of(account@)),
            Err(why) => r matches Err(e) && e@ == why@,
        },
{
    match me {
        Ok(account) => Ok(
            match account.admin {
                Some(admin) => admin,
                None => false,
            },
        ),
        Err(why) => Err(why.clone()),
    }
}

/// Plans with all features.
pub open spec fn pro_plans() -> Seq<&'static str> {
    seq!["pro", "team", "enterprise"]
}

/// The plan has all features. White space around it and case do not matter.
pub open spec fn is_pro_plan(plan: Seq<char>) -> bool {
    let name = ascii_lowered(trimmed(plan));
    name == "admin"@ || among(name, pro_plans())
}

/// Whether a plan has all features.
pub fn has_pro_access(plan: &str) -> (r: bool)
    ensures
        r == is_pro_plan(plan@),
{
    let chars = chars_of(plan);
    let name = ascii_lowercase(trim(chars.as_slice()));
    let plans: Vec<&str> = vec!["pro", "team", "enterprise"];
    assert(plans@ =~= pro_plans());
    is_text(name.as_slice(), "admin") || is_one_of(name.as_slice(), plans.as_slice())
}

/// The plan that counts: that of an admin where the role is granted on this
/// machine, else that of the account, where it is known.
pub open spec fn plan_that_counts(local_admin: bool, me: Option<MeView>) -> Option<Seq<char>> {
    if local_admin {
        Some("admin"@)
    } else {
        match me {
            Some(account) => Some(plan_of(account)),
            None => None,
        }
    }
}

/// The account, where it is known.
pub open spec fn known(me: Result<MeResponse, String>) -> Option<MeView> {
    match me {
        Ok(account) => Some(account@),
        Err(_) => None,
    }
}

/// The plan that counts, or why it is not known.
pub fn effective_plan(local_admin: bool, me: &Result<MeResponse, String>) -> (r: Result<
    String,
    String,
>)
    ensures
        match r {
            Ok(plan) => plan_that_counts(local_admin, known(*me)) == Some(plan@),
            Err(e) => plan_that_counts(local_admin, known(*me)) is None && (me matches Err(why)
                && e@ == why@),
        },
{
    if local_admin {
        Ok("admin".to_owned())
    } else {
        plan_for_key(me)
    }
}

// ── the stored key ──────────────────────────────────────────────────

/// What the file with the credentials holds.
#[derive(Debug)]
pub enum KeyFile {
    /// There is no file.
    Missing,
    /// The file cannot be read.
    Unreadable(String),
    /// The file holds no credentials.
    Malformed(String),
    /// The stored key.
    Key(String),
}

/// What is said where no key is stored.
pub open spec fn not_logged_in_text() -> Seq<char> {
    "Not logged in. Run `commitor login` (opens your browser) or `commitor login --key <your-key>` — get a key at "@
        + DASHBOARD_URL@
}

/// The stored key, or why there is none.
pub open spec fn stored_key(file: KeyFile, path: Seq<char>) -> Result<Seq<char>, Seq<char>> {
    match file {
        KeyFile::Missing => Err(not_logged_in_text()),
        KeyFile::Unreadable(why) => Err("failed to read "@ + path + ": "@ + why@),
        KeyFile::Malformed(why) => Err(path + " is not valid TOML: "@ + why@),
        KeyFile::Key(key) => if trimmed(key@).len() == 0 {
            Err(path + " has an empty api_key — log in again to fix it"@)
        } else {
            Ok(trimmed(key@))
        },
    }
}

/// Say that no key is stored.
pub fn not_logged_in_error() -> (r: String)
    ensures
        r@ == not_logged_in_text(),
{
    let mut out =
        "Not logged in. Run `commitor login` (opens your browser) or `commitor login --key <your-key>` — get a key at ".to_owned();
    out.append(DASHBOARD_URL);
    out
}

/// Take the key out of what the file with the credentials holds.
pub fn load_api_key(file: &KeyFile, path: &str) -> (r: Result<String, String>)
    ensures
        match r {
            Ok(key) => stored_key(*file, path@) == Ok::<Seq<char>, Seq<char>>(key@),
            Err(why) => stored_key(*file, path@) == Err::<Seq<char>, Seq<char>>(why@),
        },
{
    match file {
        KeyFile::Missing => Err(not_logged_in_error()),
        KeyFile::Unreadable(why) => {
            let mut out = "failed to read ".to_owned();
            out.append(path);
            out.append(": ");
            out.append(why.as_str());
            Err(out)
        },
        KeyFile::Malformed(why) => {
            let mut out = path.to_owned();
            out.append(" is not valid TOML: ");
            out.append(why.as_str());
            Err(out)
        },
        KeyFile::Key(key) => {
            let chars = chars_of(key.as_str());
            let bare = trim(chars.as_slice());
            if bare.len() == 0 {
                let mut out = path.to_owned();
                out.append(" has an empty api_key — log in again to fix it");
                Err(out)
            } else {
                Ok(text_of(bare))
            }
        },
    }
}

/// A request to which a key can be attached.
pub trait WithBearer: Sized {
    /// Attach a key.
    fn set_bearer(self, api_key: &str) -> Self;
}

/// Attach a key to a request.
pub fn with_key<B: WithBearer>(request: B, api_key: &str) -> (r: B)
    ensures
        call_ensures(B::set_bearer, (request, api_key), r),
{
    request.set_bearer(api_key)
}

/// Attach the stored key to a request, or say why there is none.
pub fn authorized<B: WithBearer>(request: B, stored: Result<&str, String>) -> (r: Result<
    B,
    String,
>)
    ensures
        match stored {
            Ok(key) => r matches Ok(attached) && call_ensures(
                B::set_bearer,
                (request, key),
                attached,
            ),
            Err(why) => r == Err::<B, String>(why),
        },
{
    match stored {
        Ok(key) => Ok(with_key(request, key)),
        Err(why) => Err(why),
    }
}

// ── asking for the account ──────────────────────────────────────────

/// The address of the account.
pub fn me_url(base: &str) -> (r: String)
    ensures
        r@ == base@ + "/auth/me"@,
{
    let mut out = base.to_owned();
    out.append("/auth/me");
    out
}

/// The deepest cause of an error. The causes come from the outermost to the
/// deepest.
pub fn root_cause(chain: &[String]) -> (r: String)
    requires
        chain@.len() > 0,
    ensures
        r@ == chain@.last()@,
{
    chain[chain.len() - 1].clone()
}

/// What is said where no answer came.
pub fn unreachable_error(url: &str, cause: &str) -> (r: String)
    ensures
        r@ == "Couldn't reach the Commitor API at "@ + url@ + " ("@ + cause@
            + "). Is your server running? Set COMMITOR_API_URL if it lives elsewhere."@,
{
    let mut out = "Couldn't reach the Commitor API at ".to_owned();
    out.append(url);
    out.append(" (");
    out.append(cause);
    out.append("). Is your server running? Set COMMITOR_API_URL if it lives elsewhere.");
    out
}

/// What is said of an answer that is not the account, for each status.
pub open spec fn auth_error(
    status: u16,
    status_text: Seq<char>,
    url: Seq<char>,
    body: Seq<char>,
) -> Seq<char> {
    if status == 401 || status == 403 {
        "That API key was rejected by the backend (HTTP "@ + status_text
            + ").\nDouble-check it, or generate a new one at "@ + DASHBOARD_URL@
    } else if status == 404 {
        url + " has no /auth/me endpoint — is COMMITOR_API_URL pointing at the right server?"@
    } else {
        odd_status_text(status_text, url, body)
    }
}

/// What an answer means: the account, or why there is none. `parsed` is the
/// body of a good answer, or why it could not be read.
pub fn check_auth_status(
    status: u16,
    status_text: &str,
    url: &str,
    body: &str,
    parsed: Result<MeResponse, String>,
) -> (r: Result<MeResponse, String>)
    ensures
        if status == 200 {
            match parsed {
                Ok(me) => r == Ok::<MeResponse, String>(me),
                Err(why) => r matches Err(e) && e@ == url@
                    + " returned a malformed /auth/me response: "@ + why@,
            }
        } else {
            r matches Err(e) && e@ == auth_error(status, status_text@, url@, body@)
        },
{
    if status == 200 {
        match parsed {
            Ok(me) => Ok(me),
            Err(why) => {
                let mut out = url.to_owned();
                out.append(" returned a malformed /auth/me response: ");
                out.append(why.as_str());
                Err(out)
            },
        }
    } else if status == 401 || status == 403 {
        let mut out = "That API key was rejected by the backend (HTTP ".to_owned();
        out.append(status_text);
        out.append(").\nDouble-check it, or generate a new one at ");
        out.append(DASHBOARD_URL);
        Err(out)
    } else if status == 404 {
        let mut out = url.to_owned();
        out.append(
            " has no /auth/me endpoint — is COMMITOR_API_URL pointing at the right server?",
        );
        Err(out)
    } else {
        Err(odd_status(status_text, url, body))
    }
}

// ── logging in and out ──────────────────────────────────────────────

/// Take the key to log in with; a blank one is refused.
pub fn login(raw_key: &str) -> (r: Result<String, String>)
    ensures
        match r {
            Ok(key) => trimmed(raw_key@).len() > 0 && key@ == trimmed(raw_key@),
            Err(why) => trimmed(raw_key@).len() == 0 && why@
                == "The --key value is empty — pass the key from "@ + DASHBOARD_URL@,
        },
{
    let chars = chars_of(raw_key);
    let key = trim(chars.as_slice());
    if key.len() == 0 {
        let mut out = "The --key value is empty — pass the key from ".to_owned();
        out.append(DASHBOARD_URL);
        Err(out)
    } else {
        Ok(text_of(key))
    }
}

/// What is said before a key is tried.
pub fn validating_text(base: &str) -> (r: String)
    ensures
        r@ == "Validating key against "@ + base@ + "…\n"@,
{
    let mut out = "Validating key against ".to_owned();
    out.append(base);
    out.append("…\n");
    out
}

/// What is said after a login.
pub fn login_report(me: &MeResponse, path: &str) -> (r: String)
    ensures
        r@ == "Logged in as "@ + me.email@ + " ("@ + plan_of(me@)
            + " plan).\nCredentials stored at "@ + path@ + "\n"@,
{
    let mut out = "Logged in as ".to_owned();
    out.append(me.email.as_str());
    out.append(" (");
    out.append(plan_name(me).as_str());
    out.append(" plan).\nCredentials stored at ");
    out.append(path);
    out.append("\n");
    out
}

/// What came of removing a file.
#[derive(Debug)]
pub enum Removal {
    Removed,
    /// There was no file.
    Missing,
    Failed(String),
}

/// What is said where a file could not be removed.
pub open spec fn removal_error(path: Seq<char>, why: Seq<char>) -> Seq<char> {
    "failed to delete "@ + path + ": "@ + why
}

/// What is said after the credentials were removed, or why they were not.
pub fn logout(removal: &Removal, path: &str) -> (r: Result<String, String>)
    ensures
        match removal {
            Removal::Removed => r matches Ok(out) && out@ == "Logged out. Deleted "@ + path@
                + ".\n"@,
            Removal::Missing => r matches Ok(out) && out@
                == "You weren't logged in — nothing to remove.\n"@,
            Removal::Failed(why) => r matches Err(e) && e@ == removal_error(path@, why@),
        },
{
    match removal {
        Removal::Removed => {
            let mut out = "Logged out. Deleted ".to_owned();
            out.append(path);
            out.append(".\n");
            Ok(out)
        },
        Removal::Missing => Ok("You weren't logged in — nothing to remove.\n".to_owned()),
        Removal::Failed(why) => Err(say_removal_error(path, why.as_str())),
    }
}

/// Say that a file could not be removed.
pub fn say_removal_error(path: &str, why: &str) -> (r: String)
    ensures
        r@ == removal_error(path@, why@),
{
    let mut out = "failed to delete ".to_owned();
    out.append(path);
    out.append(": ");
    out.append(why);
    out
}

/// The account as it is shown. A role that is granted on this machine and
/// verified by the backend makes the plan that of an admin.
pub open spec fn whoami_text(me: MeView, local_admin: bool) -> Seq<char> {
    let backend_admin = admin_of(me);
    let shown = if local_admin && backend_admin {
        "admin"@
    } else {
        plan_of(me)
    };
    let head = me.email + " — "@ + shown + " plan\n"@;
    if local_admin && backend_admin {
        head + "admin: verified by backend — all pro features unlocked.\n"@
    } else if local_admin {
        head
            + "admin: a local grant is cached, but the backend no longer reports this account as admin. Run `commitor admin revoke`.\n"@
    } else if backend_admin {
        head
            + "admin: verified by backend, but not activated locally. Run `commitor gimme admin`.\n"@
    } else {
        head + "pro features: "@ + (if is_pro_plan(plan_of(me)) {
            "yes"@
        } else {
            "no"@
        }) + "\n"@
    }
}

/// Show the account behind the stored key.
pub fn whoami(me: &MeResponse, local_admin: bool) -> (r: String)
    ensures
        r@ == whoami_text(me@, local_admin),
{
    let backend_admin = match me.admin {
        Some(admin) => admin,
        None => false,
    };
    let plan = plan_name(me);
    let mut out = me.email.clone();
    out.append(" — ");
    if local_admin && backend_admin {
        out.append("admin");
    } else {
        out.append(plan.as_str());
    }
    out.append(" plan\n");
    if local_admin && backend_admin {
        out.append("admin: verified by backend — all pro features unlocked.\n");
    } else if local_admin {
        out.append(
            "admin: a local grant is cached, but the backend no longer reports this account as admin. Run `commitor admin revoke`.\n",
        );
    } else if backend_admin {
        out.append(
            "admin: verified by backend, but not activated locally. Run `commitor gimme admin`.\n",
        );
    } else {
        out.append("pro features: ");
        if has_pro_access(plan.as_str()) {
            out.append("yes");
        } else {
            out.append("no");
        }
        out.append("\n");
    }
    out
}

// ── laws ────────────────────────────────────────────────────────────

/// Who is an admin on this machine has all features and no limit on the size of
/// a patch, whatever the plan of the account, and also where the account is not
/// known.
pub proof fn lemma_admins_have_pro_access(me: Option<MeView>)
    ensures
        plan_that_counts(true, me) is Some,
        is_pro_plan(plan_that_counts(true, me)->0),
        is_paid(plan_that_counts(true, me)),
{
    reveal_strlit("admin");
    reveal_strlit("free");
    let name = "admin"@;
    assert(trimmed(name) =~= name) by {
        assert(!crate::text::is_white_space(name[0]));
        assert(!crate::text::is_white_space(name.last()));
    }
    assert(ascii_lowered(name) =~= name);
    assert("free"@.len() != name.len());
}

} // verus!
