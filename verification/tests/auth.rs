//! Accounts, keys, the login page and the admin role.

use commitor::admin::{grant_admin, is_admin, revoke_admin, status};
use commitor::auth::{
    authorized, backend_is_admin, check_auth_status, effective_plan, has_pro_access, load_api_key,
    login, login_report, logout, me_url, not_logged_in_error, plan_for_key, root_cause,
    unreachable_error, validating_text, whoami, with_key, KeyFile, MeResponse, Removal, WithBearer,
};
use commitor::config::api_base_url;
use commitor::login::{
    answer_callback, answer_request, extract_key, login_intro, login_url, page_html, pasted_key,
    percent_decode, write_connected, write_error, write_http,
};

fn me(plan: Option<&str>, admin: Option<bool>) -> MeResponse {
    MeResponse { email: "a@b.c".to_string(), plan: plan.map(str::to_string), admin }
}

#[test]
fn connected_page_renders_without_placeholders() {
    const SVG: &str =
        r#"<circle class="ring" cx="26" cy="26" r="24"/><path class="tick" d="M15 27 l7 7 l15 -16"/>"#;
    let html = page_html(
        "You're connected to Commitor",
        "You can close this tab and return to your terminal.",
        "session established",
        "#b8f23d",
        "rgba(198,255,0,.35)",
        SVG,
    );
    for token in ["ACCENT", "GLOW", "SVG", "TITLE", "SUBTITLE", "CAPTION"] {
        assert!(
            !html.contains(token),
            "placeholder {token} leaked into rendered page"
        );
    }
    assert!(html.contains("stroke-dashoffset"));
    assert!(html.contains("<h1>You're connected to Commitor</h1>"));
    assert!(html.contains("<p>You can close this tab and return to your terminal.</p>"));
    assert!(html.contains("<div class=\"caption\"><span class=\"dot\"></span>session established</div>"));
}

#[test]
fn a_page_is_answered_with_its_length_in_bytes() {
    assert_eq!(
        write_http("é"),
        "HTTP/1.1 200 OK\r\nContent-Type: text/html; charset=utf-8\r\nContent-Length: 2\r\nConnection: close\r\n\r\né"
    );
    assert!(write_error("boom <b>").contains("<p>boom <b></p>"));
    assert!(write_connected().contains("--brand:#b8f23d;"));
}

#[test]
fn keys_are_decoded() {
    assert_eq!(percent_decode("a+b%20c%2Fd"), "a b c/d");
    assert_eq!(percent_decode("%zz%4"), "%zz%4");
    assert_eq!(percent_decode("%41%e9"), "Aé");
    assert_eq!(percent_decode("plain"), "plain");
    assert_eq!(percent_decode("é"), "Ã©");
    let bytes: Vec<u8> = (0..=255).collect();
    let code: String = bytes.iter().map(|b| format!("%{b:02X}")).collect();
    let text: String = bytes.iter().map(|b| *b as char).collect();
    assert_eq!(percent_decode(&code), text);
}

#[test]
fn a_key_is_taken_out_of_a_request() {
    let get = |path: &str| extract_key(&format!("GET {path} HTTP/1.1\r\nHost: x\r\n\r\n"));
    assert_eq!(get("/callback?key=abc%2B").as_deref(), Some("abc+"));
    assert_eq!(get("/callback?a=1&key=x&key=y").as_deref(), Some("x"));
    assert_eq!(get("/callback?a=1"), None);
    assert_eq!(get("/callback"), None);
    assert_eq!(extract_key(""), None);
    assert_eq!(extract_key("GET"), None);
}

#[test]
fn the_browser_is_answered_by_whether_it_hands_over_a_key() {
    let (page, key) = answer_callback(b"GET /callback?key=k HTTP/1.1\r\n\0\0\xff");
    assert_eq!(key.as_deref(), Some("k"));
    assert!(page.contains("<h1>You're connected to Commitor</h1>"));
    let (page, key) = answer_request("GET /favicon.ico HTTP/1.1");
    assert_eq!(key, None);
    assert!(page.contains("No API key was returned. Run `commitor login` again."));
    assert_eq!(pasted_key("  k \n").as_deref(), Some("k"));
    assert_eq!(pasted_key(" \n"), None);
}

#[test]
fn the_login_is_introduced() {
    assert_eq!(
        login_url(),
        "https://commitor-web.vercel.app/login?redirect=http://127.0.0.1:18745/callback"
    );
    assert!(login_intro(true).starts_with("If your browser redirects back here"));
    assert!(login_intro(false).starts_with("(Couldn't start a local callback server"));
    assert!(login_intro(false).ends_with("https://commitor-web.vercel.app/dashboard and press Enter:\n"));
}

#[test]
fn plans_follow_the_account_unless_the_role_is_granted() {
    let fetched = Ok(me(Some("team"), Some(true)));
    assert_eq!(plan_for_key(&fetched), Ok("team".to_string()));
    assert_eq!(backend_is_admin(&fetched), Ok(true));
    assert_eq!(plan_for_key(&Ok(me(None, None))), Ok("free".to_string()));
    assert_eq!(backend_is_admin(&Ok(me(None, None))), Ok(false));
    let failed = Err("down".to_string());
    assert_eq!(plan_for_key(&failed), Err("down".to_string()));
    assert_eq!(backend_is_admin(&failed), Err("down".to_string()));
    assert_eq!(effective_plan(true, &failed), Ok("admin".to_string()));
    assert_eq!(effective_plan(false, &failed), Err("down".to_string()));
    assert_eq!(effective_plan(false, &fetched), Ok("team".to_string()));
}

#[test]
fn admins_and_paid_plans_have_all_features() {
    let plan = effective_plan(true, &Ok(me(Some("free"), None))).unwrap();
    assert!(has_pro_access(&plan));
    for good in ["pro", " Team ", "ENTERPRISE", "admin"] {
        assert!(has_pro_access(good), "{good}");
    }
    for bad in ["free", "", "professional"] {
        assert!(!has_pro_access(bad), "{bad}");
    }
}

#[test]
fn the_stored_key_is_read() {
    let load = |file: KeyFile| load_api_key(&file, "/p");
    assert_eq!(load(KeyFile::Key(" k\n".to_string())), Ok("k".to_string()));
    assert_eq!(load(KeyFile::Missing), Err(not_logged_in_error()));
    assert_eq!(
        not_logged_in_error(),
        "Not logged in. Run `commitor login` (opens your browser) or `commitor login --key <your-key>` — get a key at https://commitor-web.vercel.app/dashboard"
    );
    assert_eq!(load(KeyFile::Unreadable("e".to_string())), Err("failed to read /p: e".to_string()));
    assert_eq!(load(KeyFile::Malformed("e".to_string())), Err("/p is not valid TOML: e".to_string()));
    assert_eq!(
        load(KeyFile::Key("  ".to_string())),
        Err("/p has an empty api_key — log in again to fix it".to_string())
    );
}

#[derive(Debug, PartialEq)]
struct Request(Option<String>);

impl WithBearer for Request {
    fn set_bearer(self, api_key: &str) -> Self {
        Request(Some(api_key.to_string()))
    }
}

#[test]
fn keys_are_attached_to_requests() {
    assert_eq!(with_key(Request(None), "k"), Request(Some("k".to_string())));
    assert_eq!(authorized(Request(None), Ok("k")), Ok(Request(Some("k".to_string()))));
    assert_eq!(authorized(Request(None), Err("no".to_string())), Err("no".to_string()));
}

#[test]
fn answers_about_the_account_are_told_apart() {
    let check = |status: u16, body: &str| check_auth_status(status, "S", "u", body, Ok(me(None, None)));
    assert_eq!(check(200, "").unwrap().email, "a@b.c");
    assert!(check(401, "").unwrap_err().starts_with("That API key was rejected by the backend (HTTP S)."));
    assert!(check(403, "").is_err());
    assert_eq!(
        check(404, "").unwrap_err(),
        "u has no /auth/me endpoint — is COMMITOR_API_URL pointing at the right server?"
    );
    assert_eq!(check(500, "").unwrap_err(), "Commitor API returned HTTP S for u");
    assert_eq!(check(500, "b").unwrap_err(), "Commitor API returned HTTP S for u\nServer said: b");
    assert_eq!(
        check_auth_status(200, "S", "u", "", Err("bad".to_string())).unwrap_err(),
        "u returned a malformed /auth/me response: bad"
    );
    assert_eq!(me_url("http://x"), "http://x/auth/me");
    assert_eq!(root_cause(&["outer".to_string(), "inner".to_string()]), "inner");
    assert!(unreachable_error("u", "c").starts_with("Couldn't reach the Commitor API at u (c). Is your server running?"));
}

#[test]
fn logging_in_and_out_is_told() {
    assert_eq!(login(" k "), Ok("k".to_string()));
    assert!(login(" \t").unwrap_err().starts_with("The --key value is empty"));
    assert_eq!(validating_text("http://x"), "Validating key against http://x…\n");
    assert_eq!(
        login_report(&me(None, None), "/p"),
        "Logged in as a@b.c (free plan).\nCredentials stored at /p\n"
    );
    assert_eq!(logout(&Removal::Removed, "/p"), Ok("Logged out. Deleted /p.\n".to_string()));
    assert_eq!(
        logout(&Removal::Missing, "/p"),
        Ok("You weren't logged in — nothing to remove.\n".to_string())
    );
    assert_eq!(
        logout(&Removal::Failed("e".to_string()), "/p"),
        Err("failed to delete /p: e".to_string())
    );
}

#[test]
fn the_account_is_shown_with_its_role() {
    assert_eq!(
        whoami(&me(Some("free"), Some(true)), true),
        "a@b.c — admin plan\nadmin: verified by backend — all pro features unlocked.\n"
    );
    assert!(whoami(&me(Some("pro"), None), true).starts_with("a@b.c — pro plan\nadmin: a local grant is cached, but the backend no longer"));
    assert!(whoami(&me(None, Some(true)), false).starts_with("a@b.c — free plan\nadmin: verified by backend, but not activated locally."));
    assert_eq!(whoami(&me(Some("pro"), None), false), "a@b.c — pro plan\npro features: yes\n");
    assert_eq!(whoami(&me(None, None), false), "a@b.c — free plan\npro features: no\n");
}

#[test]
fn the_role_is_granted_only_when_verified() {
    assert!(!is_admin(None) && !is_admin(Some(false)) && is_admin(Some(true)));
    assert!(grant_admin(&Ok(true)).unwrap().starts_with("Admin role granted."));
    assert!(grant_admin(&Ok(false)).is_err());
    assert_eq!(grant_admin(&Err("down".to_string())), Err("down".to_string()));
    assert!(revoke_admin(&Removal::Removed, "/p").unwrap().starts_with("Admin role revoked."));
    assert!(revoke_admin(&Removal::Missing, "/p").unwrap().starts_with("You weren't an admin"));
    assert_eq!(
        revoke_admin(&Removal::Failed("e".to_string()), "/p"),
        Err("failed to delete /p: e".to_string())
    );
    assert!(status(true).starts_with("Admin: enabled"));
    assert!(status(false).starts_with("Admin: not enabled."));
}

#[test]
fn the_backend_address_has_no_trailing_slash() {
    assert_eq!(api_base_url(None), "https://commitor-api.vercel.app");
    assert_eq!(api_base_url(Some("  ")), "https://commitor-api.vercel.app");
    assert_eq!(api_base_url(Some("http://localhost:8000//")), "http://localhost:8000");
}
