//! The login through the browser: what is opened, what comes back, and what
//! the browser shows then.

use vstd::prelude::*;
use vstd::utf8::encode_utf8;

use crate::auth::{CALLBACK_PORT, DASHBOARD_URL, FRONTEND_URL};
use crate::bytes::{lossy_text, text_from_bytes};
use crate::number::{count, decimal, decimal_of};
use crate::pieces::{lines, lines_of, replace, replaced, split, split_on, words, words_of};
use crate::text::{
    chars_of, find, first_index, parts, prefix_stripped, strip_prefix, text, text_of, trim,
    trimmed,
};

verus! {

// ── the addresses ───────────────────────────────────────────────────

/// The address to which the browser hands over a key.
pub open spec fn callback_url() -> Seq<char> {
    "http://127.0.0.1:"@ + decimal_of(CALLBACK_PORT as nat) + "/callback"@
}

/// The address that is opened in the browser.
pub fn login_url() -> (r: String)
    ensures
        r@ == FRONTEND_URL@ + "/login?redirect="@ + callback_url(),
{
    let mut redirect = "http://127.0.0.1:".to_owned();
    redirect.append(decimal(CALLBACK_PORT as u64).as_str());
    redirect.append("/callback");
    let mut out = FRONTEND_URL.to_owned();
    out.append("/login?redirect=");
    out.append(redirect.as_str());
    out
}

/// What is said while a key is waited for.
pub open spec fn waiting_text(have_server: bool) -> Seq<char> {
    (if have_server {
        "If your browser redirects back here automatically, you're all set.\n"@
    } else {
        "(Couldn't start a local callback server; you'll need to paste your key.)\n"@
    }) + "Otherwise, paste your API key from "@ + DASHBOARD_URL@ + " and press Enter:\n"@
}

/// Say that a key is waited for. Without a server only a pasted one can come.
pub fn login_intro(have_server: bool) -> (r: String)
    ensures
        r@ == waiting_text(have_server),
{
    let mut out = if have_server {
        "If your browser redirects back here automatically, you're all set.\n".to_owned()
    } else {
        "(Couldn't start a local callback server; you'll need to paste your key.)\n".to_owned()
    };
    out.append("Otherwise, paste your API key from ");
    out.append(DASHBOARD_URL);
    out.append(" and press Enter:\n");
    out
}

// ── the key in a request ────────────────────────────────────────────

/// The value of a hexadecimal digit.
pub open spec fn hex_value(b: u8) -> Option<u8> {
    if 48 <= b <= 57 {
        Some((b - 48) as u8)
    } else if 97 <= b <= 102 {
        Some((b - 87) as u8)
    } else if 65 <= b <= 70 {
        Some((b - 55) as u8)
    } else {
        None
    }
}

/// The bytes with every `%` and two hexadecimal digits replaced by the
/// character of that number, and every plus by a blank. Any other byte stands
/// for the character of its number.
pub open spec fn decoded(bytes: Seq<u8>) -> Seq<char>
    decreases bytes.len(),
{
    if bytes.len() == 0 {
        Seq::empty()
    } else if bytes[0] == 37 && bytes.len() > 2 && hex_value(bytes[1]) is Some && hex_value(
        bytes[2],
    ) is Some {
        seq![(hex_value(bytes[1])->0 * 16 + hex_value(bytes[2])->0) as u8 as char] + decoded(
            bytes.skip(3),
        )
    } else if bytes[0] == 43 {
        seq![' '] + decoded(bytes.skip(1))
    } else {
        seq![bytes[0] as char] + decoded(bytes.skip(1))
    }
}

fn hex_digit(b: u8) -> (r: Option<u8>)
    ensures
        r == hex_value(b),
{
    if 48 <= b && b <= 57 {
        Some(b - 48)
    } else if 97 <= b && b <= 102 {
        Some(b - 87)
    } else if 65 <= b && b <= 70 {
        Some(b - 55)
    } else {
        None
    }
}

/// Undo the encoding of a value in an address.
pub fn percent_decode(input: &str) -> (r: String)
    ensures
        r@ == decoded(encode_utf8(input@)),
{
    let bytes = input.as_bytes();
    let n = bytes.len();
    let mut out = String::new();
    let mut i: usize = 0;
    assert(bytes@.skip(0) =~= bytes@);
    assert(out@ + decoded(bytes@) =~= decoded(bytes@));
    while i < n
        invariant
            n == bytes@.len(),
            i <= n,
            out@ + decoded(bytes@.skip(i as int)) == decoded(bytes@),
        decreases n - i,
    {
        let ghost rest = bytes@.skip(i as int);
        let ghost before = out@;
        let b = bytes[i];
        if b == 37 && n - i > 2 {
            assert(rest[1] == bytes@[i + 1] && rest[2] == bytes@[i + 2]);
            if let (Some(high), Some(low)) = (hex_digit(bytes[i + 1]), hex_digit(bytes[i + 2])) {
                out.push((high * 16 + low) as char);
                i += 3;
                assert(rest.skip(3) =~= bytes@.skip(i as int));
            } else {
                out.push('%');
                i += 1;
                assert(rest.skip(1) =~= bytes@.skip(i as int));
            }
        } else if b == 43 {
            out.push(' ');
            i += 1;
            assert(rest.skip(1) =~= bytes@.skip(i as int));
        } else {
            out.push(b as char);
            i += 1;
            assert(rest.skip(1) =~= bytes@.skip(i as int));
        }
        assert(out@ + decoded(bytes@.skip(i as int)) =~= before + decoded(rest));
    }
    assert(decoded(bytes@.skip(n as int)) =~= Seq::empty());
    assert(out@ + Seq::empty() =~= out@);
    out
}

/// What stands behind `key=` in the first of the pairs that begin with it.
pub open spec fn first_key(pairs: Seq<Seq<char>>) -> Option<Seq<char>>
    decreases pairs.len(),
{
    if pairs.len() == 0 {
        None
    } else {
        match first_key(pairs.drop_last()) {
            Some(value) => Some(value),
            None => prefix_stripped(pairs.last(), "key="@),
        }
    }
}

/// The query of the path that the first line of a request names.
pub open spec fn query_of(request: Seq<char>) -> Option<Seq<char>> {
    if lines_of(request).len() == 0 || words_of(lines_of(request)[0]).len() < 2 {
        None
    } else {
        let path = words_of(lines_of(request)[0])[1];
        match first_index(path, '?') {
            Some(i) => Some(path.skip(i + 1)),
            None => None,
        }
    }
}

/// The key that a request hands over.
pub open spec fn handed_key(request: Seq<char>) -> Option<Seq<char>> {
    match query_of(request) {
        None => None,
        Some(query) => match first_key(split_on(query, '&')) {
            Some(value) => Some(decoded(encode_utf8(value))),
            None => None,
        },
    }
}

fn find_key(query: &[char]) -> (r: Option<String>)
    ensures
        match first_key(split_on(query@, '&')) {
            Some(value) => r matches Some(key) && key@ == decoded(encode_utf8(value)),
            None => r is None,
        },
{
    let pairs = split(query, '&');
    let ghost all = parts(pairs@);
    let mut found: Option<&[char]> = None;
    for i in 0..pairs.len()
        invariant
            all == parts(pairs@),
            crate::text::part(found) == first_key(all.take(i as int)),
    {
        assert(all.take(i + 1).drop_last() =~= all.take(i as int));
        assert(all.take(i + 1).last() == pairs@[i as int]@);
        if found.is_none() {
            found = strip_prefix(pairs[i], "key=");
        }
    }
    assert(all.take(all.len() as int) =~= all);
    match found {
        Some(value) => Some(percent_decode(text_of(value).as_str())),
        None => None,
    }
}

/// Take the key out of a request.
pub fn extract_key(request: &str) -> (r: Option<String>)
    ensures
        text(r) == handed_key(request@),
{
    let chars = chars_of(request);
    let all = lines(chars.as_slice());
    assert(parts(all@).len() == all@.len());
    if all.len() == 0 {
        return None;
    }
    assert(parts(all@)[0] == all@[0]@);
    let line = words(all[0]);
    assert(parts(line@).len() == line@.len());
    if line.len() < 2 {
        return None;
    }
    assert(parts(line@)[1] == line@[1]@);
    let path = line[1];
    let n = path.len();
    match find(path, '?') {
        None => None,
        Some(i) => {
            assert(path@.subrange(i + 1, n as int) =~= path@.skip(i + 1));
            find_key(&path[i + 1..n])
        },
    }
}

/// The key that the user pastes; a blank line is none.
pub fn pasted_key(line: &str) -> (r: Option<String>)
    ensures
        text(r) == if trimmed(line@).len() > 0 {
            Some(trimmed(line@))
        } else {
            None
        },
{
    let chars = chars_of(line);
    let key = trim(chars.as_slice());
    if key.len() > 0 {
        Some(text_of(key))
    } else {
        None
    }
}

// ── the page ────────────────────────────────────────────────────────

/// The page that the browser shows, with placeholders.
pub const TEMPLATE: &'static str = r#"<!doctype html>
<html lang="en">
<head>
<meta charset="utf-8">
<meta name="viewport" content="width=device-width, initial-scale=1">
<title>Commitor</title>
<style>
  :root{
    --canvas:#050506; --surface:#0c0d10; --edge:rgba(255,255,255,.08);
    --ink:#f4f6f5; --dim:#9ba1a6; --dimmer:#62676d;
    --brand:ACCENT; --brand-bright:ACCENT; --glow:GLOW;
  }
  *{box-sizing:border-box}
  html,body{height:100%}
  body{
    margin:0; background:
      radial-gradient(1100px 560px at 50% -12%, GLOW, transparent 60%),
      var(--canvas);
    color:var(--ink);
    font-family:Inter,system-ui,-apple-system,"Segoe UI",Roboto,sans-serif;
    display:flex; align-items:center; justify-content:center; padding:24px;
    -webkit-font-smoothing:antialiased;
  }
  .card{
    width:100%; max-width:384px; text-align:center; padding:44px 34px 30px;
    background:
      linear-gradient(180deg, rgba(255,255,255,.025), rgba(255,255,255,0)),
      var(--surface);
    border:1px solid var(--edge); border-radius:18px;
    box-shadow:0 1px 0 rgba(255,255,255,.05) inset, 0 24px 70px rgba(0,0,0,.55);
    animation:fade-up .5s cubic-bezier(.2,.7,.2,1) both;
  }
  .badge{position:relative; width:72px; height:72px; margin:0 auto 24px}
  .badge::after{
    content:""; position:absolute; inset:-16px; border-radius:999px;
    background:radial-gradient(circle, var(--glow), transparent 70%);
    animation:pulse 2.6s ease-in-out infinite;
  }
  .check{position:relative; width:72px; height:72px; display:block}
  .ring{
    fill:none; stroke:var(--brand); stroke-width:2.5;
    stroke-dasharray:151; stroke-dashoffset:151;
    animation:draw-ring .6s cubic-bezier(.6,.1,.3,1) forwards;
  }
  .tick{
    fill:none; stroke:var(--brand-bright); stroke-width:3.5;
    stroke-linecap:round; stroke-linejoin:round;
    stroke-dasharray:42; stroke-dashoffset:42;
    filter:drop-shadow(0 0 6px var(--glow));
    animation:draw-tick .45s .5s cubic-bezier(.6,.1,.3,1) forwards;
  }
  h1{margin:0 0 9px; font-size:19px; font-weight:600; letter-spacing:-.01em}
  p{margin:0; color:var(--dim); font-size:14px; line-height:1.55}
  .caption{
    margin-top:24px;
    font-family:"JetBrains Mono",ui-monospace,SFMono-Regular,Menlo,monospace;
    font-size:11px; letter-spacing:.06em; text-transform:uppercase; color:var(--dimmer);
  }
  .caption .dot{
    display:inline-block; width:6px; height:6px; border-radius:50%;
    background:var(--brand); margin-right:8px; vertical-align:middle;
    animation:blink 1.5s steps(1) infinite;
  }
  @keyframes fade-up{from{opacity:0; transform:translateY(10px) scale(.99)} to{opacity:1; transform:none}}
  @keyframes draw-ring{to{stroke-dashoffset:0}}
  @keyframes draw-tick{to{stroke-dashoffset:0}}
  @keyframes pulse{0%,100%{opacity:.45; transform:scale(.96)} 50%{opacity:.85; transform:scale(1.06)}}
  @keyframes blink{0%,100%{opacity:1} 50%{opacity:.25}}
</style>
</head>
<body>
  <main class="card">
    <div class="badge">
      <svg class="check" viewBox="0 0 52 52" aria-hidden="true">SVG</svg>
    </div>
    <h1>TITLE</h1>
    <p>SUBTITLE</p>
    <div class="caption"><span class="dot"></span>CAPTION</div>
  </main>
</body>
</html>"#;

/// The drawing of a page that tells of success.
pub const TICK: &'static str =
    r#"<circle class="ring" cx="26" cy="26" r="24"/><path class="tick" d="M15 27 l7 7 l15 -16"/>"#;

/// The drawing of a page that tells of a failure.
pub const CROSS: &'static str =
    r#"<circle class="ring" cx="26" cy="26" r="24"/><path class="tick" d="M17 17 l18 18 M35 17 l-18 18"/>"#;

/// The page with its placeholders filled.
pub open spec fn page_of(
    title: Seq<char>,
    subtitle: Seq<char>,
    caption: Seq<char>,
    accent: Seq<char>,
    glow: Seq<char>,
    svg: Seq<char>,
) -> Seq<char> {
    let with_accent = replaced(TEMPLATE@, "ACCENT"@, accent);
    let with_glow = replaced(with_accent, "GLOW"@, glow);
    let with_svg = replaced(with_glow, "SVG"@, svg);
    let with_caption = replaced(with_svg, "CAPTION"@, caption);
    let with_subtitle = replaced(with_caption, "SUBTITLE"@, subtitle);
    replaced(with_subtitle, "TITLE"@, title)
}

/// Fill the placeholders of the page.
pub fn page_html(
    title: &str,
    subtitle: &str,
    caption: &str,
    accent: &str,
    glow: &str,
    svg: &str,
) -> (r: String)
    ensures
        r@ == page_of(title@, subtitle@, caption@, accent@, glow@, svg@),
{
    proof {
        reveal_strlit("ACCENT");
        reveal_strlit("GLOW");
        reveal_strlit("SVG");
        reveal_strlit("CAPTION");
        reveal_strlit("SUBTITLE");
        reveal_strlit("TITLE");
    }
    let with_accent = replace(TEMPLATE, "ACCENT", accent);
    let with_glow = replace(with_accent.as_str(), "GLOW", glow);
    let with_svg = replace(with_glow.as_str(), "SVG", svg);
    let with_caption = replace(with_svg.as_str(), "CAPTION", caption);
    let with_subtitle = replace(with_caption.as_str(), "SUBTITLE", subtitle);
    replace(with_subtitle.as_str(), "TITLE", title)
}

/// An answer with a page. Its length is counted in bytes.
pub open spec fn http_of(html: Seq<char>) -> Seq<char> {
    "HTTP/1.1 200 OK\r\nContent-Type: text/html; charset=utf-8\r\nContent-Length: "@ + decimal_of(
        encode_utf8(html).len(),
    ) + "\r\nConnection: close\r\n\r\n"@ + html
}

/// Make an answer with a page.
pub fn write_http(html: &str) -> (r: String)
    ensures
        r@ == http_of(html@),
{
    let length = html.as_bytes().len();
    let mut out =
        "HTTP/1.1 200 OK\r\nContent-Type: text/html; charset=utf-8\r\nContent-Length: ".to_owned();
    out.append(count(length).as_str());
    out.append("\r\nConnection: close\r\n\r\n");
    out.append(html);
    out
}

/// The page after a key was handed over.
pub open spec fn connected_page() -> Seq<char> {
    page_of(
        "You're connected to Commitor"@,
        "You can close this tab and return to your terminal."@,
        "session established"@,
        "#b8f23d"@,
        "rgba(198,255,0,.35)"@,
        TICK@,
    )
}

/// The page where no key was handed over.
pub open spec fn error_page(message: Seq<char>) -> Seq<char> {
    page_of(
        "Couldn't connect"@,
        message,
        "connection failed"@,
        "#f43f5e"@,
        "rgba(244,63,94,.30)"@,
        CROSS@,
    )
}

/// Answer that a key was handed over.
pub fn write_connected() -> (r: String)
    ensures
        r@ == http_of(connected_page()),
{
    let html = page_html(
        "You're connected to Commitor",
        "You can close this tab and return to your terminal.",
        "session established",
        "#b8f23d",
        "rgba(198,255,0,.35)",
        TICK,
    );
    write_http(html.as_str())
}

/// Answer that no key was handed over.
pub fn write_error(message: &str) -> (r: String)
    ensures
        r@ == http_of(error_page(message@)),
{
    let html = page_html(
        "Couldn't connect",
        message,
        "connection failed",
        "#f43f5e",
        "rgba(244,63,94,.30)",
        CROSS,
    );
    write_http(html.as_str())
}

/// Answer a request of the browser: a key ends the waiting, and without one it
/// goes on.
pub fn answer_callback(request: &[u8]) -> (r: (String, Option<String>))
    ensures
        text(r.1) == handed_key(lossy_text(request@)),
        r.0@ == if handed_key(lossy_text(request@)) is Some {
            http_of(connected_page())
        } else {
            http_of(error_page("No API key was returned. Run `commitor login` again."@))
        },
{
    answer_request(text_from_bytes(request).as_str())
}

/// Answer a request of the browser, as text.
pub fn answer_request(request: &str) -> (r: (String, Option<String>))
    ensures
        text(r.1) == handed_key(request@),
        r.0@ == if handed_key(request@) is Some {
            http_of(connected_page())
        } else {
            http_of(error_page("No API key was returned. Run `commitor login` again."@))
        },
{
    match extract_key(request) {
        Some(key) => (write_connected(), Some(key)),
        None => (write_error("No API key was returned. Run `commitor login` again."), None),
    }
}

// ── laws ────────────────────────────────────────────────────────────

/// Bytes without a percent sign and a plus stand for themselves.
pub proof fn lemma_plain_values_are_kept(bytes: Seq<u8>)
    requires
        forall|i: int| 0 <= i < bytes.len() ==> #[trigger] bytes[i] != 37 && bytes[i] != 43,
    ensures
        decoded(bytes) == bytes.map_values(|b: u8| b as char),
    decreases bytes.len(),
{
    if bytes.len() > 0 {
        let rest = bytes.skip(1);
        assert forall|i: int| 0 <= i < rest.len() implies #[trigger] rest[i] != 37 && rest[i] != 43 by {
            assert(rest[i] == bytes[i + 1]);
        }
        lemma_plain_values_are_kept(rest);
        assert(decoded(bytes) =~= bytes.map_values(|b: u8| b as char));
    } else {
        assert(decoded(bytes) =~= bytes.map_values(|b: u8| b as char));
    }
}

/// A digit of hexadecimal notation as a byte.
pub open spec fn hex_byte(d: u8) -> u8 {
    if d < 10 {
        (d + 48) as u8
    } else {
        (d + 55) as u8
    }
}

/// The bytes, each as a percent sign and two hexadecimal digits.
pub open spec fn encoded(bytes: Seq<u8>) -> Seq<u8>
    decreases bytes.len(),
{
    if bytes.len() == 0 {
        Seq::empty()
    } else {
        seq![37u8, hex_byte((bytes[0] / 16) as u8), hex_byte((bytes[0] % 16) as u8)] + encoded(
            bytes.skip(1),
        )
    }
}

/// Decoding undoes the encoding of any bytes.
pub proof fn lemma_encoding_is_undone(bytes: Seq<u8>)
    ensures
        decoded(encoded(bytes)) == bytes.map_values(|b: u8| b as char),
    decreases bytes.len(),
{
    if bytes.len() > 0 {
        let rest = bytes.skip(1);
        lemma_encoding_is_undone(rest);
        let code = encoded(bytes);
        assert(code.skip(3) =~= encoded(rest));
        let b = bytes[0];
        assert(hex_value(code[1]) == Some((b / 16) as u8));
        assert(hex_value(code[2]) == Some((b % 16) as u8));
        assert((b / 16) * 16 + b % 16 == b);
        assert(decoded(code) =~= bytes.map_values(|b: u8| b as char));
    } else {
        assert(decoded(encoded(bytes)) =~= bytes.map_values(|b: u8| b as char));
    }
}

} // verus!
