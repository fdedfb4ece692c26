//! The backend: what its replies mean, who may ask, and the login.

use vstd::prelude::*;
use vstd::utf8::encode_utf8;

use crate::analysis::reply::{
    error_message, is_paid, odd_status_text, quota_hint, quota_text, refused_size_text,
    reply_error, snippet_of, stated_quota, timeout_of, PRICING_URL,
};
use crate::analysis::request::is_oversized;
use crate::auth::{
    auth_error, effective_plan, is_pro_plan, plan_of, stored_key, whoami_text, KeyFile, MeResponse,
    MeView,
};
use crate::commit::planning::transient;
use crate::json::member_in;
use crate::laws::texts::{
    blank, lacks, lemma_first_line, lemma_first_place, lemma_lower_case, lemma_occurs_inside,
    lemma_one_piece, lemma_pieces_of_two, lemma_prefix_is_taken_off, lemma_single_word,
    lemma_trimmed, lemma_words_of_two, solid, tight,
};
use crate::letters::ascii_lowered;
use crate::login::{decoded, first_key, handed_key, http_of, query_of};
use crate::number::{decimal_of, lemma_decimal_digits, lemma_decimal_is_read_back};
use crate::pieces::{split_on, without_cr, words_of};
use crate::text::{among, is_white_space, occurs, trimmed};

verus! {

// ── replies ─────────────────────────────────────────────────────────

/// A rejected key and a change that is too large are not worth another try; any
/// other failure of the backend is. A used up quota is told apart.
pub proof fn lemma_what_is_worth_another_try(
    status: u16,
    status_text: Seq<char>,
    url: Seq<char>,
    body: Seq<char>,
)
    ensures
        transient(reply_error(status, status_text, url, body)) is Some <==> status != 401 && status
            != 403 && status != 413,
        reply_error(status, status_text, url, body) is RateLimited <==> status == 429,
        reply_error(status, status_text, url, body) is InvalidKey <==> status == 401 || status
            == 403,
        transient(reply_error(status, status_text, url, body)) matches Some(reason) ==> reason
            == error_message(reply_error(status, status_text, url, body)),
{
}

/// A failure is told with its status, and an unknown one also with the address
/// and the beginning of what the server said.
pub proof fn lemma_failures_tell_the_status(
    status: u16,
    status_text: Seq<char>,
    url: Seq<char>,
    body: Seq<char>,
)
    ensures
        status != 429 && status != 413 ==> occurs(
            error_message(reply_error(status, status_text, url, body)),
            status_text,
        ),
        occurs(odd_status_text(status_text, url, body), status_text),
        occurs(odd_status_text(status_text, url, body), url),
        body.len() <= 200 ==> body.is_suffix_of(odd_status_text(status_text, url, body)),
        body.len() > 200 ==> body.take(200).is_suffix_of(odd_status_text(status_text, url, body)),
        snippet_of(body).is_prefix_of(body),
        snippet_of(body).len() <= 200,
{
    let s = odd_status_text(status_text, url, body);
    let a = "Commitor API returned HTTP "@;
    let b = " for "@;
    let head = a + status_text + b + url;
    let rest = s.skip((a + status_text).len() as int);
    assert(s =~= a + status_text + rest);
    lemma_occurs_inside(a, status_text, rest);
    let more = s.skip(head.len() as int);
    assert(s =~= (a + status_text + b) + url + more);
    lemma_occurs_inside(a + status_text + b, url, more);
    let shown = snippet_of(body);
    assert(s.subrange(s.len() - shown.len(), s.len() as int) =~= shown);
    assert(body.subrange(0, shown.len() as int) =~= shown);
    if status == 401 || status == 403 {
        let m = error_message(reply_error(status, status_text, url, body));
        let c = "Your stored API key was rejected (HTTP "@;
        let r = m.skip((c + status_text).len() as int);
        assert(m =~= c + status_text + r);
        lemma_occurs_inside(c, status_text, r);
    }
}

/// A used up quota is told with its size and the time of its reset where the
/// backend gives both, else with the message of the backend.
pub proof fn lemma_a_used_up_quota_is_explained(
    limit: u64,
    reset_at: Seq<char>,
    message: Seq<char>,
    other: Option<Seq<char>>,
)
    ensures
        occurs(quota_text(true, Some(limit), Some(reset_at), other), reset_at),
        occurs(
            quota_text(true, Some(limit), Some(reset_at), other),
            decimal_of(limit as nat) + "/"@ + decimal_of(limit as nat),
        ),
        message.is_prefix_of(quota_text(true, None, other, Some(message))),
        message.is_prefix_of(quota_text(true, Some(limit), None, Some(message))),
        quota_text(false, Some(limit), Some(reset_at), other) == quota_text(
            false,
            None,
            None,
            None,
        ),
        refused_size_text(Some(message)) == message,
{
    let s = quota_text(true, Some(limit), Some(reset_at), other);
    let d = decimal_of(limit as nat);
    let a = "You've hit your daily limit ("@;
    let b = " analyses) — resets at "@;
    let mid = d + "/"@ + d;
    let rest = s.skip((a + mid).len() as int);
    assert(s =~= a + mid + rest);
    lemma_occurs_inside(a, mid, rest);
    let rest2 = s.skip((a + mid + b + reset_at).len() as int);
    assert(s =~= (a + mid + b) + reset_at + rest2);
    lemma_occurs_inside(a + mid + b, reset_at, rest2);
    let t = quota_text(true, None, other, Some(message));
    let u = quota_text(true, Some(limit), None, Some(message));
    assert(t.subrange(0, message.len() as int) =~= message);
    assert(u.subrange(0, message.len() as int) =~= message);
}

/// The quota is hinted at exactly where three analyses or fewer are left, with
/// their number.
pub proof fn lemma_when_the_quota_is_hinted_at(n: u32)
    ensures
        quota_hint(Some(n)) is Some <==> n <= 3,
        quota_hint(Some(n)) matches Some(hint) ==> decimal_of(n as nat).is_prefix_of(hint),
        quota_hint(None) is None,
{
    if n <= 3 {
        let hint = quota_hint(Some(n))->0;
        let d = decimal_of(n as nat);
        if n == 1 {
            reveal_strlit("1 analysis left today");
            assert(d =~= seq!['1']);
        }
        assert(hint.subrange(0, d.len() as int) =~= d);
    }
}

/// A header with a number states that number, and one that holds anything but
/// digits behind its first character states none.
pub proof fn lemma_the_header_states_the_quota(n: u32, header: Seq<char>, i: int)
    ensures
        stated_quota(Some(decimal_of(n as nat))) == Some(n as nat),
        0 < i < header.len() && !('0' <= header[i] <= '9') ==> stated_quota(Some(header)) is None,
        stated_quota(Some(Seq::empty())) is None,
        stated_quota(None) is None,
{
    lemma_decimal_is_read_back(n as nat, u32::MAX as nat);
    if 0 < i < header.len() && !('0' <= header[i] <= '9') {
        let digits = crate::number::unsigned_digits(header);
        if header[0] == '+' {
            assert(digits[i - 1] == header[i]);
        } else {
            assert(digits[i] == header[i]);
        }
    }
}

/// The time limit that the user sets counts, with or without white space around
/// it, unless it is zero or no number; else it is three minutes.
pub proof fn lemma_the_time_limit(a: Seq<char>, n: u64, b: Seq<char>)
    requires
        blank(a),
        blank(b),
    ensures
        n > 0 ==> timeout_of(Some(a + decimal_of(n as nat) + b)) == n as nat,
        n == 0 ==> timeout_of(Some(a + decimal_of(n as nat) + b)) == 180,
        timeout_of(None) == 180,
        timeout_of(Some(a)) == 180,
{
    let d = decimal_of(n as nat);
    lemma_decimal_digits(n as nat);
    lemma_decimal_is_read_back(n as nat, u64::MAX as nat);
    assert(!is_white_space(d[0]) && !is_white_space(d[d.len() - 1]));
    lemma_trimmed(a, d, b);
    let none: Seq<char> = Seq::empty();
    lemma_trimmed(a, none, none);
    assert(a + none + none =~= a);
}

// ── plans ───────────────────────────────────────────────────────────

/// A patch of up to 190000 characters may always be sent, and a larger one
/// exactly on a paid plan; the free plan, in any case of letters, an empty one
/// and an unknown one are not paid, and every other one is.
pub proof fn lemma_who_may_send_what(plan: Option<Seq<char>>, patch: Seq<char>)
    ensures
        patch.len() <= 190_000 ==> !is_oversized(plan, patch),
        patch.len() > 190_000 ==> (is_oversized(plan, patch) <==> !is_paid(plan)),
        !is_paid(None),
        plan matches Some(p) ==> (is_paid(plan) <==> p.len() > 0 && ascii_lowered(p) != "free"@),
        plan matches Some(p) ==> is_paid(Some(ascii_lowered(p))) == is_paid(plan),
{
    if let Some(p) = plan {
        lemma_lower_case(p, p);
    }
}

/// The plans with all features are these four, in any case of letters and with
/// any white space around them.
pub proof fn lemma_plans_with_all_features(a: Seq<char>, plan: Seq<char>, b: Seq<char>)
    requires
        blank(a),
        blank(b),
        tight(plan),
    ensures
        is_pro_plan(a + plan + b) <==> ascii_lowered(plan) == "pro"@ || ascii_lowered(plan)
            == "team"@ || ascii_lowered(plan) == "enterprise"@ || ascii_lowered(plan) == "admin"@,
{
    lemma_trimmed(a, plan, b);
    let plans = crate::auth::pro_plans();
    let name = ascii_lowered(plan);
    assert(plans[0]@ == "pro"@ && plans[1]@ == "team"@ && plans[2]@ == "enterprise"@);
    if among(name, plans) {
        let i = choose|i: int| 0 <= i < plans.len() && (#[trigger] plans[i])@ == name;
        assert(0 <= i < 3);
    }
}

/// A stored key is used without the white space around it; a blank one, and
/// a file that is missing or cannot be read, give no key, and the file is named
/// unless it is missing.
pub proof fn lemma_stored_keys(file: KeyFile, path: Seq<char>)
    ensures
        stored_key(file, path) is Ok <==> (file matches KeyFile::Key(key) && trimmed(key@).len()
            > 0),
        stored_key(file, path) matches Ok(key) ==> (file matches KeyFile::Key(stored) && key
            == trimmed(stored@)),
        stored_key(file, path) matches Err(why) ==> (file is Missing || occurs(why, path)),
{
    if let Err(why) = stored_key(file, path) {
        let none: Seq<char> = Seq::empty();
        if file is Unreadable {
            let a = "failed to read "@;
            let rest = why.skip((a + path).len() as int);
            assert(why =~= a + path + rest);
            lemma_occurs_inside(a, path, rest);
        } else if !(file is Missing) {
            let rest = why.skip(path.len() as int);
            assert(why =~= none + path + rest);
            lemma_occurs_inside(none, path, rest);
        }
    }
}

/// What is shown of an account begins with its address and its plan; the plan
/// is that of an admin exactly where both this machine and the backend say so;
/// and whether it has all features is told where neither does.
pub proof fn lemma_what_is_shown_of_an_account(me: MeView, local_admin: bool)
    ensures
        (me.email + " — "@ + (if local_admin && me.admin == Some(true) {
            "admin"@
        } else {
            plan_of(me)
        }) + " plan\n"@).is_prefix_of(whoami_text(me, local_admin)),
        !local_admin && me.admin != Some(true) ==> (if is_pro_plan(plan_of(me)) {
            "pro features: yes\n"@.is_suffix_of(whoami_text(me, local_admin))
        } else {
            "pro features: no\n"@.is_suffix_of(whoami_text(me, local_admin))
        }),
        me.plan matches Some(p) ==> plan_of(me) == p,
        me.plan is None ==> plan_of(me) == "free"@,
{
    let s = whoami_text(me, local_admin);
    let shown = if local_admin && me.admin == Some(true) {
        "admin"@
    } else {
        plan_of(me)
    };
    let head = me.email + " — "@ + shown + " plan\n"@;
    assert(s.subrange(0, head.len() as int) =~= head);
    if !local_admin && me.admin != Some(true) {
        reveal_strlit("pro features: ");
        reveal_strlit("pro features: yes\n");
        reveal_strlit("pro features: no\n");
        reveal_strlit("yes");
        reveal_strlit("no");
        reveal_strlit("\n");
        if is_pro_plan(plan_of(me)) {
            assert(s.subrange(s.len() - 18, s.len() as int) =~= "pro features: yes\n"@);
        } else {
            assert(s.subrange(s.len() - 17, s.len() as int) =~= "pro features: no\n"@);
        }
    }
}

/// A refused key is told with the status, a wrong server with its address, and
/// any other failure as every failure of the backend.
pub proof fn lemma_failed_logins_are_told(
    status: u16,
    status_text: Seq<char>,
    url: Seq<char>,
    body: Seq<char>,
)
    ensures
        status == 401 || status == 403 ==> occurs(
            auth_error(status, status_text, url, body),
            status_text,
        ),
        status == 404 ==> url.is_prefix_of(auth_error(status, status_text, url, body)),
        status != 401 && status != 403 && status != 404 ==> auth_error(
            status,
            status_text,
            url,
            body,
        ) == odd_status_text(status_text, url, body),
{
    let s = auth_error(status, status_text, url, body);
    if status == 401 || status == 403 {
        let a = "That API key was rejected by the backend (HTTP "@;
        let rest = s.skip((a + status_text).len() as int);
        assert(s =~= a + status_text + rest);
        lemma_occurs_inside(a, status_text, rest);
    } else if status == 404 {
        assert(s.subrange(0, url.len() as int) =~= url);
    }
}

// ── the login ───────────────────────────────────────────────────────

proof fn lemma_query(method: Seq<char>, path: Seq<char>, query: Seq<char>, version: Seq<char>, rest: Seq<char>)
    requires
        solid(method),
        method.len() > 0,
        solid(path),
        lacks(path, '?'),
        solid(query),
        lacks(version, '\n'),
    ensures
        query_of(method + seq![' '] + (path + seq!['?'] + query) + seq![' '] + version + seq!['\n'] + rest)
            == Some(query),
{
    let target = path + seq!['?'] + query;
    let head = method + seq![' '] + target;
    let line = head + seq![' '] + version;
    assert(solid(target)) by {
        assert forall|i: int| 0 <= i < target.len() implies !is_white_space(#[trigger] target[i]) by {
            if i < path.len() {
                assert(target[i] == path[i]);
            } else if i > path.len() {
                assert(target[i] == query[i - path.len() - 1]);
            }
        }
    }
    assert(lacks(line, '\n')) by {
        assert forall|i: int| 0 <= i < line.len() implies #[trigger] line[i] != '\n' by {
            if i < method.len() {
                assert(line[i] == method[i]);
            } else if method.len() < i < head.len() {
                assert(line[i] == target[i - method.len() - 1]);
            } else if i > head.len() {
                assert(line[i] == version[i - head.len() - 1]);
            }
        }
    }
    let request = line + seq!['\n'] + rest;
    lemma_first_line(line, rest);
    let read = without_cr(line);
    let seen = if version.len() > 0 && version.last() == '\r' {
        version.drop_last()
    } else {
        version
    };
    assert(read =~= head + seq![' '] + seen) by {
        if version.len() == 0 {
            assert(line.last() == ' ');
        } else {
            assert(line.last() == version.last());
        }
    }
    lemma_single_word(method);
    lemma_single_word(target);
    lemma_words_of_two(method, ' ', target);
    lemma_words_of_two(head, ' ', seen);
    assert(words_of(read)[1] == target);
    lemma_first_place(path, '?', query);
    assert(target.skip(path.len() as int + 1) =~= query);
}

proof fn lemma_first_pair(pairs: Seq<Seq<char>>, k: int, value: Seq<char>)
    requires
        0 <= k < pairs.len(),
        pairs[k] == "key="@ + value,
        forall|i: int| 0 <= i < k ==> !"key="@.is_prefix_of(#[trigger] pairs[i]),
    ensures
        first_key(pairs) == Some(value),
    decreases pairs.len(),
{
    let front = pairs.drop_last();
    if k < front.len() {
        assert(front[k] == pairs[k]);
        assert forall|i: int| 0 <= i < k implies !"key="@.is_prefix_of(#[trigger] front[i]) by {
            assert(front[i] == pairs[i]);
        }
        lemma_first_pair(front, k, value);
    } else {
        lemma_no_pair(front, pairs);
        lemma_prefix_is_taken_off("key="@, value, pairs.last());
    }
}

proof fn lemma_no_pair(front: Seq<Seq<char>>, pairs: Seq<Seq<char>>)
    requires
        front.is_prefix_of(pairs),
        forall|i: int| 0 <= i < front.len() ==> !"key="@.is_prefix_of(#[trigger] pairs[i]),
    ensures
        first_key(front) is None,
    decreases front.len(),
{
    if front.len() > 0 {
        let less = front.drop_last();
        assert(pairs[front.len() - 1] == front.last());
        assert(less =~= pairs.subrange(0, less.len() as int));
        lemma_no_pair(less, pairs);
    }
}

/// The key of a request is the value of its `key` parameter, decoded, whatever
/// parameter stands before it and whatever follows it.
pub proof fn lemma_the_key_of_a_request(
    method: Seq<char>,
    path: Seq<char>,
    before: Seq<char>,
    value: Seq<char>,
    behind: Seq<char>,
    version: Seq<char>,
    rest: Seq<char>,
)
    requires
        solid(method),
        method.len() > 0,
        solid(path),
        lacks(path, '?'),
        solid(before),
        lacks(before, '&'),
        !"key="@.is_prefix_of(before),
        solid(value),
        lacks(value, '&'),
        solid(behind),
        lacks(version, '\n'),
    ensures
        ({
            let query = before + seq!['&'] + ("key="@ + value) + seq!['&'] + behind;
            let line = method + seq![' '] + (path + seq!['?'] + query) + seq![' '] + version;
            handed_key(line + seq!['\n'] + rest) == Some(decoded(encode_utf8(value)))
        }),
        ({
            let query = "key="@ + value;
            let line = method + seq![' '] + (path + seq!['?'] + query) + seq![' '] + version;
            handed_key(line + seq!['\n'] + rest) == Some(decoded(encode_utf8(value)))
        }),
{
    reveal_strlit("key=");
    let pair = "key="@ + value;
    let query = before + seq!['&'] + pair + seq!['&'] + behind;
    assert(solid(pair)) by {
        assert forall|i: int| 0 <= i < pair.len() implies !is_white_space(#[trigger] pair[i]) by {
            if i >= 4 {
                assert(pair[i] == value[i - 4]);
            }
        }
    }
    assert(lacks(pair, '&')) by {
        assert forall|i: int| 0 <= i < pair.len() implies #[trigger] pair[i] != '&' by {
            if i >= 4 {
                assert(pair[i] == value[i - 4]);
            }
        }
    }
    let lead = before + seq!['&'] + pair;
    assert(solid(query)) by {
        assert forall|i: int| 0 <= i < query.len() implies !is_white_space(#[trigger] query[i]) by {
            if i < before.len() {
                assert(query[i] == before[i]);
            } else if before.len() < i < lead.len() {
                assert(query[i] == pair[i - before.len() - 1]);
            } else if i > lead.len() {
                assert(query[i] == behind[i - lead.len() - 1]);
            }
        }
    }
    lemma_query(method, path, query, version, rest);
    lemma_query(method, path, pair, version, rest);
    lemma_one_piece(before, '&');
    lemma_one_piece(pair, '&');
    lemma_pieces_of_two(before, '&', pair);
    lemma_pieces_of_two(lead, '&', behind);
    let pairs = split_on(query, '&');
    assert(pairs[0] == before && pairs[1] == pair);
    lemma_first_pair(pairs, 1, value);
    lemma_first_pair(split_on(pair, '&'), 0, value);
}

/// A request whose path has no query hands over no key.
pub proof fn lemma_no_query_no_key(method: Seq<char>, path: Seq<char>, rest: Seq<char>)
    requires
        solid(method),
        method.len() > 0,
        solid(path),
        path.len() > 0,
        lacks(path, '?'),
    ensures
        handed_key(method + seq![' '] + path + seq!['\n'] + rest) is None,
{
    let line = method + seq![' '] + path;
    assert(lacks(line, '\n')) by {
        assert forall|i: int| 0 <= i < line.len() implies #[trigger] line[i] != '\n' by {
            if i < method.len() {
                assert(line[i] == method[i]);
            } else if i > method.len() {
                assert(line[i] == path[i - method.len() - 1]);
            }
        }
    }
    lemma_first_line(line, rest);
    assert(line.last() == path[path.len() - 1]);
    assert(without_cr(line) == line);
    lemma_single_word(method);
    lemma_single_word(path);
    lemma_words_of_two(method, ' ', path);
    crate::laws::texts::lemma_no_place(path, '?');
}

/// A plus stands for a blank, and what stands before it and behind it is decoded
/// by itself.
pub proof fn lemma_a_plus_is_a_blank(rest: Seq<u8>, b: u8)
    requires
        b != 37,
        b != 43,
    ensures
        decoded(seq![43u8] + rest) == seq![' '] + decoded(rest),
        decoded(seq![b] + rest) == seq![b as char] + decoded(rest),
{
    assert((seq![43u8] + rest).skip(1) =~= rest);
    assert((seq![b] + rest).skip(1) =~= rest);
}

/// An answer ends with its page, behind the length of the page in bytes and an
/// empty line.
pub proof fn lemma_answers_hold_the_page(html: Seq<char>)
    ensures
        html.is_suffix_of(http_of(html)),
        occurs(http_of(html), "Content-Length: "@ + decimal_of(encode_utf8(html).len()) + "\r\n"@),
{
    let s = http_of(html);
    let n = decimal_of(encode_utf8(html).len());
    assert(s.subrange(s.len() - html.len(), s.len() as int) =~= html);
    reveal_strlit(
        "HTTP/1.1 200 OK\r\nContent-Type: text/html; charset=utf-8\r\nContent-Length: ",
    );
    reveal_strlit("HTTP/1.1 200 OK\r\nContent-Type: text/html; charset=utf-8\r\n");
    reveal_strlit("Content-Length: ");
    reveal_strlit("\r\n");
    reveal_strlit("\r\nConnection: close\r\n\r\n");
    reveal_strlit("Connection: close\r\n\r\n");
    let a = "HTTP/1.1 200 OK\r\nContent-Type: text/html; charset=utf-8\r\n"@;
    let mark = "Content-Length: "@ + n + "\r\n"@;
    let b = "Connection: close\r\n\r\n"@ + html;
    assert(s =~= a + mark + b);
    lemma_occurs_inside(a, mark, b);
}

/// An admin of this machine has the plan of an admin, whatever the account says.
/// Anybody else has the plan of the account, and the free one where it names
/// none.
pub proof fn lemma_which_plan_counts(
    local_admin: bool,
    me: &Result<MeResponse, String>,
    r: Result<String, String>,
)
    requires
        call_ensures(effective_plan, (local_admin, me), r),
    ensures
        r is Ok <==> local_admin || *me is Ok,
        local_admin ==> r->Ok_0@ == "admin"@,
        !local_admin ==> (*me matches Ok(account) ==> r->Ok_0@ == (match account.plan {
            Some(plan) => plan@,
            None => "free"@,
        })),
        !local_admin ==> (*me matches Err(why) ==> r->Err_0@ == why@),
{
}

/// A refusal for the quota tells the limit and the time of the reset that the
/// body holds, or else the message that it holds.
pub proof fn lemma_refusals_for_the_quota(
    status_text: Seq<char>,
    url: Seq<char>,
    body: Seq<char>,
    limit: u64,
    x: Option<Seq<char>>,
    time: Seq<char>,
    y: Option<u64>,
    message: Seq<char>,
    z: Option<u64>,
)
    requires
        member_in(body, "limit"@) is Some,
    ensures
        member_in(body, "limit"@) == Some(Some((x, Some(limit)))) && member_in(body, "reset_at"@)
            == Some(Some((Some(time), y))) ==> occurs(
            error_message(reply_error(429, status_text, url, body)),
            "resets at "@ + time,
        ),
        member_in(body, "reset_at"@) == Some(
            None::<(Option<Seq<char>>, Option<u64>)>,
        ) && member_in(body, "message"@) == Some(Some((Some(message), z)))
            ==> message.is_prefix_of(error_message(reply_error(429, status_text, url, body))),
{
    let told = error_message(reply_error(429, status_text, url, body));
    if member_in(body, "limit"@) == Some(Some((x, Some(limit)))) && member_in(body, "reset_at"@)
        == Some(Some((Some(time), y))) {
        reveal_strlit(" analyses) — resets at ");
        reveal_strlit("resets at ");
        let n = decimal_of(limit as nat);
        let head = " analyses) — resets at "@;
        let k = head.len() - 10;
        assert(head.skip(k) =~= "resets at "@);
        let a = "You've hit your daily limit ("@ + n + "/"@ + n + head.take(k);
        let part = "resets at "@ + time;
        let b = ". Upgrade at "@ + PRICING_URL@ + " for more."@;
        assert(told =~= a + part + b);
        lemma_occurs_inside(a, part, b);
    }
    if member_in(body, "reset_at"@) == Some(None::<(Option<Seq<char>>, Option<u64>)>)
        && member_in(body, "message"@) == Some(Some((Some(message), z))) {
        assert(message =~= told.subrange(0, message.len() as int));
    }
}

} // verus!
