//! The log of commit sessions of a repository.

use vstd::prelude::*;
use vstd::utf8::encode_utf8;

use crate::bytes::{byte_prefix, can_cut, first_bytes};
use crate::number::{count, decimal_of, hex, hex_of, is_digit, padded_hex, zero_padded};
use crate::pieces::{lines, lines_of};
use crate::text::{chars_of, parts, text, text_of, text_ref, texts, trim, trimmed};

verus! {

/// One commit of a session.
#[derive(Debug, Clone)]
pub struct SessionCommit {
    pub sha: String,
    pub message: String,
    pub files: Vec<String>,
}

/// One run that made commits.
#[derive(Debug, Clone)]
pub struct Session {
    pub session_id: String,
    /// When the session was recorded, in UTC.
    pub timestamp: String,
    /// The branch that the commits are on; none with a detached head.
    pub branch: Option<String>,
    /// The branch that the new branch was made from, where one was made.
    pub base_branch: Option<String>,
    pub commits: Vec<SessionCommit>,
    /// Always false when recorded.
    pub pushed: bool,
    /// Whether the session was undone.
    pub reverted: bool,
    /// When the session was undone, in UTC.
    pub reverted_at: Option<String>,
}

/// A commit as texts.
pub struct SessionCommitView {
    pub sha: Seq<char>,
    pub message: Seq<char>,
    pub files: Seq<Seq<char>>,
}

/// A session as texts.
pub struct SessionView {
    pub session_id: Seq<char>,
    pub timestamp: Seq<char>,
    pub branch: Option<Seq<char>>,
    pub base_branch: Option<Seq<char>>,
    pub commits: Seq<SessionCommitView>,
    pub pushed: bool,
    pub reverted: bool,
    pub reverted_at: Option<Seq<char>>,
}

impl View for SessionCommit {
    type V = SessionCommitView;

    open spec fn view(&self) -> SessionCommitView {
        SessionCommitView { sha: self.sha@, message: self.message@, files: texts(self.files@) }
    }
}

/// The commits as texts.
pub open spec fn commit_views(commits: Seq<SessionCommit>) -> Seq<SessionCommitView> {
    commits.map_values(|c: SessionCommit| c@)
}

impl View for Session {
    type V = SessionView;

    open spec fn view(&self) -> SessionView {
        SessionView {
            session_id: self.session_id@,
            timestamp: self.timestamp@,
            branch: text(self.branch),
            base_branch: text(self.base_branch),
            commits: commit_views(self.commits@),
            pushed: self.pushed,
            reverted: self.reverted,
            reverted_at: text(self.reverted_at),
        }
    }
}

/// The sessions as texts.
pub open spec fn session_views(sessions: Seq<Session>) -> Seq<SessionView> {
    sessions.map_values(|s: Session| s@)
}

// ── the name of the log ─────────────────────────────────────────────

/// The 64-bit FNV-1a hash of some bytes.
pub open spec fn fnv(bytes: Seq<u8>) -> u64
    decreases bytes.len(),
{
    if bytes.len() == 0 {
        0xcbf29ce484222325
    } else {
        vstd::wrapping::u64_specs::wrapping_mul(
            fnv(bytes.drop_last()) ^ bytes.last() as u64,
            0x100000001b3,
        )
    }
}

/// What identifies a repository: the address of its remote, or its root where
/// it has no remote.
pub open spec fn repo_key(remote: Option<Seq<char>>, toplevel: Seq<char>) -> Seq<char> {
    match remote {
        Some(address) => if trimmed(address).len() > 0 {
            address
        } else {
            toplevel
        },
        None => toplevel,
    }
}

/// The identifier of a repository: the hash of its key as sixteen hexadecimal
/// digits.
pub open spec fn repo_id_of(remote: Option<Seq<char>>, toplevel: Seq<char>) -> Seq<char> {
    zero_padded(hex_of(fnv(encode_utf8(repo_key(remote, toplevel))) as nat), 16)
}

fn fnv_hash(bytes: &[u8]) -> (r: u64)
    ensures
        r == fnv(bytes@),
{
    let mut hash: u64 = 0xcbf29ce484222325;
    for i in 0..bytes.len()
        invariant
            hash == fnv(bytes@.take(i as int)),
    {
        assert(bytes@.take(i + 1).drop_last() =~= bytes@.take(i as int));
        assert(bytes@.take(i + 1).last() == bytes@[i as int]);
        hash = hash ^ bytes[i] as u64;
        hash = hash.wrapping_mul(0x100000001b3);
    }
    assert(bytes@.take(bytes@.len() as int) =~= bytes@);
    hash
}

/// Identify a repository by the address of its remote or, without one, by its
/// root.
pub fn repo_id(remote: Option<&str>, toplevel: &str) -> (r: String)
    ensures
        r@ == repo_id_of(text_ref(remote), toplevel@),
{
    let key: &str = match remote {
        Some(address) => {
            let chars = chars_of(address);
            if trim(chars.as_slice()).len() > 0 {
                address
            } else {
                toplevel
            }
        },
        None => toplevel,
    };
    padded_hex(fnv_hash(key.as_bytes()), 16)
}

// ── time ────────────────────────────────────────────────────────────

/// `chrono::Utc::now` with `DateTime::timestamp_nanos_opt`: the time since
/// 1970 in nanoseconds, where 64 bits hold it. The time is never negative.
/// With a clock that is set before 1970 `chrono` panics.
#[verifier::external_body]
fn nanos_now() -> (r: Option<i64>)
    ensures
        r matches Some(n) ==> n >= 0,
{
    chrono::Utc::now().timestamp_nanos_opt()
}

/// Ends like `-01-02T03:04:05Z`, with a year of four characters or more before
/// that.
pub open spec fn iso_shaped(s: Seq<char>) -> bool {
    let t = s.skip(s.len() - 16);
    &&& s.len() >= 20
    &&& t[0] == '-' && is_digit(t[1]) && is_digit(t[2])
    &&& t[3] == '-' && is_digit(t[4]) && is_digit(t[5])
    &&& t[6] == 'T' && is_digit(t[7]) && is_digit(t[8])
    &&& t[9] == ':' && is_digit(t[10]) && is_digit(t[11])
    &&& t[12] == ':' && is_digit(t[13]) && is_digit(t[14])
    &&& t[15] == 'Z'
}

/// The current time in UTC, such as `2025-01-02T03:04:05Z`: `chrono::Utc::now`
/// with `DateTime::format`, which writes month, day, hour, minute and second
/// with two digits each and the year with four or more. Which time it is
/// depends on the clock and is left unsaid. With a clock that is set before
/// 1970 `chrono` panics.
#[verifier::external_body]
pub fn now_iso() -> (r: String)
    ensures
        iso_shaped(r@),
{
    chrono::Utc::now().format("%Y-%m-%dT%H:%M:%SZ").to_string()
}

/// A signed number in hexadecimal, a negative one as its two's complement.
pub open spec fn signed_hex(n: i64) -> Seq<char> {
    hex_of(
        (if n >= 0 {
            n as int
        } else {
            n + 0x1_0000_0000_0000_0000
        }) as nat,
    )
}

/// The identifier of a session: the time in hexadecimal and the first eight
/// bytes of the first commit.
pub open spec fn session_id_of(nanos: i64, first_sha: Seq<char>) -> Seq<char> {
    signed_hex(nanos) + "-"@ + byte_prefix(first_sha, 8)
}

/// Make the identifier of a session that was recorded at this time.
pub fn session_id_at(nanos: i64, first_sha: &str) -> (r: String)
    requires
        can_cut(first_sha@, 8),
    ensures
        r@ == session_id_of(nanos, first_sha@),
{
    let bits: u64 = if nanos >= 0 {
        nanos as u64
    } else {
        u64::MAX - (-(nanos + 1)) as u64
    };
    let mut out = hex(bits);
    out.append("-");
    out.append(first_bytes(first_sha, 8).as_str());
    out
}

/// Make the identifier of a session that is recorded now.
pub fn new_session_id(first_sha: &str) -> (r: String)
    requires
        can_cut(first_sha@, 8),
    ensures
        exists|nanos: i64| nanos >= 0 && r@ == #[trigger] session_id_of(nanos, first_sha@),
{
    let nanos: i64 = match nanos_now() {
        Some(n) => n,
        None => 0,
    };
    session_id_at(nanos, first_sha)
}

// ── sessions ────────────────────────────────────────────────────────

/// A session that has just made these commits.
pub open spec fn fresh_session(
    session_id: Seq<char>,
    timestamp: Seq<char>,
    branch: Option<Seq<char>>,
    base_branch: Option<Seq<char>>,
    commits: Seq<SessionCommitView>,
) -> SessionView {
    SessionView {
        session_id,
        timestamp,
        branch,
        base_branch,
        commits,
        pushed: false,
        reverted: false,
        reverted_at: None,
    }
}

/// Make the record of a session; there is none without a commit.
pub fn record_session(
    session_id: String,
    timestamp: String,
    branch: Option<String>,
    base_branch: Option<String>,
    commits: Vec<SessionCommit>,
) -> (r: Option<Session>)
    ensures
        match r {
            Some(session) => commits@.len() > 0 && session@ == fresh_session(
                session_id@,
                timestamp@,
                text(branch),
                text(base_branch),
                commit_views(commits@),
            ),
            None => commits@.len() == 0,
        },
{
    if commits.len() == 0 {
        return None;
    }
    Some(
        Session {
            session_id,
            timestamp,
            branch,
            base_branch,
            commits,
            pushed: false,
            reverted: false,
            reverted_at: None,
        },
    )
}

/// Make the record of a session that is recorded now.
pub fn record_session_now(
    branch: Option<String>,
    base_branch: Option<String>,
    commits: Vec<SessionCommit>,
) -> (r: Option<Session>)
    requires
        commits@.len() > 0 ==> can_cut(commits@[0].sha@, 8),
    ensures
        match r {
            Some(session) => {
                &&& commits@.len() > 0
                &&& iso_shaped(session.timestamp@)
                &&& exists|nanos: i64|
                    nanos >= 0 && session@ == fresh_session(
                        #[trigger] session_id_of(nanos, commits@[0].sha@),
                        session.timestamp@,
                        text(branch),
                        text(base_branch),
                        commit_views(commits@),
                    )
            },
            None => commits@.len() == 0,
        },
{
    if commits.len() == 0 {
        return None;
    }
    let session_id = new_session_id(commits[0].sha.as_str());
    record_session(session_id, now_iso(), branch, base_branch, commits)
}

/// Where the first session with this identifier stands.
pub open spec fn session_index(sessions: Seq<SessionView>, id: Seq<char>) -> Option<int>
    decreases sessions.len(),
{
    if sessions.len() == 0 {
        None
    } else {
        match session_index(sessions.drop_last(), id) {
            Some(i) => Some(i),
            None => if sessions.last().session_id == id {
                Some(sessions.len() - 1)
            } else {
                None
            },
        }
    }
}

/// The log with the first session of this identifier marked as reverted.
pub open spec fn marked_reverted(
    sessions: Seq<SessionView>,
    id: Seq<char>,
    now: Seq<char>,
) -> Seq<SessionView> {
    match session_index(sessions, id) {
        Some(i) => sessions.update(
            i,
            SessionView { reverted: true, reverted_at: Some(now), ..sessions[i] },
        ),
        None => sessions,
    }
}

proof fn lemma_session_index_stays(sessions: Seq<SessionView>, id: Seq<char>, i: int)
    requires
        0 <= i < sessions.len(),
        session_index(sessions.take(i), id) is None,
        sessions[i].session_id == id,
    ensures
        session_index(sessions, id) == Some(i),
    decreases sessions.len(),
{
    if i == sessions.len() - 1 {
        assert(sessions.drop_last() =~= sessions.take(i));
    } else {
        assert(sessions.drop_last().take(i) =~= sessions.take(i));
        lemma_session_index_stays(sessions.drop_last(), id, i);
    }
}

/// Mark a session as reverted. Returns whether there is one to mark; the log is
/// unchanged where there is none.
pub fn mark_reverted(sessions: &mut Vec<Session>, session_id: &str, now: String) -> (r: bool)
    ensures
        session_views(final(sessions)@) == marked_reverted(
            session_views(old(sessions)@),
            session_id@,
            now@,
        ),
        r == (session_index(session_views(old(sessions)@), session_id@) is Some),
{
    let ghost all = session_views(sessions@);
    let n = sessions.len();
    assert(session_index(all.take(0), session_id@) is None);
    for i in 0..n
        invariant
            n == sessions@.len(),
            sessions@ == old(sessions)@,
            all == session_views(sessions@),
            session_index(all.take(i as int), session_id@) is None,
    {
        assert(all[i as int] == sessions@[i as int]@);
        if crate::text::same_text(sessions[i].session_id.as_str(), session_id) {
            proof {
                lemma_session_index_stays(all, session_id@, i as int);
            }
            let mut marked = sessions.remove(i);
            marked.reverted = true;
            marked.reverted_at = Some(now);
            sessions.insert(i, marked);
            assert(session_views(sessions@) =~= marked_reverted(all, session_id@, now@));
            return true;
        }
        assert(all.take(i + 1).drop_last() =~= all.take(i as int));
        assert(all.take(i + 1).last() == all[i as int]);
    }
    assert(all.take(all.len() as int) =~= all);
    false
}

// ── reading the log ─────────────────────────────────────────────────

/// The lines of a log that hold something, trimmed, with their numbers from
/// one.
pub open spec fn entries_of(lines: Seq<Seq<char>>) -> Seq<(int, Seq<char>)>
    decreases lines.len(),
{
    if lines.len() == 0 {
        Seq::empty()
    } else {
        let before = entries_of(lines.drop_last());
        if trimmed(lines.last()).len() > 0 {
            before.push((lines.len() as int, trimmed(lines.last())))
        } else {
            before
        }
    }
}

/// The numbered entries as texts.
pub open spec fn entry_views(entries: Seq<(usize, String)>) -> Seq<(int, Seq<char>)> {
    entries.map_values(|e: (usize, String)| (e.0 as int, e.1@))
}

/// Find the entries of a log.
pub fn log_entries(log: &str) -> (r: Vec<(usize, String)>)
    ensures
        entry_views(r@) == entries_of(lines_of(log@)),
{
    let chars = chars_of(log);
    let all = lines(chars.as_slice());
    let ghost views = parts(all@);
    let mut out: Vec<(usize, String)> = Vec::new();
    assert(entry_views(out@) =~= entries_of(views.take(0)));
    for i in 0..all.len()
        invariant
            views == parts(all@),
            entry_views(out@) == entries_of(views.take(i as int)),
    {
        assert(views.take(i + 1).drop_last() =~= views.take(i as int));
        assert(views.take(i + 1).last() == all@[i as int]@);
        let ghost before = entry_views(out@);
        let line = trim(all[i]);
        if line.len() > 0 {
            let entry = text_of(line);
            out.push((i + 1, entry));
            assert(entry_views(out@) =~= before.push(((i + 1) as int, line@)));
        }
    }
    assert(views.take(views.len() as int) =~= views);
    out
}

/// The warning about an entry that cannot be read.
pub fn malformed_entry(number: usize, path: &str, why: &str) -> (r: String)
    ensures
        r@ == "warning: ignoring malformed history line "@ + decimal_of(number as nat) + " in "@
            + path@ + ": "@ + why@,
{
    let mut out = "warning: ignoring malformed history line ".to_owned();
    out.append(count(number).as_str());
    out.append(" in ");
    out.append(path);
    out.append(": ");
    out.append(why);
    out
}

// ── laws ────────────────────────────────────────────────────────────

/// A digit of hexadecimal notation.
pub open spec fn is_hex_digit(c: char) -> bool {
    '0' <= c <= '9' || 'a' <= c <= 'f'
}

/// Sixteen to the power of `k`.
spec fn sixteens(k: nat) -> nat
    decreases k,
{
    if k == 0 {
        1
    } else {
        16 * sixteens((k - 1) as nat)
    }
}

proof fn lemma_hex_shape(n: nat, k: nat)
    requires
        k >= 1,
        n < sixteens(k),
    ensures
        1 <= hex_of(n).len() <= k,
        forall|i: int| 0 <= i < hex_of(n).len() ==> is_hex_digit(#[trigger] hex_of(n)[i]),
    decreases k,
{
    if n >= 16 {
        assert(sixteens(k) == 16 * sixteens((k - 1) as nat));
        assert(k > 1) by {
            if k == 1 {
                assert(sixteens(0) == 1);
            }
        }
        assert(n / 16 < sixteens((k - 1) as nat));
        lemma_hex_shape(n / 16, (k - 1) as nat);
    }
}

proof fn lemma_padded_shape(s: Seq<char>, width: nat)
    requires
        s.len() <= width,
        forall|i: int| 0 <= i < s.len() ==> is_hex_digit(#[trigger] s[i]),
    ensures
        zero_padded(s, width).len() == width,
        forall|i: int|
            0 <= i < zero_padded(s, width).len() ==> is_hex_digit(
                #[trigger] zero_padded(s, width)[i],
            ),
    decreases width - s.len(),
{
    if s.len() < width {
        lemma_padded_shape(seq!['0'] + s, width);
    }
}

/// The identifier of a repository can name a file: it is sixteen hexadecimal
/// digits.
pub proof fn lemma_repo_id_names_a_file(remote: Option<Seq<char>>, toplevel: Seq<char>)
    ensures
        repo_id_of(remote, toplevel).len() == 16,
        forall|i: int| 0 <= i < 16 ==> is_hex_digit(#[trigger] repo_id_of(remote, toplevel)[i]),
{
    let hash = fnv(encode_utf8(repo_key(remote, toplevel)));
    reveal_with_fuel(sixteens, 17);
    assert(sixteens(16) == 0x1_0000_0000_0000_0000);
    lemma_hex_shape(hash as nat, 16);
    lemma_padded_shape(hex_of(hash as nat), 16);
}

pub proof fn lemma_session_index(sessions: Seq<SessionView>, id: Seq<char>)
    ensures
        match session_index(sessions, id) {
            Some(i) => 0 <= i < sessions.len() && sessions[i].session_id == id && forall|j: int|
                0 <= j < i ==> (#[trigger] sessions[j]).session_id != id,
            None => forall|j: int|
                0 <= j < sessions.len() ==> (#[trigger] sessions[j]).session_id != id,
        },
    decreases sessions.len(),
{
    if sessions.len() > 0 {
        let front = sessions.drop_last();
        lemma_session_index(front, id);
        assert(sessions[sessions.len() - 1] == sessions.last());
        assert forall|j: int| 0 <= j < front.len() implies front[j] == #[trigger] sessions[j] by {}
    }
}

/// Marking a session as reverted changes nothing but that session's mark, and
/// no other session.
pub proof fn lemma_marking_touches_one_session(
    sessions: Seq<SessionView>,
    id: Seq<char>,
    now: Seq<char>,
    j: int,
)
    requires
        0 <= j < sessions.len(),
    ensures
        marked_reverted(sessions, id, now).len() == sessions.len(),
        ({
            let before = sessions[j];
            let after = marked_reverted(sessions, id, now)[j];
            &&& session_index(sessions, id) != Some(j) ==> after == before
            &&& session_index(sessions, id) == Some(j) ==> after.reverted && after.reverted_at
                == Some(now) && after.session_id == id && after.commits == before.commits
        }),
{
    lemma_session_index(sessions, id);
}

} // verus!
