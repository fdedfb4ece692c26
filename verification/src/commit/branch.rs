//! Branch names, and the choice of the branch to commit to.

use vstd::prelude::*;

use crate::analysis::CollectedDiff;
use crate::engine::hunks::{hunk_goes_on, keeps_hunk};
use crate::letters::{lower, lower_char};
use crate::pieces::{join, joined, last_of_split, last_piece, lines, lines_of};
use crate::text::{
    chars_of, contains, is_text, just, lemma_drop_back, lemma_drop_front, lemma_texts_push, occurs,
    occurs_at, part, parts, prefix_stripped, starts_with, strip_prefix, text, text_of, text_ref,
    texts, trim, trim_leading, trim_trailing, trimmed, without_leading, without_trailing,
};

verus! {

// ── slugs ───────────────────────────────────────────────────────────

/// A letter or digit of ASCII.
pub open spec fn is_alphanumeric(c: char) -> bool {
    'a' <= c <= 'z' || 'A' <= c <= 'Z' || '0' <= c <= '9'
}

/// Letters in lower case and digits, and one hyphen for every run of other
/// characters.
pub open spec fn hyphenated(s: Seq<char>) -> Seq<char>
    decreases s.len(),
{
    if s.len() == 0 {
        Seq::empty()
    } else {
        let before = hyphenated(s.drop_last());
        if is_alphanumeric(s.last()) {
            before.push(lower_char(s.last()))
        } else if before.len() > 0 && before.last() == '-' {
            before
        } else {
            before.push('-')
        }
    }
}

/// The first `n` characters.
pub open spec fn at_most(s: Seq<char>, n: int) -> Seq<char> {
    if s.len() <= n {
        s
    } else {
        s.take(n)
    }
}

/// A text as a slug of at most fifty characters, without hyphens at its edges.
pub open spec fn slug_of(s: Seq<char>) -> Seq<char> {
    without_trailing(at_most(without_leading(hyphenated(s), '-'), 50), '-')
}

/// Turn a text into a slug.
pub fn slugify(text: &str) -> (r: String)
    ensures
        r@ == slug_of(text@),
{
    let chars = chars_of(text);
    let mut out: Vec<char> = Vec::new();
    assert(out@ =~= hyphenated(chars@.take(0)));
    for i in 0..chars.len()
        invariant
            chars@ == text@,
            out@ == hyphenated(chars@.take(i as int)),
    {
        let c = chars[i];
        assert(chars@.take(i + 1).drop_last() =~= chars@.take(i as int));
        assert(chars@.take(i + 1).last() == c);
        let n = out.len();
        if ('a' <= c && c <= 'z') || ('A' <= c && c <= 'Z') || ('0' <= c && c <= '9') {
            out.push(lower(c));
        } else if n == 0 || out[n - 1] != '-' {
            out.push('-');
        }
    }
    assert(chars@.take(chars@.len() as int) =~= chars@);
    let slug = trim_leading(out.as_slice(), '-');
    let cut: &[char] = if slug.len() <= 50 {
        slug
    } else {
        assert(slug@.subrange(0, 50) =~= slug@.take(50));
        &slug[0..50]
    };
    text_of(trim_trailing(cut, '-'))
}

// ── suggestions ─────────────────────────────────────────────────────

/// The list with `action`, which is added only where it is new.
pub open spec fn with_action(actions: Seq<Seq<char>>, action: Seq<char>) -> Seq<Seq<char>> {
    if actions.contains(action) {
        actions
    } else {
        actions.push(action)
    }
}

/// The last segment of a path.
pub open spec fn file_name(path: Seq<char>) -> Seq<char> {
    last_piece(without_leading(path, '/'), '/')
}

/// What the lines of a patch have shown so far: the old side of the current
/// file, whether its hunks have begun, and the actions.
pub struct Actions {
    pub old_side: Option<Seq<char>>,
    pub in_hunk: bool,
    pub found: Seq<Seq<char>>,
}

/// The action that a line before the hunks of a file shows, where it shows one.
pub open spec fn shown_action(old_side: Option<Seq<char>>, line: Seq<char>) -> Option<Seq<char>> {
    match prefix_stripped(line, "+++ b/"@) {
        Some(path) => {
            let verb = if old_side is None || old_side == Some("/dev/null"@) {
                "add"@
            } else {
                "update"@
            };
            Some(verb + " "@ + file_name(path))
        },
        None => if "+++ /dev/null"@.is_prefix_of(line) {
            Some(
                "remove "@ + match old_side {
                    Some(path) => file_name(path),
                    None => "file"@,
                },
            )
        } else {
            None
        },
    }
}

/// What one more line shows. The lines of a hunk show nothing.
pub open spec fn noticed(before: Actions, line: Seq<char>) -> Actions {
    let in_hunk = hunk_goes_on(before.in_hunk, line);
    if "diff --git "@.is_prefix_of(line) {
        Actions { old_side: None, in_hunk, found: before.found }
    } else if before.in_hunk {
        before
    } else if let Some(rest) = prefix_stripped(line, "--- "@) {
        Actions { old_side: Some(trimmed(rest)), in_hunk, found: before.found }
    } else {
        Actions {
            old_side: before.old_side,
            in_hunk,
            found: match shown_action(before.old_side, line) {
                Some(action) => with_action(before.found, action),
                None => before.found,
            },
        }
    }
}

/// What the lines of a patch show.
pub open spec fn actions_in(patch: Seq<Seq<char>>) -> Actions
    decreases patch.len(),
{
    if patch.len() == 0 {
        Actions { old_side: None, in_hunk: false, found: Seq::empty() }
    } else {
        noticed(actions_in(patch.drop_last()), patch.last())
    }
}

/// The branch name that a patch suggests.
pub open spec fn suggestion_of(patch: Seq<char>) -> Seq<char> {
    let actions = actions_in(lines_of(patch)).found;
    let slug = slug_of(joined(actions, " "@));
    if actions.len() == 0 || slug.len() == 0 {
        "changes"@
    } else {
        slug
    }
}

/// Add `action` to the list where it is new.
pub fn push_unique(actions: &mut Vec<String>, action: String)
    ensures
        texts(final(actions)@) == with_action(texts(old(actions)@), action@),
{
    broadcast use lemma_texts_push;

    let ghost before = texts(actions@);
    for i in 0..actions.len()
        invariant
            before == texts(actions@),
            actions@ == old(actions)@,
            forall|j: int| 0 <= j < i ==> before[j] != action@,
    {
        if actions[i] == action {
            assert(before[i as int] == action@);
            return ;
        }
        assert(before[i as int] == actions@[i as int]@);
    }
    assert(!before.contains(action@));
    actions.push(action);
}

fn name_of(path: &[char]) -> (r: String)
    ensures
        r@ == file_name(path@),
{
    text_of(last_of_split(trim_leading(path, '/'), '/'))
}

fn action_on(old_side: Option<&[char]>, line: &[char]) -> (r: Option<String>)
    ensures
        text(r) == shown_action(part(old_side), line@),
{
    if let Some(path) = strip_prefix(line, "+++ b/") {
        let is_new = match old_side {
            None => true,
            Some(side) => is_text(side, "/dev/null"),
        };
        let mut action = if is_new {
            "add".to_owned()
        } else {
            "update".to_owned()
        };
        action.append(" ");
        action.append(name_of(path).as_str());
        Some(action)
    } else if starts_with(line, "+++ /dev/null") {
        let name = match old_side {
            Some(side) => name_of(side),
            None => "file".to_owned(),
        };
        let mut action = "remove ".to_owned();
        action.append(name.as_str());
        Some(action)
    } else {
        None
    }
}

/// What a patch does to its files, as a list of actions such as `add auth.py`.
pub fn diff_actions(collected: &CollectedDiff) -> (r: Vec<String>)
    ensures
        texts(r@) == actions_in(lines_of(collected.patch@)).found,
{
    let chars = chars_of(collected.patch.as_str());
    let all = lines(chars.as_slice());
    let ghost views = parts(all@);
    let mut old_side: Option<&[char]> = None;
    let mut in_hunk = false;
    let mut found: Vec<String> = Vec::new();
    assert(texts(found@) =~= actions_in(views.take(0)).found);
    for i in 0..all.len()
        invariant
            views == parts(all@),
            actions_in(views.take(i as int)) == (Actions {
                old_side: part(old_side),
                in_hunk,
                found: texts(found@),
            }),
    {
        let line = all[i];
        assert(views.take(i + 1).drop_last() =~= views.take(i as int));
        assert(views.take(i + 1).last() == line@);
        if starts_with(line, "diff --git ") {
            old_side = None;
        } else if !in_hunk {
            if let Some(rest) = strip_prefix(line, "--- ") {
                old_side = Some(trim(rest));
            } else if let Some(action) = action_on(old_side, line) {
                push_unique(&mut found, action);
            }
        }
        in_hunk = keeps_hunk(in_hunk, line);
    }
    assert(views.take(views.len() as int) =~= views);
    found
}

/// Suggest a branch name for a diff.
pub fn suggest_branch_name(collected: &CollectedDiff) -> (r: String)
    ensures
        r@ == suggestion_of(collected.patch@),
{
    let actions = diff_actions(collected);
    assert(texts(actions@).len() == actions@.len());
    if actions.len() == 0 {
        return "changes".to_owned();
    }
    let slug = slugify(join(actions.as_slice(), " ").as_str());
    let chars = chars_of(slug.as_str());
    if chars.len() == 0 {
        "changes".to_owned()
    } else {
        slug
    }
}

/// The branch name to propose: that of the backend as a slug where it gives a
/// usable one, else the one that the patch suggests.
pub open spec fn proposed_branch(answer: Option<Seq<char>>, patch: Seq<char>) -> Seq<char> {
    match answer {
        Some(name) => if slug_of(name).len() > 0 && valid_branch_name(slug_of(name)) {
            slug_of(name)
        } else {
            suggestion_of(patch)
        },
        None => suggestion_of(patch),
    }
}

/// Choose the branch name to propose. `answer` is the name that the backend
/// recommends, where it does.
pub fn propose_branch(answer: Option<&str>, collected: &CollectedDiff) -> (r: String)
    ensures
        r@ == proposed_branch(text_ref(answer), collected.patch@),
{
    if let Some(name) = answer {
        let slug = slugify(name);
        if is_valid_branch_name(slug.as_str()) {
            return slug;
        }
    }
    suggest_branch_name(collected)
}

// ── valid names ─────────────────────────────────────────────────────

/// Characters that git forbids in the name of a branch.
pub open spec fn is_forbidden(c: char) -> bool {
    c == ' ' || c == '~' || c == '^' || c == ':' || c == '?' || c == '*' || c == '[' || c == '\\'
}

/// The name is not empty, has no slash at an edge, no two dots in a row and no
/// forbidden character.
pub open spec fn valid_branch_name(name: Seq<char>) -> bool {
    &&& name.len() > 0
    &&& name[0] != '/'
    &&& name.last() != '/'
    &&& !occurs(name, ".."@)
    &&& forall|i: int| 0 <= i < name.len() ==> !is_forbidden(#[trigger] name[i])
}

/// Whether git may accept the name of a branch. Git itself has the last word.
pub fn is_valid_branch_name(name: &str) -> (r: bool)
    ensures
        r == valid_branch_name(name@),
{
    let chars = chars_of(name);
    let s = chars.as_slice();
    let n = s.len();
    if n == 0 || s[0] == '/' || s[n - 1] == '/' || contains(s, "..") {
        return false;
    }
    for i in 0..n
        invariant
            n == s@.len(),
            s@ == name@,
            forall|j: int| 0 <= j < i ==> !is_forbidden(#[trigger] s@[j]),
    {
        let c = s[i];
        if c == ' ' || c == '~' || c == '^' || c == ':' || c == '?' || c == '*' || c == '[' || c
            == '\\' {
            assert(is_forbidden(name@[i as int]));
            return false;
        }
    }
    true
}

// ── completion ──────────────────────────────────────────────────────

/// The names that are offered for completion.
pub fn branch_candidates(suggestion: &str) -> (r: Vec<String>)
    ensures
        texts(r@) == seq![suggestion@],
{
    let mut out: Vec<String> = Vec::new();
    out.push(suggestion.to_owned());
    assert(texts(out@) =~= seq![suggestion@]);
    out
}

/// Holds of the texts that begin with `line`.
pub open spec fn begins_with(line: Seq<char>) -> spec_fn(Seq<char>) -> bool {
    |c: Seq<char>| line.is_prefix_of(c)
}

/// The candidates that begin with what was typed.
pub fn complete(candidates: &[String], line: &str) -> (r: Vec<String>)
    ensures
        texts(r@) == texts(candidates@).filter(begins_with(line@)),
{
    broadcast use lemma_texts_push;

    let ghost all = texts(candidates@);
    let mut out: Vec<String> = Vec::new();
    assert(all.take(0) =~= Seq::empty());
    assert(texts(out@) =~= all.take(0).filter(begins_with(line@))) by {
        reveal(Seq::filter);
    }
    for i in 0..candidates.len()
        invariant
            all == texts(candidates@),
            texts(out@) == all.take(i as int).filter(begins_with(line@)),
    {
        proof {
            assert(all.take(i + 1) =~= all.take(i as int).push(candidates@[i as int]@));
            all.take(i as int).lemma_filter_push(candidates@[i as int]@, begins_with(line@));
        }
        let chars = chars_of(candidates[i].as_str());
        if starts_with(chars.as_slice(), line) {
            out.push(candidates[i].clone());
        }
    }
    assert(all.take(all.len() as int) =~= all);
    out
}

/// What is missing of the first candidate that continues what was typed.
pub open spec fn hint_of(candidates: Seq<Seq<char>>, line: Seq<char>) -> Option<Seq<char>>
    decreases candidates.len(),
{
    if candidates.len() == 0 {
        None
    } else {
        match hint_of(candidates.drop_last(), line) {
            Some(rest) => Some(rest),
            None => if candidates.last() != line {
                prefix_stripped(candidates.last(), line)
            } else {
                None
            },
        }
    }
}

/// What to show behind the input as a hint.
pub fn hint(candidates: &[String], line: &str) -> (r: Option<String>)
    ensures
        text(r) == hint_of(texts(candidates@), line@),
{
    let ghost all = texts(candidates@);
    let mut found: Option<String> = None;
    for i in 0..candidates.len()
        invariant
            all == texts(candidates@),
            text(found) == hint_of(all.take(i as int), line@),
    {
        assert(all.take(i + 1).drop_last() =~= all.take(i as int));
        assert(all.take(i + 1).last() == candidates@[i as int]@);
        if found.is_none() {
            let chars = chars_of(candidates[i].as_str());
            if !is_text(chars.as_slice(), line) {
                if let Some(rest) = strip_prefix(chars.as_slice(), line) {
                    found = Some(text_of(rest));
                }
            }
        }
    }
    assert(all.take(all.len() as int) =~= all);
    found
}

/// The name that an input line stands for: the suggestion where it is blank.
pub open spec fn typed_name(suggestion: Seq<char>, line: Seq<char>) -> Seq<char> {
    if trimmed(line).len() == 0 {
        suggestion
    } else {
        trimmed(line)
    }
}

/// The name that the user entered. `None` means that the input was aborted.
pub fn read_branch_name(suggestion: &str, line: Option<&str>) -> (r: Option<String>)
    ensures
        text(r) == match line {
            Some(l) => Some(typed_name(suggestion@, l@)),
            None => None,
        },
{
    match line {
        Some(l) => {
            let chars = chars_of(l);
            let name = trim(chars.as_slice());
            if name.len() == 0 {
                Some(suggestion.to_owned())
            } else {
                Some(text_of(name))
            }
        },
        None => None,
    }
}

// ── laws ────────────────────────────────────────────────────────────

/// A character that a slug may hold.
pub open spec fn is_slug_char(c: char) -> bool {
    'a' <= c <= 'z' || '0' <= c <= '9' || c == '-'
}

/// Only slug characters, and no two hyphens in a row.
pub open spec fn slug_like(s: Seq<char>) -> bool {
    &&& forall|i: int| 0 <= i < s.len() ==> is_slug_char(#[trigger] s[i])
    &&& forall|i: int, j: int|
        0 <= i < j < s.len() && j == i + 1 ==> !(#[trigger] s[i] == '-' && #[trigger] s[j] == '-')
}

proof fn lemma_hyphenated(s: Seq<char>)
    ensures
        slug_like(hyphenated(s)),
    decreases s.len(),
{
    if s.len() > 0 {
        lemma_hyphenated(s.drop_last());
    }
}

/// A slug has at most fifty characters, all of them lower case letters, digits
/// and hyphens, no hyphen at an edge and no two hyphens in a row.
pub proof fn lemma_slug_shape(s: Seq<char>)
    ensures
        slug_of(s).len() <= 50,
        slug_like(slug_of(s)),
        slug_of(s).len() > 0 ==> slug_of(s)[0] != '-' && slug_of(s).last() != '-',
{
    let raw = hyphenated(s);
    lemma_hyphenated(s);
    let is_hyphen = just('-');
    let front = without_leading(raw, '-');
    lemma_drop_front(raw, is_hyphen);
    let k = raw.len() - front.len();
    assert(slug_like(front)) by {
        assert forall|i: int| 0 <= i < front.len() implies is_slug_char(#[trigger] front[i]) by {
            assert(front[i] == raw[i + k]);
        }
        assert forall|i: int, j: int| 0 <= i < j < front.len() && j == i + 1 implies !(
        #[trigger] front[i] == '-' && #[trigger] front[j] == '-') by {
            assert(front[i] == raw[i + k] && front[j] == raw[j + k]);
        }
    }
    let cut = at_most(front, 50);
    lemma_drop_back(cut, is_hyphen);
    let slug = slug_of(s);
    assert forall|i: int| 0 <= i < slug.len() implies slug[i] == #[trigger] front[i] by {}
    assert(slug_like(slug)) by {
        assert forall|i: int| 0 <= i < slug.len() implies is_slug_char(#[trigger] slug[i]) by {
            assert(slug[i] == front[i]);
        }
        assert forall|i: int, j: int| 0 <= i < j < slug.len() && j == i + 1 implies !(
        #[trigger] slug[i] == '-' && #[trigger] slug[j] == '-') by {
            assert(slug[i] == front[i] && slug[j] == front[j]);
        }
    }
    if slug.len() > 0 {
        assert(slug[0] == front[0]);
        assert(!is_hyphen(front[0]));
        assert(!is_hyphen(slug.last()));
    }
}

pub proof fn lemma_slug_is_valid(name: Seq<char>)
    requires
        name.len() > 0,
        forall|i: int| 0 <= i < name.len() ==> is_slug_char(#[trigger] name[i]),
    ensures
        valid_branch_name(name),
{
    assert(is_slug_char(name[0]));
    assert(is_slug_char(name[name.len() - 1]));
    reveal_strlit("..");
    if occurs(name, ".."@) {
        let i = choose|i: int| occurs_at(name, ".."@, i);
        assert(name.subrange(i, i + 2)[0] == ".."@[0]);
        assert(is_slug_char(name[i]));
    }
    assert forall|i: int| 0 <= i < name.len() implies !is_forbidden(#[trigger] name[i]) by {
        assert(is_slug_char(name[i]));
    }
}

/// Whatever the diff and the answer of the backend, the proposed name is a
/// valid name of a branch.
pub proof fn lemma_proposed_branch_is_valid(answer: Option<Seq<char>>, patch: Seq<char>)
    ensures
        valid_branch_name(proposed_branch(answer, patch)),
        valid_branch_name(suggestion_of(patch)),
{
    let actions = actions_in(lines_of(patch)).found;
    let slug = slug_of(joined(actions, " "@));
    lemma_slug_shape(joined(actions, " "@));
    if actions.len() == 0 || slug.len() == 0 {
        reveal_strlit("changes");
        lemma_slug_is_valid("changes"@);
    } else {
        lemma_slug_is_valid(slug);
    }
}

} // verus!
