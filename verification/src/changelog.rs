//! `commitor changelog`: conventional commits of the history, by category.

use vstd::prelude::*;
use vstd::utf8::is_ascii_chars;

use crate::engine::coverage::{lemma_contains_push, lemma_no_duplicates_push};
use crate::engine::git::{outcome, GitOutput};
use crate::letters::{ascii_lowered, lowercase_of, to_lowercase};
use crate::number::{count, decimal_of};
use crate::order::{
    by_text, increasing, lemma_by_text_is_strict_order, lemma_sorted_set, sorted_names,
    sorted_texts,
};
use crate::pieces::{lines, lines_of};
use crate::style::{bold, green, styled, yellow};
use crate::text::{
    chars_of, contains, find, first_index, lemma_texts_push, occurs, parts, same_text, text,
    text_of, text_ref, texts, trim, trimmed,
};

verus! {

/// How the command was called.
#[derive(Debug, Clone, Default)]
pub struct ChangelogFlags {
    /// The revisions to look at.
    pub range: Option<String>,
    /// How many commits to look at where no range is given.
    pub limit: Option<usize>,
    /// Write Markdown.
    pub markdown: bool,
    /// Write JSON.
    pub json: bool,
}

/// A conventional commit.
#[derive(Debug, Clone, PartialEq, Eq)]
pub struct CommitEntry {
    pub hash: String,
    pub commit_type: String,
    pub scope: Option<String>,
    pub summary: String,
    pub is_breaking: bool,
    pub author: String,
    pub date: String,
}

/// A changelog. Categories are in the order of their names.
#[derive(Debug, Clone, Default)]
pub struct ChangelogReport {
    pub range: String,
    pub total_commits: usize,
    pub categories: Vec<(String, Vec<CommitEntry>)>,
    pub breaking_changes: Vec<CommitEntry>,
}

/// A commit as texts.
pub struct EntryView {
    pub hash: Seq<char>,
    pub commit_type: Seq<char>,
    pub scope: Option<Seq<char>>,
    pub summary: Seq<char>,
    pub is_breaking: bool,
    pub author: Seq<char>,
    pub date: Seq<char>,
}

/// A changelog as texts.
pub struct ReportView {
    pub range: Seq<char>,
    pub total_commits: nat,
    pub categories: Seq<(Seq<char>, Seq<EntryView>)>,
    pub breaking_changes: Seq<EntryView>,
}

impl View for CommitEntry {
    type V = EntryView;

    open spec fn view(&self) -> EntryView {
        EntryView {
            hash: self.hash@,
            commit_type: self.commit_type@,
            scope: text(self.scope),
            summary: self.summary@,
            is_breaking: self.is_breaking,
            author: self.author@,
            date: self.date@,
        }
    }
}

/// The commits as texts.
pub open spec fn entry_views(entries: Seq<CommitEntry>) -> Seq<EntryView> {
    entries.map_values(|e: CommitEntry| e@)
}

/// The categories as texts.
pub open spec fn category_views(categories: Seq<(String, Vec<CommitEntry>)>) -> Seq<
    (Seq<char>, Seq<EntryView>),
> {
    categories.map_values(|c: (String, Vec<CommitEntry>)| (c.0@, entry_views(c.1@)))
}

impl View for ChangelogReport {
    type V = ReportView;

    open spec fn view(&self) -> ReportView {
        ReportView {
            range: self.range@,
            total_commits: self.total_commits as nat,
            categories: category_views(self.categories@),
            breaking_changes: entry_views(self.breaking_changes@),
        }
    }
}

// ── subjects ────────────────────────────────────────────────────────

/// The subject of a conventional commit, taken apart.
#[derive(Debug, Clone)]
pub struct Subject {
    /// The type as it is written.
    pub kind: String,
    pub scope: Option<String>,
    pub breaking: bool,
    pub summary: String,
}

/// A subject as texts.
pub struct SubjectView {
    pub kind: Seq<char>,
    pub scope: Option<Seq<char>>,
    pub breaking: bool,
    pub summary: Seq<char>,
}

impl View for Subject {
    type V = SubjectView;

    open spec fn view(&self) -> SubjectView {
        SubjectView {
            kind: self.kind@,
            scope: text(self.scope),
            breaking: self.breaking,
            summary: self.summary@,
        }
    }
}

/// The type and the scope of a header without its exclamation mark. A scope
/// stands in round brackets behind the type; brackets in the wrong order, or
/// an opening one alone, make no header.
pub open spec fn type_and_scope(header: Seq<char>) -> Option<(Seq<char>, Option<Seq<char>>)> {
    match first_index(header, '(') {
        None => Some((header, None)),
        Some(open_at) => match first_index(header, ')') {
            None => None,
            Some(close_at) => if close_at <= open_at {
                None
            } else {
                Some(
                    (
                        trimmed(header.take(open_at)),
                        Some(trimmed(header.subrange(open_at + 1, close_at))),
                    ),
                )
            },
        },
    }
}

/// What a subject says: what stands before its first colon is the header, and
/// what stands behind it the summary. A change is breaking where the header
/// ends in an exclamation mark or the subject says so.
pub open spec fn subject_of(subject: Seq<char>) -> Option<SubjectView> {
    match first_index(subject, ':') {
        None => None,
        Some(colon) => {
            let header = trimmed(subject.take(colon));
            let summary = trimmed(subject.skip(colon + 1));
            let marked = header.len() > 0 && header.last() == '!';
            let bare = if marked {
                header.drop_last()
            } else {
                header
            };
            match type_and_scope(bare) {
                None => None,
                Some((kind, scope)) => Some(
                    SubjectView {
                        kind,
                        scope,
                        breaking: marked || occurs(subject, "BREAKING CHANGE"@),
                        summary,
                    },
                ),
            }
        },
    }
}

/// The commit that a subject makes where its type, in lower case, and its
/// summary are not empty.
pub open spec fn entry_of(
    hash: Seq<char>,
    author: Seq<char>,
    date: Seq<char>,
    subject: SubjectView,
    commit_type: Seq<char>,
) -> Option<EntryView> {
    if commit_type.len() == 0 || subject.summary.len() == 0 {
        None
    } else {
        Some(
            EntryView {
                hash,
                commit_type,
                scope: subject.scope,
                summary: subject.summary,
                is_breaking: subject.breaking,
                author,
                date,
            },
        )
    }
}

/// The conventional commit that a subject stands for, where it stands for one.
pub open spec fn conventional(
    hash: Seq<char>,
    author: Seq<char>,
    date: Seq<char>,
    subject: Seq<char>,
) -> Option<EntryView> {
    match subject_of(subject) {
        None => None,
        Some(s) => entry_of(hash, author, date, s, lowercase_of(s.kind)),
    }
}

fn split_header(header: &[char]) -> (r: Option<(String, Option<String>)>)
    ensures
        match r {
            Some((kind, scope)) => type_and_scope(header@) == Some((kind@, text(scope))),
            None => type_and_scope(header@) is None,
        },
{
    match find(header, '(') {
        None => Some((text_of(header), None)),
        Some(open_at) => match find(header, ')') {
            None => None,
            Some(close_at) => if close_at <= open_at {
                None
            } else {
                assert(header@.subrange(0, open_at as int) =~= header@.take(open_at as int));
                let kind = text_of(trim(&header[0..open_at]));
                let scope = text_of(trim(&header[open_at + 1..close_at]));
                Some((kind, Some(scope)))
            },
        },
    }
}

/// Take the subject of a commit apart.
pub fn split_subject(subject: &str) -> (r: Option<Subject>)
    ensures
        match r {
            Some(s) => subject_of(subject@) == Some(s@),
            None => subject_of(subject@) is None,
        },
{
    let chars = chars_of(subject);
    let s = chars.as_slice();
    let n = s.len();
    match find(s, ':') {
        None => None,
        Some(colon) => {
            assert(s@.subrange(0, colon as int) =~= s@.take(colon as int));
            assert(s@.subrange(colon + 1, n as int) =~= s@.skip(colon + 1));
            let header = trim(&s[0..colon]);
            let summary = text_of(trim(&s[colon + 1..n]));
            let m = header.len();
            let marked = m > 0 && header[m - 1] == '!';
            let bare: &[char] = if marked {
                assert(header@.subrange(0, m - 1) =~= header@.drop_last());
                &header[0..m - 1]
            } else {
                header
            };
            match split_header(bare) {
                None => None,
                Some((kind, scope)) => {
                    let breaking = marked || contains(s, "BREAKING CHANGE");
                    Some(Subject { kind, scope, breaking, summary })
                },
            }
        },
    }
}

/// Make a commit of a subject and its type in lower case.
pub fn make_entry(
    hash: String,
    author: String,
    date: String,
    subject: Subject,
    commit_type: String,
) -> (r: Option<CommitEntry>)
    ensures
        match r {
            Some(e) => entry_of(hash@, author@, date@, subject@, commit_type@) == Some(e@),
            None => entry_of(hash@, author@, date@, subject@, commit_type@) is None,
        },
{
    if chars_of(commit_type.as_str()).len() == 0 || chars_of(subject.summary.as_str()).len() == 0 {
        return None;
    }
    Some(
        CommitEntry {
            hash,
            commit_type,
            scope: subject.scope,
            summary: subject.summary,
            is_breaking: subject.breaking,
            author,
            date,
        },
    )
}

/// Read the subject of a commit as that of a conventional commit. It is one
/// where it has a type and a summary.
pub fn parse_conventional(hash: String, author: String, date: String, subject: &str) -> (r: Option<
    CommitEntry,
>)
    ensures
        match r {
            Some(e) => conventional(hash@, author@, date@, subject@) == Some(e@),
            None => conventional(hash@, author@, date@, subject@) is None,
        },
        r is Some <==> (subject_of(subject@) matches Some(s) && s.kind.len() > 0 && s.summary.len()
            > 0),
        r matches Some(e) ==> (subject_of(subject@) matches Some(s) && (is_ascii_chars(s.kind)
            ==> e.commit_type@ == ascii_lowered(s.kind))),
{
    match split_subject(subject) {
        None => None,
        Some(s) => {
            let commit_type = to_lowercase(s.kind.as_str());
            make_entry(hash, author, date, s, commit_type)
        },
    }
}

// ── the log ─────────────────────────────────────────────────────────

/// The arguments for git's log: a range where one is given, else the number of
/// commits, which is twenty unless given.
pub open spec fn log_words(range: Option<Seq<char>>, limit: Option<nat>) -> Seq<Seq<char>> {
    seq![
        "log"@,
        "--pretty=format:%h|%an|%ad|%s"@,
        "--date=short"@,
        match range {
            Some(r) => r,
            None => "-n"@ + decimal_of(
                match limit {
                    Some(n) => n,
                    None => 20,
                },
            ),
        },
    ]
}

/// Make the arguments for git's log.
pub fn log_args(range: Option<&str>, limit: Option<usize>) -> (r: Vec<String>)
    ensures
        texts(r@) == log_words(
            text_ref(range),
            match limit {
                Some(n) => Some(n as nat),
                None => None,
            },
        ),
{
    let last = match range {
        Some(r) => r.to_owned(),
        None => {
            let n: usize = match limit {
                Some(n) => n,
                None => 20,
            };
            let mut out = "-n".to_owned();
            out.append(count(n).as_str());
            out
        },
    };
    let mut out: Vec<String> = Vec::new();
    out.push("log".to_owned());
    out.push("--pretty=format:%h|%an|%ad|%s".to_owned());
    out.push("--date=short".to_owned());
    out.push(last);
    assert(texts(out@) =~= log_words(
        text_ref(range),
        match limit {
            Some(n) => Some(n as nat),
            None => None,
        },
    ));
    out
}

/// What stands before the first bar and what stands behind it.
pub open spec fn at_bar(s: Seq<char>) -> Option<(Seq<char>, Seq<char>)> {
    match first_index(s, '|') {
        Some(i) => Some((s.take(i), s.skip(i + 1))),
        None => None,
    }
}

/// The commit that a line of the log stands for: hash, author, date and
/// subject, with bars between them.
pub open spec fn logged(line: Seq<char>) -> Option<EntryView> {
    match at_bar(line) {
        None => None,
        Some((hash, rest)) => match at_bar(rest) {
            None => None,
            Some((author, rest)) => match at_bar(rest) {
                None => None,
                Some((date, subject)) => conventional(
                    trimmed(hash),
                    trimmed(author),
                    trimmed(date),
                    trimmed(subject),
                ),
            },
        },
    }
}

/// The conventional commits of a log, in its order.
pub open spec fn log_entries(lines: Seq<Seq<char>>) -> Seq<EntryView>
    decreases lines.len(),
{
    if lines.len() == 0 {
        Seq::empty()
    } else {
        let before = log_entries(lines.drop_last());
        match logged(lines.last()) {
            Some(e) => before.push(e),
            None => before,
        }
    }
}

fn cut_at_bar(s: &[char]) -> (r: Option<(&[char], &[char])>)
    ensures
        match r {
            Some((a, b)) => at_bar(s@) == Some((a@, b@)),
            None => at_bar(s@) is None,
        },
{
    let n = s.len();
    match find(s, '|') {
        Some(i) => {
            assert(s@.subrange(0, i as int) =~= s@.take(i as int));
            assert(s@.subrange(i + 1, n as int) =~= s@.skip(i + 1));
            Some((&s[0..i], &s[i + 1..n]))
        },
        None => None,
    }
}

fn read_logged(line: &[char]) -> (r: Option<CommitEntry>)
    ensures
        match r {
            Some(e) => logged(line@) == Some(e@),
            None => logged(line@) is None,
        },
{
    match cut_at_bar(line) {
        None => None,
        Some((hash, rest)) => match cut_at_bar(rest) {
            None => None,
            Some((author, rest)) => match cut_at_bar(rest) {
                None => None,
                Some((date, subject)) => parse_conventional(
                    text_of(trim(hash)),
                    text_of(trim(author)),
                    text_of(trim(date)),
                    text_of(trim(subject)).as_str(),
                ),
            },
        },
    }
}

/// Read the conventional commits out of what git's log printed.
pub fn parse_log(log: &str) -> (r: Vec<CommitEntry>)
    ensures
        entry_views(r@) == log_entries(lines_of(log@)),
{
    let chars = chars_of(log);
    let all = lines(chars.as_slice());
    let ghost views = parts(all@);
    let mut out: Vec<CommitEntry> = Vec::new();
    assert(entry_views(out@) =~= log_entries(views.take(0)));
    for i in 0..all.len()
        invariant
            views == parts(all@),
            entry_views(out@) == log_entries(views.take(i as int)),
    {
        assert(views.take(i + 1).drop_last() =~= views.take(i as int));
        assert(views.take(i + 1).last() == all@[i as int]@);
        let ghost before = entry_views(out@);
        match read_logged(all[i]) {
            Some(e) => {
                out.push(e);
                assert(entry_views(out@) =~= before.push(e@));
            },
            None => {},
        }
    }
    assert(views.take(views.len() as int) =~= views);
    out
}

/// Read the conventional commits out of a call of git's log, or say why it
/// failed.
pub fn fetch_commits(output: &GitOutput) -> (r: Result<Vec<CommitEntry>, String>)
    ensures
        match (r, outcome(*output, "git log failed: "@)) {
            (Ok(entries), Ok(log)) => entry_views(entries@) == log_entries(lines_of(log)),
            (Err(why), Err(told)) => why@ == told,
            _ => false,
        },
{
    match crate::engine::git::log_outcome(output) {
        Ok(log) => Ok(parse_log(log.as_str())),
        Err(why) => Err(why),
    }
}

// ── the report ──────────────────────────────────────────────────────

/// The category of a commit type.
pub open spec fn category_of(commit_type: Seq<char>) -> Seq<char> {
    if commit_type == "feat"@ {
        "Features"@
    } else if commit_type == "fix"@ {
        "Bug Fixes"@
    } else if commit_type == "docs"@ {
        "Documentation"@
    } else if commit_type == "refactor"@ {
        "Refactoring"@
    } else if commit_type == "perf"@ {
        "Performance Improvements"@
    } else if commit_type == "test"@ {
        "Tests"@
    } else if commit_type == "style"@ {
        "Styles"@
    } else if commit_type == "chore"@ {
        "Chores & Maintenance"@
    } else if commit_type == "ci"@ {
        "Continuous Integration"@
    } else if commit_type == "build"@ {
        "Build System"@
    } else {
        "Other Changes"@
    }
}

fn category_name(commit_type: &str) -> (r: String)
    ensures
        r@ == category_of(commit_type@),
{
    if same_text(commit_type, "feat") {
        "Features".to_owned()
    } else if same_text(commit_type, "fix") {
        "Bug Fixes".to_owned()
    } else if same_text(commit_type, "docs") {
        "Documentation".to_owned()
    } else if same_text(commit_type, "refactor") {
        "Refactoring".to_owned()
    } else if same_text(commit_type, "perf") {
        "Performance Improvements".to_owned()
    } else if same_text(commit_type, "test") {
        "Tests".to_owned()
    } else if same_text(commit_type, "style") {
        "Styles".to_owned()
    } else if same_text(commit_type, "chore") {
        "Chores & Maintenance".to_owned()
    } else if same_text(commit_type, "ci") {
        "Continuous Integration".to_owned()
    } else if same_text(commit_type, "build") {
        "Build System".to_owned()
    } else {
        "Other Changes".to_owned()
    }
}

/// Holds of the commits in a category.
pub open spec fn in_category(name: Seq<char>) -> spec_fn(EntryView) -> bool {
    |e: EntryView| category_of(e.commit_type) == name
}

/// The commits in a category, in the order of the log.
pub open spec fn entries_in(entries: Seq<EntryView>, name: Seq<char>) -> Seq<EntryView> {
    entries.filter(in_category(name))
}

/// The category of each commit.
pub open spec fn category_names(entries: Seq<EntryView>) -> Seq<Seq<char>> {
    entries.map_values(|e: EntryView| category_of(e.commit_type))
}

/// The commits by category, in the order of the categories' names.
pub open spec fn by_category(entries: Seq<EntryView>, names: Seq<Seq<char>>) -> Seq<
    (Seq<char>, Seq<EntryView>),
> {
    names.map_values(|n: Seq<char>| (n, entries_in(entries, n)))
}

/// Holds of breaking changes.
pub open spec fn breaking() -> spec_fn(EntryView) -> bool {
    |e: EntryView| e.is_breaking
}

/// The report on some commits.
pub open spec fn report_of(range: Option<Seq<char>>, entries: Seq<EntryView>) -> ReportView {
    ReportView {
        range: match range {
            Some(r) => r,
            None => "Last "@ + decimal_of(entries.len()) + " commits"@,
        },
        total_commits: entries.len(),
        categories: by_category(entries, sorted_texts(category_names(entries))),
        breaking_changes: entries.filter(breaking()),
    }
}

fn copy_entry(e: &CommitEntry) -> (r: CommitEntry)
    ensures
        r@ == e@,
{
    let scope: Option<String> = match &e.scope {
        Some(s) => Some(s.clone()),
        None => None,
    };
    CommitEntry {
        hash: e.hash.clone(),
        commit_type: e.commit_type.clone(),
        scope,
        summary: e.summary.clone(),
        is_breaking: e.is_breaking,
        author: e.author.clone(),
        date: e.date.clone(),
    }
}

fn pick_category(entries: &[CommitEntry], name: &str) -> (r: Vec<CommitEntry>)
    ensures
        entry_views(r@) == entries_in(entry_views(entries@), name@),
{
    let ghost all = entry_views(entries@);
    let mut out: Vec<CommitEntry> = Vec::new();
    assert(all.take(0) =~= Seq::empty());
    assert(entry_views(out@) =~= entries_in(all.take(0), name@)) by {
        reveal(Seq::filter);
    }
    for i in 0..entries.len()
        invariant
            all == entry_views(entries@),
            entry_views(out@) == entries_in(all.take(i as int), name@),
    {
        proof {
            assert(all.take(i + 1) =~= all.take(i as int).push(entries@[i as int]@));
            all.take(i as int).lemma_filter_push(entries@[i as int]@, in_category(name@));
        }
        let ghost before = entry_views(out@);
        if same_text(category_name(entries[i].commit_type.as_str()).as_str(), name) {
            let e = copy_entry(&entries[i]);
            out.push(e);
            assert(entry_views(out@) =~= before.push(e@));
        }
    }
    assert(all.take(all.len() as int) =~= all);
    out
}

fn pick_breaking(entries: &[CommitEntry]) -> (r: Vec<CommitEntry>)
    ensures
        entry_views(r@) == entry_views(entries@).filter(breaking()),
{
    let ghost all = entry_views(entries@);
    let mut out: Vec<CommitEntry> = Vec::new();
    assert(all.take(0) =~= Seq::empty());
    assert(entry_views(out@) =~= all.take(0).filter(breaking())) by {
        reveal(Seq::filter);
    }
    for i in 0..entries.len()
        invariant
            all == entry_views(entries@),
            entry_views(out@) == all.take(i as int).filter(breaking()),
    {
        proof {
            assert(all.take(i + 1) =~= all.take(i as int).push(entries@[i as int]@));
            all.take(i as int).lemma_filter_push(entries@[i as int]@, breaking());
        }
        let ghost before = entry_views(out@);
        if entries[i].is_breaking {
            let e = copy_entry(&entries[i]);
            out.push(e);
            assert(entry_views(out@) =~= before.push(e@));
        }
    }
    assert(all.take(all.len() as int) =~= all);
    out
}

/// Put commits into a report.
pub fn build_report(range: Option<&str>, entries: &[CommitEntry]) -> (r: ChangelogReport)
    ensures
        r@ == report_of(text_ref(range), entry_views(entries@)),
{
    broadcast use lemma_texts_push;

    let ghost all = entry_views(entries@);
    let mut found: Vec<String> = Vec::new();
    assert(texts(found@) =~= category_names(all).take(0));
    for i in 0..entries.len()
        invariant
            all == entry_views(entries@),
            texts(found@) == category_names(all).take(i as int),
    {
        found.push(category_name(entries[i].commit_type.as_str()));
        assert(category_names(all).take(i + 1) =~= category_names(all).take(i as int).push(
            category_of(entries@[i as int]@.commit_type),
        ));
    }
    assert(category_names(all).take(all.len() as int) =~= category_names(all));
    let names = sorted_names(found);
    let ghost order = texts(names@);
    let mut categories: Vec<(String, Vec<CommitEntry>)> = Vec::new();
    assert(category_views(categories@) =~= by_category(all, order.take(0)));
    for i in 0..names.len()
        invariant
            all == entry_views(entries@),
            order == texts(names@),
            category_views(categories@) == by_category(all, order.take(i as int)),
    {
        let chosen = pick_category(entries, names[i].as_str());
        let ghost before = category_views(categories@);
        categories.push((names[i].clone(), chosen));
        assert(category_views(categories@) =~= before.push((names@[i as int]@, entry_views(chosen@))));
        assert(by_category(all, order.take(i + 1)) =~= by_category(all, order.take(i as int)).push(
            (order[i as int], entries_in(all, order[i as int])),
        ));
    }
    assert(order.take(order.len() as int) =~= order);
    let range = match range {
        Some(r) => r.to_owned(),
        None => {
            let mut out = "Last ".to_owned();
            out.append(count(entries.len()).as_str());
            out.append(" commits");
            out
        },
    };
    ChangelogReport {
        range,
        total_commits: entries.len(),
        categories,
        breaking_changes: pick_breaking(entries),
    }
}

// ── rendering ───────────────────────────────────────────────────────

/// The scope in round brackets, where there is one.
pub open spec fn bracketed(scope: Option<Seq<char>>) -> Seq<char> {
    match scope {
        Some(s) => "("@ + s + ")"@,
        None => Seq::empty(),
    }
}

/// A commit as a line on the terminal, with its hash between `left` and
/// `right`.
pub open spec fn terminal_line(e: EntryView, left: Seq<char>, right: Seq<char>) -> Seq<char> {
    "  • "@ + e.commit_type + bracketed(e.scope) + ": "@ + e.summary + left + e.hash + right
}

/// Commits as lines on the terminal.
pub open spec fn terminal_lines(
    entries: Seq<EntryView>,
    left: Seq<char>,
    right: Seq<char>,
) -> Seq<char>
    decreases entries.len(),
{
    if entries.len() == 0 {
        Seq::empty()
    } else {
        terminal_lines(entries.drop_last(), left, right) + terminal_line(
            entries.last(),
            left,
            right,
        )
    }
}

/// The categories on the terminal.
pub open spec fn terminal_categories(
    categories: Seq<(Seq<char>, Seq<EntryView>)>,
    color: bool,
) -> Seq<char>
    decreases categories.len(),
{
    if categories.len() == 0 {
        Seq::empty()
    } else {
        let (name, entries) = categories.last();
        terminal_categories(categories.drop_last(), color) + styled("32"@, "### "@ + name, color)
            + "\n"@ + terminal_lines(entries, " ("@, ")\n"@) + "\n"@
    }
}

/// The report on the terminal.
pub open spec fn terminal_text(report: ReportView, color: bool) -> Seq<char> {
    styled("1"@, "📋 Commitor Changelog ("@ + report.range + ")"@, color)
        + "\nTotal Conventional Commits: "@ + decimal_of(report.total_commits) + "\n\n"@ + (
    if report.breaking_changes.len() > 0 {
        styled("33"@, "🚨 BREAKING CHANGES:"@, color) + "\n"@ + terminal_lines(
            report.breaking_changes,
            " ["@,
            "]\n"@,
        ) + "\n"@
    } else {
        Seq::empty()
    }) + terminal_categories(report.categories, color)
}

/// The scope in bold, where there is one.
pub open spec fn emphasized(scope: Option<Seq<char>>) -> Seq<char> {
    match scope {
        Some(s) => "**"@ + s + "**: "@,
        None => Seq::empty(),
    }
}

/// Commits as a Markdown list.
pub open spec fn markdown_lines(entries: Seq<EntryView>) -> Seq<char>
    decreases entries.len(),
{
    if entries.len() == 0 {
        Seq::empty()
    } else {
        let e = entries.last();
        markdown_lines(entries.drop_last()) + "- "@ + emphasized(e.scope) + e.summary + " (`"@
            + e.hash + "`)\n"@
    }
}

/// The categories in Markdown.
pub open spec fn markdown_categories(categories: Seq<(Seq<char>, Seq<EntryView>)>) -> Seq<char>
    decreases categories.len(),
{
    if categories.len() == 0 {
        Seq::empty()
    } else {
        let (name, entries) = categories.last();
        markdown_categories(categories.drop_last()) + "## "@ + name + "\n\n"@ + markdown_lines(
            entries,
        ) + "\n"@
    }
}

/// The report in Markdown.
pub open spec fn markdown_text(report: ReportView) -> Seq<char> {
    "# Changelog ("@ + report.range + ")\n\n"@ + (if report.breaking_changes.len() > 0 {
        "## 🚨 BREAKING CHANGES\n\n"@ + markdown_lines(report.breaking_changes) + "\n"@
    } else {
        Seq::empty()
    }) + markdown_categories(report.categories)
        + "---\n_Generated by [Commitor](https://github.com/Commitor-AI/commitor)_\n"@
}

fn write_terminal_lines(out: String, entries: &[CommitEntry], left: &str, right: &str) -> (r: String)
    ensures
        r@ == out@ + terminal_lines(entry_views(entries@), left@, right@),
{
    let ghost head = out@;
    let ghost all = entry_views(entries@);
    let mut out = out;
    assert(head + terminal_lines(all.take(0), left@, right@) =~= head);
    for i in 0..entries.len()
        invariant
            all == entry_views(entries@),
            out@ == head + terminal_lines(all.take(i as int), left@, right@),
    {
        assert(all.take(i + 1).drop_last() =~= all.take(i as int));
        assert(all.take(i + 1).last() == entries@[i as int]@);
        let e = &entries[i];
        let mut line = "  • ".to_owned();
        line.append(e.commit_type.as_str());
        let ghost before = line@;
        match &e.scope {
            Some(s) => {
                line.append("(");
                line.append(s.as_str());
                line.append(")");
                assert(line@ =~= before + bracketed(e@.scope));
            },
            None => {
                assert(line@ =~= before + bracketed(e@.scope));
            },
        }
        line.append(": ");
        line.append(e.summary.as_str());
        line.append(left);
        line.append(e.hash.as_str());
        line.append(right);
        assert(line@ == terminal_line(e@, left@, right@));
        out.append(line.as_str());
        assert(out@ =~= head + terminal_lines(all.take(i + 1), left@, right@));
    }
    assert(all.take(all.len() as int) =~= all);
    out
}

/// Write a report for the terminal.
pub fn render_terminal(report: &ChangelogReport, color: bool) -> (r: String)
    ensures
        r@ == terminal_text(report@, color),
{
    let mut title = "📋 Commitor Changelog (".to_owned();
    title.append(report.range.as_str());
    title.append(")");
    let mut out = bold(title.as_str(), color);
    out.append("\nTotal Conventional Commits: ");
    out.append(count(report.total_commits).as_str());
    out.append("\n\n");
    let ghost head = out@;
    assert(report@.breaking_changes.len() == report.breaking_changes@.len());
    let ghost shown = if report@.breaking_changes.len() > 0 {
        styled("33"@, "🚨 BREAKING CHANGES:"@, color) + "\n"@ + terminal_lines(
            report@.breaking_changes,
            " ["@,
            "]\n"@,
        ) + "\n"@
    } else {
        Seq::empty()
    };
    if report.breaking_changes.len() > 0 {
        out.append(yellow("🚨 BREAKING CHANGES:", color).as_str());
        out.append("\n");
        out = write_terminal_lines(out, report.breaking_changes.as_slice(), " [", "]\n");
        out.append("\n");
        assert(out@ =~= head + shown);
    } else {
        assert(out@ =~= head + shown);
    }
    let ghost start = out@;
    let ghost all = report@.categories;
    assert(start + terminal_categories(all.take(0), color) =~= start);
    for i in 0..report.categories.len()
        invariant
            all == category_views(report.categories@),
            out@ == start + terminal_categories(all.take(i as int), color),
    {
        assert(all.take(i + 1).drop_last() =~= all.take(i as int));
        let category = &report.categories[i];
        assert(all.take(i + 1).last() == (category.0@, entry_views(category.1@)));
        let mut name = "### ".to_owned();
        name.append(category.0.as_str());
        let mut part = green(name.as_str(), color);
        part.append("\n");
        part = write_terminal_lines(part, category.1.as_slice(), " (", ")\n");
        part.append("\n");
        out.append(part.as_str());
        assert(out@ =~= start + terminal_categories(all.take(i + 1), color));
    }
    assert(all.take(all.len() as int) =~= all);
    out
}

fn write_markdown_lines(out: String, entries: &[CommitEntry]) -> (r: String)
    ensures
        r@ == out@ + markdown_lines(entry_views(entries@)),
{
    let ghost head = out@;
    let ghost all = entry_views(entries@);
    let mut out = out;
    assert(head + markdown_lines(all.take(0)) =~= head);
    for i in 0..entries.len()
        invariant
            all == entry_views(entries@),
            out@ == head + markdown_lines(all.take(i as int)),
    {
        assert(all.take(i + 1).drop_last() =~= all.take(i as int));
        assert(all.take(i + 1).last() == entries@[i as int]@);
        let e = &entries[i];
        let mut line = "- ".to_owned();
        let ghost before = line@;
        match &e.scope {
            Some(s) => {
                line.append("**");
                line.append(s.as_str());
                line.append("**: ");
                assert(line@ =~= before + emphasized(e@.scope));
            },
            None => {
                assert(line@ =~= before + emphasized(e@.scope));
            },
        }
        line.append(e.summary.as_str());
        line.append(" (`");
        line.append(e.hash.as_str());
        line.append("`)\n");
        out.append(line.as_str());
        assert(out@ =~= head + markdown_lines(all.take(i + 1)));
    }
    assert(all.take(all.len() as int) =~= all);
    out
}

/// Write a report in Markdown.
pub fn render_markdown(report: &ChangelogReport) -> (r: String)
    ensures
        r@ == markdown_text(report@),
{
    let mut out = "# Changelog (".to_owned();
    out.append(report.range.as_str());
    out.append(")\n\n");
    let ghost head = out@;
    assert(report@.breaking_changes.len() == report.breaking_changes@.len());
    let ghost shown = if report@.breaking_changes.len() > 0 {
        "## 🚨 BREAKING CHANGES\n\n"@ + markdown_lines(report@.breaking_changes) + "\n"@
    } else {
        Seq::empty()
    };
    if report.breaking_changes.len() > 0 {
        out.append("## 🚨 BREAKING CHANGES\n\n");
        out = write_markdown_lines(out, report.breaking_changes.as_slice());
        out.append("\n");
        assert(out@ =~= head + shown);
    } else {
        assert(out@ =~= head + shown);
    }
    let ghost start = out@;
    let ghost all = report@.categories;
    assert(start + markdown_categories(all.take(0)) =~= start);
    for i in 0..report.categories.len()
        invariant
            all == category_views(report.categories@),
            out@ == start + markdown_categories(all.take(i as int)),
    {
        assert(all.take(i + 1).drop_last() =~= all.take(i as int));
        let category = &report.categories[i];
        assert(all.take(i + 1).last() == (category.0@, entry_views(category.1@)));
        let mut part = "## ".to_owned();
        part.append(category.0.as_str());
        part.append("\n\n");
        part = write_markdown_lines(part, category.1.as_slice());
        part.append("\n");
        out.append(part.as_str());
        assert(out@ =~= start + markdown_categories(all.take(i + 1)));
    }
    assert(all.take(all.len() as int) =~= all);
    out.append("---\n_Generated by [Commitor](https://github.com/Commitor-AI/commitor)_\n");
    out
}

// ── the command ─────────────────────────────────────────────────────

/// What the command prints.
#[derive(Debug)]
pub enum ChangelogOutput {
    Text(String),
    /// The report as JSON.
    Json(ChangelogReport),
}

/// What the command prints, as texts.
pub enum ChangelogOutputView {
    Text(Seq<char>),
    Json(ReportView),
}

impl View for ChangelogOutput {
    type V = ChangelogOutputView;

    open spec fn view(&self) -> ChangelogOutputView {
        match self {
            ChangelogOutput::Text(t) => ChangelogOutputView::Text(t@),
            ChangelogOutput::Json(r) => ChangelogOutputView::Json(r@),
        }
    }
}

/// The range as it is named where nothing is found.
pub open spec fn named_range(range: Option<Seq<char>>) -> Seq<char> {
    match range {
        Some(r) => r,
        None => "HEAD"@,
    }
}

/// What is printed where there is no conventional commit.
pub open spec fn empty_output(flags: ChangelogFlags) -> ChangelogOutputView {
    if flags.markdown {
        ChangelogOutputView::Text(
            "# Changelog\n\n_No Conventional Commits found in range `"@ + named_range(
                text(flags.range),
            ) + "`._\n"@,
        )
    } else if flags.json {
        ChangelogOutputView::Json(
            ReportView {
                range: named_range(text(flags.range)),
                total_commits: 0,
                categories: Seq::empty(),
                breaking_changes: Seq::empty(),
            },
        )
    } else {
        ChangelogOutputView::Text("No Conventional Commits found.\n"@)
    }
}

/// What the command prints for some commits.
pub open spec fn changelog_output(
    flags: ChangelogFlags,
    entries: Seq<EntryView>,
    color: bool,
) -> ChangelogOutputView {
    let report = report_of(text(flags.range), entries);
    if entries.len() == 0 {
        empty_output(flags)
    } else if flags.json {
        ChangelogOutputView::Json(report)
    } else if flags.markdown {
        ChangelogOutputView::Text(markdown_text(report))
    } else {
        ChangelogOutputView::Text(terminal_text(report, color))
    }
}

fn print_empty(flags: &ChangelogFlags) -> (r: ChangelogOutput)
    ensures
        r@ == empty_output(*flags),
{
    let range = match &flags.range {
        Some(r) => r.clone(),
        None => "HEAD".to_owned(),
    };
    if flags.markdown {
        let mut out = "# Changelog\n\n_No Conventional Commits found in range `".to_owned();
        out.append(range.as_str());
        out.append("`._\n");
        ChangelogOutput::Text(out)
    } else if flags.json {
        let categories: Vec<(String, Vec<CommitEntry>)> = Vec::new();
        let breaking_changes: Vec<CommitEntry> = Vec::new();
        assert(category_views(categories@) =~= Seq::empty());
        assert(entry_views(breaking_changes@) =~= Seq::empty());
        ChangelogOutput::Json(
            ChangelogReport { range, total_commits: 0, categories, breaking_changes },
        )
    } else {
        ChangelogOutput::Text("No Conventional Commits found.\n".to_owned())
    }
}

/// What the command prints for the commits of the history.
pub fn run(flags: &ChangelogFlags, commits: &[CommitEntry], color: bool) -> (r: ChangelogOutput)
    ensures
        r@ == changelog_output(*flags, entry_views(commits@), color),
{
    assert(entry_views(commits@).len() == commits@.len());
    if commits.len() == 0 {
        return print_empty(flags);
    }
    let report = match &flags.range {
        Some(r) => build_report(Some(r.as_str()), commits),
        None => build_report(None, commits),
    };
    if flags.json {
        ChangelogOutput::Json(report)
    } else if flags.markdown {
        ChangelogOutput::Text(render_markdown(&report))
    } else {
        ChangelogOutput::Text(render_terminal(&report, color))
    }
}

/// Refuse to look for a history outside a repository.
pub fn ensure_work_tree(inside: bool) -> (r: Result<(), String>)
    ensures
        match r {
            Ok(_) => inside,
            Err(why) => !inside && why@
                == "this doesn't look like a git repository — run `commitor changelog` from inside a git repository"@,
        },
{
    if inside {
        Ok(())
    } else {
        Err(
            "this doesn't look like a git repository — run `commitor changelog` from inside a git repository".to_owned(),
        )
    }
}

// ── laws ────────────────────────────────────────────────────────────

/// How many commits the categories hold.
pub open spec fn total_listed(categories: Seq<(Seq<char>, Seq<EntryView>)>) -> nat
    decreases categories.len(),
{
    if categories.len() == 0 {
        0
    } else {
        total_listed(categories.drop_last()) + categories.last().1.len()
    }
}

proof fn lemma_one_more_entry(entries: Seq<EntryView>, e: EntryView, names: Seq<Seq<char>>)
    requires
        names.no_duplicates(),
    ensures
        total_listed(by_category(entries.push(e), names)) == total_listed(
            by_category(entries, names),
        ) + if names.contains(category_of(e.commit_type)) {
            1nat
        } else {
            0nat
        },
    decreases names.len(),
{
    let more = entries.push(e);
    if names.len() > 0 {
        let front = names.drop_last();
        let n = names.last();
        assert(names =~= front.push(n));
        lemma_no_duplicates_push(front, n);
        lemma_contains_push(front, n, category_of(e.commit_type));
        lemma_one_more_entry(entries, e, front);
        assert(by_category(entries, names).drop_last() =~= by_category(entries, front));
        assert(by_category(more, names).drop_last() =~= by_category(more, front));
        entries.lemma_filter_push(e, in_category(n));
    } else {
        assert(by_category(more, names) =~= by_category(entries, names));
    }
}

proof fn lemma_all_are_listed(entries: Seq<EntryView>, names: Seq<Seq<char>>)
    requires
        names.no_duplicates(),
        forall|i: int|
            0 <= i < entries.len() ==> names.contains(
                category_of((#[trigger] entries[i]).commit_type),
            ),
    ensures
        total_listed(by_category(entries, names)) == entries.len(),
    decreases entries.len(),
{
    if entries.len() == 0 {
        lemma_nothing_is_listed(entries, names);
    } else {
        let front = entries.drop_last();
        let e = entries.last();
        assert(entries =~= front.push(e));
        assert forall|i: int| 0 <= i < front.len() implies names.contains(
            category_of((#[trigger] front[i]).commit_type),
        ) by {
            assert(front[i] == entries[i]);
        }
        assert(entries[entries.len() - 1] == e);
        lemma_all_are_listed(front, names);
        lemma_one_more_entry(front, e, names);
    }
}

proof fn lemma_nothing_is_listed(entries: Seq<EntryView>, names: Seq<Seq<char>>)
    requires
        entries.len() == 0,
    ensures
        total_listed(by_category(entries, names)) == 0,
    decreases names.len(),
{
    if names.len() > 0 {
        lemma_nothing_is_listed(entries, names.drop_last());
        assert(by_category(entries, names).drop_last() =~= by_category(entries, names.drop_last()));
        assert(entries_in(entries, names.last()).len() == 0) by {
            reveal(Seq::filter);
        }
    }
}

/// A report lists every commit once: its categories come in order, none of
/// them twice, and together they hold as many commits as there are.
pub proof fn lemma_every_commit_is_listed_once(
    range: Option<Seq<char>>,
    entries: Seq<EntryView>,
)
    ensures
        total_listed(report_of(range, entries).categories) == entries.len(),
        report_of(range, entries).total_commits == entries.len(),
        increasing(sorted_texts(category_names(entries)), by_text()),
        forall|i: int|
            0 <= i < entries.len() ==> sorted_texts(category_names(entries)).contains(
                category_of((#[trigger] entries[i]).commit_type),
            ),
{
    lemma_by_text_is_strict_order();
    let all = category_names(entries);
    lemma_sorted_set(all, by_text());
    assert forall|i: int| 0 <= i < entries.len() implies sorted_texts(all).contains(
        category_of((#[trigger] entries[i]).commit_type),
    ) by {
        assert(all[i] == category_of(entries[i].commit_type));
        assert(all.contains(all[i]));
    }
    lemma_all_are_listed(entries, sorted_texts(all));
}

} // verus!
