//! Conventional commits and the changelog.

use vstd::prelude::*;
use vstd::utf8::is_ascii_chars;

use crate::changelog::{
    at_bar, category_names, category_of, changelog_output, conventional, in_category, log_entries,
    log_words, logged, parse_conventional, report_of, subject_of, type_and_scope, ChangelogFlags,
    ChangelogOutputView, CommitEntry, EntryView,
};
use crate::laws::texts::{
    blank, lacks, lemma_first_place, lemma_no_place, lemma_occurs_inside, lemma_trimmed, tight,
};
use crate::letters::{ascii_lowered, lowercase_of};
use crate::order::{by_text, lemma_by_text_is_strict_order, lemma_sorted_set, sorted_texts};
use crate::text::{
    drop_back, drop_front, first_index, is_white_space, lemma_drop_back, lemma_drop_front,
    lemma_first_index, occurs, text, trimmed,
};

verus! {

/// A text that can stand as a type or a scope in a subject.
pub open spec fn plain_word(s: Seq<char>) -> bool {
    tight(s) && s.len() > 0 && lacks(s, ':') && lacks(s, '(') && lacks(s, ')') && s.last() != '!'
}

/// Trimming leaves no white space at an edge, and nothing that was not there.
pub proof fn lemma_trimming_leaves_a_part(s: Seq<char>)
    ensures
        tight(trimmed(s)),
        exists|a: Seq<char>, b: Seq<char>|
            s == #[trigger] (a + trimmed(s) + b) && blank(a) && blank(b),
{
    let ws = |c: char| is_white_space(c);
    let f = drop_front(s, ws);
    let t = trimmed(s);
    lemma_drop_front(s, ws);
    lemma_drop_back(f, ws);
    lemma_dropped_are_blank(s, f);
    lemma_dropped_back_are_blank(f, t);
    let a = s.take(s.len() - f.len());
    let b = f.skip(t.len() as int);
    assert(s =~= a + t + b);
    if t.len() > 0 {
        assert(t[0] == f[0]);
    }
}

proof fn lemma_dropped_are_blank(s: Seq<char>, f: Seq<char>)
    requires
        f == drop_front(s, |c: char| is_white_space(c)),
        f.len() <= s.len(),
    ensures
        blank(s.take(s.len() - f.len())),
    decreases s.len(),
{
    let ws = |c: char| is_white_space(c);
    if s.len() > 0 && ws(s[0]) {
        let rest = s.drop_first();
        lemma_drop_front(rest, ws);
        lemma_dropped_are_blank(rest, f);
        let a = s.take(s.len() - f.len());
        assert forall|i: int| 0 <= i < a.len() implies is_white_space(#[trigger] a[i]) by {
            if i > 0 {
                assert(a[i] == rest.take(rest.len() - f.len())[i - 1]);
            }
        }
    }
}

proof fn lemma_dropped_back_are_blank(s: Seq<char>, t: Seq<char>)
    requires
        t == drop_back(s, |c: char| is_white_space(c)),
        t.len() <= s.len(),
    ensures
        blank(s.skip(t.len() as int)),
    decreases s.len(),
{
    let ws = |c: char| is_white_space(c);
    if s.len() > 0 && ws(s.last()) {
        let rest = s.drop_last();
        lemma_drop_back(rest, ws);
        lemma_dropped_back_are_blank(rest, t);
        let b = s.skip(t.len() as int);
        assert forall|i: int| 0 <= i < b.len() implies is_white_space(#[trigger] b[i]) by {
            if i < b.len() - 1 {
                assert(b[i] == rest.skip(t.len() as int)[i]);
            }
        }
    }
}

/// The first colon ends the header: behind it stands the summary, whatever
/// colons it holds.
pub proof fn lemma_the_first_colon_ends_the_header(header: Seq<char>, summary: Seq<char>)
    requires
        lacks(header, ':'),
    ensures
        subject_of(header + seq![':'] + summary) matches Some(s) ==> s.summary == trimmed(summary),
        subject_of(header + seq![':'] + summary) is Some <==> subject_of(header + seq![':']) is Some,
        subject_of(header + seq![':'] + summary) matches Some(s) ==> (subject_of(
            header + seq![':'],
        ) matches Some(t) && s.kind == t.kind && s.scope == t.scope),
{
    let s = header + seq![':'] + summary;
    let none: Seq<char> = Seq::empty();
    let t = header + seq![':'];
    lemma_first_place(header, ':', summary);
    lemma_first_place(header, ':', none);
    assert(t + none =~= t);
    assert(s.take(header.len() as int) =~= header);
    assert(t.take(header.len() as int) =~= header);
    assert(s.skip(header.len() as int + 1) =~= summary);
}

/// Without a colon a text is no subject of a conventional commit.
pub proof fn lemma_a_subject_has_a_colon(
    hash: Seq<char>,
    author: Seq<char>,
    date: Seq<char>,
    subject: Seq<char>,
)
    requires
        lacks(subject, ':'),
    ensures
        conventional(hash, author, date, subject) is None,
{
    lemma_no_place(subject, ':');
}

proof fn lemma_part_lacks(s: Seq<char>, c: char)
    requires
        lacks(s, c),
    ensures
        lacks(trimmed(s), c),
        forall|i: int, j: int| 0 <= i <= j <= s.len() ==> lacks(#[trigger] s.subrange(i, j), c),
        forall|i: int| 0 <= i <= s.len() ==> lacks(#[trigger] s.take(i), c),
{
    lemma_trimming_leaves_a_part(s);
    let t = trimmed(s);
    let (a, b) = choose|a: Seq<char>, b: Seq<char>|
        s == #[trigger] (a + trimmed(s) + b) && blank(a) && blank(b);
    assert forall|i: int| 0 <= i < t.len() implies #[trigger] t[i] != c by {
        assert(t[i] == s[a.len() + i]);
    }
}

/// The type and the scope of a conventional commit hold no colon.
pub proof fn lemma_types_hold_no_colon(subject: Seq<char>)
    ensures
        subject_of(subject) matches Some(s) ==> lacks(s.kind, ':') && (s.scope matches Some(scope)
            ==> lacks(scope, ':')),
{
    if let Some(colon) = first_index(subject, ':') {
        lemma_first_index(subject, ':');
        let head = subject.take(colon);
        assert(lacks(head, ':')) by {
            assert forall|i: int| 0 <= i < head.len() implies #[trigger] head[i] != ':' by {
                assert(head[i] == subject[i]);
            }
        }
        lemma_part_lacks(head, ':');
        let header = trimmed(head);
        let bare = if header.len() > 0 && header.last() == '!' {
            header.drop_last()
        } else {
            header
        };
        assert(lacks(bare, ':')) by {
            assert forall|i: int| 0 <= i < bare.len() implies #[trigger] bare[i] != ':' by {
                assert(bare[i] == header[i]);
            }
        }
        lemma_part_lacks(bare, ':');
        if let Some(o) = first_index(bare, '(') {
            if let Some(c) = first_index(bare, ')') {
                lemma_first_index(bare, '(');
                lemma_first_index(bare, ')');
                if o < c {
                    lemma_part_lacks(bare.take(o), ':');
                    lemma_part_lacks(bare.subrange(o + 1, c), ':');
                }
            }
        }
    }
}

/// The parts of a subject: a type, perhaps a scope in round brackets, perhaps
/// an exclamation mark, a colon and the summary.
pub open spec fn subject_text(
    kind: Seq<char>,
    scope: Option<Seq<char>>,
    marked: bool,
    summary: Seq<char>,
) -> Seq<char> {
    header_text(kind, scope, marked) + seq![':'] + summary
}

/// The part of a subject before its colon.
pub open spec fn header_text(kind: Seq<char>, scope: Option<Seq<char>>, marked: bool) -> Seq<char> {
    kind + (match scope {
        Some(s) => seq!['('] + s + seq![')'],
        None => Seq::empty(),
    }) + (if marked {
        seq!['!']
    } else {
        Seq::empty()
    })
}

proof fn lemma_header_parts(kind: Seq<char>, scope: Option<Seq<char>>)
    requires
        plain_word(kind),
        scope matches Some(s) ==> plain_word(s),
    ensures
        type_and_scope(header_text(kind, scope, false)) == Some((kind, scope)),
        header_text(kind, scope, false).len() > 0,
        header_text(kind, scope, false)[0] == kind[0],
        header_text(kind, scope, false).last() != '!',
        !is_white_space(header_text(kind, scope, false).last()),
        lacks(header_text(kind, scope, false), ':'),
{
    let bare = header_text(kind, scope, false);
    let none: Seq<char> = Seq::empty();
    lemma_trimmed(none, kind, none);
    match scope {
        None => {
            assert(bare =~= kind);
            lemma_no_place(kind, '(');
        },
        Some(s) => {
            lemma_trimmed(none, s, none);
            let rest = s + seq![')'];
            assert(bare =~= kind + seq!['('] + rest);
            lemma_first_place(kind, '(', rest);
            let before = kind + seq!['('] + s;
            assert(lacks(before, ')')) by {
                assert forall|i: int| 0 <= i < before.len() implies #[trigger] before[i] != ')' by {
                    if i < kind.len() {
                        assert(before[i] == kind[i]);
                    } else if i > kind.len() {
                        assert(before[i] == s[i - kind.len() - 1]);
                    }
                }
            }
            assert(bare =~= before + seq![')'] + none);
            lemma_first_place(before, ')', none);
            assert(bare.take(kind.len() as int) =~= kind);
            assert(bare.subrange(kind.len() as int + 1, before.len() as int) =~= s);
            assert forall|i: int| 0 <= i < bare.len() implies #[trigger] bare[i] != ':' by {
                if i < kind.len() {
                    assert(bare[i] == kind[i]);
                } else if kind.len() < i < bare.len() - 1 {
                    assert(bare[i] == s[i - kind.len() - 1]);
                }
            }
            assert(bare.last() == ')');
        },
    }
}

/// A subject that is put together of its parts is read as these parts.
pub proof fn lemma_subjects_are_read_back(
    kind: Seq<char>,
    scope: Option<Seq<char>>,
    marked: bool,
    summary: Seq<char>,
)
    requires
        plain_word(kind),
        scope matches Some(s) ==> plain_word(s),
    ensures
        subject_of(subject_text(kind, scope, marked, summary)) matches Some(s) && s.kind == kind
            && s.scope == scope && s.summary == trimmed(summary) && (s.breaking <==> marked
            || occurs(subject_text(kind, scope, marked, summary), "BREAKING CHANGE"@)),
{
    let bare = header_text(kind, scope, false);
    let header = header_text(kind, scope, marked);
    let none: Seq<char> = Seq::empty();
    lemma_header_parts(kind, scope);
    assert(bare + none =~= bare);
    if marked {
        assert(header =~= bare.push('!'));
        assert(header.drop_last() =~= bare);
    } else {
        assert(header =~= bare);
    }
    assert(lacks(header, ':')) by {
        assert forall|i: int| 0 <= i < header.len() implies #[trigger] header[i] != ':' by {
            if i < bare.len() {
                assert(header[i] == bare[i]);
            }
        }
    }
    assert(header[0] == bare[0]);
    assert(tight(header));
    lemma_trimmed(none, header, none);
    let s = subject_text(kind, scope, marked, summary);
    lemma_first_place(header, ':', summary);
    assert(s.take(header.len() as int) =~= header);
    assert(s.skip(header.len() as int + 1) =~= summary);
}

/// A subject with a type and a summary makes a commit with this summary, the
/// type in lower case, the scope, and the hash, author and date that are given.
pub proof fn lemma_commits_keep_their_parts(
    hash: Seq<char>,
    author: Seq<char>,
    date: Seq<char>,
    kind: Seq<char>,
    scope: Option<Seq<char>>,
    marked: bool,
    summary: Seq<char>,
)
    requires
        plain_word(kind),
        scope matches Some(s) ==> plain_word(s),
        lowercase_of(kind).len() > 0,
        trimmed(summary).len() > 0,
    ensures
        conventional(hash, author, date, subject_text(kind, scope, marked, summary)) matches Some(e)
            && e.hash == hash && e.author == author && e.date == date && e.commit_type
            == lowercase_of(kind) && e.scope == scope && e.summary == trimmed(summary) && (marked
            ==> e.is_breaking),
{
    lemma_subjects_are_read_back(kind, scope, marked, summary);
}

/// A type in ASCII is read in lower case, and the summary as it stands.
pub proof fn lemma_types_are_read_in_lower_case(
    hash: String,
    author: String,
    date: String,
    subject: &str,
    kind: Seq<char>,
    scope: Option<Seq<char>>,
    marked: bool,
    summary: Seq<char>,
    r: Option<CommitEntry>,
)
    requires
        call_ensures(parse_conventional, (hash, author, date, subject), r),
        subject@ == subject_text(kind, scope, marked, summary),
        plain_word(kind),
        is_ascii_chars(kind),
        scope matches Some(s) ==> plain_word(s),
    ensures
        r is Some <==> trimmed(summary).len() > 0,
        r matches Some(e) ==> e.commit_type@ == ascii_lowered(kind) && e.summary@ == trimmed(summary)
            && text(e.scope) == scope && e.hash@ == hash@ && e.author@ == author@ && e.date@
            == date@,
{
    lemma_subjects_are_read_back(kind, scope, marked, summary);
}

/// A commit is breaking exactly where its header ends in an exclamation mark or
/// its subject holds the words `BREAKING CHANGE`.
pub proof fn lemma_breaking_changes(header: Seq<char>, summary: Seq<char>)
    requires
        lacks(header, ':'),
        tight(header),
    ensures
        subject_of(header + seq![':'] + summary) matches Some(s) ==> (s.breaking <==> (header.len()
            > 0 && header.last() == '!') || occurs(
            header + seq![':'] + summary,
            "BREAKING CHANGE"@,
        )),
{
    let none: Seq<char> = Seq::empty();
    let s = header + seq![':'] + summary;
    lemma_trimmed(none, header, none);
    lemma_first_place(header, ':', summary);
    assert(s.take(header.len() as int) =~= header);
}

// ── the log ─────────────────────────────────────────────────────────

proof fn lemma_at_bar(a: Seq<char>, b: Seq<char>)
    requires
        lacks(a, '|'),
    ensures
        at_bar(a + seq!['|'] + b) == Some((a, b)),
{
    let s = a + seq!['|'] + b;
    lemma_first_place(a, '|', b);
    assert(s.take(a.len() as int) =~= a);
    assert(s.skip(a.len() as int + 1) =~= b);
}

/// A line of the log is hash, author, date and subject, in this order. The
/// subject may hold bars of its own.
pub proof fn lemma_log_lines(
    hash: Seq<char>,
    author: Seq<char>,
    date: Seq<char>,
    subject: Seq<char>,
)
    requires
        lacks(hash, '|'),
        lacks(author, '|'),
        lacks(date, '|'),
    ensures
        logged(hash + seq!['|'] + (author + seq!['|'] + (date + seq!['|'] + subject)))
            == conventional(trimmed(hash), trimmed(author), trimmed(date), trimmed(subject)),
{
    lemma_at_bar(date, subject);
    lemma_at_bar(author, date + seq!['|'] + subject);
    lemma_at_bar(hash, author + seq!['|'] + (date + seq!['|'] + subject));
}

/// The commits of a log are those of its parts, in order, and a line that is no
/// conventional commit adds none.
pub proof fn lemma_logs_go_line_by_line(a: Seq<Seq<char>>, line: Seq<char>)
    ensures
        log_entries(a.push(line)) == log_entries(a) + match logged(line) {
            Some(e) => seq![e],
            None => Seq::empty(),
        },
        log_entries(Seq::empty()).len() == 0,
{
    assert(a.push(line).drop_last() =~= a);
    assert(log_entries(a.push(line)) =~= log_entries(a) + match logged(line) {
        Some(e) => seq![e],
        None => Seq::empty(),
    });
}

/// The log is asked for the given range and nothing else; without a range, for
/// the given number of commits, or twenty.
pub proof fn lemma_what_the_log_is_asked(range: Seq<char>, limit: Option<nat>, n: nat)
    ensures
        log_words(Some(range), limit).last() == range,
        log_words(None, Some(n)).last() == "-n"@ + crate::number::decimal_of(n),
        log_words(None, None) == log_words(None, Some(20)),
        log_words(Some(range), limit)[0] == "log"@,
        log_words(Some(range), limit).contains("--pretty=format:%h|%an|%ad|%s"@),
{
    assert(log_words(Some(range), limit)[1] == "--pretty=format:%h|%an|%ad|%s"@);
}

// ── the report ──────────────────────────────────────────────────────

/// A report counts every commit, repeats the breaking ones, and puts each
/// commit under the name of its category, and under no other.
pub proof fn lemma_reports_are_complete(
    range: Option<Seq<char>>,
    entries: Seq<EntryView>,
    i: int,
    k: int,
)
    requires
        0 <= i < entries.len(),
    ensures
        ({
            let report = report_of(range, entries);
            &&& report.total_commits == entries.len()
            &&& range matches Some(r) ==> report.range == r
            &&& report.breaking_changes.contains(entries[i]) <==> entries[i].is_breaking
            &&& 0 <= k < report.categories.len() ==> (report.categories[k].1.contains(entries[i])
                <==> report.categories[k].0 == category_of(entries[i].commit_type))
            &&& exists|c: int|
                0 <= c < report.categories.len() && (#[trigger] report.categories[c]).0
                    == category_of(entries[i].commit_type)
        }),
{
    let report = report_of(range, entries);
    let names = sorted_texts(category_names(entries));
    let e = entries[i];
    lemma_by_text_is_strict_order();
    lemma_sorted_set(category_names(entries), by_text());
    assert(category_names(entries)[i] == category_of(e.commit_type));
    assert(category_names(entries).contains(category_of(e.commit_type)));
    assert(names.contains(category_of(e.commit_type)));
    let c = choose|c: int| 0 <= c < names.len() && names[c] == category_of(e.commit_type);
    assert(report.categories[c].0 == category_of(e.commit_type));
    lemma_filter_members(entries, crate::changelog::breaking(), e);
    assert(entries.contains(e));
    if 0 <= k < report.categories.len() {
        lemma_filter_members(entries, in_category(names[k]), e);
    }
}

/// Filtering keeps exactly the members that are wanted.
pub proof fn lemma_filter_members<A>(items: Seq<A>, wanted: spec_fn(A) -> bool, x: A)
    ensures
        items.filter(wanted).contains(x) <==> items.contains(x) && wanted(x),
    decreases items.len(),
{
    if items.len() == 0 {
        reveal(Seq::filter);
    } else {
        let front = items.drop_last();
        let y = items.last();
        assert(items =~= front.push(y));
        lemma_filter_members(front, wanted, x);
        front.lemma_filter_push(y, wanted);
        crate::engine::coverage::lemma_contains_push(front, y, x);
        crate::engine::coverage::lemma_contains_push(front.filter(wanted), y, x);
    }
}

/// Different types of the convention have different categories, and no other
/// type shares one of theirs.
pub proof fn lemma_categories_tell_types_apart(a: Seq<char>, b: Seq<char>)
    requires
        category_of(a) == category_of(b),
        category_of(a) != "Other Changes"@,
    ensures
        a == b,
{
    reveal_strlit("Features");
    reveal_strlit("Bug Fixes");
    reveal_strlit("Documentation");
    reveal_strlit("Refactoring");
    reveal_strlit("Performance Improvements");
    reveal_strlit("Tests");
    reveal_strlit("Styles");
    reveal_strlit("Chores & Maintenance");
    reveal_strlit("Continuous Integration");
    reveal_strlit("Build System");
    reveal_strlit("Other Changes");
    assert("Features"@.len() == 8 && "Bug Fixes"@.len() == 9 && "Documentation"@.len() == 13);
    assert("Refactoring"@.len() == 11 && "Performance Improvements"@.len() == 24);
    assert("Tests"@.len() == 5 && "Styles"@.len() == 6 && "Chores & Maintenance"@.len() == 20);
    assert("Continuous Integration"@.len() == 22 && "Build System"@.len() == 12);
    assert("Other Changes"@.len() == 13);
    assert("Documentation"@[0] == 'D' && "Other Changes"@[0] == 'O');
}

/// A report names its range, or else the number of its commits. Where there are
/// none, the range that was searched is named.
pub proof fn lemma_reports_name_their_range(
    range: Seq<char>,
    entries: Seq<EntryView>,
    flags: ChangelogFlags,
    color: bool,
)
    ensures
        report_of(Some(range), entries).range == range,
        report_of(None, entries).range == "Last "@ + crate::number::decimal_of(
            report_of(None, entries).total_commits,
        ) + " commits"@,
        ({
            let searched = match flags.range {
                Some(r) => r@,
                None => "HEAD"@,
            };
            let out = changelog_output(flags, Seq::empty(), color);
            &&& flags.markdown ==> (out matches ChangelogOutputView::Text(s) && occurs(
                s,
                "`"@ + searched + "`"@,
            ))
            &&& !flags.markdown && flags.json ==> (out matches ChangelogOutputView::Json(report)
                && report.range == searched && report.total_commits == 0 && report.categories.len()
                == 0)
            &&& !flags.markdown && !flags.json ==> out is Text
        }),
{
    let searched = match flags.range {
        Some(r) => r@,
        None => "HEAD"@,
    };
    if flags.markdown {
        reveal_strlit("# Changelog\n\n_No Conventional Commits found in range `");
        reveal_strlit("# Changelog\n\n_No Conventional Commits found in range ");
        reveal_strlit("`._\n");
        reveal_strlit("._\n");
        reveal_strlit("`");
        let a = "# Changelog\n\n_No Conventional Commits found in range "@;
        let b = "`"@ + searched + "`"@;
        let s = changelog_output(flags, Seq::empty(), color)->Text_0;
        assert(s =~= a + b + "._\n"@);
        lemma_occurs_inside(a, b, "._\n"@);
    }
}

/// A header whose bracket is not closed behind it is no subject.
pub proof fn lemma_brackets_are_closed(a: Seq<char>, b: Seq<char>, summary: Seq<char>)
    requires
        plain_word(a),
        plain_word(b),
    ensures
        subject_of(a + seq!['('] + b + seq![':'] + summary) is None,
        subject_of(a + seq![')'] + seq!['('] + b + seq![':'] + summary) is None,
{
    let open = a + seq!['('] + b;
    let wrong = a + seq![')'] + seq!['('] + b;
    let empty: Seq<char> = Seq::empty();
    assert forall|i: int| 0 <= i < open.len() implies #[trigger] open[i] != ':' && open[i] != ')' by {
        if i < a.len() {
            assert(open[i] == a[i]);
        } else if i > a.len() {
            assert(open[i] == b[i - a.len() - 1]);
        }
    }
    assert forall|i: int| 0 <= i < wrong.len() implies #[trigger] wrong[i] != ':' by {
        if i < a.len() {
            assert(wrong[i] == a[i]);
        } else if i > a.len() + 1 {
            assert(wrong[i] == b[i - a.len() - 2]);
        }
    }
    lemma_first_place(open, ':', summary);
    lemma_first_place(wrong, ':', summary);
    let s = open + seq![':'] + summary;
    let t = wrong + seq![':'] + summary;
    assert(s.take(open.len() as int) =~= open);
    assert(t.take(wrong.len() as int) =~= wrong);
    assert(open[0] == a[0] && wrong[0] == a[0]);
    assert(open.last() == b.last() && wrong.last() == b.last());
    lemma_trimmed(empty, open, empty);
    lemma_trimmed(empty, wrong, empty);
    assert(empty + open + empty =~= open);
    assert(empty + wrong + empty =~= wrong);
    lemma_first_place(a, '(', b);
    lemma_no_place(open, ')');
    assert(lacks(a + seq![')'], '(')) by {
        assert forall|i: int| 0 <= i < (a + seq![')']).len() implies #[trigger] (a + seq![')'])[i] != '(' by {
            if i < a.len() {
                assert((a + seq![')'])[i] == a[i]);
            }
        }
    }
    lemma_first_place(a + seq![')'], '(', b);
    assert(wrong =~= a + seq![')'] + (seq!['('] + b));
    lemma_first_place(a, ')', seq!['('] + b);
}

} // verus!
