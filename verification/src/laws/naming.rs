//! Scopes, branch names and the files that a proposal means.

use vstd::prelude::*;
use crate::commit::branch::{
    actions_in, file_name, hyphenated, noticed, proposed_branch, slug_of, suggestion_of,
    valid_branch_name, Actions,
};
use crate::commit::changes::{changes_of, type_of};
use crate::commit::offline::{
    bucket, directory_of, offline_plan, on_topic, scope_of, source_roots, topic_of, topics_of,
    without_root,
};
use crate::commit::offline_laws::lemma_topics_are_ordered;
use crate::commit::proposal::{cleaned_path, first_with_name, resolved, without_prefixes};
use crate::laws::changes::{lemma_names, names};
use crate::laws::paths::lemma_begins_otherwise;
use crate::laws::subjects::lemma_filter_members;
use crate::laws::texts::{
    lacks, lemma_edges_taken_off, lemma_end_pieces, lemma_first_place, lemma_last_place,
    lemma_lower_case, lemma_no_place, lemma_occurs_inside, lemma_one_piece,
    lemma_prefix_is_taken_off, lemma_trimmed, solid, tight,
};
use crate::letters::ascii_lowered;
use crate::pieces::last_piece;
use crate::text::{
    last_index, lemma_last_index, occurs, prefix_stripped, texts, without_leading,
    without_trailing,
};

verus! {

// ── scopes ──────────────────────────────────────────────────────────

proof fn lemma_directory(dir: Seq<char>, name: Seq<char>)
    requires
        lacks(name, '/'),
    ensures
        directory_of(dir + seq!['/'] + name) == Some(dir),
        directory_of(name) is None,
{
    lemma_last_place(dir, '/', name);
    lemma_no_place(name, '/');
    assert((dir + seq!['/'] + name).take(dir.len() as int) =~= dir);
}

/// A file at the root has no scope.
pub proof fn lemma_files_at_the_root_have_no_scope(name: Seq<char>)
    requires
        lacks(name, '/'),
    ensures
        scope_of(name) is None,
{
    lemma_directory(name, name);
}

/// In a workspace, the source root of a crate collapses to the name of the
/// crate, and what is below it follows that name.
pub proof fn lemma_scopes_of_crates(krate: Seq<char>, rest: Seq<char>, name: Seq<char>)
    requires
        krate.len() > 0,
        lacks(krate, '/'),
        rest.len() > 0,
        lacks(name, '/'),
    ensures
        scope_of("crates/"@ + krate + "/src"@ + seq!['/'] + name) == Some(krate),
        scope_of("crates/"@ + krate + "/src/"@ + rest + seq!['/'] + name) == Some(
            krate + "/"@ + rest,
        ),
        scope_of("crates/"@ + krate + seq!['/'] + name) == Some(krate),
{
    reveal_strlit("/src");
    reveal_strlit("/src/");
    reveal_strlit("src");
    reveal_strlit("src/");
    reveal_strlit("/");
    let a = "crates/"@ + krate + "/src"@;
    let b = "crates/"@ + krate + "/src/"@ + rest;
    let c = "crates/"@ + krate;
    lemma_directory(a, name);
    lemma_directory(b, name);
    lemma_directory(c, name);
    let ra = krate + seq!['/'] + "src"@;
    let rb = krate + seq!['/'] + ("src/"@ + rest);
    assert(a =~= "crates/"@ + ra);
    assert(b =~= "crates/"@ + rb);
    lemma_prefix_is_taken_off("crates/"@, ra, a);
    lemma_prefix_is_taken_off("crates/"@, rb, b);
    lemma_prefix_is_taken_off("crates/"@, krate, c);
    lemma_first_place(krate, '/', "src"@);
    lemma_first_place(krate, '/', "src/"@ + rest);
    lemma_no_place(krate, '/');
    assert(ra.take(krate.len() as int) =~= krate);
    assert(ra.skip(krate.len() as int + 1) =~= "src"@);
    assert(rb.take(krate.len() as int) =~= krate);
    assert(rb.skip(krate.len() as int + 1) =~= "src/"@ + rest);
    lemma_prefix_is_taken_off("src/"@, rest, "src/"@ + rest);
    assert(("src/"@ + rest).len() != "src"@.len());
}

/// The directory begins with one of the roots that say nothing.
pub open spec fn under_a_root(dir: Seq<char>) -> bool {
    ||| "crates/"@.is_prefix_of(dir)
    ||| "src/"@.is_prefix_of(dir)
    ||| "lib/"@.is_prefix_of(dir)
    ||| "app/"@.is_prefix_of(dir)
    ||| "include/"@.is_prefix_of(dir)
    ||| "tests/"@.is_prefix_of(dir)
    ||| "test/"@.is_prefix_of(dir)
}

proof fn lemma_roots(dir: Seq<char>, n: int)
    requires
        0 <= n <= 6,
        forall|i: int| n <= i < 6 ==> !(#[trigger] source_roots()[i])@.is_prefix_of(dir),
    ensures
        without_root(dir, source_roots().skip(n)) == dir,
    decreases 6 - n,
{
    let roots = source_roots().skip(n);
    if n < 6 {
        assert(roots[0] == source_roots()[n]);
        assert(roots.drop_first() =~= source_roots().skip(n + 1));
        lemma_roots(dir, n + 1);
    }
}

/// A directory that begins with none of the roots is the scope as it stands,
/// and below a root other than `crates/` the rest of it is.
pub proof fn lemma_scopes_of_directories(dir: Seq<char>, name: Seq<char>)
    requires
        dir.len() > 0,
        lacks(name, '/'),
    ensures
        !under_a_root(dir) ==> scope_of(dir + seq!['/'] + name) == Some(dir),
        scope_of("src/"@ + dir + seq!['/'] + name) == Some(dir),
        scope_of("lib/"@ + dir + seq!['/'] + name) == Some(dir),
        scope_of("app/"@ + dir + seq!['/'] + name) == Some(dir),
        scope_of("include/"@ + dir + seq!['/'] + name) == Some(dir),
        scope_of("tests/"@ + dir + seq!['/'] + name) == Some(dir),
        scope_of("test/"@ + dir + seq!['/'] + name) == Some(dir),
{
    lemma_directory(dir, name);
    assert(source_roots().skip(0) =~= source_roots());
    if !under_a_root(dir) {
        lemma_roots(dir, 0);
    }
    lemma_below_root("src/"@, dir, name, 0);
    lemma_below_root("lib/"@, dir, name, 1);
    lemma_below_root("app/"@, dir, name, 2);
    lemma_below_root("include/"@, dir, name, 3);
    lemma_below_root("tests/"@, dir, name, 4);
    lemma_below_root("test/"@, dir, name, 5);
}

proof fn lemma_other_root(root: Seq<char>, other: Seq<char>, dir: Seq<char>)
    requires
        exists|i: int| 0 <= i < root.len() && i < other.len() && #[trigger] root[i] != other[i],
    ensures
        !other.is_prefix_of(root + dir),
{
    let i = choose|i: int| 0 <= i < root.len() && i < other.len() && #[trigger] root[i] != other[i];
    let s = root + dir;
    if other.is_prefix_of(s) {
        assert(s.subrange(0, other.len() as int)[i] == s[i]);
    }
}

proof fn lemma_below_root(root: Seq<char>, dir: Seq<char>, name: Seq<char>, k: int)
    requires
        0 <= k < 6,
        root == source_roots()[k]@,
        dir.len() > 0,
        lacks(name, '/'),
    ensures
        scope_of(root + dir + seq!['/'] + name) == Some(dir),
{
    reveal_strlit("crates/");
    reveal_strlit("src/");
    reveal_strlit("lib/");
    reveal_strlit("app/");
    reveal_strlit("include/");
    reveal_strlit("tests/");
    reveal_strlit("test/");
    let full = root + dir;
    lemma_directory(full, name);
    lemma_prefix_is_taken_off(root, dir, full);
    assert(root[0] != 'c');
    lemma_other_root(root, "crates/"@, dir);
    let roots = source_roots();
    assert(roots.skip(0) =~= roots);
    assert forall|i: int| 0 <= i < k implies !(#[trigger] roots[i])@.is_prefix_of(full) by {
        if k == 5 && i == 4 {
            assert(root[4] != roots[4]@[4]);
        } else {
            assert(root[0] != roots[i]@[0]);
        }
        lemma_other_root(root, roots[i]@, dir);
    }
    lemma_root_found(full, root, dir, 0, k);
}

proof fn lemma_root_found(full: Seq<char>, root: Seq<char>, dir: Seq<char>, n: int, k: int)
    requires
        0 <= n <= k < 6,
        root == source_roots()[k]@,
        prefix_stripped(full, root) == Some(dir),
        forall|i: int| 0 <= i < k ==> !(#[trigger] source_roots()[i])@.is_prefix_of(full),
    ensures
        without_root(full, source_roots().skip(n)) == dir,
    decreases k - n,
{
    let roots = source_roots().skip(n);
    assert(roots[0] == source_roots()[n]);
    if n < k {
        assert(roots.drop_first() =~= source_roots().skip(n + 1));
        assert(!source_roots()[n]@.is_prefix_of(full));
        lemma_root_found(full, root, dir, n + 1, k);
    }
}

/// A commit of an offline plan has one type and one scope, which its message
/// begins with; it holds exactly the changes of that type and scope; and no
/// other commit has the same two.
pub proof fn lemma_offline_commits_have_one_topic(
    patch: Seq<char>,
    files: Seq<Seq<char>>,
    i: int,
    k: int,
)
    requires
        changes_of(patch).len() > 0,
        0 <= i < offline_plan(patch, files).len(),
        0 <= k < changes_of(patch).len(),
    ensures
        ({
            let group = offline_plan(patch, files)[i];
            let (kind, scope) = topics_of(changes_of(patch))[i];
            let change = changes_of(patch)[k];
            let own = type_of(seq![change]) == kind && scope_of(change.path) == scope;
            let start = match scope {
                Some(s) => kind.word() + "("@ + s + "): "@,
                None => kind.word() + ": "@,
            };
            &&& start.is_prefix_of(group.message)
            &&& own ==> group.whole.contains(change.path)
            &&& forall|j: int|
                0 <= j < offline_plan(patch, files).len() && j != i ==> #[trigger] topics_of(
                    changes_of(patch),
                )[j] != topics_of(changes_of(patch))[i]
        }),
        forall|p: Seq<char>| #[trigger]
            offline_plan(patch, files)[i].whole.contains(p) ==> scope_of(p) == topics_of(
                changes_of(patch),
            )[i].1,
{
    let changes = changes_of(patch);
    let topics = topics_of(changes);
    let group = offline_plan(patch, files)[i];
    let topic = topics[i];
    lemma_topics_are_ordered(changes);
    let mine = bucket(changes, topic);
    let start = match topic.1 {
        Some(s) => topic.0.word() + "("@ + s + "): "@,
        None => topic.0.word() + ": "@,
    };
    reveal_strlit(")");
    reveal_strlit(": ");
    reveal_strlit("): ");
    assert("): "@ =~= ")"@ + ": "@);
    assert(group.message.subrange(0, start.len() as int) =~= start);
    lemma_filter_members(changes, on_topic(topic), changes[k]);
    assert(changes.contains(changes[k]));
    if topic_of(changes[k]) == topic {
        let x = choose|x: int| 0 <= x < mine.len() && mine[x] == changes[k];
        assert(group.whole[x] == changes[k].path);
    }
    assert forall|p: Seq<char>| #[trigger] group.whole.contains(p) implies scope_of(p) == topic.1 by {
        let x = choose|x: int| 0 <= x < group.whole.len() && group.whole[x] == p;
        assert(mine.contains(mine[x]));
        lemma_filter_members(changes, on_topic(topic), mine[x]);
    }
}

// ── slugs ───────────────────────────────────────────────────────────

/// The text holds letters and digits of ASCII alone.
pub open spec fn wordy(s: Seq<char>) -> bool {
    forall|i: int| 0 <= i < s.len() ==> ('a' <= #[trigger] s[i] <= 'z' || 'A' <= s[i] <= 'Z' || '0'
        <= s[i] <= '9')
}

/// The text holds neither letters nor digits of ASCII.
pub open spec fn wordless(s: Seq<char>) -> bool {
    forall|i: int| 0 <= i < s.len() ==> !('a' <= #[trigger] s[i] <= 'z' || 'A' <= s[i] <= 'Z' || '0'
        <= s[i] <= '9')
}

proof fn lemma_hyphenated_word(x: Seq<char>, w: Seq<char>)
    requires
        wordy(w),
    ensures
        hyphenated(x + w) == hyphenated(x) + ascii_lowered(w),
    decreases w.len(),
{
    if w.len() == 0 {
        assert(x + w =~= x);
        assert(hyphenated(x) + ascii_lowered(w) =~= hyphenated(x));
    } else {
        let front = w.drop_last();
        assert(wordy(front)) by {
            assert forall|i: int| 0 <= i < front.len() implies ('a' <= #[trigger] front[i] <= 'z'
                || 'A' <= front[i] <= 'Z' || '0' <= front[i] <= '9') by {
                assert(front[i] == w[i]);
            }
        }
        lemma_hyphenated_word(x, front);
        assert((x + w).drop_last() =~= x + front);
        assert((x + w).last() == w[w.len() - 1]);
        assert(hyphenated(x + w) =~= hyphenated(x) + ascii_lowered(w));
    }
}

proof fn lemma_hyphenated_gap(x: Seq<char>, gap: Seq<char>)
    requires
        wordless(gap),
        gap.len() > 0,
    ensures
        hyphenated(x + gap) == if hyphenated(x).len() > 0 && hyphenated(x).last() == '-' {
            hyphenated(x)
        } else {
            hyphenated(x).push('-')
        },
    decreases gap.len(),
{
    let front = gap.drop_last();
    assert(wordless(front)) by {
        assert forall|i: int| 0 <= i < front.len() implies !('a' <= #[trigger] front[i] <= 'z' || 'A'
            <= front[i] <= 'Z' || '0' <= front[i] <= '9') by {
            assert(front[i] == gap[i]);
        }
    }
    assert((x + gap).drop_last() =~= x + front);
    assert((x + gap).last() == gap[gap.len() - 1]);
    if front.len() == 0 {
        assert(x + front =~= x);
    } else {
        lemma_hyphenated_gap(x, front);
    }
}

/// The slug of two words, with anything but letters and digits before, between
/// and behind them, is the two words in lower case with a hyphen between them.
pub proof fn lemma_slugs_keep_words(
    before: Seq<char>,
    a: Seq<char>,
    gap: Seq<char>,
    b: Seq<char>,
    behind: Seq<char>,
)
    requires
        wordless(before),
        wordy(a),
        a.len() > 0,
        wordless(gap),
        gap.len() > 0,
        wordy(b),
        b.len() > 0,
        wordless(behind),
        a.len() + 1 + b.len() <= 50,
    ensures
        slug_of(before + a + gap + b + behind) == ascii_lowered(a) + "-"@ + ascii_lowered(b),
{
    reveal_strlit("-");
    let none: Seq<char> = Seq::empty();
    let la = ascii_lowered(a);
    let lb = ascii_lowered(b);
    let body = la + "-"@ + lb;
    lemma_lower_case(a, b);
    lemma_lower_case(b, a);
    assert(none + before =~= before);
    assert(hyphenated(none) =~= none);
    let lead = hyphenated(before);
    if before.len() > 0 {
        lemma_hyphenated_gap(none, before);
    }
    assert(lead =~= none || lead =~= seq!['-']);
    lemma_hyphenated_word(before, a);
    assert('a' <= a[a.len() - 1] <= 'z' || 'A' <= a[a.len() - 1] <= 'Z' || '0' <= a[a.len() - 1]
        <= '9');
    let ha = hyphenated(before + a);
    assert(ha.last() == la[a.len() - 1]);
    lemma_hyphenated_gap(before + a, gap);
    lemma_hyphenated_word(before + a + gap, b);
    let hb = hyphenated(before + a + gap + b);
    assert(hb =~= lead + body);
    assert('a' <= b[b.len() - 1] <= 'z' || 'A' <= b[b.len() - 1] <= 'Z' || '0' <= b[b.len() - 1]
        <= '9');
    assert(hb.last() == lb[b.len() - 1]);
    let tail = if behind.len() > 0 {
        seq!['-']
    } else {
        none
    };
    if behind.len() > 0 {
        lemma_hyphenated_gap(before + a + gap + b, behind);
    } else {
        assert(before + a + gap + b + behind =~= before + a + gap + b);
    }
    let all = hyphenated(before + a + gap + b + behind);
    assert(all =~= lead + (body + tail));
    assert('a' <= a[0] <= 'z' || 'A' <= a[0] <= 'Z' || '0' <= a[0] <= '9');
    assert((body + tail)[0] == la[0]);
    assert(body.last() == lb[b.len() - 1]);
    lemma_leading_hyphens(lead, body + tail);
    lemma_edges_taken_off(none, body, tail, '-');
    if (body + tail).len() > 50 {
        assert((body + tail).take(50) =~= body);
        lemma_edges_taken_off(none, body, none, '-');
        assert(body + none =~= body);
    }
}

proof fn lemma_leading_hyphens(lead: Seq<char>, rest: Seq<char>)
    requires
        forall|i: int| 0 <= i < lead.len() ==> #[trigger] lead[i] == '-',
        rest.len() > 0,
        rest[0] != '-',
    ensures
        without_leading(lead + rest, '-') == rest,
    decreases lead.len(),
{
    if lead.len() == 0 {
        assert(lead + rest =~= rest);
    } else {
        let s = lead + rest;
        assert(lead[0] == '-');
        assert(s.drop_first() =~= lead.drop_first() + rest);
        lemma_leading_hyphens(lead.drop_first(), rest);
    }
}

/// The slug of a word is the word in lower case, cut at fifty characters.
pub proof fn lemma_the_slug_of_a_word(a: Seq<char>)
    requires
        wordy(a),
    ensures
        slug_of(a) == ascii_lowered(if a.len() <= 50 {
            a
        } else {
            a.take(50)
        }),
{
    let none: Seq<char> = Seq::empty();
    lemma_hyphenated_word(none, a);
    assert(none + a =~= a);
    assert(hyphenated(none) =~= none);
    let la = ascii_lowered(a);
    assert(none + la =~= la);
    lemma_lower_case(a, a);
    if a.len() > 0 {
        assert('a' <= a[0] <= 'z' || 'A' <= a[0] <= 'Z' || '0' <= a[0] <= '9');
        lemma_leading_hyphens(none, la);
        let cut = if la.len() <= 50 {
            la
        } else {
            la.take(50)
        };
        let n = cut.len() as int;
        assert('a' <= a[n - 1] <= 'z' || 'A' <= a[n - 1] <= 'Z' || '0' <= a[n - 1] <= '9');
        assert(cut.last() == la[n - 1]);
        lemma_edges_taken_off(none, cut, none, '-');
        assert(cut + none =~= cut);
        if a.len() > 50 {
            assert(ascii_lowered(a.take(50)) =~= la.take(50));
        }
    } else {
        assert(without_leading(la, '-') =~= la);
        assert(without_trailing(la, '-') =~= la);
    }
}

// ── actions ─────────────────────────────────────────────────────────

/// A path is told by its file name alone.
pub proof fn lemma_file_names(dir: Seq<char>, name: Seq<char>)
    requires
        lacks(name, '/'),
        dir.len() > 0,
        dir[0] != '/',
    ensures
        file_name(dir + seq!['/'] + name) == name,
        file_name(name) == name,
{
    let none: Seq<char> = Seq::empty();
    let s = dir + seq!['/'] + name;
    assert(none + s =~= s);
    assert(without_leading(s, '/') == s);
    if name.len() > 0 {
        assert(name[0] != '/');
    }
    assert(without_leading(name, '/') == name);
    lemma_end_pieces(dir, '/', name);
    lemma_one_piece(name, '/');
}

/// The line is no side of a file, and begins neither a section nor a hunk.
pub open spec fn says_nothing(line: Seq<char>) -> bool {
    &&& !"diff --git "@.is_prefix_of(line)
    &&& !"@@ "@.is_prefix_of(line)
    &&& !"--- "@.is_prefix_of(line)
    &&& !"+++ "@.is_prefix_of(line)
}

proof fn lemma_says_nothing(before: Actions, line: Seq<char>)
    requires
        says_nothing(line),
    ensures
        noticed(before, line) == before,
{
    reveal_strlit("+++ ");
    reveal_strlit("+++ b/");
    reveal_strlit("+++ /dev/null");
    if "+++ b/"@.is_prefix_of(line) {
        assert(line.subrange(0, 6).subrange(0, 4) =~= line.subrange(0, 4));
        assert(line.subrange(0, 4) =~= "+++ "@);
    }
    if "+++ /dev/null"@.is_prefix_of(line) {
        assert(line.subrange(0, 13).subrange(0, 4) =~= line.subrange(0, 4));
        assert(line.subrange(0, 4) =~= "+++ "@);
    }
}

proof fn lemma_quiet_lines(a: Seq<Seq<char>>, quiet: Seq<Seq<char>>)
    requires
        forall|i: int| 0 <= i < quiet.len() ==> says_nothing(#[trigger] quiet[i]),
    ensures
        actions_in(a + quiet) == actions_in(a),
    decreases quiet.len(),
{
    if quiet.len() == 0 {
        assert(a + quiet =~= a);
    } else {
        let front = quiet.drop_last();
        assert forall|i: int| 0 <= i < front.len() implies says_nothing(#[trigger] front[i]) by {
            assert(front[i] == quiet[i]);
        }
        lemma_quiet_lines(a, front);
        assert((a + quiet).drop_last() =~= a + front);
        assert((a + quiet).last() == quiet[quiet.len() - 1]);
        lemma_says_nothing(actions_in(a), quiet.last());
    }
}

proof fn lemma_hunk_lines_say_nothing(a: Seq<Seq<char>>, hunks: Seq<Seq<char>>)
    requires
        forall|i: int| 0 <= i < hunks.len() ==> !"diff --git "@.is_prefix_of(#[trigger] hunks[i]),
        hunks.len() > 0 ==> "@@ "@.is_prefix_of(hunks[0]),
    ensures
        actions_in(a + hunks).found == actions_in(a).found,
        hunks.len() > 0 ==> actions_in(a + hunks).in_hunk,
    decreases hunks.len(),
{
    if hunks.len() == 0 {
        assert(a + hunks =~= a);
    } else {
        let front = hunks.drop_last();
        let line = hunks.last();
        assert forall|i: int| 0 <= i < front.len() implies !"diff --git "@.is_prefix_of(
            #[trigger] front[i],
        ) by {
            assert(front[i] == hunks[i]);
        }
        lemma_hunk_lines_say_nothing(a, front);
        assert((a + hunks).drop_last() =~= a + front);
        assert((a + hunks).last() == line);
        assert(hunks[hunks.len() - 1] == line);
        if front.len() == 0 {
            assert(line == hunks[0]);
            reveal_strlit("@@ ");
            reveal_strlit("--- ");
            reveal_strlit("+++ b/");
            reveal_strlit("+++ /dev/null");
            assert(line.subrange(0, 3)[0] == line[0]);
            lemma_begins_otherwise("--- "@, line);
            lemma_begins_otherwise("+++ b/"@, line);
            lemma_begins_otherwise("+++ /dev/null"@, line);
        }
    }
}

proof fn lemma_the_new_side(
    s3: Seq<Seq<char>>,
    old_side: Seq<char>,
    new_side: Seq<char>,
    path: Seq<char>,
)
    requires
        solid(path),
        actions_in(s3).old_side == Some(old_side),
        !actions_in(s3).in_hunk,
        old_side == "/dev/null"@ || old_side == "a/"@ + path,
        new_side == "/dev/null"@ || new_side == "b/"@ + path,
        !(old_side == "/dev/null"@ && new_side == "/dev/null"@),
    ensures
        ({
            let found = actions_in(s3).found;
            let action = if new_side == "/dev/null"@ {
                "remove "@ + file_name("a/"@ + path)
            } else if old_side == "/dev/null"@ {
                "add "@ + file_name(path)
            } else {
                "update "@ + file_name(path)
            };
            actions_in(s3.push("+++ "@ + new_side)).found == if found.contains(action) {
                found
            } else {
                found.push(action)
            }
        }),
        !actions_in(s3.push("+++ "@ + new_side)).in_hunk,
{
    reveal_strlit("/dev/null");
    reveal_strlit("a/");
    reveal_strlit("b/");
    reveal_strlit("--- ");
    reveal_strlit("+++ ");
    reveal_strlit("+++ b/");
    reveal_strlit("+++ /dev/null");
    reveal_strlit("diff --git ");
    reveal_strlit("@@ ");
    reveal_strlit("add");
    reveal_strlit("update");
    reveal_strlit(" ");
    reveal_strlit("add ");
    reveal_strlit("update ");
    let none: Seq<char> = Seq::empty();
    let l2 = "+++ "@ + new_side;
    let s4 = s3.push(l2);
    assert(s4.drop_last() =~= s3);
    assert(l2[0] == '+');
    lemma_begins_otherwise("diff --git "@, l2);
    lemma_begins_otherwise("@@ "@, l2);
    lemma_begins_otherwise("--- "@, l2);
    if new_side == "/dev/null"@ {
        assert(l2 =~= "+++ /dev/null"@ + none);
        lemma_prefix_is_taken_off("+++ /dev/null"@, none, l2);
        assert(l2[4] == '/');
        if "+++ b/"@.is_prefix_of(l2) {
            assert(l2.subrange(0, 6)[4] == l2[4]);
        }
    } else {
        assert(l2 =~= "+++ b/"@ + path);
        lemma_prefix_is_taken_off("+++ b/"@, path, l2);
        assert(old_side[0] == 'a' || old_side[0] == '/');
        assert("add"@ + " "@ =~= "add "@);
        assert("update"@ + " "@ =~= "update "@);
        if old_side != "/dev/null"@ {
            assert(old_side[0] == 'a');
        }
    }
}

/// A section of a patch adds one action to those before it, unless it is there
/// already: a file that is made, edited or removed, told by its file name.
#[verifier::rlimit(40)]
pub proof fn lemma_a_section_is_one_action(
    before: Seq<Seq<char>>,
    first: Seq<char>,
    between: Seq<Seq<char>>,
    old_side: Seq<char>,
    new_side: Seq<char>,
    hunks: Seq<Seq<char>>,
    path: Seq<char>,
)
    requires
        "diff --git "@.is_prefix_of(first),
        forall|i: int| 0 <= i < between.len() ==> says_nothing(#[trigger] between[i]),
        forall|i: int| 0 <= i < hunks.len() ==> !"diff --git "@.is_prefix_of(#[trigger] hunks[i]),
        hunks.len() > 0 ==> "@@ "@.is_prefix_of(hunks[0]),
        solid(path),
        old_side == "/dev/null"@ || old_side == "a/"@ + path,
        new_side == "/dev/null"@ || new_side == "b/"@ + path,
        !(old_side == "/dev/null"@ && new_side == "/dev/null"@),
    ensures
        ({
            let section = seq![first] + between + seq!["--- "@ + old_side, "+++ "@ + new_side]
                + hunks;
            let found = actions_in(before).found;
            let action = if new_side == "/dev/null"@ {
                "remove "@ + file_name("a/"@ + path)
            } else if old_side == "/dev/null"@ {
                "add "@ + file_name(path)
            } else {
                "update "@ + file_name(path)
            };
            actions_in(before + section).found == if found.contains(action) {
                found
            } else {
                found.push(action)
            }
        }),
{
    reveal_strlit("/dev/null");
    reveal_strlit("a/");
    reveal_strlit("b/");
    reveal_strlit("--- ");
    reveal_strlit("+++ ");
    reveal_strlit("diff --git ");
    reveal_strlit("@@ ");
    let none: Seq<char> = Seq::empty();
    let found = actions_in(before).found;
    let l1 = "--- "@ + old_side;
    let l2 = "+++ "@ + new_side;
    let s1 = before.push(first);
    assert(s1.drop_last() =~= before);
    assert(actions_in(s1) == (Actions { old_side: None, in_hunk: false, found }));
    lemma_quiet_lines(s1, between);
    let s2 = s1 + between;
    let s3 = s2.push(l1);
    assert(s3.drop_last() =~= s2);
    lemma_prefix_is_taken_off("--- "@, old_side, l1);
    assert(l1[0] == '-');
    lemma_begins_otherwise("diff --git "@, l1);
    lemma_begins_otherwise("@@ "@, l1);
    assert(tight(old_side)) by {
        if old_side == "a/"@ + path && path.len() > 0 {
            assert(!crate::text::is_white_space(path[path.len() - 1]));
            assert(old_side.last() == path[path.len() - 1]);
        }
    }
    lemma_trimmed(none, old_side, none);
    assert(actions_in(s3) == (Actions { old_side: Some(old_side), in_hunk: false, found }));
    let s4 = s3.push(l2);
    lemma_the_new_side(s3, old_side, new_side, path);
    lemma_hunk_lines_say_nothing(s4, hunks);
    let section = seq![first] + between + seq![l1, l2] + hunks;
    assert(before + section =~= s4 + hunks);
}

// ── branch names ────────────────────────────────────────────────────

/// A name that is allowed is not empty, begins and ends with no slash, holds no
/// two dots in a row and none of the characters that git forbids; and every
/// such name is allowed.
pub proof fn lemma_allowed_branch_names(name: Seq<char>)
    ensures
        valid_branch_name(name) <==> name.len() > 0 && name[0] != '/' && name.last() != '/' && lacks(
            name,
            ' ',
        ) && lacks(name, '~') && lacks(name, '^') && lacks(name, ':') && lacks(name, '?') && lacks(
            name,
            '*',
        ) && lacks(name, '[') && lacks(name, '\\') && !(exists|a: Seq<char>, b: Seq<char>|
            name == #[trigger] (a + ".."@ + b)),
{
    if occurs(name, ".."@) {
        crate::laws::texts::lemma_occurrence_splits(name, ".."@);
    }
    if exists|a: Seq<char>, b: Seq<char>| name == #[trigger] (a + ".."@ + b) {
        let (a, b) = choose|a: Seq<char>, b: Seq<char>| name == #[trigger] (a + ".."@ + b);
        lemma_occurs_inside(a, ".."@, b);
    }
}

/// The name that the backend recommends is used where it leaves a slug; else
/// the one that the patch suggests, which is never empty.
pub proof fn lemma_recommended_names_are_used(name: Seq<char>, patch: Seq<char>)
    ensures
        slug_of(name).len() > 0 ==> proposed_branch(Some(name), patch) == slug_of(name),
        slug_of(name).len() == 0 ==> proposed_branch(Some(name), patch) == suggestion_of(patch),
        proposed_branch(None, patch) == suggestion_of(patch),
        suggestion_of(patch).len() > 0,
{
    reveal_strlit("changes");
    crate::commit::branch::lemma_slug_shape(name);
    if slug_of(name).len() > 0 {
        crate::commit::branch::lemma_slug_is_valid(slug_of(name));
    }
}

// ── paths of a proposal ─────────────────────────────────────────────

proof fn lemma_kept(prefix: Seq<char>, s: Seq<char>)
    requires
        prefix.len() > 0,
        !prefix.is_prefix_of(s),
    ensures
        without_prefixes(s, prefix) == s,
{
}

proof fn lemma_one_off(prefix: Seq<char>, s: Seq<char>)
    requires
        prefix.len() > 0,
        !prefix.is_prefix_of(s),
    ensures
        without_prefixes(prefix + s, prefix) == s,
{
    lemma_kept(prefix, s);
    assert((prefix + s).skip(prefix.len() as int) =~= s);
    assert(prefix.is_prefix_of(prefix + s)) by {
        assert((prefix + s).subrange(0, prefix.len() as int) =~= prefix);
    }
}

/// A changed path with `./`, `b/` or `a/` before it stands for the changed
/// path.
pub proof fn lemma_prefixed_paths_are_found(path: Seq<char>, actual: Seq<Seq<char>>)
    requires
        actual.contains(path),
        !"./"@.is_prefix_of(path),
        !"a/"@.is_prefix_of(path),
        !"b/"@.is_prefix_of(path),
    ensures
        !actual.contains("./"@ + path) ==> resolved("./"@ + path, actual) == path,
        !actual.contains("b/"@ + path) ==> resolved("b/"@ + path, actual) == path,
        !actual.contains("a/"@ + path) ==> resolved("a/"@ + path, actual) == path,
{
    reveal_strlit("./");
    reveal_strlit("a/");
    reveal_strlit("b/");
    lemma_one_off("./"@, path);
    lemma_one_off("b/"@, path);
    lemma_one_off("a/"@, path);
    lemma_kept("./"@, path);
    lemma_kept("b/"@, path);
    lemma_kept("a/"@, path);
    let pa = "a/"@ + path;
    let pb = "b/"@ + path;
    lemma_begins_otherwise("./"@, pa);
    lemma_begins_otherwise("./"@, pb);
    lemma_begins_otherwise("b/"@, pa);
    lemma_kept("./"@, pa);
    lemma_kept("./"@, pb);
    lemma_kept("b/"@, pa);
}

/// A mere file name stands for the changed path with that file name: for the
/// first one, and so for the only one where there is but one.
pub proof fn lemma_file_names_are_found(name: Seq<char>, actual: Seq<Seq<char>>, i: int)
    requires
        lacks(name, '/'),
        !actual.contains(name),
        0 <= i < actual.len(),
        exists|d: Seq<char>| actual[i] == #[trigger] (d + seq!['/'] + name),
        forall|j: int|
            0 <= j < i ==> !(exists|d: Seq<char>| #[trigger] actual[j] == #[trigger] (d + seq!['/'] + name)),
    ensures
        resolved(name, actual) == actual[i],
{
    reveal_strlit("./");
    reveal_strlit("a/");
    reveal_strlit("b/");
    lemma_no_slash_start(name, "./"@);
    lemma_no_slash_start(name, "a/"@);
    lemma_no_slash_start(name, "b/"@);
    lemma_kept("./"@, name);
    lemma_kept("b/"@, name);
    lemma_kept("a/"@, name);
    lemma_one_piece(name, '/');
    let d = choose|d: Seq<char>| actual[i] == #[trigger] (d + seq!['/'] + name);
    lemma_end_pieces(d, '/', name);
    assert forall|j: int| 0 <= j < i implies last_piece(#[trigger] actual[j], '/') != name by {
        if last_piece(actual[j], '/') == name {
            crate::laws::verdicts::lemma_leaf(actual[j]);
            if actual[j] == name {
                assert(actual.contains(actual[j]));
            }
        }
    }
    lemma_first_named(actual, name, i);
}

proof fn lemma_no_slash_start(name: Seq<char>, start: Seq<char>)
    requires
        lacks(name, '/'),
        start.len() == 2,
        start[1] == '/',
    ensures
        !start.is_prefix_of(name),
{
    if start.is_prefix_of(name) {
        assert(name.subrange(0, 2)[1] == name[1]);
    }
}

proof fn lemma_first_named(paths: Seq<Seq<char>>, name: Seq<char>, i: int)
    requires
        0 <= i < paths.len(),
        last_piece(paths[i], '/') == name,
        forall|j: int| 0 <= j < i ==> last_piece(#[trigger] paths[j], '/') != name,
    ensures
        first_with_name(paths, name) == Some(paths[i]),
    decreases paths.len(),
{
    let front = paths.drop_last();
    if i < front.len() {
        assert forall|j: int| 0 <= j < i implies last_piece(#[trigger] front[j], '/') != name by {
            assert(front[j] == paths[j]);
        }
        assert(front[i] == paths[i]);
        lemma_first_named(front, name, i);
    } else {
        lemma_none_named(front, paths, name);
    }
}

proof fn lemma_none_named(front: Seq<Seq<char>>, paths: Seq<Seq<char>>, name: Seq<char>)
    requires
        front.is_prefix_of(paths),
        forall|j: int| 0 <= j < front.len() ==> last_piece(#[trigger] paths[j], '/') != name,
    ensures
        first_with_name(front, name) is None,
    decreases front.len(),
{
    if front.len() > 0 {
        let less = front.drop_last();
        assert(paths[front.len() - 1] == front.last());
        assert(less =~= paths.subrange(0, less.len() as int));
        lemma_none_named(less, paths, name);
    }
}

/// What is in a crate, but not below its source root, follows the name of the
/// crate.
pub proof fn lemma_scopes_beside_the_source_root(
    krate: Seq<char>,
    rest: Seq<char>,
    name: Seq<char>,
)
    requires
        krate.len() > 0,
        lacks(krate, '/'),
        lacks(name, '/'),
        rest != "src"@,
        !"src/"@.is_prefix_of(rest),
    ensures
        scope_of("crates/"@ + krate + "/"@ + rest + seq!['/'] + name) == Some(
            krate + "/"@ + rest,
        ),
{
    reveal_strlit("/");
    let dir = "crates/"@ + krate + "/"@ + rest;
    lemma_directory(dir, name);
    let below = krate + seq!['/'] + rest;
    assert(dir =~= "crates/"@ + below);
    lemma_prefix_is_taken_off("crates/"@, below, dir);
    lemma_first_place(krate, '/', rest);
    assert(below.take(krate.len() as int) =~= krate);
    assert(below.skip(krate.len() as int + 1) =~= rest);
    assert(krate + "/"@ + rest =~= below);
}

/// A section that names no old side adds its file.
pub proof fn lemma_a_file_without_an_old_side_is_added(first: Seq<char>, path: Seq<char>)
    requires
        "diff --git "@.is_prefix_of(first),
    ensures
        actions_in(seq![first, "+++ b/"@ + path]).found == seq!["add "@ + file_name(path)],
{
    let all = seq![first, "+++ b/"@ + path];
    let none: Seq<Seq<char>> = Seq::empty();
    let one = seq![first];
    reveal_strlit("diff --git ");
    reveal_strlit("--- ");
    reveal_strlit("+++ b/");
    reveal_strlit("@@ ");
    reveal_strlit("add");
    reveal_strlit("add ");
    reveal_strlit(" ");
    assert(all.drop_last() =~= one);
    assert(one.drop_last() =~= none);
    assert(first.subrange(0, 11)[0] == first[0]);
    lemma_begins_otherwise("@@ "@, first);
    let line = "+++ b/"@ + path;
    lemma_begins_otherwise("diff --git "@, line);
    lemma_begins_otherwise("--- "@, line);
    lemma_begins_otherwise("@@ "@, line);
    lemma_prefix_is_taken_off("+++ b/"@, path, line);
    assert("add"@ + " "@ =~= "add "@);
    reveal_with_fuel(actions_in, 3);
    assert(one.last() == first && all.last() == line);
    assert(actions_in(one).found =~= Seq::empty());
    assert(!actions_in(one).in_hunk);
    assert(actions_in(all).found =~= seq!["add "@ + file_name(path)]);
}

/// A path that is no changed file, nor one without its leading parts, and whose
/// file name no changed file has, stays as it is.
pub proof fn lemma_unknown_paths_stay(path: Seq<char>, name: Seq<char>, actual: Seq<Seq<char>>)
    requires
        names(path, name),
        name.len() > 0,
        forall|j: int| 0 <= j < actual.len() ==> !names(#[trigger] actual[j], name),
    ensures
        resolved(path, actual) == path,
{
    let cleaned = cleaned_path(path);
    lemma_cleaned_name(path, name);
    lemma_names(cleaned, name);
    assert(!actual.contains(path)) by {
        if actual.contains(path) {
            assert(actual[actual.index_of(path)] == path);
        }
    }
    assert(!actual.contains(cleaned)) by {
        if actual.contains(cleaned) {
            assert(actual[actual.index_of(cleaned)] == cleaned);
        }
    }
    lemma_no_such_name(actual, name);
}

proof fn lemma_no_such_name(actual: Seq<Seq<char>>, name: Seq<char>)
    requires
        lacks(name, '/'),
        forall|j: int| 0 <= j < actual.len() ==> !names(#[trigger] actual[j], name),
    ensures
        first_with_name(actual, name) is None,
    decreases actual.len(),
{
    if actual.len() > 0 {
        let front = actual.drop_last();
        assert forall|j: int| 0 <= j < front.len() implies !names(#[trigger] front[j], name) by {
            assert(front[j] == actual[j]);
        }
        lemma_no_such_name(front, name);
        let last = actual[actual.len() - 1];
        lemma_last_piece_names(last);
        assert(!names(last, name));
    }
}

proof fn lemma_last_piece_names(path: Seq<char>)
    ensures
        names(path, last_piece(path, '/')),
{
    if path.contains('/') {
        lemma_last_index(path, '/');
        let i = last_index(path, '/')->0;
        let d = path.take(i);
        let n = path.skip(i + 1);
        assert(path =~= d + seq!['/'] + n);
        assert(lacks(n, '/')) by {
            assert forall|k: int| 0 <= k < n.len() implies #[trigger] n[k] != '/' by {
                assert(n[k] == path[i + 1 + k]);
            }
        }
        lemma_end_pieces(d, '/', n);
    } else {
        assert(lacks(path, '/')) by {
            assert forall|k: int| 0 <= k < path.len() implies #[trigger] path[k] != '/' by {
                if path[k] == '/' {
                    assert(path.contains('/'));
                }
            }
        }
        lemma_one_piece(path, '/');
    }
}

proof fn lemma_cleaned_name(path: Seq<char>, name: Seq<char>)
    requires
        names(path, name),
        name.len() > 0,
    ensures
        names(cleaned_path(path), name),
{
    reveal_strlit("./");
    reveal_strlit("a/");
    reveal_strlit("b/");
    let x = without_prefixes(path, "./"@);
    let y = without_prefixes(x, "b/"@);
    lemma_name_survives(path, "./"@, name);
    lemma_name_survives(x, "b/"@, name);
    lemma_name_survives(y, "a/"@, name);
}

proof fn lemma_name_survives(path: Seq<char>, prefix: Seq<char>, name: Seq<char>)
    requires
        names(path, name),
        name.len() > 0,
        prefix.len() == 2,
        prefix[1] == '/',
        prefix[0] != '/',
    ensures
        names(without_prefixes(path, prefix), name),
    decreases path.len(),
{
    if prefix.is_prefix_of(path) {
        let rest = path.skip(2);
        assert(path.subrange(0, 2)[1] == path[1]);
        assert(path.subrange(0, 2)[0] == path[0]);
        if path == name {
            assert(name[1] == '/');
        } else {
            let d = choose|d: Seq<char>| path == #[trigger] (d + seq!['/'] + name);
            if d.len() == 0 {
                assert(path[0] == '/');
            } else if d.len() == 1 {
                assert(rest =~= name);
            } else {
                let e = d.skip(2);
                assert(rest =~= e + seq!['/'] + name);
            }
        }
        lemma_name_survives(rest, prefix, name);
    }
}

} // verus!
