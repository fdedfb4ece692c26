//! Commit plans and branch names that are made from the diff alone.

use vstd::prelude::*;

use crate::analysis::CollectedDiff;
use crate::commit::changes::{
    change_views, changes_of, classify_change, lemma_change_views_push, parse_file_changes,
    subject_line, subject_of, type_of, ChangeType, ChangeView, FileChange,
};
use crate::engine::coverage::whole_paths;
use crate::engine::plan::{group_views, GroupView, PlanGroup};
use crate::order::{before, keys, sorted_once, sorted_set, text_less, Keyed};
use crate::text::{
    chars_of, copy_texts, find, first_index, last_index, lemma_texts_push, prefix_stripped, rfind,
    same_text, strip_prefix, text, text_of, texts,
};

verus! {

// ── scopes ──────────────────────────────────────────────────────────

/// The directory of a path; files at the root of the repository have none.
pub open spec fn directory_of(path: Seq<char>) -> Option<Seq<char>> {
    match last_index(path, '/') {
        Some(i) => Some(path.take(i)),
        None => None,
    }
}

/// What is left of a directory under `crates/`: the name of the crate and what
/// stands behind its source root.
pub open spec fn crate_scope(rest: Seq<char>) -> Seq<char> {
    match first_index(rest, '/') {
        Some(i) => {
            let name = rest.take(i);
            let inner = rest.skip(i + 1);
            if inner == "src"@ {
                name
            } else {
                match prefix_stripped(inner, "src/"@) {
                    Some(below) => if below.len() == 0 {
                        name
                    } else {
                        name + "/"@ + below
                    },
                    None => name + "/"@ + inner,
                }
            }
        },
        None => rest,
    }
}

/// A directory without the first of the roots that it begins with.
pub open spec fn without_root(dir: Seq<char>, roots: Seq<&str>) -> Seq<char>
    decreases roots.len(),
{
    if roots.len() == 0 {
        dir
    } else {
        match prefix_stripped(dir, roots[0]@) {
            Some(rest) => rest,
            None => without_root(dir, roots.drop_first()),
        }
    }
}

/// Directories that say nothing of what a file is about.
pub open spec fn source_roots() -> Seq<&'static str> {
    seq!["src/", "lib/", "app/", "include/", "tests/", "test/"]
}

/// A directory without leading boilerplate.
pub open spec fn trimmed_root(dir: Seq<char>) -> Seq<char> {
    match prefix_stripped(dir, "crates/"@) {
        Some(rest) => crate_scope(rest),
        None => without_root(dir, source_roots()),
    }
}

/// The scope of a conventional commit that changes `path`: its directory
/// without leading boilerplate, or the directory itself where nothing else is
/// left of it.
pub open spec fn scope_of(path: Seq<char>) -> Option<Seq<char>> {
    match directory_of(path) {
        None => None,
        Some(dir) => {
            let scope = if trimmed_root(dir).len() == 0 {
                dir
            } else {
                trimmed_root(dir)
            };
            if scope.len() == 0 {
                None
            } else {
                Some(scope)
            }
        },
    }
}

/// The directory of a path, where it has one.
pub fn file_scope(path: &str) -> (r: Option<String>)
    ensures
        text(r) == directory_of(path@),
{
    let chars = chars_of(path);
    let s = chars.as_slice();
    match rfind(s, '/') {
        Some(i) => {
            assert(s@.subrange(0, i as int) =~= s@.take(i as int));
            Some(text_of(&s[0..i]))
        },
        None => None,
    }
}

fn crate_root_trimmed(rest: &[char]) -> (r: String)
    ensures
        r@ == crate_scope(rest@),
{
    let n = rest.len();
    match find(rest, '/') {
        Some(i) => {
            assert(rest@.subrange(0, i as int) =~= rest@.take(i as int));
            assert(rest@.subrange(i + 1, n as int) =~= rest@.skip(i + 1));
            let name = text_of(&rest[0..i]);
            let inner = &rest[i + 1..n];
            if crate::text::is_text(inner, "src") {
                return name;
            }
            let mut out = name;
            match strip_prefix(inner, "src/") {
                Some(below) => {
                    if below.len() > 0 {
                        out.append("/");
                        out.append(text_of(below).as_str());
                    }
                },
                None => {
                    out.append("/");
                    out.append(text_of(inner).as_str());
                },
            }
            out
        },
        None => text_of(rest),
    }
}

fn strip_root(dir: &[char], roots: &[&str]) -> (r: String)
    ensures
        r@ == without_root(dir@, roots@),
{
    let ghost all = roots@;
    assert(all.skip(0) =~= all);
    for i in 0..roots.len()
        invariant
            all == roots@,
            without_root(dir@, all) == without_root(dir@, all.skip(i as int)),
    {
        assert(all.skip(i as int).drop_first() =~= all.skip(i + 1));
        if let Some(rest) = strip_prefix(dir, roots[i]) {
            return text_of(rest);
        }
    }
    text_of(dir)
}

/// Drop leading boilerplate from a directory.
pub fn trim_source_root(dir: &str) -> (r: String)
    ensures
        r@ == trimmed_root(dir@),
{
    let chars = chars_of(dir);
    match strip_prefix(chars.as_slice(), "crates/") {
        Some(rest) => crate_root_trimmed(rest),
        None => {
            let roots: Vec<&str> = vec!["src/", "lib/", "app/", "include/", "tests/", "test/"];
            assert(roots@ =~= source_roots());
            strip_root(chars.as_slice(), roots.as_slice())
        },
    }
}

/// The scope of a conventional commit that changes `path`.
pub fn scope_for(path: &str) -> (r: Option<String>)
    ensures
        text(r) == scope_of(path@),
{
    match file_scope(path) {
        None => None,
        Some(parent) => {
            let trimmed = trim_source_root(parent.as_str());
            let scope = if same_text(trimmed.as_str(), "") {
                parent
            } else {
                trimmed
            };
            proof {
                reveal_strlit("");
                assert(trimmed_root(parent@) == ""@ <==> trimmed_root(parent@).len() == 0) by {
                    if trimmed_root(parent@).len() == 0 {
                        assert(trimmed_root(parent@) =~= ""@);
                    }
                }
                assert(scope@ == ""@ <==> scope@.len() == 0) by {
                    if scope@.len() == 0 {
                        assert(scope@ =~= ""@);
                    }
                }
            }
            if same_text(scope.as_str(), "") {
                None
            } else {
                Some(scope)
            }
        },
    }
}

// ── the plan ────────────────────────────────────────────────────────

/// What changes have in common that go into one commit.
pub type Topic = (ChangeType, Option<Seq<char>>);

/// The topic of a change.
pub open spec fn topic_of(change: ChangeView) -> Topic {
    (type_of(seq![change]), scope_of(change.path))
}

/// The order of topics: by type, then by scope, those without one first.
pub open spec fn topic_less(a: Topic, b: Topic) -> bool {
    if a.0 != b.0 {
        a.0.rank() < b.0.rank()
    } else {
        match (a.1, b.1) {
            (None, None) => false,
            (None, Some(_)) => true,
            (Some(_), None) => false,
            (Some(x), Some(y)) => text_less(x, y),
        }
    }
}

/// The order of topics as a function.
pub open spec fn by_topic() -> spec_fn(Topic, Topic) -> bool {
    |a: Topic, b: Topic| topic_less(a, b)
}

/// The topics of the changes, in order.
pub open spec fn topics_of(changes: Seq<ChangeView>) -> Seq<Topic> {
    sorted_set(changes.map_values(|c: ChangeView| topic_of(c)), by_topic())
}

/// Holds of the changes on one topic.
pub open spec fn on_topic(topic: Topic) -> spec_fn(ChangeView) -> bool {
    |c: ChangeView| topic_of(c) == topic
}

/// The changes on one topic, in the order of the diff.
pub open spec fn bucket(changes: Seq<ChangeView>, topic: Topic) -> Seq<ChangeView> {
    changes.filter(on_topic(topic))
}

/// The paths of the changes.
pub open spec fn change_paths(changes: Seq<ChangeView>) -> Seq<Seq<char>> {
    changes.map_values(|c: ChangeView| c.path)
}

/// The commit message for changes on one topic.
pub open spec fn topic_message(topic: Topic, changes: Seq<ChangeView>) -> Seq<char> {
    let prefix = match topic.1 {
        Some(scope) => topic.0.word() + "("@ + scope + ")"@,
        None => topic.0.word(),
    };
    prefix + ": "@ + subject_of(changes)
}

/// The commit for changes on one topic.
pub open spec fn topic_group(changes: Seq<ChangeView>, topic: Topic) -> GroupView {
    GroupView {
        message: topic_message(topic, bucket(changes, topic)),
        whole: change_paths(bucket(changes, topic)),
        partial: Seq::empty(),
    }
}

/// The commits for the topics, one for each.
pub open spec fn topic_groups(changes: Seq<ChangeView>, topics: Seq<Topic>) -> Seq<GroupView> {
    topics.map_values(|t: Topic| topic_group(changes, t))
}

/// The plan for a diff: one commit for each topic; where no change is found in
/// the patch, one commit of all files.
pub open spec fn offline_plan(patch: Seq<char>, files: Seq<Seq<char>>) -> Seq<GroupView> {
    let changes = changes_of(patch);
    if changes.len() == 0 {
        seq![
            GroupView {
                message: ChangeType::Chore.word() + ": update working changes"@,
                whole: files,
                partial: Seq::empty(),
            },
        ]
    } else {
        topic_groups(changes, topics_of(changes))
    }
}

/// A topic as a value to sort by.
struct TopicKey {
    kind: ChangeType,
    scope: Option<String>,
}

impl Keyed for TopicKey {
    type Key = Topic;

    closed spec fn key(&self) -> Topic {
        (self.kind, text(self.scope))
    }

    closed spec fn key_less() -> spec_fn(Topic, Topic) -> bool {
        by_topic()
    }

    fn same_key(&self, other: &Self) -> (r: bool) {
        if self.kind != other.kind {
            return false;
        }
        match (&self.scope, &other.scope) {
            (None, None) => true,
            (None, Some(_)) => false,
            (Some(_), None) => false,
            (Some(a), Some(b)) => same_text(a.as_str(), b.as_str()),
        }
    }

    fn precedes(&self, other: &Self) -> (r: bool) {
        if self.kind != other.kind {
            return self.kind.comes_before(other.kind);
        }
        match (&self.scope, &other.scope) {
            (None, None) => false,
            (None, Some(_)) => true,
            (Some(_), None) => false,
            (Some(a), Some(b)) => before(a.as_str(), b.as_str()),
        }
    }
}

fn copy_change(change: &FileChange) -> (r: FileChange)
    ensures
        r@ == change@,
{
    FileChange {
        path: change.path.clone(),
        kind: change.kind,
        added: change.added,
        removed: change.removed,
    }
}

fn topic_key(change: &FileChange) -> (r: TopicKey)
    ensures
        r.key() == topic_of(change@),
{
    let mut one: Vec<FileChange> = Vec::new();
    one.push(copy_change(change));
    assert(change_views(one@) =~= seq![change@]);
    proof {
        let views = seq![change@];
        assert(views.drop_last() =~= Seq::empty());
        assert(crate::commit::changes::total_added(views.drop_last()) == 0);
        assert(crate::commit::changes::total_removed(views.drop_last()) == 0);
        assert(crate::commit::changes::total_added(views) == change.added);
        assert(crate::commit::changes::total_removed(views) == change.removed);
    }
    TopicKey { kind: classify_change(one.as_slice()), scope: scope_for(change.path.as_str()) }
}

fn take_bucket(changes: &[FileChange], topic: &TopicKey) -> (r: Vec<FileChange>)
    ensures
        change_views(r@) == bucket(change_views(changes@), topic.key()),
{
    broadcast use lemma_change_views_push;

    let ghost all = change_views(changes@);
    let mut out: Vec<FileChange> = Vec::new();
    assert(all.take(0) =~= Seq::empty());
    assert(change_views(out@) =~= bucket(all.take(0), topic.key())) by {
        reveal(Seq::filter);
    }
    for i in 0..changes.len()
        invariant
            all == change_views(changes@),
            change_views(out@) == bucket(all.take(i as int), topic.key()),
    {
        proof {
            assert(all.take(i + 1) =~= all.take(i as int).push(changes@[i as int]@));
            all.take(i as int).lemma_filter_push(changes@[i as int]@, on_topic(topic.key()));
        }
        if topic_key(&changes[i]).same_key(topic) {
            out.push(copy_change(&changes[i]));
        }
    }
    assert(all.take(all.len() as int) =~= all);
    out
}

fn paths_in(changes: &[FileChange]) -> (r: Vec<String>)
    ensures
        texts(r@) == change_paths(change_views(changes@)),
{
    broadcast use lemma_texts_push;

    let ghost all = change_paths(change_views(changes@));
    let mut out: Vec<String> = Vec::new();
    assert(texts(out@) =~= all.take(0));
    for i in 0..changes.len()
        invariant
            all == change_paths(change_views(changes@)),
            texts(out@) == all.take(i as int),
    {
        out.push(changes[i].path.clone());
        assert(all.take(i + 1) =~= all.take(i as int).push(changes@[i as int]@.path));
    }
    assert(all.take(all.len() as int) =~= all);
    out
}

fn make_group(changes: &[FileChange], topic: &TopicKey) -> (r: PlanGroup)
    ensures
        r@ == topic_group(change_views(changes@), topic.key()),
{
    let chosen = take_bucket(changes, topic);
    let mut message = topic.kind.name();
    match &topic.scope {
        Some(scope) => {
            message.append("(");
            message.append(scope.as_str());
            message.append(")");
        },
        None => {},
    }
    message.append(": ");
    message.append(subject_line(chosen.as_slice()).as_str());
    let partial: Vec<(String, Vec<usize>)> = Vec::new();
    assert(crate::engine::plan::partial_views(partial@) =~= Seq::empty());
    PlanGroup { message, whole: paths_in(chosen.as_slice()), partial }
}

/// Plan commits from the diff alone, one for each type and scope.
pub fn offline_groups(collected: &CollectedDiff) -> (r: Vec<PlanGroup>)
    ensures
        group_views(r@) == offline_plan(collected.patch@, texts(collected.files@)),
{
    let changes = parse_file_changes(collected.patch.as_str());
    let ghost all = change_views(changes@);
    let mut out: Vec<PlanGroup> = Vec::new();
    if changes.len() == 0 {
        let mut message = ChangeType::Chore.name();
        message.append(": update working changes");
        let partial: Vec<(String, Vec<usize>)> = Vec::new();
        assert(crate::engine::plan::partial_views(partial@) =~= Seq::empty());
        out.push(PlanGroup { message, whole: copy_texts(collected.files.as_slice()), partial });
        assert(group_views(out@) =~= offline_plan(collected.patch@, texts(collected.files@)));
        return out;
    }
    let mut found: Vec<TopicKey> = Vec::new();
    for i in 0..changes.len()
        invariant
            all == change_views(changes@),
            found@.len() == i,
            forall|j: int| 0 <= j < i ==> (#[trigger] found@[j]).key() == topic_of(all[j]),
    {
        found.push(topic_key(&changes[i]));
    }
    assert(keys(found@) =~= all.map_values(|c: ChangeView| topic_of(c)));
    let topics = sorted_once(found);
    let ghost order = keys(topics@);
    assert(order == topics_of(all));
    assert(group_views(out@) =~= topic_groups(all, order.take(0)));
    for i in 0..topics.len()
        invariant
            all == change_views(changes@),
            order == keys(topics@),
            group_views(out@) == topic_groups(all, order.take(i as int)),
    {
        let group = make_group(changes.as_slice(), &topics[i]);
        let ghost before = group_views(out@);
        out.push(group);
        assert(group_views(out@) =~= before.push(group@));
        assert(order[i as int] == topics@[i as int].key());
        assert(topic_groups(all, order.take(i + 1)) =~= topic_groups(
            all,
            order.take(i as int),
        ).push(topic_group(all, order[i as int])));
    }
    assert(order.take(order.len() as int) =~= order);
    out
}

/// The message of the first commit of an offline plan.
pub fn offline_commit_message(collected: &CollectedDiff) -> (r: String)
    ensures
        r@ == ({
            let plan = offline_plan(collected.patch@, texts(collected.files@));
            if plan.len() > 0 {
                plan[0].message
            } else {
                ChangeType::Chore.word() + ": update working changes"@
            }
        }),
{
    let groups = offline_groups(collected);
    assert(group_views(groups@).len() == groups@.len());
    if groups.len() > 0 {
        assert(group_views(groups@)[0] == groups@[0]@);
        groups[0].message.clone()
    } else {
        let mut message = ChangeType::Chore.name();
        message.append(": update working changes");
        message
    }
}

/// Collect the whole files of all groups.
pub fn plan_files(plan: &[PlanGroup]) -> (r: Vec<String>)
    ensures
        texts(r@) == whole_paths(group_views(plan@)),
{
    broadcast use lemma_texts_push;

    let ghost all = group_views(plan@);
    let mut out: Vec<String> = Vec::new();
    assert(texts(out@) =~= whole_paths(all.take(0)));
    for i in 0..plan.len()
        invariant
            all == group_views(plan@),
            texts(out@) == whole_paths(all.take(i as int)),
    {
        let ghost before = texts(out@);
        let whole = &plan[i].whole;
        let ghost names = texts(whole@);
        assert(before + names.take(0) =~= before);
        for j in 0..whole.len()
            invariant
                names == texts(whole@),
                texts(out@) == before + names.take(j as int),
        {
            let ghost so_far = texts(out@);
            out.push(whole[j].clone());
            assert(texts(out@) == so_far.push(names[j as int]));
            assert(names.take(j + 1) =~= names.take(j as int).push(names[j as int]));
            assert(texts(out@) =~= before + names.take(j + 1));
        }
        assert(names.take(names.len() as int) =~= names);
        assert(all.take(i + 1).drop_last() =~= all.take(i as int));
        assert(all.take(i + 1).last() == plan@[i as int]@);
    }
    assert(all.take(all.len() as int) =~= all);
    out
}

} // verus!
