//! What holds of every offline plan.

use vstd::prelude::*;

use crate::commit::changes::{changes_of, ChangeView};
use crate::commit::offline::{
    bucket, by_topic, change_paths, offline_plan, on_topic, topic_groups, topic_of, topics_of,
    Topic,
};
use crate::engine::coverage::{
    lemma_accepted_iff_partition, lemma_at_most_once, lemma_claimed_hunk_is_split,
    lemma_contains_push, lemma_no_duplicates_push, lemma_plan_claims_its_groups, lemma_times_add,
    lemma_times_at_most_once, lemma_times_positive, lemma_times_push, part_paths, partitions,
    sound_claims, sound_ids, times, whole_paths,
};
use crate::engine::hunks::FileView;
use crate::engine::plan::{
    claimed, covered, hunk_ids, plan_claims, plan_fault, record, splits, wholes, GroupView,
};
use crate::order::{
    by_text, increasing, lemma_by_text_is_strict_order, lemma_sorted_set, strict_order,
};

verus! {

/// Topics are strictly and totally ordered.
pub proof fn lemma_by_topic_is_strict_order()
    ensures
        strict_order(by_topic()),
{
    lemma_by_text_is_strict_order();
    let texts_less = by_text();
    let less = by_topic();
    assert forall|a: Topic| !#[trigger] less(a, a) by {
        if let Some(x) = a.1 {
            assert(!texts_less(x, x));
        }
    }
    assert forall|a: Topic, b: Topic, c: Topic| #[trigger]
        less(a, b) && #[trigger] less(b, c) implies less(a, c) by {
        if a.0 == b.0 && b.0 == c.0 {
            if let (Some(x), Some(y)) = (a.1, b.1) {
                if let Some(z) = c.1 {
                    assert(texts_less(x, y) && texts_less(y, z));
                    assert(texts_less(x, z));
                }
            }
        }
    }
    assert forall|a: Topic, b: Topic| a != b implies #[trigger] less(a, b) || less(b, a) by {
        if a.0 == b.0 {
            if let (Some(x), Some(y)) = (a.1, b.1) {
                assert(x != y);
                assert(texts_less(x, y) || texts_less(y, x));
            }
        }
    }
}

/// The commits of an offline plan come in the order of their topics, no two of
/// them on the same one, and there is one for the topic of every change.
pub proof fn lemma_topics_are_ordered(changes: Seq<ChangeView>)
    ensures
        increasing(topics_of(changes), by_topic()),
        topics_of(changes).no_duplicates(),
        forall|i: int|
            0 <= i < changes.len() ==> topics_of(changes).contains(topic_of(#[trigger] changes[i])),
        forall|k: int|
            0 <= k < topics_of(changes).len() ==> exists|i: int|
                0 <= i < changes.len() && topic_of(#[trigger] changes[i]) == #[trigger] topics_of(
                    changes,
                )[k],
{
    lemma_by_topic_is_strict_order();
    let all = changes.map_values(|c: ChangeView| topic_of(c));
    lemma_sorted_set(all, by_topic());
    assert forall|i: int| 0 <= i < changes.len() implies topics_of(changes).contains(
        topic_of(#[trigger] changes[i]),
    ) by {
        assert(all[i] == topic_of(changes[i]));
        assert(all.contains(topic_of(changes[i])));
    }
    assert forall|k: int| 0 <= k < topics_of(changes).len() implies exists|i: int|
        0 <= i < changes.len() && topic_of(#[trigger] changes[i]) == #[trigger] topics_of(
            changes,
        )[k] by {
        let t = topics_of(changes)[k];
        assert(topics_of(changes).contains(t));
        assert(all.contains(t));
        let i = choose|i: int| 0 <= i < all.len() && all[i] == t;
        assert(topic_of(changes[i]) == t);
    }
}

/// One change more adds its path once, to the commit of its topic.
proof fn lemma_one_more_change(
    changes: Seq<ChangeView>,
    c: ChangeView,
    topics: Seq<Topic>,
    p: Seq<char>,
)
    requires
        topics.no_duplicates(),
    ensures
        times(whole_paths(topic_groups(changes.push(c), topics)), p) == times(
            whole_paths(topic_groups(changes, topics)),
            p,
        ) + if topics.contains(topic_of(c)) && c.path == p {
            1nat
        } else {
            0nat
        },
    decreases topics.len(),
{
    let more = changes.push(c);
    if topics.len() > 0 {
        let front = topics.drop_last();
        let t = topics.last();
        assert(topics =~= front.push(t));
        lemma_no_duplicates_push(front, t);
        lemma_contains_push(front, t, topic_of(c));
        lemma_one_more_change(changes, c, front, p);
        assert(topic_groups(changes, topics).drop_last() =~= topic_groups(changes, front));
        assert(topic_groups(more, topics).drop_last() =~= topic_groups(more, front));
        let old_paths = change_paths(bucket(changes, t));
        let new_paths = change_paths(bucket(more, t));
        assert(topic_groups(changes, topics).last().whole == old_paths);
        assert(topic_groups(more, topics).last().whole == new_paths);
        lemma_times_add(whole_paths(topic_groups(changes, front)), old_paths, p);
        lemma_times_add(whole_paths(topic_groups(more, front)), new_paths, p);
        changes.lemma_filter_push(c, on_topic(t));
        if topic_of(c) == t {
            assert(new_paths =~= old_paths.push(c.path));
            lemma_times_push(old_paths, c.path, p);
        } else {
            assert(new_paths =~= old_paths);
        }
    } else {
        assert(topic_groups(more, topics) =~= topic_groups(changes, topics));
    }
}

proof fn lemma_buckets_keep_paths(changes: Seq<ChangeView>, topics: Seq<Topic>, p: Seq<char>)
    requires
        topics.no_duplicates(),
        forall|i: int| 0 <= i < changes.len() ==> topics.contains(topic_of(#[trigger] changes[i])),
    ensures
        times(whole_paths(topic_groups(changes, topics)), p) == times(change_paths(changes), p),
    decreases changes.len(),
{
    if changes.len() == 0 {
        lemma_no_changes_no_paths(topics, changes, p);
    } else {
        let front = changes.drop_last();
        let c = changes.last();
        assert(changes =~= front.push(c));
        assert forall|i: int| 0 <= i < front.len() implies topics.contains(
            topic_of(#[trigger] front[i]),
        ) by {
            assert(front[i] == changes[i]);
        }
        assert(changes[changes.len() - 1] == c);
        lemma_buckets_keep_paths(front, topics, p);
        lemma_one_more_change(front, c, topics, p);
        assert(change_paths(changes) =~= change_paths(front).push(c.path));
        lemma_times_push(change_paths(front), c.path, p);
    }
}

proof fn lemma_no_changes_no_paths(topics: Seq<Topic>, changes: Seq<ChangeView>, p: Seq<char>)
    requires
        changes.len() == 0,
    ensures
        times(whole_paths(topic_groups(changes, topics)), p) == 0,
    decreases topics.len(),
{
    if topics.len() > 0 {
        lemma_no_changes_no_paths(topics.drop_last(), changes, p);
        assert(topic_groups(changes, topics).drop_last() =~= topic_groups(
            changes,
            topics.drop_last(),
        ));
        let last = topic_groups(changes, topics).last().whole;
        assert(bucket(changes, topics.last()).len() == 0) by {
            reveal(Seq::filter);
        }
        assert(last.len() == 0);
        lemma_times_add(whole_paths(topic_groups(changes, topics.drop_last())), last, p);
    }
}

/// An offline plan takes every changed file as often as the diff changes it:
/// no change is lost and none is committed twice.
pub proof fn lemma_offline_plan_keeps_every_file(
    patch: Seq<char>,
    files: Seq<Seq<char>>,
    path: Seq<char>,
)
    requires
        changes_of(patch).len() > 0,
    ensures
        times(whole_paths(offline_plan(patch, files)), path) == times(
            change_paths(changes_of(patch)),
            path,
        ),
{
    let changes = changes_of(patch);
    lemma_topics_are_ordered(changes);
    lemma_buckets_keep_paths(changes, topics_of(changes), path);
}

/// No commit of an offline plan is empty, and each takes its files whole.
pub proof fn lemma_offline_commits_are_not_empty(
    patch: Seq<char>,
    files: Seq<Seq<char>>,
    i: int,
)
    requires
        changes_of(patch).len() > 0,
        0 <= i < offline_plan(patch, files).len(),
    ensures
        offline_plan(patch, files)[i].whole.len() > 0,
        offline_plan(patch, files)[i].partial.len() == 0,
{
    let changes = changes_of(patch);
    lemma_topics_are_ordered(changes);
    let t = topics_of(changes)[i];
    let k = choose|k: int| 0 <= k < changes.len() && topic_of(#[trigger] changes[k]) == t;
    lemma_filter_not_empty(changes, t, k);
}

proof fn lemma_filter_not_empty(changes: Seq<ChangeView>, t: Topic, k: int)
    requires
        0 <= k < changes.len(),
        topic_of(changes[k]) == t,
    ensures
        bucket(changes, t).len() > 0,
    decreases changes.len(),
{
    let front = changes.drop_last();
    assert(changes =~= front.push(changes.last()));
    front.lemma_filter_push(changes.last(), on_topic(t));
    if k < front.len() {
        lemma_filter_not_empty(front, t, k);
    }
}

// ── an offline plan is accepted ─────────────────────────────────────

/// A plan without hunk claims splits nothing.
proof fn lemma_whole_plan_splits_nothing(plan: Seq<GroupView>)
    requires
        forall|i: int| 0 <= i < plan.len() ==> (#[trigger] plan[i]).partial.len() == 0,
    ensures
        part_paths(plan).len() == 0,
    decreases plan.len(),
{
    if plan.len() > 0 {
        let front = plan.drop_last();
        assert(plan[plan.len() - 1] == plan.last());
        assert forall|i: int| 0 <= i < front.len() implies (#[trigger] front[i]).partial.len() == 0 by {
            assert(front[i] == plan[i]);
        }
        lemma_whole_plan_splits_nothing(front);
    }
}

proof fn lemma_record_found(files: Seq<FileView>, i: int)
    requires
        0 <= i < files.len(),
    ensures
        record(files, files[i].path) is Some,
    decreases files.len(),
{
    if i < files.len() - 1 {
        lemma_record_found(files.drop_last(), i);
    }
}

/// An offline plan is accepted where the diff changes no file twice and its
/// records are for the files that it changes.
pub proof fn lemma_offline_plan_is_accepted(
    records: Seq<FileView>,
    patch: Seq<char>,
    files: Seq<Seq<char>>,
)
    requires
        changes_of(patch).len() > 0,
        change_paths(changes_of(patch)).no_duplicates(),
        forall|i: int|
            0 <= i < records.len() ==> change_paths(changes_of(patch)).contains(
                (#[trigger] records[i]).path,
            ),
        forall|k: int|
            0 <= k < changes_of(patch).len() ==> exists|i: int|
                0 <= i < records.len() && (#[trigger] records[i]).path == (#[trigger] changes_of(
                    patch,
                )[k]).path,
    ensures
        plan_fault(
            records,
            offline_plan(patch, files),
            whole_paths(offline_plan(patch, files)),
        ) is None,
{
    let plan = offline_plan(patch, files);
    let changes = changes_of(patch);
    let paths = change_paths(changes);
    let all = whole_paths(plan);
    assert forall|i: int| 0 <= i < plan.len() implies (#[trigger] plan[i]).whole.len() > 0
        && plan[i].partial.len() == 0 by {
        lemma_offline_commits_are_not_empty(patch, files, i);
    }
    lemma_plan_claims_its_groups(plan);
    lemma_whole_plan_splits_nothing(plan);
    let claims = plan_claims(plan);
    assert forall|p: Seq<char>| #[trigger] times(all, p) <= 1 by {
        lemma_offline_plan_keeps_every_file(patch, files, p);
        lemma_times_at_most_once(paths, p);
    }
    lemma_at_most_once(all);
    assert forall|p: Seq<char>| #[trigger] all.contains(p) <==> paths.contains(p) by {
        lemma_offline_plan_keeps_every_file(patch, files, p);
        lemma_times_positive(all, p);
        lemma_times_positive(paths, p);
    }
    assert forall|p: Seq<char>| #[trigger] wholes(claims).contains(p) implies record(
        records,
        p,
    ) is Some && !splits(claims).contains(p) by {
        assert(all.contains(p));
        let k = choose|k: int| 0 <= k < paths.len() && paths[k] == p;
        assert(changes[k].path == p);
        let i = choose|i: int| 0 <= i < records.len() && (#[trigger] records[i]).path == changes[k].path;
        lemma_record_found(records, i);
    }
    assert forall|p: Seq<char>| #[trigger] sound_ids(records, claims, p) by {
        if hunk_ids(claims, p).len() > 0 {
            lemma_claimed_hunk_is_split(plan, p);
        }
    }
    assert(sound_claims(records, claims));
    assert forall|i: int| 0 <= i < records.len() implies covered(claims, #[trigger] records[i]) by {
        assert(all.contains(records[i].path));
    }
    assert forall|i: int| 0 <= i < all.len() implies claimed(claims, #[trigger] all[i]) by {
        assert(all.contains(all[i]));
    }
    assert(partitions(records, plan, all));
    lemma_accepted_iff_partition(records, plan, all);
}

} // verus!
