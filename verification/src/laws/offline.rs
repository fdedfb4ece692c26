//! What an offline plan is made of.

use vstd::prelude::*;

use crate::analysis::CollectedDiff;
use crate::commit::changes::{changes_of, stem_of, subject_of, ChangeType, ChangeView, FileKind};
use crate::commit::offline::{by_topic, offline_commit_message, offline_plan, topic_less, topics_of};
use crate::commit::offline_laws::lemma_topics_are_ordered;
use crate::laws::changes::lemma_the_subject_speaks_of_code;
use crate::order::text_less;
use crate::text::texts;

verus! {

/// Offline commits come in the order of their types: features, fixes,
/// restructurings, documentation, tests, the build, chores. Of one type, those
/// without a scope come first, and the others in the order of their scopes.
pub proof fn lemma_the_order_of_offline_commits(
    patch: Seq<char>,
    i: int,
    j: int,
    x: Option<Seq<char>>,
    y: Option<Seq<char>>,
    s: Seq<char>,
    t: Seq<char>,
    kind: ChangeType,
)
    ensures
        topic_less((ChangeType::Feat, x), (ChangeType::Fix, y)),
        topic_less((ChangeType::Fix, x), (ChangeType::Refactor, y)),
        topic_less((ChangeType::Refactor, x), (ChangeType::Docs, y)),
        topic_less((ChangeType::Docs, x), (ChangeType::Test, y)),
        topic_less((ChangeType::Test, x), (ChangeType::Build, y)),
        topic_less((ChangeType::Build, x), (ChangeType::Chore, y)),
        topic_less((kind, None), (kind, Some(s))),
        topic_less((kind, Some(s)), (kind, Some(t))) <==> text_less(s, t),
        0 <= i < j < topics_of(changes_of(patch)).len() ==> topic_less(
            topics_of(changes_of(patch))[i],
            topics_of(changes_of(patch))[j],
        ),
{
    lemma_topics_are_ordered(changes_of(patch));
    if 0 <= i < j < topics_of(changes_of(patch)).len() {
        let less = by_topic();
        assert(less(topics_of(changes_of(patch))[i], topics_of(changes_of(patch))[j]));
    }
}

/// The word of each type is one that a changelog knows: a commit of the type is
/// listed under the heading of the type.
pub proof fn lemma_types_are_known_to_changelogs()
    ensures
        crate::changelog::category_of(ChangeType::Feat.word()) == "Features"@,
        crate::changelog::category_of(ChangeType::Fix.word()) == "Bug Fixes"@,
        crate::changelog::category_of(ChangeType::Refactor.word()) == "Refactoring"@,
        crate::changelog::category_of(ChangeType::Docs.word()) == "Documentation"@,
        crate::changelog::category_of(ChangeType::Test.word()) == "Tests"@,
        crate::changelog::category_of(ChangeType::Build.word()) == "Build System"@,
        crate::changelog::category_of(ChangeType::Chore.word()) == "Chores & Maintenance"@,
{
    reveal_strlit("feat");
    reveal_strlit("fix");
    reveal_strlit("refactor");
    reveal_strlit("docs");
    reveal_strlit("test");
    reveal_strlit("build");
    reveal_strlit("chore");
    reveal_strlit("perf");
    reveal_strlit("style");
    reveal_strlit("ci");
    assert("feat"@[0] == 'f' && "feat"@.len() == 4);
    assert("fix"@.len() == 3 && "refactor"@.len() == 8 && "ci"@.len() == 2);
    assert("docs"@[0] == 'd' && "docs"@.len() == 4);
    assert("test"@[0] == 't' && "test"@.len() == 4);
    assert("perf"@[0] == 'p' && "perf"@.len() == 4);
    assert("build"@[0] == 'b' && "build"@.len() == 5);
    assert("chore"@[0] == 'c' && "chore"@.len() == 5);
    assert("style"@[0] == 's' && "style"@.len() == 5);
}

/// Where a patch shows no change of a file, the offline plan is one chore with
/// all files. The offline message is that of the first commit of the plan.
pub proof fn lemma_patches_without_changes(
    patch: Seq<char>,
    files: Seq<Seq<char>>,
    collected: &CollectedDiff,
    r: String,
)
    requires
        changes_of(patch).len() == 0,
        call_ensures(offline_commit_message, (collected,), r),
    ensures
        offline_plan(patch, files).len() == 1,
        offline_plan(patch, files)[0].message == "chore: update working changes"@,
        offline_plan(patch, files)[0].whole == files,
        offline_plan(patch, files)[0].partial.len() == 0,
        offline_plan(collected.patch@, texts(collected.files@)).len() > 0 ==> r@ == offline_plan(
            collected.patch@,
            texts(collected.files@),
        )[0].message,
{
    reveal_strlit("chore");
    reveal_strlit(": update working changes");
    reveal_strlit("chore: update working changes");
    assert("chore"@ + ": update working changes"@ =~= "chore: update working changes"@);
}

/// The subject of a change says what happens to the file, by its name without
/// the extension.
pub proof fn lemma_the_subject_of_one_change(change: ChangeView)
    ensures
        subject_of(seq![change]) == (match change.kind {
            FileKind::Added => "add "@,
            FileKind::Deleted => "remove "@,
            FileKind::Modified => "update "@,
        }) + stem_of(change.path),
{
    reveal_strlit("add");
    reveal_strlit("remove");
    reveal_strlit("update");
    reveal_strlit("add ");
    reveal_strlit("remove ");
    reveal_strlit("update ");
    reveal_strlit(" ");
    assert("add"@ + " "@ =~= "add "@);
    assert("remove"@ + " "@ =~= "remove "@);
    assert("update"@ + " "@ =~= "update "@);
    lemma_the_subject_speaks_of_code(seq![change]);
}

} // verus!
