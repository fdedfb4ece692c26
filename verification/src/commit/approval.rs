//! The approval of a plan: nothing is committed before the user accepts it.

use vstd::prelude::*;

use crate::analysis::{change_group_views, ChangeGroup, ChangeGroupView};
use crate::commit::answers::{choice_of, prompt_choice, prompt_line, Choice};
use crate::commit::proposal::{describe_group, group_text};
use crate::engine::coverage::lemma_accepted_iff_partition;
use crate::engine::hunks::{
    file_of, file_views, lemma_sections_keep_every_line, parsed, preamble, sections, FileDiff,
    FileView,
};
use crate::engine::plan::{group_claims, group_views, plan_claims, plan_fault, GroupView, PlanGroup};
use crate::number::{count, decimal_of};
use crate::pieces::{lemma_lines_are_no_more_than_characters, lines_of};
use crate::text::{chars_of, text, text_of, text_ref, texts, trim, trimmed};

verus! {

// ── what is shown ───────────────────────────────────────────────────

/// The question about a single message.
pub open spec fn single_question() -> Seq<char> {
    "\nUse this message? [a]ccept · [e]dit · [c]ancel (a/Enter): "@
}

/// The question about a whole plan.
pub open spec fn split_question() -> Seq<char> {
    "Approve whole plan? [a]pprove · [e]dit messages · [c]ancel (a): "@
}

/// The rationale for a group of the plan; empty where there is none.
pub open spec fn rationale_of(groups: Seq<ChangeGroupView>, i: int) -> Seq<char> {
    if 0 <= i < groups.len() {
        groups[i].rationale
    } else {
        Seq::empty()
    }
}

/// One entry of the proposed split, numbered from one.
pub open spec fn split_entry(group: GroupView, number: nat, rationale: Seq<char>) -> Seq<char> {
    decimal_of(number) + ". "@ + group.message + "\n"@ + (if group_text(group).len() > 0 {
        "   files: "@ + group_text(group) + "\n"@
    } else {
        Seq::empty()
    }) + (if rationale.len() > 0 {
        "   why:   "@ + rationale + "\n"@
    } else {
        Seq::empty()
    }) + "\n"@
}

/// The entries of the proposed split.
pub open spec fn split_entries(plan: Seq<GroupView>, groups: Seq<ChangeGroupView>) -> Seq<char>
    decreases plan.len(),
{
    if plan.len() == 0 {
        Seq::empty()
    } else {
        split_entries(plan.drop_last(), groups) + split_entry(
            plan.last(),
            plan.len(),
            rationale_of(groups, plan.len() - 1),
        )
    }
}

/// How many hunks the files have.
pub open spec fn total_hunks(files: Seq<FileView>) -> nat
    decreases files.len(),
{
    if files.len() == 0 {
        0
    } else {
        total_hunks(files.drop_last()) + files.last().hunks.len()
    }
}

/// Some group claims hunks.
pub open spec fn splits_a_file(plan: Seq<GroupView>) -> bool {
    exists|i: int| 0 <= i < plan.len() && (#[trigger] plan[i]).partial.len() > 0
}

/// The proposed split as it is shown.
pub open spec fn split_text(
    plan: Seq<GroupView>,
    groups: Seq<ChangeGroupView>,
    hint: Option<Seq<char>>,
    files: Seq<FileView>,
) -> Seq<char> {
    "\nThis changeset looks mixed — proposed split into "@ + decimal_of(plan.len()) + " commits:\n"@
        + (match hint {
        Some(h) => "  local hint: "@ + h + "\n"@,
        None => Seq::empty(),
    }) + "\n"@ + split_entries(plan, groups) + (if splits_a_file(plan) {
        "All "@ + decimal_of(total_hunks(files)) + " hunks across "@ + decimal_of(files.len())
            + " changed files are accounted for.\n\n"@
    } else {
        Seq::empty()
    })
}

fn count_hunks(files: &[FileDiff]) -> (r: usize)
    requires
        total_hunks(file_views(files@)) <= usize::MAX,
    ensures
        r == total_hunks(file_views(files@)),
{
    let ghost all = file_views(files@);
    let mut n: usize = 0;
    for i in 0..files.len()
        invariant
            all == file_views(files@),
            total_hunks(all) <= usize::MAX,
            n == total_hunks(all.take(i as int)),
    {
        proof {
            lemma_total_hunks_grows(all, i + 1);
            assert(all.take(i + 1).drop_last() =~= all.take(i as int));
            assert(all.take(i + 1).last() == files@[i as int]@);
            assert(files@[i as int]@.hunks.len() == files@[i as int].hunks@.len());
        }
        n = n + files[i].hunks.len();
    }
    assert(all.take(all.len() as int) =~= all);
    n
}

proof fn lemma_total_hunks_grows(files: Seq<FileView>, n: int)
    requires
        0 <= n <= files.len(),
    ensures
        total_hunks(files.take(n)) <= total_hunks(files),
    decreases files.len() - n,
{
    if n < files.len() {
        lemma_total_hunks_grows(files, n + 1);
        assert(files.take(n + 1).drop_last() =~= files.take(n));
    } else {
        assert(files.take(n) =~= files);
    }
}

/// Whether some group claims hunks.
pub fn has_partial(plan: &[PlanGroup]) -> (r: bool)
    ensures
        r == splits_a_file(group_views(plan@)),
{
    let ghost all = group_views(plan@);
    for i in 0..plan.len()
        invariant
            all == group_views(plan@),
            forall|j: int| 0 <= j < i ==> (#[trigger] all[j]).partial.len() == 0,
    {
        assert(all[i as int].partial.len() == plan@[i as int].partial@.len());
        if plan[i].partial.len() > 0 {
            return true;
        }
    }
    false
}

fn write_entry(group: &PlanGroup, number: usize, rationale: &str) -> (r: String)
    ensures
        r@ == split_entry(group@, number as nat, rationale@),
{
    let mut entry = count(number);
    entry.append(". ");
    entry.append(group.message.as_str());
    entry.append("\n");
    let ghost head = entry@;
    let files = describe_group(group);
    if chars_of(files.as_str()).len() > 0 {
        entry.append("   files: ");
        entry.append(files.as_str());
        entry.append("\n");
        assert(entry@ =~= head + ("   files: "@ + files@ + "\n"@));
    } else {
        assert(entry@ =~= head + Seq::empty());
    }
    let ghost with_files = entry@;
    if chars_of(rationale).len() > 0 {
        entry.append("   why:   ");
        entry.append(rationale);
        entry.append("\n");
        assert(entry@ =~= with_files + ("   why:   "@ + rationale@ + "\n"@));
    } else {
        assert(entry@ =~= with_files + Seq::empty());
    }
    entry.append("\n");
    entry
}

fn write_entries(out: String, plan: &[PlanGroup], groups: &[ChangeGroup]) -> (r: String)
    ensures
        r@ == out@ + split_entries(group_views(plan@), change_group_views(groups@)),
{
    let ghost head = out@;
    let ghost all = group_views(plan@);
    let ghost given = change_group_views(groups@);
    let mut out = out;
    assert(head + split_entries(all.take(0), given) =~= head);
    for i in 0..plan.len()
        invariant
            all == group_views(plan@),
            given == change_group_views(groups@),
            out@ == head + split_entries(all.take(i as int), given),
    {
        assert(all.take(i + 1).drop_last() =~= all.take(i as int));
        assert(all.take(i + 1).last() == plan@[i as int]@);
        let entry = if i < groups.len() {
            assert(given[i as int] == groups@[i as int]@);
            write_entry(&plan[i], i + 1, groups[i].rationale.as_str())
        } else {
            assert(""@ =~= Seq::<char>::empty()) by {
                reveal_strlit("");
            }
            write_entry(&plan[i], i + 1, "")
        };
        out.append(entry.as_str());
        assert(out@ =~= head + split_entries(all.take(i + 1), given));
    }
    assert(all.take(all.len() as int) =~= all);
    out
}

/// Show a proposed split.
pub fn show_split(
    plan: &[PlanGroup],
    groups: &[ChangeGroup],
    hint: Option<&str>,
    files: &[FileDiff],
) -> (r: String)
    requires
        total_hunks(file_views(files@)) <= usize::MAX,
    ensures
        r@ == split_text(
            group_views(plan@),
            change_group_views(groups@),
            text_ref(hint),
            file_views(files@),
        ),
{
    let mut out = "\nThis changeset looks mixed — proposed split into ".to_owned();
    out.append(count(plan.len()).as_str());
    out.append(" commits:\n");
    let ghost head = out@;
    match hint {
        Some(h) => {
            out.append("  local hint: ");
            out.append(h);
            out.append("\n");
        },
        None => {},
    }
    out.append("\n");
    let mut out = write_entries(out, plan, groups);
    if has_partial(plan) {
        out.append("All ");
        out.append(count(count_hunks(files)).as_str());
        out.append(" hunks across ");
        out.append(count(files.len()).as_str());
        out.append(" changed files are accounted for.\n\n");
    }
    assert(out@ =~= split_text(
        group_views(plan@),
        change_group_views(groups@),
        text_ref(hint),
        file_views(files@),
    ));
    out
}

/// The plan as it is shown after its messages were edited.
pub open spec fn updated_entries(plan: Seq<GroupView>) -> Seq<char>
    decreases plan.len(),
{
    if plan.len() == 0 {
        Seq::empty()
    } else {
        updated_entries(plan.drop_last()) + decimal_of(plan.len()) + ". "@ + plan.last().message
            + " — files: "@ + group_text(plan.last()) + "\n"@
    }
}

/// The updated plan.
pub open spec fn updated_text(plan: Seq<GroupView>) -> Seq<char> {
    "\nUpdated plan:\n"@ + updated_entries(plan)
}

fn show_updated(plan: &[PlanGroup]) -> (r: String)
    ensures
        r@ == updated_text(group_views(plan@)),
{
    let ghost all = group_views(plan@);
    let mut out = "\nUpdated plan:\n".to_owned();
    let ghost head = out@;
    assert(head + updated_entries(all.take(0)) =~= head);
    for i in 0..plan.len()
        invariant
            all == group_views(plan@),
            out@ == head + updated_entries(all.take(i as int)),
    {
        assert(all.take(i + 1).drop_last() =~= all.take(i as int));
        assert(all.take(i + 1).last() == plan@[i as int]@);
        out.append(count(i + 1).as_str());
        out.append(". ");
        out.append(plan[i].message.as_str());
        out.append(" — files: ");
        out.append(describe_group(&plan[i]).as_str());
        out.append("\n");
        assert(out@ =~= head + updated_entries(all.take(i + 1)));
    }
    assert(all.take(all.len() as int) =~= all);
    out
}

// ── editing messages ────────────────────────────────────────────────

/// The question for the message of a group.
pub open spec fn message_question(group: GroupView, number: nat, total: nat) -> Seq<char> {
    "Message "@ + decimal_of(number) + "/"@ + decimal_of(total) + " (current: \""@ + group.message
        + "\"): "@
}

/// The questions for the messages of a plan.
pub open spec fn message_questions(plan: Seq<GroupView>) -> Seq<Seq<char>> {
    Seq::new(plan.len(), |i: int| message_question(plan[i], (i + 1) as nat, plan.len()))
}

/// The group with the answer as its message; no answer or a blank one keeps the
/// message.
pub open spec fn with_message(group: GroupView, answer: Option<Seq<char>>) -> GroupView {
    match answer {
        Some(line) => if trimmed(line).len() > 0 {
            GroupView { message: trimmed(line), whole: group.whole, partial: group.partial }
        } else {
            group
        },
        None => group,
    }
}

/// The answers as texts.
pub open spec fn answer_views(answers: Seq<Option<String>>) -> Seq<Option<Seq<char>>> {
    answers.map_values(|a: Option<String>| text(a))
}

/// The plan with each answer as the message of its group. Groups without an
/// answer keep their message.
pub open spec fn edited_plan(
    plan: Seq<GroupView>,
    answers: Seq<Option<Seq<char>>>,
) -> Seq<GroupView> {
    Seq::new(
        plan.len(),
        |i: int|
            with_message(
                plan[i],
                if i < answers.len() {
                    answers[i]
                } else {
                    None
                },
            ),
    )
}

fn ask_messages(plan: &[PlanGroup]) -> (r: Vec<String>)
    ensures
        texts(r@) == message_questions(group_views(plan@)),
{
    let ghost all = group_views(plan@);
    let mut out: Vec<String> = Vec::new();
    for i in 0..plan.len()
        invariant
            all == group_views(plan@),
            out@.len() == i,
            forall|j: int|
                0 <= j < i ==> (#[trigger] out@[j])@ == message_question(
                    all[j],
                    (j + 1) as nat,
                    all.len(),
                ),
    {
        assert(all[i as int] == plan@[i as int]@);
        let mut question = "Message ".to_owned();
        question.append(count(i + 1).as_str());
        question.append("/");
        question.append(count(plan.len()).as_str());
        question.append(" (current: \"");
        question.append(plan[i].message.as_str());
        question.append("\"): ");
        out.push(question);
    }
    assert(texts(out@) =~= message_questions(all));
    out
}

fn set_message(group: &mut PlanGroup, answer: &Option<String>)
    ensures
        final(group)@ == with_message(old(group)@, text(*answer)),
{
    match answer {
        Some(line) => {
            let chars = chars_of(line.as_str());
            let message = trim(chars.as_slice());
            if message.len() > 0 {
                group.message = text_of(message);
            }
        },
        None => {},
    }
}

/// Replace the messages of a plan by the answers.
pub fn edit_plan_messages(plan: &mut Vec<PlanGroup>, answers: &[Option<String>])
    ensures
        group_views(final(plan)@) == edited_plan(group_views(old(plan)@), answer_views(answers@)),
{
    let ghost given = plan@;
    let ghost texts_in = answer_views(answers@);
    let n = plan.len();
    for i in 0..n
        invariant
            n == plan@.len(),
            given == old(plan)@,
            given.len() == n,
            texts_in == answer_views(answers@),
            forall|j: int|
                0 <= j < i ==> (#[trigger] plan@[j])@ == edited_plan(group_views(given), texts_in)[j],
            forall|j: int| i <= j < n ==> #[trigger] plan@[j] == given[j],
    {
        assert(group_views(given)[i as int] == given[i as int]@);
        if i < answers.len() {
            assert(texts_in[i as int] == text(answers@[i as int]));
            set_message(&mut plan[i], &answers[i]);
        }
    }
    assert(group_views(plan@) =~= edited_plan(group_views(given), texts_in));
}

// ── the dialogue ────────────────────────────────────────────────────

/// Where the approval stands.
#[derive(Debug, Clone, Copy, PartialEq, Eq, Structural)]
pub enum ApprovalStage {
    /// The question is asked.
    Choosing,
    /// New messages are asked for.
    Editing,
}

/// A plan that waits for approval.
#[derive(Debug)]
pub struct Approval {
    pub plan: Vec<PlanGroup>,
    /// Whether one message is to be approved, and not a split.
    pub single: bool,
    pub stage: ApprovalStage,
}

/// What the user answered.
#[derive(Debug)]
pub enum ApprovalEvent {
    /// A line; empty at the end of the input.
    Line(String),
    /// An answer for each message.
    Messages(Vec<Option<String>>),
}

/// What to do next.
#[derive(Debug)]
pub enum ApprovalAction {
    /// Ask for a line.
    Ask(String),
    /// Ask for a line for each question.
    AskEach(Vec<String>),
    /// Carry the plan out.
    Execute,
    /// Give up; nothing was changed.
    Cancel,
}

/// What to print, and what to do next.
#[derive(Debug)]
pub struct ApprovalStep {
    pub say: String,
    pub action: ApprovalAction,
}

/// An approval with its plan as texts.
pub struct ApprovalView {
    pub plan: Seq<GroupView>,
    pub single: bool,
    pub stage: ApprovalStage,
}

/// An event with its texts.
pub enum ApprovalEventView {
    Line(Seq<char>),
    Messages(Seq<Option<Seq<char>>>),
}

/// An action with its texts.
pub enum ApprovalActionView {
    Ask(Seq<char>),
    AskEach(Seq<Seq<char>>),
    Execute,
    Cancel,
}

/// A step with its texts.
pub struct ApprovalStepView {
    pub say: Seq<char>,
    pub action: ApprovalActionView,
}

impl View for Approval {
    type V = ApprovalView;

    open spec fn view(&self) -> ApprovalView {
        ApprovalView { plan: group_views(self.plan@), single: self.single, stage: self.stage }
    }
}

impl View for ApprovalEvent {
    type V = ApprovalEventView;

    open spec fn view(&self) -> ApprovalEventView {
        match self {
            ApprovalEvent::Line(line) => ApprovalEventView::Line(line@),
            ApprovalEvent::Messages(answers) => ApprovalEventView::Messages(
                answer_views(answers@),
            ),
        }
    }
}

impl View for ApprovalAction {
    type V = ApprovalActionView;

    open spec fn view(&self) -> ApprovalActionView {
        match self {
            ApprovalAction::Ask(question) => ApprovalActionView::Ask(question@),
            ApprovalAction::AskEach(questions) => ApprovalActionView::AskEach(texts(questions@)),
            ApprovalAction::Execute => ApprovalActionView::Execute,
            ApprovalAction::Cancel => ApprovalActionView::Cancel,
        }
    }
}

impl View for ApprovalStep {
    type V = ApprovalStepView;

    open spec fn view(&self) -> ApprovalStepView {
        ApprovalStepView { say: self.say@, action: self.action@ }
    }
}

/// The question that is asked of this plan.
pub open spec fn question_for(single: bool) -> Seq<char> {
    if single {
        single_question()
    } else {
        split_question()
    }
}

/// The state and the step that follow an answer to the question.
pub open spec fn after_choice(
    before: ApprovalView,
    choice: Option<Choice>,
) -> (ApprovalView, ApprovalStepView) {
    match choice {
        None => (
            before,
            ApprovalStepView {
                say: "Please answer a, e, or c (Enter = accept).\n"@,
                action: ApprovalActionView::Ask(question_for(before.single)),
            },
        ),
        Some(Choice::Accept) => (
            before,
            ApprovalStepView { say: Seq::empty(), action: ApprovalActionView::Execute },
        ),
        Some(Choice::Edit) => (
            ApprovalView { stage: ApprovalStage::Editing, ..before },
            ApprovalStepView {
                say: Seq::empty(),
                action: if before.single {
                    ApprovalActionView::Ask("New message: "@)
                } else {
                    ApprovalActionView::AskEach(message_questions(before.plan))
                },
            },
        ),
        Some(Choice::Cancel) => (
            before,
            ApprovalStepView {
                say: "Commit cancelled, nothing was changed.\n"@,
                action: ApprovalActionView::Cancel,
            },
        ),
    }
}

/// The first group with a new message; a blank one keeps the message.
pub open spec fn with_first_message(plan: Seq<GroupView>, line: Seq<char>) -> Seq<GroupView> {
    if plan.len() == 0 {
        plan
    } else {
        plan.update(0, with_message(plan[0], Some(line)))
    }
}

/// What is said after the message of a single commit was edited.
pub open spec fn edited_text(plan: Seq<GroupView>, line: Seq<char>) -> Seq<char> {
    (if trimmed(line).len() == 0 {
        "Empty input — keeping the current message.\n"@
    } else {
        Seq::empty()
    }) + "\nMessage:\n  "@ + (if plan.len() > 0 {
        with_message(plan[0], Some(line)).message
    } else {
        Seq::empty()
    }) + "\n"@
}

/// The state and the step that follow an event. New messages of a split come
/// as a list, everything else as a line.
pub open spec fn next_approval(
    before: ApprovalView,
    event: ApprovalEventView,
) -> (ApprovalView, ApprovalStepView) {
    match event {
        ApprovalEventView::Line(line) => if before.stage == ApprovalStage::Editing && before.single {
            (
                ApprovalView {
                    plan: with_first_message(before.plan, line),
                    single: true,
                    stage: ApprovalStage::Choosing,
                },
                ApprovalStepView {
                    say: edited_text(before.plan, line),
                    action: ApprovalActionView::Ask(single_question()),
                },
            )
        } else if before.stage == ApprovalStage::Choosing {
            after_choice(before, choice_of(line))
        } else {
            (
                before,
                ApprovalStepView {
                    say: Seq::empty(),
                    action: ApprovalActionView::AskEach(message_questions(before.plan)),
                },
            )
        },
        ApprovalEventView::Messages(answers) => if before.stage == ApprovalStage::Editing
            && !before.single {
            let plan = edited_plan(before.plan, answers);
            (
                ApprovalView { plan, single: false, stage: ApprovalStage::Choosing },
                ApprovalStepView {
                    say: updated_text(plan),
                    action: ApprovalActionView::Ask(split_question()),
                },
            )
        } else {
            (
                before,
                ApprovalStepView {
                    say: Seq::empty(),
                    action: ApprovalActionView::Ask(
                        if before.stage == ApprovalStage::Editing {
                            "New message: "@
                        } else {
                            question_for(before.single)
                        },
                    ),
                },
            )
        },
    }
}

/// The action that an approval waits for.
pub open spec fn approval_action_of(v: ApprovalView) -> ApprovalActionView {
    match v.stage {
        ApprovalStage::Choosing => ApprovalActionView::Ask(question_for(v.single)),
        ApprovalStage::Editing => if v.single {
            ApprovalActionView::Ask("New message: "@)
        } else {
            ApprovalActionView::AskEach(message_questions(v.plan))
        },
    }
}

fn question(single: bool) -> (r: String)
    ensures
        r@ == question_for(single),
{
    if single {
        "\nUse this message? [a]ccept · [e]dit · [c]ancel (a/Enter): ".to_owned()
    } else {
        "Approve whole plan? [a]pprove · [e]dit messages · [c]ancel (a): ".to_owned()
    }
}

fn silent(action: ApprovalAction) -> (r: ApprovalStep)
    ensures
        r@ == (ApprovalStepView { say: Seq::empty(), action: action@ }),
{
    let say = String::new();
    assert(say@ =~= Seq::empty());
    ApprovalStep { say, action }
}

impl Approval {
    /// The action that is waited for.
    pub fn action(&self) -> (r: ApprovalAction)
        ensures
            r@ == approval_action_of(self@),
    {
        match self.stage {
            ApprovalStage::Choosing => ApprovalAction::Ask(question(self.single)),
            ApprovalStage::Editing => if self.single {
                ApprovalAction::Ask("New message: ".to_owned())
            } else {
                ApprovalAction::AskEach(ask_messages(self.plan.as_slice()))
            },
        }
    }

    fn decide(&mut self, line: &str) -> (r: ApprovalStep)
        ensures
            (final(self)@, r@) == after_choice(old(self)@, choice_of(line@)),
    {
        match prompt_choice(line) {
            None => ApprovalStep {
                say: "Please answer a, e, or c (Enter = accept).\n".to_owned(),
                action: ApprovalAction::Ask(question(self.single)),
            },
            Some(Choice::Accept) => silent(ApprovalAction::Execute),
            Some(Choice::Edit) => {
                self.stage = ApprovalStage::Editing;
                if self.single {
                    silent(ApprovalAction::Ask("New message: ".to_owned()))
                } else {
                    silent(ApprovalAction::AskEach(ask_messages(self.plan.as_slice())))
                }
            },
            Some(Choice::Cancel) => ApprovalStep {
                say: "Commit cancelled, nothing was changed.\n".to_owned(),
                action: ApprovalAction::Cancel,
            },
        }
    }

    fn replace_message(&mut self, line: String) -> (r: ApprovalStep)
        requires
            old(self).single,
            old(self).stage == ApprovalStage::Editing,
        ensures
            (final(self)@, r@) == next_approval(old(self)@, ApprovalEventView::Line(line@)),
    {
        let ghost before = self@;
        let ghost given = self.plan@;
        let typed = prompt_line(line.as_str());
        let mut say = String::new();
        assert(say@ =~= Seq::empty());
        if chars_of(typed.as_str()).len() == 0 {
            say.append("Empty input — keeping the current message.\n");
            assert(say@ =~= "Empty input — keeping the current message.\n"@);
        }
        say.append("\nMessage:\n  ");
        let answer: Option<String> = Some(line);
        if self.plan.len() > 0 {
            set_message(&mut self.plan[0], &answer);
            assert(given[0]@ == before.plan[0]);
            assert(self.plan@[0]@ == with_message(before.plan[0], Some(line@)));
            assert(group_views(self.plan@) =~= with_first_message(before.plan, line@));
            say.append(self.plan[0].message.as_str());
        } else {
            assert(group_views(self.plan@) =~= with_first_message(before.plan, line@));
        }
        say.append("\n");
        self.stage = ApprovalStage::Choosing;
        assert(say@ =~= edited_text(before.plan, line@));
        ApprovalStep { say, action: ApprovalAction::Ask(question(true)) }
    }

    /// Take the dialogue one step further.
    pub fn answer(&mut self, event: ApprovalEvent) -> (r: ApprovalStep)
        ensures
            (final(self)@, r@) == next_approval(old(self)@, event@),
    {
        let ghost before = self@;
        match event {
            ApprovalEvent::Line(line) => match self.stage {
                ApprovalStage::Choosing => self.decide(line.as_str()),
                ApprovalStage::Editing => if self.single {
                    self.replace_message(line)
                } else {
                    silent(ApprovalAction::AskEach(ask_messages(self.plan.as_slice())))
                },
            },
            ApprovalEvent::Messages(answers) => match self.stage {
                ApprovalStage::Choosing => silent(ApprovalAction::Ask(question(self.single))),
                ApprovalStage::Editing => if self.single {
                    silent(ApprovalAction::Ask("New message: ".to_owned()))
                } else {
                    edit_plan_messages(&mut self.plan, answers.as_slice());
                    self.stage = ApprovalStage::Choosing;
                    ApprovalStep {
                        say: show_updated(self.plan.as_slice()),
                        action: ApprovalAction::Ask(question(false)),
                    }
                },
            },
        }
    }
}

// ── opening the dialogue ────────────────────────────────────────────

/// Why a single commit cannot be proposed, where it cannot.
pub open spec fn single_refusal(plan: Seq<GroupView>) -> Option<Seq<char>> {
    if plan.len() == 0 {
        Some(
            "The analysis returned no suggestions — nothing to base a commit message on.\nTry again, or commit manually with `git commit -m`."@,
        )
    } else if trimmed(plan[0].message).len() == 0 {
        Some(
            "The analysis returned an empty commit message — try again,\nor commit manually with `git commit -m`."@,
        )
    } else {
        None
    }
}

/// What is shown of a single commit.
pub open spec fn single_text(plan: Seq<GroupView>) -> Seq<char> {
    "\nProposed commit message:\n  "@ + trimmed(plan[0].message) + "\n"@
}

/// Propose a single commit.
pub fn commit_single(plan: Vec<PlanGroup>) -> (r: Result<(Approval, ApprovalStep), String>)
    ensures
        match r {
            Ok((approval, step)) => {
                &&& single_refusal(group_views(plan@)) is None
                &&& approval@ == (ApprovalView {
                    plan: group_views(plan@),
                    single: true,
                    stage: ApprovalStage::Choosing,
                })
                &&& step@ == (ApprovalStepView {
                    say: single_text(group_views(plan@)),
                    action: ApprovalActionView::Ask(single_question()),
                })
            },
            Err(why) => single_refusal(group_views(plan@)) == Some(why@),
        },
{
    assert(group_views(plan@).len() == plan@.len());
    if plan.len() == 0 {
        return Err(
            "The analysis returned no suggestions — nothing to base a commit message on.\nTry again, or commit manually with `git commit -m`.".to_owned(),
        );
    }
    assert(group_views(plan@)[0] == plan@[0]@);
    let message = prompt_line(plan[0].message.as_str());
    if chars_of(message.as_str()).len() == 0 {
        return Err(
            "The analysis returned an empty commit message — try again,\nor commit manually with `git commit -m`.".to_owned(),
        );
    }
    let mut say = "\nProposed commit message:\n  ".to_owned();
    say.append(message.as_str());
    say.append("\n");
    let step = ApprovalStep { say, action: ApprovalAction::Ask(question(true)) };
    Ok((Approval { plan, single: true, stage: ApprovalStage::Choosing }, step))
}

/// Propose a split into several commits.
pub fn commit_split(
    plan: Vec<PlanGroup>,
    groups: &[ChangeGroup],
    hint: Option<&str>,
    files: &[FileDiff],
) -> (r: (Approval, ApprovalStep))
    requires
        total_hunks(file_views(files@)) <= usize::MAX,
    ensures
        r.0@ == (ApprovalView {
            plan: group_views(plan@),
            single: false,
            stage: ApprovalStage::Choosing,
        }),
        r.1@ == (ApprovalStepView {
            say: split_text(
                group_views(plan@),
                change_group_views(groups@),
                text_ref(hint),
                file_views(files@),
            ),
            action: ApprovalActionView::Ask(split_question()),
        }),
{
    let say = show_split(plan.as_slice(), groups, hint, files);
    let step = ApprovalStep { say, action: ApprovalAction::Ask(question(false)) };
    (Approval { plan, single: false, stage: ApprovalStage::Choosing }, step)
}

// ── laws ────────────────────────────────────────────────────────────

/// A plan is carried out only after a line that accepts it: the end of the
/// input never accepts.
pub proof fn lemma_only_an_answer_approves(before: ApprovalView, event: ApprovalEventView)
    requires
        next_approval(before, event).1.action == ApprovalActionView::Execute,
    ensures
        before.stage == ApprovalStage::Choosing,
        event matches ApprovalEventView::Line(line) && line.len() > 0 && (trimmed(line) == ""@
            || trimmed(line) == "a"@ || trimmed(line) == "A"@),
        next_approval(before, event).0 == before,
{
}

/// While the dialogue goes on, each step asks what its state waits for.
pub proof fn lemma_steps_ask_what_is_waited_for(before: ApprovalView, event: ApprovalEventView)
    ensures
        ({
            let (after, step) = next_approval(before, event);
            step.action == ApprovalActionView::Execute || step.action == ApprovalActionView::Cancel
                || step.action == approval_action_of(after)
        }),
{
}

/// The plans are the same but for their messages.
pub open spec fn same_shape(a: Seq<GroupView>, b: Seq<GroupView>) -> bool {
    &&& a.len() == b.len()
    &&& forall|i: int|
        0 <= i < a.len() ==> (#[trigger] a[i]).whole == b[i].whole && a[i].partial == b[i].partial
}

/// Nothing that the user answers changes what the commits hold.
pub proof fn lemma_answers_change_only_messages(before: ApprovalView, event: ApprovalEventView)
    ensures
        same_shape(before.plan, next_approval(before, event).0.plan),
        next_approval(before, event).0.single == before.single,
{
}

proof fn lemma_same_claims(a: Seq<GroupView>, b: Seq<GroupView>)
    requires
        same_shape(a, b),
        forall|i: int| 0 <= i < a.len() ==> (#[trigger] a[i]).whole.len() + a[i].partial.len() > 0,
    ensures
        plan_claims(a) == plan_claims(b),
    decreases a.len(),
{
    if a.len() > 0 {
        let fa = a.drop_last();
        let fb = b.drop_last();
        assert forall|i: int| 0 <= i < fa.len() implies (#[trigger] fa[i]).whole == fb[i].whole
            && fa[i].partial == fb[i].partial && fa[i].whole.len() + fa[i].partial.len() > 0 by {
            assert(fa[i] == a[i] && fb[i] == b[i]);
        }
        lemma_same_claims(fa, fb);
        assert(a[a.len() - 1] == a.last() && b[b.len() - 1] == b.last());
        assert(group_claims(a.last(), a.len()) == group_claims(b.last(), b.len()));
    }
}

/// A plan that is accepted stays so when only its messages change.
pub proof fn lemma_messages_do_not_matter(
    files: Seq<FileView>,
    a: Seq<GroupView>,
    b: Seq<GroupView>,
    expected: Seq<Seq<char>>,
)
    requires
        same_shape(a, b),
        plan_fault(files, a, expected) is None,
    ensures
        plan_fault(files, b, expected) is None,
{
    lemma_accepted_iff_partition(files, a, expected);
    lemma_same_claims(a, b);
}

proof fn lemma_sections_are_no_more_than_lines(lines: Seq<Seq<char>>, marker: Seq<char>)
    ensures
        sections(lines, marker).len() <= lines.len(),
    decreases lines.len(),
{
    if lines.len() > 0 {
        lemma_sections_are_no_more_than_lines(lines.drop_last(), marker);
    }
}

proof fn lemma_hunks_within_sections(parts: Seq<Seq<Seq<char>>>)
    ensures
        total_hunks(parts.map_values(|s: Seq<Seq<char>>| file_of(s))) <= parts.flatten().len(),
    decreases parts.len(),
{
    let files = parts.map_values(|s: Seq<Seq<char>>| file_of(s));
    if parts.len() > 0 {
        let front = parts.drop_last();
        lemma_hunks_within_sections(front);
        assert(files.drop_last() =~= front.map_values(|s: Seq<Seq<char>>| file_of(s)));
        assert(parts =~= front.push(parts.last()));
        front.lemma_flatten_push(parts.last());
        lemma_sections_are_no_more_than_lines(parts.last(), "@@ "@);
        assert(files.last() == file_of(parts.last()));
    }
}

/// A diff has no more hunks than characters.
pub proof fn lemma_hunks_are_no_more_than_characters(diff: Seq<char>)
    ensures
        total_hunks(parsed(diff)) <= diff.len(),
{
    let all = lines_of(diff);
    lemma_lines_are_no_more_than_characters(diff);
    lemma_sections_keep_every_line(all, "diff --git "@);
    let parts = sections(all, "diff --git "@);
    assert((preamble(all, "diff --git "@) + parts.flatten()).len() == all.len());
    lemma_hunks_within_sections(parts);
}

} // verus!
