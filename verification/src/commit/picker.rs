//! The dialogue that picks the branch to commit to.

use vstd::prelude::*;

use crate::commit::branch::{is_valid_branch_name, valid_branch_name};
use crate::number::{
    count, decimal_of, lemma_decimal_digits, lemma_decimal_is_read_back, parse_unsigned,
    unsigned_of,
};
use crate::text::{
    chars_of, drop_back, drop_front, is_text, is_white_space, text, text_of, texts, trim, trimmed,
};

verus! {

/// What the user or git answered.
#[derive(Debug)]
pub enum BranchEvent {
    /// The list is to be shown.
    Start,
    /// The line that was typed at the list.
    Answer(String),
    /// The name that was typed for a new branch; none where input was aborted.
    Name(Option<String>),
    /// The new branch was made, or why not.
    Created { name: String, failure: Option<String> },
    /// The branch was checked out, or why not.
    Switched { name: String, failure: Option<String> },
}

/// What to do next.
#[derive(Debug)]
pub enum BranchAction {
    /// Ask for a line, with this prompt.
    Ask(String),
    /// Ask for the name of a new branch.
    AskName,
    /// Make a new branch and switch to it.
    Create(String),
    /// Switch to a branch.
    Checkout(String),
    /// Go on with the branch that is checked out.
    Finish,
}

/// What to print, and what to do next.
#[derive(Debug)]
pub struct BranchStep {
    pub say: String,
    pub action: BranchAction,
}

/// An event with its texts.
pub enum BranchEventView {
    Start,
    Answer(Seq<char>),
    Name(Option<Seq<char>>),
    Created { name: Seq<char>, failure: Option<Seq<char>> },
    Switched { name: Seq<char>, failure: Option<Seq<char>> },
}

/// An action with its texts.
pub enum BranchActionView {
    Ask(Seq<char>),
    AskName,
    Create(Seq<char>),
    Checkout(Seq<char>),
    Finish,
}

/// A step with its texts.
pub struct BranchStepView {
    pub say: Seq<char>,
    pub action: BranchActionView,
}

impl View for BranchEvent {
    type V = BranchEventView;

    open spec fn view(&self) -> BranchEventView {
        match self {
            BranchEvent::Start => BranchEventView::Start,
            BranchEvent::Answer(line) => BranchEventView::Answer(line@),
            BranchEvent::Name(name) => BranchEventView::Name(text(*name)),
            BranchEvent::Created { name, failure } => BranchEventView::Created {
                name: name@,
                failure: text(*failure),
            },
            BranchEvent::Switched { name, failure } => BranchEventView::Switched {
                name: name@,
                failure: text(*failure),
            },
        }
    }
}

impl View for BranchAction {
    type V = BranchActionView;

    open spec fn view(&self) -> BranchActionView {
        match self {
            BranchAction::Ask(prompt) => BranchActionView::Ask(prompt@),
            BranchAction::AskName => BranchActionView::AskName,
            BranchAction::Create(name) => BranchActionView::Create(name@),
            BranchAction::Checkout(name) => BranchActionView::Checkout(name@),
            BranchAction::Finish => BranchActionView::Finish,
        }
    }
}

impl View for BranchStep {
    type V = BranchStepView;

    open spec fn view(&self) -> BranchStepView {
        BranchStepView { say: self.say@, action: self.action@ }
    }
}

// ── what is said ────────────────────────────────────────────────────

/// The entries of the list, numbered from one.
pub open spec fn menu_entries(
    branches: Seq<Seq<char>>,
    current: Option<Seq<char>>,
) -> Seq<char>
    decreases branches.len(),
{
    if branches.len() == 0 {
        Seq::empty()
    } else {
        menu_entries(branches.drop_last(), current) + "  "@ + decimal_of(branches.len()) + ": "@
            + branches.last() + if current == Some(branches.last()) {
            " (current)\n"@
        } else {
            "\n"@
        }
    }
}

/// The list of branches.
pub open spec fn menu(branches: Seq<Seq<char>>, current: Option<Seq<char>>) -> Seq<char> {
    "\nChoose a branch to commit to:\n"@ + menu_entries(branches, current) + "  "@ + decimal_of(
        branches.len() + 1,
    ) + ": create a new branch\n\n"@
}

/// The question under the list.
pub open spec fn menu_prompt(n: nat) -> Seq<char> {
    "Enter a number [1-"@ + decimal_of(n + 1) + "] (or 'n' for a new branch): "@
}

/// Say something and show the list again.
pub open spec fn ask_again(
    said: Seq<char>,
    branches: Seq<Seq<char>>,
    current: Option<Seq<char>>,
) -> BranchStepView {
    BranchStepView {
        say: said + menu(branches, current),
        action: BranchActionView::Ask(menu_prompt(branches.len())),
    }
}

/// Say something and be done.
pub open spec fn finished(said: Seq<char>) -> BranchStepView {
    BranchStepView { say: said, action: BranchActionView::Finish }
}

/// The answer asks for a new branch.
pub open spec fn asks_for_new(answer: Seq<char>, n: nat) -> bool {
    answer == "n"@ || answer == "N"@ || answer == decimal_of(n + 1)
}

/// What follows an answer to the list.
pub open spec fn after_answer(
    branches: Seq<Seq<char>>,
    current: Option<Seq<char>>,
    line: Seq<char>,
) -> BranchStepView {
    let answer = trimmed(line);
    let n = branches.len();
    if answer.len() == 0 {
        finished("No selection — committing on the current branch.\n"@)
    } else if asks_for_new(answer, n) {
        BranchStepView { say: Seq::empty(), action: BranchActionView::AskName }
    } else {
        match unsigned_of(answer, usize::MAX as nat) {
            None => ask_again("Please enter a number or 'n'.\n"@, branches, current),
            Some(number) => if 1 <= number <= n {
                let name = branches[number - 1];
                if current == Some(name) {
                    finished("Already on '"@ + name + "'.\n"@)
                } else {
                    BranchStepView { say: Seq::empty(), action: BranchActionView::Checkout(name) }
                }
            } else {
                ask_again(
                    "Please enter a number between 1 and "@ + decimal_of(n + 1) + ".\n"@,
                    branches,
                    current,
                )
            },
        }
    }
}

/// What follows the name of a new branch.
pub open spec fn after_name(
    branches: Seq<Seq<char>>,
    current: Option<Seq<char>>,
    name: Option<Seq<char>>,
) -> BranchStepView {
    match name {
        None => finished("Branch selection skipped — committing on the current branch.\n"@),
        Some(raw) => {
            let name = trimmed(raw);
            if name.len() == 0 {
                ask_again("Branch name can't be empty.\n"@, branches, current)
            } else if !valid_branch_name(name) {
                ask_again("'"@ + name + "' is not a valid branch name.\n"@, branches, current)
            } else {
                BranchStepView { say: Seq::empty(), action: BranchActionView::Create(name) }
            }
        },
    }
}

/// What follows an event.
pub open spec fn next_branch_step(
    branches: Seq<Seq<char>>,
    current: Option<Seq<char>>,
    event: BranchEventView,
) -> BranchStepView {
    match event {
        BranchEventView::Start => ask_again(Seq::empty(), branches, current),
        BranchEventView::Answer(line) => after_answer(branches, current, line),
        BranchEventView::Name(name) => after_name(branches, current, name),
        BranchEventView::Created { name, failure } => match failure {
            None => finished("Switched to new branch '"@ + name + "'.\n"@),
            Some(why) => ask_again("Couldn't create branch: "@ + why + "\n"@, branches, current),
        },
        BranchEventView::Switched { name, failure } => match failure {
            None => finished("Switched to branch '"@ + name + "'.\n"@),
            Some(why) => ask_again(
                "Couldn't switch: "@ + why
                    + "\nCommit or stash the conflicting changes first.\n"@,
                branches,
                current,
            ),
        },
    }
}

// ── the dialogue ────────────────────────────────────────────────────

fn is_current(current: &Option<String>, name: &String) -> (r: bool)
    ensures
        r == (text(*current) == Some(name@)),
{
    match current {
        Some(c) => *c == *name,
        None => false,
    }
}

fn list(out: String, branches: &[String], current: &Option<String>) -> (r: String)
    requires
        branches@.len() < usize::MAX,
    ensures
        r@ == out@ + menu(texts(branches@), text(*current)),
{
    let ghost said = out@;
    let ghost names = texts(branches@);
    let ghost marked = text(*current);
    let mut out = out;
    out.append("\nChoose a branch to commit to:\n");
    let ghost head = out@;
    assert(head + menu_entries(names.take(0), marked) =~= head);
    for i in 0..branches.len()
        invariant
            names == texts(branches@),
            marked == text(*current),
            out@ == head + menu_entries(names.take(i as int), marked),
    {
        assert(names.take(i + 1).drop_last() =~= names.take(i as int));
        assert(names.take(i + 1).last() == branches@[i as int]@);
        out.append("  ");
        out.append(count(i + 1).as_str());
        out.append(": ");
        out.append(branches[i].as_str());
        if is_current(current, &branches[i]) {
            out.append(" (current)\n");
        } else {
            out.append("\n");
        }
        assert(out@ =~= head + menu_entries(names.take(i + 1), marked));
    }
    assert(names.take(names.len() as int) =~= names);
    out.append("  ");
    out.append(count(branches.len() + 1).as_str());
    out.append(": create a new branch\n\n");
    assert(out@ =~= said + menu(names, marked));
    out
}

fn ask(said: String, branches: &[String], current: &Option<String>) -> (r: BranchStep)
    requires
        branches@.len() < usize::MAX,
    ensures
        r@ == ask_again(said@, texts(branches@), text(*current)),
{
    let mut prompt = "Enter a number [1-".to_owned();
    prompt.append(count(branches.len() + 1).as_str());
    prompt.append("] (or 'n' for a new branch): ");
    BranchStep { say: list(said, branches, current), action: BranchAction::Ask(prompt) }
}

fn finish(said: String) -> (r: BranchStep)
    ensures
        r@ == finished(said@),
{
    BranchStep { say: said, action: BranchAction::Finish }
}

fn quietly(action: BranchAction) -> (r: BranchStep)
    ensures
        r@ == (BranchStepView { say: Seq::empty(), action: action@ }),
{
    let say = String::new();
    assert(say@ =~= Seq::empty());
    BranchStep { say, action }
}

fn answer_step(branches: &[String], current: &Option<String>, line: &str) -> (r: BranchStep)
    requires
        branches@.len() < usize::MAX,
    ensures
        r@ == after_answer(texts(branches@), text(*current), line@),
{
    let chars = chars_of(line);
    let answer = trim(chars.as_slice());
    let n = branches.len();
    assert(texts(branches@).len() == n);
    if answer.len() == 0 {
        return finish("No selection — committing on the current branch.\n".to_owned());
    }
    let new_index = count(n + 1);
    if is_text(answer, "n") || is_text(answer, "N") || is_text(answer, new_index.as_str()) {
        return quietly(BranchAction::AskName);
    }
    match parse_unsigned(answer, usize::MAX as u64) {
        None => ask("Please enter a number or 'n'.\n".to_owned(), branches, current),
        Some(number) => if number >= 1 && number <= n as u64 {
            let name = &branches[number as usize - 1];
            assert(texts(branches@)[number - 1] == name@);
            if is_current(current, name) {
                let mut said = "Already on '".to_owned();
                said.append(name.as_str());
                said.append("'.\n");
                finish(said)
            } else {
                quietly(BranchAction::Checkout(name.clone()))
            }
        } else {
            let mut said = "Please enter a number between 1 and ".to_owned();
            said.append(new_index.as_str());
            said.append(".\n");
            ask(said, branches, current)
        },
    }
}

fn name_step(branches: &[String], current: &Option<String>, name: Option<String>) -> (r: BranchStep)
    requires
        branches@.len() < usize::MAX,
    ensures
        r@ == after_name(texts(branches@), text(*current), text(name)),
{
    match name {
        None => finish("Branch selection skipped — committing on the current branch.\n".to_owned()),
        Some(raw) => {
            let chars = chars_of(raw.as_str());
            let name = trim(chars.as_slice());
            let typed = text_of(name);
            if name.len() == 0 {
                ask("Branch name can't be empty.\n".to_owned(), branches, current)
            } else if !is_valid_branch_name(typed.as_str()) {
                let mut said = "'".to_owned();
                said.append(typed.as_str());
                said.append("' is not a valid branch name.\n");
                ask(said, branches, current)
            } else {
                quietly(BranchAction::Create(typed))
            }
        },
    }
}

/// Take the dialogue one step further. `branches` are the local branches and
/// `current` the one that is checked out.
pub fn select_branch(
    branches: &[String],
    current: &Option<String>,
    event: BranchEvent,
) -> (r: BranchStep)
    requires
        branches@.len() < usize::MAX,
    ensures
        r@ == next_branch_step(texts(branches@), text(*current), event@),
{
    match event {
        BranchEvent::Start => {
            let said = String::new();
            assert(said@ =~= Seq::empty());
            ask(said, branches, current)
        },
        BranchEvent::Answer(line) => answer_step(branches, current, line.as_str()),
        BranchEvent::Name(name) => name_step(branches, current, name),
        BranchEvent::Created { name, failure } => match failure {
            None => {
                let mut said = "Switched to new branch '".to_owned();
                said.append(name.as_str());
                said.append("'.\n");
                finish(said)
            },
            Some(why) => {
                let mut said = "Couldn't create branch: ".to_owned();
                said.append(why.as_str());
                said.append("\n");
                ask(said, branches, current)
            },
        },
        BranchEvent::Switched { name, failure } => match failure {
            None => {
                let mut said = "Switched to branch '".to_owned();
                said.append(name.as_str());
                said.append("'.\n");
                finish(said)
            },
            Some(why) => {
                let mut said = "Couldn't switch: ".to_owned();
                said.append(why.as_str());
                said.append("\nCommit or stash the conflicting changes first.\n");
                ask(said, branches, current)
            },
        },
    }
}

// ── laws ────────────────────────────────────────────────────────────

proof fn lemma_digits_are_trimmed(s: Seq<char>)
    requires
        s.len() > 0,
        !is_white_space(s[0]),
        !is_white_space(s.last()),
    ensures
        trimmed(s) == s,
{
    assert(drop_front(s, |c: char| is_white_space(c)) == s);
    assert(drop_back(s, |c: char| is_white_space(c)) == s);
}

/// The number of an entry picks the branch of that entry.
pub proof fn lemma_number_picks_its_branch(
    branches: Seq<Seq<char>>,
    current: Option<Seq<char>>,
    k: nat,
)
    requires
        1 <= k <= branches.len(),
        branches.len() < usize::MAX,
    ensures
        after_answer(branches, current, decimal_of(k)).action == if current == Some(
            branches[k - 1],
        ) {
            BranchActionView::Finish
        } else {
            BranchActionView::Checkout(branches[k - 1])
        },
{
    let line = decimal_of(k);
    let n = branches.len();
    lemma_decimal_digits(k);
    lemma_digits_are_trimmed(line);
    lemma_decimal_is_read_back(k, usize::MAX as nat);
    lemma_decimal_is_read_back(n + 1, usize::MAX as nat);
    reveal_strlit("n");
    reveal_strlit("N");
    assert(line != "n"@) by {
        assert("n"@[0] == 'n');
    }
    assert(line != "N"@) by {
        assert("N"@[0] == 'N');
    }
}

/// Only branches of the list are checked out, and only valid names are made
/// into new branches.
pub proof fn lemma_picker_touches_only_known_branches(
    branches: Seq<Seq<char>>,
    current: Option<Seq<char>>,
    event: BranchEventView,
)
    ensures
        match next_branch_step(branches, current, event).action {
            BranchActionView::Checkout(name) => branches.contains(name) && current != Some(name),
            BranchActionView::Create(name) => valid_branch_name(name),
            _ => true,
        },
{
}

} // verus!
