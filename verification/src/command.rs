//! The commands of a session: what a line of input asks for, and what
//! carrying it out does to the store.

use vstd::prelude::*;
use vstd::slice::slice_subrange;
use crate::codec::max_id;
use crate::store::{AddError, StoreModel, TaskManager};
use crate::numeral::{parse_unsigned, parse_usize};
use crate::text::{chars_of, string_of};

verus! {

/// What a line of input asks for.
#[derive(Debug, PartialEq, Eq)]
pub enum Command {
    /// End the session.
    Quit,
    /// Show the tasks.
    List,
    /// Add a task with this description.
    Add(String),
    /// Mark the task with this id as done.
    Complete(usize),
    /// `complete` with something that is not an id.
    BadId,
    /// An empty line.
    Nothing,
    /// Anything else.
    Unknown,
}

/// What a command is, in specifications.
pub enum CommandModel {
    Quit,
    List,
    Add(Seq<char>),
    Complete(usize),
    BadId,
    Nothing,
    Unknown,
}

impl View for Command {
    type V = CommandModel;

    open spec fn view(&self) -> CommandModel {
        match self {
            Command::Quit => CommandModel::Quit,
            Command::List => CommandModel::List,
            Command::Add(description) => CommandModel::Add(description@),
            Command::Complete(id) => CommandModel::Complete(*id),
            Command::BadId => CommandModel::BadId,
            Command::Nothing => CommandModel::Nothing,
            Command::Unknown => CommandModel::Unknown,
        }
    }
}

/// What carrying out a command came to.
#[derive(Debug, Clone, Copy, PartialEq, Eq)]
pub enum Outcome {
    /// The session is to end; the store has not been touched.
    Quit,
    /// The tasks are to be shown.
    Listed,
    /// A task was added and got this id.
    Added(usize),
    /// Nothing was added: the description was empty.
    NoDescription,
    /// Nothing was added: every id has been given out.
    NoIdsLeft,
    /// The task with this id is marked as done.
    Completed(usize),
    /// No task has this id.
    NotFound(usize),
    /// What stood behind `complete` was not an id.
    BadId,
    /// There was nothing to do.
    Nothing,
    /// The line was no command.
    Unknown,
}

/// What is left of a text once the white space at its two ends is taken off.
pub uninterp spec fn trimmed(text: Seq<char>) -> Seq<char>;

/// `str::trim` of std, taken on trust: it returns the part of the text that
/// lies between its leading and its trailing white space, where white space
/// is what Unicode marks as `White_Space`. The contract does not say which
/// characters those are; it gives the result its name, `trimmed`.
#[verifier::external_body]
fn trim(text: &str) -> (inner: &str)
    ensures
        inner@ == trimmed(text@),
{
    text.trim()
}

/// The command that a line without white space at its ends stands for.
///
/// `quit` and `exit` end the session and `list` shows the tasks. What
/// follows `add` and one space is the description of a new task; what
/// follows `complete` and one space is the id of the task to mark, in
/// decimal. An empty line asks for nothing, and every other line is unknown.
pub open spec fn command_of(line: Seq<char>) -> CommandModel {
    if line == "quit"@ || line == "exit"@ {
        CommandModel::Quit
    } else if line == "list"@ {
        CommandModel::List
    } else if "add "@.is_prefix_of(line) {
        CommandModel::Add(line.skip("add "@.len() as int))
    } else if "complete "@.is_prefix_of(line) {
        match parse_unsigned(line.skip("complete "@.len() as int), usize::MAX as nat) {
            Some(id) => CommandModel::Complete(id as usize),
            None => CommandModel::BadId,
        }
    } else if line.len() == 0 {
        CommandModel::Nothing
    } else {
        CommandModel::Unknown
    }
}

/// What carrying out `command` on `store` comes to.
pub open spec fn outcome_of(store: StoreModel, command: CommandModel) -> Outcome {
    match command {
        CommandModel::Quit => Outcome::Quit,
        CommandModel::List => Outcome::Listed,
        CommandModel::Add(description) => if description.len() == 0 {
            Outcome::NoDescription
        } else if store.next_id > max_id() {
            Outcome::NoIdsLeft
        } else {
            Outcome::Added(store.next_id as usize)
        },
        CommandModel::Complete(id) => if store.has_id(id as nat) {
            Outcome::Completed(id)
        } else {
            Outcome::NotFound(id)
        },
        CommandModel::BadId => Outcome::BadId,
        CommandModel::Nothing => Outcome::Nothing,
        CommandModel::Unknown => Outcome::Unknown,
    }
}

/// The store after `command` has been carried out on `store`.
pub open spec fn store_after(store: StoreModel, command: CommandModel) -> StoreModel {
    match command {
        CommandModel::Add(description) => if description.len() > 0 && store.next_id <= max_id() {
            store.add(description)
        } else {
            store
        },
        CommandModel::Complete(id) => store.complete(id as nat),
        _ => store,
    }
}

/// Whether the two hold the same characters.
fn same(a: &[char], b: &[char]) -> (equal: bool)
    ensures
        equal == (a@ == b@),
{
    if a.len() != b.len() {
        return false;
    }
    let mut i: usize = 0;
    while i < a.len()
        invariant
            i <= a.len(),
            a.len() == b.len(),
            a@.take(i as int) == b@.take(i as int),
        decreases a.len() - i,
    {
        if a[i] != b[i] {
            return false;
        }
        proof {
            assert(a@.take(i + 1) == a@.take(i as int).push(a@[i as int]));
            assert(b@.take(i + 1) == b@.take(i as int).push(b@[i as int]));
        }
        i += 1;
    }
    proof {
        assert(a@.take(a.len() as int) == a@);
        assert(b@.take(b.len() as int) == b@);
    }
    true
}

/// Whether `line` begins with `prefix`.
fn begins_with(line: &[char], prefix: &[char]) -> (begins: bool)
    ensures
        begins == prefix@.is_prefix_of(line@),
{
    if line.len() < prefix.len() {
        return false;
    }
    same(slice_subrange(line, 0, prefix.len()), prefix)
}

/// Reads the command that `line` stands for. The line is taken as it is:
/// white space at its ends is part of it.
pub fn parse_trimmed(line: &str) -> (command: Command)
    ensures
        command@ == command_of(line@),
{
    let chars = chars_of(line);
    let line = chars.as_slice();
    let add = chars_of("add ");
    let complete = chars_of("complete ");
    if same(line, chars_of("quit").as_slice()) || same(line, chars_of("exit").as_slice()) {
        Command::Quit
    } else if same(line, chars_of("list").as_slice()) {
        Command::List
    } else if begins_with(line, add.as_slice()) {
        Command::Add(string_of(slice_subrange(line, add.len(), line.len())))
    } else if begins_with(line, complete.as_slice()) {
        match parse_usize(slice_subrange(line, complete.len(), line.len())) {
            Some(id) => Command::Complete(id),
            None => Command::BadId,
        }
    } else if line.len() == 0 {
        Command::Nothing
    } else {
        Command::Unknown
    }
}

/// Reads the command that a line of input stands for, white space at its
/// ends aside.
pub fn parse_command(input: &str) -> (command: Command)
    ensures
        command@ == command_of(trimmed(input@)),
{
    parse_trimmed(trim(input))
}

/// Carries out `command` on `store` and says what it came to.
pub fn apply(store: &mut TaskManager, command: Command) -> (outcome: Outcome)
    ensures
        outcome == outcome_of(old(store)@, command@),
        final(store)@ == store_after(old(store)@, command@),
        old(store)@.wf() ==> final(store)@.wf(),
        old(store)@.wf() && old(store)@.distinct_ids() ==> final(store)@.distinct_ids(),
{
    match command {
        Command::Quit => Outcome::Quit,
        Command::List => Outcome::Listed,
        Command::Add(description) => match store.add_task(description) {
            Ok(id) => Outcome::Added(id),
            Err(AddError::EmptyDescription) => Outcome::NoDescription,
            Err(AddError::IdsExhausted) => Outcome::NoIdsLeft,
        },
        Command::Complete(id) => if store.complete_task(id) {
            Outcome::Completed(id)
        } else {
            Outcome::NotFound(id)
        },
        Command::BadId => Outcome::BadId,
        Command::Nothing => Outcome::Nothing,
        Command::Unknown => Outcome::Unknown,
    }
}

} // verus!
