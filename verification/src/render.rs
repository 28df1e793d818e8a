//! What the session says: the list of tasks as text, and a line for every
//! outcome of a command.

use vstd::prelude::*;
use vstd::string::StringExecFns;
use crate::command::Outcome;
use crate::store::{StoreModel, TaskManager};
use crate::task::{lemma_models_take, models, Task, TaskModel};
use crate::numeral::{decimal, push_decimal};

verus! {

/// The sign in front of a task: a check mark if it is done, a circle if not.
pub open spec fn mark(completed: bool) -> char {
    if completed {
        '\u{2713}'
    } else {
        '\u{25cb}'
    }
}

/// How one task is shown: its sign, its id in square brackets, its description.
pub open spec fn listing_line(task: TaskModel) -> Seq<char> {
    seq![mark(task.completed)] + " ["@ + decimal(task.id) + "] "@ + task.description
}

/// The lines of the tasks, each with its line feed.
pub open spec fn listing_lines(tasks: Seq<TaskModel>) -> Seq<Seq<char>> {
    tasks.map_values(|task: TaskModel| listing_line(task).push('\n'))
}

/// How the tasks are shown: under a heading, one line each, oldest first,
/// with an empty line at the end; or, if there are none, a line that says so.
pub open spec fn listing(tasks: Seq<TaskModel>) -> Seq<char> {
    if tasks.len() == 0 {
        "No tasks yet. Add one to get started!\n"@
    } else {
        "\n=== Your Tasks ===\n"@ + listing_lines(tasks).flatten() + seq!['\n']
    }
}

/// What is said for an outcome. The farewell for `Quit` is meant to be shown
/// once the tasks have been saved.
pub open spec fn reply(store: StoreModel, outcome: Outcome) -> Seq<char> {
    match outcome {
        Outcome::Quit => "Tasks saved. Goodbye! \u{1f44b}\n"@,
        Outcome::Listed => listing(store.tasks),
        Outcome::Added(_) => "\u{2713} Task added successfully!\n"@,
        Outcome::NoDescription => "\u{2717} Please provide a task description.\n"@,
        Outcome::NoIdsLeft => "\u{2717} No task id is left to give out.\n"@,
        Outcome::Completed(id) => "\u{2713} Task "@ + decimal(id as nat) + " marked as completed!\n"@,
        Outcome::NotFound(id) => "\u{2717} Task with id "@ + decimal(id as nat) + " not found.\n"@,
        Outcome::BadId => "\u{2717} Please provide a valid task ID.\n"@,
        Outcome::Nothing => Seq::empty(),
        Outcome::Unknown => "\u{2717} Unknown command. Try: add, list, complete, quit\n"@,
    }
}

/// The lines of a list grow by the line of each task that is put behind it.
proof fn lemma_listing_push(tasks: Seq<TaskModel>, task: TaskModel)
    ensures
        listing_lines(tasks.push(task)).flatten() == listing_lines(tasks).flatten() + listing_line(
            task,
        ).push('\n'),
{
    assert(listing_lines(tasks.push(task)) == listing_lines(tasks).push(
        listing_line(task).push('\n'),
    ));
    listing_lines(tasks).lemma_flatten_push(listing_line(task).push('\n'));
}

/// Shows the tasks as text.
pub fn render_tasks(tasks: &[Task]) -> (text: String)
    ensures
        text@ == listing(models(tasks@)),
{
    if tasks.len() == 0 {
        return String::from_str("No tasks yet. Add one to get started!\n");
    }
    let mut text = String::from_str("\n=== Your Tasks ===\n");
    let ghost heading = text@;
    let mut i: usize = 0;
    assert(listing_lines(models(tasks@.take(0))).flatten() == Seq::<char>::empty());
    while i < tasks.len()
        invariant
            i <= tasks.len(),
            text@ == heading + listing_lines(models(tasks@.take(i as int))).flatten(),
        decreases tasks.len() - i,
    {
        let task = &tasks[i];
        proof {
            lemma_models_take(tasks@, i as int);
            lemma_listing_push(models(tasks@.take(i as int)), task@);
        }
        text.push(if task.completed { '\u{2713}' } else { '\u{25cb}' });
        text.append(" [");
        push_decimal(&mut text, task.id);
        text.append("] ");
        text.append(task.description.as_str());
        text.push('\n');
        i += 1;
    }
    proof {
        assert(tasks@.take(tasks.len() as int) == tasks@);
    }
    text.push('\n');
    text
}

/// What is to be said for `outcome`, given the store as the command left it.
pub fn render(store: &TaskManager, outcome: Outcome) -> (text: String)
    ensures
        text@ == reply(store@, outcome),
{
    match outcome {
        Outcome::Quit => String::from_str("Tasks saved. Goodbye! \u{1f44b}\n"),
        Outcome::Listed => render_tasks(store.list_tasks()),
        Outcome::Added(_) => String::from_str("\u{2713} Task added successfully!\n"),
        Outcome::NoDescription => String::from_str("\u{2717} Please provide a task description.\n"),
        Outcome::NoIdsLeft => String::from_str("\u{2717} No task id is left to give out.\n"),
        Outcome::Completed(id) => {
            let mut text = String::from_str("\u{2713} Task ");
            push_decimal(&mut text, id);
            text.append(" marked as completed!\n");
            text
        },
        Outcome::NotFound(id) => {
            let mut text = String::from_str("\u{2717} Task with id ");
            push_decimal(&mut text, id);
            text.append(" not found.\n");
            text
        },
        Outcome::BadId => String::from_str("\u{2717} Please provide a valid task ID.\n"),
        Outcome::Nothing => String::new(),
        Outcome::Unknown => String::from_str(
            "\u{2717} Unknown command. Try: add, list, complete, quit\n",
        ),
    }
}

} // verus!
