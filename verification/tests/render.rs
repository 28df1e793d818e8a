use task_manager::command::{apply, Command, Outcome};
use task_manager::render::{render, render_tasks};
use task_manager::store::TaskManager;
use task_manager::task::Task;

fn task(id: usize, description: &str, completed: bool) -> Task {
    Task { id, description: description.to_string(), completed }
}

#[test]
fn no_tasks_are_shown_as_a_hint() {
    assert_eq!(render_tasks(&[]), "No tasks yet. Add one to get started!\n");
}

#[test]
fn tasks_are_shown_under_a_heading() {
    let tasks = [task(1, "Buy milk", true), task(2, "Walk dog", false)];
    assert_eq!(
        render_tasks(&tasks),
        "\n=== Your Tasks ===\n\u{2713} [1] Buy milk\n\u{25cb} [2] Walk dog\n\n"
    );
}

#[test]
fn one_task_is_shown_with_sign_id_and_description() {
    assert_eq!(render_tasks(&[task(120, "x y", false)]), "\n=== Your Tasks ===\n\u{25cb} [120] x y\n\n");
    assert_eq!(render_tasks(&[task(0, "", true)]), "\n=== Your Tasks ===\n\u{2713} [0] \n\n");
}

#[test]
fn listing_is_what_a_formatter_would_write() {
    let tasks = [task(7, "a", false), task(usize::MAX, "b|c", true), task(10, "\u{e9}", false)];
    let mut expected = String::from("\n=== Your Tasks ===\n");
    for t in &tasks {
        let sign = if t.completed { "\u{2713}" } else { "\u{25cb}" };
        expected.push_str(&format!("{} [{}] {}\n", sign, t.id, t.description));
    }
    expected.push('\n');
    assert_eq!(render_tasks(&tasks), expected);
}

#[test]
fn every_outcome_has_its_line() {
    let store = TaskManager::new();
    assert_eq!(render(&store, Outcome::Quit), "Tasks saved. Goodbye! \u{1f44b}\n");
    assert_eq!(render(&store, Outcome::Added(1)), "\u{2713} Task added successfully!\n");
    assert_eq!(render(&store, Outcome::NoDescription), "\u{2717} Please provide a task description.\n");
    assert_eq!(render(&store, Outcome::NoIdsLeft), "\u{2717} No task id is left to give out.\n");
    assert_eq!(render(&store, Outcome::Completed(12)), "\u{2713} Task 12 marked as completed!\n");
    assert_eq!(render(&store, Outcome::NotFound(99)), "\u{2717} Task with id 99 not found.\n");
    assert_eq!(render(&store, Outcome::BadId), "\u{2717} Please provide a valid task ID.\n");
    assert_eq!(render(&store, Outcome::Nothing), "");
    assert_eq!(
        render(&store, Outcome::Unknown),
        "\u{2717} Unknown command. Try: add, list, complete, quit\n"
    );
}

#[test]
fn listed_shows_the_store() {
    let mut store = TaskManager::new();
    assert_eq!(render(&store, Outcome::Listed), "No tasks yet. Add one to get started!\n");
    apply(&mut store, Command::Add("Buy milk".to_string()));
    apply(&mut store, Command::Add("Walk dog".to_string()));
    apply(&mut store, Command::Complete(1));
    let outcome = apply(&mut store, Command::List);
    assert_eq!(
        render(&store, outcome),
        "\n=== Your Tasks ===\n\u{2713} [1] Buy milk\n\u{25cb} [2] Walk dog\n\n"
    );
}
