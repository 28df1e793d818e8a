use task_manager::command::{apply, parse_command, parse_trimmed, Command, Outcome};
use task_manager::store::TaskManager;
use task_manager::task::Task;

fn task(id: usize, description: &str, completed: bool) -> Task {
    Task { id, description: description.to_string(), completed }
}

#[test]
fn quit_and_exit_end_the_session() {
    assert_eq!(parse_trimmed("quit"), Command::Quit);
    assert_eq!(parse_trimmed("exit"), Command::Quit);
}

#[test]
fn list_shows_the_tasks() {
    assert_eq!(parse_trimmed("list"), Command::List);
}

#[test]
fn add_takes_the_rest_of_the_line() {
    assert_eq!(parse_trimmed("add Buy milk"), Command::Add("Buy milk".to_string()));
    assert_eq!(parse_trimmed("add  two spaces"), Command::Add(" two spaces".to_string()));
    assert_eq!(parse_trimmed("add add x"), Command::Add("add x".to_string()));
    assert_eq!(parse_trimmed("add a|b"), Command::Add("a|b".to_string()));
    assert_eq!(parse_trimmed("add caf\u{e9}"), Command::Add("caf\u{e9}".to_string()));
}

#[test]
fn add_with_nothing_behind_the_space_has_an_empty_description() {
    assert_eq!(parse_trimmed("add "), Command::Add(String::new()));
}

#[test]
fn complete_takes_an_id() {
    assert_eq!(parse_trimmed("complete 1"), Command::Complete(1));
    assert_eq!(parse_trimmed("complete 042"), Command::Complete(42));
    assert_eq!(parse_trimmed("complete +7"), Command::Complete(7));
    assert_eq!(parse_trimmed("complete 0"), Command::Complete(0));
    assert_eq!(
        parse_trimmed(&format!("complete {}", usize::MAX)),
        Command::Complete(usize::MAX)
    );
}

#[test]
fn complete_with_anything_else_is_a_bad_id() {
    for rest in ["", "x", "-1", " 1", "1 2", "1.5", "99999999999999999999999999"] {
        assert_eq!(parse_trimmed(&format!("complete {}", rest)), Command::BadId, "{:?}", rest);
    }
}

#[test]
fn empty_line_asks_for_nothing() {
    assert_eq!(parse_trimmed(""), Command::Nothing);
}

#[test]
fn other_lines_are_unknown() {
    for line in [
        "add", "complete", "help", "Quit", "LIST", "quit now", "list all", "addx", "complete1",
        " ", " list", "list ", "delete 1", "quitt", "exi",
    ] {
        assert_eq!(parse_trimmed(line), Command::Unknown, "{:?}", line);
    }
}

#[test]
fn parse_command_sets_white_space_at_the_ends_aside() {
    assert_eq!(parse_command("  list \n"), Command::List);
    assert_eq!(parse_command("quit\n"), Command::Quit);
    assert_eq!(parse_command("\texit\r\n"), Command::Quit);
    assert_eq!(parse_command("  add  Buy milk  \n"), Command::Add(" Buy milk".to_string()));
    assert_eq!(parse_command("complete 3\n"), Command::Complete(3));
    assert_eq!(parse_command("\u{a0}list\u{2003}"), Command::List);
}

#[test]
fn parse_command_of_blank_line_is_nothing() {
    assert_eq!(parse_command(""), Command::Nothing);
    assert_eq!(parse_command("\n"), Command::Nothing);
    assert_eq!(parse_command("   \t \r\n"), Command::Nothing);
}

#[test]
fn parse_command_of_bare_add_is_unknown() {
    assert_eq!(parse_command("add\n"), Command::Unknown);
    assert_eq!(parse_command("add \n"), Command::Unknown);
    assert_eq!(parse_command("complete \n"), Command::Unknown);
}

#[test]
fn parse_command_agrees_with_parse_after_trim() {
    for input in ["", " ", "list", " list ", "add x  ", "  complete 9", "\tfoo\n", "add \u{a0}"] {
        assert_eq!(parse_command(input), parse_trimmed(input.trim()), "{:?}", input);
    }
}

#[test]
fn apply_add_gives_the_new_id() {
    let mut store = TaskManager::new();
    assert_eq!(apply(&mut store, Command::Add("a".to_string())), Outcome::Added(1));
    assert_eq!(apply(&mut store, Command::Add("b".to_string())), Outcome::Added(2));
    assert_eq!(store.list_tasks(), &[task(1, "a", false), task(2, "b", false)]);
}

#[test]
fn apply_add_without_description_changes_nothing() {
    let mut store = TaskManager::new();
    assert_eq!(apply(&mut store, Command::Add(String::new())), Outcome::NoDescription);
    assert!(store.is_empty());
    assert_eq!(store.next_id(), 1);
}

#[test]
fn apply_add_without_ids_left_changes_nothing() {
    let mut store = TaskManager::new();
    store.load_text(&format!("{}|last|true\n", usize::MAX - 1));
    assert_eq!(apply(&mut store, Command::Add("more".to_string())), Outcome::NoIdsLeft);
    assert_eq!(store.list_tasks(), &[task(usize::MAX - 1, "last", true)]);
}

#[test]
fn apply_complete_marks_or_reports() {
    let mut store = TaskManager::new();
    apply(&mut store, Command::Add("a".to_string()));
    assert_eq!(apply(&mut store, Command::Complete(1)), Outcome::Completed(1));
    assert_eq!(apply(&mut store, Command::Complete(1)), Outcome::Completed(1));
    assert_eq!(apply(&mut store, Command::Complete(2)), Outcome::NotFound(2));
    assert_eq!(store.list_tasks(), &[task(1, "a", true)]);
}

#[test]
fn apply_of_the_rest_leaves_the_store_alone() {
    let mut store = TaskManager::new();
    apply(&mut store, Command::Add("a".to_string()));
    let before = store.to_text();
    assert_eq!(apply(&mut store, Command::Quit), Outcome::Quit);
    assert_eq!(apply(&mut store, Command::List), Outcome::Listed);
    assert_eq!(apply(&mut store, Command::BadId), Outcome::BadId);
    assert_eq!(apply(&mut store, Command::Nothing), Outcome::Nothing);
    assert_eq!(apply(&mut store, Command::Unknown), Outcome::Unknown);
    assert_eq!(store.to_text(), before);
    assert_eq!(store.next_id(), 2);
}

#[test]
fn a_session_line_by_line() {
    let mut store = TaskManager::new();
    let lines = [
        ("add Buy milk\n", Outcome::Added(1)),
        ("\n", Outcome::Nothing),
        ("add Walk dog\n", Outcome::Added(2)),
        ("complete 1\n", Outcome::Completed(1)),
        ("complete one\n", Outcome::BadId),
        ("complete 99\n", Outcome::NotFound(99)),
        ("remove 1\n", Outcome::Unknown),
        ("list\n", Outcome::Listed),
        ("quit\n", Outcome::Quit),
    ];
    for (line, expected) in lines {
        assert_eq!(apply(&mut store, parse_command(line)), expected, "{:?}", line);
    }
    assert_eq!(store.to_text(), "1|Buy milk|true\n2|Walk dog|false\n");
}
