use task_manager::codec::{decode_tasks, encode_tasks, SEPARATOR};
use task_manager::task::Task;

fn task(id: usize, description: &str, completed: bool) -> Task {
    Task { id, description: description.to_string(), completed }
}

#[test]
fn separator_is_the_bar() {
    assert_eq!(SEPARATOR, '|');
}

#[test]
fn encode_nothing_gives_empty_text() {
    assert_eq!(encode_tasks(&[]), "");
}

#[test]
fn encode_writes_id_description_and_flag() {
    assert_eq!(encode_tasks(&[task(1, "Buy milk", false)]), "1|Buy milk|false\n");
    assert_eq!(encode_tasks(&[task(12, "Walk dog", true)]), "12|Walk dog|true\n");
}

#[test]
fn encode_ends_every_line_with_a_line_feed() {
    let text = encode_tasks(&[task(3, "c", true), task(1, "a", false), task(2, "", true)]);
    assert_eq!(text, "3|c|true\n1|a|false\n2||true\n");
}

#[test]
fn encode_does_not_escape() {
    assert_eq!(encode_tasks(&[task(1, "a|b\nc", false)]), "1|a|b\nc|false\n");
}

#[test]
fn encode_writes_the_largest_id_in_full() {
    assert_eq!(encode_tasks(&[task(usize::MAX, "x", true)]), format!("{}|x|true\n", usize::MAX));
}

#[test]
fn decode_empty_text_gives_nothing() {
    assert_eq!(decode_tasks(""), vec![]);
}

#[test]
fn decode_reads_one_task_per_line() {
    assert_eq!(
        decode_tasks("1|Buy milk|true\n2|Walk dog|false\n"),
        vec![task(1, "Buy milk", true), task(2, "Walk dog", false)]
    );
}

#[test]
fn decode_does_not_need_the_last_line_feed() {
    assert_eq!(
        decode_tasks("1|a|true\n2|b|false"),
        vec![task(1, "a", true), task(2, "b", false)]
    );
}

#[test]
fn decode_keeps_the_order_of_the_lines() {
    assert_eq!(
        decode_tasks("9|z|false\n1|a|false\n5|m|true\n"),
        vec![task(9, "z", false), task(1, "a", false), task(5, "m", true)]
    );
}

#[test]
fn decode_skips_lines_without_three_fields() {
    let text = "1|a|true\nno separator\n2|b\n\n3|c|false|extra\n|\n4|d|false\n";
    assert_eq!(decode_tasks(text), vec![task(1, "a", true), task(4, "d", false)]);
}

#[test]
fn decode_skips_only_the_malformed_line() {
    let with = decode_tasks("1|a|true\nbroken\n2|b|false\n");
    let without = decode_tasks("1|a|true\n2|b|false\n");
    assert_eq!(with, without);
    assert_eq!(with.len(), 2);
}

#[test]
fn decode_skips_a_malformed_last_line() {
    assert_eq!(decode_tasks("1|a|true\n2|b"), vec![task(1, "a", true)]);
    assert_eq!(decode_tasks("1|a|true\n2|b|true|"), vec![task(1, "a", true)]);
}

#[test]
fn decode_takes_zero_for_an_unreadable_id() {
    for id in ["", "x", "-1", "1.5", " 1", "1 ", "0x1"] {
        assert_eq!(decode_tasks(&format!("{}|a|true\n", id)), vec![task(0, "a", true)], "{:?}", id);
    }
}

#[test]
fn decode_takes_zero_for_an_id_that_does_not_fit() {
    assert_eq!(
        decode_tasks("99999999999999999999999999999|a|false\n"),
        vec![task(0, "a", false)]
    );
    assert_eq!(decode_tasks(&format!("{}|a|false\n", usize::MAX)), vec![task(0, "a", false)]);
    assert_eq!(
        decode_tasks(&format!("{}|a|false\n", usize::MAX - 1)),
        vec![task(usize::MAX - 1, "a", false)]
    );
}

#[test]
fn decode_reads_ids_with_plus_sign_and_leading_zeros() {
    assert_eq!(decode_tasks("+7|a|true\n007|b|true\n"), vec![task(7, "a", true), task(7, "b", true)]);
}

#[test]
fn decode_takes_false_for_an_unreadable_flag() {
    for flag in ["", "True", "TRUE", "1", "yes", "true ", " true", "tru", "truee", "false"] {
        assert_eq!(decode_tasks(&format!("1|a|{}\n", flag)), vec![task(1, "a", false)], "{:?}", flag);
    }
    assert_eq!(decode_tasks("1|a|true\n"), vec![task(1, "a", true)]);
}

#[test]
fn decode_takes_carriage_return_and_line_feed_as_line_ending() {
    assert_eq!(
        decode_tasks("1|a|true\r\n2|b|false\r\n"),
        vec![task(1, "a", true), task(2, "b", false)]
    );
}

#[test]
fn decode_keeps_a_carriage_return_at_the_end_of_the_text() {
    assert_eq!(decode_tasks("1|a|true\r"), vec![task(1, "a", false)]);
}

#[test]
fn decode_keeps_descriptions_as_they_are() {
    assert_eq!(
        decode_tasks("1|  two  spaces |true\n2||false\n3|\u{1f980} caf\u{e9}|true\n4|a\rb|true\n"),
        vec![
            task(1, "  two  spaces ", true),
            task(2, "", false),
            task(3, "\u{1f980} caf\u{e9}", true),
            task(4, "a\rb", true),
        ]
    );
}

#[test]
fn decode_does_not_remove_repeated_ids() {
    assert_eq!(decode_tasks("1|a|true\n1|b|false\n"), vec![task(1, "a", true), task(1, "b", false)]);
}

#[test]
fn decode_agrees_with_reading_line_by_line() {
    let texts = [
        "",
        "\n",
        "1|a|true",
        "1|a|true\n",
        "x\n1|a|true\r\n\r\n2|b|nope\n3|c\n+4|d|true",
        "|||\n||\n|\n\n",
        "18446744073709551614|a|true\n5||false\r",
    ];
    for text in texts {
        let mut expected = Vec::new();
        for line in text.lines() {
            let parts: Vec<&str> = line.split('|').collect();
            if parts.len() == 3 {
                let id = match parts[0].parse::<usize>() {
                    Ok(id) if id < usize::MAX => id,
                    _ => 0,
                };
                let completed = parts[2].parse::<bool>().unwrap_or(false);
                expected.push(task(id, parts[1], completed));
            }
        }
        assert_eq!(decode_tasks(text), expected, "{:?}", text);
    }
}

#[test]
fn what_is_written_reads_back() {
    let tasks = vec![
        task(1, "Buy milk", true),
        task(2, "Walk dog", false),
        task(40, "", false),
        task(0, "ends with carriage return\r", true),
        task(usize::MAX - 1, "\u{2713} done", true),
        task(2, "same id again", false),
    ];
    assert_eq!(decode_tasks(&encode_tasks(&tasks)), tasks);
}

#[test]
fn description_with_separator_reads_back_as_nothing() {
    assert_eq!(decode_tasks(&encode_tasks(&[task(1, "a|b", false)])), vec![]);
}

#[test]
fn description_with_line_feed_reads_back_as_nothing() {
    assert_eq!(decode_tasks(&encode_tasks(&[task(1, "a\nb", false)])), vec![]);
}

#[test]
fn description_with_line_feed_can_read_back_as_another_task() {
    let written = encode_tasks(&[task(1, "x|true\n9|y", false)]);
    assert_eq!(written, "1|x|true\n9|y|false\n");
    assert_eq!(decode_tasks(&written), vec![task(1, "x", true), task(9, "y", false)]);
}
