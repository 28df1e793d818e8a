//! The text form of a list of tasks: one line per task, `id|description|completed`.
//!
//! The description is written as it is, without escaping. A description that
//! holds the separator or a line feed therefore does not read back as it was
//! written; the theorems below say exactly what does.

use vstd::prelude::*;
use vstd::string::StringExecFns;
use crate::task::{lemma_models_take, models, Task, TaskModel};
use crate::numeral::{
    decimal, is_digit, lemma_decimal_denotes, lemma_parse_decimal, parse_unsigned, parse_usize,
    push_decimal,
};
use crate::text::{
    chars_of, ends_lines, free_of, lemma_lines_concat, lemma_lines_single, lemma_split_concat,
    lemma_split_nonempty, lemma_split_plain, lines, split, split_chars, split_lines, string_of,
    strip_cr, views,
};

verus! {

/// The character between the fields of a line.
pub const SEPARATOR: char = '|';

/// The largest number that can be the id of a task.
///
/// The store's counter has to lie above every id, so the top value of
/// `usize` is kept for the counter.
pub open spec fn max_id() -> nat {
    (usize::MAX - 1) as nat
}

/// How the flag of a task is written.
pub open spec fn flag_text(completed: bool) -> Seq<char> {
    if completed {
        seq!['t', 'r', 'u', 'e']
    } else {
        seq!['f', 'a', 'l', 's', 'e']
    }
}

/// The line of a task, without its line feed.
pub open spec fn task_line(task: TaskModel) -> Seq<char> {
    decimal(task.id) + seq![SEPARATOR] + task.description + seq![SEPARATOR] + flag_text(
        task.completed,
    )
}

/// The lines of the tasks, each with its line feed.
pub open spec fn task_lines(tasks: Seq<TaskModel>) -> Seq<Seq<char>> {
    tasks.map_values(|task: TaskModel| task_line(task).push('\n'))
}

/// The text of a list of tasks: their lines, one after the other.
pub open spec fn encode(tasks: Seq<TaskModel>) -> Seq<char> {
    task_lines(tasks).flatten()
}

/// The id that a field denotes: its number, if it is a decimal numeral of an
/// id, and 0 for anything else.
pub open spec fn read_id(field: Seq<char>) -> nat {
    match parse_unsigned(field, max_id()) {
        Some(id) => id,
        None => 0,
    }
}

/// The flag that a field denotes: set for `true`, clear for anything else.
pub open spec fn read_flag(field: Seq<char>) -> bool {
    field == flag_text(true)
}

/// The task that a line denotes, if the line has exactly three fields.
pub open spec fn decode_line(line: Seq<char>) -> Option<TaskModel> {
    let fields = split(line, SEPARATOR);
    if fields.len() == 3 {
        Some(
            TaskModel {
                id: read_id(fields[0]),
                description: fields[1],
                completed: read_flag(fields[2]),
            },
        )
    } else {
        None
    }
}

/// The tasks that a run of lines denotes: those of its lines that denote one, in order.
pub open spec fn records(lines: Seq<Seq<char>>) -> Seq<TaskModel> {
    lines.filter_map(|line: Seq<char>| decode_line(line))
}

/// The tasks that a text denotes.
pub open spec fn decode(text: Seq<char>) -> Seq<TaskModel> {
    records(lines(text))
}

/// The text of a list grows by the line of each task that is put behind it.
pub proof fn lemma_encode_push(tasks: Seq<TaskModel>, task: TaskModel)
    ensures
        encode(tasks.push(task)) == encode(tasks) + task_line(task).push('\n'),
{
    assert(task_lines(tasks.push(task)) == task_lines(tasks).push(task_line(task).push('\n')));
    task_lines(tasks).lemma_flatten_push(task_line(task).push('\n'));
}

/// The tasks of a run of lines grow by what each further line denotes.
pub proof fn lemma_records_push(lines: Seq<Seq<char>>, line: Seq<char>)
    ensures
        records(lines.push(line)) == match decode_line(line) {
            Some(task) => records(lines).push(task),
            None => records(lines),
        },
{
    assert(lines.push(line).drop_last() == lines);
}

/// Whether a task can be read back from its line: its id is one that a task
/// can have, and its description holds neither the separator nor a line feed.
pub open spec fn readable(task: TaskModel) -> bool {
    &&& task.id <= max_id()
    &&& free_of(task.description, SEPARATOR)
    &&& free_of(task.description, '\n')
}

/// The tasks of two runs of lines, one behind the other, are those of the
/// first followed by those of the second.
pub proof fn lemma_records_concat(a: Seq<Seq<char>>, b: Seq<Seq<char>>)
    ensures
        records(a + b) == records(a) + records(b),
    decreases b.len(),
{
    if b.len() == 0 {
        assert(a + b == a);
    } else {
        lemma_records_concat(a, b.drop_last());
        lemma_records_push(a + b.drop_last(), b.last());
        lemma_records_push(b.drop_last(), b.last());
        assert((a + b.drop_last()).push(b.last()) == a + b);
        assert(b.drop_last().push(b.last()) == b);
    }
}

/// Behind a run of whole lines, the tasks of what follows come after its own.
pub proof fn lemma_decode_concat(x: Seq<char>, y: Seq<char>)
    requires
        ends_lines(x),
    ensures
        decode(x + y) == decode(x) + decode(y),
{
    lemma_lines_concat(x, y);
    lemma_records_concat(lines(x), lines(y));
}

/// The text of any list of tasks is a run of whole lines.
pub proof fn lemma_encode_ends_lines(tasks: Seq<TaskModel>)
    ensures
        ends_lines(encode(tasks)),
{
    if tasks.len() > 0 {
        lemma_encode_push(tasks.drop_last(), tasks.last());
        assert(tasks.drop_last().push(tasks.last()) == tasks);
    }
}

/// The line of a readable task has three fields, which denote the task, and
/// it is one line that no line ending cuts short.
pub proof fn lemma_task_line(task: TaskModel)
    requires
        readable(task),
    ensures
        decode_line(task_line(task)) == Some(task),
        free_of(task_line(task), '\n'),
        strip_cr(task_line(task)) == task_line(task),
{
    let id = decimal(task.id);
    let flag = flag_text(task.completed);
    lemma_decimal_denotes(task.id);
    lemma_parse_decimal(task.id, max_id());
    assert(free_of(id, SEPARATOR) && free_of(id, '\n')) by {
        assert forall|i: int| 0 <= i < id.len() implies id[i] != SEPARATOR && id[i] != '\n' by {
            assert(is_digit(id[i]));
        }
    }
    assert(free_of(flag, SEPARATOR) && free_of(flag, '\n'));
    assert(task_line(task) == (id.push(SEPARATOR) + task.description).push(SEPARATOR) + flag);
    lemma_split_concat(id.push(SEPARATOR) + task.description, flag, SEPARATOR);
    lemma_split_concat(id, task.description, SEPARATOR);
    lemma_split_plain(id, SEPARATOR);
    lemma_split_plain(task.description, SEPARATOR);
    lemma_split_plain(flag, SEPARATOR);
    assert(split(task_line(task), SEPARATOR) == seq![id, task.description, flag]);
    assert(flag_text(false).len() != flag_text(true).len());
}

/// Reading what was written gives back the tasks, one for one and in their
/// order, as long as each of them is readable.
pub proof fn theorem_round_trip(tasks: Seq<TaskModel>)
    requires
        forall|i: int| 0 <= i < tasks.len() ==> readable(#[trigger] tasks[i]),
    ensures
        decode(encode(tasks)) == tasks,
    decreases tasks.len(),
{
    if tasks.len() == 0 {
        assert(encode(tasks) == Seq::<char>::empty());
        assert(lines(encode(tasks)) == Seq::<Seq<char>>::empty());
        assert(tasks == Seq::<TaskModel>::empty());
    } else {
        let first = tasks.drop_last();
        let last = tasks.last();
        theorem_round_trip(first);
        lemma_encode_push(first, last);
        lemma_encode_ends_lines(first);
        lemma_decode_concat(encode(first), task_line(last).push('\n'));
        lemma_task_line(last);
        lemma_lines_single(task_line(last));
        lemma_records_push(Seq::empty(), task_line(last));
        assert(Seq::<Seq<char>>::empty().push(task_line(last)) == seq![task_line(last)]);
        assert(first.push(last) == tasks);
        assert(decode(task_line(last).push('\n')) == seq![last]);
        assert(first + seq![last] == tasks);
    }
}

/// Every line contributes what it denotes and nothing else: the tasks of a
/// text are those of what stands before a line, the task of the line if it
/// denotes one, and those of what stands behind it.
pub proof fn theorem_lines_are_independent(before: Seq<char>, line: Seq<char>, after: Seq<char>)
    requires
        ends_lines(before),
        free_of(line, '\n'),
    ensures
        decode(before + line.push('\n') + after) == decode(before) + records(
            seq![strip_cr(line)],
        ) + decode(after),
{
    lemma_decode_concat(before, line.push('\n') + after);
    lemma_decode_concat(line.push('\n'), after);
    lemma_lines_single(line);
    assert(before + line.push('\n') + after == before + (line.push('\n') + after));
    assert(decode(before) + (records(seq![strip_cr(line)]) + decode(after)) == decode(before)
        + records(seq![strip_cr(line)]) + decode(after));
}

/// A line that does not have three fields is passed over, and only that
/// line: the text denotes what it would denote without the line.
pub proof fn theorem_malformed_line_skipped(before: Seq<char>, line: Seq<char>, after: Seq<char>)
    requires
        ends_lines(before),
        free_of(line, '\n'),
        split(line, SEPARATOR).len() != 3,
    ensures
        decode(before + line.push('\n') + after) == decode(before + after),
{
    theorem_lines_are_independent(before, line, after);
    lemma_decode_concat(before, after);
    lemma_records_push(Seq::empty(), strip_cr(line));
    assert(split(strip_cr(line), SEPARATOR).len() == split(line, SEPARATOR).len()) by {
        if strip_cr(line) != line {
            lemma_split_nonempty(line.drop_last(), SEPARATOR);
        }
    }
    assert(Seq::<Seq<char>>::empty().push(strip_cr(line)) == seq![strip_cr(line)]);
    assert(decode(before) + Seq::<TaskModel>::empty() + decode(after) == decode(before) + decode(
        after,
    ));
}

/// The same holds of a last line that no line feed ends.
pub proof fn theorem_malformed_last_line_skipped(before: Seq<char>, line: Seq<char>)
    requires
        ends_lines(before),
        free_of(line, '\n'),
        split(line, SEPARATOR).len() != 3,
    ensures
        decode(before + line) == decode(before),
{
    lemma_decode_concat(before, line);
    lemma_split_plain(line, '\n');
    if line.len() > 0 {
        assert(lines(line) == seq![line]);
        lemma_records_push(Seq::empty(), line);
        assert(Seq::<Seq<char>>::empty().push(line) == seq![line]);
    } else {
        assert(lines(line) == Seq::<Seq<char>>::empty());
    }
    assert(decode(before) + Seq::<TaskModel>::empty() == decode(before));
}

/// Whatever the text, every task that it denotes has an id that a task can have.
pub proof fn theorem_decoded_ids_fit(text: Seq<char>)
    ensures
        forall|i: int| 0 <= i < decode(text).len() ==> (#[trigger] decode(text)[i]).id <= max_id(),
{
    assert forall|i: int| 0 <= i < decode(text).len() implies (#[trigger] decode(text)[i]).id
        <= max_id() by {
        let task = decode(text)[i];
        assert(records(lines(text)).contains(task));
        lines(text).lemma_filter_map_contains(|line: Seq<char>| decode_line(line), task);
    }
}

/// Writes the flag of a task behind what `out` holds.
fn push_flag(out: &mut String, completed: bool)
    ensures
        final(out)@ == old(out)@ + flag_text(completed),
{
    if completed {
        out.push('t');
        out.push('r');
        out.push('u');
        out.push('e');
    } else {
        out.push('f');
        out.push('a');
        out.push('l');
        out.push('s');
        out.push('e');
    }
}

/// Writes the tasks as text, one line each, in their order.
pub fn encode_tasks(tasks: &[Task]) -> (text: String)
    ensures
        text@ == encode(models(tasks@)),
{
    let mut text = String::new();
    let mut i: usize = 0;
    assert(task_lines(models(tasks@.take(0))).len() == 0);
    while i < tasks.len()
        invariant
            i <= tasks.len(),
            text@ == encode(models(tasks@.take(i as int))),
        decreases tasks.len() - i,
    {
        let task = &tasks[i];
        proof {
            lemma_models_take(tasks@, i as int);
            lemma_encode_push(models(tasks@.take(i as int)), task@);
        }
        push_decimal(&mut text, task.id);
        text.push(SEPARATOR);
        text.append(task.description.as_str());
        text.push(SEPARATOR);
        push_flag(&mut text, task.completed);
        text.push('\n');
        i += 1;
    }
    proof {
        assert(tasks@.take(tasks.len() as int) == tasks@);
    }
    text
}

/// Whether `field` reads `true`.
fn flag_of(field: &[char]) -> (completed: bool)
    ensures
        completed == read_flag(field@),
{
    let completed = field.len() == 4 && field[0] == 't' && field[1] == 'r' && field[2] == 'u'
        && field[3] == 'e';
    proof {
        if completed {
            assert(field@ =~= flag_text(true));
        } else if field.len() == 4 {
            assert(field@[0] != flag_text(true)[0] || field@[1] != flag_text(true)[1] || field@[2]
                != flag_text(true)[2] || field@[3] != flag_text(true)[3]);
        }
    }
    completed
}

/// The id that `field` denotes.
fn id_of(field: &[char]) -> (id: usize)
    ensures
        id == read_id(field@),
        id <= max_id(),
{
    match parse_usize(field) {
        Some(id) => if id < usize::MAX {
            id
        } else {
            0
        },
        None => 0,
    }
}

/// Reads the tasks that a text holds: one from each line of three fields,
/// in the order of the lines. Other lines are passed over.
pub fn decode_tasks(text: &str) -> (tasks: Vec<Task>)
    ensures
        models(tasks@) == decode(text@),
        forall|i: int| 0 <= i < tasks.len() ==> (#[trigger] tasks[i]).id <= max_id(),
{
    let chars = chars_of(text);
    let found = split_lines(chars.as_slice());
    let mut tasks: Vec<Task> = Vec::new();
    let mut i: usize = 0;
    assert(views(found@).take(0).len() == 0);
    while i < found.len()
        invariant
            i <= found.len(),
            models(tasks@) == records(views(found@).take(i as int)),
            forall|j: int| 0 <= j < tasks.len() ==> (#[trigger] tasks[j]).id <= max_id(),
        decreases found.len() - i,
    {
        let fields = split_chars(found[i].as_slice(), SEPARATOR);
        proof {
            assert(views(found@).take(i + 1) == views(found@).take(i as int).push(found[i as int]@));
            lemma_records_push(views(found@).take(i as int), found[i as int]@);
            assert(views(fields@).len() == fields.len());
        }
        if fields.len() == 3 {
            let task = Task {
                id: id_of(fields[0].as_slice()),
                description: string_of(fields[1].as_slice()),
                completed: flag_of(fields[2].as_slice()),
            };
            proof {
                assert(views(fields@)[0] == fields[0]@);
                assert(views(fields@)[1] == fields[1]@);
                assert(views(fields@)[2] == fields[2]@);
                assert(decode_line(found[i as int]@) == Some(task@));
                assert(models(tasks@.push(task)) == models(tasks@).push(task@));
            }
            tasks.push(task);
        }
        i += 1;
    }
    proof {
        assert(views(found@).take(found.len() as int) == views(found@));
    }
    tasks
}

} // verus!
