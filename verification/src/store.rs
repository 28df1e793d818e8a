//! The task store: the tasks in the order in which they came, and the
//! counter that numbers them.

use vstd::prelude::*;
use crate::codec::{
    decode, decode_tasks, encode, encode_tasks, max_id, readable, theorem_round_trip, SEPARATOR,
};
use crate::task::{models, Task, TaskModel};
use crate::text::free_of;

verus! {

/// What a store is, in specifications.
pub struct StoreModel {
    /// The tasks, oldest first.
    pub tasks: Seq<TaskModel>,
    /// The id that the next new task gets.
    pub next_id: nat,
}

/// The least number that is at least `next_id` and lies above the id of
/// every one of `records`.
pub open spec fn next_after(next_id: nat, records: Seq<TaskModel>) -> nat
    decreases records.len(),
{
    if records.len() == 0 {
        next_id
    } else {
        let before = next_after(next_id, records.drop_last());
        if records.last().id >= before {
            records.last().id + 1
        } else {
            before
        }
    }
}

impl StoreModel {
    /// The store that a session starts with.
    pub open spec fn empty() -> StoreModel {
        StoreModel { tasks: Seq::empty(), next_id: 1 }
    }

    /// The counter lies above the id of every task.
    pub open spec fn wf(self) -> bool {
        &&& self.next_id >= 1
        &&& forall|i: int| 0 <= i < self.tasks.len() ==> (#[trigger] self.tasks[i]).id < self.next_id
    }

    /// No description holds the separator of the text form or a line feed.
    pub open spec fn plain(self) -> bool {
        forall|i: int|
            0 <= i < self.tasks.len() ==> free_of(
                (#[trigger] self.tasks[i]).description,
                SEPARATOR,
            ) && free_of(self.tasks[i].description, '\n')
    }

    /// No two tasks share an id.
    pub open spec fn distinct_ids(self) -> bool {
        forall|i: int, j: int|
            0 <= i < j < self.tasks.len() ==> (#[trigger] self.tasks[i]).id != (
            #[trigger] self.tasks[j]).id
    }

    /// Whether some task has the id `id`.
    pub open spec fn has_id(self, id: nat) -> bool {
        exists|i: int| 0 <= i < self.tasks.len() && (#[trigger] self.tasks[i]).id == id
    }

    /// Whether the task at `i` is the first one with the id `id`.
    pub open spec fn is_first_with(self, id: nat, i: int) -> bool {
        &&& 0 <= i < self.tasks.len()
        &&& self.tasks[i].id == id
        &&& forall|j: int| 0 <= j < i ==> (#[trigger] self.tasks[j]).id != id
    }

    /// Where the first task with the id `id` stands, if there is one.
    pub open spec fn position(self, id: nat) -> int {
        choose|i: int| self.is_first_with(id, i)
    }

    /// The store after a task with the given description has been added.
    pub open spec fn add(self, description: Seq<char>) -> StoreModel {
        StoreModel {
            tasks: self.tasks.push(
                TaskModel { id: self.next_id, description, completed: false },
            ),
            next_id: self.next_id + 1,
        }
    }

    /// The store after one task has been added for each of `descriptions`, in their order.
    pub open spec fn add_all(self, descriptions: Seq<Seq<char>>) -> StoreModel
        decreases descriptions.len(),
    {
        if descriptions.len() == 0 {
            self
        } else {
            self.add_all(descriptions.drop_last()).add(descriptions.last())
        }
    }

    /// The store after the first task with the id `id` has been marked as done.
    /// A store without such a task stays as it is.
    pub open spec fn complete(self, id: nat) -> StoreModel {
        if self.has_id(id) {
            let i = self.position(id);
            StoreModel {
                tasks: self.tasks.update(
                    i,
                    TaskModel { completed: true, ..self.tasks[i] },
                ),
                next_id: self.next_id,
            }
        } else {
            self
        }
    }

    /// The store after `records` have been put behind its tasks, as they
    /// are, with the counter raised above their ids.
    pub open spec fn load(self, records: Seq<TaskModel>) -> StoreModel {
        StoreModel {
            tasks: self.tasks + records,
            next_id: next_after(self.next_id, records),
        }
    }
}

/// A task with the id `id` has a first one among its like, and only one.
pub proof fn lemma_position(store: StoreModel, id: nat)
    requires
        store.has_id(id),
    ensures
        store.is_first_with(id, store.position(id)),
        forall|i: int| store.is_first_with(id, i) ==> i == store.position(id),
{
    let some = choose|i: int| 0 <= i < store.tasks.len() && (#[trigger] store.tasks[i]).id == id;
    lemma_first_below(store, id, some);
}

/// Below any task with the id `id`, or at it, stands the first such task.
proof fn lemma_first_below(store: StoreModel, id: nat, k: int)
    requires
        0 <= k < store.tasks.len(),
        store.tasks[k].id == id,
    ensures
        exists|i: int| 0 <= i <= k && store.is_first_with(id, i),
    decreases k,
{
    if exists|j: int| 0 <= j < k && (#[trigger] store.tasks[j]).id == id {
        let j = choose|j: int| 0 <= j < k && (#[trigger] store.tasks[j]).id == id;
        lemma_first_below(store, id, j);
    } else {
        assert(store.is_first_with(id, k));
    }
}

/// A new task gets an id above all others, so a store that is in order
/// stays in order, and ids that were distinct stay distinct.
pub proof fn lemma_add_keeps_order(store: StoreModel, description: Seq<char>)
    requires
        store.wf(),
    ensures
        store.add(description).wf(),
        store.distinct_ids() ==> store.add(description).distinct_ids(),
        forall|i: int|
            0 <= i < store.tasks.len() ==> (#[trigger] store.tasks[i]).id < store.add(
                description,
            ).tasks.last().id,
{
}

/// Tasks that are added one after the other get consecutive ids, counting
/// up from the counter, whatever their descriptions are; the tasks that were
/// there stay as they are.
pub proof fn theorem_ids_count_up(store: StoreModel, descriptions: Seq<Seq<char>>)
    ensures
        store.add_all(descriptions).next_id == store.next_id + descriptions.len(),
        store.add_all(descriptions).tasks.len() == store.tasks.len() + descriptions.len(),
        store.add_all(descriptions).tasks.take(store.tasks.len() as int) == store.tasks,
        forall|i: int|
            store.tasks.len() <= i < store.tasks.len() + descriptions.len() ==> (
            #[trigger] store.add_all(descriptions).tasks[i]) == (TaskModel {
                id: (store.next_id + (i - store.tasks.len())) as nat,
                description: descriptions[i - store.tasks.len()],
                completed: false,
            }),
    decreases descriptions.len(),
{
    let old_len = store.tasks.len() as int;
    if descriptions.len() > 0 {
        theorem_ids_count_up(store, descriptions.drop_last());
        let before = store.add_all(descriptions.drop_last());
        let after = store.add_all(descriptions);
        assert(after.tasks.take(old_len) == before.tasks.take(old_len));
        assert forall|i: int| old_len <= i < old_len + descriptions.len() implies (
        #[trigger] after.tasks[i]) == (TaskModel {
            id: (store.next_id + (i - old_len)) as nat,
            description: descriptions[i - old_len],
            completed: false,
        }) by {
            if i < old_len + descriptions.len() - 1 {
                assert(after.tasks[i] == before.tasks[i]);
                assert(descriptions.drop_last()[i - old_len] == descriptions[i - old_len]);
            }
        }
    } else {
        assert(store.tasks.take(old_len) == store.tasks);
    }
}

/// In a store that starts empty, the tasks get the ids 1, 2, 3 and so on in
/// the order in which they are added: each id is greater than all before it.
pub proof fn theorem_ids_start_at_one(descriptions: Seq<Seq<char>>)
    ensures
        StoreModel::empty().add_all(descriptions).tasks.len() == descriptions.len(),
        StoreModel::empty().add_all(descriptions).next_id == descriptions.len() + 1,
        forall|i: int|
            0 <= i < descriptions.len() ==> (#[trigger] StoreModel::empty().add_all(
                descriptions,
            ).tasks[i]).id == i + 1,
        forall|i: int, j: int|
            0 <= i < j < descriptions.len() ==> (#[trigger] StoreModel::empty().add_all(
                descriptions,
            ).tasks[i]).id < (#[trigger] StoreModel::empty().add_all(descriptions).tasks[j]).id,
{
    theorem_ids_count_up(StoreModel::empty(), descriptions);
}

/// Marking an id that no task has leaves the store as it is.
pub proof fn theorem_complete_absent(store: StoreModel, id: nat)
    requires
        !store.has_id(id),
    ensures
        store.complete(id) == store,
{
}

/// Marking a task changes its flag and nothing else: every task keeps its
/// place, its id and its description, every other task keeps its flag, and
/// the counter stays.
pub proof fn lemma_complete_changes_one_flag(store: StoreModel, id: nat)
    ensures
        store.complete(id).next_id == store.next_id,
        store.complete(id).tasks.len() == store.tasks.len(),
        forall|i: int|
            0 <= i < store.tasks.len() ==> {
                let before = #[trigger] store.tasks[i];
                let after = store.complete(id).tasks[i];
                &&& after.id == before.id
                &&& after.description == before.description
                &&& after.completed == (before.completed || (store.has_id(id) && i
                    == store.position(id)))
            },
        store.wf() ==> store.complete(id).wf(),
        store.distinct_ids() ==> store.complete(id).distinct_ids(),
{
    if store.has_id(id) {
        lemma_position(store, id);
        let after = store.complete(id);
        assert forall|i: int| 0 <= i < after.tasks.len() implies (#[trigger] after.tasks[i]).id
            == store.tasks[i].id by {}
    }
}

/// Marking a task twice comes to the same as marking it once.
pub proof fn theorem_complete_idempotent(store: StoreModel, id: nat)
    ensures
        store.complete(id).complete(id) == store.complete(id),
{
    if store.has_id(id) {
        let once = store.complete(id);
        let i = store.position(id);
        lemma_position(store, id);
        assert(once.tasks[i].id == id);
        assert(once.is_first_with(id, i)) by {
            assert forall|j: int| 0 <= j < i implies (#[trigger] once.tasks[j]).id != id by {
                assert(once.tasks[j] == store.tasks[j]);
            }
        }
        lemma_position(once, id);
        assert(once.complete(id).tasks == once.tasks);
    }
}

/// The counter that `next_after` gives is at least the one it was given, lies
/// above every id of the records, and is the least such number.
pub proof fn lemma_next_after(next_id: nat, records: Seq<TaskModel>)
    ensures
        next_after(next_id, records) >= next_id,
        forall|i: int|
            0 <= i < records.len() ==> (#[trigger] records[i]).id < next_after(next_id, records),
        next_after(next_id, records) == next_id || exists|i: int|
            0 <= i < records.len() && (#[trigger] records[i]).id + 1 == next_after(
                next_id,
                records,
            ),
    decreases records.len(),
{
    if records.len() > 0 {
        let first = records.drop_last();
        lemma_next_after(next_id, first);
        assert forall|i: int| 0 <= i < records.len() implies (#[trigger] records[i]).id
            < next_after(next_id, records) by {
            if i < records.len() - 1 {
                assert(first[i] == records[i]);
            }
        }
        if records.last().id >= next_after(next_id, first) {
            assert(records[records.len() - 1].id + 1 == next_after(next_id, records));
        } else if next_after(next_id, first) != next_id {
            let i = choose|i: int|
                0 <= i < first.len() && (#[trigger] first[i]).id + 1 == next_after(next_id, first);
            assert(records[i].id + 1 == next_after(next_id, records));
        }
    }
}

/// After loading, the counter lies above every id that came in, so the
/// store stays in order and the next task to be added gets an id above them all.
pub proof fn theorem_load_keeps_order(store: StoreModel, records: Seq<TaskModel>)
    requires
        store.wf(),
    ensures
        store.load(records).wf(),
        store.load(records).next_id >= store.next_id,
        forall|i: int|
            0 <= i < records.len() ==> (#[trigger] records[i]).id < store.load(records).next_id,
        forall|i: int, description: Seq<char>|
            0 <= i < records.len() ==> (#[trigger] records[i]).id < (#[trigger] store.load(
                records,
            ).add(description)).tasks.last().id,
{
    lemma_next_after(store.next_id, records);
}

/// Writing the tasks of a store and loading the text into an empty store
/// gives the same tasks in the same order, provided that no description
/// holds the separator or a line feed. The new store is in order, and its
/// counter is not above that of the old one.
pub proof fn theorem_save_then_load(store: StoreModel)
    requires
        store.wf(),
        store.next_id <= max_id() + 1,
        store.plain(),
    ensures
        decode(encode(store.tasks)) == store.tasks,
        StoreModel::empty().load(decode(encode(store.tasks))).tasks == store.tasks,
        StoreModel::empty().load(decode(encode(store.tasks))).wf(),
        StoreModel::empty().load(decode(encode(store.tasks))).next_id <= store.next_id,
{
    assert forall|i: int| 0 <= i < store.tasks.len() implies readable(#[trigger] store.tasks[i]) by {}
    theorem_round_trip(store.tasks);
    theorem_load_keeps_order(StoreModel::empty(), store.tasks);
    lemma_next_after(1, store.tasks);
    assert(Seq::<TaskModel>::empty() + store.tasks == store.tasks);
}

/// Why a task could not be added.
#[derive(Debug, Clone, Copy, PartialEq, Eq)]
pub enum AddError {
    /// The description was empty.
    EmptyDescription,
    /// Every id has been given out.
    IdsExhausted,
}

/// The tasks of a session and the counter that numbers them.
pub struct TaskManager {
    tasks: Vec<Task>,
    next_id: usize,
}

impl View for TaskManager {
    type V = StoreModel;

    closed spec fn view(&self) -> StoreModel {
        StoreModel { tasks: models(self.tasks@), next_id: self.next_id as nat }
    }
}

impl TaskManager {
    /// A store without tasks, whose first task will get the id 1.
    pub fn new() -> (store: Self)
        ensures
            store@ == StoreModel::empty(),
            store@.wf(),
            store@.distinct_ids(),
    {
        let store = TaskManager { tasks: Vec::new(), next_id: 1 };
        assert(store@.tasks =~= Seq::empty());
        store
    }

    /// Adds a task with the given description and returns its id.
    ///
    /// The new task gets the counter's value as its id, is not done, and
    /// stands behind all others; the counter goes up by one. An empty
    /// description is refused, and so is any description once the counter
    /// has reached the top of its range; the store then stays as it is.
    pub fn add_task(&mut self, description: String) -> (added: Result<usize, AddError>)
        ensures
            match added {
                Ok(id) => {
                    &&& description@.len() > 0
                    &&& id == old(self)@.next_id
                    &&& id <= max_id()
                    &&& final(self)@ == old(self)@.add(description@)
                },
                Err(AddError::EmptyDescription) => {
                    &&& description@.len() == 0
                    &&& final(self)@ == old(self)@
                },
                Err(AddError::IdsExhausted) => {
                    &&& description@.len() > 0
                    &&& old(self)@.next_id > max_id()
                    &&& final(self)@ == old(self)@
                },
            },
            old(self)@.wf() ==> final(self)@.wf(),
            old(self)@.wf() && old(self)@.distinct_ids() ==> final(self)@.distinct_ids(),
    {
        proof {
            if self@.wf() {
                lemma_add_keeps_order(self@, description@);
            }
        }
        if description.as_str().is_empty() {
            return Err(AddError::EmptyDescription);
        }
        if self.next_id == usize::MAX {
            return Err(AddError::IdsExhausted);
        }
        let id = self.next_id;
        let ghost before = self.tasks@;
        self.tasks.push(Task { id, description, completed: false });
        self.next_id = id + 1;
        proof {
            assert(models(self.tasks@) == models(before).push(
                TaskModel { id: id as nat, description: description@, completed: false },
            ));
        }
        Ok(id)
    }

    /// The tasks, oldest first.
    pub fn list_tasks(&self) -> (tasks: &[Task])
        ensures
            models(tasks@) == self@.tasks,
    {
        self.tasks.as_slice()
    }

    /// Marks the first task with the id `id` as done and says whether there
    /// was one. Marking a task that is done already changes nothing.
    pub fn complete_task(&mut self, id: usize) -> (found: bool)
        ensures
            found == old(self)@.has_id(id as nat),
            found ==> old(self)@.is_first_with(id as nat, old(self)@.position(id as nat)),
            !found ==> final(self)@ == old(self)@,
            final(self)@ == old(self)@.complete(id as nat),
            old(self)@.wf() ==> final(self)@.wf(),
            old(self)@.distinct_ids() ==> final(self)@.distinct_ids(),
    {
        proof {
            lemma_complete_changes_one_flag(self@, id as nat);
        }
        let mut i: usize = 0;
        while i < self.tasks.len()
            invariant
                i <= self.tasks.len(),
                *self == *old(self),
                forall|j: int| 0 <= j < i ==> (#[trigger] self@.tasks[j]).id != id,
            decreases self.tasks.len() - i,
        {
            if self.tasks[i].id == id {
                proof {
                    assert(self@.tasks[i as int].id == id);
                    assert(self@.is_first_with(id as nat, i as int));
                    lemma_position(self@, id as nat);
                }
                let ghost before = self.tasks@;
                self.tasks[i].completed = true;
                proof {
                    assert(models(self.tasks@) == models(before).update(
                        i as int,
                        TaskModel { completed: true, ..models(before)[i as int] },
                    ));
                }
                return true;
            }
            i += 1;
        }
        false
    }

    /// The tasks as text, one line each, oldest first.
    ///
    /// The text reads back as the same tasks, as long as the store is in
    /// order and no description holds the separator or a line feed.
    pub fn to_text(&self) -> (text: String)
        ensures
            text@ == encode(self@.tasks),
            self@.wf() && self@.plain() ==> decode(text@) == self@.tasks,
    {
        proof {
            if self@.wf() && self@.plain() {
                theorem_save_then_load(self@);
            }
        }
        encode_tasks(self.tasks.as_slice())
    }

    /// Puts the tasks that `text` holds behind those of the store, in the
    /// order of their lines, and raises the counter above their ids.
    ///
    /// Nothing is checked against the tasks that the store already has: a
    /// text that repeats an id brings that id in twice.
    pub fn load_text(&mut self, text: &str)
        ensures
            final(self)@ == old(self)@.load(decode(text@)),
            final(self)@.next_id >= old(self)@.next_id,
            forall|i: int|
                0 <= i < decode(text@).len() ==> (#[trigger] decode(text@)[i]).id
                    < final(self)@.next_id,
            old(self)@.wf() ==> final(self)@.wf(),
    {
        proof {
            lemma_next_after(self@.next_id, decode(text@));
            if self@.wf() {
                theorem_load_keeps_order(self@, decode(text@));
            }
        }
        let mut records = decode_tasks(text);
        let mut next = self.next_id;
        let mut i: usize = 0;
        assert(models(records@).take(0).len() == 0);
        while i < records.len()
            invariant
                i <= records.len(),
                next == next_after(old(self)@.next_id, models(records@).take(i as int)),
                forall|j: int| 0 <= j < records.len() ==> (#[trigger] records[j]).id <= max_id(),
            decreases records.len() - i,
        {
            proof {
                assert(models(records@).take(i + 1).drop_last() == models(records@).take(i as int));
            }
            if records[i].id >= next {
                next = records[i].id + 1;
            }
            i += 1;
        }
        proof {
            assert(models(records@).take(records.len() as int) == models(records@));
            assert(models(self.tasks@ + records@) == models(self.tasks@) + models(records@));
        }
        self.next_id = next;
        self.tasks.append(&mut records);
    }

    /// The id that the next new task gets.
    pub fn next_id(&self) -> (next: usize)
        ensures
            next == self@.next_id,
    {
        self.next_id
    }

    /// How many tasks there are.
    pub fn len(&self) -> (count: usize)
        ensures
            count == self@.tasks.len(),
    {
        self.tasks.len()
    }

    /// Whether there is no task at all.
    pub fn is_empty(&self) -> (empty: bool)
        ensures
            empty == (self@.tasks.len() == 0),
    {
        self.tasks.len() == 0
    }
}

} // verus!
