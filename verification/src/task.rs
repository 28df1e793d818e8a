//! A single entry of the to-do list and its mathematical model.

use vstd::prelude::*;

verus! {

/// What a task is, in specifications: a number, a text and a flag.
pub struct TaskModel {
    pub id: nat,
    pub description: Seq<char>,
    pub completed: bool,
}

/// One entry of the list.
#[derive(Debug, PartialEq, Eq)]
pub struct Task {
    /// The number that the store gave the task; it never changes.
    pub id: usize,
    /// What is to be done, as the user wrote it.
    pub description: String,
    /// Whether it has been done.
    pub completed: bool,
}

impl View for Task {
    type V = TaskModel;

    open spec fn view(&self) -> TaskModel {
        TaskModel {
            id: self.id as nat,
            description: self.description@,
            completed: self.completed,
        }
    }
}

impl Clone for Task {
    fn clone(&self) -> (copy: Self)
        ensures
            copy == *self,
    {
        Task { id: self.id, description: self.description.clone(), completed: self.completed }
    }
}

/// The models of a run of tasks, in the same order.
pub open spec fn models(tasks: Seq<Task>) -> Seq<TaskModel> {
    tasks.map_values(|t: Task| t@)
}

/// The models of the first `k + 1` tasks are those of the first `k` and that of the next.
pub proof fn lemma_models_take(tasks: Seq<Task>, k: int)
    requires
        0 <= k < tasks.len(),
    ensures
        models(tasks.take(k + 1)) == models(tasks.take(k)).push(tasks[k]@),
{
}

} // verus!
