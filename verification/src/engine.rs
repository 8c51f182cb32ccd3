//! The three mutations of the list, as functions on its view and as the
//! executable method that performs them.

use vstd::prelude::*;
use crate::model::{
    Effect, InstructionView, ListView, TaskView, TodoInstruction, TodoList, TodoTask,
};

verus! {

/// The index of the first task with the given id, or the length of the
/// sequence where no task has it.
pub open spec fn first_index(tasks: Seq<TaskView>, id: u64) -> int
    decreases tasks.len(),
{
    if tasks.len() == 0 {
        0
    } else if tasks[0].id == id {
        0
    } else {
        1 + first_index(tasks.drop_first(), id)
    }
}

/// Some task of the sequence has the given id.
pub open spec fn has_id(tasks: Seq<TaskView>, id: u64) -> bool {
    exists|i: int| 0 <= i < tasks.len() && (#[trigger] tasks[i]).id == id
}

/// The task with its flag flipped.
pub open spec fn toggled(task: TaskView) -> TaskView {
    TaskView { id: task.id, content: task.content, completed: !task.completed }
}

impl ListView {
    /// The list before any command: no task, and no id given out.
    pub open spec fn empty() -> ListView {
        ListView { tasks: Seq::empty(), last_id: 0 }
    }

    /// No two tasks share an id, and no id is above the counter.
    pub open spec fn well_formed(self) -> bool {
        &&& forall|i: int|
            0 <= i < self.tasks.len() ==> (#[trigger] self.tasks[i]).id <= self.last_id
        &&& forall|i: int, j: int|
            0 <= i < j < self.tasks.len() ==> (#[trigger] self.tasks[i]).id != (
            #[trigger] self.tasks[j]).id
    }

    /// A new task is appended under the next id, which becomes the counter.
    pub open spec fn add_task(self, content: Seq<char>) -> ListView
        recommends
            self.last_id < u64::MAX,
    {
        let id = (self.last_id + 1) as u64;
        ListView {
            tasks: self.tasks.push(TaskView { id, content, completed: false }),
            last_id: id,
        }
    }

    /// The first task with the given id leaves; without one, nothing changes.
    pub open spec fn delete_task(self, id: u64) -> ListView {
        let i = first_index(self.tasks, id);
        if i < self.tasks.len() {
            ListView { tasks: self.tasks.remove(i), last_id: self.last_id }
        } else {
            self
        }
    }

    /// The first task with the given id has its flag flipped; without one,
    /// nothing changes.
    pub open spec fn toggle_task(self, id: u64) -> ListView {
        let i = first_index(self.tasks, id);
        if i < self.tasks.len() {
            ListView { tasks: self.tasks.update(i, toggled(self.tasks[i])), last_id: self.last_id }
        } else {
            self
        }
    }

    /// The command can be applied: adding needs an id above the counter.
    pub open spec fn accepts(self, instruction: InstructionView) -> bool {
        instruction is AddTask ==> self.last_id < u64::MAX
    }

    /// What the command does: adding always adds, deleting and toggling act
    /// where some task has the id.
    pub open spec fn effect(self, instruction: InstructionView) -> Effect {
        match instruction {
            InstructionView::AddTask { content } => Effect::Added,
            InstructionView::DeleteTask { id } => if has_id(self.tasks, id) {
                Effect::Deleted
            } else {
                Effect::Unchanged
            },
            InstructionView::ToggleTask { id } => if has_id(self.tasks, id) {
                Effect::Toggled
            } else {
                Effect::Unchanged
            },
        }
    }

    /// The list after the command.
    pub open spec fn apply(self, instruction: InstructionView) -> ListView {
        match instruction {
            InstructionView::AddTask { content } => self.add_task(content),
            InstructionView::DeleteTask { id } => self.delete_task(id),
            InstructionView::ToggleTask { id } => self.toggle_task(id),
        }
    }
}

/// `first_index` is the least index whose task has the id, and the length
/// exactly when there is none.
pub proof fn lemma_first_index(tasks: Seq<TaskView>, id: u64)
    ensures
        0 <= first_index(tasks, id) <= tasks.len(),
        first_index(tasks, id) < tasks.len() ==> tasks[first_index(tasks, id)].id == id,
        forall|j: int| 0 <= j < first_index(tasks, id) ==> (#[trigger] tasks[j]).id != id,
        first_index(tasks, id) < tasks.len() <==> has_id(tasks, id),
    decreases tasks.len(),
{
    if tasks.len() > 0 && tasks[0].id != id {
        let rest = tasks.drop_first();
        lemma_first_index(rest, id);
        let k = first_index(rest, id);
        assert forall|j: int| 0 <= j < 1 + k implies (#[trigger] tasks[j]).id != id by {
            if j > 0 {
                assert(rest[j - 1] == tasks[j]);
            }
        }
        if k < rest.len() {
            assert(tasks[1 + k] == rest[k]);
        }
        if has_id(tasks, id) {
            let w = choose|i: int| 0 <= i < tasks.len() && (#[trigger] tasks[i]).id == id;
            assert(rest[w - 1] == tasks[w]);
        }
    }
}

impl TodoList {
    /// The empty list.
    pub fn new() -> (list: TodoList)
        ensures
            list@ == ListView::empty(),
    {
        let list = TodoList { tasks: Vec::new(), last_id: 0 };
        assert(list@.tasks =~= Seq::empty());
        list
    }

    /// The index of the first task with the given id.
    fn position(&self, id: u64) -> (found: Option<usize>)
        ensures
            match found {
                Some(i) => i < self.tasks@.len() && i == first_index(self@.tasks, id),
                None => first_index(self@.tasks, id) == self@.tasks.len(),
            },
    {
        let mut i: usize = 0;
        while i < self.tasks.len()
            invariant
                i <= self.tasks@.len(),
                forall|j: int| 0 <= j < i ==> (#[trigger] self@.tasks[j]).id != id,
            decreases self.tasks@.len() - i,
        {
            if self.tasks[i].id == id {
                proof {
                    lemma_first_index(self@.tasks, id);
                    assert(self@.tasks[i as int].id == id);
                }
                return Some(i);
            }
            i += 1;
        }
        proof {
            lemma_first_index(self@.tasks, id);
        }
        None
    }

    /// Applies one command and says what it did. A command that names an id
    /// which no task has changes nothing, and is no failure.
    pub fn apply(&mut self, instruction: TodoInstruction) -> (effect: Effect)
        requires
            old(self)@.accepts(instruction@),
        ensures
            final(self)@ == old(self)@.apply(instruction@),
            effect == old(self)@.effect(instruction@),
    {
        proof {
            match instruction@ {
                InstructionView::AddTask { content } => {},
                InstructionView::DeleteTask { id } => { lemma_first_index(self@.tasks, id); },
                InstructionView::ToggleTask { id } => { lemma_first_index(self@.tasks, id); },
            }
        }
        match instruction {
            TodoInstruction::AddTask { content } => {
                let id: u64 = self.last_id + 1;
                self.tasks.push(TodoTask { id, content, completed: false });
                self.last_id = id;
                assert(self@.tasks =~= old(self)@.add_task(content@).tasks);
                Effect::Added
            },
            TodoInstruction::DeleteTask { id } => {
                if let Some(i) = self.position(id) {
                    self.tasks.remove(i);
                    assert(self@.tasks =~= old(self)@.tasks.remove(i as int));
                    Effect::Deleted
                } else {
                    Effect::Unchanged
                }
            },
            TodoInstruction::ToggleTask { id } => {
                if let Some(i) = self.position(id) {
                    let flag: bool = self.tasks[i].completed;
                    self.tasks[i].completed = !flag;
                    assert(self@.tasks =~= old(self)@.tasks.update(
                        i as int,
                        toggled(old(self)@.tasks[i as int]),
                    ));
                    Effect::Toggled
                } else {
                    Effect::Unchanged
                }
            },
        }
    }
}

} // verus!
