//! The data: tasks, the list that holds them, commands and errors, each with
//! the mathematical value that contracts speak of.

use vstd::prelude::*;

verus! {

/// What a [`TodoTask`] is in contracts.
pub struct TaskView {
    pub id: u64,
    pub content: Seq<char>,
    pub completed: bool,
}

/// One task of the list.
#[derive(Debug, PartialEq, Eq)]
pub struct TodoTask {
    pub id: u64,
    pub content: String,
    pub completed: bool,
}

impl View for TodoTask {
    type V = TaskView;

    open spec fn view(&self) -> TaskView {
        TaskView { id: self.id, content: self.content@, completed: self.completed }
    }
}

/// What a [`TodoList`] is in contracts.
pub struct ListView {
    pub tasks: Seq<TaskView>,
    pub last_id: u64,
}

/// The tasks in the order in which they were added, and the highest id that
/// was ever given out.
#[derive(Debug, PartialEq, Eq)]
pub struct TodoList {
    pub tasks: Vec<TodoTask>,
    pub last_id: u64,
}

/// The views of the tasks of a vector, in the vector's order.
pub open spec fn task_views(tasks: Seq<TodoTask>) -> Seq<TaskView> {
    Seq::new(tasks.len(), |i: int| tasks[i]@)
}

impl View for TodoList {
    type V = ListView;

    open spec fn view(&self) -> ListView {
        ListView { tasks: task_views(self.tasks@), last_id: self.last_id }
    }
}

/// What a [`TodoInstruction`] is in contracts.
pub enum InstructionView {
    AddTask { content: Seq<char> },
    DeleteTask { id: u64 },
    ToggleTask { id: u64 },
}

/// A command on the list.
#[derive(Debug, PartialEq, Eq)]
pub enum TodoInstruction {
    AddTask { content: String },
    DeleteTask { id: u64 },
    ToggleTask { id: u64 },
}

impl View for TodoInstruction {
    type V = InstructionView;

    open spec fn view(&self) -> InstructionView {
        match *self {
            TodoInstruction::AddTask { content } => InstructionView::AddTask { content: content@ },
            TodoInstruction::DeleteTask { id } => InstructionView::DeleteTask { id },
            TodoInstruction::ToggleTask { id } => InstructionView::ToggleTask { id },
        }
    }
}

/// What a command did to the list.
#[derive(Clone, Copy, Debug, PartialEq, Eq, Structural)]
pub enum Effect {
    /// A task was added.
    Added,
    /// The first task with the id was deleted.
    Deleted,
    /// The first task with the id had its flag flipped.
    Toggled,
    /// No task has the id: the list is as it was.
    Unchanged,
}

/// The storage account of one list: who owns it, the bytes that are stored
/// in it, and how many bytes it can hold. An account in which nothing was
/// stored yet has no bytes, whatever its capacity.
#[derive(Debug, PartialEq, Eq)]
pub struct StorageAccount {
    pub owner: [u8; 32],
    pub data: Vec<u8>,
    pub capacity: usize,
}

/// Why a call failed.
#[derive(Clone, Copy, Debug, PartialEq, Eq, Structural)]
pub enum TodoError {
    /// The command or the stored list is malformed: an unknown tag, a
    /// truncated field, a length that runs past the end, a flag that is
    /// neither 0 nor 1, text that is not UTF-8, or bytes left over behind a
    /// command.
    Decode,
    /// The account's owner is not the program that was invoked.
    UnauthorizedAccess,
    /// The encoded list does not fit the account's capacity.
    BufferTooSmall,
}

} // verus!
