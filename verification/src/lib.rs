//! A to-do list kept in the bytes of a storage account of fixed capacity.
//!
//! One call decodes a command, loads the list from the account's stored
//! bytes, applies the command and stores the list's new bytes. Every step is
//! a function with a contract over the byte layout and over the list's
//! mathematical view.

pub mod codec;
pub mod engine;
pub mod laws;
pub mod model;
pub mod number;
pub mod program;
pub mod wire;

pub use model::{
    Effect, InstructionView, ListView, StorageAccount, TaskView, TodoError, TodoInstruction,
    TodoList, TodoTask,
};
pub use program::process_instruction;
