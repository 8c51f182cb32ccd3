//! The byte layout of tasks, lists and commands.
//!
//! Numbers are little-endian and of fixed width. A text is its length in
//! bytes, as four bytes, and then its UTF-8 bytes. A flag is one byte, 0 or 1.
//! A task is its id (eight bytes), its text and its flag. A list is the
//! number of its tasks (eight bytes), the tasks in order, and the counter
//! (eight bytes). A command is a tag byte and one field: tag 0 with a text
//! adds a task, tag 1 with an id (eight bytes) deletes one, tag 2 with an id
//! toggles one.
//!
//! A command fills its bytes exactly. A stored list stands at the start of
//! its bytes: an account keeps its size when the list shrinks, so what lies
//! behind the list is left over from an earlier, longer list and is ignored.

use vstd::prelude::*;
use vstd::slice::{slice_subrange, slice_to_vec};
use vstd::utf8::{decode_utf8, encode_utf8, valid_utf8};
use crate::model::{InstructionView, ListView, TaskView, TodoTask};
use crate::number::{le_bytes, le_value, read_le};

verus! {

/// The text's UTF-8 length can be written in four bytes.
pub open spec fn text_fits(content: Seq<char>) -> bool {
    encode_utf8(content).len() <= u32::MAX
}

/// The bytes of a text: its length, then its UTF-8 bytes.
pub open spec fn text_wire(content: Seq<char>) -> Seq<u8> {
    le_bytes(encode_utf8(content).len(), 4) + encode_utf8(content)
}

/// The byte of a flag.
pub open spec fn flag_wire(flag: bool) -> Seq<u8> {
    seq![if flag { 1u8 } else { 0u8 }]
}

/// The bytes of a task.
pub open spec fn task_wire(task: TaskView) -> Seq<u8> {
    le_bytes(task.id as nat, 8) + text_wire(task.content) + flag_wire(task.completed)
}

/// The bytes of the tasks, one after the other.
pub open spec fn tasks_wire(tasks: Seq<TaskView>) -> Seq<u8>
    decreases tasks.len(),
{
    if tasks.len() == 0 {
        Seq::empty()
    } else {
        tasks_wire(tasks.drop_last()) + task_wire(tasks.last())
    }
}

/// Every text of the list can be written.
pub open spec fn list_fits(list: ListView) -> bool {
    &&& list.tasks.len() <= u64::MAX
    &&& forall|i: int| 0 <= i < list.tasks.len() ==> text_fits((#[trigger] list.tasks[i]).content)
}

/// The bytes of a list.
pub open spec fn list_wire(list: ListView) -> Seq<u8> {
    le_bytes(list.tasks.len(), 8) + tasks_wire(list.tasks) + le_bytes(list.last_id as nat, 8)
}

/// The number that the eight bytes at `pos` hold, and where it ends.
pub open spec fn u64_at(bytes: Seq<u8>, pos: int) -> Option<(u64, int)> {
    if 0 <= pos && pos + 8 <= bytes.len() {
        Some((le_value(bytes.subrange(pos, pos + 8)) as u64, pos + 8))
    } else {
        None
    }
}

/// The text that starts at `pos`, and where it ends: none where the length
/// or the text runs past the end, or the text's bytes are not UTF-8.
pub open spec fn text_at(bytes: Seq<u8>, pos: int) -> Option<(Seq<char>, int)> {
    if 0 <= pos && pos + 4 <= bytes.len() {
        let end = pos + 4 + le_value(bytes.subrange(pos, pos + 4));
        if end <= bytes.len() && valid_utf8(bytes.subrange(pos + 4, end)) {
            Some((decode_utf8(bytes.subrange(pos + 4, end)), end))
        } else {
            None
        }
    } else {
        None
    }
}

/// The flag at `pos`, and where it ends: none at the end of the bytes, or
/// where the byte is neither 0 nor 1.
pub open spec fn flag_at(bytes: Seq<u8>, pos: int) -> Option<(bool, int)> {
    if 0 <= pos < bytes.len() && bytes[pos] <= 1 {
        Some((bytes[pos] == 1, pos + 1))
    } else {
        None
    }
}

/// The task that starts at `pos`, and where it ends.
pub open spec fn task_at(bytes: Seq<u8>, pos: int) -> Option<(TaskView, int)> {
    match u64_at(bytes, pos) {
        Some((id, p)) => match text_at(bytes, p) {
            Some((content, q)) => match flag_at(bytes, q) {
                Some((completed, r)) => Some((TaskView { id, content, completed }, r)),
                None => None,
            },
            None => None,
        },
        None => None,
    }
}

/// The `count` tasks that start at `pos`, and where the last one ends.
pub open spec fn tasks_at(bytes: Seq<u8>, pos: int, count: nat) -> Option<(Seq<TaskView>, int)>
    decreases count,
{
    if count == 0 {
        Some((Seq::empty(), pos))
    } else {
        match tasks_at(bytes, pos, (count - 1) as nat) {
            Some((tasks, p)) => match task_at(bytes, p) {
                Some((task, q)) => Some((tasks.push(task), q)),
                None => None,
            },
            None => None,
        }
    }
}

/// The list that stands at the start of the bytes. What lies behind the
/// list's last byte is not read, and does not make the list malformed.
pub open spec fn list_from(bytes: Seq<u8>) -> Option<ListView> {
    match u64_at(bytes, 0) {
        Some((count, p)) => match tasks_at(bytes, p, count as nat) {
            Some((tasks, q)) => match u64_at(bytes, q) {
                Some((last_id, r)) => Some(ListView { tasks, last_id }),
                None => None,
            },
            None => None,
        },
        None => None,
    }
}

/// The command that the bytes hold from their first to their last byte.
pub open spec fn instruction_from(bytes: Seq<u8>) -> Option<InstructionView> {
    if bytes.len() == 0 {
        None
    } else if bytes[0] == 0 {
        match text_at(bytes, 1) {
            Some((content, p)) => if p == bytes.len() {
                Some(InstructionView::AddTask { content })
            } else {
                None
            },
            None => None,
        }
    } else if bytes[0] == 1 || bytes[0] == 2 {
        match u64_at(bytes, 1) {
            Some((id, p)) => if p != bytes.len() {
                None
            } else if bytes[0] == 1 {
                Some(InstructionView::DeleteTask { id })
            } else {
                Some(InstructionView::ToggleTask { id })
            },
            None => None,
        }
    } else {
        None
    }
}

/// `String::from_utf8` of std turns the bytes into a text exactly when they
/// are UTF-8, and the text's UTF-8 bytes are then those bytes.
#[verifier::external_body]
fn text_from_utf8(bytes: Vec<u8>) -> (text: Option<String>)
    ensures
        match text {
            Some(s) => valid_utf8(bytes@) && encode_utf8(s@) == bytes@,
            None => !valid_utf8(bytes@),
        },
{
    match String::from_utf8(bytes) {
        Ok(s) => Some(s),
        Err(_) => None,
    }
}

/// Reads the number at `pos`.
pub(crate) fn read_u64(data: &[u8], pos: usize) -> (r: Option<(u64, usize)>)
    requires
        pos <= data@.len(),
    ensures
        match r {
            Some((x, end)) => u64_at(data@, pos as int) == Some((x, end as int)),
            None => u64_at(data@, pos as int) is None,
        },
{
    if data.len() - pos < 8 {
        return None;
    }
    let x: u64 = read_le(data, pos, pos + 8);
    Some((x, pos + 8))
}

/// Reads the text at `pos`.
pub(crate) fn read_text(data: &[u8], pos: usize) -> (r: Option<(String, usize)>)
    requires
        pos <= data@.len(),
    ensures
        match r {
            Some((s, end)) => text_at(data@, pos as int) == Some((s@, end as int)),
            None => text_at(data@, pos as int) is None,
        },
{
    if data.len() - pos < 4 {
        return None;
    }
    let start: usize = pos + 4;
    let len: u64 = read_le(data, pos, start);
    if ((data.len() - start) as u64) < len {
        return None;
    }
    let end: usize = start + len as usize;
    let raw: Vec<u8> = slice_to_vec(slice_subrange(data, start, end));
    match text_from_utf8(raw) {
        Some(s) => {
            proof {
                vstd::utf8::encode_utf8_decode_utf8(s@);
            }
            Some((s, end))
        },
        None => None,
    }
}

/// Reads the flag at `pos`.
pub(crate) fn read_flag(data: &[u8], pos: usize) -> (r: Option<(bool, usize)>)
    requires
        pos <= data@.len(),
    ensures
        match r {
            Some((flag, end)) => flag_at(data@, pos as int) == Some((flag, end as int)),
            None => flag_at(data@, pos as int) is None,
        },
{
    if pos >= data.len() {
        return None;
    }
    let byte: u8 = data[pos];
    if byte > 1 {
        return None;
    }
    Some((byte == 1, pos + 1))
}

/// Reads the task at `pos`.
pub(crate) fn read_task(data: &[u8], pos: usize) -> (r: Option<(TodoTask, usize)>)
    requires
        pos <= data@.len(),
    ensures
        match r {
            Some((task, end)) => task_at(data@, pos as int) == Some((task@, end as int)),
            None => task_at(data@, pos as int) is None,
        },
{
    let (id, p) = match read_u64(data, pos) {
        Some(found) => found,
        None => { return None; },
    };
    let (content, q) = match read_text(data, p) {
        Some(found) => found,
        None => { return None; },
    };
    let (completed, end) = match read_flag(data, q) {
        Some(found) => found,
        None => { return None; },
    };
    Some((TodoTask { id, content, completed }, end))
}

} // verus!
