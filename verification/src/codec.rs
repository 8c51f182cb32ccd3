//! Decoding commands and lists from bytes, and encoding a list within a
//! fixed capacity.

use vstd::prelude::*;
use vstd::utf8::encode_utf8;
use crate::model::{
    task_views, ListView, TaskView, TodoError, TodoInstruction, TodoList, TodoTask,
};
use crate::number::{le_bytes, lemma_le_bytes_len, write_le};
use crate::wire::{
    instruction_from, list_fits, list_from, list_wire, read_task, read_text, read_u64, task_wire,
    tasks_at, tasks_wire, text_fits,
};

verus! {

/// The list that stored bytes stand for: the empty list where nothing was
/// stored, else the list at the start of the bytes.
pub open spec fn stored_list(bytes: Seq<u8>) -> Option<ListView> {
    if bytes.len() == 0 {
        Some(ListView::empty())
    } else {
        list_from(bytes)
    }
}

/// The list can be written into `capacity` bytes.
pub open spec fn fits_within(list: ListView, capacity: int) -> bool {
    list_fits(list) && list_wire(list).len() <= capacity
}

/// Where fewer tasks cannot be read, more cannot either.
pub proof fn lemma_tasks_at_none(bytes: Seq<u8>, pos: int, fewer: nat, count: nat)
    requires
        fewer <= count,
        tasks_at(bytes, pos, fewer) is None,
    ensures
        tasks_at(bytes, pos, count) is None,
    decreases count,
{
    if fewer < count {
        lemma_tasks_at_none(bytes, pos, fewer, (count - 1) as nat);
    }
}

/// The bytes of the first tasks are no longer than the bytes of all.
pub proof fn lemma_tasks_wire_prefix(tasks: Seq<TaskView>, n: int)
    requires
        0 <= n <= tasks.len(),
    ensures
        tasks_wire(tasks.take(n)).len() <= tasks_wire(tasks).len(),
    decreases tasks.len(),
{
    if n == tasks.len() {
        assert(tasks.take(n) =~= tasks);
    } else {
        assert(tasks.take(n) =~= tasks.drop_last().take(n));
        lemma_tasks_wire_prefix(tasks.drop_last(), n);
    }
}

/// Reads `count` tasks from `pos` on.
fn read_tasks(data: &[u8], pos: usize, count: u64) -> (r: Option<(Vec<TodoTask>, usize)>)
    requires
        pos <= data@.len(),
    ensures
        match r {
            Some((tasks, end)) => tasks_at(data@, pos as int, count as nat) == Some(
                (task_views(tasks@), end as int),
            ),
            None => tasks_at(data@, pos as int, count as nat) is None,
        },
{
    let mut tasks: Vec<TodoTask> = Vec::new();
    let mut p: usize = pos;
    let mut i: u64 = 0;
    assert(task_views(tasks@) =~= Seq::empty());
    while i < count
        invariant
            i <= count,
            p <= data@.len(),
            tasks_at(data@, pos as int, i as nat) == Some((task_views(tasks@), p as int)),
        decreases count - i,
    {
        match read_task(data, p) {
            Some((task, q)) => {
                assert(task_views(tasks@.push(task)) =~= task_views(tasks@).push(task@));
                tasks.push(task);
                p = q;
            },
            None => {
                proof {
                    lemma_tasks_at_none(data@, pos as int, (i + 1) as nat, count as nat);
                }
                return None;
            },
        }
        i += 1;
    }
    Some((tasks, p))
}

/// Appends the bytes to the vector.
fn append(out: &mut Vec<u8>, bytes: &[u8])
    ensures
        final(out)@ == old(out)@ + bytes@,
{
    out.extend_from_slice(bytes);
    assert(out@ =~= old(out)@ + bytes@);
}

/// Appends the task's bytes where they fit into what is left of `capacity`.
fn write_task(out: &mut Vec<u8>, task: &TodoTask, capacity: usize) -> (written: bool)
    requires
        old(out)@.len() <= capacity,
    ensures
        written == (text_fits(task@.content) && old(out)@.len() + task_wire(task@).len()
            <= capacity),
        written ==> final(out)@ == old(out)@ + task_wire(task@),
        !written ==> final(out)@ == old(out)@,
        task_wire(task@).len() == 13 + encode_utf8(task@.content).len(),
{
    proof {
        lemma_le_bytes_len(task@.id as nat, 8);
        lemma_le_bytes_len(encode_utf8(task@.content).len(), 4);
    }
    let text: &[u8] = task.content.as_str().as_bytes();
    let left: usize = capacity - out.len();
    if text.len() > 0xffff_ffff || left < 13 || left - 13 < text.len() {
        return false;
    }
    write_le(out, task.id, 8);
    write_le(out, text.len() as u64, 4);
    append(out, text);
    out.push(if task.completed { 1u8 } else { 0u8 });
    assert(out@ =~= old(out)@ + task_wire(task@));
    true
}

impl TodoInstruction {
    /// Decodes a command. The bytes must hold one command and nothing else.
    pub fn try_from_slice(data: &[u8]) -> (r: Result<TodoInstruction, TodoError>)
        ensures
            match r {
                Ok(instruction) => instruction_from(data@) == Some(instruction@),
                Err(e) => e == TodoError::Decode && instruction_from(data@) is None,
            },
    {
        if data.len() == 0 {
            return Err(TodoError::Decode);
        }
        let tag: u8 = data[0];
        if tag == 0 {
            match read_text(data, 1) {
                Some((content, end)) => {
                    if end == data.len() {
                        Ok(TodoInstruction::AddTask { content })
                    } else {
                        Err(TodoError::Decode)
                    }
                },
                None => Err(TodoError::Decode),
            }
        } else if tag == 1 || tag == 2 {
            match read_u64(data, 1) {
                Some((id, end)) => {
                    if end != data.len() {
                        Err(TodoError::Decode)
                    } else if tag == 1 {
                        Ok(TodoInstruction::DeleteTask { id })
                    } else {
                        Ok(TodoInstruction::ToggleTask { id })
                    }
                },
                None => Err(TodoError::Decode),
            }
        } else {
            Err(TodoError::Decode)
        }
    }
}

impl TodoList {
    /// Decodes the list at the start of the bytes. Bytes behind the list are
    /// not read.
    pub fn try_from_slice(data: &[u8]) -> (r: Result<TodoList, TodoError>)
        ensures
            match r {
                Ok(list) => list_from(data@) == Some(list@),
                Err(e) => e == TodoError::Decode && list_from(data@) is None,
            },
    {
        let (count, p) = match read_u64(data, 0) {
            Some(found) => found,
            None => { return Err(TodoError::Decode); },
        };
        let (tasks, q) = match read_tasks(data, p, count) {
            Some(found) => found,
            None => { return Err(TodoError::Decode); },
        };
        let (last_id, _) = match read_u64(data, q) {
            Some(found) => found,
            None => { return Err(TodoError::Decode); },
        };
        Ok(TodoList { tasks, last_id })
    }

    /// The list that stored bytes stand for: where nothing was stored, the
    /// list was never written and is the empty one.
    pub fn load(data: &[u8]) -> (r: Result<TodoList, TodoError>)
        ensures
            match r {
                Ok(list) => stored_list(data@) == Some(list@),
                Err(e) => e == TodoError::Decode && stored_list(data@) is None,
            },
    {
        if data.len() == 0 {
            Ok(TodoList::new())
        } else {
            TodoList::try_from_slice(data)
        }
    }

    /// The list's bytes, where they fit into `capacity` bytes. A text too
    /// long for its four-byte length has no bytes, and fits no capacity.
    pub fn to_bytes(&self, capacity: usize) -> (r: Result<Vec<u8>, TodoError>)
        ensures
            match r {
                Ok(bytes) => fits_within(self@, capacity as int) && bytes@ == list_wire(self@),
                Err(e) => e == TodoError::BufferTooSmall && !fits_within(self@, capacity as int),
            },
    {
        proof {
            lemma_le_bytes_len(self@.tasks.len(), 8);
            lemma_le_bytes_len(self@.last_id as nat, 8);
        }
        if capacity < 16 {
            return Err(TodoError::BufferTooSmall);
        }
        let room: usize = capacity - 8;
        let mut out: Vec<u8> = Vec::new();
        write_le(&mut out, self.tasks.len() as u64, 8);
        let mut i: usize = 0;
        assert(self@.tasks.take(0) =~= Seq::empty());
        while i < self.tasks.len()
            invariant
                i <= self.tasks@.len(),
                room == capacity - 8,
                out@.len() <= room,
                out@ == le_bytes(self@.tasks.len(), 8) + tasks_wire(self@.tasks.take(i as int)),
                le_bytes(self@.tasks.len(), 8).len() == 8,
                forall|j: int| 0 <= j < i ==> text_fits((#[trigger] self@.tasks[j]).content),
            decreases self.tasks@.len() - i,
        {
            let ghost before = self@.tasks.take(i as int);
            let ghost upto = self@.tasks.take(i + 1);
            assert(upto.drop_last() =~= before);
            assert(upto.last() == self.tasks@[i as int]@);
            if !write_task(&mut out, &self.tasks[i], room) {
                proof {
                    let task = self@.tasks[i as int];
                    lemma_le_bytes_len(self@.last_id as nat, 8);
                    lemma_tasks_wire_prefix(self@.tasks, i + 1);
                    assert(tasks_wire(upto) == tasks_wire(before) + task_wire(task));
                    assert(list_wire(self@).len() == 16 + tasks_wire(self@.tasks).len());
                    assert(!text_fits(task.content) || list_wire(self@).len() > capacity);
                }
                return Err(TodoError::BufferTooSmall);
            }
            i += 1;
        }
        assert(self@.tasks.take(i as int) =~= self@.tasks);
        write_le(&mut out, self.last_id, 8);
        Ok(out)
    }
}

} // verus!
