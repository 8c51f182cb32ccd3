//! What holds of the byte layout and of the mutations, for every list.

use vstd::prelude::*;
use vstd::utf8::{
    decode_utf8_encode_utf8, encode_utf8, encode_utf8_decode_utf8, encode_utf8_valid_utf8,
};
use crate::codec::{fits_within, stored_list};
use crate::engine::{first_index, has_id, lemma_first_index, toggled};
use crate::model::{Effect, InstructionView, ListView, TaskView, TodoError};
use crate::number::{
    le_bytes, le_value, lemma_le_bytes_len, lemma_le_bytes_of_value, lemma_le_limits,
    lemma_le_value_bound, lemma_le_value_of_bytes,
};
use crate::program::{has_room, outcome};
use crate::wire::{
    flag_at, flag_wire, instruction_from, list_fits, list_from, list_wire, task_at, task_wire,
    tasks_at, tasks_wire, text_at, text_fits, text_wire, u64_at,
};

verus! {

/// The bytes `wire` stand in `bytes` from `pos` on.
pub open spec fn holds_at(bytes: Seq<u8>, pos: int, wire: Seq<u8>) -> bool {
    0 <= pos && pos + wire.len() <= bytes.len() && bytes.subrange(pos, pos + wire.len()) == wire
}

/// Where two runs of bytes stand one behind the other, each stands in its
/// place, and the other way round.
proof fn lemma_holds_at_split(bytes: Seq<u8>, pos: int, first: Seq<u8>, second: Seq<u8>)
    ensures
        holds_at(bytes, pos, first + second) <==> holds_at(bytes, pos, first) && holds_at(
            bytes,
            pos + first.len(),
            second,
        ),
{
    let both = first + second;
    let mid = pos + first.len();
    if holds_at(bytes, pos, both) {
        assert(bytes.subrange(pos, mid) =~= both.subrange(0, first.len() as int));
        assert(both.subrange(0, first.len() as int) =~= first);
        assert(bytes.subrange(mid, mid + second.len()) =~= both.subrange(
            first.len() as int,
            both.len() as int,
        ));
        assert(both.subrange(first.len() as int, both.len() as int) =~= second);
    }
    if holds_at(bytes, pos, first) && holds_at(bytes, mid, second) {
        assert(bytes.subrange(pos, pos + both.len()) =~= bytes.subrange(pos, mid)
            + bytes.subrange(mid, mid + second.len()));
    }
}

/// A number is read back from where its bytes stand.
proof fn lemma_u64_read_back(bytes: Seq<u8>, pos: int, x: u64)
    requires
        holds_at(bytes, pos, le_bytes(x as nat, 8)),
    ensures
        le_bytes(x as nat, 8).len() == 8,
        u64_at(bytes, pos) == Some((x, pos + 8)),
{
    lemma_le_limits();
    lemma_le_bytes_len(x as nat, 8);
    lemma_le_value_of_bytes(x as nat, 8);
}

/// Where a number is read, its bytes stand.
proof fn lemma_u64_stands(bytes: Seq<u8>, pos: int, x: u64, end: int)
    requires
        u64_at(bytes, pos) == Some((x, end)),
    ensures
        end == pos + 8,
        le_bytes(x as nat, 8).len() == 8,
        holds_at(bytes, pos, le_bytes(x as nat, 8)),
{
    let field = bytes.subrange(pos, pos + 8);
    lemma_le_limits();
    lemma_le_value_bound(field);
    lemma_le_bytes_of_value(field);
}

/// A text is read back from where its bytes stand.
proof fn lemma_text_read_back(bytes: Seq<u8>, pos: int, content: Seq<char>)
    requires
        text_fits(content),
        holds_at(bytes, pos, text_wire(content)),
    ensures
        text_wire(content).len() == 4 + encode_utf8(content).len(),
        text_at(bytes, pos) == Some((content, pos + text_wire(content).len())),
{
    let utf8 = encode_utf8(content);
    lemma_le_limits();
    lemma_le_bytes_len(utf8.len(), 4);
    lemma_le_value_of_bytes(utf8.len(), 4);
    lemma_holds_at_split(bytes, pos, le_bytes(utf8.len(), 4), utf8);
    encode_utf8_valid_utf8(content);
    encode_utf8_decode_utf8(content);
}

/// Where a text is read, it can be written and its bytes stand.
proof fn lemma_text_stands(bytes: Seq<u8>, pos: int, content: Seq<char>, end: int)
    requires
        text_at(bytes, pos) == Some((content, end)),
    ensures
        text_fits(content),
        end == pos + text_wire(content).len(),
        holds_at(bytes, pos, text_wire(content)),
{
    let prefix = bytes.subrange(pos, pos + 4);
    let len = le_value(prefix);
    let utf8 = bytes.subrange(pos + 4, pos + 4 + len);
    decode_utf8_encode_utf8(utf8);
    lemma_le_limits();
    lemma_le_value_bound(prefix);
    lemma_le_bytes_of_value(prefix);
    assert(utf8.len() == len);
    lemma_holds_at_split(bytes, pos, prefix, utf8);
}

/// A flag is read back from where its byte stands.
proof fn lemma_flag_read_back(bytes: Seq<u8>, pos: int, flag: bool)
    requires
        holds_at(bytes, pos, flag_wire(flag)),
    ensures
        flag_at(bytes, pos) == Some((flag, pos + 1)),
{
    assert(bytes.subrange(pos, pos + 1)[0] == bytes[pos]);
}

/// Where a flag is read, its byte stands.
proof fn lemma_flag_stands(bytes: Seq<u8>, pos: int, flag: bool, end: int)
    requires
        flag_at(bytes, pos) == Some((flag, end)),
    ensures
        end == pos + 1,
        holds_at(bytes, pos, flag_wire(flag)),
{
    assert(bytes.subrange(pos, pos + 1) =~= flag_wire(bytes[pos] == 1));
}

/// A task is read back from where its bytes stand.
pub proof fn lemma_task_read_back(bytes: Seq<u8>, pos: int, task: TaskView)
    requires
        text_fits(task.content),
        holds_at(bytes, pos, task_wire(task)),
    ensures
        task_at(bytes, pos) == Some((task, pos + task_wire(task).len())),
{
    let id = le_bytes(task.id as nat, 8);
    let text = text_wire(task.content);
    let flag = flag_wire(task.completed);
    lemma_holds_at_split(bytes, pos, id + text, flag);
    lemma_holds_at_split(bytes, pos, id, text);
    lemma_u64_read_back(bytes, pos, task.id);
    lemma_text_read_back(bytes, pos + 8, task.content);
    lemma_flag_read_back(bytes, pos + 8 + text.len(), task.completed);
}

/// Where a task is read, it can be written and its bytes stand.
pub proof fn lemma_task_stands(bytes: Seq<u8>, pos: int, task: TaskView, end: int)
    requires
        task_at(bytes, pos) == Some((task, end)),
    ensures
        text_fits(task.content),
        end == pos + task_wire(task).len(),
        holds_at(bytes, pos, task_wire(task)),
{
    let id = le_bytes(task.id as nat, 8);
    let text = text_wire(task.content);
    let flag = flag_wire(task.completed);
    lemma_u64_stands(bytes, pos, task.id, pos + 8);
    lemma_text_stands(bytes, pos + 8, task.content, end - 1);
    lemma_flag_stands(bytes, end - 1, task.completed, end);
    lemma_holds_at_split(bytes, pos, id, text);
    lemma_holds_at_split(bytes, pos, id + text, flag);
}

/// Tasks are read back from where their bytes stand.
pub proof fn lemma_tasks_read_back(bytes: Seq<u8>, pos: int, tasks: Seq<TaskView>)
    requires
        forall|i: int| 0 <= i < tasks.len() ==> text_fits((#[trigger] tasks[i]).content),
        holds_at(bytes, pos, tasks_wire(tasks)),
    ensures
        tasks_at(bytes, pos, tasks.len()) == Some((tasks, pos + tasks_wire(tasks).len())),
    decreases tasks.len(),
{
    if tasks.len() == 0 {
        assert(tasks =~= Seq::empty());
    } else {
        let front = tasks.drop_last();
        let last = tasks.last();
        lemma_holds_at_split(bytes, pos, tasks_wire(front), task_wire(last));
        lemma_tasks_read_back(bytes, pos, front);
        lemma_task_read_back(bytes, pos + tasks_wire(front).len(), last);
        assert(front.push(last) =~= tasks);
    }
}

/// Where tasks are read, there are as many as were asked for, they can be
/// written and their bytes stand.
pub proof fn lemma_tasks_stand(
    bytes: Seq<u8>,
    pos: int,
    count: nat,
    tasks: Seq<TaskView>,
    end: int,
)
    requires
        0 <= pos <= bytes.len(),
        tasks_at(bytes, pos, count) == Some((tasks, end)),
    ensures
        tasks.len() == count,
        forall|i: int| 0 <= i < count ==> text_fits((#[trigger] tasks[i]).content),
        end == pos + tasks_wire(tasks).len(),
        holds_at(bytes, pos, tasks_wire(tasks)),
    decreases count,
{
    if count == 0 {
        assert(bytes.subrange(pos, pos) =~= Seq::<u8>::empty());
    } else {
        let fewer = (count - 1) as nat;
        let (front, mid) = tasks_at(bytes, pos, fewer)->0;
        lemma_tasks_stand(bytes, pos, fewer, front, mid);
        let (last, after) = task_at(bytes, mid)->0;
        lemma_task_stands(bytes, mid, last, end);
        assert(tasks == front.push(last));
        assert(tasks.drop_last() =~= front);
        assert(tasks.last() == last);
        lemma_holds_at_split(bytes, pos, tasks_wire(front), task_wire(last));
    }
}

/// Writing a list and reading the bytes gives the list back, whatever
/// stands behind the list's bytes: bytes left over from a longer list do no
/// harm.
pub proof fn law_list_round_trip(list: ListView, tail: Seq<u8>)
    requires
        list_fits(list),
    ensures
        list_from(list_wire(list)) == Some(list),
        list_from(list_wire(list) + tail) == Some(list),
        stored_list(list_wire(list)) == Some(list),
        stored_list(list_wire(list) + tail) == Some(list),
{
    let wire = list_wire(list);
    assert((wire + tail).subrange(0, wire.len() as int) =~= wire);
    assert(wire.subrange(0, wire.len() as int) =~= wire);
    lemma_list_read_back(wire + tail, list);
    lemma_list_read_back(wire, list);
}

/// A list is read back from bytes that start with its bytes.
proof fn lemma_list_read_back(bytes: Seq<u8>, list: ListView)
    requires
        list_fits(list),
        holds_at(bytes, 0, list_wire(list)),
    ensures
        list_from(bytes) == Some(list),
{
    let count = le_bytes(list.tasks.len(), 8);
    let tasks = tasks_wire(list.tasks);
    let counter = le_bytes(list.last_id as nat, 8);
    lemma_holds_at_split(bytes, 0, count + tasks, counter);
    lemma_holds_at_split(bytes, 0, count, tasks);
    lemma_u64_read_back(bytes, 0, list.tasks.len() as u64);
    lemma_tasks_read_back(bytes, 8, list.tasks);
    lemma_u64_read_back(bytes, 8 + tasks.len() as int, list.last_id);
}

/// Bytes that hold a list start with the bytes of that list, and of no
/// other: each list has one encoding.
pub proof fn law_list_bytes_unique(bytes: Seq<u8>, list: ListView)
    requires
        list_from(bytes) == Some(list),
    ensures
        list_fits(list),
        holds_at(bytes, 0, list_wire(list)),
{
    let (n, start) = u64_at(bytes, 0)->0;
    lemma_u64_stands(bytes, 0, n, start);
    let (tasks_read, mid) = tasks_at(bytes, 8, n as nat)->0;
    lemma_tasks_stand(bytes, 8, n as nat, list.tasks, mid);
    lemma_u64_stands(bytes, mid, list.last_id, mid + 8);
    let count = le_bytes(list.tasks.len(), 8);
    let tasks = tasks_wire(list.tasks);
    let counter = le_bytes(list.last_id as nat, 8);
    lemma_holds_at_split(bytes, 0, count, tasks);
    lemma_holds_at_split(bytes, 0, count + tasks, counter);
}

/// What a successful invocation stores is read back by the next one as the
/// list that this one produced: the stored list after the call is the
/// stored list before it with the command applied.
pub proof fn law_invocation_round_trip(
    program_id: Seq<u8>,
    owner: Seq<u8>,
    data: Seq<u8>,
    capacity: int,
    instruction_data: Seq<u8>,
    stored: Seq<u8>,
    effect: Effect,
)
    requires
        outcome(program_id, owner, data, capacity, instruction_data) == Ok::<
            (Seq<u8>, Effect),
            TodoError,
        >((stored, effect)),
    ensures
        stored.len() <= capacity,
        instruction_from(instruction_data) is Some,
        stored_list(data) is Some,
        stored_list(stored) == Some(
            stored_list(data)->0.apply(instruction_from(instruction_data)->0),
        ),
{
    let next = stored_list(data)->0.apply(instruction_from(instruction_data)->0);
    law_list_round_trip(next, Seq::empty());
}

/// Invocations keep the stored list well formed and never lower its
/// counter: where the stored list is well formed and the call succeeds, the
/// list that is stored afterwards is well formed, and its counter is no
/// smaller.
pub proof fn law_invocation_keeps_ids(
    program_id: Seq<u8>,
    owner: Seq<u8>,
    data: Seq<u8>,
    capacity: int,
    instruction_data: Seq<u8>,
    list: ListView,
    stored: Seq<u8>,
    effect: Effect,
)
    requires
        stored_list(data) == Some(list),
        list.well_formed(),
        has_room(data, instruction_data),
        outcome(program_id, owner, data, capacity, instruction_data) == Ok::<
            (Seq<u8>, Effect),
            TodoError,
        >((stored, effect)),
    ensures
        stored_list(stored) is Some,
        stored_list(stored)->0.well_formed(),
        stored_list(stored)->0.last_id >= list.last_id,
{
    law_invocation_round_trip(
        program_id,
        owner,
        data,
        capacity,
        instruction_data,
        stored,
        effect,
    );
    law_apply_keeps_ids(list, instruction_from(instruction_data)->0);
}

/// On an account in which nothing was stored, adding a task stores the list
/// of that one task, with id 1 and the counter at 1, where the capacity
/// holds it.
pub proof fn law_first_task(
    program_id: Seq<u8>,
    capacity: int,
    instruction_data: Seq<u8>,
    content: Seq<char>,
)
    requires
        instruction_from(instruction_data) == Some(InstructionView::AddTask { content }),
    ensures
        ({
            let first = ListView {
                tasks: seq![TaskView { id: 1, content, completed: false }],
                last_id: 1,
            };
            let fresh = Seq::<u8>::empty();
            outcome(program_id, program_id, fresh, capacity, instruction_data) == if fits_within(
                first,
                capacity,
            ) {
                Ok::<(Seq<u8>, Effect), TodoError>((list_wire(first), Effect::Added))
            } else {
                Err::<(Seq<u8>, Effect), TodoError>(TodoError::BufferTooSmall)
            }
        }),
{
    let first = ListView { tasks: seq![TaskView { id: 1, content, completed: false }], last_id: 1 };
    assert(ListView::empty().add_task(content).tasks =~= first.tasks);
}

/// The list after the commands, applied in their order.
pub open spec fn run(list: ListView, commands: Seq<InstructionView>) -> ListView
    decreases commands.len(),
{
    if commands.len() == 0 {
        list
    } else {
        run(list, commands.drop_last()).apply(commands.last())
    }
}

/// Each command of the sequence can be applied when its turn comes.
pub open spec fn can_run(list: ListView, commands: Seq<InstructionView>) -> bool
    decreases commands.len(),
{
    commands.len() == 0 || (can_run(list, commands.drop_last()) && run(
        list,
        commands.drop_last(),
    ).accepts(commands.last()))
}

/// The list without any command is well formed.
pub proof fn law_empty_well_formed()
    ensures
        ListView::empty().well_formed(),
{
}

/// A command keeps a list well formed and never lowers the counter. A task
/// that is added gets an id that no task of the list has, and that is above
/// every id that the counter has covered.
pub proof fn law_apply_keeps_ids(list: ListView, instruction: InstructionView)
    requires
        list.well_formed(),
        list.accepts(instruction),
    ensures
        list.apply(instruction).well_formed(),
        list.apply(instruction).last_id >= list.last_id,
        instruction is AddTask ==> list.apply(instruction).tasks.last().id == list.last_id + 1
            && !has_id(list.tasks, list.apply(instruction).tasks.last().id),
{
    let after = list.apply(instruction);
    match instruction {
        InstructionView::AddTask { content } => {},
        InstructionView::DeleteTask { id } => {
            lemma_first_index(list.tasks, id);
        },
        InstructionView::ToggleTask { id } => {
            lemma_first_index(list.tasks, id);
        },
    }
}

/// After any sequence of commands on a well-formed list, the list is well
/// formed: no two tasks share an id and none is above the counter. The
/// counter is never below what it was after fewer of the commands.
pub proof fn law_run_keeps_ids(list: ListView, commands: Seq<InstructionView>, fewer: int)
    requires
        list.well_formed(),
        can_run(list, commands),
        0 <= fewer <= commands.len(),
    ensures
        run(list, commands).well_formed(),
        can_run(list, commands.take(fewer)),
        run(list, commands.take(fewer)).last_id <= run(list, commands).last_id,
    decreases commands.len(),
{
    if fewer == commands.len() {
        assert(commands.take(fewer) =~= commands);
    }
    if commands.len() > 0 {
        let front = commands.drop_last();
        let k = if fewer == commands.len() { fewer - 1 } else { fewer };
        law_run_keeps_ids(list, front, k);
        law_apply_keeps_ids(run(list, front), commands.last());
        if fewer < commands.len() {
            assert(commands.take(fewer) =~= front.take(fewer));
        }
    }
}

/// Deleting takes out the first task with the id and nothing else: the tasks
/// before it stay where they are, and those behind it move up by one place,
/// in their order. The counter stays.
pub proof fn law_delete_keeps_order(list: ListView, id: u64)
    requires
        has_id(list.tasks, id),
    ensures
        ({
            let at = first_index(list.tasks, id);
            let after = list.delete_task(id);
            &&& 0 <= at < list.tasks.len()
            &&& list.tasks[at].id == id
            &&& after.last_id == list.last_id
            &&& after.tasks.len() == list.tasks.len() - 1
            &&& forall|j: int| 0 <= j < at ==> after.tasks[j] == list.tasks[j]
            &&& forall|j: int| at <= j < after.tasks.len() ==> after.tasks[j] == list.tasks[j + 1]
        }),
{
    lemma_first_index(list.tasks, id);
}

/// Toggling flips the flag of the first task with the id and changes nothing
/// else: every task stays in its place, with its id and its text. The
/// counter stays.
pub proof fn law_toggle_keeps_order(list: ListView, id: u64)
    requires
        has_id(list.tasks, id),
    ensures
        ({
            let at = first_index(list.tasks, id);
            let after = list.toggle_task(id);
            &&& 0 <= at < list.tasks.len()
            &&& list.tasks[at].id == id
            &&& after.last_id == list.last_id
            &&& after.tasks.len() == list.tasks.len()
            &&& after.tasks[at] == toggled(list.tasks[at])
            &&& forall|j: int|
                0 <= j < after.tasks.len() && j != at ==> after.tasks[j] == list.tasks[j]
        }),
{
    lemma_first_index(list.tasks, id);
}

/// Deleting or toggling an id that no task has leaves the list as it is, and
/// so its bytes.
pub proof fn law_absent_id_changes_nothing(list: ListView, id: u64)
    requires
        !has_id(list.tasks, id),
    ensures
        list.delete_task(id) == list,
        list.toggle_task(id) == list,
        list_wire(list.delete_task(id)) == list_wire(list),
        list_wire(list.toggle_task(id)) == list_wire(list),
{
    lemma_first_index(list.tasks, id);
}

/// An invocation that deletes or toggles an id which no stored task has
/// changes nothing. Where it succeeds, it stores the bytes of the list that
/// was stored; and where something was stored, those are byte for byte the
/// bytes that held the list before.
pub proof fn law_absent_id_keeps_bytes(
    program_id: Seq<u8>,
    data: Seq<u8>,
    capacity: int,
    instruction_data: Seq<u8>,
    list: ListView,
    id: u64,
)
    requires
        instruction_from(instruction_data) == Some(InstructionView::DeleteTask { id })
            || instruction_from(instruction_data) == Some(InstructionView::ToggleTask { id }),
        stored_list(data) == Some(list),
        !has_id(list.tasks, id),
        fits_within(list, capacity),
    ensures
        outcome(program_id, program_id, data, capacity, instruction_data) == Ok::<
            (Seq<u8>, Effect),
            TodoError,
        >((list_wire(list), Effect::Unchanged)),
        data.len() > 0 ==> holds_at(data, 0, list_wire(list)),
{
    law_absent_id_changes_nothing(list, id);
    if data.len() > 0 {
        law_list_bytes_unique(data, list);
    }
}

} // verus!
