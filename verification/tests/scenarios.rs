use todo_app::{
    process_instruction, Effect, StorageAccount, TodoError, TodoInstruction, TodoList, TodoTask,
};

const PROGRAM: [u8; 32] = [7u8; 32];

fn task(id: u64, content: &str, completed: bool) -> TodoTask {
    TodoTask { id, content: content.to_string(), completed }
}

fn two_tasks() -> TodoList {
    TodoList { tasks: vec![task(1, "a", false), task(2, "b", false)], last_id: 2 }
}

fn two_tasks_bytes() -> Vec<u8> {
    let mut bytes = vec![2, 0, 0, 0, 0, 0, 0, 0];
    bytes.extend_from_slice(&[1, 0, 0, 0, 0, 0, 0, 0, 1, 0, 0, 0, b'a', 0]);
    bytes.extend_from_slice(&[2, 0, 0, 0, 0, 0, 0, 0, 1, 0, 0, 0, b'b', 0]);
    bytes.extend_from_slice(&[2, 0, 0, 0, 0, 0, 0, 0]);
    bytes
}

fn account_with(data: Vec<u8>, capacity: usize) -> StorageAccount {
    StorageAccount { owner: PROGRAM, data, capacity }
}

fn id_command(tag: u8, id: u64) -> Vec<u8> {
    let mut bytes = vec![tag];
    bytes.extend_from_slice(&id.to_le_bytes());
    bytes
}

fn add_command(content: &str) -> Vec<u8> {
    let mut bytes = vec![0u8];
    bytes.extend_from_slice(&(content.len() as u32).to_le_bytes());
    bytes.extend_from_slice(content.as_bytes());
    bytes
}

#[test]
fn empty_buffer_then_add_gives_first_task() {
    let mut list = TodoList::load(&[]).unwrap();
    assert_eq!(list, TodoList { tasks: vec![], last_id: 0 });
    let command = TodoInstruction::try_from_slice(&add_command("buy milk")).unwrap();
    assert_eq!(command, TodoInstruction::AddTask { content: "buy milk".to_string() });
    list.apply(command);
    assert_eq!(list, TodoList { tasks: vec![task(1, "buy milk", false)], last_id: 1 });
}

#[test]
fn toggle_second_task() {
    let mut list = two_tasks();
    list.apply(TodoInstruction::ToggleTask { id: 2 });
    assert_eq!(
        list,
        TodoList { tasks: vec![task(1, "a", false), task(2, "b", true)], last_id: 2 }
    );
}

#[test]
fn toggle_twice_restores_flag() {
    let mut list = two_tasks();
    list.apply(TodoInstruction::ToggleTask { id: 1 });
    assert!(list.tasks[0].completed);
    list.apply(TodoInstruction::ToggleTask { id: 1 });
    assert_eq!(list, two_tasks());
}

#[test]
fn remove_first_task_keeps_counter() {
    let mut list = two_tasks();
    list.apply(TodoInstruction::DeleteTask { id: 1 });
    assert_eq!(list, TodoList { tasks: vec![task(2, "b", false)], last_id: 2 });
}

#[test]
fn remove_unknown_id_changes_nothing() {
    let mut list = two_tasks();
    assert_eq!(list.apply(TodoInstruction::DeleteTask { id: 99 }), Effect::Unchanged);
    assert_eq!(list, two_tasks());
    assert_eq!(list.apply(TodoInstruction::ToggleTask { id: 99 }), Effect::Unchanged);
    assert_eq!(list, two_tasks());
}

#[test]
fn apply_says_what_it_did() {
    let mut list = two_tasks();
    assert_eq!(list.apply(TodoInstruction::AddTask { content: "c".to_string() }), Effect::Added);
    assert_eq!(list.apply(TodoInstruction::ToggleTask { id: 3 }), Effect::Toggled);
    assert_eq!(list.apply(TodoInstruction::DeleteTask { id: 3 }), Effect::Deleted);
    assert_eq!(list.apply(TodoInstruction::DeleteTask { id: 3 }), Effect::Unchanged);
    assert_eq!(list, TodoList { tasks: two_tasks().tasks, last_id: 3 });
}

#[test]
fn ids_are_not_reused_after_removal() {
    let mut list = two_tasks();
    list.apply(TodoInstruction::DeleteTask { id: 2 });
    list.apply(TodoInstruction::AddTask { content: "c".to_string() });
    assert_eq!(list, TodoList { tasks: vec![task(1, "a", false), task(3, "c", false)], last_id: 3 });
}

#[test]
fn first_match_is_taken_where_ids_repeat() {
    let mut list = TodoList { tasks: vec![task(5, "x", false), task(5, "y", false)], last_id: 5 };
    list.apply(TodoInstruction::ToggleTask { id: 5 });
    assert_eq!(list.tasks, vec![task(5, "x", true), task(5, "y", false)]);
    list.apply(TodoInstruction::DeleteTask { id: 5 });
    assert_eq!(list.tasks, vec![task(5, "y", false)]);
}

#[test]
fn removal_keeps_the_order_of_the_rest() {
    let mut list = TodoList {
        tasks: vec![task(1, "a", false), task(2, "b", true), task(3, "c", false), task(4, "d", true)],
        last_id: 4,
    };
    list.apply(TodoInstruction::DeleteTask { id: 2 });
    assert_eq!(list.tasks, vec![task(1, "a", false), task(3, "c", false), task(4, "d", true)]);
    list.apply(TodoInstruction::ToggleTask { id: 3 });
    assert_eq!(list.tasks, vec![task(1, "a", false), task(3, "c", true), task(4, "d", true)]);
}

#[test]
fn counter_never_decreases_over_a_run() {
    let mut list = TodoList::load(&[]).unwrap();
    let commands = vec![
        TodoInstruction::AddTask { content: "a".to_string() },
        TodoInstruction::AddTask { content: "b".to_string() },
        TodoInstruction::DeleteTask { id: 1 },
        TodoInstruction::ToggleTask { id: 2 },
        TodoInstruction::AddTask { content: "c".to_string() },
        TodoInstruction::DeleteTask { id: 3 },
        TodoInstruction::DeleteTask { id: 3 },
    ];
    let mut last = 0u64;
    for command in commands {
        list.apply(command);
        assert!(list.last_id >= last);
        last = list.last_id;
        for (i, a) in list.tasks.iter().enumerate() {
            assert!(a.id <= list.last_id);
            for b in list.tasks.iter().skip(i + 1) {
                assert_ne!(a.id, b.id);
            }
        }
    }
    assert_eq!(list, TodoList { tasks: vec![task(2, "b", true)], last_id: 3 });
}

#[test]
fn invocation_toggles_the_stored_task() {
    let mut account = account_with(two_tasks_bytes(), 44);
    let r = process_instruction(&PROGRAM, &mut account, &id_command(2, 2));
    assert_eq!(r, Ok(Effect::Toggled));
    let mut expected = two_tasks_bytes();
    expected[35] = 1;
    assert_eq!(account, account_with(expected, 44));
    assert_eq!(
        TodoList::load(&account.data),
        Ok(TodoList { tasks: vec![task(1, "a", false), task(2, "b", true)], last_id: 2 })
    );
}

#[test]
fn invocation_removes_and_the_next_one_reads_the_result() {
    let mut account = account_with(two_tasks_bytes(), 44);
    let r = process_instruction(&PROGRAM, &mut account, &id_command(1, 1));
    assert_eq!(r, Ok(Effect::Deleted));
    let mut written = vec![1, 0, 0, 0, 0, 0, 0, 0];
    written.extend_from_slice(&[2, 0, 0, 0, 0, 0, 0, 0, 1, 0, 0, 0, b'b', 0]);
    written.extend_from_slice(&[2, 0, 0, 0, 0, 0, 0, 0]);
    assert_eq!(account, account_with(written, 44));
    assert_eq!(
        TodoList::load(&account.data),
        Ok(TodoList { tasks: vec![task(2, "b", false)], last_id: 2 })
    );
    let r = process_instruction(&PROGRAM, &mut account, &id_command(2, 2));
    assert_eq!(r, Ok(Effect::Toggled));
    assert_eq!(
        TodoList::load(&account.data),
        Ok(TodoList { tasks: vec![task(2, "b", true)], last_id: 2 })
    );
}

#[test]
fn bytes_left_over_from_a_longer_list_do_no_harm() {
    let mut region = two_tasks_bytes();
    let shorter = TodoList { tasks: vec![task(2, "b", false)], last_id: 2 };
    let written = shorter.to_bytes(44).unwrap();
    region[..written.len()].copy_from_slice(&written);
    assert_eq!(region.len(), 44);
    assert_ne!(&region[30..], &[0u8; 14][..]);
    assert_eq!(TodoList::load(&region), Ok(TodoList { tasks: vec![task(2, "b", false)], last_id: 2 }));

    let mut account = account_with(region, 44);
    let r = process_instruction(&PROGRAM, &mut account, &id_command(2, 2));
    assert_eq!(r, Ok(Effect::Toggled));
    assert_eq!(account.data.len(), 30);
    assert_eq!(
        TodoList::load(&account.data),
        Ok(TodoList { tasks: vec![task(2, "b", true)], last_id: 2 })
    );
}

#[test]
fn invocation_with_unknown_id_stores_the_same_bytes() {
    let mut account = account_with(two_tasks_bytes(), 44);
    assert_eq!(process_instruction(&PROGRAM, &mut account, &id_command(1, 99)), Ok(Effect::Unchanged));
    assert_eq!(account, account_with(two_tasks_bytes(), 44));
    assert_eq!(process_instruction(&PROGRAM, &mut account, &id_command(2, 99)), Ok(Effect::Unchanged));
    assert_eq!(account, account_with(two_tasks_bytes(), 44));
}

#[test]
fn invocation_by_a_stranger_is_refused() {
    let mut account = StorageAccount { owner: [9u8; 32], data: two_tasks_bytes(), capacity: 100 };
    let r = process_instruction(&PROGRAM, &mut account, &id_command(1, 1));
    assert_eq!(r, Err(TodoError::UnauthorizedAccess));
    assert_eq!(
        account,
        StorageAccount { owner: [9u8; 32], data: two_tasks_bytes(), capacity: 100 }
    );
}

#[test]
fn owner_that_differs_in_the_last_byte_is_refused() {
    let mut owner = PROGRAM;
    owner[31] = 8;
    let mut account = StorageAccount { owner, data: two_tasks_bytes(), capacity: 100 };
    let r = process_instruction(&PROGRAM, &mut account, &id_command(2, 1));
    assert_eq!(r, Err(TodoError::UnauthorizedAccess));
    assert_eq!(account.data, two_tasks_bytes());
}

#[test]
fn ownership_is_checked_before_any_decoding() {
    let mut account = StorageAccount { owner: [0u8; 32], data: vec![1, 2, 3], capacity: 3 };
    let r = process_instruction(&PROGRAM, &mut account, &[200]);
    assert_eq!(r, Err(TodoError::UnauthorizedAccess));
    assert_eq!(account.data, vec![1, 2, 3]);
}

#[test]
fn invocation_on_a_fresh_account_stores_the_first_task() {
    let mut account = account_with(vec![], 64);
    let r = process_instruction(&PROGRAM, &mut account, &add_command("buy milk"));
    assert_eq!(r, Ok(Effect::Added));
    let mut expected = vec![1, 0, 0, 0, 0, 0, 0, 0];
    expected.extend_from_slice(&[1, 0, 0, 0, 0, 0, 0, 0, 8, 0, 0, 0]);
    expected.extend_from_slice(b"buy milk");
    expected.push(0);
    expected.extend_from_slice(&[1, 0, 0, 0, 0, 0, 0, 0]);
    assert_eq!(account, account_with(expected, 64));
    assert_eq!(
        TodoList::load(&account.data),
        Ok(TodoList { tasks: vec![task(1, "buy milk", false)], last_id: 1 })
    );
}

#[test]
fn invocation_on_a_zero_filled_account_stores_the_first_task() {
    let mut account = account_with(vec![0u8; 64], 64);
    let r = process_instruction(&PROGRAM, &mut account, &add_command("buy milk"));
    assert_eq!(r, Ok(Effect::Added));
    assert_eq!(account.data.len(), 37);
    assert_eq!(
        TodoList::load(&account.data),
        Ok(TodoList { tasks: vec![task(1, "buy milk", false)], last_id: 1 })
    );
}

#[test]
fn unknown_id_on_a_fresh_account_stores_the_empty_list() {
    let mut account = account_with(vec![], 16);
    let r = process_instruction(&PROGRAM, &mut account, &id_command(1, 1));
    assert_eq!(r, Ok(Effect::Unchanged));
    assert_eq!(account, account_with(vec![0u8; 16], 16));
    let r = process_instruction(&PROGRAM, &mut account, &id_command(2, 1));
    assert_eq!(r, Ok(Effect::Unchanged));
    assert_eq!(account, account_with(vec![0u8; 16], 16));
}

#[test]
fn several_invocations_on_one_account() {
    let mut account = account_with(vec![], 100);
    assert_eq!(process_instruction(&PROGRAM, &mut account, &add_command("a")), Ok(Effect::Added));
    assert_eq!(process_instruction(&PROGRAM, &mut account, &add_command("b")), Ok(Effect::Added));
    assert_eq!(account.data, two_tasks_bytes());
    assert_eq!(process_instruction(&PROGRAM, &mut account, &id_command(1, 1)), Ok(Effect::Deleted));
    assert_eq!(process_instruction(&PROGRAM, &mut account, &add_command("c")), Ok(Effect::Added));
    assert_eq!(process_instruction(&PROGRAM, &mut account, &id_command(2, 3)), Ok(Effect::Toggled));
    assert_eq!(process_instruction(&PROGRAM, &mut account, &id_command(1, 1)), Ok(Effect::Unchanged));
    assert_eq!(
        TodoList::load(&account.data),
        Ok(TodoList { tasks: vec![task(2, "b", false), task(3, "c", true)], last_id: 3 })
    );
    assert_eq!(account.capacity, 100);
    assert_eq!(account.owner, PROGRAM);
}

#[test]
fn invocation_that_outgrows_the_capacity_fails_and_stores_nothing() {
    let mut account = account_with(two_tasks_bytes(), 57);
    let r = process_instruction(&PROGRAM, &mut account, &add_command("c"));
    assert_eq!(r, Err(TodoError::BufferTooSmall));
    assert_eq!(account, account_with(two_tasks_bytes(), 57));
    account.capacity = 58;
    let r = process_instruction(&PROGRAM, &mut account, &add_command("c"));
    assert_eq!(r, Ok(Effect::Added));
    assert_eq!(account.data.len(), 58);
    assert_eq!(TodoList::load(&account.data).unwrap().tasks[2], task(3, "c", false));
}

#[test]
fn invocation_on_an_account_without_capacity_fails() {
    let mut account = account_with(vec![], 0);
    let r = process_instruction(&PROGRAM, &mut account, &add_command("buy milk"));
    assert_eq!(r, Err(TodoError::BufferTooSmall));
    assert_eq!(account, account_with(vec![], 0));
    account.capacity = 36;
    let r = process_instruction(&PROGRAM, &mut account, &add_command("buy milk"));
    assert_eq!(r, Err(TodoError::BufferTooSmall));
    assert!(account.data.is_empty());
}

#[test]
fn invocation_with_a_bad_command_fails_and_stores_nothing() {
    let mut account = account_with(two_tasks_bytes(), 100);
    let r = process_instruction(&PROGRAM, &mut account, &[3, 0, 0, 0, 0, 0, 0, 0, 0]);
    assert_eq!(r, Err(TodoError::Decode));
    let mut longer = id_command(1, 1);
    longer.push(0);
    let r = process_instruction(&PROGRAM, &mut account, &longer);
    assert_eq!(r, Err(TodoError::Decode));
    assert_eq!(account, account_with(two_tasks_bytes(), 100));
}

#[test]
fn invocation_on_a_truncated_list_fails_and_stores_nothing() {
    let mut data = two_tasks_bytes();
    data.pop();
    let mut account = account_with(data.clone(), 100);
    let r = process_instruction(&PROGRAM, &mut account, &id_command(2, 1));
    assert_eq!(r, Err(TodoError::Decode));
    assert_eq!(account, account_with(data, 100));
}

#[test]
fn two_tasks_encode_to_the_documented_layout() {
    assert_eq!(two_tasks().to_bytes(44), Ok(two_tasks_bytes()));
    assert_eq!(TodoList::try_from_slice(&two_tasks_bytes()), Ok(two_tasks()));
}
