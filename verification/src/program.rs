//! One invocation: the ownership check, then decode, mutate and encode.

use vstd::prelude::*;
use crate::codec::{fits_within, stored_list};
use crate::model::{Effect, StorageAccount, TodoError, TodoInstruction, TodoList};
use crate::wire::{instruction_from, list_wire};

verus! {

/// What an invocation stores and what its command did, or why it fails.
///
/// The owner is compared first. Then the command and the stored list are
/// decoded and the command is applied. The bytes of the new list replace
/// all that was stored, if the account's capacity holds them.
pub open spec fn outcome(
    program_id: Seq<u8>,
    owner: Seq<u8>,
    data: Seq<u8>,
    capacity: int,
    instruction_data: Seq<u8>,
) -> Result<(Seq<u8>, Effect), TodoError> {
    if owner != program_id {
        Err(TodoError::UnauthorizedAccess)
    } else {
        match (instruction_from(instruction_data), stored_list(data)) {
            (Some(instruction), Some(list)) => {
                let next = list.apply(instruction);
                if fits_within(next, capacity) {
                    Ok((list_wire(next), list.effect(instruction)))
                } else {
                    Err(TodoError::BufferTooSmall)
                }
            },
            _ => Err(TodoError::Decode),
        }
    }
}

/// The stored list has an id left for the command: where both decode and
/// the command adds a task, the list's counter is below the largest number.
pub open spec fn has_room(data: Seq<u8>, instruction_data: Seq<u8>) -> bool {
    match (instruction_from(instruction_data), stored_list(data)) {
        (Some(instruction), Some(list)) => list.accepts(instruction),
        _ => true,
    }
}

/// The two identities are the same.
fn same_identity(a: &[u8; 32], b: &[u8; 32]) -> (same: bool)
    ensures
        same == (a@ == b@),
{
    let mut i: usize = 0;
    while i < 32
        invariant
            i <= 32,
            forall|j: int| 0 <= j < i ==> a@[j] == b@[j],
        decreases 32 - i,
    {
        if a[i] != b[i] {
            return false;
        }
        i += 1;
    }
    assert(a@ =~= b@);
    true
}

/// Handles one invocation of the program `program_id` on a storage account.
///
/// On success the account's stored bytes are the bytes of the new list and
/// nothing else, and the result says what the command did. On every failure
/// the account is as it was. Owner and capacity never change.
pub fn process_instruction(
    program_id: &[u8; 32],
    account: &mut StorageAccount,
    instruction_data: &[u8],
) -> (r: Result<Effect, TodoError>)
    requires
        old(account).owner@ == program_id@ ==> has_room(old(account).data@, instruction_data@),
    ensures
        final(account).owner == old(account).owner,
        final(account).capacity == old(account).capacity,
        match outcome(
            program_id@,
            old(account).owner@,
            old(account).data@,
            old(account).capacity as int,
            instruction_data@,
        ) {
            Ok((bytes, effect)) => r == Ok::<Effect, TodoError>(effect) && final(account).data@
                == bytes,
            Err(e) => r == Err::<Effect, TodoError>(e) && final(account).data@ == old(
                account,
            ).data@,
        },
{
    if !same_identity(&account.owner, program_id) {
        return Err(TodoError::UnauthorizedAccess);
    }
    let instruction = match TodoInstruction::try_from_slice(instruction_data) {
        Ok(instruction) => instruction,
        Err(e) => { return Err(e); },
    };
    let mut list = match TodoList::load(account.data.as_slice()) {
        Ok(list) => list,
        Err(e) => { return Err(e); },
    };
    let effect = list.apply(instruction);
    match list.to_bytes(account.capacity) {
        Ok(bytes) => {
            account.data = bytes;
            Ok(effect)
        },
        Err(e) => Err(e),
    }
}

} // verus!
