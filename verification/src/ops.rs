//! The mutations of the command list. Each operates on a fresh snapshot
//! loaded by the host, which saves the result and then refreshes the
//! shortcut registrations.

use vstd::prelude::*;
use crate::models::{Command, CommandModel, CoreError};
use crate::text::str_eq;

verus! {

/// The position of the first command carrying `id`; meaningful only when
/// some command does.
pub open spec fn first_index_with_id(cs: Seq<CommandModel>, id: Seq<char>) -> int
    decreases cs.len(),
{
    if cs.len() == 0 {
        0
    } else if cs[0].id == id {
        0
    } else {
        1 + first_index_with_id(cs.skip(1), id)
    }
}

/// Whether some command in the snapshot carries `id`.
pub open spec fn some_id_matches(cs: Seq<CommandModel>, id: Seq<char>) -> bool {
    exists|i: int| 0 <= i < cs.len() && cs[i].id == id
}

/// When an identifier occurs, its first position is in range, carries it,
/// and nothing before it does.
pub proof fn lemma_first_index(cs: Seq<CommandModel>, id: Seq<char>)
    requires
        some_id_matches(cs, id),
    ensures
        0 <= first_index_with_id(cs, id) < cs.len(),
        cs[first_index_with_id(cs, id)].id == id,
        forall|j: int| 0 <= j < first_index_with_id(cs, id) ==> cs[j].id != id,
    decreases cs.len(),
{
    let witness = choose|i: int| 0 <= i < cs.len() && cs[i].id == id;
    assert(cs.len() > 0);
    if cs[0].id == id {
    } else {
        assert(cs.skip(1)[witness - 1] == cs[witness]);
        lemma_first_index(cs.skip(1), id);
        let fi = first_index_with_id(cs.skip(1), id);
        assert(cs.skip(1)[fi] == cs[fi + 1]);
        assert forall|j: int| 0 <= j < first_index_with_id(cs, id) implies cs[j].id != id by {
            if j > 0 {
                assert(cs.skip(1)[j - 1] == cs[j]);
            }
        }
    }
}

/// A match at `i` with none before it makes `i` the first position.
pub proof fn lemma_first_index_at(cs: Seq<CommandModel>, id: Seq<char>, i: int)
    requires
        0 <= i < cs.len(),
        cs[i].id == id,
        forall|j: int| 0 <= j < i ==> cs[j].id != id,
    ensures
        some_id_matches(cs, id),
        first_index_with_id(cs, id) == i,
    decreases cs.len(),
{
    if i == 0 {
    } else {
        assert(cs.skip(1)[i - 1] == cs[i]);
        assert(forall|j: int| 0 <= j < i - 1 ==> cs.skip(1)[j] == cs[j + 1]);
        lemma_first_index_at(cs.skip(1), id, i - 1);
    }
}

/// Appends a command to the snapshot. Identifier uniqueness is the caller's
/// responsibility and is not enforced here.
pub fn add_command(commands: &mut Vec<Command>, command: Command)
    ensures
        final(commands).deep_view() == old(commands).deep_view().push(command@),
{
    let ghost before = commands.deep_view();
    let ghost cv = command@;
    commands.push(command);
    proof {
        assert(commands.deep_view() =~= before.push(cv));
    }
}

/// Replaces the first command carrying the given command's identifier, or
/// reports that none does; the snapshot is unchanged on failure.
pub fn update_command(commands: &mut Vec<Command>, command: Command) -> (r: Result<(), CoreError>)
    ensures
        final(commands)@.len() == old(commands)@.len(),
        if some_id_matches(old(commands).deep_view(), command@.id) {
            (r is Ok) && final(commands).deep_view() == old(commands).deep_view().update(
                first_index_with_id(old(commands).deep_view(), command@.id),
                command@,
            )
        } else {
            (r matches Err(e) && e is NotFound) && final(commands).deep_view() == old(
                commands,
            ).deep_view()
        },
{
    let ghost cs = commands.deep_view();
    let ghost cv = command@;
    match position_of_id(commands, command.id.as_str()) {
        Some(i) => {
            proof {
                lemma_first_index_at(cs, cv.id, i as int);
            }
            commands[i] = command;
            proof {
                assert(forall|j: int|
                    0 <= j < cs.len() && j != i ==> commands.deep_view()[j] == cs[j]);
                assert(commands.deep_view()[i as int] == cv);
                assert(commands.deep_view() =~= cs.update(i as int, cv));
            }
            Ok(())
        },
        None => Err(CoreError::NotFound),
    }
}

/// The position of the first command carrying `id`, if any, with nothing
/// before it carrying it.
fn position_of_id(commands: &Vec<Command>, id: &str) -> (r: Option<usize>)
    ensures
        match r {
            Some(i) => i < commands@.len() && commands.deep_view()[i as int].id == id@
                && forall|j: int| 0 <= j < i ==> commands.deep_view()[j].id != id@,
            None => forall|j: int|
                0 <= j < commands@.len() ==> commands.deep_view()[j].id != id@,
        },
{
    let mut i: usize = 0;
    while i < commands.len()
        invariant
            i <= commands@.len(),
            forall|j: int| 0 <= j < i ==> commands.deep_view()[j].id != id@,
        decreases commands@.len() - i,
    {
        if str_eq(commands[i].id.as_str(), id) {
            return Some(i);
        }
        i = i + 1;
    }
    None
}

/// The snapshot without the commands carrying `id`, order otherwise kept.
pub open spec fn delete_spec(cs: Seq<CommandModel>, id: Seq<char>) -> Seq<CommandModel>
    decreases cs.len(),
{
    if cs.len() == 0 {
        cs
    } else {
        let rest = delete_spec(cs.drop_last(), id);
        if cs.last().id == id {
            rest
        } else {
            rest.push(cs.last())
        }
    }
}

/// Drops every command carrying `id`. Deleting an absent identifier is a
/// success that changes nothing.
pub fn delete_command(commands: &mut Vec<Command>, id: &str)
    ensures
        final(commands).deep_view() == delete_spec(old(commands).deep_view(), id@),
{
    let ghost cs = commands.deep_view();
    let mut kept: Vec<Command> = Vec::new();
    let mut i: usize = 0;
    while i < commands.len()
        invariant
            cs == commands.deep_view(),
            cs.len() == commands@.len(),
            i <= cs.len(),
            kept.deep_view() == delete_spec(cs.take(i as int), id@),
        decreases cs.len() - i,
    {
        let ghost step = cs.take(i + 1);
        proof {
            assert(step.drop_last() =~= cs.take(i as int));
            assert(step.last() == cs[i as int]);
        }
        if !str_eq(commands[i].id.as_str(), id) {
            let ghost before = kept.deep_view();
            kept.push(commands[i].clone());
            proof {
                assert(kept.deep_view() =~= before.push(cs[i as int]));
            }
        }
        i = i + 1;
    }
    proof {
        assert(cs.take(cs.len() as int) =~= cs);
    }
    *commands = kept;
}

/// A deletion removes every occurrence of the identifier and keeps every
/// other command.
pub proof fn lemma_delete_removes_id(cs: Seq<CommandModel>, id: Seq<char>)
    ensures
        forall|i: int|
            0 <= i < delete_spec(cs, id).len() ==> #[trigger] delete_spec(cs, id)[i].id != id,
        !some_id_matches(delete_spec(cs, id), id),
    decreases cs.len(),
{
    if cs.len() > 0 {
        lemma_delete_removes_id(cs.drop_last(), id);
        if cs.last().id != id {
            let rest = delete_spec(cs.drop_last(), id);
            assert(forall|i: int|
                0 <= i < rest.len() ==> #[trigger] rest.push(cs.last())[i].id == rest[i].id);
        }
    }
}

} // verus!
