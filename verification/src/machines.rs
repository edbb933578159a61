//! The machines of a database as a mathematical model: which rows there
//! are, what admission and transitions make of them, and what stays true of
//! them.

use vstd::prelude::*;
use crate::dyn_state::{DynStateView, MachineId};
use crate::ids::{ModuleInstanceId, OperationId};

verus! {

/// Whether a machine can still move.
#[derive(Clone, Copy, Debug, PartialEq, Eq, Structural)]
pub enum MachineStatus {
    /// A non-terminal machine, with the time it was admitted or arrived.
    Active { created_at: u64 },
    /// A terminal machine, with the time it ended.
    Inactive { terminated_at: u64 },
}

/// A persisted machine as a mathematical value.
pub struct MachineView {
    pub state: DynStateView,
    pub status: MachineStatus,
}

/// The active set holds a machine with this identity.
pub open spec fn contains_active(machines: Seq<MachineView>, id: MachineId) -> bool {
    exists|i: int|
        0 <= i < machines.len() && (#[trigger] machines[i]).status is Active
            && machines[i].state.id() == id
}

/// The inactive set holds a machine with this identity.
pub open spec fn contains_inactive(machines: Seq<MachineView>, id: MachineId) -> bool {
    exists|i: int|
        0 <= i < machines.len() && (#[trigger] machines[i]).status is Inactive
            && machines[i].state.id() == id
}

/// No two active machines have the same module instance and encoding.
pub open spec fn unique_active(machines: Seq<MachineView>) -> bool {
    forall|i: int, j: int|
        0 <= i < machines.len() && 0 <= j < machines.len() && (#[trigger] machines[i]).status
            is Active && (#[trigger] machines[j]).status is Active && machines[i].state.id()
            == machines[j].state.id() ==> i == j
}

/// No machine identity is both active and inactive.
pub open spec fn partitioned(machines: Seq<MachineView>) -> bool {
    forall|i: int, j: int|
        0 <= i < machines.len() && 0 <= j < machines.len() && (#[trigger] machines[i]).status
            is Active && (#[trigger] machines[j]).status is Inactive ==> machines[i].state.id()
            != machines[j].state.id()
}

/// An active machine belongs to the operation.
pub open spec fn operation_active(machines: Seq<MachineView>, operation_id: OperationId) -> bool {
    exists|i: int|
        0 <= i < machines.len() && (#[trigger] machines[i]).status is Active
            && machines[i].state.operation_id == operation_id
}

/// Where the active set holds exactly this state, if it does.
pub open spec fn active_index(machines: Seq<MachineView>, state: DynStateView) -> Option<int> {
    if exists|i: int|
        0 <= i < machines.len() && (#[trigger] machines[i]).status is Active && machines[i].state
            == state {
        Some(
            choose|i: int|
                0 <= i < machines.len() && (#[trigger] machines[i]).status is Active
                    && machines[i].state == state,
        )
    } else {
        None
    }
}

/// The machines after a new one was admitted at time `now`.
pub open spec fn admitted(machines: Seq<MachineView>, state: DynStateView, now: u64) -> Seq<
    MachineView,
> {
    machines.push(MachineView { state, status: MachineStatus::Active { created_at: now } })
}

/// The machines after `row` was inserted: a row that is there already is not
/// stored twice, and neither is a second active machine of one identity.
pub open spec fn inserted(machines: Seq<MachineView>, row: MachineView) -> Seq<MachineView> {
    if row.status is Active && contains_active(machines, row.state.id()) {
        machines
    } else if machines.contains(row) {
        machines
    } else {
        machines.push(row)
    }
}

/// The machines after the one at `index` moved on to `successor` at time
/// `now`: its row is deleted and the successor is inserted, into the
/// inactive set if it is terminal and into the active set if it is not.
pub open spec fn moved(
    machines: Seq<MachineView>,
    index: int,
    successor: DynStateView,
    terminal: bool,
    now: u64,
) -> Seq<MachineView> {
    inserted(
        machines.remove(index),
        MachineView {
            state: successor,
            status: if terminal {
                MachineStatus::Inactive { terminated_at: now }
            } else {
                MachineStatus::Active { created_at: now }
            },
        },
    )
}

/// The active set stays free of duplicates when a machine that is not in it
/// is admitted.
pub proof fn lemma_admitted_unique(machines: Seq<MachineView>, state: DynStateView, now: u64)
    requires
        unique_active(machines),
        !contains_active(machines, state.id()),
    ensures
        unique_active(admitted(machines, state, now)),
{
    let after = admitted(machines, state, now);
    assert forall|i: int, j: int|
        0 <= i < after.len() && 0 <= j < after.len() && (#[trigger] after[i]).status is Active && (
        #[trigger] after[j]).status is Active && after[i].state.id()
            == after[j].state.id() implies i == j by {
        if i < machines.len() && j < machines.len() {
            assert(machines[i] == after[i] && machines[j] == after[j]);
        } else if i < machines.len() {
            assert(machines[i] == after[i]);
        } else if j < machines.len() {
            assert(machines[j] == after[j]);
        }
    }
}

/// The active set stays free of duplicates when a machine moves on.
pub proof fn lemma_moved_unique(
    machines: Seq<MachineView>,
    index: int,
    successor: DynStateView,
    terminal: bool,
    now: u64,
)
    requires
        unique_active(machines),
        0 <= index < machines.len(),
    ensures
        unique_active(moved(machines, index, successor, terminal, now)),
{
    let rest = machines.remove(index);
    lemma_removed_unique(machines, index);
    let after = moved(machines, index, successor, terminal, now);
    if after != rest {
        assert forall|i: int, j: int|
            0 <= i < after.len() && 0 <= j < after.len() && (#[trigger] after[i]).status is Active
                && (#[trigger] after[j]).status is Active && after[i].state.id()
                == after[j].state.id() implies i == j by {
            if i < rest.len() && j < rest.len() {
                assert(rest[i] == after[i] && rest[j] == after[j]);
            } else if i < rest.len() {
                assert(rest[i] == after[i]);
            } else if j < rest.len() {
                assert(rest[j] == after[j]);
            }
        }
    }
}

/// Deleting a row keeps the active set free of duplicates.
pub proof fn lemma_removed_unique(machines: Seq<MachineView>, index: int)
    requires
        unique_active(machines),
        0 <= index < machines.len(),
    ensures
        unique_active(machines.remove(index)),
{
    let rest = machines.remove(index);
    assert forall|i: int, j: int|
        0 <= i < rest.len() && 0 <= j < rest.len() && (#[trigger] rest[i]).status is Active && (
        #[trigger] rest[j]).status is Active && rest[i].state.id()
            == rest[j].state.id() implies i == j by {
        let a = if i < index {
            i
        } else {
            i + 1
        };
        let b = if j < index {
            j
        } else {
            j + 1
        };
        assert(machines[a] == rest[i] && machines[b] == rest[j]);
    }
}

/// Admission keeps every identity in one set, unless the admitted identity
/// is in the inactive set already.
pub proof fn lemma_admitted_partitioned(machines: Seq<MachineView>, state: DynStateView, now: u64)
    requires
        partitioned(machines),
        !contains_inactive(machines, state.id()),
    ensures
        partitioned(admitted(machines, state, now)),
{
    let after = admitted(machines, state, now);
    assert forall|i: int, j: int|
        0 <= i < after.len() && 0 <= j < after.len() && (#[trigger] after[i]).status is Active && (
        #[trigger] after[j]).status is Inactive implies after[i].state.id()
            != after[j].state.id() by {
        assert(machines[j] == after[j]);
        if i < machines.len() {
            assert(machines[i] == after[i]);
        }
    }
}

/// A transition keeps every identity in one set, unless the successor's
/// identity is already in the set it does not go to.
pub proof fn lemma_moved_partitioned(
    machines: Seq<MachineView>,
    index: int,
    successor: DynStateView,
    terminal: bool,
    now: u64,
)
    requires
        partitioned(machines),
        0 <= index < machines.len(),
        terminal ==> !contains_active(machines.remove(index), successor.id()),
        !terminal ==> !contains_inactive(machines.remove(index), successor.id()),
    ensures
        partitioned(moved(machines, index, successor, terminal, now)),
{
    let rest = machines.remove(index);
    assert(partitioned(rest)) by {
        assert forall|i: int, j: int|
            0 <= i < rest.len() && 0 <= j < rest.len() && (#[trigger] rest[i]).status is Active && (
            #[trigger] rest[j]).status is Inactive implies rest[i].state.id()
                != rest[j].state.id() by {
            let a = if i < index {
                i
            } else {
                i + 1
            };
            let b = if j < index {
                j
            } else {
                j + 1
            };
            assert(machines[a] == rest[i] && machines[b] == rest[j]);
        }
    }
    let after = moved(machines, index, successor, terminal, now);
    if after != rest {
        assert forall|i: int, j: int|
            0 <= i < after.len() && 0 <= j < after.len() && (#[trigger] after[i]).status is Active
                && (#[trigger] after[j]).status is Inactive implies after[i].state.id()
                != after[j].state.id() by {
            if i < rest.len() {
                assert(rest[i] == after[i]);
            }
            if j < rest.len() {
                assert(rest[j] == after[j]);
            }
        }
    }
}

/// Moving an active machine to the inactive set as it is keeps every
/// identity in one set.
pub proof fn lemma_retired_partitioned(machines: Seq<MachineView>, index: int, now: u64)
    requires
        partitioned(machines),
        unique_active(machines),
        0 <= index < machines.len(),
        machines[index].status is Active,
    ensures
        partitioned(moved(machines, index, machines[index].state, true, now)),
{
    let rest = machines.remove(index);
    let id = machines[index].state.id();
    if contains_active(rest, id) {
        let i = choose|i: int|
            0 <= i < rest.len() && (#[trigger] rest[i]).status is Active && rest[i].state.id()
                == id;
        let a = if i < index {
            i
        } else {
            i + 1
        };
        assert(machines[a] == rest[i]);
    }
    lemma_moved_partitioned(machines, index, machines[index].state, true, now);
}

/// After a committed transition the active set no longer holds the
/// predecessor, unless the successor is that very machine again; and it
/// holds the successor, unless that is terminal.
pub proof fn lemma_moved_replaces(
    machines: Seq<MachineView>,
    index: int,
    successor: DynStateView,
    terminal: bool,
    now: u64,
)
    requires
        unique_active(machines),
        0 <= index < machines.len(),
        machines[index].status is Active,
    ensures
        (terminal || successor.id() != machines[index].state.id()) ==> !contains_active(
            moved(machines, index, successor, terminal, now),
            machines[index].state.id(),
        ),
        !terminal ==> contains_active(
            moved(machines, index, successor, terminal, now),
            successor.id(),
        ),
        terminal ==> contains_inactive(
            moved(machines, index, successor, terminal, now),
            successor.id(),
        ),
{
    let rest = machines.remove(index);
    let after = moved(machines, index, successor, terminal, now);
    let gone = machines[index].state.id();
    assert(!contains_active(rest, gone)) by {
        if contains_active(rest, gone) {
            let i = choose|i: int|
                0 <= i < rest.len() && (#[trigger] rest[i]).status is Active && rest[i].state.id()
                    == gone;
            let a = if i < index {
                i
            } else {
                i + 1
            };
            assert(machines[a] == rest[i]);
        }
    }
    if terminal || successor.id() != gone {
        if contains_active(after, gone) {
            let i = choose|i: int|
                0 <= i < after.len() && (#[trigger] after[i]).status is Active
                    && after[i].state.id() == gone;
            if i < rest.len() {
                assert(rest[i] == after[i]);
            }
        }
    }
    let row = MachineView {
        state: successor,
        status: if terminal {
            MachineStatus::Inactive { terminated_at: now }
        } else {
            MachineStatus::Active { created_at: now }
        },
    };
    if after == rest {
        if terminal {
            let i = choose|i: int| 0 <= i < rest.len() && rest[i] == row;
            assert(rest[i].status is Inactive);
        }
    } else {
        assert(after[after.len() - 1] == row);
    }
}

/// The states of the operation's machines, active and inactive, in the order
/// in which they were persisted.
pub open spec fn states_of(machines: Seq<MachineView>, operation_id: OperationId) -> Seq<
    DynStateView,
>
    decreases machines.len(),
{
    if machines.len() == 0 {
        Seq::empty()
    } else {
        let before = states_of(machines.drop_last(), operation_id);
        if machines.last().state.operation_id == operation_id {
            before.push(machines.last().state)
        } else {
            before
        }
    }
}

/// The active states whose module instance has a context, in the order in
/// which they were persisted.
pub open spec fn runnable(machines: Seq<MachineView>, modules: Set<ModuleInstanceId>) -> Seq<
    DynStateView,
>
    decreases machines.len(),
{
    if machines.len() == 0 {
        Seq::empty()
    } else {
        let before = runnable(machines.drop_last(), modules);
        if machines.last().status is Active && modules.contains(
            machines.last().state.module_instance_id,
        ) {
            before.push(machines.last().state)
        } else {
            before
        }
    }
}

/// The module instance of the first active machine that no known module
/// owns, if there is such a machine.
pub open spec fn first_unknown(machines: Seq<MachineView>, known: Set<ModuleInstanceId>) -> Option<
    ModuleInstanceId,
>
    decreases machines.len(),
{
    if machines.len() == 0 {
        None
    } else {
        match first_unknown(machines.drop_last(), known) {
            Some(id) => Some(id),
            None => if machines.last().status is Active && !known.contains(
                machines.last().state.module_instance_id,
            ) {
                Some(machines.last().state.module_instance_id)
            } else {
                None
            },
        }
    }
}

/// An unknown machine in a prefix of the machines is found in the whole
/// list too, and it is the same one.
pub proof fn lemma_first_unknown_prefix(
    machines: Seq<MachineView>,
    known: Set<ModuleInstanceId>,
    len: int,
)
    requires
        0 <= len <= machines.len(),
        first_unknown(machines.subrange(0, len), known) is Some,
    ensures
        first_unknown(machines, known) == first_unknown(machines.subrange(0, len), known),
    decreases machines.len() - len,
{
    if len < machines.len() {
        let next = machines.subrange(0, len + 1);
        assert(next.drop_last() == machines.subrange(0, len));
        lemma_first_unknown_prefix(machines, known, len + 1);
    } else {
        assert(machines.subrange(0, len) == machines);
    }
}

/// The active machines with their creation times, in the order in which
/// they were persisted.
pub open spec fn active_of(machines: Seq<MachineView>) -> Seq<(DynStateView, u64)>
    decreases machines.len(),
{
    if machines.len() == 0 {
        Seq::empty()
    } else {
        let before = active_of(machines.drop_last());
        match machines.last().status {
            MachineStatus::Active { created_at } => before.push(
                (machines.last().state, created_at),
            ),
            MachineStatus::Inactive { .. } => before,
        }
    }
}

/// The inactive machines with their termination times, in the order in
/// which they were persisted.
pub open spec fn inactive_of(machines: Seq<MachineView>) -> Seq<(DynStateView, u64)>
    decreases machines.len(),
{
    if machines.len() == 0 {
        Seq::empty()
    } else {
        let before = inactive_of(machines.drop_last());
        match machines.last().status {
            MachineStatus::Inactive { terminated_at } => before.push(
                (machines.last().state, terminated_at),
            ),
            MachineStatus::Active { .. } => before,
        }
    }
}

} // verus!
