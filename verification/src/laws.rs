//! What holds of the executor across several of its steps.

use vstd::prelude::*;
use crate::database::{settled, DatabaseView, ModuleWriteView};
use crate::machines::{
    active_index, contains_active, lemma_moved_replaces, moved, runnable, unique_active,
    MachineView,
};
use crate::dyn_state::DynStateView;
use crate::ids::ModuleInstanceId;

verus! {

/// The machines that a start hands out are the active machines of the
/// modules that have a context.
pub proof fn lemma_runnable_are_active(
    machines: Seq<MachineView>,
    modules: Set<ModuleInstanceId>,
    state: DynStateView,
)
    ensures
        runnable(machines, modules).contains(state) <==> modules.contains(
            state.module_instance_id,
        ) && exists|i: int|
            0 <= i < machines.len() && (#[trigger] machines[i]).status is Active
                && machines[i].state == state,
    decreases machines.len(),
{
    if machines.len() > 0 {
        let before = machines.drop_last();
        let last = machines.last();
        lemma_runnable_are_active(before, modules, state);
        let found = runnable(machines, modules);
        let taken = last.status is Active && modules.contains(last.state.module_instance_id);
        if found.contains(state) {
            let k = choose|k: int| 0 <= k < found.len() && found[k] == state;
            if taken && k == found.len() - 1 {
                assert(machines[machines.len() - 1] == last);
            } else {
                assert(runnable(before, modules)[k] == state);
                let i = choose|i: int|
                    0 <= i < before.len() && (#[trigger] before[i]).status is Active
                        && before[i].state == state;
                assert(machines[i] == before[i]);
            }
        }
        if modules.contains(state.module_instance_id) && exists|i: int|
            0 <= i < machines.len() && (#[trigger] machines[i]).status is Active
                && machines[i].state == state {
            let i = choose|i: int|
                0 <= i < machines.len() && (#[trigger] machines[i]).status is Active
                    && machines[i].state == state;
            if i < before.len() {
                assert(before[i] == machines[i]);
                let k = choose|k: int|
                    0 <= k < runnable(before, modules).len() && runnable(before, modules)[k]
                        == state;
                assert(found[k] == state);
            } else {
                assert(found[found.len() - 1] == state);
            }
        }
    }
}

/// After a crash the executor goes on from the successor of every
/// committed transition, not from its predecessor. What a start over the
/// database of a committed transition hands out holds the successor, if
/// that can run, and no longer holds the machine that moved, unless the
/// successor is that very machine again.
pub proof fn lemma_restart_observes_successor(
    db: DatabaseView,
    index: int,
    successor: DynStateView,
    terminal: bool,
    effects: Seq<ModuleWriteView>,
    update: Seq<u8>,
    now: u64,
    modules: Set<ModuleInstanceId>,
)
    requires
        unique_active(db.machines),
        0 <= index < db.machines.len(),
        db.machines[index].status is Active,
    ensures
        ({
            let after = settled(db, index, successor, terminal, false, effects, update, now);
            let handed = runnable(after.machines, modules);
            &&& !terminal && modules.contains(successor.module_instance_id) ==> exists|k: int|
                0 <= k < handed.len() && (#[trigger] handed[k]).id() == successor.id()
            &&& terminal || successor.id() != db.machines[index].state.id() ==> forall|k: int|
                0 <= k < handed.len() ==> (#[trigger] handed[k]).id()
                    != db.machines[index].state.id()
        }),
{
    let gone = db.machines[index].state.id();
    let after = moved(db.machines, index, successor, terminal, now);
    let handed = runnable(after, modules);
    assert(settled(db, index, successor, terminal, false, effects, update, now).machines == after);
    lemma_moved_replaces(db.machines, index, successor, terminal, now);
    if !terminal && modules.contains(successor.module_instance_id) {
        let i = choose|i: int|
            0 <= i < after.len() && (#[trigger] after[i]).status is Active && after[i].state.id()
                == successor.id();
        lemma_runnable_are_active(after, modules, after[i].state);
        assert(handed.contains(after[i].state));
        let k = choose|k: int| 0 <= k < handed.len() && handed[k] == after[i].state;
        assert(handed[k].id() == successor.id());
    }
    if terminal || successor.id() != gone {
        assert forall|k: int| 0 <= k < handed.len() implies (#[trigger] handed[k]).id()
            != gone by {
            lemma_runnable_are_active(after, modules, handed[k]);
            assert(handed.contains(handed[k]));
        }
    }
}

/// A machine makes at most one step from one state: once a transition out
/// of a state is committed, a second commit out of that state finds the
/// machine no longer active, unless the first led back to the same state.
pub proof fn lemma_second_commit_refused(
    machines: Seq<MachineView>,
    from: DynStateView,
    successor: DynStateView,
    terminal: bool,
    now: u64,
)
    requires
        unique_active(machines),
        active_index(machines, from) is Some,
        terminal || successor.id() != from.id(),
    ensures
        active_index(
            moved(machines, active_index(machines, from)->Some_0, successor, terminal, now),
            from,
        ) is None,
{
    let index = active_index(machines, from)->Some_0;
    let after = moved(machines, index, successor, terminal, now);
    lemma_moved_replaces(machines, index, successor, terminal, now);
    if active_index(after, from) is Some {
        let i = active_index(after, from)->Some_0;
        assert(after[i].state.id() == from.id());
        assert(contains_active(after, from.id()));
    }
}

} // verus!
