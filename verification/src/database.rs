//! What the executor persists: the machines with their status, the modules'
//! own writes and the operation log.

use vstd::prelude::*;
use crate::dyn_state::{views, DynState, DynStateView, ModuleDecoderRegistry};
use crate::ids::{ModuleInstanceId, OperationId};
use crate::machines::{
    active_index, active_of, admitted, contains_active, first_unknown, inactive_of,
    lemma_admitted_unique, lemma_first_unknown_prefix, lemma_moved_unique, moved,
    operation_active, runnable, states_of, unique_active, MachineStatus, MachineView,
};
use crate::oplog::{
    appended, entry_views, ordered, refusal, EntryKind, EntryView, LogError, OperationLog,
    OperationLogEntry,
};

verus! {

/// A persisted machine.
#[derive(Debug)]
pub struct Machine {
    pub state: DynState,
    pub status: MachineStatus,
}

impl View for Machine {
    type V = MachineView;

    open spec fn view(&self) -> MachineView {
        MachineView { state: self.state@, status: self.status }
    }
}

/// A non-terminal machine.
#[derive(Debug)]
pub struct ActiveMachine {
    pub state: DynState,
    pub created_at: u64,
}

/// A terminal machine, retained for audit.
#[derive(Debug)]
pub struct InactiveMachine {
    pub state: DynState,
    pub terminated_at: u64,
}

/// One write of a module into its own key space; no value deletes the key.
#[derive(Clone, Debug)]
pub struct ModuleWrite {
    pub module_instance_id: ModuleInstanceId,
    pub key: Vec<u8>,
    pub value: Option<Vec<u8>>,
}

/// A module's write as a mathematical value.
pub struct ModuleWriteView {
    pub module_instance_id: ModuleInstanceId,
    pub key: Seq<u8>,
    pub value: Option<Seq<u8>>,
}

impl View for ModuleWrite {
    type V = ModuleWriteView;

    open spec fn view(&self) -> ModuleWriteView {
        ModuleWriteView {
            module_instance_id: self.module_instance_id,
            key: self.key@,
            value: match self.value {
                Some(bytes) => Some(bytes@),
                None => None,
            },
        }
    }
}

/// The writes of a list as mathematical values.
pub open spec fn write_views(writes: Seq<ModuleWrite>) -> Seq<ModuleWriteView> {
    writes.map_values(|w: ModuleWrite| w@)
}

/// The machines of a list as mathematical values.
pub open spec fn machine_views(machines: Seq<Machine>) -> Seq<MachineView> {
    machines.map_values(|m: Machine| m@)
}

/// What the writes leave under a module's key: the value of the last write
/// to it, or nothing.
pub open spec fn last_written(
    writes: Seq<ModuleWriteView>,
    module_instance_id: ModuleInstanceId,
    key: Seq<u8>,
) -> Option<Seq<u8>>
    decreases writes.len(),
{
    if writes.len() == 0 {
        None
    } else if writes.last().module_instance_id == module_instance_id && writes.last().key == key {
        writes.last().value
    } else {
        last_written(writes.drop_last(), module_instance_id, key)
    }
}

/// The kind of the log entry that a settled machine leaves: `Error` after a
/// failure, `Terminal` when the machine ended and no machine of its
/// operation stays active, `Progress` otherwise.
pub open spec fn entry_kind(
    machines: Seq<MachineView>,
    operation_id: OperationId,
    terminal: bool,
    failure: bool,
) -> EntryKind {
    if failure {
        EntryKind::Error
    } else if terminal && !operation_active(machines, operation_id) {
        EntryKind::Terminal
    } else {
        EntryKind::Progress
    }
}

/// The database after the active machine at `index` settled on `successor`:
/// the machine moved, the module's writes were appended, and the operation
/// log took an entry where its lifecycle order admits one.
pub open spec fn settled(
    db: DatabaseView,
    index: int,
    successor: DynStateView,
    terminal: bool,
    failure: bool,
    effects: Seq<ModuleWriteView>,
    update: Seq<u8>,
    now: u64,
) -> DatabaseView {
    let machines = moved(db.machines, index, successor, terminal, now);
    DatabaseView {
        machines,
        writes: db.writes + effects,
        log: appended(
            db.log,
            EntryView {
                kind: entry_kind(machines, successor.operation_id, terminal, failure),
                module_instance_id: Some(successor.module_instance_id),
                operation_id: successor.operation_id,
                created_at: now,
                payload: update,
            },
        ),
    }
}

/// Why stored records are not the content of a database.
#[derive(Clone, Copy, Debug, PartialEq, Eq, Structural)]
pub enum RestoreError {
    /// Two active machines have the same module instance and encoding.
    DuplicateActive,
    /// The log entries are not in lifecycle order.
    LogOutOfOrder,
}

/// The persistent content.
#[derive(Debug)]
pub struct Database {
    pub(crate) machines: Vec<Machine>,
    pub(crate) writes: Vec<ModuleWrite>,
    pub(crate) log: OperationLog,
}

/// The persistent content as a mathematical value.
pub struct DatabaseView {
    /// The machines, in the order in which their rows were persisted.
    pub machines: Seq<MachineView>,
    /// The modules' writes, in the order in which they were committed.
    pub writes: Seq<ModuleWriteView>,
    /// The operation log.
    pub log: Seq<EntryView>,
}

impl View for Database {
    type V = DatabaseView;

    closed spec fn view(&self) -> DatabaseView {
        DatabaseView {
            machines: machine_views(self.machines@),
            writes: write_views(self.writes@),
            log: self.log@,
        }
    }
}

impl Database {
    /// No two active machines are the same, and the log is in lifecycle
    /// order.
    pub open spec fn wf(&self) -> bool {
        &&& unique_active(self@.machines)
        &&& ordered(self@.log)
    }

    /// A database that holds nothing.
    pub fn new() -> (db: Self)
        ensures
            db.wf(),
            db@.machines == Seq::<MachineView>::empty(),
            db@.writes == Seq::<ModuleWriteView>::empty(),
            db@.log == Seq::<EntryView>::empty(),
    {
        let db = Database { machines: Vec::new(), writes: Vec::new(), log: OperationLog::new() };
        assert(db@.machines =~= Seq::<MachineView>::empty());
        assert(db@.writes =~= Seq::<ModuleWriteView>::empty());
        db
    }

    /// Rebuilds the content from what a scan of the store finds: the
    /// machines in the order in which they were persisted, the modules'
    /// writes, and the log entries in the order of their sequence numbers.
    ///
    /// Fails with `DuplicateActive` where two active machines have the same
    /// module instance and encoding, else with `LogOutOfOrder` where the log
    /// entries are not in lifecycle order.
    pub fn restore(
        machines: Vec<Machine>,
        writes: Vec<ModuleWrite>,
        entries: Vec<OperationLogEntry>,
    ) -> (r: Result<Database, RestoreError>)
        ensures
            match r {
                Ok(db) => {
                    &&& db.wf()
                    &&& db@ == (DatabaseView {
                        machines: machine_views(machines@),
                        writes: write_views(writes@),
                        log: entry_views(entries@),
                    })
                },
                Err(e) => e == if !unique_active(machine_views(machines@)) {
                    RestoreError::DuplicateActive
                } else {
                    RestoreError::LogOutOfOrder
                },
            },
            r is Ok <==> unique_active(machine_views(machines@)) && ordered(entry_views(entries@)),
    {
        let ghost rows = machine_views(machines@);
        let mut i: usize = 0;
        while i < machines.len()
            invariant
                i <= machines.len(),
                rows == machine_views(machines@),
                forall|a: int, b: int|
                    0 <= a < i && 0 <= b < i && (#[trigger] rows[a]).status is Active && (
                    #[trigger] rows[b]).status is Active && rows[a].state.id()
                        == rows[b].state.id() ==> a == b,
            decreases machines.len() - i,
        {
            let machine = &machines[i];
            assert(rows[i as int] == machine@);
            let active = match machine.status {
                MachineStatus::Active { .. } => true,
                MachineStatus::Inactive { .. } => false,
            };
            if active {
                let mut j: usize = 0;
                while j < i
                    invariant
                        j <= i < machines.len(),
                        rows == machine_views(machines@),
                        rows[i as int] == machine@,
                        rows[i as int].status is Active,
                        forall|b: int|
                            0 <= b < j && (#[trigger] rows[b]).status is Active ==> rows[b].state.id()
                                != rows[i as int].state.id(),
                    decreases i - j,
                {
                    let other = &machines[j];
                    assert(rows[j as int] == other@);
                    let other_active = match other.status {
                        MachineStatus::Active { .. } => true,
                        MachineStatus::Inactive { .. } => false,
                    };
                    if other_active && other.state.same_id(&machine.state) {
                        assert(!unique_active(rows)) by {
                            assert(rows[j as int].status is Active && rows[i as int].status
                                is Active);
                            assert(rows[j as int].state.id() == rows[i as int].state.id());
                        }
                        return Err(RestoreError::DuplicateActive);
                    }
                    j += 1;
                }
            }
            i += 1;
        }
        assert(unique_active(rows));
        match OperationLog::from_entries(entries) {
            None => Err(RestoreError::LogOutOfOrder),
            Some(log) => Ok(Database { machines, writes, log }),
        }
    }

    /// The machines, in the order in which they were persisted.
    pub fn machines(&self) -> (machines: Vec<Machine>)
        ensures
            machine_views(machines@) == self@.machines,
    {
        let mut machines: Vec<Machine> = Vec::new();
        let mut i: usize = 0;
        while i < self.machines.len()
            invariant
                i <= self.machines.len(),
                machine_views(machines@) == self@.machines.subrange(0, i as int),
            decreases self.machines.len() - i,
        {
            let ghost before = machine_views(machines@);
            let machine = &self.machines[i];
            machines.push(Machine { state: machine.state.clone(), status: machine.status });
            assert(machine_views(machines@) =~= before.push(self@.machines[i as int]));
            i += 1;
        }
        assert(self@.machines.subrange(0, i as int) == self@.machines);
        machines
    }

    /// The modules' writes, in the order in which they were committed.
    pub fn writes(&self) -> (writes: Vec<ModuleWrite>)
        ensures
            write_views(writes@) == self@.writes,
    {
        let mut writes: Vec<ModuleWrite> = Vec::new();
        let mut i: usize = 0;
        while i < self.writes.len()
            invariant
                i <= self.writes.len(),
                write_views(writes@) == self@.writes.subrange(0, i as int),
            decreases self.writes.len() - i,
        {
            let ghost before = write_views(writes@);
            let write = &self.writes[i];
            let copy = ModuleWrite {
                module_instance_id: write.module_instance_id,
                key: write.key.clone(),
                value: match &write.value {
                    Some(bytes) => Some(bytes.clone()),
                    None => None,
                },
            };
            assert(copy@ == write@);
            writes.push(copy);
            assert(write_views(writes@) =~= before.push(self@.writes[i as int]));
            i += 1;
        }
        assert(self@.writes.subrange(0, i as int) == self@.writes);
        writes
    }

    /// The operation log.
    pub fn operation_log(&self) -> (log: &OperationLog)
        ensures
            log@ == self@.log,
    {
        &self.log
    }

    pub(crate) fn find_by_id(&self, state: &DynState) -> (found: Option<usize>)
        ensures
            match found {
                Some(i) => i < self@.machines.len() && self@.machines[i as int].status
                    is Active && self@.machines[i as int].state.id() == state@.id(),
                None => !contains_active(self@.machines, state@.id()),
            },
    {
        let mut i: usize = 0;
        while i < self.machines.len()
            invariant
                i <= self.machines.len(),
                forall|j: int|
                    0 <= j < i ==> !((#[trigger] self@.machines[j]).status is Active
                        && self@.machines[j].state.id() == state@.id()),
            decreases self.machines.len() - i,
        {
            let machine = &self.machines[i];
            assert(self@.machines[i as int] == machine@);
            let active = match machine.status {
                MachineStatus::Active { .. } => true,
                MachineStatus::Inactive { .. } => false,
            };
            if active && machine.state.same_id(state) {
                return Some(i);
            }
            i += 1;
        }
        None
    }

    pub(crate) fn find_exact(&self, state: &DynState) -> (found: Option<usize>)
        requires
            unique_active(self@.machines),
        ensures
            found matches Some(i) ==> i < self@.machines.len(),
            match found {
                Some(i) => Some(i as int),
                None => None,
            } == active_index(self@.machines, state@),
    {
        match self.find_by_id(state) {
            None => None,
            Some(i) => {
                let machine = &self.machines[i];
                assert(self@.machines[i as int] == machine@);
                if machine.state.operation_id() == state.operation_id() {
                    proof {
                        assert(machine.state@.id().payload == state@.id().payload);
                        assert(machine.state@.id().module_instance_id
                            == state@.id().module_instance_id);
                        assert(machine.state@ == state@);
                        let k = active_index(self@.machines, state@)->Some_0;
                        assert(self@.machines[k].state.id() == state@.id());
                    }
                    Some(i)
                } else {
                    proof {
                        if active_index(self@.machines, state@) is Some {
                            let k = active_index(self@.machines, state@)->Some_0;
                            assert(self@.machines[k].state.id() == state@.id());
                            assert(k == i);
                        }
                    }
                    None
                }
            },
        }
    }

    pub(crate) fn has_row(&self, state: &DynState, status: MachineStatus) -> (found: bool)
        ensures
            found == self@.machines.contains(MachineView { state: state@, status }),
    {
        let mut i: usize = 0;
        while i < self.machines.len()
            invariant
                i <= self.machines.len(),
                forall|j: int|
                    0 <= j < i ==> self@.machines[j] != (MachineView { state: state@, status }),
            decreases self.machines.len() - i,
        {
            let machine = &self.machines[i];
            assert(self@.machines[i as int] == machine@);
            if machine.status == status && machine.state.same_id(state)
                && machine.state.operation_id() == state.operation_id() {
                proof {
                    assert(machine.state@.id().payload == state@.id().payload);
                    assert(machine.state@.id().module_instance_id
                        == state@.id().module_instance_id);
                    assert(machine@ == (MachineView { state: state@, status }));
                }
                return true;
            }
            proof {
                if machine@ == (MachineView { state: state@, status }) {
                    assert(machine.state@.id() == state@.id());
                }
            }
            i += 1;
        }
        false
    }

    /// Tells whether an active machine belongs to the operation.
    pub fn has_active_states(&self, operation_id: OperationId) -> (active: bool)
        ensures
            active == operation_active(self@.machines, operation_id),
    {
        let mut i: usize = 0;
        while i < self.machines.len()
            invariant
                i <= self.machines.len(),
                forall|j: int|
                    0 <= j < i ==> !((#[trigger] self@.machines[j]).status is Active
                        && self@.machines[j].state.operation_id == operation_id),
            decreases self.machines.len() - i,
        {
            let machine = &self.machines[i];
            assert(self@.machines[i as int] == machine@);
            let active = match machine.status {
                MachineStatus::Active { .. } => true,
                MachineStatus::Inactive { .. } => false,
            };
            if active && machine.state.operation_id() == operation_id {
                return true;
            }
            i += 1;
        }
        false
    }


    /// Admits a machine that is not active yet.
    pub(crate) fn insert_active(&mut self, state: DynState, now: u64)
        requires
            old(self).wf(),
            !contains_active(old(self)@.machines, state@.id()),
        ensures
            final(self).wf(),
            final(self)@ == (DatabaseView {
                machines: admitted(old(self)@.machines, state@, now),
                ..old(self)@
            }),
    {
        proof {
            lemma_admitted_unique(self@.machines, state@, now);
        }
        let ghost row = (MachineView {
            state: state@,
            status: MachineStatus::Active { created_at: now },
        });
        self.machines.push(Machine { state, status: MachineStatus::Active { created_at: now } });
        assert(self@.machines =~= old(self)@.machines.push(row));
    }

    /// Settles the machine at `index` on `successor`, in one step.
    pub(crate) fn settle(
        &mut self,
        index: usize,
        successor: DynState,
        terminal: bool,
        failure: bool,
        effects: Vec<ModuleWrite>,
        update: Vec<u8>,
        now: u64,
    )
        requires
            old(self).wf(),
            index < old(self)@.machines.len(),
        ensures
            final(self).wf(),
            final(self)@ == settled(
                old(self)@,
                index as int,
                successor@,
                terminal,
                failure,
                write_views(effects@),
                update@,
                now,
            ),
    {
        let ghost before = old(self)@;
        let ghost rest = before.machines.remove(index as int);
        proof {
            lemma_moved_unique(before.machines, index as int, successor@, terminal, now);
        }
        self.machines.remove(index);
        assert(self@.machines =~= rest);
        let status = if terminal {
            MachineStatus::Inactive { terminated_at: now }
        } else {
            MachineStatus::Active { created_at: now }
        };
        let ghost row = MachineView { state: successor@, status };
        let stored = if !terminal && self.find_by_id(&successor).is_some() {
            true
        } else {
            self.has_row(&successor, status)
        };
        let operation_id = successor.operation_id();
        let module = successor.module_instance_id();
        let ghost target = successor@;
        if !stored {
            self.machines.push(Machine { state: successor, status });
            assert(self@.machines =~= rest.push(row));
        }
        assert(self@.machines == moved(before.machines, index as int, target, terminal, now));
        let mut effects = effects;
        let ghost written = write_views(effects@);
        self.writes.append(&mut effects);
        assert(self@.writes =~= before.writes + written);
        let closing = terminal && !self.has_active_states(operation_id);
        let kind = if failure {
            EntryKind::Error
        } else if closing {
            EntryKind::Terminal
        } else {
            EntryKind::Progress
        };
        let entry = OperationLogEntry {
            kind,
            module_instance_id: Some(module),
            operation_id,
            created_at: now,
            payload: update,
        };
        let _ = self.log.append(entry);
    }

    /// The operations that have an active machine, each once.
    pub fn active_operations(&self) -> (operations: Vec<OperationId>)
        ensures
            operations@.no_duplicates(),
            forall|operation_id: OperationId|
                operations@.contains(operation_id) <==> operation_active(
                    self@.machines,
                    operation_id,
                ),
    {
        let mut operations: Vec<OperationId> = Vec::new();
        let mut i: usize = 0;
        while i < self.machines.len()
            invariant
                i <= self.machines.len(),
                operations@.no_duplicates(),
                forall|operation_id: OperationId|
                    operations@.contains(operation_id) <==> operation_active(
                        self@.machines.subrange(0, i as int),
                        operation_id,
                    ),
            decreases self.machines.len() - i,
        {
            let machine = &self.machines[i];
            let ghost done = self@.machines.subrange(0, i as int);
            let ghost next = self@.machines.subrange(0, i + 1);
            assert(next[i as int] == machine@);
            let active = match machine.status {
                MachineStatus::Active { .. } => true,
                MachineStatus::Inactive { .. } => false,
            };
            let operation_id = machine.state.operation_id();
            let mut known = false;
            let mut k: usize = 0;
            while k < operations.len()
                invariant
                    k <= operations.len(),
                    known <==> exists|j: int| 0 <= j < k && operations@[j] == operation_id,
                decreases operations.len() - k,
            {
                if operations[k] == operation_id {
                    known = true;
                }
                k += 1;
            }
            let ghost before = operations@;
            if active && !known {
                operations.push(operation_id);
            }
            proof {
                assert forall|id: OperationId|
                    operations@.contains(id) <==> operation_active(next, id) by {
                    if operation_active(done, id) {
                        let j = choose|j: int|
                            0 <= j < done.len() && (#[trigger] done[j]).status is Active
                                && done[j].state.operation_id == id;
                        assert(next[j] == done[j]);
                    }
                    if operation_active(next, id) {
                        let j = choose|j: int|
                            0 <= j < next.len() && (#[trigger] next[j]).status is Active
                                && next[j].state.operation_id == id;
                        if j < i {
                            assert(done[j] == next[j]);
                        }
                    }
                    if before.contains(id) {
                        let j = choose|j: int| 0 <= j < before.len() && before[j] == id;
                        assert(operations@[j] == id);
                    }
                    if operations@.contains(id) && !before.contains(id) {
                        let j = choose|j: int| 0 <= j < operations@.len() && operations@[j] == id;
                        if j < before.len() {
                            assert(before[j] == id);
                        }
                    }
                    if active && !known && id == operation_id {
                        assert(operations@[operations@.len() - 1] == id);
                    }
                }
            }
            i += 1;
        }
        assert(self@.machines.subrange(0, i as int) == self@.machines);
        operations
    }

    /// The states of the operation's machines, active and inactive, in the
    /// order in which they were persisted.
    pub fn operation_states(&self, operation_id: OperationId) -> (states: Vec<DynState>)
        ensures
            views(states@) == states_of(self@.machines, operation_id),
    {
        let mut states: Vec<DynState> = Vec::new();
        let mut i: usize = 0;
        assert(self@.machines.subrange(0, 0) =~= Seq::<MachineView>::empty());
        assert(views(states@) =~= Seq::<DynStateView>::empty());
        while i < self.machines.len()
            invariant
                i <= self.machines.len(),
                views(states@) == states_of(self@.machines.subrange(0, i as int), operation_id),
            decreases self.machines.len() - i,
        {
            let machine = &self.machines[i];
            proof {
                let next = self@.machines.subrange(0, i + 1);
                assert(next.drop_last() == self@.machines.subrange(0, i as int));
                assert(next.last() == machine@);
            }
            if machine.state.operation_id() == operation_id {
                let ghost before = views(states@);
                states.push(machine.state.clone());
                assert(views(states@) =~= before.push(machine.state@));
            }
            i += 1;
        }
        assert(self@.machines.subrange(0, i as int) == self@.machines);
        states
    }

    /// The active states whose module instance is among `modules`, in the
    /// order in which they were persisted.
    pub fn runnable_states(&self, modules: &ModuleDecoderRegistry) -> (states: Vec<DynState>)
        ensures
            views(states@) == runnable(self@.machines, modules@),
    {
        let mut states: Vec<DynState> = Vec::new();
        let mut i: usize = 0;
        assert(self@.machines.subrange(0, 0) =~= Seq::<MachineView>::empty());
        assert(views(states@) =~= Seq::<DynStateView>::empty());
        while i < self.machines.len()
            invariant
                i <= self.machines.len(),
                views(states@) == runnable(self@.machines.subrange(0, i as int), modules@),
            decreases self.machines.len() - i,
        {
            let machine = &self.machines[i];
            proof {
                let next = self@.machines.subrange(0, i + 1);
                assert(next.drop_last() == self@.machines.subrange(0, i as int));
                assert(next.last() == machine@);
            }
            let active = match machine.status {
                MachineStatus::Active { .. } => true,
                MachineStatus::Inactive { .. } => false,
            };
            if active && modules.contains(machine.state.module_instance_id()) {
                let ghost before = views(states@);
                states.push(machine.state.clone());
                assert(views(states@) =~= before.push(machine.state@));
            }
            i += 1;
        }
        assert(self@.machines.subrange(0, i as int) == self@.machines);
        states
    }

    /// The module instance of the first active machine that belongs to
    /// neither registry, if there is such a machine.
    pub fn unknown_module(
        &self,
        modules: &ModuleDecoderRegistry,
        valid_module_ids: &ModuleDecoderRegistry,
    ) -> (unknown: Option<ModuleInstanceId>)
        ensures
            unknown == first_unknown(self@.machines, modules@.union(valid_module_ids@)),
    {
        let ghost known = modules@.union(valid_module_ids@);
        let mut i: usize = 0;
        assert(self@.machines.subrange(0, 0) =~= Seq::<MachineView>::empty());
        while i < self.machines.len()
            invariant
                i <= self.machines.len(),
                known == modules@.union(valid_module_ids@),
                first_unknown(self@.machines.subrange(0, i as int), known) is None,
            decreases self.machines.len() - i,
        {
            let machine = &self.machines[i];
            proof {
                let next = self@.machines.subrange(0, i + 1);
                assert(next.drop_last() == self@.machines.subrange(0, i as int));
                assert(next.last() == machine@);
            }
            let active = match machine.status {
                MachineStatus::Active { .. } => true,
                MachineStatus::Inactive { .. } => false,
            };
            let id = machine.state.module_instance_id();
            if active && !modules.contains(id) && !valid_module_ids.contains(id) {
                proof {
                    lemma_first_unknown_prefix(self@.machines, known, i + 1);
                }
                return Some(id);
            }
            i += 1;
        }
        assert(self@.machines.subrange(0, i as int) == self@.machines);
        None
    }

    /// The active machines, in the order in which they were persisted.
    pub fn active_machines(&self) -> (active: Vec<ActiveMachine>)
        ensures
            active@.map_values(|m: ActiveMachine| (m.state@, m.created_at)) == active_of(
                self@.machines,
            ),
    {
        let mut active: Vec<ActiveMachine> = Vec::new();
        let mut i: usize = 0;
        assert(self@.machines.subrange(0, 0) =~= Seq::<MachineView>::empty());
        assert(active@.map_values(|m: ActiveMachine| (m.state@, m.created_at)) =~= Seq::<
            (DynStateView, u64),
        >::empty());
        while i < self.machines.len()
            invariant
                i <= self.machines.len(),
                active@.map_values(|m: ActiveMachine| (m.state@, m.created_at)) == active_of(
                    self@.machines.subrange(0, i as int),
                ),
            decreases self.machines.len() - i,
        {
            let machine = &self.machines[i];
            proof {
                let next = self@.machines.subrange(0, i + 1);
                assert(next.drop_last() == self@.machines.subrange(0, i as int));
                assert(next.last() == machine@);
            }
            match machine.status {
                MachineStatus::Active { created_at } => {
                    let ghost before = active@.map_values(
                        |m: ActiveMachine| (m.state@, m.created_at),
                    );
                    active.push(ActiveMachine { state: machine.state.clone(), created_at });
                    assert(active@.map_values(|m: ActiveMachine| (m.state@, m.created_at))
                        =~= before.push((machine.state@, created_at)));
                },
                MachineStatus::Inactive { .. } => {},
            }
            i += 1;
        }
        assert(self@.machines.subrange(0, i as int) == self@.machines);
        active
    }

    /// The inactive machines, in the order in which they were persisted.
    pub fn inactive_machines(&self) -> (inactive: Vec<InactiveMachine>)
        ensures
            inactive@.map_values(|m: InactiveMachine| (m.state@, m.terminated_at)) == inactive_of(
                self@.machines,
            ),
    {
        let mut inactive: Vec<InactiveMachine> = Vec::new();
        let mut i: usize = 0;
        assert(self@.machines.subrange(0, 0) =~= Seq::<MachineView>::empty());
        assert(inactive@.map_values(|m: InactiveMachine| (m.state@, m.terminated_at)) =~= Seq::<
            (DynStateView, u64),
        >::empty());
        while i < self.machines.len()
            invariant
                i <= self.machines.len(),
                inactive@.map_values(|m: InactiveMachine| (m.state@, m.terminated_at))
                    == inactive_of(self@.machines.subrange(0, i as int)),
            decreases self.machines.len() - i,
        {
            let machine = &self.machines[i];
            proof {
                let next = self@.machines.subrange(0, i + 1);
                assert(next.drop_last() == self@.machines.subrange(0, i as int));
                assert(next.last() == machine@);
            }
            match machine.status {
                MachineStatus::Inactive { terminated_at } => {
                    let ghost before = inactive@.map_values(
                        |m: InactiveMachine| (m.state@, m.terminated_at),
                    );
                    inactive.push(InactiveMachine { state: machine.state.clone(), terminated_at });
                    assert(inactive@.map_values(|m: InactiveMachine| (m.state@, m.terminated_at))
                        =~= before.push((machine.state@, terminated_at)));
                },
                MachineStatus::Active { .. } => {},
            }
            i += 1;
        }
        assert(self@.machines.subrange(0, i as int) == self@.machines);
        inactive
    }

    /// Appends an entry to the operation log where its lifecycle order
    /// admits it and gives its sequence number; otherwise leaves the log as it
    /// is and says what speaks against the entry.
    pub fn append_log(&mut self, entry: OperationLogEntry) -> (r: Result<u64, LogError>)
        requires
            old(self).wf(),
        ensures
            final(self).wf(),
            final(self)@ == (DatabaseView {
                log: appended(old(self)@.log, entry@),
                ..old(self)@
            }),
            match refusal(old(self)@.log, entry.kind, entry.operation_id) {
                None => r == Ok::<u64, LogError>(old(self)@.log.len() as u64),
                Some(e) => r == Err::<u64, LogError>(e),
            },
    {
        self.log.append(entry)
    }

    /// The last value that a module wrote under a key, unless it deleted the
    /// key after or never wrote it.
    pub fn module_value(&self, module_instance_id: ModuleInstanceId, key: &[u8]) -> (value: Option<
        Vec<u8>,
    >)
        ensures
            match value {
                Some(bytes) => Some(bytes@),
                None => None,
            } == last_written(self@.writes, module_instance_id, key@),
    {
        let mut i: usize = self.writes.len();
        assert(self@.writes.subrange(0, i as int) == self@.writes);
        while i > 0
            invariant
                i <= self.writes.len(),
                last_written(self@.writes, module_instance_id, key@) == last_written(
                    self@.writes.subrange(0, i as int),
                    module_instance_id,
                    key@,
                ),
            decreases i,
        {
            let write = &self.writes[i - 1];
            proof {
                let part = self@.writes.subrange(0, i as int);
                assert(part.last() == write@);
                assert(part.drop_last() == self@.writes.subrange(0, i - 1));
            }
            if write.module_instance_id == module_instance_id && crate::dyn_state::bytes_equal(
                write.key.as_slice(),
                key,
            ) {
                return match &write.value {
                    Some(bytes) => Some(bytes.clone()),
                    None => None,
                };
            }
            i -= 1;
        }
        None
    }
}

} // verus!
