//! The executor: admission of machines, commits of their transitions, and
//! queries over what is active.
//!
//! An executor owns the database content and the notifier. Every function
//! that changes it is one atomic step: it either applies all of its writes
//! or none. A crash loses the executor and keeps the database, from which a
//! new executor is built.

use vstd::prelude::*;
use crate::database::{
    settled, write_views, ActiveMachine, Database, DatabaseView, InactiveMachine, ModuleWrite,
    ModuleWriteView,
};
use crate::machines::{
    active_index, active_of, admitted, contains_active, first_unknown, inactive_of,
    operation_active, runnable, states_of, unique_active,
};
use crate::dyn_state::{erased, views, DynState, DynStateView, ModuleDecoderRegistry};
use crate::ids::{ModuleInstanceId, OperationId};
use crate::notifier::{published, Notifier, Subscription};
use crate::oplog::{appended, refusal, LogError, OperationLogEntry};
use crate::state::State;
use crate::trigger::{first_ready, select_trigger};

verus! {

/// How an admission ended.
#[derive(Clone, Copy, Debug, PartialEq, Eq, Structural)]
pub enum AddResult {
    /// The machine is now active.
    Admitted,
    /// The same machine was active already; nothing changed.
    AlreadyExists,
}

/// Why the executor refused a request.
#[derive(Clone, Copy, Debug, PartialEq, Eq, Structural)]
pub enum ExecutorError {
    /// The machine belongs to a module instance that is not registered.
    AdmissionRejected(ModuleInstanceId),
    /// The machine is not in the active set.
    NotActive,
    /// An active machine belongs to a module instance that has no decoder.
    DecoderMissing(ModuleInstanceId),
}

/// An executor as a mathematical value.
pub struct ExecutorView {
    /// The persistent content.
    pub db: DatabaseView,
    /// The module instances that have a context.
    pub modules: Set<ModuleInstanceId>,
    /// Further module instances whose machines may be admitted.
    pub valid_module_ids: Set<ModuleInstanceId>,
    /// Whether an unknown module stops the start.
    pub strict: bool,
    /// Whether the machines are being driven.
    pub running: bool,
    /// Whether the executor was stopped.
    pub stopped: bool,
}

impl ExecutorView {
    /// Machines of this module instance may be admitted.
    pub open spec fn admits(self, module_instance_id: ModuleInstanceId) -> bool {
        self.modules.contains(module_instance_id) || self.valid_module_ids.contains(
            module_instance_id,
        )
    }
}

/// Collects the modules of an executor before it is built.
#[derive(Debug)]
pub struct ExecutorBuilder {
    modules: ModuleDecoderRegistry,
    valid_module_ids: ModuleDecoderRegistry,
    strict: bool,
}

impl ExecutorBuilder {
    /// The module instances that have a context.
    pub closed spec fn modules(&self) -> Set<ModuleInstanceId> {
        self.modules@
    }

    /// Further module instances whose machines may be admitted.
    pub closed spec fn valid_module_ids(&self) -> Set<ModuleInstanceId> {
        self.valid_module_ids@
    }

    /// Whether an unknown module stops the start.
    pub closed spec fn is_strict(&self) -> bool {
        self.strict
    }

    /// Registers a module instance whose context the caller holds.
    pub fn with_module(&mut self, instance_id: ModuleInstanceId)
        ensures
            final(self).modules() == old(self).modules().insert(instance_id),
            final(self).valid_module_ids() == old(self).valid_module_ids(),
            final(self).is_strict() == old(self).is_strict(),
    {
        self.modules.register_module(instance_id);
    }

    /// Lets machines of a module instance be admitted that has no context
    /// yet; they are stored and not driven.
    pub fn with_valid_module_id(&mut self, instance_id: ModuleInstanceId)
        ensures
            final(self).modules() == old(self).modules(),
            final(self).valid_module_ids() == old(self).valid_module_ids().insert(instance_id),
            final(self).is_strict() == old(self).is_strict(),
    {
        self.valid_module_ids.register_module(instance_id);
    }

    /// Makes the start fail on an active machine of an unknown module
    /// instead of skipping it.
    pub fn strict(&mut self)
        ensures
            final(self).modules() == old(self).modules(),
            final(self).valid_module_ids() == old(self).valid_module_ids(),
            final(self).is_strict(),
    {
        self.strict = true;
    }

    /// Builds the executor over a database and a notifier. It is not
    /// running yet.
    pub fn build(self, db: Database, notifier: Notifier) -> (executor: Executor)
        requires
            db.wf(),
            notifier.wf(),
        ensures
            executor.wf(),
            executor@ == (ExecutorView {
                db: db@,
                modules: self.modules(),
                valid_module_ids: self.valid_module_ids(),
                strict: self.is_strict(),
                running: false,
                stopped: false,
            }),
            forall|operation_id: OperationId|
                executor.history(operation_id) == notifier.history(operation_id),
    {
        Executor {
            db,
            notifier,
            modules: self.modules,
            valid_module_ids: self.valid_module_ids,
            strict: self.strict,
            running: false,
            stopped: false,
        }
    }
}

/// The executor.
pub struct Executor {
    db: Database,
    notifier: Notifier,
    modules: ModuleDecoderRegistry,
    valid_module_ids: ModuleDecoderRegistry,
    strict: bool,
    running: bool,
    stopped: bool,
}

impl View for Executor {
    type V = ExecutorView;

    closed spec fn view(&self) -> ExecutorView {
        ExecutorView {
            db: self.db@,
            modules: self.modules@,
            valid_module_ids: self.valid_module_ids@,
            strict: self.strict,
            running: self.running,
            stopped: self.stopped,
        }
    }
}

impl Executor {
    /// Every state published for the operation since the executor was
    /// built, in the order of publication.
    pub open spec fn history(&self, operation_id: OperationId) -> Seq<DynStateView> {
        self.spec_notifier().history(operation_id)
    }

    /// The notifier through which the executor publishes.
    pub closed spec fn spec_notifier(&self) -> &Notifier {
        &self.notifier
    }

    /// The notifier through which the executor publishes.
    #[verifier::when_used_as_spec(spec_notifier)]
    pub fn notifier(&self) -> (notifier: &Notifier)
        ensures
            notifier == self.spec_notifier(),
    {
        &self.notifier
    }

    /// The persistent content.
    pub fn database(&self) -> (db: &Database)
        ensures
            db@ == self@.db,
            self.wf() ==> db.wf(),
    {
        &self.db
    }

    /// No two active machines have the same module instance and encoding,
    /// the operation log is in lifecycle order, and the notifier's rings
    /// hold the latest states.
    pub open spec fn wf(&self) -> bool {
        &&& unique_active(self@.db.machines)
        &&& crate::oplog::ordered(self@.db.log)
        &&& self.spec_notifier().wf()
    }

    /// An executor without modules, ready to be configured.
    pub fn builder() -> (builder: ExecutorBuilder)
        ensures
            builder.modules() == Set::<ModuleInstanceId>::empty(),
            builder.valid_module_ids() == Set::<ModuleInstanceId>::empty(),
            !builder.is_strict(),
    {
        ExecutorBuilder {
            modules: ModuleDecoderRegistry::new(),
            valid_module_ids: ModuleDecoderRegistry::new(),
            strict: false,
        }
    }

    /// Gives up the executor and keeps what was persisted: what a crash
    /// leaves behind.
    pub fn into_database(self) -> (db: Database)
        requires
            self.wf(),
        ensures
            db.wf(),
            db@ == self@.db,
    {
        self.db
    }

    /// Tells whether machines of the module instance may be admitted.
    pub fn accepts_module(&self, module_instance_id: ModuleInstanceId) -> (accepted: bool)
        ensures
            accepted == self@.admits(module_instance_id),
    {
        self.modules.contains(module_instance_id) || self.valid_module_ids.contains(
            module_instance_id,
        )
    }

    /// Tells whether a machine with the state's module instance and
    /// encoding is active.
    pub fn is_active(&self, state: &DynState) -> (active: bool)
        ensures
            active == contains_active(self@.db.machines, state@.id()),
    {
        self.db.find_by_id(state).is_some()
    }

    /// Tells whether an active machine belongs to the operation.
    pub fn has_active_states(&self, operation_id: OperationId) -> (active: bool)
        ensures
            active == operation_active(self@.db.machines, operation_id),
    {
        self.db.has_active_states(operation_id)
    }

    /// Tells whether every machine of the operation has moved to the
    /// inactive set: what a caller that awaits the operation's end waits for.
    pub fn is_inactive(&self, operation_id: OperationId) -> (inactive: bool)
        ensures
            inactive == !operation_active(self@.db.machines, operation_id),
    {
        !self.has_active_states(operation_id)
    }

    /// Admits a machine at time `now`.
    ///
    /// A machine of a module instance that is not registered is rejected. A
    /// machine that is active already is not admitted again. Otherwise the
    /// machine joins the active set and its state is published to the
    /// operation's readers; the caller then wakes a driver for it.
    pub fn add_state_machine(&mut self, state: DynState, now: u64) -> (r: Result<
        AddResult,
        ExecutorError,
    >)
        requires
            old(self).wf(),
        ensures
            final(self).wf(),
            final(self)@.modules == old(self)@.modules,
            final(self)@.valid_module_ids == old(self)@.valid_module_ids,
            final(self)@.strict == old(self)@.strict,
            final(self)@.running == old(self)@.running,
            final(self)@.stopped == old(self)@.stopped,
            final(self)@.db.writes == old(self)@.db.writes,
            final(self)@.db.log == old(self)@.db.log,
            forall|other: OperationId|
                other != state@.operation_id ==> final(self).history(other) == old(self).history(
                    other,
                ),
            if !old(self)@.admits(state@.module_instance_id) {
                &&& r == Err::<AddResult, ExecutorError>(
                    ExecutorError::AdmissionRejected(state@.module_instance_id),
                )
                &&& final(self)@.db.machines == old(self)@.db.machines
                &&& final(self).history(state@.operation_id) == old(self).history(
                    state@.operation_id,
                )
            } else if contains_active(old(self)@.db.machines, state@.id()) {
                &&& r == Ok::<AddResult, ExecutorError>(AddResult::AlreadyExists)
                &&& final(self)@.db.machines == old(self)@.db.machines
                &&& final(self).history(state@.operation_id) == old(self).history(
                    state@.operation_id,
                )
            } else {
                &&& r == Ok::<AddResult, ExecutorError>(AddResult::Admitted)
                &&& final(self)@.db.machines == admitted(old(self)@.db.machines, state@, now)
                &&& final(self).history(state@.operation_id) == published(
                    old(self).history(state@.operation_id),
                    state@,
                )
            },
    {
        let module = state.module_instance_id();
        if !self.modules.contains(module) && !self.valid_module_ids.contains(module) {
            return Err(ExecutorError::AdmissionRejected(module));
        }
        if self.db.find_by_id(&state).is_some() {
            return Ok(AddResult::AlreadyExists);
        }
        let operation_id = state.operation_id();
        let copy = state.clone();
        self.db.insert_active(state, now);
        self.notifier.publish(operation_id, copy);
        Ok(AddResult::Admitted)
    }

    fn settle(
        &mut self,
        index: usize,
        successor: DynState,
        terminal: bool,
        failure: bool,
        effects: Vec<ModuleWrite>,
        update: Vec<u8>,
        now: u64,
    )
        requires
            old(self).wf(),
            index < old(self)@.db.machines.len(),
        ensures
            final(self).wf(),
            final(self)@ == (ExecutorView {
                db: settled(
                    old(self)@.db,
                    index as int,
                    successor@,
                    terminal,
                    failure,
                    write_views(effects@),
                    update@,
                    now,
                ),
                ..old(self)@
            }),
            final(self).history(successor@.operation_id) == published(
                old(self).history(successor@.operation_id),
                successor@,
            ),
            forall|other: OperationId|
                other != successor@.operation_id ==> final(self).history(other) == old(
                    self,
                ).history(other),
    {
        let operation_id = successor.operation_id();
        let copy = successor.clone();
        self.db.settle(index, successor, terminal, failure, effects, update, now);
        self.notifier.publish(operation_id, copy);
    }

    /// Commits the transition of the active machine `from` to `successor`
    /// at time `now`, as one atomic step.
    ///
    /// `terminal` says whether the successor has no transitions, `effects`
    /// are the writes of the module's transition function and `update` is
    /// the operation-log update that the successor carries (empty if none).
    /// The successor belongs to the module instance and the operation of
    /// `from`.
    ///
    /// Where `from` is not in the active set nothing changes. Otherwise the
    /// row of `from` is deleted, the successor is inserted into the inactive
    /// set if it is terminal and into the active set if not, the effects are
    /// written, the operation log takes a `Progress` entry (`Terminal` when
    /// this ends the operation's last active machine), and the successor is
    /// published to the operation's readers.
    pub fn commit_transition(
        &mut self,
        from: &DynState,
        successor: DynState,
        terminal: bool,
        effects: Vec<ModuleWrite>,
        update: Vec<u8>,
        now: u64,
    ) -> (r: Result<(), ExecutorError>)
        requires
            old(self).wf(),
            successor@.module_instance_id == from@.module_instance_id,
            successor@.operation_id == from@.operation_id,
        ensures
            final(self).wf(),
            forall|other: OperationId|
                other != from@.operation_id ==> final(self).history(other) == old(self).history(
                    other,
                ),
            match active_index(old(self)@.db.machines, from@) {
                None => {
                    &&& r == Err::<(), ExecutorError>(ExecutorError::NotActive)
                    &&& final(self)@ == old(self)@
                    &&& final(self).history(from@.operation_id) == old(self).history(
                        from@.operation_id,
                    )
                },
                Some(index) => {
                    &&& r == Ok::<(), ExecutorError>(())
                    &&& final(self)@ == (ExecutorView {
                        db: settled(
                            old(self)@.db,
                            index,
                            successor@,
                            terminal,
                            false,
                            write_views(effects@),
                            update@,
                            now,
                        ),
                        ..old(self)@
                    })
                    &&& final(self).history(from@.operation_id) == published(
                        old(self).history(from@.operation_id),
                        successor@,
                    )
                },
            },
    {
        match self.db.find_exact(from) {
            None => Err(ExecutorError::NotActive),
            Some(index) => {
                self.settle(index, successor, terminal, false, effects, update, now);
                Ok(())
            },
        }
    }

    /// Moves an active machine whose state has no transitions to the
    /// inactive set at time `now`, as one atomic step, and publishes its
    /// state as terminal.
    ///
    /// Where the machine is not in the active set nothing changes.
    pub fn retire(&mut self, state: &DynState, now: u64) -> (r: Result<(), ExecutorError>)
        requires
            old(self).wf(),
        ensures
            final(self).wf(),
            forall|other: OperationId|
                other != state@.operation_id ==> final(self).history(other) == old(self).history(
                    other,
                ),
            match active_index(old(self)@.db.machines, state@) {
                None => {
                    &&& r == Err::<(), ExecutorError>(ExecutorError::NotActive)
                    &&& final(self)@ == old(self)@
                    &&& final(self).history(state@.operation_id) == old(self).history(
                        state@.operation_id,
                    )
                },
                Some(index) => {
                    &&& r == Ok::<(), ExecutorError>(())
                    &&& final(self)@ == (ExecutorView {
                        db: settled(
                            old(self)@.db,
                            index,
                            state@,
                            true,
                            false,
                            Seq::empty(),
                            Seq::empty(),
                            now,
                        ),
                        ..old(self)@
                    })
                    &&& final(self).history(state@.operation_id) == published(
                        old(self).history(state@.operation_id),
                        state@,
                    )
                },
            },
    {
        match self.db.find_exact(state) {
            None => Err(ExecutorError::NotActive),
            Some(index) => {
                let effects: Vec<ModuleWrite> = Vec::new();
                let update: Vec<u8> = Vec::new();
                assert(write_views(effects@) =~= Seq::<ModuleWriteView>::empty());
                self.settle(index, state.clone(), true, false, effects, update, now);
                Ok(())
            },
        }
    }

    /// Records that the transition function of an active machine aborted,
    /// at time `now`: the transition's writes are dropped, the machine moves
    /// to the inactive set so that it is not tried again, the operation log
    /// takes an `Error` entry, and the state is published as the
    /// operation's last.
    ///
    /// Where the machine is not in the active set nothing changes.
    pub fn fail_transition(&mut self, state: &DynState, now: u64) -> (r: Result<
        (),
        ExecutorError,
    >)
        requires
            old(self).wf(),
        ensures
            final(self).wf(),
            forall|other: OperationId|
                other != state@.operation_id ==> final(self).history(other) == old(self).history(
                    other,
                ),
            match active_index(old(self)@.db.machines, state@) {
                None => {
                    &&& r == Err::<(), ExecutorError>(ExecutorError::NotActive)
                    &&& final(self)@ == old(self)@
                    &&& final(self).history(state@.operation_id) == old(self).history(
                        state@.operation_id,
                    )
                },
                Some(index) => {
                    &&& r == Ok::<(), ExecutorError>(())
                    &&& final(self)@ == (ExecutorView {
                        db: settled(
                            old(self)@.db,
                            index,
                            state@,
                            true,
                            true,
                            Seq::empty(),
                            Seq::empty(),
                            now,
                        ),
                        ..old(self)@
                    })
                    &&& final(self).history(state@.operation_id) == published(
                        old(self).history(state@.operation_id),
                        state@,
                    )
                },
            },
    {
        match self.db.find_exact(state) {
            None => Err(ExecutorError::NotActive),
            Some(index) => {
                let effects: Vec<ModuleWrite> = Vec::new();
                let update: Vec<u8> = Vec::new();
                assert(write_views(effects@) =~= Seq::<ModuleWriteView>::empty());
                self.settle(index, state.clone(), true, true, effects, update, now);
                Ok(())
            },
        }
    }

    /// Appends an entry to the operation log where its lifecycle order
    /// admits it and gives its sequence number; otherwise leaves the log as it
    /// is and says what speaks against the entry. This is how an operation
    /// is recorded as started.
    pub fn add_operation_log_entry(&mut self, entry: OperationLogEntry) -> (r: Result<
        u64,
        LogError,
    >)
        requires
            old(self).wf(),
        ensures
            final(self).wf(),
            final(self).spec_notifier() == old(self).spec_notifier(),
            final(self)@ == (ExecutorView {
                db: DatabaseView { log: appended(old(self)@.db.log, entry@), ..old(self)@.db },
                ..old(self)@
            }),
            match refusal(old(self)@.db.log, entry.kind, entry.operation_id) {
                None => r == Ok::<u64, LogError>(old(self)@.db.log.len() as u64),
                Some(e) => r == Err::<u64, LogError>(e),
            },
    {
        self.db.append_log(entry)
    }

    /// The operations that have an active machine, each once.
    pub fn get_active_operations(&self) -> (operations: Vec<OperationId>)
        ensures
            operations@.no_duplicates(),
            forall|operation_id: OperationId|
                operations@.contains(operation_id) <==> operation_active(
                    self@.db.machines,
                    operation_id,
                ),
    {
        self.db.active_operations()
    }

    /// The active machines, in the order in which they were persisted.
    pub fn get_active_states(&self) -> (active: Vec<ActiveMachine>)
        ensures
            active@.map_values(|m: ActiveMachine| (m.state@, m.created_at))
                == active_of(self@.db.machines),
    {
        self.db.active_machines()
    }

    /// The inactive machines, in the order in which they were persisted.
    pub fn get_inactive_states(&self) -> (inactive: Vec<InactiveMachine>)
        ensures
            inactive@.map_values(|m: InactiveMachine| (m.state@, m.terminated_at))
                == inactive_of(self@.db.machines),
    {
        self.db.inactive_machines()
    }

    /// Starts the executor and gives the machines to drive: the active
    /// machines whose module instance has a context, in the order in which
    /// they were persisted. Nothing persisted changes.
    ///
    /// An active machine of a module instance that is neither registered
    /// nor valid is skipped and left as it is; a strict executor fails on
    /// the first such machine instead and does not start.
    pub fn start(&mut self) -> (r: Result<Vec<DynState>, ExecutorError>)
        requires
            old(self).wf(),
        ensures
            final(self).wf(),
            final(self).spec_notifier() == old(self).spec_notifier(),
            match first_unknown(
                old(self)@.db.machines,
                old(self)@.modules.union(old(self)@.valid_module_ids),
            ) {
                Some(id) if old(self)@.strict => {
                    &&& r matches Err(e)
                    &&& e == ExecutorError::DecoderMissing(id)
                    &&& final(self)@ == old(self)@
                },
                _ => {
                    &&& r matches Ok(states)
                    &&& views(states@) == runnable(old(self)@.db.machines, old(self)@.modules)
                    &&& final(self)@ == (ExecutorView {
                        running: true,
                        stopped: false,
                        ..old(self)@
                    })
                },
            },
    {
        if self.strict {
            if let Some(id) = self.db.unknown_module(&self.modules, &self.valid_module_ids) {
                return Err(ExecutorError::DecoderMissing(id));
            }
        }
        self.running = true;
        self.stopped = false;
        Ok(self.db.runnable_states(&self.modules))
    }

    /// Stops the executor: the drivers are to end at their next suspension.
    /// Nothing persisted changes.
    pub fn stop(&mut self)
        ensures
            final(self).wf() == old(self).wf(),
            final(self).spec_notifier() == old(self).spec_notifier(),
            final(self)@ == (ExecutorView { running: false, stopped: true, ..old(self)@ }),
    {
        self.running = false;
        self.stopped = true;
    }

    /// Tells whether the executor was stopped.
    pub fn is_stopped(&self) -> (stopped: bool)
        ensures
            stopped == self@.stopped,
    {
        self.stopped
    }

    /// Tells whether the machines are being driven.
    pub fn is_running(&self) -> (running: bool)
        ensures
            running == self@.running,
    {
        self.running
    }

    /// Makes a reader of the operation's states: it first receives the
    /// states of the operation's machines as persisted now, active and
    /// inactive, in the order in which they were persisted, and then every
    /// state persisted from now on.
    pub fn subscribe(&self, operation_id: OperationId) -> (subscription: Subscription)
        requires
            self.wf(),
        ensures
            subscription.wf(self.spec_notifier()),
            subscription.operation() == operation_id,
            subscription.snapshot() == states_of(self@.db.machines, operation_id),
            subscription.delivered() == 0,
            subscription.start() == self.history(operation_id).len(),
            subscription.position() == self.history(operation_id).len(),
            !subscription.lagged(),
            subscription.observed() == Seq::<DynStateView>::empty(),
    {
        let snapshot = self.db.operation_states(operation_id);
        self.notifier.subscribe(operation_id, snapshot)
    }

    /// Runs one cycle of the machine whose typed state is `state`, at time
    /// `now`. `ready[i]` holds what trigger `i` yielded at this poll, or
    /// nothing while it is pending.
    ///
    /// A machine that is not active is left alone. A state without
    /// transitions is moved to the inactive set. Otherwise the ready trigger
    /// with the lowest index fires: its transition function runs, and the
    /// move to the successor is committed with the function's writes and the
    /// log update that the successor carries, the successor going to the
    /// inactive set exactly if it has no transitions. While no trigger is
    /// ready nothing changes.
    pub fn run_cycle<S: State>(
        &mut self,
        module_instance_id: ModuleInstanceId,
        state: &S,
        context: &S::ModuleContext,
        ready: Vec<Option<serde_json::Value>>,
        now: u64,
    ) -> (outcome: CycleOutcome<S>)
        requires
            old(self).wf(),
            ready.len() == state.edge_count(context),
        ensures
            final(self).wf(),
            forall|other: OperationId|
                other != state.operation() ==> final(self).history(other) == old(self).history(
                    other,
                ),
            ({
                let from = erased(module_instance_id, *state);
                let stream = old(self).history(state.operation());
                match active_index(old(self)@.db.machines, from) {
                    None => {
                        &&& outcome is NotActive
                        &&& final(self)@ == old(self)@
                        &&& final(self).history(state.operation()) == stream
                    },
                    Some(index) => if state.edge_count(context) == 0 {
                        &&& outcome is Retired
                        &&& final(self)@ == (ExecutorView {
                            db: settled(
                                old(self)@.db,
                                index,
                                from,
                                true,
                                false,
                                Seq::empty(),
                                Seq::empty(),
                                now,
                            ),
                            ..old(self)@
                        })
                        &&& final(self).history(state.operation()) == published(stream, from)
                    } else {
                        match first_ready(ready@) {
                            None => {
                                &&& outcome is Pending
                                &&& final(self)@ == old(self)@
                                &&& final(self).history(state.operation()) == stream
                            },
                            Some(edge) => {
                                let value = ready[edge]->Some_0;
                                let next = state.successor(context, edge, value);
                                let terminal = next.edge_count(context) == 0;
                                &&& outcome matches CycleOutcome::Advanced {
                                    edge: fired,
                                    successor,
                                    terminal: ended,
                                }
                                &&& fired == edge
                                &&& successor == next
                                &&& ended == terminal
                                &&& next.operation() == state.operation()
                                &&& final(self)@ == (ExecutorView {
                                    db: settled(
                                        old(self)@.db,
                                        index,
                                        erased(module_instance_id, next),
                                        terminal,
                                        false,
                                        state.effects(context, edge, value),
                                        next.log_update(),
                                        now,
                                    ),
                                    ..old(self)@
                                })
                                &&& final(self).history(state.operation()) == published(
                                    stream,
                                    erased(module_instance_id, next),
                                )
                            },
                        }
                    },
                }
            }),
    {
        let from = DynState::from_typed(module_instance_id, state);
        let index = match self.db.find_exact(&from) {
            None => {
                return CycleOutcome::NotActive;
            },
            Some(index) => index,
        };
        if state.transitions(context) == 0 {
            let effects: Vec<ModuleWrite> = Vec::new();
            assert(write_views(effects@) =~= Seq::<ModuleWriteView>::empty());
            self.settle(index, from, true, false, effects, Vec::new(), now);
            return CycleOutcome::Retired;
        }
        let (edge, value) = match select_trigger(ready) {
            None => {
                return CycleOutcome::Pending;
            },
            Some(winner) => winner,
        };
        let mut effects: Vec<ModuleWrite> = Vec::new();
        assert(write_views(effects@) =~= Seq::<ModuleWriteView>::empty());
        let successor = state.transition(&mut effects, context, edge, value);
        assert(write_views(effects@) =~= state.effects(context, edge as int, value));
        let terminal = successor.transitions(context) == 0;
        let to = DynState::from_typed(module_instance_id, &successor);
        let update = successor.operation_log_update();
        self.settle(index, to, terminal, false, effects, update, now);
        CycleOutcome::Advanced { edge, successor, terminal }
    }
}

/// How one cycle of a machine ended.
#[derive(Debug)]
pub enum CycleOutcome<S> {
    /// The machine is not in the active set; its driver ends.
    NotActive,
    /// The state has no transitions; the machine moved to the inactive set.
    Retired,
    /// No trigger is ready; the driver goes on waiting.
    Pending,
    /// The transition of edge `edge` was committed.
    Advanced { edge: usize, successor: S, terminal: bool },
}

} // verus!
