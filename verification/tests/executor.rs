use serde_json::Value;
use sm_executor::database::{Database, Machine, ModuleWrite, RestoreError};
use sm_executor::dyn_state::DynState;
use sm_executor::encoding::DecodeError;
use sm_executor::executor::{AddResult, CycleOutcome, Executor, ExecutorError};
use sm_executor::ids::OperationId;
use sm_executor::machines::MachineStatus;
use sm_executor::oplog::{EntryKind, OperationLogEntry};
use sm_executor::notifier::{Delivery, Notifier, Subscription};
use sm_executor::state::State;

const OP: OperationId = OperationId([0x11; 32]);
const MODULE: u16 = 3;

/// Three states in a row: `A -> B -> C`, the last one terminal.
#[derive(Debug, Clone, PartialEq, Eq)]
enum Abc {
    A,
    B,
    C,
}

impl State for Abc {
    type ModuleContext = ();

    fn transitions(&self, _context: &()) -> usize {
        match self {
            Abc::C => 0,
            _ => 1,
        }
    }

    fn transition(&self, dbtx: &mut Vec<ModuleWrite>, _context: &(), _edge: usize, value: Value) -> Self {
        dbtx.push(ModuleWrite {
            module_instance_id: MODULE,
            key: vec![b'k'],
            value: Some(value.to_string().into_bytes()),
        });
        match self {
            Abc::A => Abc::B,
            _ => Abc::C,
        }
    }

    fn operation_id(&self) -> OperationId {
        OP
    }

    fn operation_log_update(&self) -> Vec<u8> {
        format!("{self:?}").into_bytes()
    }

    fn consensus_encode(&self, out: &mut Vec<u8>) {
        out.push(match self {
            Abc::A => b'A',
            Abc::B => b'B',
            Abc::C => b'C',
        });
    }

    fn consensus_decode_partial(bytes: &[u8], pos: usize) -> Result<(Self, usize), DecodeError> {
        match bytes.get(pos) {
            None => Err(DecodeError::UnexpectedEnd),
            Some(b'A') => Ok((Abc::A, pos + 1)),
            Some(b'B') => Ok((Abc::B, pos + 1)),
            Some(b'C') => Ok((Abc::C, pos + 1)),
            Some(_) => Err(DecodeError::InvalidTag),
        }
    }
}

/// A state with two edges: edge 0 leads to `Y`, edge 1 to `Z`.
#[derive(Debug, Clone, PartialEq, Eq)]
enum Fork {
    X,
    Y,
    Z,
}

impl State for Fork {
    type ModuleContext = ();

    fn transitions(&self, _context: &()) -> usize {
        match self {
            Fork::X => 2,
            _ => 0,
        }
    }

    fn transition(&self, _dbtx: &mut Vec<ModuleWrite>, _context: &(), edge: usize, _value: Value) -> Self {
        if edge == 0 {
            Fork::Y
        } else {
            Fork::Z
        }
    }

    fn operation_id(&self) -> OperationId {
        OP
    }

    fn operation_log_update(&self) -> Vec<u8> {
        format!("{self:?}").into_bytes()
    }

    fn consensus_encode(&self, out: &mut Vec<u8>) {
        out.push(match self {
            Fork::X => b'X',
            Fork::Y => b'Y',
            Fork::Z => b'Z',
        });
    }

    fn consensus_decode_partial(bytes: &[u8], pos: usize) -> Result<(Self, usize), DecodeError> {
        match bytes.get(pos) {
            None => Err(DecodeError::UnexpectedEnd),
            Some(b'X') => Ok((Fork::X, pos + 1)),
            Some(b'Y') => Ok((Fork::Y, pos + 1)),
            Some(b'Z') => Ok((Fork::Z, pos + 1)),
            Some(_) => Err(DecodeError::InvalidTag),
        }
    }
}

fn executor_with(modules: &[u16], db: Database) -> Executor {
    let mut builder = Executor::builder();
    for id in modules {
        builder.with_module(*id);
    }
    builder.build(db, Notifier::new())
}

fn erase<S: State>(state: &S) -> DynState {
    DynState::from_typed(MODULE, state)
}

fn received(executor: &Executor, subscription: &mut Subscription) -> Vec<DynState> {
    let mut states = Vec::new();
    loop {
        match executor.notifier().recv(subscription) {
            Delivery::State(state) => states.push(state),
            Delivery::Lagged(_) => panic!("the reader lagged"),
            Delivery::Pending => return states,
        }
    }
}

fn active(executor: &Executor) -> Vec<DynState> {
    executor.get_active_states().into_iter().map(|m| m.state).collect()
}

fn inactive(executor: &Executor) -> Vec<DynState> {
    executor.get_inactive_states().into_iter().map(|m| m.state).collect()
}

#[test]
fn simple_progression() {
    let mut executor = executor_with(&[MODULE], Database::new());
    let mut early = executor.subscribe(OP);
    assert_eq!(executor.add_state_machine(erase(&Abc::A), 10), Ok(AddResult::Admitted));
    let mut late = executor.subscribe(OP);
    assert!(!executor.is_inactive(OP));
    assert_eq!(executor.get_active_operations(), vec![OP]);

    let started = executor.start().unwrap();
    assert_eq!(started, vec![erase(&Abc::A)]);

    let first = executor.run_cycle(MODULE, &Abc::A, &(), vec![Some(Value::Null)], 11);
    match first {
        CycleOutcome::Advanced { edge, successor, terminal } => {
            assert_eq!(edge, 0);
            assert_eq!(successor, Abc::B);
            assert!(!terminal);
        }
        other => panic!("unexpected outcome {other:?}"),
    }
    assert_eq!(active(&executor), vec![erase(&Abc::B)]);
    assert!(!executor.is_inactive(OP));

    let second = executor.run_cycle(MODULE, &Abc::B, &(), vec![Some(Value::Null)], 12);
    match second {
        CycleOutcome::Advanced { edge, successor, terminal } => {
            assert_eq!(edge, 0);
            assert_eq!(successor, Abc::C);
            assert!(terminal);
        }
        other => panic!("unexpected outcome {other:?}"),
    }

    let expected = vec![erase(&Abc::A), erase(&Abc::B), erase(&Abc::C)];
    assert_eq!(received(&executor, &mut early), expected);
    assert_eq!(received(&executor, &mut late), expected);
    assert!(!early.has_lagged());
    assert!(executor.is_inactive(OP));
    assert!(active(&executor).is_empty());
    assert_eq!(inactive(&executor), vec![erase(&Abc::C)]);
    assert_eq!(executor.get_inactive_states()[0].terminated_at, 12);
    assert!(executor.get_active_operations().is_empty());
}

#[test]
fn race_and_tie_break() {
    let mut executor = executor_with(&[MODULE], Database::new());
    assert_eq!(executor.add_state_machine(erase(&Fork::X), 1), Ok(AddResult::Admitted));
    let ready = vec![Some(Value::from(0u64)), Some(Value::from(1u64))];
    match executor.run_cycle(MODULE, &Fork::X, &(), ready, 2) {
        CycleOutcome::Advanced { edge, successor, terminal } => {
            assert_eq!(edge, 0);
            assert_eq!(successor, Fork::Y);
            assert!(terminal);
        }
        other => panic!("unexpected outcome {other:?}"),
    }
    assert_eq!(inactive(&executor), vec![erase(&Fork::Y)]);
    assert!(active(&executor).is_empty());
}

#[test]
fn only_the_second_trigger_is_ready() {
    let mut executor = executor_with(&[MODULE], Database::new());
    executor.add_state_machine(erase(&Fork::X), 1).unwrap();
    let ready = vec![None, Some(Value::from(1u64))];
    match executor.run_cycle(MODULE, &Fork::X, &(), ready, 2) {
        CycleOutcome::Advanced { edge, successor, .. } => {
            assert_eq!(edge, 1);
            assert_eq!(successor, Fork::Z);
        }
        other => panic!("unexpected outcome {other:?}"),
    }
    assert_eq!(inactive(&executor), vec![erase(&Fork::Z)]);
}

#[test]
fn no_trigger_ready_changes_nothing() {
    let mut executor = executor_with(&[MODULE], Database::new());
    executor.add_state_machine(erase(&Fork::X), 1).unwrap();
    let outcome = executor.run_cycle(MODULE, &Fork::X, &(), vec![None, None], 2);
    assert!(matches!(outcome, CycleOutcome::Pending));
    assert_eq!(active(&executor), vec![erase(&Fork::X)]);
    assert!(inactive(&executor).is_empty());
    assert_eq!(executor.database().operation_log().len(), 0);
}

#[test]
fn crash_between_transition_and_commit() {
    let mut executor = executor_with(&[MODULE], Database::new());
    executor.add_state_machine(erase(&Fork::X), 1).unwrap();

    // The transition function ran, and the process died before the commit.
    let mut dropped = Vec::new();
    let would_win = Fork::X.transition(&mut dropped, &(), 0, Value::from(0u64));
    let db = executor.into_database();

    let mut restarted = executor_with(&[MODULE], db);
    assert_eq!(restarted.start().unwrap(), vec![erase(&Fork::X)]);
    assert_eq!(active(&restarted), vec![erase(&Fork::X)]);
    assert!(inactive(&restarted).is_empty());

    let ready = vec![Some(Value::from(0u64)), Some(Value::from(1u64))];
    match restarted.run_cycle(MODULE, &Fork::X, &(), ready, 5) {
        CycleOutcome::Advanced { successor, .. } => assert_eq!(successor, would_win),
        other => panic!("unexpected outcome {other:?}"),
    }
    assert_eq!(inactive(&restarted), vec![erase(&Fork::Y)]);
}

#[test]
fn restart_goes_on_from_the_committed_successor() {
    let mut executor = executor_with(&[MODULE], Database::new());
    executor.add_state_machine(erase(&Abc::A), 1).unwrap();
    executor.run_cycle(MODULE, &Abc::A, &(), vec![Some(Value::Null)], 2);
    let mut restarted = executor_with(&[MODULE], executor.into_database());
    assert_eq!(restarted.start().unwrap(), vec![erase(&Abc::B)]);
    let stale = restarted.run_cycle(MODULE, &Abc::A, &(), vec![Some(Value::Null)], 3);
    assert!(matches!(stale, CycleOutcome::NotActive));
    assert_eq!(active(&restarted), vec![erase(&Abc::B)]);
}

#[test]
fn duplicate_admission() {
    let mut executor = executor_with(&[MODULE], Database::new());
    assert_eq!(executor.add_state_machine(erase(&Abc::A), 1), Ok(AddResult::Admitted));
    let mut reader = executor.subscribe(OP);
    assert_eq!(executor.add_state_machine(erase(&Abc::A), 2), Ok(AddResult::AlreadyExists));
    assert_eq!(active(&executor), vec![erase(&Abc::A)]);
    assert_eq!(executor.get_active_states()[0].created_at, 1);
    assert_eq!(received(&executor, &mut reader), vec![erase(&Abc::A)]);
}

#[test]
fn admission_of_an_unregistered_module_is_rejected() {
    let mut executor = executor_with(&[MODULE], Database::new());
    let stranger = DynState::from_typed(9, &Abc::A);
    assert_eq!(
        executor.add_state_machine(stranger, 1),
        Err(ExecutorError::AdmissionRejected(9))
    );
    assert!(active(&executor).is_empty());
    assert!(executor.is_inactive(OP));
}

#[test]
fn unknown_module_on_restart() {
    let mut first = Executor::builder();
    first.with_module(MODULE);
    first.with_module(42);
    let mut executor = first.build(Database::new(), Notifier::new());
    let orphan = DynState::from_parts(42, OperationId([0x42; 32]), vec![1, 2, 3]);
    executor.add_state_machine(orphan.clone(), 1).unwrap();
    executor.add_state_machine(erase(&Abc::A), 2).unwrap();

    let mut restarted = executor_with(&[MODULE], executor.into_database());
    assert_eq!(restarted.start().unwrap(), vec![erase(&Abc::A)]);
    assert!(restarted.is_running());
    assert_eq!(active(&restarted), vec![orphan.clone(), erase(&Abc::A)]);

    let outcome = restarted.run_cycle(MODULE, &Abc::A, &(), vec![Some(Value::Null)], 3);
    assert!(matches!(outcome, CycleOutcome::Advanced { .. }));
    assert_eq!(active(&restarted), vec![orphan, erase(&Abc::B)]);
}

#[test]
fn strict_start_fails_on_an_unknown_module() {
    let mut first = Executor::builder();
    first.with_module(42);
    let mut executor = first.build(Database::new(), Notifier::new());
    let orphan = DynState::from_parts(42, OperationId([0x42; 32]), vec![1, 2, 3]);
    executor.add_state_machine(orphan.clone(), 1).unwrap();

    let mut strict = Executor::builder();
    strict.with_module(MODULE);
    strict.strict();
    let mut restarted = strict.build(executor.into_database(), Notifier::new());
    assert_eq!(restarted.start(), Err(ExecutorError::DecoderMissing(42)));
    assert!(!restarted.is_running());
    assert_eq!(active(&restarted), vec![orphan]);
}

#[test]
fn valid_module_ids_are_admitted_and_not_driven() {
    let mut builder = Executor::builder();
    builder.with_module(MODULE);
    builder.with_valid_module_id(7);
    builder.strict();
    let mut executor = builder.build(Database::new(), Notifier::new());
    let recovering = DynState::from_parts(7, OP, vec![9]);
    assert_eq!(executor.add_state_machine(recovering.clone(), 1), Ok(AddResult::Admitted));
    assert_eq!(executor.start().unwrap(), Vec::<DynState>::new());
    assert_eq!(active(&executor), vec![recovering]);
}

#[test]
fn terminal_state_is_retired() {
    let mut executor = executor_with(&[MODULE], Database::new());
    executor.add_state_machine(erase(&Abc::C), 1).unwrap();
    let mut reader = executor.subscribe(OP);
    let outcome = executor.run_cycle(MODULE, &Abc::C, &(), vec![], 4);
    assert!(matches!(outcome, CycleOutcome::Retired));
    assert!(active(&executor).is_empty());
    assert_eq!(inactive(&executor), vec![erase(&Abc::C)]);
    assert_eq!(received(&executor, &mut reader), vec![erase(&Abc::C), erase(&Abc::C)]);
    assert_eq!(executor.retire(&erase(&Abc::C), 5), Err(ExecutorError::NotActive));
}

#[test]
fn second_commit_from_the_same_state_is_refused() {
    let mut executor = executor_with(&[MODULE], Database::new());
    executor.add_state_machine(erase(&Abc::A), 1).unwrap();
    assert_eq!(
        executor.commit_transition(&erase(&Abc::A), erase(&Abc::B), false, vec![], vec![], 2),
        Ok(())
    );
    assert_eq!(
        executor.commit_transition(&erase(&Abc::A), erase(&Abc::C), true, vec![], vec![], 3),
        Err(ExecutorError::NotActive)
    );
    assert_eq!(active(&executor), vec![erase(&Abc::B)]);
    assert!(inactive(&executor).is_empty());
}

#[test]
fn commit_into_an_active_successor_stores_it_once() {
    let mut executor = executor_with(&[MODULE], Database::new());
    executor.add_state_machine(erase(&Abc::A), 1).unwrap();
    executor.add_state_machine(erase(&Abc::B), 2).unwrap();
    executor
        .commit_transition(&erase(&Abc::A), erase(&Abc::B), false, vec![], vec![], 3)
        .unwrap();
    assert_eq!(active(&executor), vec![erase(&Abc::B)]);
    assert_eq!(executor.get_active_states()[0].created_at, 2);
}

#[test]
fn transition_writes_are_committed_with_the_move() {
    let mut executor = executor_with(&[MODULE], Database::new());
    executor.add_state_machine(erase(&Abc::A), 1).unwrap();
    assert_eq!(executor.database().module_value(MODULE, b"k"), None);
    executor.run_cycle(MODULE, &Abc::A, &(), vec![Some(Value::from(7u64))], 2);
    assert_eq!(executor.database().module_value(MODULE, b"k"), Some(b"7".to_vec()));
    executor.run_cycle(MODULE, &Abc::B, &(), vec![Some(Value::from(true))], 3);
    assert_eq!(executor.database().module_value(MODULE, b"k"), Some(b"true".to_vec()));
    assert_eq!(executor.database().module_value(MODULE + 1, b"k"), None);
    assert_eq!(executor.database().module_value(MODULE, b"other"), None);
}

#[test]
fn failed_transition_ends_the_machine() {
    let mut executor = executor_with(&[MODULE], Database::new());
    executor.add_state_machine(erase(&Abc::A), 1).unwrap();
    let mut reader = executor.subscribe(OP);
    assert_eq!(executor.fail_transition(&erase(&Abc::A), 2), Ok(()));
    assert!(active(&executor).is_empty());
    assert_eq!(inactive(&executor), vec![erase(&Abc::A)]);
    assert_eq!(received(&executor, &mut reader), vec![erase(&Abc::A), erase(&Abc::A)]);
    assert_eq!(executor.fail_transition(&erase(&Abc::A), 3), Err(ExecutorError::NotActive));
    let restarted = executor_with(&[MODULE], executor.into_database()).start().unwrap();
    assert!(restarted.is_empty());
}

#[test]
fn active_operations_are_distinct() {
    let mut executor = executor_with(&[MODULE], Database::new());
    let other = OperationId([0x22; 32]);
    executor.add_state_machine(DynState::from_parts(MODULE, OP, vec![1]), 1).unwrap();
    executor.add_state_machine(DynState::from_parts(MODULE, OP, vec![2]), 2).unwrap();
    executor.add_state_machine(DynState::from_parts(MODULE, other, vec![3]), 3).unwrap();
    assert_eq!(executor.get_active_operations(), vec![OP, other]);
    assert!(executor.has_active_states(other));
    executor.retire(&DynState::from_parts(MODULE, other, vec![3]), 4).unwrap();
    assert_eq!(executor.get_active_operations(), vec![OP]);
    assert!(executor.is_inactive(other));
    assert!(!executor.is_inactive(OP));
}

#[test]
fn stop_and_start() {
    let mut executor = executor_with(&[MODULE], Database::new());
    assert!(!executor.is_stopped());
    assert!(!executor.is_running());
    executor.start().unwrap();
    assert!(executor.is_running());
    executor.stop();
    assert!(executor.is_stopped());
    assert!(!executor.is_running());
}

#[test]
fn every_identity_is_in_one_set() {
    let mut executor = executor_with(&[MODULE], Database::new());
    executor.add_state_machine(erase(&Abc::A), 1).unwrap();
    executor.add_state_machine(erase(&Fork::X), 1).unwrap();
    let check = |executor: &Executor| {
        let active = active(executor);
        let inactive = inactive(executor);
        for state in &active {
            assert!(!inactive.iter().any(|other| other.same_id(state)));
            assert_eq!(active.iter().filter(|other| other.same_id(state)).count(), 1);
        }
    };
    check(&executor);
    executor.run_cycle(MODULE, &Abc::A, &(), vec![Some(Value::Null)], 2);
    check(&executor);
    executor.run_cycle(MODULE, &Fork::X, &(), vec![None, Some(Value::Null)], 3);
    check(&executor);
    executor.run_cycle(MODULE, &Abc::B, &(), vec![Some(Value::Null)], 4);
    check(&executor);
    assert!(active(&executor).is_empty());
    assert_eq!(inactive(&executor), vec![erase(&Fork::Z), erase(&Abc::C)]);
}

#[test]
fn admission_looks_at_the_active_set_only() {
    let mut executor = executor_with(&[MODULE], Database::new());
    executor.add_state_machine(erase(&Abc::C), 1).unwrap();
    executor.retire(&erase(&Abc::C), 2).unwrap();
    assert_eq!(executor.add_state_machine(erase(&Abc::C), 3), Ok(AddResult::Admitted));
    assert_eq!(active(&executor), vec![erase(&Abc::C)]);
    assert_eq!(inactive(&executor), vec![erase(&Abc::C)]);
}

fn log_entry(kind: EntryKind, at: u64) -> OperationLogEntry {
    OperationLogEntry {
        kind,
        module_instance_id: Some(MODULE),
        operation_id: OP,
        created_at: at,
        payload: vec![],
    }
}

#[test]
fn database_is_restored_from_its_records() {
    let mut executor = executor_with(&[MODULE], Database::new());
    executor.add_operation_log_entry(log_entry(EntryKind::Started, 0)).unwrap();
    executor.add_state_machine(erase(&Abc::A), 1).unwrap();
    executor.add_state_machine(erase(&Fork::X), 1).unwrap();
    executor.run_cycle(MODULE, &Fork::X, &(), vec![Some(Value::Null), None], 2);
    executor.run_cycle(MODULE, &Abc::A, &(), vec![Some(Value::from(3u64))], 3);
    let db = executor.into_database();

    let machines = db.machines();
    let writes = db.writes();
    let entries = db.operation_log().entries();
    assert_eq!(machines.len(), 2);
    assert_eq!(machines[0].state, erase(&Fork::Y));
    assert_eq!(machines[0].status, MachineStatus::Inactive { terminated_at: 2 });
    assert_eq!(machines[1].state, erase(&Abc::B));
    assert_eq!(machines[1].status, MachineStatus::Active { created_at: 3 });
    assert_eq!(writes.len(), 1);
    assert_eq!(writes[0].value, Some(b"3".to_vec()));
    assert_eq!(entries.len(), 3);

    let restored = Database::restore(machines, writes, entries).unwrap();
    assert_eq!(restored.module_value(MODULE, b"k"), Some(b"3".to_vec()));
    assert_eq!(restored.operation_log().len(), 3);
    let mut restarted = executor_with(&[MODULE], restored);
    assert_eq!(restarted.start().unwrap(), vec![erase(&Abc::B)]);
    assert_eq!(inactive(&restarted), vec![erase(&Fork::Y)]);
}

#[test]
fn records_with_a_duplicate_active_machine_are_refused() {
    let row = |state: DynState, status: MachineStatus| Machine { state, status };
    let twice = vec![
        row(erase(&Abc::A), MachineStatus::Active { created_at: 1 }),
        row(erase(&Abc::B), MachineStatus::Active { created_at: 2 }),
        row(erase(&Abc::A), MachineStatus::Active { created_at: 3 }),
    ];
    assert_eq!(
        Database::restore(twice, vec![], vec![]).unwrap_err(),
        RestoreError::DuplicateActive
    );
    let both_sets = vec![
        row(erase(&Abc::A), MachineStatus::Active { created_at: 1 }),
        row(erase(&Abc::A), MachineStatus::Inactive { terminated_at: 2 }),
        row(erase(&Abc::A), MachineStatus::Inactive { terminated_at: 3 }),
    ];
    assert!(Database::restore(both_sets, vec![], vec![]).is_ok());
}

#[test]
fn records_with_a_log_out_of_order_are_refused() {
    let entries = vec![log_entry(EntryKind::Progress, 1), log_entry(EntryKind::Started, 2)];
    assert_eq!(
        Database::restore(vec![], vec![], entries).unwrap_err(),
        RestoreError::LogOutOfOrder
    );
    let closed = vec![
        log_entry(EntryKind::Started, 1),
        log_entry(EntryKind::Terminal, 2),
        log_entry(EntryKind::Progress, 3),
    ];
    assert_eq!(
        Database::restore(vec![], vec![], closed).unwrap_err(),
        RestoreError::LogOutOfOrder
    );
    let twice = vec![
        Machine { state: erase(&Abc::A), status: MachineStatus::Active { created_at: 1 } },
        Machine { state: erase(&Abc::A), status: MachineStatus::Active { created_at: 1 } },
    ];
    assert_eq!(
        Database::restore(twice, vec![], vec![log_entry(EntryKind::Terminal, 1)]).unwrap_err(),
        RestoreError::DuplicateActive
    );
    assert!(Database::restore(vec![], vec![], vec![log_entry(EntryKind::Started, 1)]).is_ok());
}

#[test]
fn admission_can_be_asked_for_beforehand() {
    let mut builder = Executor::builder();
    builder.with_module(MODULE);
    builder.with_valid_module_id(7);
    let mut executor = builder.build(Database::new(), Notifier::new());
    assert!(executor.accepts_module(MODULE));
    assert!(executor.accepts_module(7));
    assert!(!executor.accepts_module(8));
    assert!(!executor.is_active(&erase(&Abc::A)));
    executor.add_state_machine(erase(&Abc::A), 1).unwrap();
    assert!(executor.is_active(&erase(&Abc::A)));
    assert!(!executor.is_active(&erase(&Abc::B)));
    assert!(!executor.is_active(&DynState::from_typed(7, &Abc::A)));
    executor.retire(&erase(&Abc::A), 2).unwrap();
    assert!(!executor.is_active(&erase(&Abc::A)));
}
