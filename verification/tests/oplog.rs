use serde_json::Value;
use sm_executor::database::{Database, ModuleWrite};
use sm_executor::dyn_state::DynState;
use sm_executor::encoding::DecodeError;
use sm_executor::executor::Executor;
use sm_executor::ids::OperationId;
use sm_executor::notifier::Notifier;
use sm_executor::oplog::{EntryKind, LogError, OperationLog, OperationLogEntry};
use sm_executor::state::State;

const OP: OperationId = OperationId([3; 32]);
const OTHER: OperationId = OperationId([4; 32]);

fn entry(kind: EntryKind, operation_id: OperationId, at: u64) -> OperationLogEntry {
    OperationLogEntry {
        kind,
        module_instance_id: Some(1),
        operation_id,
        created_at: at,
        payload: vec![at as u8],
    }
}

fn kinds(entries: &[OperationLogEntry]) -> Vec<EntryKind> {
    entries.iter().map(|e| e.kind).collect()
}

#[test]
fn log_numbers_entries_in_order() {
    let mut log = OperationLog::new();
    assert_eq!(log.len(), 0);
    assert_eq!(log.append(entry(EntryKind::Started, OP, 1)), Ok(0));
    assert_eq!(log.append(entry(EntryKind::Started, OTHER, 2)), Ok(1));
    assert_eq!(log.append(entry(EntryKind::Progress, OP, 3)), Ok(2));
    assert_eq!(log.len(), 3);
    assert_eq!(log.get(2).unwrap().created_at, 3);
    assert_eq!(log.get(1).unwrap().operation_id, OTHER);
    assert!(log.get(3).is_none());
}

#[test]
fn log_keeps_the_lifecycle_order() {
    let mut log = OperationLog::new();
    assert_eq!(log.append(entry(EntryKind::Progress, OP, 1)), Err(LogError::NotStarted));
    assert_eq!(log.append(entry(EntryKind::Terminal, OP, 1)), Err(LogError::NotStarted));
    assert_eq!(log.append(entry(EntryKind::Error, OP, 1)), Err(LogError::NotStarted));
    assert_eq!(log.len(), 0);
    assert_eq!(log.append(entry(EntryKind::Started, OP, 2)), Ok(0));
    assert_eq!(log.append(entry(EntryKind::Started, OP, 3)), Err(LogError::AlreadyStarted));
    assert_eq!(log.append(entry(EntryKind::Progress, OP, 4)), Ok(1));
    assert_eq!(log.append(entry(EntryKind::Progress, OP, 5)), Ok(2));
    assert_eq!(log.append(entry(EntryKind::Terminal, OP, 6)), Ok(3));
    assert_eq!(log.append(entry(EntryKind::Progress, OP, 7)), Err(LogError::Closed));
    assert_eq!(log.append(entry(EntryKind::Terminal, OP, 7)), Err(LogError::Closed));
    assert_eq!(log.append(entry(EntryKind::Error, OP, 7)), Err(LogError::Closed));
    assert_eq!(log.append(entry(EntryKind::Started, OP, 7)), Err(LogError::AlreadyStarted));
    assert_eq!(log.len(), 4);
    assert!(log.is_started(&OP));
    assert!(log.is_closed(&OP));
    assert!(!log.is_started(&OTHER));
    assert!(!log.is_closed(&OTHER));
}

#[test]
fn log_error_entry_closes_the_operation() {
    let mut log = OperationLog::new();
    log.append(entry(EntryKind::Started, OP, 1)).unwrap();
    assert_eq!(log.append(entry(EntryKind::Error, OP, 2)), Ok(1));
    assert!(log.is_closed(&OP));
    assert_eq!(log.append(entry(EntryKind::Progress, OP, 3)), Err(LogError::Closed));
}

#[test]
fn log_entries_of_one_operation() {
    let mut log = OperationLog::new();
    log.append(entry(EntryKind::Started, OP, 1)).unwrap();
    log.append(entry(EntryKind::Started, OTHER, 2)).unwrap();
    log.append(entry(EntryKind::Progress, OP, 3)).unwrap();
    log.append(entry(EntryKind::Terminal, OTHER, 4)).unwrap();
    log.append(entry(EntryKind::Terminal, OP, 5)).unwrap();
    let mine = log.entries_of(&OP);
    assert_eq!(kinds(&mine), vec![EntryKind::Started, EntryKind::Progress, EntryKind::Terminal]);
    assert_eq!(mine.iter().map(|e| e.created_at).collect::<Vec<_>>(), vec![1, 3, 5]);
    assert_eq!(kinds(&log.entries_of(&OTHER)), vec![EntryKind::Started, EntryKind::Terminal]);
    assert!(log.entries_of(&OperationId([0; 32])).is_empty());
}

#[test]
fn executor_logs_progress_and_the_end_of_an_operation() {
    let mut builder = Executor::builder();
    builder.with_module(1);
    let mut executor = builder.build(Database::new(), Notifier::new());
    let first = DynState::from_parts(1, OP, vec![1]);
    let second = DynState::from_parts(1, OP, vec![2]);
    let third = DynState::from_parts(1, OP, vec![3]);
    let sibling = DynState::from_parts(1, OP, vec![9]);

    assert_eq!(executor.add_operation_log_entry(entry(EntryKind::Started, OP, 1)), Ok(0));
    executor.add_state_machine(first.clone(), 2).unwrap();
    executor.add_state_machine(sibling.clone(), 2).unwrap();
    executor.commit_transition(&first, second.clone(), false, vec![], vec![0xAA], 3).unwrap();
    // The sibling is still active: the end of one machine is progress.
    executor.commit_transition(&second, third, true, vec![], vec![0xBB], 4).unwrap();
    // The last machine ends: the operation is over.
    executor.retire(&sibling, 5).unwrap();

    let log = executor.database().operation_log().entries_of(&OP);
    assert_eq!(
        kinds(&log),
        vec![EntryKind::Started, EntryKind::Progress, EntryKind::Progress, EntryKind::Terminal]
    );
    assert_eq!(log[1].payload, vec![0xAA]);
    assert_eq!(log[1].created_at, 3);
    assert_eq!(log[1].module_instance_id, Some(1));
    assert_eq!(log[2].payload, vec![0xBB]);
    assert_eq!(log[3].payload, Vec::<u8>::new());
    assert_eq!(log[3].created_at, 5);
}

#[test]
fn executor_logs_a_failed_transition_as_error() {
    let mut builder = Executor::builder();
    builder.with_module(1);
    let mut executor = builder.build(Database::new(), Notifier::new());
    let first = DynState::from_parts(1, OP, vec![1]);
    executor.add_operation_log_entry(entry(EntryKind::Started, OP, 1)).unwrap();
    executor.add_state_machine(first.clone(), 2).unwrap();
    executor.fail_transition(&first, 3).unwrap();
    let log = executor.database().operation_log().entries_of(&OP);
    assert_eq!(kinds(&log), vec![EntryKind::Started, EntryKind::Error]);
    assert!(executor.database().operation_log().is_closed(&OP));
}

#[test]
fn executor_does_not_log_for_an_operation_that_was_not_started() {
    let mut builder = Executor::builder();
    builder.with_module(1);
    let mut executor = builder.build(Database::new(), Notifier::new());
    let first = DynState::from_parts(1, OP, vec![1]);
    executor.add_state_machine(first.clone(), 2).unwrap();
    executor.retire(&first, 3).unwrap();
    assert_eq!(executor.database().operation_log().len(), 0);
    assert_eq!(
        executor.add_operation_log_entry(entry(EntryKind::Progress, OP, 4)),
        Err(LogError::NotStarted)
    );
}

#[derive(Debug, Clone, PartialEq, Eq)]
struct Countdown(u8);

impl State for Countdown {
    type ModuleContext = ();

    fn transitions(&self, _context: &()) -> usize {
        usize::from(self.0 > 0)
    }

    fn transition(&self, _dbtx: &mut Vec<ModuleWrite>, _context: &(), _edge: usize, _value: Value) -> Self {
        Countdown(self.0 - 1)
    }

    fn operation_id(&self) -> OperationId {
        OP
    }

    fn operation_log_update(&self) -> Vec<u8> {
        vec![self.0]
    }

    fn consensus_encode(&self, out: &mut Vec<u8>) {
        out.push(self.0);
    }

    fn consensus_decode_partial(bytes: &[u8], pos: usize) -> Result<(Self, usize), DecodeError> {
        match bytes.get(pos) {
            None => Err(DecodeError::UnexpectedEnd),
            Some(n) => Ok((Countdown(*n), pos + 1)),
        }
    }
}

#[test]
fn cycle_logs_the_update_that_the_successor_carries() {
    let mut builder = Executor::builder();
    builder.with_module(1);
    let mut executor = builder.build(Database::new(), Notifier::new());
    executor.add_operation_log_entry(entry(EntryKind::Started, OP, 1)).unwrap();
    executor.add_state_machine(DynState::from_typed(1, &Countdown(2)), 2).unwrap();
    executor.run_cycle(1, &Countdown(2), &(), vec![Some(Value::Null)], 3);
    executor.run_cycle(1, &Countdown(1), &(), vec![Some(Value::Null)], 4);
    let log = executor.database().operation_log().entries_of(&OP);
    assert_eq!(
        kinds(&log),
        vec![EntryKind::Started, EntryKind::Progress, EntryKind::Terminal]
    );
    assert_eq!(log[1].payload, vec![1]);
    assert_eq!(log[2].payload, vec![0]);
    assert_eq!(log[2].created_at, 4);
}
