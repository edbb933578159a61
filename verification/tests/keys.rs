use sm_executor::client::{InitMode, InitModeComplete, InitState, ModuleRecoveryState};
use sm_executor::dyn_state::DynState;
use sm_executor::encoding::DecodeError;
use sm_executor::ids::OperationId;
use sm_executor::database::Machine;
use sm_executor::keys::{
    admission_writes, machine_key, read_machine, transition_writes, write_machine, DbKey,
    StoreWrite, ACTIVE_PREFIX, INACTIVE_PREFIX, INIT_STATE_PREFIX,
    MODULE_RECOVERY_PREFIX, OPERATION_LOG_PREFIX, PRE_ROOT_SECRET_HASH_PREFIX,
};
use sm_executor::machines::MachineStatus;
use sm_executor::oplog::{EntryKind, OperationLogEntry};
use sm_executor::records::{
    decode_entry, decode_init_state, decode_recovery, encode_entry, encode_init_state,
    encode_recovery, init_state_write, log_write, recovery_write,
};

fn machine() -> DynState {
    DynState::from_parts(3, OperationId([0x11; 32]), vec![b'A', b'B'])
}

fn machine_key_body() -> Vec<u8> {
    let mut body = vec![3];
    body.extend_from_slice(&[0x11; 32]);
    body.extend_from_slice(&[2, b'A', b'B']);
    body
}

#[test]
fn key_prefixes() {
    assert_eq!(ACTIVE_PREFIX, 0x01);
    assert_eq!(INACTIVE_PREFIX, 0x02);
    assert_eq!(OPERATION_LOG_PREFIX, 0x03);
    assert_eq!(INIT_STATE_PREFIX, 0x04);
    assert_eq!(PRE_ROOT_SECRET_HASH_PREFIX, 0x05);
    assert_eq!(MODULE_RECOVERY_PREFIX, 0x06);
}

#[test]
fn active_key_bytes() {
    let mut expected = vec![0x01];
    expected.extend(machine_key_body());
    assert_eq!(DbKey::Active(machine()).encode(), expected);
    match DbKey::decode(&expected).unwrap() {
        DbKey::Active(state) => {
            assert_eq!(state, machine());
            assert_eq!(state.operation_id(), OperationId([0x11; 32]));
        }
        other => panic!("unexpected key {other:?}"),
    }
}

#[test]
fn inactive_key_bytes() {
    let mut expected = vec![0x02];
    expected.extend(machine_key_body());
    expected.extend_from_slice(&[0, 0, 0, 0, 0, 0, 0x01, 0x02]);
    assert_eq!(DbKey::Inactive(machine(), 0x0102).encode(), expected);
    match DbKey::decode(&expected).unwrap() {
        DbKey::Inactive(state, at) => {
            assert_eq!(state, machine());
            assert_eq!(at, 0x0102);
        }
        other => panic!("unexpected key {other:?}"),
    }
}

#[test]
fn operation_log_key_bytes() {
    let bytes = DbKey::OperationLog(0x0A0B_0C0D_0E0F_1011).encode();
    assert_eq!(bytes, vec![0x03, 0x0A, 0x0B, 0x0C, 0x0D, 0x0E, 0x0F, 0x10, 0x11]);
    assert!(matches!(DbKey::decode(&bytes), Ok(DbKey::OperationLog(0x0A0B_0C0D_0E0F_1011))));
}

#[test]
fn single_keys_bytes() {
    assert_eq!(DbKey::InitState.encode(), vec![0x04]);
    assert_eq!(DbKey::PreRootSecretHash.encode(), vec![0x05]);
    assert!(matches!(DbKey::decode(&[0x04]), Ok(DbKey::InitState)));
    assert!(matches!(DbKey::decode(&[0x05]), Ok(DbKey::PreRootSecretHash)));
}

#[test]
fn module_recovery_key_bytes() {
    assert_eq!(DbKey::ModuleRecovery(7).encode(), vec![0x06, 7]);
    assert_eq!(DbKey::ModuleRecovery(0xFFFF).encode(), vec![0x06, 0xFD, 0xFF, 0xFF]);
    assert!(matches!(DbKey::decode(&[0x06, 0xFD, 0xFF, 0xFF]), Ok(DbKey::ModuleRecovery(0xFFFF))));
}

#[test]
fn key_decode_errors() {
    let error = |bytes: &[u8]| DbKey::decode(bytes).unwrap_err();
    assert_eq!(error(&[]), DecodeError::UnexpectedEnd);
    assert_eq!(error(&[0x00]), DecodeError::InvalidTag);
    assert_eq!(error(&[0x07]), DecodeError::InvalidTag);
    assert_eq!(error(&[0x04, 0]), DecodeError::TrailingBytes);
    assert_eq!(error(&[0x05, 0]), DecodeError::TrailingBytes);
    assert_eq!(error(&[0x03, 1, 2, 3]), DecodeError::UnexpectedEnd);
    assert_eq!(error(&[0x03, 1, 2, 3, 4, 5, 6, 7, 8, 9]), DecodeError::TrailingBytes);
    assert_eq!(error(&[0x06]), DecodeError::UnexpectedEnd);
    assert_eq!(error(&[0x06, 1, 2]), DecodeError::TrailingBytes);
    assert_eq!(error(&[0x06, 0xFE, 0, 1, 0, 0]), DecodeError::OutOfRange);
    assert_eq!(error(&[0x06, 0xFD, 0, 1]), DecodeError::NonCanonical);

    let mut active = DbKey::Active(machine()).encode();
    active.push(0);
    assert_eq!(error(&active), DecodeError::TrailingBytes);
    active.truncate(active.len() - 2);
    assert_eq!(error(&active), DecodeError::UnexpectedEnd);
    assert_eq!(error(&[0x01, 3, 1, 2, 3]), DecodeError::UnexpectedEnd);

    let mut inactive = DbKey::Inactive(machine(), 5).encode();
    inactive.push(0);
    assert_eq!(error(&inactive), DecodeError::TrailingBytes);
    inactive.truncate(inactive.len() - 2);
    assert_eq!(error(&inactive), DecodeError::UnexpectedEnd);
}

#[test]
fn machine_fields_in_the_middle() {
    let mut bytes = vec![0xEE];
    write_machine(&machine(), &mut bytes);
    let end = bytes.len();
    bytes.push(0xEE);
    let (state, next) = read_machine(&bytes, 1).unwrap();
    assert_eq!(state, machine());
    assert_eq!(next, end);
}

#[test]
fn log_entry_stored_form() {
    let entry = OperationLogEntry {
        kind: EntryKind::Progress,
        module_instance_id: Some(3),
        operation_id: OperationId([0x11; 32]),
        created_at: 0x0102,
        payload: vec![9, 9],
    };
    let mut expected = vec![1, 1, 3];
    expected.extend_from_slice(&[0x11; 32]);
    expected.extend_from_slice(&[0, 0, 0, 0, 0, 0, 1, 2]);
    expected.extend_from_slice(&[2, 9, 9]);
    assert_eq!(encode_entry(&entry), expected);
    let back = decode_entry(&expected).unwrap();
    assert_eq!(back.kind, EntryKind::Progress);
    assert_eq!(back.module_instance_id, Some(3));
    assert_eq!(back.operation_id, OperationId([0x11; 32]));
    assert_eq!(back.created_at, 0x0102);
    assert_eq!(back.payload, vec![9, 9]);
}

#[test]
fn log_entry_without_module() {
    for (kind, tag) in [
        (EntryKind::Started, 0u8),
        (EntryKind::Progress, 1),
        (EntryKind::Terminal, 2),
        (EntryKind::Error, 3),
    ] {
        let entry = OperationLogEntry {
            kind,
            module_instance_id: None,
            operation_id: OperationId([0x22; 32]),
            created_at: u64::MAX,
            payload: vec![],
        };
        let bytes = encode_entry(&entry);
        assert_eq!(bytes.len(), 2 + 32 + 8 + 1);
        assert_eq!(&bytes[..2], &[tag, 0]);
        assert_eq!(&bytes[34..42], &[0xFF; 8]);
        let back = decode_entry(&bytes).unwrap();
        assert_eq!(back.kind, kind);
        assert_eq!(back.module_instance_id, None);
        assert_eq!(back.created_at, u64::MAX);
    }
}

#[test]
fn log_entry_decode_errors() {
    let error = |bytes: &[u8]| decode_entry(bytes).unwrap_err();
    assert_eq!(error(&[]), DecodeError::UnexpectedEnd);
    assert_eq!(error(&[4]), DecodeError::InvalidTag);
    assert_eq!(error(&[0]), DecodeError::UnexpectedEnd);
    assert_eq!(error(&[0, 2]), DecodeError::InvalidTag);
    assert_eq!(error(&[0, 1]), DecodeError::UnexpectedEnd);
    assert_eq!(error(&[0, 1, 0xFE, 0, 1, 0, 0]), DecodeError::OutOfRange);
    assert_eq!(error(&[0, 0, 1, 2, 3]), DecodeError::UnexpectedEnd);
    let mut bytes = vec![0, 0];
    bytes.extend_from_slice(&[0; 40]);
    assert_eq!(error(&bytes), DecodeError::UnexpectedEnd);
    bytes.extend_from_slice(&[1, 5, 6]);
    assert_eq!(error(&bytes), DecodeError::TrailingBytes);
}

#[test]
fn init_state_stored_form() {
    let cases: Vec<(InitState, Vec<u8>)> = vec![
        (InitState::Pending(InitMode::Fresh), vec![0, 0]),
        (InitState::Pending(InitMode::Recover { snapshot: None }), vec![0, 1, 0]),
        (
            InitState::Pending(InitMode::Recover { snapshot: Some(vec![7, 8]) }),
            vec![0, 1, 1, 2, 7, 8],
        ),
        (InitState::Complete(InitModeComplete::Fresh), vec![1, 0]),
        (InitState::Complete(InitModeComplete::Recover), vec![1, 1]),
    ];
    for (state, bytes) in cases {
        assert_eq!(encode_init_state(&state), bytes);
        let back = decode_init_state(&bytes).unwrap();
        assert_eq!(encode_init_state(&back), bytes);
        assert_eq!(back.is_pending(), state.is_pending());
        assert_eq!(back.does_require_recovery(), state.does_require_recovery());
    }
}

#[test]
fn init_state_decode_errors() {
    let error = |bytes: &[u8]| decode_init_state(bytes).unwrap_err();
    assert_eq!(error(&[]), DecodeError::UnexpectedEnd);
    assert_eq!(error(&[0]), DecodeError::UnexpectedEnd);
    assert_eq!(error(&[2, 0]), DecodeError::InvalidTag);
    assert_eq!(error(&[0, 2]), DecodeError::InvalidTag);
    assert_eq!(error(&[1, 0, 0]), DecodeError::TrailingBytes);
    assert_eq!(error(&[0, 0, 0]), DecodeError::TrailingBytes);
    assert_eq!(error(&[0, 1]), DecodeError::UnexpectedEnd);
    assert_eq!(error(&[0, 1, 2]), DecodeError::InvalidTag);
    assert_eq!(error(&[0, 1, 0, 0]), DecodeError::TrailingBytes);
    assert_eq!(error(&[0, 1, 1]), DecodeError::UnexpectedEnd);
    assert_eq!(error(&[0, 1, 1, 2, 7]), DecodeError::UnexpectedEnd);
    assert_eq!(error(&[0, 1, 1, 1, 7, 8]), DecodeError::TrailingBytes);
}

#[test]
fn recovery_state_stored_form() {
    let state = ModuleRecoveryState { progress: 0x0102_0304, done: true };
    assert_eq!(encode_recovery(&state), vec![0, 0, 0, 0, 1, 2, 3, 4, 1]);
    assert_eq!(decode_recovery(&[0, 0, 0, 0, 1, 2, 3, 4, 1]), Ok(state));
    let fresh = ModuleRecoveryState::none();
    assert_eq!(encode_recovery(&fresh), vec![0; 9]);
    assert_eq!(decode_recovery(&[0; 9]), Ok(fresh));
    assert_eq!(decode_recovery(&[0; 8]), Err(DecodeError::UnexpectedEnd));
    assert_eq!(decode_recovery(&[0; 10]), Err(DecodeError::TrailingBytes));
    assert_eq!(decode_recovery(&[0, 0, 0, 0, 0, 0, 0, 0, 2]), Err(DecodeError::InvalidTag));
}

#[test]
fn machines_are_stored_under_their_status() {
    let active = Machine { state: machine(), status: MachineStatus::Active { created_at: 9 } };
    assert_eq!(machine_key(&active).encode(), DbKey::Active(machine()).encode());
    let inactive =
        Machine { state: machine(), status: MachineStatus::Inactive { terminated_at: 9 } };
    assert_eq!(machine_key(&inactive).encode(), DbKey::Inactive(machine(), 9).encode());
    assert_ne!(machine_key(&inactive).encode(), DbKey::Inactive(machine(), 10).encode());
}

fn as_pairs(writes: Vec<StoreWrite>) -> Vec<(Vec<u8>, Option<Vec<u8>>)> {
    writes
        .into_iter()
        .map(|write| match write {
            StoreWrite::Delete { key } => (key, None),
            StoreWrite::Put { key, value } => (key, Some(value)),
        })
        .collect()
}

#[test]
fn admission_writes_the_active_key() {
    assert_eq!(
        as_pairs(admission_writes(&machine())),
        vec![(DbKey::Active(machine()).encode(), Some(vec![]))]
    );
}

#[test]
fn transition_deletes_the_old_key_and_inserts_the_new() {
    let successor = DynState::from_parts(3, OperationId([0x11; 32]), vec![b'C']);
    assert_eq!(
        as_pairs(transition_writes(&machine(), &successor, false, 7)),
        vec![
            (DbKey::Active(machine()).encode(), None),
            (DbKey::Active(successor.clone()).encode(), Some(vec![])),
        ]
    );
    assert_eq!(
        as_pairs(transition_writes(&machine(), &successor, true, 7)),
        vec![
            (DbKey::Active(machine()).encode(), None),
            (DbKey::Inactive(successor, 7).encode(), Some(vec![])),
        ]
    );
}

#[test]
fn records_are_written_under_their_keys() {
    let entry = OperationLogEntry {
        kind: EntryKind::Started,
        module_instance_id: None,
        operation_id: OperationId([1; 32]),
        created_at: 2,
        payload: vec![3],
    };
    assert_eq!(
        as_pairs(vec![log_write(5, &entry)]),
        vec![(vec![0x03, 0, 0, 0, 0, 0, 0, 0, 5], Some(encode_entry(&entry)))]
    );
    let state = InitState::Complete(InitModeComplete::Fresh);
    assert_eq!(as_pairs(vec![init_state_write(&state)]), vec![(vec![0x04], Some(vec![1, 0]))]);
    let recovery = ModuleRecoveryState { progress: 1, done: false };
    assert_eq!(
        as_pairs(vec![recovery_write(7, &recovery)]),
        vec![(vec![0x06, 7], Some(vec![0, 0, 0, 0, 0, 0, 0, 1, 0]))]
    );
}
