//! The stored form of the values that the database holds under its keys.

use vstd::prelude::*;
use crate::client::{InitMode, InitModeComplete, InitState, InitStateView, ModuleRecoveryState};
use crate::encoding::{
    be_bytes, be_value, lemma_be_bytes_len, lemma_be_value_of_bytes, lemma_parse_prefixed_of_bytes,
    lemma_parse_varint_of_bytes, lemma_pow256_values, parse_prefixed, parse_varint,
    prefixed_bytes, read_be, read_prefixed, read_varint, varint_bytes, write_be, write_prefixed,
    write_varint, DecodeError,
};
use crate::ids::{
    operation_id_of, read_operation_id, write_operation_id, ModuleInstanceId, OperationId,
};
use crate::keys::{key_bytes, DbKey, DbKeyView, StoreWrite, StoreWriteView};
use crate::oplog::{EntryKind, EntryView, OperationLogEntry};

verus! {

/// The tag byte of an entry kind.
pub open spec fn kind_tag(kind: EntryKind) -> u8 {
    match kind {
        EntryKind::Started => 0,
        EntryKind::Progress => 1,
        EntryKind::Terminal => 2,
        EntryKind::Error => 3,
    }
}

/// The stored form of a log entry: the kind's tag, the module instance if
/// there is one (a byte that says so, then the instance), the operation,
/// the creation time in eight bytes, and the payload behind its length.
pub open spec fn entry_bytes(entry: EntryView) -> Seq<u8> {
    seq![kind_tag(entry.kind)] + (match entry.module_instance_id {
        None => seq![0u8],
        Some(id) => seq![1u8] + varint_bytes(id as u64),
    }) + entry.operation_id@ + be_bytes(entry.created_at as nat, 8) + prefixed_bytes(
        entry.payload,
    )
}

/// The module instance of an entry at the start of `bytes`, and how many
/// bytes it took.
pub open spec fn parse_module(bytes: Seq<u8>) -> Result<(Option<u16>, nat), DecodeError> {
    if bytes.len() == 0 {
        Err(DecodeError::UnexpectedEnd)
    } else if bytes[0] == 0 {
        Ok((None, 1))
    } else if bytes[0] == 1 {
        match parse_varint(bytes.skip(1)) {
            Err(e) => Err(e),
            Ok((id, taken)) => if id > u16::MAX {
                Err(DecodeError::OutOfRange)
            } else {
                Ok((Some(id as u16), 1 + taken))
            },
        }
    } else {
        Err(DecodeError::InvalidTag)
    }
}

/// The log entry that `bytes` are, if they are one.
pub open spec fn parse_entry(bytes: Seq<u8>) -> Result<EntryView, DecodeError> {
    if bytes.len() == 0 {
        Err(DecodeError::UnexpectedEnd)
    } else if bytes[0] > 3 {
        Err(DecodeError::InvalidTag)
    } else {
        let kind = if bytes[0] == 0 {
            EntryKind::Started
        } else if bytes[0] == 1 {
            EntryKind::Progress
        } else if bytes[0] == 2 {
            EntryKind::Terminal
        } else {
            EntryKind::Error
        };
        match parse_module(bytes.skip(1)) {
            Err(e) => Err(e),
            Ok((module_instance_id, taken)) => {
                let fixed: int = 1 + taken as int;
                if bytes.len() - fixed < 40 {
                    Err(DecodeError::UnexpectedEnd)
                } else {
                    match parse_prefixed(bytes.skip(fixed + 40)) {
                        Err(e) => Err(e),
                        Ok((payload, more)) => if fixed + 40 + more != bytes.len() {
                            Err(DecodeError::TrailingBytes)
                        } else {
                            Ok(
                                EntryView {
                                    kind,
                                    module_instance_id,
                                    operation_id: operation_id_of(
                                        bytes.subrange(fixed, fixed + 32),
                                    ),
                                    created_at: be_value(
                                        bytes.subrange(fixed + 32, fixed + 40),
                                    ) as u64,
                                    payload,
                                },
                            )
                        },
                    }
                }
            },
        }
    }
}

/// Every log entry is read back from its stored form.
pub proof fn lemma_entry_round_trip(entry: EntryView)
    requires
        entry.payload.len() <= u64::MAX,
    ensures
        parse_entry(entry_bytes(entry)) == Ok::<EntryView, DecodeError>(entry),
{
    let module = match entry.module_instance_id {
        None => seq![0u8],
        Some(id) => seq![1u8] + varint_bytes(id as u64),
    };
    let id = entry.operation_id@;
    let time = be_bytes(entry.created_at as nat, 8);
    let tail = prefixed_bytes(entry.payload);
    let bytes = entry_bytes(entry);
    lemma_be_bytes_len(entry.created_at as nat, 8);
    lemma_pow256_values();
    lemma_be_value_of_bytes(entry.created_at as nat, 8);
    assert(bytes.skip(1) == module + (id + time + tail));
    match entry.module_instance_id {
        None => {},
        Some(number) => {
            assert(bytes.skip(1).skip(1) == varint_bytes(number as u64) + (id + time + tail));
            lemma_parse_varint_of_bytes(number as u64, id + time + tail);
        },
    }
    let fixed: int = 1 + module.len() as int;
    assert(bytes.subrange(fixed, fixed + 32) == id);
    OperationId::lemma_view_injective(entry.operation_id, operation_id_of(id));
    assert(bytes.subrange(fixed + 32, fixed + 40) == time);
    assert(bytes.skip(fixed + 40) == tail + Seq::<u8>::empty());
    lemma_parse_prefixed_of_bytes(entry.payload, Seq::empty());
}

/// The stored form of a log entry.
pub fn encode_entry(entry: &OperationLogEntry) -> (bytes: Vec<u8>)
    ensures
        bytes@ == entry_bytes(entry@),
{
    let mut bytes: Vec<u8> = Vec::new();
    bytes.push(
        match entry.kind {
            EntryKind::Started => 0,
            EntryKind::Progress => 1,
            EntryKind::Terminal => 2,
            EntryKind::Error => 3,
        },
    );
    match entry.module_instance_id {
        None => {
            bytes.push(0);
        },
        Some(id) => {
            bytes.push(1);
            write_varint(id as u64, &mut bytes);
        },
    }
    write_operation_id(&entry.operation_id, &mut bytes);
    write_be(entry.created_at, 8, &mut bytes);
    write_prefixed(entry.payload.as_slice(), &mut bytes);
    assert(bytes@ =~= entry_bytes(entry@));
    bytes
}

/// Reads a log entry from all of `bytes`.
pub fn decode_entry(bytes: &[u8]) -> (r: Result<OperationLogEntry, DecodeError>)
    ensures
        match parse_entry(bytes@) {
            Ok(entry) => r matches Ok(got) && got@ == entry,
            Err(e) => r matches Err(got) && got == e,
        },
{
    let len: usize = bytes.len();
    if len == 0 {
        return Err(DecodeError::UnexpectedEnd);
    }
    let kind = if bytes[0] == 0 {
        EntryKind::Started
    } else if bytes[0] == 1 {
        EntryKind::Progress
    } else if bytes[0] == 2 {
        EntryKind::Terminal
    } else if bytes[0] == 3 {
        EntryKind::Error
    } else {
        return Err(DecodeError::InvalidTag);
    };
    if len == 1 {
        return Err(DecodeError::UnexpectedEnd);
    }
    assert(bytes@.skip(1)[0] == bytes@[1]);
    let (module_instance_id, start): (Option<u16>, usize) = if bytes[1] == 0 {
        (None, 2)
    } else if bytes[1] == 1 {
        assert(bytes@.skip(1).skip(1) == bytes@.skip(2));
        match read_varint(bytes, 2) {
            Err(e) => {
                return Err(e);
            },
            Ok((id, next)) => {
                if id > 0xFFFF {
                    return Err(DecodeError::OutOfRange);
                }
                (Some(id as u16), next)
            },
        }
    } else {
        return Err(DecodeError::InvalidTag);
    };
    if len - start < 40 {
        return Err(DecodeError::UnexpectedEnd);
    }
    let operation_id = read_operation_id(bytes, start);
    let created_at = read_be(bytes, start + 32, 8);
    match read_prefixed(bytes, start + 40) {
        Err(e) => Err(e),
        Ok((payload, next)) => {
            if next != len {
                return Err(DecodeError::TrailingBytes);
            }
            Ok(OperationLogEntry { kind, module_instance_id, operation_id, created_at, payload })
        },
    }
}

/// The stored form of an initialisation state: a byte for pending or
/// complete, a byte for the mode, and for a pending recovery the backup, if
/// there is one, behind a byte that says so.
pub open spec fn init_state_bytes(state: InitStateView) -> Seq<u8> {
    match state {
        InitStateView::PendingFresh => seq![0u8, 0u8],
        InitStateView::PendingRecover { snapshot: None } => seq![0u8, 1u8, 0u8],
        InitStateView::PendingRecover { snapshot: Some(backup) } => seq![0u8, 1u8, 1u8]
            + prefixed_bytes(backup),
        InitStateView::Complete(InitModeComplete::Fresh) => seq![1u8, 0u8],
        InitStateView::Complete(InitModeComplete::Recover) => seq![1u8, 1u8],
    }
}

/// The initialisation state that `bytes` are, if they are one.
pub open spec fn parse_init_state(bytes: Seq<u8>) -> Result<InitStateView, DecodeError> {
    if bytes.len() < 2 {
        Err(DecodeError::UnexpectedEnd)
    } else if bytes[0] > 1 || bytes[1] > 1 {
        Err(DecodeError::InvalidTag)
    } else if bytes[0] == 1 || bytes[1] == 0 {
        if bytes.len() > 2 {
            Err(DecodeError::TrailingBytes)
        } else if bytes[0] == 0 {
            Ok(InitStateView::PendingFresh)
        } else if bytes[1] == 0 {
            Ok(InitStateView::Complete(InitModeComplete::Fresh))
        } else {
            Ok(InitStateView::Complete(InitModeComplete::Recover))
        }
    } else if bytes.len() < 3 {
        Err(DecodeError::UnexpectedEnd)
    } else if bytes[2] == 0 {
        if bytes.len() > 3 {
            Err(DecodeError::TrailingBytes)
        } else {
            Ok(InitStateView::PendingRecover { snapshot: None })
        }
    } else if bytes[2] == 1 {
        match parse_prefixed(bytes.skip(3)) {
            Err(e) => Err(e),
            Ok((backup, taken)) => if 3 + taken != bytes.len() {
                Err(DecodeError::TrailingBytes)
            } else {
                Ok(InitStateView::PendingRecover { snapshot: Some(backup) })
            },
        }
    } else {
        Err(DecodeError::InvalidTag)
    }
}

/// Every initialisation state is read back from its stored form.
pub proof fn lemma_init_state_round_trip(state: InitStateView)
    requires
        state matches InitStateView::PendingRecover { snapshot: Some(backup) } ==> backup.len()
            <= u64::MAX,
    ensures
        parse_init_state(init_state_bytes(state)) == Ok::<InitStateView, DecodeError>(state),
{
    if let InitStateView::PendingRecover { snapshot: Some(backup) } = state {
        let bytes = init_state_bytes(state);
        assert(bytes.skip(3) == prefixed_bytes(backup) + Seq::<u8>::empty());
        lemma_parse_prefixed_of_bytes(backup, Seq::empty());
    }
}

/// The stored form of an initialisation state.
pub fn encode_init_state(state: &InitState) -> (bytes: Vec<u8>)
    ensures
        bytes@ == init_state_bytes(state@),
{
    let mut bytes: Vec<u8> = Vec::new();
    match state {
        InitState::Pending(InitMode::Fresh) => {
            bytes.push(0);
            bytes.push(0);
        },
        InitState::Pending(InitMode::Recover { snapshot }) => {
            bytes.push(0);
            bytes.push(1);
            match snapshot {
                None => {
                    bytes.push(0);
                },
                Some(backup) => {
                    bytes.push(1);
                    write_prefixed(backup.as_slice(), &mut bytes);
                },
            }
        },
        InitState::Complete(InitModeComplete::Fresh) => {
            bytes.push(1);
            bytes.push(0);
        },
        InitState::Complete(InitModeComplete::Recover) => {
            bytes.push(1);
            bytes.push(1);
        },
    }
    assert(bytes@ =~= init_state_bytes(state@));
    bytes
}

/// Reads an initialisation state from all of `bytes`.
pub fn decode_init_state(bytes: &[u8]) -> (r: Result<InitState, DecodeError>)
    ensures
        match parse_init_state(bytes@) {
            Ok(state) => r matches Ok(got) && got@ == state,
            Err(e) => r matches Err(got) && got == e,
        },
{
    let len: usize = bytes.len();
    if len < 2 {
        return Err(DecodeError::UnexpectedEnd);
    }
    if bytes[0] > 1 || bytes[1] > 1 {
        return Err(DecodeError::InvalidTag);
    }
    if bytes[0] == 1 || bytes[1] == 0 {
        if len > 2 {
            return Err(DecodeError::TrailingBytes);
        }
        return Ok(
            if bytes[0] == 0 {
                InitState::Pending(InitMode::Fresh)
            } else if bytes[1] == 0 {
                InitState::Complete(InitModeComplete::Fresh)
            } else {
                InitState::Complete(InitModeComplete::Recover)
            },
        );
    }
    if len < 3 {
        return Err(DecodeError::UnexpectedEnd);
    }
    if bytes[2] == 0 {
        if len > 3 {
            return Err(DecodeError::TrailingBytes);
        }
        Ok(InitState::Pending(InitMode::Recover { snapshot: None }))
    } else if bytes[2] == 1 {
        match read_prefixed(bytes, 3) {
            Err(e) => Err(e),
            Ok((backup, next)) => {
                if next != len {
                    return Err(DecodeError::TrailingBytes);
                }
                Ok(InitState::Pending(InitMode::Recover { snapshot: Some(backup) }))
            },
        }
    } else {
        Err(DecodeError::InvalidTag)
    }
}

/// The stored form of a module's recovery state: the progress in eight
/// bytes and a byte that says whether the recovery is done.
pub open spec fn recovery_bytes(state: ModuleRecoveryState) -> Seq<u8> {
    be_bytes(state.progress as nat, 8).push(
        if state.done {
            1u8
        } else {
            0u8
        },
    )
}

/// The recovery state that `bytes` are, if they are one.
pub open spec fn parse_recovery(bytes: Seq<u8>) -> Result<ModuleRecoveryState, DecodeError> {
    if bytes.len() < 9 {
        Err(DecodeError::UnexpectedEnd)
    } else if bytes.len() > 9 {
        Err(DecodeError::TrailingBytes)
    } else if bytes[8] > 1 {
        Err(DecodeError::InvalidTag)
    } else {
        Ok(
            ModuleRecoveryState {
                progress: be_value(bytes.subrange(0, 8)) as u64,
                done: bytes[8] == 1,
            },
        )
    }
}

/// Every recovery state is read back from its stored form.
pub proof fn lemma_recovery_round_trip(state: ModuleRecoveryState)
    ensures
        parse_recovery(recovery_bytes(state)) == Ok::<ModuleRecoveryState, DecodeError>(state),
{
    let digits = be_bytes(state.progress as nat, 8);
    lemma_be_bytes_len(state.progress as nat, 8);
    lemma_pow256_values();
    lemma_be_value_of_bytes(state.progress as nat, 8);
    assert(recovery_bytes(state).subrange(0, 8) == digits);
}

/// The stored form of a module's recovery state.
pub fn encode_recovery(state: &ModuleRecoveryState) -> (bytes: Vec<u8>)
    ensures
        bytes@ == recovery_bytes(*state),
{
    let mut bytes: Vec<u8> = Vec::new();
    write_be(state.progress, 8, &mut bytes);
    bytes.push(
        if state.done {
            1
        } else {
            0
        },
    );
    assert(bytes@ =~= recovery_bytes(*state));
    bytes
}

/// Reads a module's recovery state from all of `bytes`.
pub fn decode_recovery(bytes: &[u8]) -> (r: Result<ModuleRecoveryState, DecodeError>)
    ensures
        r == parse_recovery(bytes@),
{
    let len: usize = bytes.len();
    if len < 9 {
        return Err(DecodeError::UnexpectedEnd);
    }
    if len > 9 {
        return Err(DecodeError::TrailingBytes);
    }
    if bytes[8] > 1 {
        return Err(DecodeError::InvalidTag);
    }
    Ok(ModuleRecoveryState { progress: read_be(bytes, 0, 8), done: bytes[8] == 1 })
}

/// The write that stores a log entry under its sequence number.
pub fn log_write(seq: u64, entry: &OperationLogEntry) -> (write: StoreWrite)
    ensures
        write@ == (StoreWriteView::Put {
            key: key_bytes(DbKeyView::OperationLog(seq)),
            value: entry_bytes(entry@),
        }),
{
    StoreWrite::Put { key: DbKey::OperationLog(seq).encode(), value: encode_entry(entry) }
}

/// The write that stores the initialisation state.
pub fn init_state_write(state: &InitState) -> (write: StoreWrite)
    ensures
        write@ == (StoreWriteView::Put {
            key: key_bytes(DbKeyView::InitState),
            value: init_state_bytes(state@),
        }),
{
    StoreWrite::Put { key: DbKey::InitState.encode(), value: encode_init_state(state) }
}

/// The write that stores the recovery state of a module instance.
pub fn recovery_write(module_instance_id: ModuleInstanceId, state: &ModuleRecoveryState) -> (write:
    StoreWrite)
    ensures
        write@ == (StoreWriteView::Put {
            key: key_bytes(DbKeyView::ModuleRecovery(module_instance_id)),
            value: recovery_bytes(*state),
        }),
{
    StoreWrite::Put {
        key: DbKey::ModuleRecovery(module_instance_id).encode(),
        value: encode_recovery(state),
    }
}

} // verus!
