//! The database key schema: one prefix byte per kind of record, then the
//! record's key fields.

use vstd::prelude::*;
use crate::database::Machine;
use crate::dyn_state::{DynState, DynStateView};
use crate::encoding::{
    be_bytes, be_value, lemma_be_bytes_len, lemma_be_value_of_bytes, lemma_parse_prefixed_of_bytes,
    lemma_parse_varint_of_bytes, lemma_pow256_values, parse_prefixed, parse_varint,
    prefixed_bytes, read_be, read_prefixed, read_varint, varint_bytes, write_be, write_prefixed,
    write_varint, DecodeError,
};
use crate::ids::{
    operation_id_of, read_operation_id, write_operation_id, ModuleInstanceId, OperationId,
};
use crate::machines::{MachineStatus, MachineView};

verus! {

/// Prefix of the active machines.
pub const ACTIVE_PREFIX: u8 = 0x01;

/// Prefix of the inactive machines.
pub const INACTIVE_PREFIX: u8 = 0x02;

/// Prefix of the operation log.
pub const OPERATION_LOG_PREFIX: u8 = 0x03;

/// Prefix of the client's initialisation state.
pub const INIT_STATE_PREFIX: u8 = 0x04;

/// Prefix of the hash of the root secret.
pub const PRE_ROOT_SECRET_HASH_PREFIX: u8 = 0x05;

/// Prefix of the modules' recovery progress.
pub const MODULE_RECOVERY_PREFIX: u8 = 0x06;

/// A database key.
#[derive(Debug)]
pub enum DbKey {
    /// An active machine.
    Active(DynState),
    /// An inactive machine and the time it ended.
    Inactive(DynState, u64),
    /// The operation log entry with this sequence number.
    OperationLog(u64),
    /// The client's initialisation state.
    InitState,
    /// The hash of the root secret.
    PreRootSecretHash,
    /// The recovery progress of a module instance.
    ModuleRecovery(ModuleInstanceId),
}

/// A database key as a mathematical value.
pub enum DbKeyView {
    Active(DynStateView),
    Inactive(DynStateView, u64),
    OperationLog(u64),
    InitState,
    PreRootSecretHash,
    ModuleRecovery(ModuleInstanceId),
}

impl View for DbKey {
    type V = DbKeyView;

    open spec fn view(&self) -> DbKeyView {
        match self {
            DbKey::Active(state) => DbKeyView::Active(state@),
            DbKey::Inactive(state, at) => DbKeyView::Inactive(state@, *at),
            DbKey::OperationLog(seq) => DbKeyView::OperationLog(*seq),
            DbKey::InitState => DbKeyView::InitState,
            DbKey::PreRootSecretHash => DbKeyView::PreRootSecretHash,
            DbKey::ModuleRecovery(id) => DbKeyView::ModuleRecovery(*id),
        }
    }
}

/// The key fields of a machine: module instance, operation, and the state's
/// encoding behind its length.
pub open spec fn machine_bytes(state: DynStateView) -> Seq<u8> {
    varint_bytes(state.module_instance_id as u64) + state.operation_id@ + prefixed_bytes(
        state.payload,
    )
}

/// Reads the key fields of a machine at the start of `bytes`: the machine
/// and how many bytes they took.
pub open spec fn parse_machine(bytes: Seq<u8>) -> Result<(DynStateView, nat), DecodeError> {
    match parse_varint(bytes) {
        Err(e) => Err(e),
        Ok((id, taken)) => if id > u16::MAX {
            Err(DecodeError::OutOfRange)
        } else if bytes.len() - taken < 32 {
            Err(DecodeError::UnexpectedEnd)
        } else {
            match parse_prefixed(bytes.skip(taken as int + 32)) {
                Err(e) => Err(e),
                Ok((payload, more)) => Ok(
                    (
                        DynStateView {
                            module_instance_id: id as u16,
                            operation_id: operation_id_of(
                                bytes.subrange(taken as int, taken as int + 32),
                            ),
                            payload,
                        },
                        taken + 32 + more,
                    ),
                ),
            }
        },
    }
}

/// The bytes of a key.
pub open spec fn key_bytes(key: DbKeyView) -> Seq<u8> {
    match key {
        DbKeyView::Active(state) => seq![ACTIVE_PREFIX] + machine_bytes(state),
        DbKeyView::Inactive(state, at) => seq![INACTIVE_PREFIX] + machine_bytes(state) + be_bytes(
            at as nat,
            8,
        ),
        DbKeyView::OperationLog(seq) => seq![OPERATION_LOG_PREFIX] + be_bytes(seq as nat, 8),
        DbKeyView::InitState => seq![INIT_STATE_PREFIX],
        DbKeyView::PreRootSecretHash => seq![PRE_ROOT_SECRET_HASH_PREFIX],
        DbKeyView::ModuleRecovery(id) => seq![MODULE_RECOVERY_PREFIX] + varint_bytes(id as u64),
    }
}

/// The key that `bytes` are, if they are one: a known prefix, the fields of
/// its kind, and nothing after them.
pub open spec fn parse_key(bytes: Seq<u8>) -> Result<DbKeyView, DecodeError> {
    if bytes.len() == 0 {
        Err(DecodeError::UnexpectedEnd)
    } else {
        let body = bytes.skip(1);
        if bytes[0] == ACTIVE_PREFIX {
            match parse_machine(body) {
                Err(e) => Err(e),
                Ok((state, taken)) => if taken != body.len() {
                    Err(DecodeError::TrailingBytes)
                } else {
                    Ok(DbKeyView::Active(state))
                },
            }
        } else if bytes[0] == INACTIVE_PREFIX {
            match parse_machine(body) {
                Err(e) => Err(e),
                Ok((state, taken)) => if body.len() - taken < 8 {
                    Err(DecodeError::UnexpectedEnd)
                } else if body.len() - taken > 8 {
                    Err(DecodeError::TrailingBytes)
                } else {
                    Ok(
                        DbKeyView::Inactive(
                            state,
                            be_value(body.subrange(taken as int, taken as int + 8)) as u64,
                        ),
                    )
                },
            }
        } else if bytes[0] == OPERATION_LOG_PREFIX {
            if body.len() < 8 {
                Err(DecodeError::UnexpectedEnd)
            } else if body.len() > 8 {
                Err(DecodeError::TrailingBytes)
            } else {
                Ok(DbKeyView::OperationLog(be_value(body) as u64))
            }
        } else if bytes[0] == INIT_STATE_PREFIX {
            if body.len() > 0 {
                Err(DecodeError::TrailingBytes)
            } else {
                Ok(DbKeyView::InitState)
            }
        } else if bytes[0] == PRE_ROOT_SECRET_HASH_PREFIX {
            if body.len() > 0 {
                Err(DecodeError::TrailingBytes)
            } else {
                Ok(DbKeyView::PreRootSecretHash)
            }
        } else if bytes[0] == MODULE_RECOVERY_PREFIX {
            match parse_varint(body) {
                Err(e) => Err(e),
                Ok((id, taken)) => if id > u16::MAX {
                    Err(DecodeError::OutOfRange)
                } else if taken != body.len() {
                    Err(DecodeError::TrailingBytes)
                } else {
                    Ok(DbKeyView::ModuleRecovery(id as u16))
                },
            }
        } else {
            Err(DecodeError::InvalidTag)
        }
    }
}

/// The key fields of a machine are read back, whatever follows them.
pub proof fn lemma_parse_machine_of_bytes(state: DynStateView, rest: Seq<u8>)
    requires
        state.payload.len() <= u64::MAX,
    ensures
        parse_machine(machine_bytes(state) + rest) == Ok::<(DynStateView, nat), DecodeError>(
            (state, machine_bytes(state).len()),
        ),
{
    let head = varint_bytes(state.module_instance_id as u64);
    let id = state.operation_id@;
    let tail = prefixed_bytes(state.payload);
    let bytes = machine_bytes(state) + rest;
    assert(bytes == head + (id + tail + rest));
    lemma_parse_varint_of_bytes(state.module_instance_id as u64, id + tail + rest);
    assert(bytes.subrange(head.len() as int, head.len() as int + 32) == id);
    OperationId::lemma_view_injective(state.operation_id, operation_id_of(id));
    assert(bytes.skip(head.len() as int + 32) == tail + rest);
    lemma_parse_prefixed_of_bytes(state.payload, rest);
}

/// Every key is read back from its bytes.
pub proof fn lemma_key_round_trip(key: DbKeyView)
    requires
        key matches DbKeyView::Active(state) ==> state.payload.len() <= u64::MAX,
        key matches DbKeyView::Inactive(state, _) ==> state.payload.len() <= u64::MAX,
    ensures
        parse_key(key_bytes(key)) == Ok::<DbKeyView, DecodeError>(key),
{
    let bytes = key_bytes(key);
    let body = bytes.skip(1);
    lemma_pow256_values();
    match key {
        DbKeyView::Active(state) => {
            assert(body == machine_bytes(state));
            assert(body == machine_bytes(state) + Seq::<u8>::empty());
            lemma_parse_machine_of_bytes(state, Seq::empty());
        },
        DbKeyView::Inactive(state, at) => {
            let time = be_bytes(at as nat, 8);
            assert(body == machine_bytes(state) + time);
            lemma_parse_machine_of_bytes(state, time);
            lemma_be_bytes_len(at as nat, 8);
            lemma_be_value_of_bytes(at as nat, 8);
            let taken = machine_bytes(state).len();
            assert(body.subrange(taken as int, taken as int + 8) == time);
        },
        DbKeyView::OperationLog(seq) => {
            assert(body == be_bytes(seq as nat, 8));
            lemma_be_bytes_len(seq as nat, 8);
            lemma_be_value_of_bytes(seq as nat, 8);
        },
        DbKeyView::InitState => {},
        DbKeyView::PreRootSecretHash => {},
        DbKeyView::ModuleRecovery(id) => {
            assert(body == varint_bytes(id as u64) + Seq::<u8>::empty());
            lemma_parse_varint_of_bytes(id as u64, Seq::empty());
        },
    }
}

/// Keys with the same bytes are the same key.
pub proof fn lemma_key_bytes_injective(a: DbKeyView, b: DbKeyView)
    requires
        a matches DbKeyView::Active(state) ==> state.payload.len() <= u64::MAX,
        a matches DbKeyView::Inactive(state, _) ==> state.payload.len() <= u64::MAX,
        b matches DbKeyView::Active(state) ==> state.payload.len() <= u64::MAX,
        b matches DbKeyView::Inactive(state, _) ==> state.payload.len() <= u64::MAX,
        key_bytes(a) == key_bytes(b),
    ensures
        a == b,
{
    lemma_key_round_trip(a);
    lemma_key_round_trip(b);
}

/// The key under which a machine is stored.
pub open spec fn key_of(machine: MachineView) -> DbKeyView {
    match machine.status {
        MachineStatus::Active { .. } => DbKeyView::Active(machine.state),
        MachineStatus::Inactive { terminated_at } => DbKeyView::Inactive(
            machine.state,
            terminated_at,
        ),
    }
}

/// The key under which a machine is stored.
pub fn machine_key(machine: &Machine) -> (key: DbKey)
    ensures
        key@ == key_of(machine@),
{
    match machine.status {
        MachineStatus::Active { .. } => DbKey::Active(machine.state.clone()),
        MachineStatus::Inactive { terminated_at } => DbKey::Inactive(
            machine.state.clone(),
            terminated_at,
        ),
    }
}

/// Appends the key fields of a machine.
pub fn write_machine(state: &DynState, out: &mut Vec<u8>)
    ensures
        final(out)@ == old(out)@ + machine_bytes(state@),
{
    write_varint(state.module_instance_id() as u64, out);
    write_operation_id(&state.operation_id(), out);
    write_prefixed(state.payload().as_slice(), out);
    assert(out@ == old(out)@ + (varint_bytes(state@.module_instance_id as u64)
        + state@.operation_id@ + prefixed_bytes(state@.payload)));
}

/// Reads the key fields of a machine that start at `pos`; gives the machine
/// with the position after them.
pub fn read_machine(bytes: &[u8], pos: usize) -> (r: Result<(DynState, usize), DecodeError>)
    requires
        pos <= bytes@.len(),
    ensures
        match parse_machine(bytes@.skip(pos as int)) {
            Ok((state, taken)) => r matches Ok((got, next)) && got@ == state && next == pos + taken
                && next <= bytes@.len(),
            Err(e) => r matches Err(got) && got == e,
        },
{
    let len: usize = bytes.len();
    let ghost s = bytes@.skip(pos as int);
    let (id, start) = match read_varint(bytes, pos) {
        Ok(read) => read,
        Err(e) => {
            return Err(e);
        },
    };
    if id > 0xFFFF {
        return Err(DecodeError::OutOfRange);
    }
    if len - start < 32 {
        return Err(DecodeError::UnexpectedEnd);
    }
    let operation_id = read_operation_id(bytes, start);
    proof {
        assert(s.subrange(start - pos, start - pos + 32) == bytes@.subrange(
            start as int,
            start + 32,
        ));
        assert(s.skip(start - pos + 32) == bytes@.skip(start + 32));
    }
    match read_prefixed(bytes, start + 32) {
        Err(e) => Err(e),
        Ok((payload, next)) => Ok((DynState::from_parts(id as u16, operation_id, payload), next)),
    }
}

impl DbKey {
    /// The bytes of the key.
    pub fn encode(&self) -> (bytes: Vec<u8>)
        ensures
            bytes@ == key_bytes(self@),
    {
        let mut bytes: Vec<u8> = Vec::new();
        match self {
            DbKey::Active(state) => {
                bytes.push(ACTIVE_PREFIX);
                write_machine(state, &mut bytes);
            },
            DbKey::Inactive(state, at) => {
                bytes.push(INACTIVE_PREFIX);
                write_machine(state, &mut bytes);
                write_be(*at, 8, &mut bytes);
            },
            DbKey::OperationLog(seq) => {
                bytes.push(OPERATION_LOG_PREFIX);
                write_be(*seq, 8, &mut bytes);
            },
            DbKey::InitState => {
                bytes.push(INIT_STATE_PREFIX);
            },
            DbKey::PreRootSecretHash => {
                bytes.push(PRE_ROOT_SECRET_HASH_PREFIX);
            },
            DbKey::ModuleRecovery(id) => {
                bytes.push(MODULE_RECOVERY_PREFIX);
                write_varint(*id as u64, &mut bytes);
            },
        }
        assert(bytes@ =~= key_bytes(self@));
        bytes
    }

    /// Reads a key from all of `bytes`.
    pub fn decode(bytes: &[u8]) -> (r: Result<DbKey, DecodeError>)
        ensures
            match parse_key(bytes@) {
                Ok(key) => r matches Ok(got) && got@ == key,
                Err(e) => r matches Err(got) && got == e,
            },
    {
        let len: usize = bytes.len();
        if len == 0 {
            return Err(DecodeError::UnexpectedEnd);
        }
        let prefix: u8 = bytes[0];
        let ghost body = bytes@.skip(1);
        if prefix == ACTIVE_PREFIX {
            match read_machine(bytes, 1) {
                Err(e) => Err(e),
                Ok((state, next)) => {
                    if next != len {
                        return Err(DecodeError::TrailingBytes);
                    }
                    Ok(DbKey::Active(state))
                },
            }
        } else if prefix == INACTIVE_PREFIX {
            match read_machine(bytes, 1) {
                Err(e) => Err(e),
                Ok((state, next)) => {
                    if len - next < 8 {
                        return Err(DecodeError::UnexpectedEnd);
                    }
                    if len - next > 8 {
                        return Err(DecodeError::TrailingBytes);
                    }
                    let at = read_be(bytes, next, 8);
                    assert(bytes@.subrange(next as int, next + 8) == body.subrange(
                        next - 1,
                        next - 1 + 8,
                    ));
                    Ok(DbKey::Inactive(state, at))
                },
            }
        } else if prefix == OPERATION_LOG_PREFIX {
            if len - 1 < 8 {
                return Err(DecodeError::UnexpectedEnd);
            }
            if len - 1 > 8 {
                return Err(DecodeError::TrailingBytes);
            }
            let seq = read_be(bytes, 1, 8);
            assert(bytes@.subrange(1, 9) == body);
            Ok(DbKey::OperationLog(seq))
        } else if prefix == INIT_STATE_PREFIX {
            if len > 1 {
                return Err(DecodeError::TrailingBytes);
            }
            Ok(DbKey::InitState)
        } else if prefix == PRE_ROOT_SECRET_HASH_PREFIX {
            if len > 1 {
                return Err(DecodeError::TrailingBytes);
            }
            Ok(DbKey::PreRootSecretHash)
        } else if prefix == MODULE_RECOVERY_PREFIX {
            match read_varint(bytes, 1) {
                Err(e) => Err(e),
                Ok((id, next)) => {
                    if id > 0xFFFF {
                        return Err(DecodeError::OutOfRange);
                    }
                    if next != len {
                        return Err(DecodeError::TrailingBytes);
                    }
                    Ok(DbKey::ModuleRecovery(id as u16))
                },
            }
        } else {
            Err(DecodeError::InvalidTag)
        }
    }
}

/// One write to the key-value store.
#[derive(Clone, Debug)]
pub enum StoreWrite {
    /// The key is removed.
    Delete { key: Vec<u8> },
    /// The value is stored under the key.
    Put { key: Vec<u8>, value: Vec<u8> },
}

/// A write to the store as a mathematical value.
pub enum StoreWriteView {
    Delete { key: Seq<u8> },
    Put { key: Seq<u8>, value: Seq<u8> },
}

impl View for StoreWrite {
    type V = StoreWriteView;

    open spec fn view(&self) -> StoreWriteView {
        match self {
            StoreWrite::Delete { key } => StoreWriteView::Delete { key: key@ },
            StoreWrite::Put { key, value } => StoreWriteView::Put { key: key@, value: value@ },
        }
    }
}

/// The writes of a list as mathematical values.
pub open spec fn store_views(writes: Seq<StoreWrite>) -> Seq<StoreWriteView> {
    writes.map_values(|w: StoreWrite| w@)
}

/// The key under which a machine that settles is inserted: an inactive key
/// with the time if it is terminal, an active key if it is not.
pub open spec fn settled_key(successor: DynStateView, terminal: bool, now: u64) -> DbKeyView {
    if terminal {
        DbKeyView::Inactive(successor, now)
    } else {
        DbKeyView::Active(successor)
    }
}

/// What an admission writes to the store: the machine's active key, with
/// an empty value.
pub fn admission_writes(state: &DynState) -> (writes: Vec<StoreWrite>)
    ensures
        store_views(writes@) == seq![
            StoreWriteView::Put { key: key_bytes(DbKeyView::Active(state@)), value: Seq::empty() },
        ],
{
    let mut writes: Vec<StoreWrite> = Vec::new();
    writes.push(StoreWrite::Put { key: DbKey::Active(state.clone()).encode(), value: Vec::new() });
    assert(store_views(writes@) =~= seq![
        StoreWriteView::Put { key: key_bytes(DbKeyView::Active(state@)), value: Seq::empty() },
    ]);
    writes
}

/// What a transition writes to the store, in one transaction beside the
/// module's own writes: the active key of the machine that moves is
/// deleted, and the successor is inserted under an inactive key if it is
/// terminal and under an active key if it is not, with an empty value.
pub fn transition_writes(from: &DynState, successor: &DynState, terminal: bool, now: u64) -> (writes:
    Vec<StoreWrite>)
    ensures
        store_views(writes@) == seq![
            StoreWriteView::Delete { key: key_bytes(DbKeyView::Active(from@)) },
            StoreWriteView::Put {
                key: key_bytes(settled_key(successor@, terminal, now)),
                value: Seq::empty(),
            },
        ],
{
    let mut writes: Vec<StoreWrite> = Vec::new();
    writes.push(StoreWrite::Delete { key: DbKey::Active(from.clone()).encode() });
    let key = if terminal {
        DbKey::Inactive(successor.clone(), now)
    } else {
        DbKey::Active(successor.clone())
    };
    writes.push(StoreWrite::Put { key: key.encode(), value: Vec::new() });
    assert(store_views(writes@) =~= seq![
        StoreWriteView::Delete { key: key_bytes(DbKeyView::Active(from@)) },
        StoreWriteView::Put {
            key: key_bytes(settled_key(successor@, terminal, now)),
            value: Seq::empty(),
        },
    ]);
    writes
}

} // verus!
