//! Type-erased states and their canonical encoding.

use vstd::prelude::*;
use crate::encoding::{
    lemma_parse_prefixed_of_bytes, lemma_parse_varint_of_bytes, parse_prefixed, parse_varint,
    prefixed_bytes, read_prefixed, read_varint, varint_bytes, write_prefixed, write_varint,
    DecodeError,
};
use crate::ids::{ModuleInstanceId, OperationId};
use crate::state::State;

verus! {

/// Tells whether two byte strings hold the same bytes.
pub fn bytes_equal(a: &[u8], b: &[u8]) -> (equal: bool)
    ensures
        equal == (a@ == b@),
{
    let len: usize = a.len();
    if len != b.len() {
        return false;
    }
    let mut i: usize = 0;
    while i < len
        invariant
            i <= len == a@.len() == b@.len(),
            forall|j: int| 0 <= j < i ==> a@[j] == b@[j],
        decreases len - i,
    {
        if a[i] != b[i] {
            return false;
        }
        i += 1;
    }
    assert(a@ =~= b@);
    true
}

/// What identifies a machine: its module instance and the canonical
/// encoding of its state.
pub struct MachineId {
    pub module_instance_id: ModuleInstanceId,
    pub payload: Seq<u8>,
}

/// A type-erased state as a mathematical value.
pub struct DynStateView {
    pub module_instance_id: ModuleInstanceId,
    pub operation_id: OperationId,
    pub payload: Seq<u8>,
}

impl DynStateView {
    /// The identity under which the state is stored and compared.
    pub open spec fn id(self) -> MachineId {
        MachineId { module_instance_id: self.module_instance_id, payload: self.payload }
    }
}

/// A type-erased state of a state machine that belongs to a module instance.
///
/// It holds what the executor reads of a typed state: the module instance,
/// the operation the machine belongs to, and the state's canonical encoding.
/// Two states are equal when they agree in all three, and equal states have
/// equal hashes. The encoding of a typed state determines its operation, so
/// that states of one module instance are equal exactly if their encodings
/// are.
#[derive(Debug, Hash)]
pub struct DynState {
    module_instance_id: ModuleInstanceId,
    operation_id: OperationId,
    payload: Vec<u8>,
}

impl View for DynState {
    type V = DynStateView;

    closed spec fn view(&self) -> DynStateView {
        DynStateView {
            module_instance_id: self.module_instance_id,
            operation_id: self.operation_id,
            payload: self.payload@,
        }
    }
}

impl DynState {
    /// Builds a state from its parts.
    pub fn from_parts(
        module_instance_id: ModuleInstanceId,
        operation_id: OperationId,
        payload: Vec<u8>,
    ) -> (state: Self)
        ensures
            state@ == (DynStateView { module_instance_id, operation_id, payload: payload@ }),
    {
        DynState { module_instance_id, operation_id, payload }
    }

    /// The module instance the state belongs to.
    pub fn module_instance_id(&self) -> (id: ModuleInstanceId)
        ensures
            id == self@.module_instance_id,
    {
        self.module_instance_id
    }

    /// The operation the machine belongs to.
    pub fn operation_id(&self) -> (id: OperationId)
        ensures
            id == self@.operation_id,
    {
        self.operation_id
    }

    /// The canonical encoding of the typed state.
    pub fn payload(&self) -> (payload: &Vec<u8>)
        ensures
            payload@ == self@.payload,
    {
        &self.payload
    }

    /// Tells whether `other` is the same machine state: the same module
    /// instance and the same encoding.
    pub fn same_id(&self, other: &DynState) -> (same: bool)
        ensures
            same == (self@.id() == other@.id()),
    {
        let same = self.module_instance_id == other.module_instance_id && bytes_equal(
            self.payload.as_slice(),
            other.payload.as_slice(),
        );
        proof {
            if self@.payload == other@.payload && self.module_instance_id
                == other.module_instance_id {
                assert(self@.id() == other@.id());
            }
        }
        same
    }
}

impl Clone for DynState {
    fn clone(&self) -> (copy: Self)
        ensures
            copy@ == self@,
    {
        DynState {
            module_instance_id: self.module_instance_id,
            operation_id: self.operation_id,
            payload: self.payload.clone(),
        }
    }
}

impl PartialEq for DynState {
    fn eq(&self, other: &Self) -> (equal: bool) {
        let equal = self.same_id(other) && self.operation_id == other.operation_id;
        proof {
            if equal {
                assert(self@.id().payload == other@.id().payload);
                assert(self@.id().module_instance_id == other@.id().module_instance_id);
                assert(self@ == other@);
            }
        }
        equal
    }
}

impl Eq for DynState {

}

impl vstd::std_specs::cmp::PartialEqSpecImpl for DynState {
    open spec fn obeys_eq_spec() -> bool {
        true
    }

    open spec fn eq_spec(&self, other: &Self) -> bool {
        self@ == other@
    }
}

/// The states of a list as mathematical values.
pub open spec fn views(states: Seq<DynState>) -> Seq<DynStateView> {
    states.map_values(|state: DynState| state@)
}

/// The module instances whose states can be decoded.
#[derive(Debug)]
pub struct ModuleDecoderRegistry {
    ids: Vec<ModuleInstanceId>,
}

impl View for ModuleDecoderRegistry {
    type V = Set<ModuleInstanceId>;

    closed spec fn view(&self) -> Set<ModuleInstanceId> {
        self.ids@.to_set()
    }
}

impl ModuleDecoderRegistry {
    /// A registry without decoders.
    pub fn new() -> (registry: Self)
        ensures
            registry@ == Set::<ModuleInstanceId>::empty(),
    {
        let registry = ModuleDecoderRegistry { ids: Vec::new() };
        assert(registry.ids@.to_set() =~= Set::<ModuleInstanceId>::empty());
        registry
    }

    /// Registers the decoder of a module instance.
    pub fn register_module(&mut self, module_instance_id: ModuleInstanceId)
        ensures
            final(self)@ == old(self)@.insert(module_instance_id),
    {
        self.ids.push(module_instance_id);
        proof {
            let before = old(self).ids@;
            let after = self.ids@;
            assert forall|id: ModuleInstanceId|
                after.to_set().contains(id) == before.to_set().insert(module_instance_id).contains(
                    id,
                ) by {
                if before.contains(id) {
                    let i = choose|i: int| 0 <= i < before.len() && before[i] == id;
                    assert(after[i] == id);
                }
                if id == module_instance_id {
                    assert(after[after.len() - 1] == id);
                }
            }
            assert(after.to_set() =~= before.to_set().insert(module_instance_id));
        }
    }

    /// Tells whether a decoder is registered for the module instance.
    pub fn contains(&self, module_instance_id: ModuleInstanceId) -> (known: bool)
        ensures
            known == self@.contains(module_instance_id),
    {
        let mut i: usize = 0;
        while i < self.ids.len()
            invariant
                i <= self.ids.len(),
                forall|j: int| 0 <= j < i ==> self.ids@[j] != module_instance_id,
            decreases self.ids.len() - i,
        {
            if self.ids[i] == module_instance_id {
                assert(self.ids@.contains(module_instance_id));
                return true;
            }
            i += 1;
        }
        false
    }
}

/// The stored form of a type-erased state: the module instance as a
/// variable-length integer, then the state's encoding behind its length.
pub open spec fn dyn_state_bytes(state: DynStateView) -> Seq<u8> {
    varint_bytes(state.module_instance_id as u64) + prefixed_bytes(state.payload)
}

/// The type-erased form of a typed state of the given module instance.
pub open spec fn erased<S: State>(module_instance_id: ModuleInstanceId, typed: S) -> DynStateView {
    DynStateView {
        module_instance_id,
        operation_id: typed.operation(),
        payload: typed.encoding(),
    }
}

/// Reads a stored state at the start of `bytes`, the module's states being of
/// type `S`: the state and how many bytes it took.
pub open spec fn parse_dyn_state<S: State>(
    bytes: Seq<u8>,
    decoders: Set<ModuleInstanceId>,
) -> Result<(DynStateView, nat), DecodeError> {
    match parse_varint(bytes) {
        Err(e) => Err(e),
        Ok((id, taken)) => if id > u16::MAX {
            Err(DecodeError::OutOfRange)
        } else if !decoders.contains(id as u16) {
            Err(DecodeError::DecoderMissing(id as u16))
        } else {
            match parse_prefixed(bytes.skip(taken as int)) {
                Err(e) => Err(e),
                Ok((payload, more)) => match S::parse(payload) {
                    Err(e) => Err(e),
                    Ok((typed, used)) => if used != payload.len() {
                        Err(DecodeError::TrailingBytes)
                    } else {
                        Ok(
                            (
                                DynStateView {
                                    module_instance_id: id as u16,
                                    operation_id: typed.operation(),
                                    payload,
                                },
                                taken + more,
                            ),
                        )
                    },
                },
            }
        },
    }
}

/// A stored state is read back as the same state by every registry that
/// knows its module, whatever follows it, wherever the module's decoder reads
/// the state's own encoding back.
pub proof fn lemma_dyn_state_round_trip<S: State>(
    module_instance_id: ModuleInstanceId,
    typed: S,
    decoders: Set<ModuleInstanceId>,
    rest: Seq<u8>,
)
    requires
        decoders.contains(module_instance_id),
        typed.encoding().len() <= u64::MAX,
        S::parse(typed.encoding()) == Ok::<(S, nat), DecodeError>(
            (typed, typed.encoding().len()),
        ),
    ensures
        parse_dyn_state::<S>(dyn_state_bytes(erased(module_instance_id, typed)) + rest, decoders)
            == Ok::<(DynStateView, nat), DecodeError>(
            (
                erased(module_instance_id, typed),
                dyn_state_bytes(erased(module_instance_id, typed)).len(),
            ),
        ),
{
    let state = erased(module_instance_id, typed);
    let head = varint_bytes(module_instance_id as u64);
    let body = prefixed_bytes(state.payload);
    let bytes = dyn_state_bytes(state) + rest;
    assert(bytes == head + (body + rest));
    lemma_parse_varint_of_bytes(module_instance_id as u64, body + rest);
    assert(bytes.skip(head.len() as int) == body + rest);
    lemma_parse_prefixed_of_bytes(state.payload, rest);
}

impl DynState {
    /// Erases the type of a state of the given module instance.
    pub fn from_typed<S: State>(module_instance_id: ModuleInstanceId, typed: &S) -> (state: Self)
        ensures
            state@ == erased(module_instance_id, *typed),
    {
        let mut payload: Vec<u8> = Vec::new();
        typed.consensus_encode(&mut payload);
        assert(payload@ == typed.encoding());
        DynState { module_instance_id, operation_id: typed.operation_id(), payload }
    }

    /// The state itself, as a state of the given module instance, which is
    /// the one it has.
    pub fn into_dyn(self, instance_id: ModuleInstanceId) -> (state: Self)
        requires
            instance_id == self@.module_instance_id,
        ensures
            state@ == self@,
    {
        self
    }

    /// Appends the stored form of the state.
    pub fn consensus_encode(&self, out: &mut Vec<u8>)
        ensures
            final(out)@ == old(out)@ + dyn_state_bytes(self@),
    {
        write_varint(self.module_instance_id as u64, out);
        write_prefixed(self.payload.as_slice(), out);
        assert(out@ == old(out)@ + (varint_bytes(self.module_instance_id as u64) + prefixed_bytes(
            self.payload@,
        )));
    }

    /// Reads the stored state that starts at `pos`, the module's states
    /// being of type `S`; gives it with the position after it.
    ///
    /// Fails with `DecoderMissing` where the registry does not know the
    /// state's module instance.
    pub fn consensus_decode_partial<S: State>(
        bytes: &[u8],
        pos: usize,
        decoders: &ModuleDecoderRegistry,
    ) -> (r: Result<(DynState, usize), DecodeError>)
        requires
            pos <= bytes@.len(),
        ensures
            match parse_dyn_state::<S>(bytes@.skip(pos as int), decoders@) {
                Ok((state, taken)) => r matches Ok((got, next)) && got@ == state && next == pos
                    + taken && next <= bytes@.len(),
                Err(e) => r matches Err(got) && got == e,
            },
    {
        let (id, start) = match read_varint(bytes, pos) {
            Ok(read) => read,
            Err(e) => {
                return Err(e);
            },
        };
        if id > 0xFFFF {
            return Err(DecodeError::OutOfRange);
        }
        let module_instance_id: ModuleInstanceId = id as u16;
        if !decoders.contains(module_instance_id) {
            return Err(DecodeError::DecoderMissing(module_instance_id));
        }
        assert(bytes@.skip(pos as int).skip(start - pos) == bytes@.skip(start as int));
        let (payload, next) = match read_prefixed(bytes, start) {
            Ok(read) => read,
            Err(e) => {
                return Err(e);
            },
        };
        assert(payload@.skip(0) == payload@);
        match S::consensus_decode_partial(payload.as_slice(), 0) {
            Err(e) => Err(e),
            Ok((typed, used)) => {
                if used != payload.len() {
                    return Err(DecodeError::TrailingBytes);
                }
                Ok((DynState { module_instance_id, operation_id: typed.operation_id(), payload }, next))
            },
        }
    }

    /// Tells whether the state, one of type `S`, allows no further
    /// transition. Fails where the payload is no encoding of an `S`.
    pub fn is_terminal<S: State>(&self, context: &S::ModuleContext) -> (r: Result<
        bool,
        DecodeError,
    >)
        ensures
            match S::parse(self@.payload) {
                Ok((typed, used)) => if used == self@.payload.len() {
                    r == Ok::<bool, DecodeError>(typed.edge_count(context) == 0)
                } else {
                    r == Err::<bool, DecodeError>(DecodeError::TrailingBytes)
                },
                Err(e) => r == Err::<bool, DecodeError>(e),
            },
    {
        assert(self.payload@.skip(0) == self.payload@);
        match S::consensus_decode_partial(self.payload.as_slice(), 0) {
            Err(e) => Err(e),
            Ok((typed, used)) => {
                if used != self.payload.len() {
                    return Err(DecodeError::TrailingBytes);
                }
                Ok(typed.transitions(context) == 0)
            },
        }
    }
}

} // verus!
