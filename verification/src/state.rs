//! Typed states: what a module's state machine tells the executor.

use vstd::prelude::*;
use vstd::std_specs::cmp::PartialEqSpec;
use crate::database::{write_views, ModuleWrite, ModuleWriteView};
use crate::dyn_state::{erased, DynState};
use crate::encoding::DecodeError;
use crate::ids::{
    operation_id_of, read_operation_id, write_operation_id, ModuleInstanceId, OperationId,
};

verus! {

/// A node of a module's state graph.
///
/// The spec functions are the state's mathematical model and the methods
/// compute it. A trigger is awaited by the caller; what it yielded comes back
/// as `value`. An implementation in ordinary Rust gives the methods alone;
/// its model is then left open, and it is on the implementor that the
/// methods keep what they promise.
pub trait State: Sized {
    /// Resources of the module that its transitions may read.
    type ModuleContext;

    /// How many edges lead out of the state.
    open spec fn edge_count(&self, context: &Self::ModuleContext) -> nat {
        arbitrary()
    }

    /// The state that edge `edge` leads to when its trigger yields `value`.
    open spec fn successor(
        &self,
        context: &Self::ModuleContext,
        edge: int,
        value: serde_json::Value,
    ) -> Self {
        arbitrary()
    }

    /// What the transition function of edge `edge` writes into the module's
    /// own key space when its trigger yields `value`.
    open spec fn effects(
        &self,
        context: &Self::ModuleContext,
        edge: int,
        value: serde_json::Value,
    ) -> Seq<ModuleWriteView> {
        arbitrary()
    }

    /// The operation the machine belongs to.
    open spec fn operation(&self) -> OperationId {
        arbitrary()
    }

    /// The update of the operation log that the state carries; empty if it
    /// carries none.
    open spec fn log_update(&self) -> Seq<u8> {
        arbitrary()
    }

    /// The state's canonical encoding.
    open spec fn encoding(&self) -> Seq<u8> {
        arbitrary()
    }

    /// Reads a state at the start of `bytes`: the state and how many bytes
    /// it took.
    open spec fn parse(bytes: Seq<u8>) -> Result<(Self, nat), DecodeError> {
        arbitrary()
    }

    /// Counts the admissible edges out of the state.
    fn transitions(&self, context: &Self::ModuleContext) -> (count: usize)
        ensures
            count == self.edge_count(context),
    ;

    /// Runs the transition function of edge `edge` on what its trigger
    /// yielded, and adds the module's writes to `dbtx`. The successor
    /// belongs to the same operation.
    fn transition(
        &self,
        dbtx: &mut Vec<ModuleWrite>,
        context: &Self::ModuleContext,
        edge: usize,
        value: serde_json::Value,
    ) -> (next: Self)
        requires
            edge < self.edge_count(context),
        ensures
            next == self.successor(context, edge as int, value),
            next.operation() == self.operation(),
            write_views(final(dbtx)@) == write_views(old(dbtx)@) + self.effects(
                context,
                edge as int,
                value,
            ),
    ;

    /// The operation the machine belongs to.
    fn operation_id(&self) -> (id: OperationId)
        ensures
            id == self.operation(),
    ;

    /// The update of the operation log that the state carries; empty if it
    /// carries none.
    fn operation_log_update(&self) -> (update: Vec<u8>)
        ensures
            update@ == self.log_update(),
    ;

    /// Appends the state's canonical encoding.
    fn consensus_encode(&self, out: &mut Vec<u8>)
        ensures
            final(out)@ == old(out)@ + self.encoding(),
    ;

    /// Reads a state that starts at `pos`; gives it with the position after
    /// it.
    fn consensus_decode_partial(bytes: &[u8], pos: usize) -> (r: Result<(Self, usize), DecodeError>)
        requires
            pos <= bytes@.len(),
        ensures
            match Self::parse(bytes@.skip(pos as int)) {
                Ok((state, taken)) => r matches Ok((got, next)) && got == state && next == pos
                    + taken && next <= bytes@.len(),
                Err(e) => r matches Err(got) && got == e,
            },
    ;
}

/// Tells whether the state allows no further transition.
pub fn is_terminal<S: State>(state: &S, context: &S::ModuleContext) -> (terminal: bool)
    ensures
        terminal <==> state.edge_count(context) == 0,
{
    state.transitions(context) == 0
}

/// The state's encoding is read back as the state, and as nothing more.
pub open spec fn reads_back<S: State + PartialEq>(state: S) -> bool {
    match S::parse(state.encoding()) {
        Ok((back, taken)) => taken == state.encoding().len() && back.eq_spec(&state),
        Err(_) => false,
    }
}

/// Encodes the state and decodes it again, and tells whether the same
/// state came back. A state that fails this cannot be persisted.
pub fn round_trips<S: State + PartialEq>(state: &S) -> (same: bool)
    ensures
        S::obeys_eq_spec() ==> same == reads_back(*state),
{
    let mut bytes: Vec<u8> = Vec::new();
    state.consensus_encode(&mut bytes);
    assert(bytes@ == state.encoding());
    assert(bytes@.skip(0) == bytes@);
    match S::consensus_decode_partial(bytes.as_slice(), 0) {
        Err(_) => false,
        Ok((back, next)) => next == bytes.len() && back == *state,
    }
}

/// A state together with the operation it belongs to, for states that do
/// not carry their operation id themselves.
#[derive(Debug, Hash)]
pub struct OperationState<S> {
    pub operation_id: OperationId,
    pub state: S,
}

impl<S: State> State for OperationState<S> {
    type ModuleContext = S::ModuleContext;

    open spec fn edge_count(&self, context: &Self::ModuleContext) -> nat {
        self.state.edge_count(context)
    }

    open spec fn successor(
        &self,
        context: &Self::ModuleContext,
        edge: int,
        value: serde_json::Value,
    ) -> Self {
        OperationState {
            operation_id: self.operation_id,
            state: self.state.successor(context, edge, value),
        }
    }

    open spec fn effects(
        &self,
        context: &Self::ModuleContext,
        edge: int,
        value: serde_json::Value,
    ) -> Seq<ModuleWriteView> {
        self.state.effects(context, edge, value)
    }

    open spec fn operation(&self) -> OperationId {
        self.operation_id
    }

    open spec fn log_update(&self) -> Seq<u8> {
        self.state.log_update()
    }

    open spec fn encoding(&self) -> Seq<u8> {
        self.operation_id@ + self.state.encoding()
    }

    open spec fn parse(bytes: Seq<u8>) -> Result<(Self, nat), DecodeError> {
        if bytes.len() < 32 {
            Err(DecodeError::UnexpectedEnd)
        } else {
            match S::parse(bytes.skip(32)) {
                Ok((state, taken)) => Ok(
                    (
                        OperationState {
                            operation_id: operation_id_of(bytes.subrange(0, 32)),
                            state,
                        },
                        32 + taken,
                    ),
                ),
                Err(e) => Err(e),
            }
        }
    }

    fn transitions(&self, context: &Self::ModuleContext) -> (count: usize) {
        self.state.transitions(context)
    }

    fn transition(
        &self,
        dbtx: &mut Vec<ModuleWrite>,
        context: &Self::ModuleContext,
        edge: usize,
        value: serde_json::Value,
    ) -> (next: Self) {
        OperationState {
            operation_id: self.operation_id,
            state: self.state.transition(dbtx, context, edge, value),
        }
    }

    fn operation_id(&self) -> (id: OperationId) {
        self.operation_id
    }

    fn operation_log_update(&self) -> (update: Vec<u8>) {
        self.state.operation_log_update()
    }

    fn consensus_encode(&self, out: &mut Vec<u8>) {
        write_operation_id(&self.operation_id, out);
        self.state.consensus_encode(out);
    }

    fn consensus_decode_partial(bytes: &[u8], pos: usize) -> (r: Result<(Self, usize), DecodeError>) {
        let len: usize = bytes.len();
        if len - pos < 32 {
            return Err(DecodeError::UnexpectedEnd);
        }
        let operation_id = read_operation_id(bytes, pos);
        proof {
            let s = bytes@.skip(pos as int);
            assert(s.subrange(0, 32) == bytes@.subrange(pos as int, pos + 32));
            assert(s.skip(32) == bytes@.skip(pos + 32));
        }
        match S::consensus_decode_partial(bytes, pos + 32) {
            Ok((state, next)) => Ok((OperationState { operation_id, state }, next)),
            Err(e) => Err(e),
        }
    }
}

impl<S: State> OperationState<S> {
    /// Erases the type of the wrapped state, as a state of the given module
    /// instance.
    pub fn into_dyn(self, instance_id: ModuleInstanceId) -> (state: DynState)
        ensures
            state@ == erased(instance_id, self),
    {
        DynState::from_typed(instance_id, &self)
    }
}

impl<S: Clone> Clone for OperationState<S> {
    fn clone(&self) -> (copy: Self)
        ensures
            copy.operation_id == self.operation_id,
            cloned(self.state, copy.state),
    {
        OperationState { operation_id: self.operation_id, state: self.state.clone() }
    }
}

impl<S: PartialEq> PartialEq for OperationState<S> {
    fn eq(&self, other: &Self) -> (equal: bool) {
        self.operation_id == other.operation_id && self.state == other.state
    }
}

impl<S: Eq> Eq for OperationState<S> {

}

impl<S: PartialEq> vstd::std_specs::cmp::PartialEqSpecImpl for OperationState<S> {
    open spec fn obeys_eq_spec() -> bool {
        S::obeys_eq_spec()
    }

    open spec fn eq_spec(&self, other: &Self) -> bool {
        self.operation_id == other.operation_id && self.state.eq_spec(&other.state)
    }
}

/// An encoded wrapped state is read back as the same state, with the same
/// operation id, whatever follows it, wherever that holds of the inner state.
pub proof fn lemma_operation_state_round_trip<S: State>(wrapped: OperationState<S>, rest: Seq<u8>)
    requires
        S::parse(wrapped.state.encoding() + rest) == Ok::<(S, nat), DecodeError>(
            (wrapped.state, wrapped.state.encoding().len()),
        ),
    ensures
        OperationState::<S>::parse(wrapped.encoding() + rest) == Ok::<
            (OperationState<S>, nat),
            DecodeError,
        >((wrapped, wrapped.encoding().len())),
{
    let bytes = wrapped.encoding() + rest;
    assert(bytes.skip(32) == wrapped.state.encoding() + rest);
    assert(bytes.subrange(0, 32) == wrapped.operation_id@);
    OperationId::lemma_view_injective(wrapped.operation_id, operation_id_of(wrapped.operation_id@));
}

} // verus!
