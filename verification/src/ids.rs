//! Identifiers of module instances and operations.

use vstd::prelude::*;

verus! {

/// Identifies one instantiation of a module within the client.
pub type ModuleInstanceId = u16;

/// Identifies a caller-visible workflow: 32 opaque bytes.
#[derive(Clone, Copy, Debug, Hash)]
pub struct OperationId(pub [u8; 32]);

impl View for OperationId {
    type V = Seq<u8>;

    open spec fn view(&self) -> Seq<u8> {
        self.0@
    }
}

impl OperationId {
    /// Wraps 32 raw bytes.
    pub fn new(bytes: [u8; 32]) -> (id: Self)
        ensures
            id.0 == bytes,
            id@ == bytes@,
    {
        OperationId(bytes)
    }

    /// The raw bytes, in order.
    pub fn to_vec(&self) -> (bytes: Vec<u8>)
        ensures
            bytes@ == self@,
    {
        let mut bytes: Vec<u8> = Vec::with_capacity(32);
        let mut i: usize = 0;
        while i < 32
            invariant
                i <= 32,
                bytes@ == self@.subrange(0, i as int),
            decreases 32 - i,
        {
            bytes.push(self.0[i]);
            i += 1;
        }
        bytes
    }

    /// Two ids with the same bytes are the same id.
    pub proof fn lemma_view_injective(a: OperationId, b: OperationId)
        requires
            a@ == b@,
        ensures
            a == b,
    {
        assert forall|i: int| 0 <= i < 32 implies a.0[i] == b.0[i] by {
            assert(a@[i] == b@[i]);
        }
        assert(a.0 =~= b.0);
    }
}

impl PartialEq for OperationId {
    fn eq(&self, other: &Self) -> (equal: bool) {
        let mut i: usize = 0;
        while i < 32
            invariant
                i <= 32,
                forall|j: int| 0 <= j < i ==> self@[j] == other@[j],
            decreases 32 - i,
        {
            if self.0[i] != other.0[i] {
                assert(self@[i as int] != other@[i as int]);
                return false;
            }
            i += 1;
        }
        proof {
            assert(self@ =~= other@);
            OperationId::lemma_view_injective(*self, *other);
        }
        true
    }
}

impl Eq for OperationId {

}

impl vstd::std_specs::cmp::PartialEqSpecImpl for OperationId {
    open spec fn obeys_eq_spec() -> bool {
        true
    }

    open spec fn eq_spec(&self, other: &Self) -> bool {
        *self == *other
    }
}

/// The id whose bytes are `bytes`.
pub open spec fn operation_id_of(bytes: Seq<u8>) -> OperationId {
    choose|id: OperationId| id@ == bytes
}

/// Reads the 32 bytes at `pos` as an operation id.
pub fn read_operation_id(bytes: &[u8], pos: usize) -> (id: OperationId)
    requires
        pos + 32 <= bytes@.len(),
    ensures
        id@ == bytes@.subrange(pos as int, pos + 32),
        id == operation_id_of(bytes@.subrange(pos as int, pos + 32)),
{
    let len: usize = bytes.len();
    let mut raw: [u8; 32] = [0u8;32];
    let mut i: usize = 0;
    while i < 32
        invariant
            i <= 32,
            pos + 32 <= bytes@.len() == len,
            forall|j: int| 0 <= j < i ==> raw@[j] == bytes@[pos + j],
        decreases 32 - i,
    {
        raw[i] = bytes[pos + i];
        i += 1;
    }
    let id = OperationId(raw);
    proof {
        assert(id@ =~= bytes@.subrange(pos as int, pos + 32));
        OperationId::lemma_view_injective(
            id,
            operation_id_of(bytes@.subrange(pos as int, pos + 32)),
        );
    }
    id
}

/// Appends the 32 bytes of `id`.
pub fn write_operation_id(id: &OperationId, out: &mut Vec<u8>)
    ensures
        final(out)@ == old(out)@ + id@,
{
    let mut i: usize = 0;
    while i < 32
        invariant
            i <= 32,
            out@ == old(out)@ + id@.subrange(0, i as int),
        decreases 32 - i,
    {
        out.push(id.0[i]);
        assert(id@.subrange(0, i + 1) == id@.subrange(0, i as int).push(id@[i as int]));
        i += 1;
    }
    assert(id@.subrange(0, 32) == id@);
}

} // verus!
