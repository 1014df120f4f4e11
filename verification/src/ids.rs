//! Identifiers used throughout the node: message, transaction and output ids
//! and milestone indices.

use vstd::prelude::*;

verus! {

/// Compares two 32-byte arrays for equality.
pub(crate) fn bytes32_eq(a: &[u8; 32], b: &[u8; 32]) -> (r: bool)
    ensures
        r <==> a@ == b@,
{
    let mut i: usize = 0;
    while i < 32
        invariant
            i <= 32,
            forall|j: int| 0 <= j < i ==> a@[j] == b@[j],
        decreases 32 - i,
    {
        if a[i] != b[i] {
            assert(a@[i as int] != b@[i as int]);
            return false;
        }
        i += 1;
    }
    proof {
        assert(a@ =~= b@);
    }
    true
}

/// A 32-byte message identifier: the BLAKE2b-256 digest of the message bytes.
#[derive(Clone, Copy, Debug)]
pub struct MessageId {
    pub bytes: [u8; 32],
}

impl View for MessageId {
    type V = Seq<u8>;

    open spec fn view(&self) -> Seq<u8> {
        self.bytes@
    }
}

impl Eq for MessageId {
}

impl PartialEq for MessageId {
    fn eq(&self, other: &Self) -> (r: bool) {
        bytes32_eq(&self.bytes, &other.bytes)
    }
}

impl vstd::std_specs::cmp::PartialEqSpecImpl for MessageId {
    open spec fn obeys_eq_spec() -> bool {
        true
    }

    open spec fn eq_spec(&self, other: &Self) -> bool {
        self@ == other@
    }
}

impl MessageId {
    pub fn new(bytes: [u8; 32]) -> (r: Self)
        ensures
            r@ == bytes@,
    {
        Self { bytes }
    }

    pub fn as_bytes(&self) -> (r: &[u8])
        ensures
            r@ == self@,
    {
        &self.bytes
    }

    /// An all-zero id.
    pub fn null() -> (r: Self)
        ensures
            r@ == Seq::new(32, |i: int| 0u8),
    {
        let bytes = [0u8; 32];
        proof {
            assert(bytes@ =~= Seq::new(32, |i: int| 0u8));
        }
        Self { bytes }
    }
}

/// A 32-byte transaction identifier.
#[derive(Clone, Copy, Debug)]
pub struct TransactionId {
    pub bytes: [u8; 32],
}

impl View for TransactionId {
    type V = Seq<u8>;

    open spec fn view(&self) -> Seq<u8> {
        self.bytes@
    }
}

impl Eq for TransactionId {
}

impl PartialEq for TransactionId {
    fn eq(&self, other: &Self) -> (r: bool) {
        bytes32_eq(&self.bytes, &other.bytes)
    }
}

impl vstd::std_specs::cmp::PartialEqSpecImpl for TransactionId {
    open spec fn obeys_eq_spec() -> bool {
        true
    }

    open spec fn eq_spec(&self, other: &Self) -> bool {
        self@ == other@
    }
}

impl TransactionId {
    pub fn new(bytes: [u8; 32]) -> (r: Self)
        ensures
            r@ == bytes@,
    {
        Self { bytes }
    }

    pub fn as_bytes(&self) -> (r: &[u8])
        ensures
            r@ == self@,
    {
        &self.bytes
    }
}

/// The index of a milestone in the strictly increasing milestone sequence.
#[derive(Clone, Copy, PartialEq, Eq, Structural, Debug)]
pub struct MilestoneIndex(pub u32);

impl View for MilestoneIndex {
    type V = u32;

    open spec fn view(&self) -> u32 {
        self.0
    }
}

/// Identifies one output of a transaction: the transaction id plus the index
/// of the output within that transaction.
#[derive(Clone, Copy, Debug)]
pub struct OutputId {
    pub transaction_id: TransactionId,
    pub index: u16,
}

impl View for OutputId {
    type V = (Seq<u8>, u16);

    open spec fn view(&self) -> (Seq<u8>, u16) {
        (self.transaction_id@, self.index)
    }
}

impl Eq for OutputId {
}

impl PartialEq for OutputId {
    fn eq(&self, other: &Self) -> (r: bool) {
        self.transaction_id == other.transaction_id && self.index == other.index
    }
}

impl vstd::std_specs::cmp::PartialEqSpecImpl for OutputId {
    open spec fn obeys_eq_spec() -> bool {
        true
    }

    open spec fn eq_spec(&self, other: &Self) -> bool {
        self@ == other@
    }
}

impl OutputId {
    pub fn new(transaction_id: TransactionId, index: u16) -> (r: Self)
        ensures
            r@ == (transaction_id@, index),
    {
        Self { transaction_id, index }
    }

    pub fn transaction_id(&self) -> (r: &TransactionId)
        ensures
            r@ == self@.0,
    {
        &self.transaction_id
    }

    pub fn index(&self) -> (r: u16)
        ensures
            r == self@.1,
    {
        self.index
    }
}

} // verus!
