//! The message model and its canonical byte encoding.
//!
//! A message is `u64_le network_id | parent1 (32 bytes) | parent2 (32 bytes) |
//! u32_le payload_len | payload bytes | u64_le nonce`.  A payload is tagged
//! `u32_le kind | body` with kind 0 = transaction, 1 = milestone,
//! 2 = indexation.

use vstd::prelude::*;
use crate::codec::{
    enc_u16le, enc_u32le, enc_u64le, dec_u16le, dec_u32le, dec_u64le, push_u16le, push_u32le,
    push_u64le, push_slice, read_u16le, read_u32le, read_u64le, read_bytes32, lemma_u16_round,
    lemma_u32_round, lemma_u64_round,
};
use crate::ids::MessageId;

verus! {

pub const PAYLOAD_TRANSACTION_KIND: u32 = 0;
pub const PAYLOAD_MILESTONE_KIND: u32 = 1;
pub const PAYLOAD_INDEXATION_KIND: u32 = 2;

/// Length in bytes of a serialized WOTS (legacy) address.
pub const WOTS_ADDRESS_LENGTH: usize = 49;

/// Length in bytes of an Ed25519 public key and address.
pub const ED25519_ADDRESS_LENGTH: usize = 32;

/// Length in bytes of an Ed25519 signature.
pub const ED25519_SIGNATURE_LENGTH: usize = 64;

/// Ways a message or payload can fail to parse or to build.
#[derive(Clone, Copy, Debug, PartialEq, Eq, Structural)]
pub enum Error {
    /// A list's declared element count is out of range.
    InvalidCount,
    /// An indexation payload's data is longer than accepted.
    DataTooLarge,
    /// The input ended before the structure was complete, or lengths
    /// disagree with the bytes present.
    Io {},
    /// An index string is not valid UTF-8.
    Utf8String {},
    /// An indexation payload's index string is empty.
    EmptyIndex,
    /// An index string is longer than an encoding can carry.
    IndexTooLarge,
    /// A variant tag (payload kind, address kind, unlock kind) is undefined.
    InvalidVariant,
    /// A reference unlock index is out of range.
    InvalidIndex,
}

// ---------------------------------------------------------------------------
// Addresses.
// ---------------------------------------------------------------------------
/// An address owning outputs: legacy WOTS or Ed25519.
#[derive(Clone, Debug, PartialEq, Eq)]
pub enum Address {
    Wots(Vec<u8>),
    Ed25519([u8; 32]),
}

/// Model of an address.
pub enum AddressV {
    Wots(Seq<u8>),
    Ed25519(Seq<u8>),
}

impl View for Address {
    type V = AddressV;

    open spec fn view(&self) -> AddressV {
        match self {
            Address::Wots(b) => AddressV::Wots(b@),
            Address::Ed25519(b) => AddressV::Ed25519(b@),
        }
    }
}

impl AddressV {
    pub open spec fn wf(self) -> bool {
        match self {
            AddressV::Wots(b) => b.len() == WOTS_ADDRESS_LENGTH,
            AddressV::Ed25519(b) => b.len() == ED25519_ADDRESS_LENGTH,
        }
    }

    /// Wire form: `u8 kind | body` with kind 0 = WOTS, 1 = Ed25519.
    pub open spec fn enc(self) -> Seq<u8> {
        match self {
            AddressV::Wots(b) => seq![0u8] + b,
            AddressV::Ed25519(b) => seq![1u8] + b,
        }
    }
}

// ---------------------------------------------------------------------------
// Unlock blocks.
// ---------------------------------------------------------------------------
/// An Ed25519 signature with the public key that made it.
#[derive(Clone, Debug, PartialEq, Eq)]
pub struct Ed25519Signature {
    pub public_key: [u8; 32],
    pub signature: Vec<u8>,
}

impl View for Ed25519Signature {
    type V = (Seq<u8>, Seq<u8>);

    open spec fn view(&self) -> (Seq<u8>, Seq<u8>) {
        (self.public_key@, self.signature@)
    }
}

impl Ed25519Signature {
    pub fn new(public_key: [u8; 32], signature: Vec<u8>) -> (r: Self)
        ensures
            r@ == (public_key@, signature@),
    {
        Self { public_key, signature }
    }

    pub fn public_key(&self) -> (r: &[u8; 32])
        ensures
            r@ == self@.0,
    {
        &self.public_key
    }

    pub fn signature(&self) -> (r: &[u8])
        ensures
            r@ == self@.1,
    {
        self.signature.as_slice()
    }
}

/// Points back at the unlock block that already signed the same address.
#[derive(Clone, Copy, Debug, PartialEq, Eq, Structural)]
pub struct ReferenceUnlock(pub u16);

/// Largest number of inputs or outputs a transaction payload may carry, and
/// hence the exclusive bound on a reference unlock index.
pub const INPUT_OUTPUT_COUNT_MAX: u16 = 127;

impl View for ReferenceUnlock {
    type V = u16;

    open spec fn view(&self) -> u16 {
        self.0
    }
}

impl ReferenceUnlock {
    /// Builds a reference unlock; an index at or above
    /// `INPUT_OUTPUT_COUNT_MAX` is rejected.
    pub fn new(index: u16) -> (r: Result<Self, Error>)
        ensures
            index < INPUT_OUTPUT_COUNT_MAX <==> r == Ok::<ReferenceUnlock, Error>(
                ReferenceUnlock(index),
            ),
            index >= INPUT_OUTPUT_COUNT_MAX <==> r == Err::<ReferenceUnlock, Error>(
                Error::InvalidIndex,
            ),
    {
        if index < INPUT_OUTPUT_COUNT_MAX {
            Ok(ReferenceUnlock(index))
        } else {
            Err(Error::InvalidIndex)
        }
    }

    pub fn index(&self) -> (r: u16)
        ensures
            r == self@,
    {
        self.0
    }
}

/// Authorizes the spend of one input.
#[derive(Clone, Debug, PartialEq, Eq)]
pub enum UnlockBlock {
    Signature(Ed25519Signature),
    Reference(ReferenceUnlock),
}

/// Model of an unlock block.
pub enum UnlockBlockV {
    Signature { public_key: Seq<u8>, signature: Seq<u8> },
    Reference { index: u16 },
}

impl View for UnlockBlock {
    type V = UnlockBlockV;

    open spec fn view(&self) -> UnlockBlockV {
        match self {
            UnlockBlock::Signature(s) => UnlockBlockV::Signature {
                public_key: s@.0,
                signature: s@.1,
            },
            UnlockBlock::Reference(r) => UnlockBlockV::Reference { index: r@ },
        }
    }
}

impl UnlockBlockV {
    pub open spec fn wf(self) -> bool {
        match self {
            UnlockBlockV::Signature { public_key, signature } => public_key.len() == 32
                && signature.len() == ED25519_SIGNATURE_LENGTH,
            UnlockBlockV::Reference { index } => index < INPUT_OUTPUT_COUNT_MAX,
        }
    }

    /// Wire form: `u8 0 | public key | signature` or `u8 1 | u16_le index`.
    pub open spec fn enc(self) -> Seq<u8> {
        match self {
            UnlockBlockV::Signature { public_key, signature } => seq![0u8] + public_key + signature,
            UnlockBlockV::Reference { index } => seq![1u8] + enc_u16le(index),
        }
    }
}

// ---------------------------------------------------------------------------
// Transaction payload.
// ---------------------------------------------------------------------------
/// One input of a transaction: a reference to an unspent output.
#[derive(Clone, Copy, Debug, PartialEq, Eq)]
pub struct UtxoInput {
    pub transaction_id: [u8; 32],
    pub output_index: u16,
}

impl View for UtxoInput {
    type V = (Seq<u8>, u16);

    open spec fn view(&self) -> (Seq<u8>, u16) {
        (self.transaction_id@, self.output_index)
    }
}

pub open spec fn enc_input(i: (Seq<u8>, u16)) -> Seq<u8> {
    i.0 + enc_u16le(i.1)
}

pub open spec fn enc_inputs(s: Seq<(Seq<u8>, u16)>) -> Seq<u8>
    decreases s.len(),
{
    if s.len() == 0 {
        Seq::empty()
    } else {
        enc_input(s[0]) + enc_inputs(s.drop_first())
    }
}

/// One output of a transaction: an amount locked to a single address.
#[derive(Clone, Debug, PartialEq, Eq)]
pub struct SigLockedSingleOutput {
    pub address: Address,
    pub amount: u64,
}

/// Model of an output.
pub struct SigLockedSingleOutputV {
    pub address: AddressV,
    pub amount: u64,
}

impl View for SigLockedSingleOutput {
    type V = SigLockedSingleOutputV;

    open spec fn view(&self) -> SigLockedSingleOutputV {
        SigLockedSingleOutputV { address: self.address@, amount: self.amount }
    }
}

impl SigLockedSingleOutputV {
    pub open spec fn wf(self) -> bool {
        self.address.wf()
    }

    pub open spec fn enc(self) -> Seq<u8> {
        self.address.enc() + enc_u64le(self.amount)
    }
}

pub open spec fn enc_outputs(s: Seq<SigLockedSingleOutputV>) -> Seq<u8>
    decreases s.len(),
{
    if s.len() == 0 {
        Seq::empty()
    } else {
        s[0].enc() + enc_outputs(s.drop_first())
    }
}

pub open spec fn enc_unlocks(s: Seq<UnlockBlockV>) -> Seq<u8>
    decreases s.len(),
{
    if s.len() == 0 {
        Seq::empty()
    } else {
        s[0].enc() + enc_unlocks(s.drop_first())
    }
}

/// A value transfer: inputs spent, outputs created, unlocks authorizing.
#[derive(Clone, Debug, PartialEq, Eq)]
pub struct TransactionPayload {
    pub inputs: Vec<UtxoInput>,
    pub outputs: Vec<SigLockedSingleOutput>,
    pub unlock_blocks: Vec<UnlockBlock>,
}

/// Model of a transaction payload.
pub struct TransactionPayloadV {
    pub inputs: Seq<(Seq<u8>, u16)>,
    pub outputs: Seq<SigLockedSingleOutputV>,
    pub unlock_blocks: Seq<UnlockBlockV>,
}

impl View for TransactionPayload {
    type V = TransactionPayloadV;

    open spec fn view(&self) -> TransactionPayloadV {
        TransactionPayloadV {
            inputs: self.inputs@.map_values(|i: UtxoInput| i@),
            outputs: self.outputs@.map_values(|o: SigLockedSingleOutput| o@),
            unlock_blocks: self.unlock_blocks@.map_values(|u: UnlockBlock| u@),
        }
    }
}

impl TransactionPayloadV {
    pub open spec fn wf(self) -> bool {
        &&& self.inputs.len() <= INPUT_OUTPUT_COUNT_MAX
        &&& self.outputs.len() <= INPUT_OUTPUT_COUNT_MAX
        &&& self.unlock_blocks.len() <= INPUT_OUTPUT_COUNT_MAX
        &&& forall|i: int| 0 <= i < self.inputs.len() ==> (#[trigger] self.inputs[i]).0.len() == 32
        &&& forall|i: int| 0 <= i < self.outputs.len() ==> (#[trigger] self.outputs[i]).wf()
        &&& forall|i: int|
            0 <= i < self.unlock_blocks.len() ==> (#[trigger] self.unlock_blocks[i]).wf()
    }

    /// Wire form: three `u16_le` counted lists.
    pub open spec fn enc(self) -> Seq<u8> {
        enc_u16le(self.inputs.len() as u16) + enc_inputs(self.inputs) + enc_u16le(
            self.outputs.len() as u16,
        ) + enc_outputs(self.outputs) + enc_u16le(self.unlock_blocks.len() as u16) + enc_unlocks(
            self.unlock_blocks,
        )
    }
}

// ---------------------------------------------------------------------------
// Milestone payload.
// ---------------------------------------------------------------------------
/// A coordinator-signed consensus checkpoint.
#[derive(Clone, Debug, PartialEq, Eq)]
pub struct MilestonePayload {
    pub index: u32,
    pub timestamp: u64,
    pub inclusion_merkle_proof: [u8; 32],
    pub signatures: Vec<Vec<u8>>,
}

/// Model of a milestone payload.
pub struct MilestonePayloadV {
    pub index: u32,
    pub timestamp: u64,
    pub inclusion_merkle_proof: Seq<u8>,
    pub signatures: Seq<Seq<u8>>,
}

impl View for MilestonePayload {
    type V = MilestonePayloadV;

    open spec fn view(&self) -> MilestonePayloadV {
        MilestonePayloadV {
            index: self.index,
            timestamp: self.timestamp,
            inclusion_merkle_proof: self.inclusion_merkle_proof@,
            signatures: self.signatures@.map_values(|s: Vec<u8>| s@),
        }
    }
}

pub open spec fn enc_signatures(s: Seq<Seq<u8>>) -> Seq<u8>
    decreases s.len(),
{
    if s.len() == 0 {
        Seq::empty()
    } else {
        s[0] + enc_signatures(s.drop_first())
    }
}

impl MilestonePayloadV {
    pub open spec fn wf(self) -> bool {
        &&& self.inclusion_merkle_proof.len() == 32
        &&& self.signatures.len() <= 255
        &&& forall|i: int|
            0 <= i < self.signatures.len() ==> (#[trigger] self.signatures[i]).len()
                == ED25519_SIGNATURE_LENGTH
    }

    /// Wire form: `u32_le index | u64_le timestamp | 32-byte merkle root |
    /// u8 count | signatures (64 bytes each)`.
    pub open spec fn enc(self) -> Seq<u8> {
        enc_u32le(self.index) + enc_u64le(self.timestamp) + self.inclusion_merkle_proof + seq![
            self.signatures.len() as u8,
        ] + enc_signatures(self.signatures)
    }
}

// ---------------------------------------------------------------------------
// Indexation payload.
// ---------------------------------------------------------------------------
/// Tags a message with a text index and arbitrary data.
#[derive(Clone, Debug, PartialEq, Eq)]
pub struct Indexation {
    pub index: String,
    pub data: Vec<u8>,
}

/// Model of an indexation payload.
pub struct IndexationV {
    pub index: Seq<char>,
    pub data: Seq<u8>,
}

impl View for Indexation {
    type V = IndexationV;

    open spec fn view(&self) -> IndexationV {
        IndexationV { index: self.index@, data: self.data@ }
    }
}

impl IndexationV {
    pub open spec fn wf(self) -> bool {
        &&& 1 <= vstd::utf8::encode_utf8(self.index).len() <= 0xFFFF
        &&& self.data.len() <= DATA_LENGTH_MAX
    }

    /// Wire form: `u16_le index_len | index utf-8 bytes | u32_le data_len |
    /// data`.
    pub open spec fn enc(self) -> Seq<u8> {
        let ib = vstd::utf8::encode_utf8(self.index);
        enc_u16le(ib.len() as u16) + ib + enc_u32le(self.data.len() as u32) + self.data
    }
}

// ---------------------------------------------------------------------------
// Payload and message.
// ---------------------------------------------------------------------------
/// The optional content a message carries.
#[derive(Clone, Debug, PartialEq, Eq)]
pub enum Payload {
    Transaction(TransactionPayload),
    Milestone(MilestonePayload),
    Indexation(Indexation),
}

/// Model of a payload.
pub enum PayloadV {
    Transaction(TransactionPayloadV),
    Milestone(MilestonePayloadV),
    Indexation(IndexationV),
}

impl View for Payload {
    type V = PayloadV;

    open spec fn view(&self) -> PayloadV {
        match self {
            Payload::Transaction(t) => PayloadV::Transaction(t@),
            Payload::Milestone(m) => PayloadV::Milestone(m@),
            Payload::Indexation(i) => PayloadV::Indexation(i@),
        }
    }
}

impl PayloadV {
    pub open spec fn wf(self) -> bool {
        match self {
            PayloadV::Transaction(t) => t.wf(),
            PayloadV::Milestone(m) => m.wf(),
            PayloadV::Indexation(i) => i.wf(),
        }
    }

    pub open spec fn kind(self) -> u32 {
        match self {
            PayloadV::Transaction(_) => PAYLOAD_TRANSACTION_KIND,
            PayloadV::Milestone(_) => PAYLOAD_MILESTONE_KIND,
            PayloadV::Indexation(_) => PAYLOAD_INDEXATION_KIND,
        }
    }

    /// Wire form: `u32_le kind | body`.
    pub open spec fn enc(self) -> Seq<u8> {
        enc_u32le(self.kind()) + match self {
            PayloadV::Transaction(t) => t.enc(),
            PayloadV::Milestone(m) => m.enc(),
            PayloadV::Indexation(i) => i.enc(),
        }
    }
}

/// A vertex payload of the tangle: two parent references, an optional
/// payload, a network id and a nonce.
#[derive(Clone, Debug, PartialEq, Eq)]
pub struct Message {
    pub network_id: u64,
    pub parent1: MessageId,
    pub parent2: MessageId,
    pub payload: Option<Payload>,
    pub nonce: u64,
}

/// Model of a message.
pub struct MessageV {
    pub network_id: u64,
    pub parent1: Seq<u8>,
    pub parent2: Seq<u8>,
    pub payload: Option<PayloadV>,
    pub nonce: u64,
}

impl View for Message {
    type V = MessageV;

    open spec fn view(&self) -> MessageV {
        MessageV {
            network_id: self.network_id,
            parent1: self.parent1@,
            parent2: self.parent2@,
            payload: match self.payload {
                Some(p) => Some(p@),
                None => None,
            },
            nonce: self.nonce,
        }
    }
}

impl MessageV {
    pub open spec fn payload_bytes(self) -> Seq<u8> {
        match self.payload {
            Some(p) => p.enc(),
            None => Seq::empty(),
        }
    }

    pub open spec fn wf(self) -> bool {
        &&& self.parent1.len() == 32
        &&& self.parent2.len() == 32
        &&& match self.payload {
            Some(p) => p.wf(),
            None => true,
        }
    }

    /// The canonical byte encoding of the message.
    pub open spec fn enc(self) -> Seq<u8> {
        enc_u64le(self.network_id) + self.parent1 + self.parent2 + enc_u32le(
            self.payload_bytes().len() as u32,
        ) + self.payload_bytes() + enc_u64le(self.nonce)
    }
}

impl Message {
    pub fn parent1(&self) -> (r: &MessageId)
        ensures
            r@ == self@.parent1,
    {
        &self.parent1
    }

    pub fn parent2(&self) -> (r: &MessageId)
        ensures
            r@ == self@.parent2,
    {
        &self.parent2
    }

    pub fn network_id(&self) -> (r: u64)
        ensures
            r == self@.network_id,
    {
        self.network_id
    }

    pub fn nonce(&self) -> (r: u64)
        ensures
            r == self@.nonce,
    {
        self.nonce
    }

    pub fn payload(&self) -> (r: &Option<Payload>)
        ensures
            r == self.payload,
    {
        &self.payload
    }
}


// ---------------------------------------------------------------------------
// Spec-level decoding: the exact partial inverse of the encodings above.
// ---------------------------------------------------------------------------
/// Largest data length an indexation payload accepts.
pub const DATA_LENGTH_MAX: usize = 16777216;

pub open spec fn sdec_inputs(b: Seq<u8>, pos: int, n: int) -> Result<(Seq<(Seq<u8>, u16)>, int), Error>
    decreases n,
{
    if n <= 0 {
        Ok((Seq::empty(), pos))
    } else if pos + 34 <= b.len() {
        let item = (b.subrange(pos, pos + 32), dec_u16le(b[pos + 32], b[pos + 33]));
        match sdec_inputs(b, pos + 34, n - 1) {
            Ok((rest, end)) => Ok((seq![item] + rest, end)),
            Err(e) => Err(e),
        }
    } else {
        Err(Error::Io {})
    }
}

pub open spec fn sdec_address(b: Seq<u8>, pos: int) -> Result<(AddressV, int), Error> {
    if pos + 1 <= b.len() {
        if b[pos] == 0 {
            if pos + 50 <= b.len() {
                Ok((AddressV::Wots(b.subrange(pos + 1, pos + 50)), pos + 50))
            } else {
                Err(Error::Io {})
            }
        } else if b[pos] == 1 {
            if pos + 33 <= b.len() {
                Ok((AddressV::Ed25519(b.subrange(pos + 1, pos + 33)), pos + 33))
            } else {
                Err(Error::Io {})
            }
        } else {
            Err(Error::InvalidVariant)
        }
    } else {
        Err(Error::Io {})
    }
}

pub open spec fn sdec_output(b: Seq<u8>, pos: int) -> Result<(SigLockedSingleOutputV, int), Error> {
    match sdec_address(b, pos) {
        Ok((address, p1)) => if p1 + 8 <= b.len() {
            Ok((SigLockedSingleOutputV { address, amount: dec_u64le(b.subrange(p1, p1 + 8)) }, p1 + 8))
        } else {
            Err(Error::Io {})
        },
        Err(e) => Err(e),
    }
}

pub open spec fn sdec_outputs(b: Seq<u8>, pos: int, n: int) -> Result<(Seq<SigLockedSingleOutputV>, int), Error>
    decreases n,
{
    if n <= 0 {
        Ok((Seq::empty(), pos))
    } else {
        match sdec_output(b, pos) {
            Ok((item, p1)) => match sdec_outputs(b, p1, n - 1) {
                Ok((rest, end)) => Ok((seq![item] + rest, end)),
                Err(e) => Err(e),
            },
            Err(e) => Err(e),
        }
    }
}

pub open spec fn sdec_unlock(b: Seq<u8>, pos: int) -> Result<(UnlockBlockV, int), Error> {
    if pos + 1 <= b.len() {
        if b[pos] == 0 {
            if pos + 97 <= b.len() {
                Ok((UnlockBlockV::Signature {
                    public_key: b.subrange(pos + 1, pos + 33),
                    signature: b.subrange(pos + 33, pos + 97),
                }, pos + 97))
            } else {
                Err(Error::Io {})
            }
        } else if b[pos] == 1 {
            if pos + 3 <= b.len() {
                let index = dec_u16le(b[pos + 1], b[pos + 2]);
                if index < INPUT_OUTPUT_COUNT_MAX {
                    Ok((UnlockBlockV::Reference { index }, pos + 3))
                } else {
                    Err(Error::InvalidIndex)
                }
            } else {
                Err(Error::Io {})
            }
        } else {
            Err(Error::InvalidVariant)
        }
    } else {
        Err(Error::Io {})
    }
}

pub open spec fn sdec_unlocks(b: Seq<u8>, pos: int, n: int) -> Result<(Seq<UnlockBlockV>, int), Error>
    decreases n,
{
    if n <= 0 {
        Ok((Seq::empty(), pos))
    } else {
        match sdec_unlock(b, pos) {
            Ok((item, p1)) => match sdec_unlocks(b, p1, n - 1) {
                Ok((rest, end)) => Ok((seq![item] + rest, end)),
                Err(e) => Err(e),
            },
            Err(e) => Err(e),
        }
    }
}

pub open spec fn sdec_signatures(b: Seq<u8>, pos: int, n: int) -> Result<(Seq<Seq<u8>>, int), Error>
    decreases n,
{
    if n <= 0 {
        Ok((Seq::empty(), pos))
    } else if pos + 64 <= b.len() {
        match sdec_signatures(b, pos + 64, n - 1) {
            Ok((rest, end)) => Ok((seq![b.subrange(pos, pos + 64)] + rest, end)),
            Err(e) => Err(e),
        }
    } else {
        Err(Error::Io {})
    }
}

/// Parses a transaction payload body; the body must be consumed exactly.
pub open spec fn sdec_transaction(b: Seq<u8>) -> Result<TransactionPayloadV, Error> {
    if 2 <= b.len() {
        let n_in = dec_u16le(b[0], b[1]);
        if n_in > INPUT_OUTPUT_COUNT_MAX {
            Err(Error::InvalidCount)
        } else {
            match sdec_inputs(b, 2, n_in as int) {
                Ok((inputs, p1)) => if p1 + 2 <= b.len() {
                    let n_out = dec_u16le(b[p1], b[p1 + 1]);
                    if n_out > INPUT_OUTPUT_COUNT_MAX {
                        Err(Error::InvalidCount)
                    } else {
                        match sdec_outputs(b, p1 + 2, n_out as int) {
                            Ok((outputs, p2)) => if p2 + 2 <= b.len() {
                                let n_unlock = dec_u16le(b[p2], b[p2 + 1]);
                                if n_unlock > INPUT_OUTPUT_COUNT_MAX {
                                    Err(Error::InvalidCount)
                                } else {
                                    match sdec_unlocks(b, p2 + 2, n_unlock as int) {
                                        Ok((unlock_blocks, p3)) => if p3 == b.len() {
                                            Ok(TransactionPayloadV { inputs, outputs, unlock_blocks })
                                        } else {
                                            Err(Error::Io {})
                                        },
                                        Err(e) => Err(e),
                                    }
                                }
                            } else {
                                Err(Error::Io {})
                            },
                            Err(e) => Err(e),
                        }
                    }
                } else {
                    Err(Error::Io {})
                },
                Err(e) => Err(e),
            }
        }
    } else {
        Err(Error::Io {})
    }
}

/// Parses a milestone payload body; the body must be consumed exactly.
pub open spec fn sdec_milestone(b: Seq<u8>) -> Result<MilestonePayloadV, Error> {
    if 45 <= b.len() {
        let n = b[44];
        if b.len() == 45 + 64 * (n as int) {
            match sdec_signatures(b, 45, n as int) {
                Ok((signatures, _end)) => Ok(MilestonePayloadV {
                    index: dec_u32le(b[0], b[1], b[2], b[3]),
                    timestamp: dec_u64le(b.subrange(4, 12)),
                    inclusion_merkle_proof: b.subrange(12, 44),
                    signatures,
                }),
                Err(e) => Err(e),
            }
        } else {
            Err(Error::Io {})
        }
    } else {
        Err(Error::Io {})
    }
}

/// Parses an indexation payload body; the body must be consumed exactly.
pub open spec fn sdec_indexation(b: Seq<u8>) -> Result<IndexationV, Error> {
    if 2 <= b.len() {
        let ilen = dec_u16le(b[0], b[1]) as int;
        if ilen == 0 {
            Err(Error::EmptyIndex)
        } else if 2 + ilen + 4 <= b.len() {
            let ibytes = b.subrange(2, 2 + ilen);
            if vstd::utf8::valid_utf8(ibytes) {
                let dlen = dec_u32le(b[2 + ilen], b[3 + ilen], b[4 + ilen], b[5 + ilen]) as int;
                if dlen <= DATA_LENGTH_MAX && b.len() == 6 + ilen + dlen {
                    Ok(IndexationV {
                        index: vstd::utf8::decode_utf8(ibytes),
                        data: b.subrange(6 + ilen, b.len() as int),
                    })
                } else {
                    Err(Error::Io {})
                }
            } else {
                Err(Error::Utf8String {})
            }
        } else {
            Err(Error::Io {})
        }
    } else {
        Err(Error::Io {})
    }
}

/// Parses a payload region (`u32_le kind | body`); consumed exactly.
pub open spec fn sdec_payload(b: Seq<u8>) -> Result<PayloadV, Error> {
    if 4 <= b.len() {
        let kind = dec_u32le(b[0], b[1], b[2], b[3]);
        let body = b.subrange(4, b.len() as int);
        if kind == PAYLOAD_TRANSACTION_KIND {
            match sdec_transaction(body) {
                Ok(t) => Ok(PayloadV::Transaction(t)),
                Err(e) => Err(e),
            }
        } else if kind == PAYLOAD_MILESTONE_KIND {
            match sdec_milestone(body) {
                Ok(m) => Ok(PayloadV::Milestone(m)),
                Err(e) => Err(e),
            }
        } else if kind == PAYLOAD_INDEXATION_KIND {
            match sdec_indexation(body) {
                Ok(i) => Ok(PayloadV::Indexation(i)),
                Err(e) => Err(e),
            }
        } else {
            Err(Error::InvalidVariant)
        }
    } else {
        Err(Error::Io {})
    }
}

/// Parses a whole message; the input must be consumed exactly.
pub open spec fn sdec_message(b: Seq<u8>) -> Result<MessageV, Error> {
    if 84 <= b.len() {
        let plen = dec_u32le(b[72], b[73], b[74], b[75]) as int;
        if b.len() == 84 + plen {
            let nonce = dec_u64le(b.subrange(76 + plen, 84 + plen));
            if plen == 0 {
                Ok(built_message(b, None, nonce))
            } else {
                match sdec_payload(b.subrange(76, 76 + plen)) {
                    Ok(p) => Ok(built_message(b, Some(p), nonce)),
                    Err(e) => Err(e),
                }
            }
        } else {
            Err(Error::Io {})
        }
    } else {
        Err(Error::Io {})
    }
}

/// The message whose header fields sit at the front of `b`.
pub open spec fn built_message(b: Seq<u8>, payload: Option<PayloadV>, nonce: u64) -> MessageV {
    MessageV {
        network_id: dec_u64le(b.subrange(0, 8)),
        parent1: b.subrange(8, 40),
        parent2: b.subrange(40, 72),
        payload,
        nonce,
    }
}


// ---------------------------------------------------------------------------
// Encoding: executable serializers.
// ---------------------------------------------------------------------------
pub proof fn lemma_enc_inputs_snoc(s: Seq<(Seq<u8>, u16)>, x: (Seq<u8>, u16))
    ensures
        enc_inputs(s + seq![x]) == enc_inputs(s) + enc_input(x),
    decreases s.len(),
{
    reveal_with_fuel(enc_inputs, 3);
    if s.len() == 0 {
        assert(s + seq![x] =~= seq![x]);
        assert((seq![x]).drop_first() =~= Seq::<(Seq<u8>, u16)>::empty());
        assert(enc_inputs(s + seq![x]) =~= enc_inputs(s) + enc_input(x));
    } else {
        assert((s + seq![x]).drop_first() =~= s.drop_first() + seq![x]);
        lemma_enc_inputs_snoc(s.drop_first(), x);
        assert(enc_inputs(s + seq![x]) =~= enc_inputs(s) + enc_input(x));
    }
}

pub proof fn lemma_enc_outputs_snoc(s: Seq<SigLockedSingleOutputV>, x: SigLockedSingleOutputV)
    ensures
        enc_outputs(s + seq![x]) == enc_outputs(s) + x.enc(),
    decreases s.len(),
{
    reveal_with_fuel(enc_outputs, 3);
    if s.len() == 0 {
        assert(s + seq![x] =~= seq![x]);
        assert((seq![x]).drop_first() =~= Seq::<SigLockedSingleOutputV>::empty());
        assert(enc_outputs(s + seq![x]) =~= enc_outputs(s) + x.enc());
    } else {
        assert((s + seq![x]).drop_first() =~= s.drop_first() + seq![x]);
        lemma_enc_outputs_snoc(s.drop_first(), x);
        assert(enc_outputs(s + seq![x]) =~= enc_outputs(s) + x.enc());
    }
}

pub proof fn lemma_enc_unlocks_snoc(s: Seq<UnlockBlockV>, x: UnlockBlockV)
    ensures
        enc_unlocks(s + seq![x]) == enc_unlocks(s) + x.enc(),
    decreases s.len(),
{
    reveal_with_fuel(enc_unlocks, 3);
    if s.len() == 0 {
        assert(s + seq![x] =~= seq![x]);
        assert((seq![x]).drop_first() =~= Seq::<UnlockBlockV>::empty());
        assert(enc_unlocks(s + seq![x]) =~= enc_unlocks(s) + x.enc());
    } else {
        assert((s + seq![x]).drop_first() =~= s.drop_first() + seq![x]);
        lemma_enc_unlocks_snoc(s.drop_first(), x);
        assert(enc_unlocks(s + seq![x]) =~= enc_unlocks(s) + x.enc());
    }
}

pub proof fn lemma_enc_signatures_snoc(s: Seq<Seq<u8>>, x: Seq<u8>)
    ensures
        enc_signatures(s + seq![x]) == enc_signatures(s) + x,
    decreases s.len(),
{
    reveal_with_fuel(enc_signatures, 3);
    if s.len() == 0 {
        assert(s + seq![x] =~= seq![x]);
        assert((seq![x]).drop_first() =~= Seq::<Seq<u8>>::empty());
        assert(enc_signatures(s + seq![x]) =~= enc_signatures(s) + x);
    } else {
        assert((s + seq![x]).drop_first() =~= s.drop_first() + seq![x]);
        lemma_enc_signatures_snoc(s.drop_first(), x);
        assert(enc_signatures(s + seq![x]) =~= enc_signatures(s) + x);
    }
}

pub proof fn lemma_enc_inputs_len(s: Seq<(Seq<u8>, u16)>)
    requires
        forall|i: int| 0 <= i < s.len() ==> (#[trigger] s[i]).0.len() == 32,
    ensures
        enc_inputs(s).len() == 34 * s.len(),
    decreases s.len(),
{
    if s.len() > 0 {
        assert(s[0].0.len() == 32);
        lemma_enc_inputs_len(s.drop_first());
    }
}

pub proof fn lemma_enc_outputs_len(s: Seq<SigLockedSingleOutputV>)
    requires
        forall|i: int| 0 <= i < s.len() ==> (#[trigger] s[i]).wf(),
    ensures
        enc_outputs(s).len() <= 58 * s.len(),
    decreases s.len(),
{
    if s.len() > 0 {
        assert(s[0].wf());
        lemma_enc_outputs_len(s.drop_first());
    }
}

pub proof fn lemma_enc_unlocks_len(s: Seq<UnlockBlockV>)
    requires
        forall|i: int| 0 <= i < s.len() ==> (#[trigger] s[i]).wf(),
    ensures
        enc_unlocks(s).len() <= 97 * s.len(),
    decreases s.len(),
{
    if s.len() > 0 {
        assert(s[0].wf());
        lemma_enc_unlocks_len(s.drop_first());
    }
}

pub proof fn lemma_enc_signatures_len(s: Seq<Seq<u8>>)
    requires
        forall|i: int| 0 <= i < s.len() ==> (#[trigger] s[i]).len() == ED25519_SIGNATURE_LENGTH,
    ensures
        enc_signatures(s).len() == 64 * s.len(),
    decreases s.len(),
{
    if s.len() > 0 {
        assert(s[0].len() == 64);
        lemma_enc_signatures_len(s.drop_first());
    }
}

/// Serialized size of a well-formed payload is comfortably below `u32::MAX`.
pub proof fn lemma_payload_enc_len(p: PayloadV)
    requires
        p.wf(),
    ensures
        p.enc().len() <= 0x2000000,
{
    match p {
        PayloadV::Transaction(t) => {
            lemma_enc_inputs_len(t.inputs);
            lemma_enc_outputs_len(t.outputs);
            lemma_enc_unlocks_len(t.unlock_blocks);
        },
        PayloadV::Milestone(m) => {
            lemma_enc_signatures_len(m.signatures);
        },
        PayloadV::Indexation(i) => {
        },
    }
}

fn encode_address(out: &mut Vec<u8>, a: &Address)
    requires
        a@.wf(),
    ensures
        final(out)@ == old(out)@ + a@.enc(),
{
    match a {
        Address::Wots(b) => {
            out.push(0);
            push_slice(out, b.as_slice());
        },
        Address::Ed25519(b) => {
            out.push(1);
            push_slice(out, b.as_slice());
        },
    }
    proof {
        assert(out@ =~= old(out)@ + a@.enc());
    }
}

fn encode_unlock(out: &mut Vec<u8>, u: &UnlockBlock)
    requires
        u@.wf(),
    ensures
        final(out)@ == old(out)@ + u@.enc(),
{
    match u {
        UnlockBlock::Signature(s) => {
            out.push(0);
            push_slice(out, s.public_key().as_slice());
            push_slice(out, s.signature());
        },
        UnlockBlock::Reference(r) => {
            out.push(1);
            push_u16le(out, r.index());
        },
    }
    proof {
        assert(out@ =~= old(out)@ + u@.enc());
    }
}

fn encode_transaction(out: &mut Vec<u8>, t: &TransactionPayload)
    requires
        t@.wf(),
    ensures
        final(out)@ == old(out)@ + t@.enc(),
{
    push_u16le(out, t.inputs.len() as u16);
    let ghost base1 = out@;
    let mut i: usize = 0;
    while i < t.inputs.len()
        invariant
            i <= t.inputs@.len(),
            t@.wf(),
            out@ == base1 + enc_inputs(t@.inputs.subrange(0, i as int)),
        decreases t.inputs@.len() - i,
    {
        let input = &t.inputs[i];
        push_slice(out, &input.transaction_id);
        push_u16le(out, input.output_index);
        proof {
            lemma_enc_inputs_snoc(t@.inputs.subrange(0, i as int), t@.inputs[i as int]);
            assert(t@.inputs.subrange(0, i as int) + seq![t@.inputs[i as int]] =~= t@.inputs.subrange(
                0,
                i + 1,
            ));
            assert(out@ =~= base1 + enc_inputs(t@.inputs.subrange(0, i + 1)));
        }
        i += 1;
    }
    proof {
        assert(t@.inputs.subrange(0, t.inputs@.len() as int) =~= t@.inputs);
    }
    push_u16le(out, t.outputs.len() as u16);
    let ghost base2 = out@;
    let mut i: usize = 0;
    while i < t.outputs.len()
        invariant
            i <= t.outputs@.len(),
            t@.wf(),
            out@ == base2 + enc_outputs(t@.outputs.subrange(0, i as int)),
        decreases t.outputs@.len() - i,
    {
        let o = &t.outputs[i];
        assert(t@.outputs[i as int].wf());
        encode_address(out, &o.address);
        push_u64le(out, o.amount);
        proof {
            lemma_enc_outputs_snoc(t@.outputs.subrange(0, i as int), t@.outputs[i as int]);
            assert(t@.outputs.subrange(0, i as int) + seq![t@.outputs[i as int]] =~= t@.outputs.subrange(
                0,
                i + 1,
            ));
            assert(out@ =~= base2 + enc_outputs(t@.outputs.subrange(0, i + 1)));
        }
        i += 1;
    }
    proof {
        assert(t@.outputs.subrange(0, t.outputs@.len() as int) =~= t@.outputs);
    }
    push_u16le(out, t.unlock_blocks.len() as u16);
    let ghost base3 = out@;
    let mut i: usize = 0;
    while i < t.unlock_blocks.len()
        invariant
            i <= t.unlock_blocks@.len(),
            t@.wf(),
            out@ == base3 + enc_unlocks(t@.unlock_blocks.subrange(0, i as int)),
        decreases t.unlock_blocks@.len() - i,
    {
        assert(t@.unlock_blocks[i as int].wf());
        encode_unlock(out, &t.unlock_blocks[i]);
        proof {
            lemma_enc_unlocks_snoc(t@.unlock_blocks.subrange(0, i as int), t@.unlock_blocks[i as int]);
            assert(t@.unlock_blocks.subrange(0, i as int) + seq![t@.unlock_blocks[i as int]]
                =~= t@.unlock_blocks.subrange(0, i + 1));
            assert(out@ =~= base3 + enc_unlocks(t@.unlock_blocks.subrange(0, i + 1)));
        }
        i += 1;
    }
    proof {
        assert(t@.unlock_blocks.subrange(0, t.unlock_blocks@.len() as int) =~= t@.unlock_blocks);
        assert(out@ =~= old(out)@ + t@.enc());
    }
}

fn encode_milestone(out: &mut Vec<u8>, m: &MilestonePayload)
    requires
        m@.wf(),
    ensures
        final(out)@ == old(out)@ + m@.enc(),
{
    push_u32le(out, m.index);
    push_u64le(out, m.timestamp);
    push_slice(out, &m.inclusion_merkle_proof);
    out.push(m.signatures.len() as u8);
    let ghost base = out@;
    let mut i: usize = 0;
    while i < m.signatures.len()
        invariant
            i <= m.signatures@.len(),
            m@.wf(),
            out@ == base + enc_signatures(m@.signatures.subrange(0, i as int)),
        decreases m.signatures@.len() - i,
    {
        push_slice(out, m.signatures[i].as_slice());
        proof {
            lemma_enc_signatures_snoc(m@.signatures.subrange(0, i as int), m@.signatures[i as int]);
            assert(m@.signatures.subrange(0, i as int) + seq![m@.signatures[i as int]]
                =~= m@.signatures.subrange(0, i + 1));
            assert(out@ =~= base + enc_signatures(m@.signatures.subrange(0, i + 1)));
        }
        i += 1;
    }
    proof {
        assert(m@.signatures.subrange(0, m.signatures@.len() as int) =~= m@.signatures);
        assert(out@ =~= old(out)@ + m@.enc());
    }
}

fn encode_indexation(out: &mut Vec<u8>, ix: &Indexation)
    requires
        ix@.wf(),
    ensures
        final(out)@ == old(out)@ + ix@.enc(),
{
    let ibytes = ix.index.as_str().as_bytes();
    push_u16le(out, ibytes.len() as u16);
    push_slice(out, ibytes);
    push_u32le(out, ix.data.len() as u32);
    push_slice(out, ix.data.as_slice());
    proof {
        assert(out@ =~= old(out)@ + ix@.enc());
    }
}

/// Serializes a payload: `u32_le kind | body`.
pub fn encode_payload(p: &Payload) -> (r: Vec<u8>)
    requires
        p@.wf(),
    ensures
        r@ == p@.enc(),
{
    let mut out: Vec<u8> = Vec::new();
    match p {
        Payload::Transaction(t) => {
            push_u32le(&mut out, PAYLOAD_TRANSACTION_KIND);
            encode_transaction(&mut out, t);
        },
        Payload::Milestone(m) => {
            push_u32le(&mut out, PAYLOAD_MILESTONE_KIND);
            encode_milestone(&mut out, m);
        },
        Payload::Indexation(i) => {
            push_u32le(&mut out, PAYLOAD_INDEXATION_KIND);
            encode_indexation(&mut out, i);
        },
    }
    proof {
        assert(out@ =~= p@.enc());
    }
    out
}

impl Message {
    /// Serializes the message into its canonical byte encoding.
    pub fn pack_new(&self) -> (r: Vec<u8>)
        requires
            self@.wf(),
        ensures
            r@ == self@.enc(),
    {
        let mut out: Vec<u8> = Vec::new();
        push_u64le(&mut out, self.network_id);
        push_slice(&mut out, self.parent1.as_bytes());
        push_slice(&mut out, self.parent2.as_bytes());
        match &self.payload {
            Some(p) => {
                let body = encode_payload(p);
                proof {
                    lemma_payload_enc_len(p@);
                }
                push_u32le(&mut out, body.len() as u32);
                push_slice(&mut out, body.as_slice());
            },
            None => {
                push_u32le(&mut out, 0);
            },
        }
        push_u64le(&mut out, self.nonce);
        proof {
            assert(out@ =~= self@.enc());
        }
        out
    }
}

// ---------------------------------------------------------------------------
// Round trip: decoding inverts encoding.
// ---------------------------------------------------------------------------
proof fn lemma_sdec_inputs_of_enc(b: Seq<u8>, pos: int, items: Seq<(Seq<u8>, u16)>)
    requires
        0 <= pos,
        forall|i: int| 0 <= i < items.len() ==> (#[trigger] items[i]).0.len() == 32,
        pos + 34 * items.len() <= b.len(),
        b.subrange(pos, pos + 34 * items.len()) == enc_inputs(items),
    ensures
        sdec_inputs(b, pos, items.len() as int) == Ok::<(Seq<(Seq<u8>, u16)>, int), Error>(
            (items, pos + 34 * items.len()),
        ),
    decreases items.len(),
{
    if items.len() == 0 {
        assert(items =~= Seq::<(Seq<u8>, u16)>::empty());
    } else {
        let first = items[0];
        let rest = items.drop_first();
        lemma_enc_inputs_len(items);
        lemma_enc_inputs_len(rest);
        assert(first.0.len() == 32);
        assert(enc_input(first).len() == 34);
        assert(b.subrange(pos, pos + 34) =~= enc_input(first)) by {
            assert(forall|k: int|
                0 <= k < 34 ==> b.subrange(pos, pos + 34 * items.len())[k] == #[trigger] enc_input(
                    first,
                )[k]);
        }
        assert(b.subrange(pos, pos + 32) =~= first.0) by {
            assert(forall|k: int|
                0 <= k < 32 ==> b.subrange(pos, pos + 34)[k] == #[trigger] first.0[k]);
        }
        lemma_u16_round(first.1);
        assert(b[pos + 32] == enc_u16le(first.1)[0] && b[pos + 33] == enc_u16le(first.1)[1]) by {
            assert(b.subrange(pos, pos + 34)[32] == enc_input(first)[32]);
            assert(b.subrange(pos, pos + 34)[33] == enc_input(first)[33]);
        }
        assert(dec_u16le(b[pos + 32], b[pos + 33]) == first.1);
        assert(b.subrange(pos + 34, pos + 34 + 34 * rest.len()) =~= enc_inputs(rest)) by {
            assert(forall|k: int|
                0 <= k < 34 * rest.len() ==> b.subrange(pos, pos + 34 * items.len())[34 + k]
                    == #[trigger] enc_inputs(rest)[k]);
        }
        lemma_sdec_inputs_of_enc(b, pos + 34, rest);
        assert(seq![(b.subrange(pos, pos + 32), dec_u16le(b[pos + 32], b[pos + 33]))] + rest
            =~= items);
    }
}

proof fn lemma_sdec_output_of_enc(b: Seq<u8>, pos: int, item: SigLockedSingleOutputV)
    requires
        0 <= pos,
        item.wf(),
        pos + item.enc().len() <= b.len(),
        b.subrange(pos, pos + item.enc().len()) == item.enc(),
    ensures
        sdec_output(b, pos) == Ok::<(SigLockedSingleOutputV, int), Error>(
            (item, pos + item.enc().len()),
        ),
{
    let e = item.enc();
    let alen = item.address.enc().len() as int;
    assert forall|k: int| 0 <= k < e.len() implies b[pos + k] == #[trigger] e[k] by {
        assert(b.subrange(pos, pos + e.len() as int)[k] == e[k]);
    }
    match item.address {
        AddressV::Wots(w) => {
            assert(e[0] == 0);
            assert(b[pos] == e[0]);
            assert forall|k: int| 0 <= k < 49 implies b.subrange(pos + 1, pos + 50)[k] == #[trigger] w[k] by {
                assert(b[pos + 1 + k] == e[1 + k]);
                assert(e[1 + k] == w[k]);
            }
            assert(b.subrange(pos + 1, pos + 50) =~= w);
            assert(sdec_address(b, pos) == Ok::<(AddressV, int), Error>((item.address, pos + 50)));
        },
        AddressV::Ed25519(w) => {
            assert(e[0] == 1);
            assert(b[pos] == e[0]);
            assert forall|k: int| 0 <= k < 32 implies b.subrange(pos + 1, pos + 33)[k] == #[trigger] w[k] by {
                assert(b[pos + 1 + k] == e[1 + k]);
                assert(e[1 + k] == w[k]);
            }
            assert(b.subrange(pos + 1, pos + 33) =~= w);
            assert(sdec_address(b, pos) == Ok::<(AddressV, int), Error>((item.address, pos + 33)));
        },
    }
    lemma_u64_round(item.amount);
    let amt = enc_u64le(item.amount);
    assert forall|k: int| 0 <= k < 8 implies b.subrange(pos + alen, pos + alen + 8)[k]
        == #[trigger] amt[k] by {
        assert(b[pos + alen + k] == e[alen + k]);
        assert(e[alen + k] == amt[k]);
    }
    assert(b.subrange(pos + alen, pos + alen + 8) =~= amt);
}

proof fn lemma_sdec_outputs_of_enc(b: Seq<u8>, pos: int, items: Seq<SigLockedSingleOutputV>)
    requires
        0 <= pos,
        forall|i: int| 0 <= i < items.len() ==> (#[trigger] items[i]).wf(),
        pos + enc_outputs(items).len() <= b.len(),
        b.subrange(pos, pos + enc_outputs(items).len()) == enc_outputs(items),
    ensures
        sdec_outputs(b, pos, items.len() as int) == Ok::<(Seq<SigLockedSingleOutputV>, int), Error>(
            (items, pos + enc_outputs(items).len()),
        ),
    decreases items.len(),
{
    if items.len() == 0 {
        assert(items =~= Seq::<SigLockedSingleOutputV>::empty());
    } else {
        let first = items[0];
        let rest = items.drop_first();
        let flen = first.enc().len() as int;
        let rlen = enc_outputs(rest).len() as int;
        assert(enc_outputs(items) == first.enc() + enc_outputs(rest));
        assert(b.subrange(pos, pos + flen) =~= first.enc()) by {
            assert(forall|k: int|
                0 <= k < flen ==> b.subrange(pos, pos + enc_outputs(items).len())[k]
                    == #[trigger] first.enc()[k]);
        }
        lemma_sdec_output_of_enc(b, pos, first);
        assert(b.subrange(pos + flen, pos + flen + rlen) =~= enc_outputs(rest)) by {
            assert(forall|k: int|
                0 <= k < rlen ==> b.subrange(pos, pos + enc_outputs(items).len())[flen + k]
                    == #[trigger] enc_outputs(rest)[k]);
        }
        lemma_sdec_outputs_of_enc(b, pos + flen, rest);
        assert(seq![first] + rest =~= items);
    }
}

proof fn lemma_sdec_unlock_of_enc(b: Seq<u8>, pos: int, item: UnlockBlockV)
    requires
        0 <= pos,
        item.wf(),
        pos + item.enc().len() <= b.len(),
        b.subrange(pos, pos + item.enc().len()) == item.enc(),
    ensures
        sdec_unlock(b, pos) == Ok::<(UnlockBlockV, int), Error>((item, pos + item.enc().len())),
{
    let e = item.enc();
    assert forall|k: int| 0 <= k < e.len() implies b[pos + k] == #[trigger] e[k] by {
        assert(b.subrange(pos, pos + e.len() as int)[k] == e[k]);
    }
    match item {
        UnlockBlockV::Signature { public_key, signature } => {
            assert(e[0] == 0);
            assert(b[pos] == e[0]);
            assert forall|k: int| 0 <= k < 32 implies b.subrange(pos + 1, pos + 33)[k]
                == #[trigger] public_key[k] by {
                assert(b[pos + 1 + k] == e[1 + k]);
                assert(e[1 + k] == public_key[k]);
            }
            assert(b.subrange(pos + 1, pos + 33) =~= public_key);
            assert forall|k: int| 0 <= k < 64 implies b.subrange(pos + 33, pos + 97)[k]
                == #[trigger] signature[k] by {
                assert(b[pos + 33 + k] == e[33 + k]);
                assert(e[33 + k] == signature[k]);
            }
            assert(b.subrange(pos + 33, pos + 97) =~= signature);
        },
        UnlockBlockV::Reference { index } => {
            assert(e[0] == 1);
            assert(b[pos] == e[0]);
            lemma_u16_round(index);
            assert(e[1] == enc_u16le(index)[0] && e[2] == enc_u16le(index)[1]);
            assert(b[pos + 1] == e[1] && b[pos + 2] == e[2]);
        },
    }
}

proof fn lemma_sdec_unlocks_of_enc(b: Seq<u8>, pos: int, items: Seq<UnlockBlockV>)
    requires
        0 <= pos,
        forall|i: int| 0 <= i < items.len() ==> (#[trigger] items[i]).wf(),
        pos + enc_unlocks(items).len() <= b.len(),
        b.subrange(pos, pos + enc_unlocks(items).len()) == enc_unlocks(items),
    ensures
        sdec_unlocks(b, pos, items.len() as int) == Ok::<(Seq<UnlockBlockV>, int), Error>(
            (items, pos + enc_unlocks(items).len()),
        ),
    decreases items.len(),
{
    if items.len() == 0 {
        assert(items =~= Seq::<UnlockBlockV>::empty());
    } else {
        let first = items[0];
        let rest = items.drop_first();
        let flen = first.enc().len() as int;
        let rlen = enc_unlocks(rest).len() as int;
        assert(enc_unlocks(items) == first.enc() + enc_unlocks(rest));
        assert(b.subrange(pos, pos + flen) =~= first.enc()) by {
            assert(forall|k: int|
                0 <= k < flen ==> b.subrange(pos, pos + enc_unlocks(items).len())[k]
                    == #[trigger] first.enc()[k]);
        }
        lemma_sdec_unlock_of_enc(b, pos, first);
        assert(b.subrange(pos + flen, pos + flen + rlen) =~= enc_unlocks(rest)) by {
            assert(forall|k: int|
                0 <= k < rlen ==> b.subrange(pos, pos + enc_unlocks(items).len())[flen + k]
                    == #[trigger] enc_unlocks(rest)[k]);
        }
        lemma_sdec_unlocks_of_enc(b, pos + flen, rest);
        assert(seq![first] + rest =~= items);
    }
}

proof fn lemma_sdec_signatures_of_enc(b: Seq<u8>, pos: int, items: Seq<Seq<u8>>)
    requires
        0 <= pos,
        forall|i: int| 0 <= i < items.len() ==> (#[trigger] items[i]).len()
            == ED25519_SIGNATURE_LENGTH,
        pos + 64 * items.len() <= b.len(),
        b.subrange(pos, pos + 64 * items.len()) == enc_signatures(items),
    ensures
        sdec_signatures(b, pos, items.len() as int) == Ok::<(Seq<Seq<u8>>, int), Error>(
            (items, pos + 64 * items.len()),
        ),
    decreases items.len(),
{
    if items.len() == 0 {
        assert(items =~= Seq::<Seq<u8>>::empty());
    } else {
        let first = items[0];
        let rest = items.drop_first();
        lemma_enc_signatures_len(items);
        lemma_enc_signatures_len(rest);
        assert(b.subrange(pos, pos + 64) =~= first) by {
            assert(forall|k: int|
                0 <= k < 64 ==> b.subrange(pos, pos + 64 * items.len())[k] == #[trigger] first[k]);
        }
        assert(b.subrange(pos + 64, pos + 64 + 64 * rest.len()) =~= enc_signatures(rest)) by {
            assert(forall|k: int|
                0 <= k < 64 * rest.len() ==> b.subrange(pos, pos + 64 * items.len())[64 + k]
                    == #[trigger] enc_signatures(rest)[k]);
        }
        lemma_sdec_signatures_of_enc(b, pos + 64, rest);
        assert(seq![first] + rest =~= items);
    }
}

proof fn lemma_sdec_transaction_of_enc(t: TransactionPayloadV)
    requires
        t.wf(),
    ensures
        sdec_transaction(t.enc()) == Ok::<TransactionPayloadV, Error>(t),
{
    let b = t.enc();
    let n1 = t.inputs.len() as u16;
    let n2 = t.outputs.len() as u16;
    let n3 = t.unlock_blocks.len() as u16;
    lemma_enc_inputs_len(t.inputs);
    let ilen = enc_inputs(t.inputs).len() as int;
    let olen = enc_outputs(t.outputs).len() as int;
    let ulen = enc_unlocks(t.unlock_blocks).len() as int;
    let p1 = 2 + ilen;
    let p2 = p1 + 2 + olen;
    lemma_u16_round(n1);
    lemma_u16_round(n2);
    lemma_u16_round(n3);
    assert(b[0] == enc_u16le(n1)[0] && b[1] == enc_u16le(n1)[1]);
    assert(dec_u16le(b[0], b[1]) == n1);
    assert(b.subrange(2, 2 + ilen) =~= enc_inputs(t.inputs));
    lemma_sdec_inputs_of_enc(b, 2, t.inputs);
    assert(b[p1] == enc_u16le(n2)[0] && b[p1 + 1] == enc_u16le(n2)[1]);
    assert(dec_u16le(b[p1], b[p1 + 1]) == n2);
    assert(b.subrange(p1 + 2, p1 + 2 + olen) =~= enc_outputs(t.outputs));
    lemma_sdec_outputs_of_enc(b, p1 + 2, t.outputs);
    assert(b[p2] == enc_u16le(n3)[0] && b[p2 + 1] == enc_u16le(n3)[1]);
    assert(dec_u16le(b[p2], b[p2 + 1]) == n3);
    assert(b.subrange(p2 + 2, p2 + 2 + ulen) =~= enc_unlocks(t.unlock_blocks));
    lemma_sdec_unlocks_of_enc(b, p2 + 2, t.unlock_blocks);
}

proof fn lemma_sdec_milestone_of_enc(m: MilestonePayloadV)
    requires
        m.wf(),
    ensures
        sdec_milestone(m.enc()) == Ok::<MilestonePayloadV, Error>(m),
{
    let b = m.enc();
    let n = m.signatures.len() as u8;
    lemma_enc_signatures_len(m.signatures);
    lemma_u32_round(m.index);
    lemma_u64_round(m.timestamp);
    assert(b[0] == enc_u32le(m.index)[0] && b[1] == enc_u32le(m.index)[1] && b[2] == enc_u32le(
        m.index,
    )[2] && b[3] == enc_u32le(m.index)[3]);
    assert(b.subrange(4, 12) =~= enc_u64le(m.timestamp));
    assert(b.subrange(12, 44) =~= m.inclusion_merkle_proof);
    assert(b[44] == n);
    assert(b.subrange(45, 45 + 64 * m.signatures.len() as int) =~= enc_signatures(m.signatures));
    lemma_sdec_signatures_of_enc(b, 45, m.signatures);
}

proof fn lemma_sdec_indexation_of_enc(ix: IndexationV)
    requires
        ix.wf(),
    ensures
        sdec_indexation(ix.enc()) == Ok::<IndexationV, Error>(ix),
{
    let b = ix.enc();
    let ib = vstd::utf8::encode_utf8(ix.index);
    let ilen = ib.len() as int;
    lemma_u16_round(ilen as u16);
    lemma_u32_round(ix.data.len() as u32);
    assert(b[0] == enc_u16le(ilen as u16)[0] && b[1] == enc_u16le(ilen as u16)[1]);
    assert(dec_u16le(b[0], b[1]) == ilen as u16);
    assert(b.subrange(2, 2 + ilen) =~= ib);
    vstd::utf8::encode_utf8_valid_utf8(ix.index);
    vstd::utf8::encode_utf8_decode_utf8(ix.index);
    assert(b[2 + ilen] == enc_u32le(ix.data.len() as u32)[0]);
    assert(b[3 + ilen] == enc_u32le(ix.data.len() as u32)[1]);
    assert(b[4 + ilen] == enc_u32le(ix.data.len() as u32)[2]);
    assert(b[5 + ilen] == enc_u32le(ix.data.len() as u32)[3]);
    assert(b.subrange(6 + ilen, b.len() as int) =~= ix.data);
}

proof fn lemma_sdec_payload_of_enc(p: PayloadV)
    requires
        p.wf(),
    ensures
        sdec_payload(p.enc()) == Ok::<PayloadV, Error>(p),
{
    let b = p.enc();
    lemma_u32_round(p.kind());
    assert(b[0] == enc_u32le(p.kind())[0] && b[1] == enc_u32le(p.kind())[1] && b[2] == enc_u32le(
        p.kind(),
    )[2] && b[3] == enc_u32le(p.kind())[3]);
    assert(dec_u32le(b[0], b[1], b[2], b[3]) == p.kind());
    match p {
        PayloadV::Transaction(t) => {
            assert(b.subrange(4, b.len() as int) =~= t.enc());
            lemma_sdec_transaction_of_enc(t);
        },
        PayloadV::Milestone(m) => {
            assert(b.subrange(4, b.len() as int) =~= m.enc());
            lemma_sdec_milestone_of_enc(m);
        },
        PayloadV::Indexation(i) => {
            assert(b.subrange(4, b.len() as int) =~= i.enc());
            lemma_sdec_indexation_of_enc(i);
        },
    }
}

/// Message round trip: parsing the canonical encoding of any well-formed
/// message yields the message itself.
pub proof fn lemma_message_round_trip(m: MessageV)
    requires
        m.wf(),
    ensures
        sdec_message(m.enc()) == Ok::<MessageV, Error>(m),
{
    let b = m.enc();
    let pb = m.payload_bytes();
    let plen = pb.len() as int;
    if m.payload is Some {
        lemma_payload_enc_len(m.payload->0);
    }
    lemma_u32_round(plen as u32);
    lemma_u64_round(m.network_id);
    lemma_u64_round(m.nonce);
    assert(b[72] == enc_u32le(plen as u32)[0] && b[73] == enc_u32le(plen as u32)[1] && b[74]
        == enc_u32le(plen as u32)[2] && b[75] == enc_u32le(plen as u32)[3]);
    assert(dec_u32le(b[72], b[73], b[74], b[75]) == plen as u32);
    assert(b.subrange(0, 8) =~= enc_u64le(m.network_id));
    assert(b.subrange(8, 40) =~= m.parent1);
    assert(b.subrange(40, 72) =~= m.parent2);
    assert(b.subrange(76 + plen, 84 + plen) =~= enc_u64le(m.nonce));
    match m.payload {
        Some(p) => {
            assert(b.subrange(76, 76 + plen) =~= p.enc());
            lemma_sdec_payload_of_enc(p);
        },
        None => {
        },
    }
}

// ---------------------------------------------------------------------------
// Decoding: executable parsers, exact against the spec decoders.
// ---------------------------------------------------------------------------
/// Relies on `String::from_utf8`: it succeeds exactly on valid UTF-8 input
/// and the returned string holds exactly those bytes.
#[verifier::external_body]
fn string_from_utf8(v: Vec<u8>) -> (r: Option<String>)
    ensures
        match r {
            Some(s) => vstd::utf8::valid_utf8(v@) && vstd::utf8::encode_utf8(s@) == v@,
            None => !vstd::utf8::valid_utf8(v@),
        },
{
    String::from_utf8(v).ok()
}

fn decode_inputs(b: &[u8], pos: usize, n: u16) -> (r: Result<(Vec<UtxoInput>, usize), Error>)
    requires
        pos <= b@.len(),
    ensures
        match r {
            Ok((v, end)) => sdec_inputs(b@, pos as int, n as int) == Ok::<
                (Seq<(Seq<u8>, u16)>, int),
                Error,
            >((v@.map_values(|x: UtxoInput| x@), end as int)) && end <= b@.len(),
            Err(e) => sdec_inputs(b@, pos as int, n as int) == Err::<
                (Seq<(Seq<u8>, u16)>, int),
                Error,
            >(e),
        },
    decreases n,
{
    if n == 0 {
        let v: Vec<UtxoInput> = Vec::new();
        proof {
            assert(v@.map_values(|x: UtxoInput| x@) =~= Seq::<(Seq<u8>, u16)>::empty());
        }
        Ok((v, pos))
    } else if b.len() - pos >= 34 {
        let transaction_id = read_bytes32(b, pos);
        let output_index = read_u16le(b, pos + 32);
        match decode_inputs(b, pos + 34, n - 1) {
            Ok((mut rest, end)) => {
                let item = UtxoInput { transaction_id, output_index };
                let ghost rest0 = rest@;
                rest.insert(0, item);
                proof {
                    assert(rest@.map_values(|x: UtxoInput| x@) =~= seq![item@] + rest0.map_values(|x: UtxoInput| x@));
                }
                Ok((rest, end))
            },
            Err(e) => Err(e),
        }
    } else {
        Err(Error::Io {})
    }
}

fn decode_address(b: &[u8], pos: usize) -> (r: Result<(Address, usize), Error>)
    requires
        pos <= b@.len(),
    ensures
        match r {
            Ok((a, end)) => sdec_address(b@, pos as int) == Ok::<(AddressV, int), Error>(
                (a@, end as int),
            ) && end <= b@.len(),
            Err(e) => sdec_address(b@, pos as int) == Err::<(AddressV, int), Error>(e),
        },
{
    if b.len() - pos >= 1 {
        let tag = b[pos];
        if tag == 0 {
            if b.len() - pos >= 50 {
                let w = vstd::slice::slice_to_vec(vstd::slice::slice_subrange(b, pos + 1, pos + 50));
                Ok((Address::Wots(w), pos + 50))
            } else {
                Err(Error::Io {})
            }
        } else if tag == 1 {
            let raw = if b.len() - pos >= 33 {
                Some(read_bytes32(b, pos + 1))
            } else {
                None
            };
            match raw {
                Some(a) => Ok((Address::Ed25519(a), pos + 33)),
                None => Err(Error::Io {}),
            }
        } else {
            Err(Error::InvalidVariant)
        }
    } else {
        Err(Error::Io {})
    }
}

fn decode_outputs(b: &[u8], pos: usize, n: u16) -> (r: Result<(Vec<SigLockedSingleOutput>, usize), Error>)
    requires
        pos <= b@.len(),
    ensures
        match r {
            Ok((v, end)) => sdec_outputs(b@, pos as int, n as int) == Ok::<
                (Seq<SigLockedSingleOutputV>, int),
                Error,
            >((v@.map_values(|x: SigLockedSingleOutput| x@), end as int)) && end <= b@.len(),
            Err(e) => sdec_outputs(b@, pos as int, n as int) == Err::<
                (Seq<SigLockedSingleOutputV>, int),
                Error,
            >(e),
        },
    decreases n,
{
    if n == 0 {
        let v: Vec<SigLockedSingleOutput> = Vec::new();
        proof {
            assert(v@.map_values(|x: SigLockedSingleOutput| x@) =~= Seq::<
                SigLockedSingleOutputV,
            >::empty());
        }
        Ok((v, pos))
    } else {
        match decode_address(b, pos) {
            Ok((address, p1)) => {
                if b.len() - p1 >= 8 {
                    let amount = read_u64le(b, p1);
                    match decode_outputs(b, p1 + 8, n - 1) {
                        Ok((mut rest, end)) => {
                            let item = SigLockedSingleOutput { address, amount };
                            let ghost rest0 = rest@;
                rest.insert(0, item);
                            proof {
                                assert(rest@.map_values(|x: SigLockedSingleOutput| x@)
                                    =~= seq![item@] + rest0.map_values(
                                    |x: SigLockedSingleOutput| x@,
                                ));
                            }
                            Ok((rest, end))
                        },
                        Err(e) => Err(e),
                    }
                } else {
                    Err(Error::Io {})
                }
            },
            Err(e) => Err(e),
        }
    }
}

fn decode_unlocks(b: &[u8], pos: usize, n: u16) -> (r: Result<(Vec<UnlockBlock>, usize), Error>)
    requires
        pos <= b@.len(),
    ensures
        match r {
            Ok((v, end)) => sdec_unlocks(b@, pos as int, n as int) == Ok::<
                (Seq<UnlockBlockV>, int),
                Error,
            >((v@.map_values(|x: UnlockBlock| x@), end as int)) && end <= b@.len(),
            Err(e) => sdec_unlocks(b@, pos as int, n as int) == Err::<
                (Seq<UnlockBlockV>, int),
                Error,
            >(e),
        },
    decreases n,
{
    if n == 0 {
        let v: Vec<UnlockBlock> = Vec::new();
        proof {
            assert(v@.map_values(|x: UnlockBlock| x@) =~= Seq::<UnlockBlockV>::empty());
        }
        Ok((v, pos))
    } else if b.len() - pos >= 1 {
        let tag = b[pos];
        if tag == 0 {
            if b.len() - pos >= 97 {
                let public_key = read_bytes32(b, pos + 1);
                let signature = vstd::slice::slice_to_vec(
                    vstd::slice::slice_subrange(b, pos + 33, pos + 97),
                );
                let item = UnlockBlock::Signature(Ed25519Signature { public_key, signature });
                match decode_unlocks(b, pos + 97, n - 1) {
                    Ok((mut rest, end)) => {
                        let ghost rest0 = rest@;
                rest.insert(0, item);
                        proof {
                            assert(rest@.map_values(|x: UnlockBlock| x@) =~= seq![item@] + rest0.map_values(|x: UnlockBlock| x@));
                        }
                        Ok((rest, end))
                    },
                    Err(e) => Err(e),
                }
            } else {
                Err(Error::Io {})
            }
        } else if tag == 1 {
            if b.len() - pos >= 3 {
                let index = read_u16le(b, pos + 1);
                if index < INPUT_OUTPUT_COUNT_MAX {
                    let item = UnlockBlock::Reference(ReferenceUnlock(index));
                    match decode_unlocks(b, pos + 3, n - 1) {
                        Ok((mut rest, end)) => {
                            let ghost rest0 = rest@;
                rest.insert(0, item);
                            proof {
                                assert(rest@.map_values(|x: UnlockBlock| x@) =~= seq![item@] + rest0.map_values(|x: UnlockBlock| x@));
                            }
                            Ok((rest, end))
                        },
                        Err(e) => Err(e),
                    }
                } else {
                    Err(Error::InvalidIndex)
                }
            } else {
                Err(Error::Io {})
            }
        } else {
            Err(Error::InvalidVariant)
        }
    } else {
        Err(Error::Io {})
    }
}

fn decode_signatures(b: &[u8], pos: usize, n: u8) -> (r: Result<(Vec<Vec<u8>>, usize), Error>)
    requires
        pos <= b@.len(),
    ensures
        match r {
            Ok((v, end)) => sdec_signatures(b@, pos as int, n as int) == Ok::<
                (Seq<Seq<u8>>, int),
                Error,
            >((v@.map_values(|x: Vec<u8>| x@), end as int)) && end <= b@.len(),
            Err(e) => sdec_signatures(b@, pos as int, n as int) == Err::<
                (Seq<Seq<u8>>, int),
                Error,
            >(e),
        },
    decreases n,
{
    if n == 0 {
        let v: Vec<Vec<u8>> = Vec::new();
        proof {
            assert(v@.map_values(|x: Vec<u8>| x@) =~= Seq::<Seq<u8>>::empty());
        }
        Ok((v, pos))
    } else if b.len() - pos >= 64 {
        let item = vstd::slice::slice_to_vec(vstd::slice::slice_subrange(b, pos, pos + 64));
        match decode_signatures(b, pos + 64, n - 1) {
            Ok((mut rest, end)) => {
                let ghost rest0 = rest@;
                rest.insert(0, item);
                proof {
                    assert(rest@.map_values(|x: Vec<u8>| x@) =~= seq![item@] + rest0.map_values(
                        |x: Vec<u8>| x@,
                    ));
                }
                Ok((rest, end))
            },
            Err(e) => Err(e),
        }
    } else {
        Err(Error::Io {})
    }
}

/// Parses a transaction payload body, which must be consumed exactly.
pub fn decode_transaction(b: &[u8]) -> (r: Result<TransactionPayload, Error>)
    ensures
        match r {
            Ok(t) => sdec_transaction(b@) == Ok::<TransactionPayloadV, Error>(t@),
            Err(e) => sdec_transaction(b@) == Err::<TransactionPayloadV, Error>(e),
        },
{
    if b.len() < 2 {
        return Err(Error::Io {});
    }
    let n_in = read_u16le(b, 0);
    if n_in > INPUT_OUTPUT_COUNT_MAX {
        return Err(Error::InvalidCount);
    }
    let (inputs, p1) = match decode_inputs(b, 2, n_in) {
        Ok(x) => x,
        Err(e) => {
            return Err(e);
        },
    };
    if b.len() - p1 < 2 {
        return Err(Error::Io {});
    }
    let n_out = read_u16le(b, p1);
    if n_out > INPUT_OUTPUT_COUNT_MAX {
        return Err(Error::InvalidCount);
    }
    let (outputs, p2) = match decode_outputs(b, p1 + 2, n_out) {
        Ok(x) => x,
        Err(e) => {
            return Err(e);
        },
    };
    if b.len() - p2 < 2 {
        return Err(Error::Io {});
    }
    let n_unlock = read_u16le(b, p2);
    if n_unlock > INPUT_OUTPUT_COUNT_MAX {
        return Err(Error::InvalidCount);
    }
    let (unlock_blocks, p3) = match decode_unlocks(b, p2 + 2, n_unlock) {
        Ok(x) => x,
        Err(e) => {
            return Err(e);
        },
    };
    if p3 != b.len() {
        return Err(Error::Io {});
    }
    Ok(TransactionPayload { inputs, outputs, unlock_blocks })
}

/// Parses a milestone payload body, which must be consumed exactly.
pub fn decode_milestone(b: &[u8]) -> (r: Result<MilestonePayload, Error>)
    ensures
        match r {
            Ok(m) => sdec_milestone(b@) == Ok::<MilestonePayloadV, Error>(m@),
            Err(e) => sdec_milestone(b@) == Err::<MilestonePayloadV, Error>(e),
        },
{
    if b.len() < 45 {
        return Err(Error::Io {});
    }
    let n = b[44];
    if b.len() - 45 != 64 * (n as usize) {
        return Err(Error::Io {});
    }
    let (signatures, _end) = match decode_signatures(b, 45, n) {
        Ok(x) => x,
        Err(e) => {
            return Err(e);
        },
    };
    let index = read_u32le(b, 0);
    let timestamp = read_u64le(b, 4);
    let inclusion_merkle_proof = read_bytes32(b, 12);
    Ok(MilestonePayload { index, timestamp, inclusion_merkle_proof, signatures })
}

/// Parses an indexation payload body, which must be consumed exactly.
pub fn decode_indexation(b: &[u8]) -> (r: Result<Indexation, Error>)
    ensures
        match r {
            Ok(i) => sdec_indexation(b@) == Ok::<IndexationV, Error>(i@),
            Err(e) => sdec_indexation(b@) == Err::<IndexationV, Error>(e),
        },
{
    if b.len() < 2 {
        return Err(Error::Io {});
    }
    let ilen = read_u16le(b, 0) as usize;
    if ilen == 0 {
        return Err(Error::EmptyIndex);
    }
    if b.len() < 2 + ilen + 4 {
        return Err(Error::Io {});
    }
    let ibytes = vstd::slice::slice_to_vec(vstd::slice::slice_subrange(b, 2, 2 + ilen));
    let index = match string_from_utf8(ibytes) {
        Some(s) => s,
        None => {
            return Err(Error::Utf8String {});
        },
    };
    proof {
        vstd::utf8::encode_utf8_decode_utf8(index@);
    }
    let dlen = read_u32le(b, 2 + ilen) as usize;
    if !(dlen <= DATA_LENGTH_MAX && b.len() == 6 + ilen + dlen) {
        return Err(Error::Io {});
    }
    let data = vstd::slice::slice_to_vec(vstd::slice::slice_subrange(b, 6 + ilen, b.len()));
    Ok(Indexation { index, data })
}

/// Parses a payload region (`u32_le kind | body`), consumed exactly.
pub fn decode_payload(b: &[u8]) -> (r: Result<Payload, Error>)
    ensures
        match r {
            Ok(p) => sdec_payload(b@) == Ok::<PayloadV, Error>(p@),
            Err(e) => sdec_payload(b@) == Err::<PayloadV, Error>(e),
        },
{
    if b.len() < 4 {
        return Err(Error::Io {});
    }
    let kind = read_u32le(b, 0);
    let body = vstd::slice::slice_subrange(b, 4, b.len());
    if kind == PAYLOAD_TRANSACTION_KIND {
        match decode_transaction(body) {
            Ok(t) => Ok(Payload::Transaction(t)),
            Err(e) => Err(e),
        }
    } else if kind == PAYLOAD_MILESTONE_KIND {
        match decode_milestone(body) {
            Ok(m) => Ok(Payload::Milestone(m)),
            Err(e) => Err(e),
        }
    } else if kind == PAYLOAD_INDEXATION_KIND {
        match decode_indexation(body) {
            Ok(i) => Ok(Payload::Indexation(i)),
            Err(e) => Err(e),
        }
    } else {
        Err(Error::InvalidVariant)
    }
}

impl Message {
    /// Parses a whole message from its canonical byte encoding; the input
    /// must be consumed exactly.
    pub fn unpack(b: &[u8]) -> (r: Result<Message, Error>)
        ensures
            match r {
                Ok(m) => sdec_message(b@) == Ok::<MessageV, Error>(m@),
                Err(e) => sdec_message(b@) == Err::<MessageV, Error>(e),
            },
    {
        if b.len() < 84 {
            return Err(Error::Io {});
        }
        let plen = read_u32le(b, 72) as usize;
        if b.len() - 84 != plen {
            return Err(Error::Io {});
        }
        let network_id = read_u64le(b, 0);
        let parent1 = MessageId::new(read_bytes32(b, 8));
        let parent2 = MessageId::new(read_bytes32(b, 40));
        let nonce = read_u64le(b, 76 + plen);
        let payload = if plen == 0 {
            None
        } else {
            let region = vstd::slice::slice_subrange(b, 76, 76 + plen);
            match decode_payload(region) {
                Ok(p) => Some(p),
                Err(e) => {
                    return Err(e);
                },
            }
        };
        let m = Message { network_id, parent1, parent2, payload, nonce };
        Ok(m)
    }
}

/// The BLAKE2b-256 hash of an indexation index string.
#[derive(Clone, Copy, Debug, PartialEq, Eq)]
pub struct HashedIndex(pub [u8; 32]);

impl View for HashedIndex {
    type V = Seq<u8>;

    open spec fn view(&self) -> Seq<u8> {
        self.0@
    }
}

impl Indexation {
    /// Builds an indexation payload; rejects an empty index, an index whose
    /// UTF-8 form exceeds `u16::MAX` bytes, and data beyond
    /// `DATA_LENGTH_MAX`.
    pub fn new(index: String, data: &[u8]) -> (r: Result<Indexation, Error>)
        ensures
            match r {
                Ok(ix) => ix@.index == index@ && ix@.data == data@ && ix@.wf(),
                Err(Error::EmptyIndex) => index@.len() == 0,
                Err(Error::IndexTooLarge) => vstd::utf8::encode_utf8(index@).len() > 0xFFFF,
                Err(Error::DataTooLarge) => data@.len() > DATA_LENGTH_MAX,
                Err(_) => false,
            },
            index@.len() == 0 ==> r == Err::<Indexation, Error>(Error::EmptyIndex),
    {
        proof {
            lemma_encode_utf8_empty(index@);
        }
        let ibytes_len = index.as_str().as_bytes().len();
        if ibytes_len == 0 {
            return Err(Error::EmptyIndex);
        }
        if ibytes_len > 0xFFFF {
            return Err(Error::IndexTooLarge);
        }
        if data.len() > DATA_LENGTH_MAX {
            return Err(Error::DataTooLarge);
        }
        Ok(Indexation { index, data: vstd::slice::slice_to_vec(data) })
    }

    /// The index string.
    pub fn index(&self) -> (r: &str)
        ensures
            r@ == self@.index,
    {
        self.index.as_str()
    }

    /// The data bytes.
    pub fn data(&self) -> (r: &[u8])
        ensures
            r@ == self@.data,
    {
        self.data.as_slice()
    }

    /// The BLAKE2b-256 hash of the index string's UTF-8 form.
    pub fn hash(&self) -> (r: HashedIndex)
        ensures
            r@ == crate::digests::blake2b256_of(vstd::utf8::encode_utf8(self@.index)),
    {
        HashedIndex(crate::digests::blake2b256(self.index.as_str().as_bytes()))
    }

    /// The length of the serialized payload body.
    pub fn packed_len(&self) -> (r: usize)
        requires
            self@.wf(),
        ensures
            r == self@.enc().len(),
    {
        2 + self.index.as_str().as_bytes().len() + 4 + self.data.len()
    }

    /// Serializes the payload body.
    pub fn pack_new(&self) -> (r: Vec<u8>)
        requires
            self@.wf(),
        ensures
            r@ == self@.enc(),
    {
        let mut out: Vec<u8> = Vec::new();
        encode_indexation(&mut out, self);
        proof {
            assert(out@ =~= self@.enc());
        }
        out
    }

    /// Parses a payload body, which must be consumed exactly.
    pub fn unpack(b: &[u8]) -> (r: Result<Indexation, Error>)
        ensures
            match r {
                Ok(i) => sdec_indexation(b@) == Ok::<IndexationV, Error>(i@),
                Err(e) => sdec_indexation(b@) == Err::<IndexationV, Error>(e),
            },
    {
        decode_indexation(b)
    }
}

/// A character sequence has an empty UTF-8 form exactly when it is empty.
proof fn lemma_encode_utf8_empty(s: Seq<char>)
    ensures
        vstd::utf8::encode_utf8(s).len() == 0 <==> s.len() == 0,
{
    if s.len() != 0 {
        assert(vstd::utf8::encode_utf8(s) == vstd::utf8::encode_scalar(s[0] as u32)
            + vstd::utf8::encode_utf8(s.drop_first()));
        assert(vstd::utf8::encode_scalar(s[0] as u32).len() >= 1);
    }
}
} // verus!
