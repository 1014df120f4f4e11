//! Plain response and transfer types for the node's query surface.  The
//! application crate wraps them for its wire formats; here they are bare
//! values.

use vstd::prelude::*;

verus! {

/// Marker trait for data bodies a response can carry.
pub trait DataBody {
}

/// A successful response carrying one body.
pub struct DataResponse<T: DataBody> {
    pub data: T,
}

impl<T: DataBody> DataResponse<T> {
    /// Wraps a body.
    pub fn new(data: T) -> (r: Self)
        ensures
            r.data == data,
    {
        Self { data }
    }

    /// The body of the response.
    pub fn body(&self) -> (r: &T)
        ensures
            r == &self.data,
    {
        &self.data
    }
}

/// The payload of a failed request.
pub struct ErrorBody {
    pub code: String,
    pub message: String,
}

/// A failed response.
pub struct ErrorResponse {
    pub error: ErrorBody,
}

impl ErrorResponse {
    /// Wraps an error body.
    pub fn new(error: ErrorBody) -> (r: Self)
        ensures
            r.error == error,
    {
        Self { error }
    }

    /// The body of the response.
    pub fn body(&self) -> (r: &ErrorBody)
        ensures
            r == &self.error,
    {
        &self.error
    }
}

/// General node information.
pub struct GetInfoResponse {
    pub name: String,
    pub version: String,
    pub is_healthy: bool,
    pub network_id: u8,
    pub latest_milestone_id: String,
    pub latest_milestone_index: u32,
    pub solid_milestone_id: String,
    pub solid_milestone_index: u32,
    pub pruning_index: u32,
    pub features: Vec<String>,
}

impl DataBody for GetInfoResponse {
}

/// A pair of tips to attach to.
pub struct GetTipsResponse {
    pub tip_1_message_id: String,
    pub tip_2_message_id: String,
}

impl DataBody for GetTipsResponse {
}

/// One message, in transfer form.
pub struct GetMessageResponse(pub MessageDto);

impl DataBody for GetMessageResponse {
}

/// A message, field by field, in text form.
pub struct MessageDto {
    pub version: u32,
    pub parent_1_message_id: String,
    pub parent_2_message_id: String,
    pub payload: Option<PayloadDto>,
    pub nonce: u64,
}

/// A payload, in transfer form.
pub enum PayloadDto {
    Transaction(TransactionPayloadDto),
    Indexation(IndexationPayloadDto),
    Milestone(MilestonePayloadDto),
}

pub struct TransactionPayloadDto {
    pub kind: u32,
    pub essence: TransactionEssenceDto,
    pub unlock_blocks: Vec<UnlockBlockDto>,
}

pub struct TransactionEssenceDto {
    pub kind: u32,
    pub inputs: Vec<UtxoInputDto>,
    pub outputs: Vec<SigLockedSingleOutputDto>,
    pub payload: Option<IndexationPayloadDto>,
}

pub struct UtxoInputDto {
    pub kind: u32,
    pub transaction_id: String,
    pub transaction_output_index: u16,
}

pub struct SigLockedSingleOutputDto {
    pub kind: u32,
    pub address: Ed25519AddressDto,
    pub amount: u32,
}

pub struct Ed25519AddressDto {
    pub kind: u32,
    pub address: String,
}

pub enum UnlockBlockDto {
    Signature(SignatureUnlockBlockDto),
    Reference(ReferenceUnlockBlockDto),
}

pub struct SignatureUnlockBlockDto {
    pub kind: u32,
    pub signature: Ed25519SignatureDto,
}

pub struct Ed25519SignatureDto {
    pub kind: u32,
    pub public_key: String,
    pub signature: String,
}

pub struct ReferenceUnlockBlockDto {
    pub kind: u32,
    pub reference: u16,
}

pub struct IndexationPayloadDto {
    pub kind: u32,
    pub index: String,
    pub data: String,
}

pub struct MilestonePayloadDto {
    pub kind: u32,
    pub index: u32,
    pub timestamp: u64,
    pub inclusion_merkle_proof: String,
    pub signatures: Vec<String>,
}

/// The known children of one message.
pub struct GetChildrenResponse {
    pub message_id: String,
    pub max_results: usize,
    pub count: usize,
    pub children_message_ids: Vec<String>,
}

impl DataBody for GetChildrenResponse {
}

/// One milestone.
pub struct GetMilestoneResponse {
    pub milestone_index: u32,
    pub message_id: String,
    pub timestamp: u64,
}

impl DataBody for GetMilestoneResponse {
}

} // verus!
