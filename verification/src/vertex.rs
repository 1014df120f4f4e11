//! A vertex value pairing one immutable message with caller-chosen
//! metadata.

use vstd::prelude::*;
use crate::ids::MessageId;
use crate::message::Message;

verus! {

/// A message with its metadata.
pub struct Vertex<T> {
    pub message: Message,
    pub metadata: T,
}

impl<T> Vertex<T> {
    /// Pairs a message with its metadata.
    pub fn new(message: Message, metadata: T) -> (r: Self)
        ensures
            r.message == message,
            r.metadata == metadata,
    {
        Self { message, metadata }
    }

    /// The message.
    pub fn message(&self) -> (r: &Message)
        ensures
            r == &self.message,
    {
        &self.message
    }

    /// The metadata.
    pub fn metadata(&self) -> (r: &T)
        ensures
            r == &self.metadata,
    {
        &self.metadata
    }

    /// The metadata, for updating in place.
    pub fn metadata_mut(&mut self) -> (r: &mut T)
        ensures
            *r == old(self).metadata,
            *final(self) == (Vertex { metadata: *final(r), ..*old(self) }),
    {
        &mut self.metadata
    }

    /// The first parent reference of the message.
    pub fn parent1(&self) -> (r: &MessageId)
        ensures
            r@ == self.message@.parent1,
    {
        self.message.parent1()
    }

    /// The second parent reference of the message.
    pub fn parent2(&self) -> (r: &MessageId)
        ensures
            r@ == self.message@.parent2,
    {
        self.message.parent2()
    }
}

} // verus!
