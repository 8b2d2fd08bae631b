//! A delivery: one payload handed to a consumer, with what finalizes it.

use crate::acker::{AckerView, RedisFallbackAcker};
use crate::command::Command;
use crate::error::QueueError;
use vstd::prelude::*;

verus! {

/// A payload taken from the queue, not yet acknowledged.
#[derive(Debug, PartialEq, Eq)]
pub struct Delivery {
    pub payload: Option<Vec<u8>>,
    pub acker: RedisFallbackAcker,
}

/// A delivery as a mathematical value.
pub struct DeliveryView {
    pub payload: Option<Seq<u8>>,
    pub acker: AckerView,
}

impl View for Delivery {
    type V = DeliveryView;

    open spec fn view(&self) -> DeliveryView {
        DeliveryView {
            payload: match self.payload {
                Some(bytes) => Some(bytes@),
                None => None,
            },
            acker: self.acker@,
        }
    }
}

impl Delivery {
    /// A delivery of `payload` that `acker` finalizes.
    pub fn new(payload: Vec<u8>, acker: RedisFallbackAcker) -> (delivery: Delivery)
        ensures
            delivery@ == (DeliveryView { payload: Some(payload@), acker: acker@ }),
    {
        Delivery { payload: Some(payload), acker }
    }

    /// The payload, unless it was taken.
    pub fn borrow_payload(&self) -> (payload: Option<&[u8]>)
        ensures
            match self@.payload {
                Some(bytes) => payload matches Some(p) && p@ == bytes,
                None => payload.is_none(),
            },
    {
        match &self.payload {
            Some(bytes) => Some(bytes.as_slice()),
            None => None,
        }
    }

    /// Takes the payload out of the delivery, which keeps none.
    pub fn take_payload(&mut self) -> (payload: Option<Vec<u8>>)
        ensures
            final(self)@ == (DeliveryView { payload: None, acker: old(self)@.acker }),
            match old(self)@.payload {
                Some(bytes) => payload matches Some(p) && p@ == bytes,
                None => payload.is_none(),
            },
    {
        self.payload.take()
    }

    /// Starts the acknowledgement of this delivery, as its acker does.
    pub fn ack(&self) -> (command: Result<Command, QueueError>)
        ensures
            match self@.acker.ack() {
                Ok(expected) => command matches Ok(c) && c@ == expected,
                Err(e) => command == Err::<Command, QueueError>(e),
            },
    {
        self.acker.ack()
    }

    /// Rejects this delivery, as its acker does.
    pub fn nack(&mut self) -> (command: Result<Option<Command>, QueueError>)
        ensures
            final(self)@ == (DeliveryView {
                payload: old(self)@.payload,
                acker: old(self)@.acker.after_nack(),
            }),
            old(self)@.acker.nacks(
                match command {
                    Ok(Some(c)) => Ok(Some(c@)),
                    Ok(None) => Ok(None),
                    Err(e) => Err(e),
                },
            ),
    {
        self.acker.nack()
    }

    /// Ends the acknowledgement or rejection of this delivery, as its acker
    /// does.
    pub fn finalize(&mut self, outcome: Result<(), String>) -> (done: Result<(), QueueError>)
        ensures
            final(self)@ == (DeliveryView {
                payload: old(self)@.payload,
                acker: old(self)@.acker.after(outcome),
            }),
            done == old(self)@.acker.finalize(outcome),
    {
        self.acker.finalize(outcome)
    }
}

} // verus!
