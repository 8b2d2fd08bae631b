//! The consuming half: claiming the next frame and turning it into a
//! delivery.

use crate::acker::{AckerView, RedisFallbackAcker};
use crate::codec::{internal_from_list, parse_frame, InternalPayloadOwned, RawPayload};
use crate::command::{copy_frame, copy_key, Command, CommandView};
use crate::delivery::{Delivery, DeliveryView};
use crate::error::QueueError;
use crate::queue::{DynConsumer, QueueConsumer};
use vstd::prelude::*;

verus! {

/// What a consumer knows of its queue.
#[derive(Debug, PartialEq, Eq)]
pub struct RedisConsumer {
    pub queue_key: String,
    pub processing_queue_key: String,
    pub max_receives: usize,
    pub reinsert_on_nack: bool,
}

/// A consumer as a mathematical value.
pub struct ConsumerView {
    pub queue_key: Seq<char>,
    pub processing_queue_key: Seq<char>,
    pub max_receives: nat,
    pub reinsert_on_nack: bool,
}

impl View for RedisConsumer {
    type V = ConsumerView;

    open spec fn view(&self) -> ConsumerView {
        ConsumerView {
            queue_key: self.queue_key@,
            processing_queue_key: self.processing_queue_key@,
            max_receives: self.max_receives as nat,
            reinsert_on_nack: self.reinsert_on_nack,
        }
    }
}

impl ConsumerView {
    /// The command that claims the next frame: it moves the tail of the main
    /// list to the processing list, in one step.
    pub open spec fn claim(self, timeout_ms: nat) -> CommandView {
        CommandView::BRPopLPush {
            source: self.queue_key,
            destination: self.processing_queue_key,
            timeout_ms,
        }
    }

    /// The delivery of a decoded frame. Its acker keeps the frame as it was
    /// stored.
    pub open spec fn delivery(self, bytes: Seq<u8>, attempts: nat, frame: Seq<u8>) -> DeliveryView {
        DeliveryView {
            payload: Some(bytes),
            acker: AckerView {
                queue_key: self.queue_key,
                processing_queue_key: self.processing_queue_key,
                old_payload: frame,
                already_acked_or_nacked: false,
                max_receives: self.max_receives,
                num_receives: attempts,
                reinsert_on_nack: self.reinsert_on_nack,
            },
        }
    }

    /// What a claim that ended with `reply` amounts to: a failure of the
    /// server, nothing within the timeout, a delivery, or a stored value that
    /// is no frame.
    pub open spec fn claimed(self, reply: Result<Option<Seq<u8>>, String>) -> Result<
        Option<DeliveryView>,
        QueueError,
    > {
        match reply {
            Err(message) => Err(QueueError::Generic(message)),
            Ok(None) => Ok(None),
            Ok(Some(frame)) => match parse_frame(frame) {
                Some((bytes, attempts)) => Ok(Some(self.delivery(bytes, attempts, frame))),
                None => Err(QueueError::MalformedFrame),
            },
        }
    }
}

/// The reply to a claim, with the frame as a sequence of bytes.
pub open spec fn reply_view(reply: Result<Option<RawPayload>, String>) -> Result<
    Option<Seq<u8>>,
    String,
> {
    match reply {
        Ok(Some(frame)) => Ok(Some(frame@)),
        Ok(None) => Ok(None),
        Err(message) => Err(message),
    }
}

fn claim(consumer: &RedisConsumer, timeout_ms: u64) -> (command: Command)
    ensures
        command@ == consumer@.claim(timeout_ms as nat),
{
    Command::BRPopLPush {
        source: copy_key(consumer.queue_key.as_str()),
        destination: copy_key(consumer.processing_queue_key.as_str()),
        timeout_ms,
    }
}

/// The command of `receive`: a claim that waits for a frame without end.
pub fn receive_command(consumer: &RedisConsumer) -> (command: Command)
    ensures
        command@ == consumer@.claim(0),
{
    claim(consumer, 0)
}

/// The command of `receive_all`: one claim that waits up to the deadline. The
/// engine claims one frame for each call, whatever `_max_messages` is.
pub fn receive_all_command(
    consumer: &RedisConsumer,
    deadline_ms: u64,
    _max_messages: usize,
) -> (command: Command)
    ensures
        command@ == consumer@.claim(deadline_ms as nat),
{
    claim(consumer, deadline_ms)
}

/// Builds the delivery of a decoded frame. The acker gets the frame as it was
/// stored, the consumer's processing list and its limit of deliveries.
pub fn internal_to_delivery(
    internal: InternalPayloadOwned,
    consumer: &RedisConsumer,
    old_payload: Vec<u8>,
) -> (delivery: Result<Delivery, QueueError>)
    ensures
        delivery matches Ok(d) && d@ == consumer@.delivery(
            internal.0@,
            internal.1 as nat,
            old_payload@,
        ),
{
    let (payload, num_receives) = internal;
    Ok(
        Delivery::new(
            payload,
            RedisFallbackAcker {
                queue_key: copy_key(consumer.queue_key.as_str()),
                processing_queue_key: copy_key(consumer.processing_queue_key.as_str()),
                old_payload,
                already_acked_or_nacked: false,
                max_receives: consumer.max_receives,
                num_receives,
                reinsert_on_nack: consumer.reinsert_on_nack,
            },
        ),
    )
}

/// Takes the reply to a claim. A frame is decoded into a delivery; no frame
/// within the timeout is no delivery; a failure of the server is handed on.
pub fn receive_with_timeout(
    consumer: &RedisConsumer,
    reply: Result<Option<RawPayload>, String>,
) -> (claimed: Result<Option<Delivery>, QueueError>)
    ensures
        match consumer@.claimed(reply_view(reply)) {
            Ok(Some(expected)) => claimed matches Ok(Some(d)) && d@ == expected,
            Ok(None) => claimed matches Ok(None),
            Err(e) => claimed matches Err(f) && f == e,
        },
{
    match reply {
        Err(message) => Err(QueueError::Generic(message)),
        Ok(None) => Ok(None),
        Ok(Some(old_payload)) => {
            let decoded = internal_from_list(old_payload.as_slice());
            match decoded {
                Ok((payload, num_receives)) => {
                    let owned = copy_frame(payload);
                    match internal_to_delivery((owned, num_receives), consumer, old_payload) {
                        Ok(delivery) => Ok(Some(delivery)),
                        Err(e) => Err(e),
                    }
                },
                Err(e) => Err(e),
            }
        },
    }
}

/// Takes the reply to the command of `receive`: the delivery, or `NoData`
/// where the claim came back empty.
pub fn receive(
    consumer: &RedisConsumer,
    reply: Result<Option<RawPayload>, String>,
) -> (received: Result<Delivery, QueueError>)
    ensures
        match consumer@.claimed(reply_view(reply)) {
            Ok(Some(expected)) => received matches Ok(d) && d@ == expected,
            Ok(None) => received matches Err(QueueError::NoData),
            Err(e) => received matches Err(f) && f == e,
        },
{
    match receive_with_timeout(consumer, reply) {
        Ok(Some(delivery)) => Ok(delivery),
        Ok(None) => Err(QueueError::NoData),
        Err(e) => Err(e),
    }
}

/// Takes the reply to the command of `receive_all`: the one delivery, or none
/// where the claim came back empty.
pub fn receive_all(
    consumer: &RedisConsumer,
    reply: Result<Option<RawPayload>, String>,
) -> (received: Result<Vec<Delivery>, QueueError>)
    ensures
        match consumer@.claimed(reply_view(reply)) {
            Ok(Some(expected)) => received matches Ok(ds) && ds@.len() == 1 && ds@[0]@ == expected,
            Ok(None) => received matches Ok(ds) && ds@.len() == 0,
            Err(e) => received matches Err(f) && f == e,
        },
{
    match receive_with_timeout(consumer, reply) {
        Ok(Some(delivery)) => {
            let mut deliveries: Vec<Delivery> = Vec::new();
            deliveries.push(delivery);
            Ok(deliveries)
        },
        Ok(None) => Ok(Vec::new()),
        Err(e) => Err(e),
    }
}

impl QueueConsumer for RedisConsumer {
    open spec fn request(&self) -> CommandView {
        self@.claim(0)
    }

    open spec fn batch_request(&self, max_messages: usize, deadline_ms: u64) -> CommandView {
        self@.claim(deadline_ms as nat)
    }

    open spec fn delivered(&self, reply: Result<Option<Seq<u8>>, String>) -> Result<
        Option<DeliveryView>,
        QueueError,
    > {
        self@.claimed(reply)
    }

    open spec fn batch_limit(&self) -> Option<usize> {
        None
    }

    fn receive_command(&self) -> (command: Command) {
        receive_command(self)
    }

    fn receive(&self, reply: Result<Option<RawPayload>, String>) -> (received: Result<
        Delivery,
        QueueError,
    >) {
        receive(self, reply)
    }

    fn receive_all_command(&self, max_messages: usize, deadline_ms: u64) -> (command: Command) {
        receive_all_command(self, deadline_ms, max_messages)
    }

    fn receive_all(&self, reply: Result<Option<RawPayload>, String>) -> (received: Result<
        Vec<Delivery>,
        QueueError,
    >) {
        receive_all(self, reply)
    }

    fn max_messages(&self) -> (most: Option<usize>) {
        None
    }
}

impl RedisConsumer {
    /// This consumer, with its type erased.
    pub fn into_dyn(self) -> (erased: DynConsumer)
        ensures
            erased.wraps(self),
    {
        DynConsumer::new(self)
    }
}

} // verus!
