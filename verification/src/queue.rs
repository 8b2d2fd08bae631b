//! The consumer surface that applications program against, and its
//! type-erased form.

use crate::codec::RawPayload;
use crate::command::{Command, CommandView};
use crate::consumer::reply_view;
use crate::delivery::{Delivery, DeliveryView};
use crate::error::QueueError;
use vstd::prelude::*;

verus! {

/// The smaller of a wanted batch size and what the backend allows.
pub open spec fn clamped(max_messages: usize, backend_max: Option<usize>) -> usize {
    match backend_max {
        Some(most) => if max_messages < most {
            max_messages
        } else {
            most
        },
        None => max_messages,
    }
}

/// A consumer of a queue. Receiving is a command for the server and the
/// handling of its reply.
pub trait QueueConsumer: Sized {
    /// The command of a receive.
    spec fn request(&self) -> CommandView;

    /// The command of a receive of up to `max_messages` within
    /// `deadline_ms`.
    spec fn batch_request(&self, max_messages: usize, deadline_ms: u64) -> CommandView;

    /// What a reply amounts to.
    spec fn delivered(&self, reply: Result<Option<Seq<u8>>, String>) -> Result<
        Option<DeliveryView>,
        QueueError,
    >;

    /// The largest batch that the backend accepts, if it has a limit.
    spec fn batch_limit(&self) -> Option<usize>;

    /// The command that claims the next message.
    fn receive_command(&self) -> (command: Command)
        ensures
            command@ == self.request(),
    ;

    /// Takes the reply to the command of `receive_command`: the delivery, or
    /// `NoData` where there was none.
    fn receive(&self, reply: Result<Option<RawPayload>, String>) -> (received: Result<
        Delivery,
        QueueError,
    >)
        ensures
            match self.delivered(reply_view(reply)) {
                Ok(Some(expected)) => received matches Ok(d) && d@ == expected,
                Ok(None) => received matches Err(QueueError::NoData),
                Err(e) => received matches Err(f) && f == e,
            },
    ;

    /// The command that claims up to `max_messages`, waiting up to
    /// `deadline_ms`.
    fn receive_all_command(&self, max_messages: usize, deadline_ms: u64) -> (command: Command)
        ensures
            command@ == self.batch_request(max_messages, deadline_ms),
    ;

    /// Takes the reply to the command of `receive_all_command`: the
    /// deliveries, none where nothing came within the deadline.
    fn receive_all(&self, reply: Result<Option<RawPayload>, String>) -> (received: Result<
        Vec<Delivery>,
        QueueError,
    >)
        ensures
            match self.delivered(reply_view(reply)) {
                Ok(Some(expected)) => received matches Ok(ds) && ds@.len() == 1 && ds@[0]@
                    == expected,
                Ok(None) => received matches Ok(ds) && ds@.len() == 0,
                Err(e) => received matches Err(f) && f == e,
            },
    ;

    /// The largest number that may be passed as `max_messages` to
    /// `receive_all_command`, if the backend has a limit; it is never zero.
    fn max_messages(&self) -> (most: Option<usize>)
        ensures
            most == self.batch_limit(),
            most matches Some(n) ==> n > 0,
    ;
}

/// The same surface for a consumer whose type is erased, so that a consumer
/// of any type can stand behind one pointer.
pub trait ErasedQueueConsumer {
    spec fn request(&self) -> CommandView;

    spec fn batch_request(&self, max_messages: usize, deadline_ms: u64) -> CommandView;

    spec fn delivered(&self, reply: Result<Option<Seq<u8>>, String>) -> Result<
        Option<DeliveryView>,
        QueueError,
    >;

    spec fn batch_limit(&self) -> Option<usize>;

    fn receive_command(&self) -> (command: Command)
        ensures
            command@ == self.request(),
    ;

    fn receive(&self, reply: Result<Option<RawPayload>, String>) -> (received: Result<
        Delivery,
        QueueError,
    >)
        ensures
            match self.delivered(reply_view(reply)) {
                Ok(Some(expected)) => received matches Ok(d) && d@ == expected,
                Ok(None) => received matches Err(QueueError::NoData),
                Err(e) => received matches Err(f) && f == e,
            },
    ;

    fn receive_all_command(&self, max_messages: usize, deadline_ms: u64) -> (command: Command)
        ensures
            command@ == self.batch_request(max_messages, deadline_ms),
    ;

    fn receive_all(&self, reply: Result<Option<RawPayload>, String>) -> (received: Result<
        Vec<Delivery>,
        QueueError,
    >)
        ensures
            match self.delivered(reply_view(reply)) {
                Ok(Some(expected)) => received matches Ok(ds) && ds@.len() == 1 && ds@[0]@
                    == expected,
                Ok(None) => received matches Ok(ds) && ds@.len() == 0,
                Err(e) => received matches Err(f) && f == e,
            },
    ;

    fn max_messages(&self) -> (most: Option<usize>)
        ensures
            most == self.batch_limit(),
            most matches Some(n) ==> n > 0,
    ;
}

/// A consumer behind the erased surface.
pub struct DynConsumerInner<C> {
    pub inner: C,
}

impl<C: QueueConsumer> ErasedQueueConsumer for DynConsumerInner<C> {
    open spec fn request(&self) -> CommandView {
        self.inner.request()
    }

    open spec fn batch_request(&self, max_messages: usize, deadline_ms: u64) -> CommandView {
        self.inner.batch_request(max_messages, deadline_ms)
    }

    open spec fn delivered(&self, reply: Result<Option<Seq<u8>>, String>) -> Result<
        Option<DeliveryView>,
        QueueError,
    > {
        self.inner.delivered(reply)
    }

    open spec fn batch_limit(&self) -> Option<usize> {
        self.inner.batch_limit()
    }

    fn receive_command(&self) -> (command: Command) {
        self.inner.receive_command()
    }

    fn receive(&self, reply: Result<Option<RawPayload>, String>) -> (received: Result<
        Delivery,
        QueueError,
    >) {
        self.inner.receive(reply)
    }

    fn receive_all_command(&self, max_messages: usize, deadline_ms: u64) -> (command: Command) {
        self.inner.receive_all_command(max_messages, deadline_ms)
    }

    fn receive_all(&self, reply: Result<Option<RawPayload>, String>) -> (received: Result<
        Vec<Delivery>,
        QueueError,
    >) {
        self.inner.receive_all(reply)
    }

    fn max_messages(&self) -> (most: Option<usize>) {
        self.inner.max_messages()
    }
}

/// A consumer of whatever backend is in use.
pub struct DynConsumer(pub Box<dyn ErasedQueueConsumer>);

impl DynConsumer {
    /// This consumer answers as `inner` does, but that a batch is never
    /// asked for beyond what `inner` allows.
    pub open spec fn wraps<C: QueueConsumer>(&self, inner: C) -> bool {
        &&& self.0.request() == inner.request()
        &&& self.0.batch_limit() == inner.batch_limit()
        &&& forall|max_messages: usize, deadline_ms: u64| #[trigger]
            self.0.batch_request(max_messages, deadline_ms) == inner.batch_request(
                max_messages,
                deadline_ms,
            )
        &&& forall|reply: Result<Option<Seq<u8>>, String>| #[trigger]
            self.0.delivered(reply) == inner.delivered(reply)
    }

    /// A type-erased consumer is its own erased form.
    pub fn into_dyn(self) -> (erased: DynConsumer)
        ensures
            erased == self,
    {
        self
    }

    /// Erases the type of `inner`.
    pub fn new<C: QueueConsumer + 'static>(inner: C) -> (erased: DynConsumer)
        ensures
            erased.wraps(inner),
    {
        let c = DynConsumerInner { inner };
        DynConsumer(Box::new(c))
    }
}

impl QueueConsumer for DynConsumer {
    open spec fn request(&self) -> CommandView {
        self.0.request()
    }

    open spec fn batch_request(&self, max_messages: usize, deadline_ms: u64) -> CommandView {
        self.0.batch_request(clamped(max_messages, self.0.batch_limit()), deadline_ms)
    }

    open spec fn delivered(&self, reply: Result<Option<Seq<u8>>, String>) -> Result<
        Option<DeliveryView>,
        QueueError,
    > {
        self.0.delivered(reply)
    }

    open spec fn batch_limit(&self) -> Option<usize> {
        self.0.batch_limit()
    }

    fn receive_command(&self) -> (command: Command) {
        self.0.receive_command()
    }

    fn receive(&self, reply: Result<Option<RawPayload>, String>) -> (received: Result<
        Delivery,
        QueueError,
    >) {
        self.0.receive(reply)
    }

    /// Unlike the same method of a backend's own consumer, this one clamps
    /// `max_messages` to what the backend allows, so that a caller need not
    /// know which backend is in use.
    fn receive_all_command(&self, max_messages: usize, deadline_ms: u64) -> (command: Command) {
        let max_messages = match self.max_messages() {
            Some(backend_max) => if max_messages < backend_max {
                max_messages
            } else {
                backend_max
            },
            None => max_messages,
        };
        self.0.receive_all_command(max_messages, deadline_ms)
    }

    fn receive_all(&self, reply: Result<Option<RawPayload>, String>) -> (received: Result<
        Vec<Delivery>,
        QueueError,
    >) {
        self.0.receive_all(reply)
    }

    fn max_messages(&self) -> (most: Option<usize>) {
        self.0.max_messages()
    }
}

} // verus!
