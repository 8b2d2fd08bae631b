//! Configuring the engine: from the options of a queue to its producer,
//! consumer, reaper and promoter.

use crate::command::copy_key;
use crate::consumer::{ConsumerView, RedisConsumer};
use crate::error::QueueError;
use crate::producer::{ProducerView, RedisProducer};
use crate::promoter::{Promoter, PromoterView};
use crate::reaper::{
    background_task_processing, dlq_view, DeadLetterQueueConfig, Reaper, ReaperView,
};
use vstd::prelude::*;

verus! {

/// The limit of deliveries where no dead-letter queue is configured: none
/// that a message reaches.
pub const DEFAULT_MAX_RECEIVES: usize = usize::MAX;

/// The options of a queue.
#[derive(Debug, PartialEq, Eq)]
pub struct RedisConfig {
    /// Where the server is.
    pub dsn: String,
    /// How many connections the pool holds.
    pub max_connections: u16,
    /// Whether a rejected frame goes back to the main list at once.
    pub reinsert_on_nack: bool,
    /// The main list.
    pub queue_key: String,
    /// The delayed set.
    pub delayed_queue_key: String,
    /// The lock of the delayed set.
    pub delayed_lock_key: String,
    /// Read by the streams engine only.
    pub consumer_group: String,
    /// Read by the streams engine only.
    pub consumer_name: String,
    /// Read by the streams engine only.
    pub payload_key: String,
    /// How long a delivery may stay unfinalized, in milliseconds.
    pub ack_deadline_ms: i64,
    /// Where exhausted messages go, if anywhere.
    pub dlq_config: Option<DeadLetterQueueConfig>,
}

/// The backend of queues over plain lists.
#[derive(Debug, PartialEq, Eq)]
pub struct RedisBackend;

/// A configuration on its way to a producer and a consumer.
#[derive(Debug, PartialEq, Eq)]
pub struct RedisBackendBuilder {
    pub config: RedisConfig,
    pub use_redis_streams: bool,
}

/// What is appended to the key of the main list for the key of the
/// processing list.
pub open spec fn processing_suffix() -> Seq<char> {
    "::processing"@
}

/// Calls `String::push_str`: the result is `head` followed by `tail`.
#[verifier::external_body]
pub(crate) fn joined(head: String, tail: &str) -> (whole: String)
    ensures
        whole@ == head@ + tail@,
{
    let mut whole = head;
    whole.push_str(tail);
    whole
}

fn copy_dlq(dlq_config: &Option<DeadLetterQueueConfig>) -> (copy: Option<DeadLetterQueueConfig>)
    ensures
        dlq_view(copy) == dlq_view(*dlq_config),
{
    match dlq_config {
        Some(dlq) => Some(
            DeadLetterQueueConfig {
                queue_key: copy_key(dlq.queue_key.as_str()),
                max_receives: dlq.max_receives,
            },
        ),
        None => None,
    }
}

impl RedisConfig {
    /// The key of the processing list.
    pub open spec fn processing_key(self) -> Seq<char> {
        self.queue_key@ + processing_suffix()
    }

    /// The limit of deliveries.
    pub open spec fn max_receives(self) -> nat {
        match self.dlq_config {
            Some(dlq) => dlq.max_receives as nat,
            None => DEFAULT_MAX_RECEIVES as nat,
        }
    }

    /// The producer of this configuration.
    pub open spec fn producer(self) -> ProducerView {
        ProducerView {
            queue_key: self.queue_key@,
            delayed_queue_key: self.delayed_queue_key@,
            dlq_config: dlq_view(self.dlq_config),
        }
    }

    /// The consumer of this configuration.
    pub open spec fn consumer(self) -> ConsumerView {
        ConsumerView {
            queue_key: self.queue_key@,
            processing_queue_key: self.processing_key(),
            max_receives: self.max_receives(),
            reinsert_on_nack: self.reinsert_on_nack,
        }
    }

    /// The reaper of this configuration.
    pub open spec fn reaper(self) -> ReaperView {
        ReaperView {
            queue_key: self.queue_key@,
            processing_queue_key: self.processing_key(),
            ack_deadline_ms: self.ack_deadline_ms as nat,
            dlq_config: dlq_view(self.dlq_config),
        }
    }

    /// The promoter of this configuration.
    pub open spec fn promoter(self) -> PromoterView {
        PromoterView {
            queue_key: self.queue_key@,
            delayed_queue_key: self.delayed_queue_key@,
            delayed_lock_key: self.delayed_lock_key@,
        }
    }
}

impl RedisBackend {
    /// Starts from a configuration; the list engine is selected.
    pub fn builder(config: RedisConfig) -> (builder: RedisBackendBuilder)
        ensures
            builder == (RedisBackendBuilder { config, use_redis_streams: false }),
    {
        RedisBackendBuilder { config, use_redis_streams: false }
    }
}

impl RedisBackendBuilder {
    /// Selects the engine: `false` is the list engine.
    pub fn use_redis_streams(self, use_redis_streams: bool) -> (builder: RedisBackendBuilder)
        ensures
            builder == (RedisBackendBuilder { config: self.config, use_redis_streams }),
    {
        RedisBackendBuilder { config: self.config, use_redis_streams }
    }

    /// Whether a producer and a consumer can be built: the list engine is
    /// selected and the deadline is positive.
    pub open spec fn buildable(self) -> bool {
        !self.use_redis_streams && self.config.ack_deadline_ms > 0
    }

    fn processing_key(&self) -> (key: String)
        ensures
            key@ == self.config.processing_key(),
    {
        joined(copy_key(self.config.queue_key.as_str()), "::processing")
    }

    /// The producing half of the queue.
    pub fn producing_half(&self) -> (producer: Result<RedisProducer, QueueError>)
        ensures
            self.buildable() ==> (producer matches Ok(p) && p@ == self.config.producer()),
            !self.buildable() ==> producer matches Err(QueueError::Unsupported(_)),
    {
        if self.use_redis_streams {
            return Err(QueueError::Unsupported("the streams engine is not part of this library"));
        }
        if self.config.ack_deadline_ms <= 0 {
            return Err(QueueError::Unsupported("ack_deadline_ms must be positive"));
        }
        Ok(
            RedisProducer {
                queue_key: copy_key(self.config.queue_key.as_str()),
                delayed_queue_key: copy_key(self.config.delayed_queue_key.as_str()),
                dlq_config: copy_dlq(&self.config.dlq_config),
            },
        )
    }

    /// The consuming half of the queue.
    pub fn consuming_half(&self) -> (consumer: Result<RedisConsumer, QueueError>)
        ensures
            self.buildable() ==> (consumer matches Ok(c) && c@ == self.config.consumer()),
            !self.buildable() ==> consumer matches Err(QueueError::Unsupported(_)),
    {
        if self.use_redis_streams {
            return Err(QueueError::Unsupported("the streams engine is not part of this library"));
        }
        if self.config.ack_deadline_ms <= 0 {
            return Err(QueueError::Unsupported("ack_deadline_ms must be positive"));
        }
        let max_receives = match &self.config.dlq_config {
            Some(dlq) => dlq.max_receives,
            None => DEFAULT_MAX_RECEIVES,
        };
        Ok(
            RedisConsumer {
                queue_key: copy_key(self.config.queue_key.as_str()),
                processing_queue_key: self.processing_key(),
                max_receives,
                reinsert_on_nack: self.config.reinsert_on_nack,
            },
        )
    }

    /// The producer and the consumer of the queue.
    pub fn build_pair(&self) -> (pair: Result<(RedisProducer, RedisConsumer), QueueError>)
        ensures
            self.buildable() ==> (pair matches Ok((p, c)) && p@ == self.config.producer() && c@
                == self.config.consumer()),
            !self.buildable() ==> pair matches Err(QueueError::Unsupported(_)),
    {
        match self.producing_half() {
            Ok(producer) => match self.consuming_half() {
                Ok(consumer) => Ok((producer, consumer)),
                Err(e) => Err(e),
            },
            Err(e) => Err(e),
        }
    }

    /// The reaper of the queue, where one can be built.
    pub fn reaper(&self) -> (reaper: Option<Reaper>)
        ensures
            self.buildable() ==> (reaper matches Some(r) && r@ == self.config.reaper()),
            !self.buildable() ==> reaper.is_none(),
    {
        if self.use_redis_streams {
            return None;
        }
        background_task_processing(
            copy_key(self.config.queue_key.as_str()),
            self.processing_key(),
            self.config.ack_deadline_ms,
            copy_dlq(&self.config.dlq_config),
        )
    }

    /// The promoter of the queue, where one can be built.
    pub fn promoter(&self) -> (promoter: Option<Promoter>)
        ensures
            self.buildable() ==> (promoter matches Some(p) && p@ == self.config.promoter()),
            !self.buildable() ==> promoter.is_none(),
    {
        if self.use_redis_streams || self.config.ack_deadline_ms <= 0 {
            return None;
        }
        Some(
            Promoter {
                queue_key: copy_key(self.config.queue_key.as_str()),
                delayed_queue_key: copy_key(self.config.delayed_queue_key.as_str()),
                delayed_lock_key: copy_key(self.config.delayed_lock_key.as_str()),
            },
        )
    }
}

} // verus!
