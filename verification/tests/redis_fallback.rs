use std::time::{SystemTime, UNIX_EPOCH};

use omniqueue::codec::internal_from_list;
use omniqueue::command::Command;
use omniqueue::config::{RedisBackend, RedisConfig};
use omniqueue::consumer::{receive, receive_all, receive_all_command, receive_command, RedisConsumer};
use omniqueue::delivery::Delivery;
use omniqueue::error::QueueError;
use omniqueue::memory::{MemoryStore, Reply};
use omniqueue::producer::{
    redrive_dlq, redrive_dlq_command, send_raw, send_scheduled_at, written, RedisProducer,
};
use omniqueue::promoter::{Promoter, PromoterStep};
use omniqueue::reaper::{DeadLetterQueueConfig, Reaper, ReaperStep};

struct Queue {
    store: MemoryStore,
    producer: RedisProducer,
    consumer: RedisConsumer,
    reaper: Reaper,
    promoter: Promoter,
}

fn now_ms() -> i64 {
    SystemTime::now().duration_since(UNIX_EPOCH).unwrap().as_millis() as i64
}

fn make_queue(queue_key: &str, ack_deadline_ms: i64, dlq: Option<(&str, usize)>) -> Queue {
    let config = RedisConfig {
        dsn: "redis://localhost".to_owned(),
        max_connections: 8,
        reinsert_on_nack: false,
        queue_key: queue_key.to_owned(),
        delayed_queue_key: format!("{queue_key}::delayed"),
        delayed_lock_key: format!("{queue_key}::delayed_lock"),
        consumer_group: "test_cg".to_owned(),
        consumer_name: "test_cn".to_owned(),
        payload_key: "payload".to_owned(),
        ack_deadline_ms,
        dlq_config: dlq.map(|(key, max_receives)| DeadLetterQueueConfig {
            queue_key: key.to_owned(),
            max_receives,
        }),
    };
    let builder = RedisBackend::builder(config).use_redis_streams(false);
    let (producer, consumer) = builder.build_pair().unwrap();
    Queue {
        store: MemoryStore::new(),
        producer,
        consumer,
        reaper: builder.reaper().unwrap(),
        promoter: builder.promoter().unwrap(),
    }
}

fn make_test_queue() -> Queue {
    make_queue("queue", 5_000, None)
}

impl Queue {
    fn send(&mut self, payload: &[u8]) {
        let command = send_raw(&self.producer, payload);
        assert_eq!(self.store.execute(&command), Reply::Done);
        written(Ok(())).unwrap();
    }

    fn send_scheduled(&mut self, payload: &[u8], delay_ms: u64, now: i64) {
        let command = send_scheduled_at(&self.producer, payload, delay_ms, now);
        assert_eq!(self.store.execute(&command), Reply::Done);
    }

    fn claim(&mut self, command: Command) -> Option<Vec<u8>> {
        match self.store.execute(&command) {
            Reply::Frame(frame) => frame,
            other => panic!("a claim was answered with {other:?}"),
        }
    }

    fn receive(&mut self) -> Result<Delivery, QueueError> {
        let command = receive_command(&self.consumer);
        let frame = self.claim(command);
        receive(&self.consumer, Ok(frame))
    }

    fn receive_all(&mut self, max_messages: usize, deadline_ms: u64) -> Vec<Delivery> {
        let command = receive_all_command(&self.consumer, deadline_ms, max_messages);
        let frame = self.claim(command);
        receive_all(&self.consumer, Ok(frame)).unwrap()
    }

    fn ack(&mut self, delivery: &mut Delivery) -> Result<(), QueueError> {
        let command = delivery.ack()?;
        assert_eq!(self.store.execute(&command), Reply::Done);
        delivery.finalize(Ok(()))
    }

    fn nack(&mut self, delivery: &mut Delivery) -> Result<(), QueueError> {
        match delivery.nack()? {
            Some(command) => {
                assert_eq!(self.store.execute(&command), Reply::Done);
                delivery.finalize(Ok(()))
            }
            None => Ok(()),
        }
    }

    fn frames(&mut self, command: Command) -> Vec<Vec<u8>> {
        match self.store.execute(&command) {
            Reply::Frames(frames) => frames,
            other => panic!("a read was answered with {other:?}"),
        }
    }

    /// One pass of the reaper at the moment `now`; says whether it scanned.
    fn reap(&mut self, now: i64) -> Result<bool, QueueError> {
        let limit = self.reaper.validity_limit_at(now);
        let peek = self.reaper.peek_command();
        let head = self.frames(peek);
        match self.reaper.after_peek(&head, &limit) {
            ReaperStep::Rest { pause_ms } => {
                assert_eq!(pause_ms, 500);
                Ok(false)
            }
            ReaperStep::Scan { command } => {
                let batch = self.frames(command);
                let plan = self.reaper.reenqueue_timed_out_messages(&batch, &limit);
                for command in &plan.commands {
                    assert_eq!(self.store.execute(command), Reply::Done);
                }
                match plan.failure {
                    Some(failure) => Err(failure),
                    None => Ok(true),
                }
            }
        }
    }

    /// Reaps until nothing is overdue at the moment `now`.
    fn reap_all(&mut self, now: i64) {
        while self.reap(now).unwrap() {}
    }

    /// One pass of the promoter at the moment `now`.
    fn promote(&mut self, now: i64) {
        let lock = self.promoter.lock_command();
        let acquired = match self.store.execute(&lock) {
            Reply::Acquired(acquired) => acquired,
            other => panic!("a lock was answered with {other:?}"),
        };
        match self.promoter.after_lock_at(acquired, now) {
            PromoterStep::Rest { pause_ms } => assert_eq!(pause_ms, 100),
            PromoterStep::Fetch { command } => {
                let due = self.frames(command);
                let plan = self.promoter.promote(&due);
                for command in &plan.commands {
                    self.store.execute(command);
                }
                assert_eq!(plan.failure, None);
            }
        }
    }

    fn redrive(&mut self) -> Result<(), QueueError> {
        let read = redrive_dlq_command(&self.producer)?;
        let entries = self.frames(read);
        for command in redrive_dlq(&self.producer, &entries)? {
            assert_eq!(self.store.execute(&command), Reply::Done);
        }
        Ok(())
    }

    fn processing(&self) -> Vec<Vec<u8>> {
        self.store.list(&self.consumer.processing_queue_key)
    }

    fn dlq(&self) -> Vec<Vec<u8>> {
        match &self.producer.dlq_config {
            Some(dlq) => self.store.list(&dlq.queue_key),
            None => Vec::new(),
        }
    }
}

/// A moment at which every frame made by now is overdue.
fn later() -> i64 {
    now_ms() + 60_000
}

fn json(a: u8) -> Vec<u8> {
    let mut object = serde_json::Map::new();
    object.insert("a".to_owned(), serde_json::Value::from(a));
    serde_json::to_vec(&serde_json::Value::Object(object)).unwrap()
}

#[test]
fn redis_fallback_test_raw_send_recv() {
    let mut q = make_test_queue();
    let payload = b"{\"test\": \"data\"}";

    q.send(payload);

    let mut d = q.receive().unwrap();
    assert_eq!(d.borrow_payload().unwrap(), payload);
    assert_eq!(q.processing().len(), 1);
    q.ack(&mut d).unwrap();
    assert!(q.processing().is_empty());
}

#[test]
fn redis_fallback_test_bytes_send_recv() {
    let mut q = make_test_queue();
    let payload = b"hello";

    q.send(payload);

    let mut d = q.receive().unwrap();
    assert_eq!(d.borrow_payload().unwrap(), payload);
    q.ack(&mut d).unwrap();
}

#[test]
fn redis_fallback_test_serde_send_recv() {
    let mut q = make_test_queue();
    let payload = json(2);
    assert_eq!(payload, b"{\"a\":2}".to_vec());

    q.send(&payload);

    let mut d = q.receive().unwrap();
    let value: serde_json::Value = serde_json::from_slice(d.borrow_payload().unwrap()).unwrap();
    assert_eq!(value.get("a").and_then(|a| a.as_u64()), Some(2));
    q.ack(&mut d).unwrap();
}

#[test]
fn redis_fallback_test_scheduled() {
    let payload1 = json(1);
    let mut q = make_test_queue();

    let delay: u64 = 3_000;
    let now = now_ms();
    q.send_scheduled(&payload1, delay, now);

    // Before the delay has passed nothing is promoted, so nothing is delivered.
    q.promote(now);
    assert!(q.receive_all(1, 1).is_empty());
    q.promote(now + 2_999);
    assert!(q.receive_all(1, 1).is_empty());

    // Once it has passed, and well before twice the delay, the payload is.
    q.promote(now + 3_000);
    let delivery = q.receive_all(1, 2 * delay).into_iter().next().unwrap();
    assert_eq!(Some(&payload1[..]), delivery.borrow_payload());
    assert_eq!(delivery.acker.num_receives, 0);

    // The lock was released, and the delayed set holds nothing any more.
    q.promote(now + 6_000);
    assert!(q.receive_all(1, 1).is_empty());
}

#[test]
fn test_pending() {
    let payload1 = json(1);
    let payload2 = json(2);
    let mut q = make_test_queue();

    q.send(&payload1);
    q.send(&payload2);
    let delivery1 = q.receive().unwrap();
    let mut delivery2 = q.receive().unwrap();

    // All items claimed, but not yet ack'd. There shouldn't be anything available
    // yet.
    assert!(q.receive_all(1, 1).is_empty());

    assert_eq!(Some(&payload1[..]), delivery1.borrow_payload());
    assert_eq!(Some(&payload2[..]), delivery2.borrow_payload());

    // ack 2, but neglect 1
    let _ = q.ack(&mut delivery2);

    // Before the deadline nothing is reclaimed.
    assert_eq!(q.reap(now_ms() - 60_000), Ok(false));
    assert!(q.receive_all(1, 1).is_empty());

    // After the deadline, the first payload should appear again.
    q.reap_all(later());
    let delivery3 = q.receive().unwrap();
    assert_eq!(Some(&payload1[..]), delivery3.borrow_payload());
    assert_eq!(delivery3.acker.num_receives, 1);

    // queue should be empty once again
    assert!(q.receive_all(1, 1).is_empty());
}

#[test]
fn test_deadletter_config() {
    let payload = json(1);
    let max_receives = 5;
    let mut q = make_queue("queue", 1, Some(("dead", max_receives)));

    // Test send to DLQ via `ack_deadline_ms` expiration:
    q.send(&payload);

    for attempt in 0..max_receives {
        assert_eq!(q.dlq().len(), 0);
        let delivery = q.receive().unwrap();
        assert_eq!(Some(&payload[..]), delivery.borrow_payload());
        assert_eq!(delivery.acker.num_receives, attempt);
        q.reap_all(later());
    }

    let delivery = q.receive_all(1, 1);
    assert!(delivery.is_empty());
    assert!(q.processing().is_empty());

    // Expected message should be on DLQ:
    assert_eq!(q.dlq(), vec![b"{\"a\":1}".to_vec()]);

    // Redrive DLQ, receive from main queue, ack:
    q.redrive().unwrap();

    let mut delivery = q.receive().unwrap();
    assert_eq!(Some(&payload[..]), delivery.borrow_payload());
    assert_eq!(delivery.acker.num_receives, 0);
    q.ack(&mut delivery).unwrap();

    assert_eq!(q.dlq().len(), 0);
}

#[test]
fn test_deadletter_config_order() {
    let payload1 = json(1);
    let payload2 = json(2);
    let payload3 = json(3);
    let max_receives = 1;
    let mut q = make_queue("queue", 1, Some(("dead", max_receives)));

    q.send(&payload1);
    q.send(&payload2);
    q.send(&payload3);

    for payload in [&payload1, &payload2, &payload3] {
        let mut delivery = q.receive().unwrap();
        assert_eq!(Some(&payload[..]), delivery.borrow_payload());
        // With a deadline of a millisecond the reaper comes first.
        q.reap_all(later());
        q.nack(&mut delivery).unwrap();
    }

    // Expected messages should be on DLQ:
    assert_eq!(q.dlq().len(), 3);

    // Redrive DLQ, receive from main queue, ack:
    q.redrive().unwrap();

    for payload in [&payload1, &payload2, &payload3] {
        let mut delivery = q.receive().unwrap();
        assert_eq!(Some(&payload[..]), delivery.borrow_payload());
        q.ack(&mut delivery).unwrap();
    }
    assert!(q.dlq().is_empty());
}

// A message without a `num_receives` field shouldn't
// cause issues:
#[test]
fn test_backward_compatible() {
    let max_receives = 5;
    let mut q = make_queue("queue", 20, Some(("dead", max_receives)));

    let org_payload = json(1);

    // Old payload format:
    let id = svix_ksuid::KsuidLike::to_base62(&<svix_ksuid::Ksuid as svix_ksuid::KsuidLike>::new(
        None::<SystemTime>,
        None,
    ));
    let mut payload = Vec::with_capacity(id.len() + org_payload.len() + 1);
    payload.extend(id.as_bytes());
    payload.push(b'|');
    payload.extend(&org_payload);
    assert_eq!(internal_from_list(&payload), Ok((&org_payload[..], 0)));

    let push = Command::LPush { key: "queue".to_owned(), values: vec![payload.clone()] };
    assert_eq!(q.store.execute(&push), Reply::Done);

    for attempt in 0..max_receives {
        let delivery = q.receive().unwrap();
        assert_eq!(Some(&org_payload[..]), delivery.borrow_payload());
        assert_eq!(delivery.acker.num_receives, attempt);
        if attempt == 0 {
            assert_eq!(delivery.acker.old_payload, payload);
        }
        q.reap_all(later());
    }

    let delivery = q.receive_all(1, 1);
    assert!(delivery.is_empty());
    assert_eq!(q.dlq(), vec![b"{\"a\":1}".to_vec()]);
}

#[test]
fn legacy_frame_is_ackable() {
    let mut q = make_test_queue();
    let frame = b"2bKzJ5tqDPmL0f8hQ1vXw7RcYaE|{\"a\":1}".to_vec();
    let push = Command::LPush { key: "queue".to_owned(), values: vec![frame.clone()] };
    q.store.execute(&push);

    let mut delivery = q.receive().unwrap();
    assert_eq!(delivery.borrow_payload(), Some(&b"{\"a\":1}"[..]));
    assert_eq!(q.processing(), vec![frame]);
    q.ack(&mut delivery).unwrap();
    assert!(q.processing().is_empty());
}

#[test]
fn receive_on_an_empty_queue_is_no_data() {
    let mut q = make_test_queue();
    assert_eq!(q.receive().unwrap_err(), QueueError::NoData);
}

#[test]
fn a_message_is_delivered_behind_what_is_pending() {
    let mut q = make_test_queue();
    q.send(b"first");
    q.send(b"second");
    q.send(b"third");
    for expected in [&b"first"[..], b"second", b"third"] {
        let delivery = q.receive().unwrap();
        assert_eq!(delivery.borrow_payload(), Some(expected));
    }
}

#[test]
fn nack_leaves_the_frame_to_the_reaper() {
    let mut q = make_queue("queue", 1, Some(("dead", 3)));
    q.send(b"work");
    let mut delivery = q.receive().unwrap();
    q.nack(&mut delivery).unwrap();
    assert_eq!(q.processing().len(), 1);
    assert_eq!(q.nack(&mut delivery), Err(QueueError::CannotAckOrNackTwice));
    assert_eq!(q.ack(&mut delivery), Err(QueueError::CannotAckOrNackTwice));

    q.reap_all(later());
    let again = q.receive().unwrap();
    assert_eq!(again.borrow_payload(), Some(&b"work"[..]));
    assert_eq!(again.acker.num_receives, 1);
}

#[test]
fn redrive_without_a_dead_letter_queue_is_refused() {
    let mut q = make_test_queue();
    assert!(matches!(q.redrive(), Err(QueueError::Unsupported(_))));
}

#[test]
fn without_a_dead_letter_queue_messages_are_queued_again_without_end() {
    let mut q = make_test_queue();
    q.send(b"again");
    for attempt in 0..20 {
        let delivery = q.receive().unwrap();
        assert_eq!(delivery.acker.num_receives, attempt);
        q.reap_all(later());
    }
    assert!(q.dlq().is_empty());
}

#[test]
fn a_malformed_entry_stops_the_reaper_after_what_came_before() {
    let mut q = make_queue("queue", 1, Some(("dead", 5)));
    let processing = q.consumer.processing_queue_key.clone();
    // The head of the processing list is the entry that was claimed last.
    let good = b"2bKzJ5tqDPmL0f8hQ1vXw7RcYaE|2|good".to_vec();
    let bad = b"2bKzJ5tqDPmL0f8hQ1vXw7RcYaF-not-a-frame".to_vec();
    q.store.execute(&Command::RPush { key: processing.clone(), value: good.clone() });
    q.store.execute(&Command::RPush { key: processing, value: bad.clone() });

    assert_eq!(q.reap(later()), Err(QueueError::MalformedFrame));
    assert_eq!(q.processing(), vec![bad]);
    let delivery = q.receive().unwrap();
    assert_eq!(delivery.borrow_payload(), Some(&b"good"[..]));
    assert_eq!(delivery.acker.num_receives, 3);
}
