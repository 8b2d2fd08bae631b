use omniqueue::command::Command;
use omniqueue::config::{RedisBackend, RedisConfig, DEFAULT_MAX_RECEIVES};
use omniqueue::consumer::{receive_all_command, receive_command, RedisConsumer};
use omniqueue::error::QueueError;
use omniqueue::producer::RedisProducer;
use omniqueue::promoter::Promoter;
use omniqueue::queue::{DynConsumer, QueueConsumer};
use omniqueue::reaper::{DeadLetterQueueConfig, Reaper};

fn config(ack_deadline_ms: i64, dlq: Option<DeadLetterQueueConfig>) -> RedisConfig {
    RedisConfig {
        dsn: "redis://localhost".to_owned(),
        max_connections: 8,
        reinsert_on_nack: true,
        queue_key: "jobs".to_owned(),
        delayed_queue_key: "jobs::delayed".to_owned(),
        delayed_lock_key: "jobs::delayed_lock".to_owned(),
        consumer_group: "test_cg".to_owned(),
        consumer_name: "test_cn".to_owned(),
        payload_key: "payload".to_owned(),
        ack_deadline_ms,
        dlq_config: dlq,
    }
}

fn dlq() -> DeadLetterQueueConfig {
    DeadLetterQueueConfig { queue_key: "jobs::dead".to_owned(), max_receives: 5 }
}

#[test]
fn the_builder_selects_the_list_engine() {
    let builder = RedisBackend::builder(config(5_000, None));
    assert!(!builder.use_redis_streams);
    assert!(builder.use_redis_streams(true).use_redis_streams);
}

#[test]
fn a_pair_is_built_from_the_configuration() {
    let builder = RedisBackend::builder(config(5_000, Some(dlq()))).use_redis_streams(false);
    let (producer, consumer) = builder.build_pair().unwrap();
    assert_eq!(
        producer,
        RedisProducer {
            queue_key: "jobs".to_owned(),
            delayed_queue_key: "jobs::delayed".to_owned(),
            dlq_config: Some(dlq()),
        }
    );
    assert_eq!(
        consumer,
        RedisConsumer {
            queue_key: "jobs".to_owned(),
            processing_queue_key: "jobs::processing".to_owned(),
            max_receives: 5,
            reinsert_on_nack: true,
        }
    );
    assert_eq!(builder.producing_half(), Ok(producer));
    assert_eq!(builder.consuming_half(), Ok(consumer));
    assert_eq!(
        builder.reaper(),
        Some(Reaper {
            queue_key: "jobs".to_owned(),
            processing_queue_key: "jobs::processing".to_owned(),
            ack_deadline_ms: 5_000,
            dlq_config: Some(dlq()),
        })
    );
    assert_eq!(
        builder.promoter(),
        Some(Promoter {
            queue_key: "jobs".to_owned(),
            delayed_queue_key: "jobs::delayed".to_owned(),
            delayed_lock_key: "jobs::delayed_lock".to_owned(),
        })
    );
}

#[test]
fn without_a_dead_letter_queue_the_limit_is_out_of_reach() {
    let builder = RedisBackend::builder(config(1, None));
    let consumer = builder.consuming_half().unwrap();
    assert_eq!(consumer.max_receives, DEFAULT_MAX_RECEIVES);
    assert_eq!(consumer.max_receives, usize::MAX);
    assert_eq!(builder.reaper().unwrap().dlq_config, None);
}

#[test]
fn the_streams_engine_is_refused() {
    let builder = RedisBackend::builder(config(5_000, None)).use_redis_streams(true);
    assert!(matches!(builder.build_pair(), Err(QueueError::Unsupported(_))));
    assert!(matches!(builder.producing_half(), Err(QueueError::Unsupported(_))));
    assert!(matches!(builder.consuming_half(), Err(QueueError::Unsupported(_))));
    assert_eq!(builder.reaper(), None);
    assert_eq!(builder.promoter(), None);
}

#[test]
fn a_deadline_that_is_not_positive_is_refused() {
    for deadline in [0, -1, i64::MIN] {
        let builder = RedisBackend::builder(config(deadline, None));
        assert!(matches!(builder.build_pair(), Err(QueueError::Unsupported(_))));
        assert_eq!(builder.reaper(), None);
        assert_eq!(builder.promoter(), None);
    }
}

#[test]
fn receive_waits_without_end_and_receive_all_up_to_its_deadline() {
    let consumer = RedisBackend::builder(config(5_000, None)).consuming_half().unwrap();
    assert_eq!(
        receive_command(&consumer),
        Command::BRPopLPush {
            source: "jobs".to_owned(),
            destination: "jobs::processing".to_owned(),
            timeout_ms: 0,
        }
    );
    assert_eq!(
        receive_all_command(&consumer, 1_500, 10),
        Command::BRPopLPush {
            source: "jobs".to_owned(),
            destination: "jobs::processing".to_owned(),
            timeout_ms: 1_500,
        }
    );
}

#[test]
fn an_erased_consumer_answers_as_the_consumer_it_wraps() {
    let consumer = RedisBackend::builder(config(5_000, Some(dlq()))).consuming_half().unwrap();
    let claim = receive_command(&consumer);
    let batch = receive_all_command(&consumer, 250, 3);
    let erased: DynConsumer = consumer.into_dyn();
    assert_eq!(erased.max_messages(), None);
    assert_eq!(erased.receive_command(), claim);
    assert_eq!(erased.receive_all_command(3, 250), batch);

    let frame = b"2bKzJ5tqDPmL0f8hQ1vXw7RcYaE|1|payload".to_vec();
    let delivery = erased.receive(Ok(Some(frame.clone()))).unwrap();
    assert_eq!(delivery.borrow_payload(), Some(&b"payload"[..]));
    assert_eq!(delivery.acker.num_receives, 1);
    assert_eq!(delivery.acker.max_receives, 5);
    assert_eq!(delivery.acker.old_payload, frame);
    assert!(delivery.acker.reinsert_on_nack);

    assert_eq!(erased.receive(Ok(None)).unwrap_err(), QueueError::NoData);
    assert_eq!(erased.receive_all(Ok(None)).unwrap().len(), 0);
    assert_eq!(erased.receive_all(Ok(Some(frame))).unwrap().len(), 1);
    assert_eq!(
        erased.receive_all(Err("down".to_owned())).unwrap_err(),
        QueueError::Generic("down".to_owned())
    );
    assert_eq!(
        erased.receive(Ok(Some(b"no frame".to_vec()))).unwrap_err(),
        QueueError::MalformedFrame
    );

    let erased = erased.into_dyn();
    assert_eq!(erased.max_messages(), None);
}
