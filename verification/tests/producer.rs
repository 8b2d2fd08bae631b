use omniqueue::codec::internal_from_list;
use omniqueue::command::Command;
use omniqueue::error::QueueError;
use omniqueue::producer::{
    add_to_main_queue, redrive_dlq, redrive_dlq_command, send_raw, send_scheduled,
    send_scheduled_at, written, RedisProducer,
};
use omniqueue::reaper::DeadLetterQueueConfig;

fn producer(dlq: bool) -> RedisProducer {
    RedisProducer {
        queue_key: "main".to_owned(),
        delayed_queue_key: "main::delayed".to_owned(),
        dlq_config: if dlq {
            Some(DeadLetterQueueConfig { queue_key: "dead".to_owned(), max_receives: 5 })
        } else {
            None
        },
    }
}

fn new_frame(frame: &[u8], payload: &[u8]) {
    assert_eq!(frame.len(), 27 + 3 + payload.len());
    assert!(frame[..27].iter().all(|b| b.is_ascii_alphanumeric()));
    assert_eq!(&frame[27..30], b"|0|");
    assert_eq!(internal_from_list(frame), Ok((payload, 0)));
}

fn pushed(command: &Command) -> &Vec<u8> {
    match command {
        Command::LPush { key, values } => {
            assert_eq!(key, "main");
            assert_eq!(values.len(), 1);
            &values[0]
        }
        other => panic!("unexpected command {other:?}"),
    }
}

#[test]
fn send_raw_pushes_a_new_frame_onto_the_main_list() {
    let command = send_raw(&producer(false), b"{\"test\": \"data\"}");
    new_frame(pushed(&command), b"{\"test\": \"data\"}");
    let empty = send_raw(&producer(false), b"");
    new_frame(pushed(&empty), b"");
    let bars = send_raw(&producer(false), b"a|b|c");
    new_frame(pushed(&bars), b"a|b|c");
}

#[test]
fn every_send_gets_its_own_id() {
    let first = send_raw(&producer(false), b"p");
    let second = send_raw(&producer(false), b"p");
    assert_ne!(pushed(&first), pushed(&second));
}

#[test]
fn a_scheduled_send_goes_to_the_delayed_set_under_its_due_time() {
    match send_scheduled_at(&producer(false), b"later", 3_000, 1_700_000_000_000) {
        Command::ZAdd { key, score, member } => {
            assert_eq!(key, "main::delayed");
            assert_eq!(score, 1_700_000_003_000);
            new_frame(&member, b"later");
        }
        other => panic!("unexpected command {other:?}"),
    }
}

#[test]
fn a_due_time_stays_within_the_range_of_the_clock() {
    let score = |delay: u64, now: i64| match send_scheduled_at(&producer(false), b"p", delay, now) {
        Command::ZAdd { score, .. } => score,
        other => panic!("unexpected command {other:?}"),
    };
    assert_eq!(score(1, 0), 1);
    assert_eq!(score(1, -1), 0);
    assert_eq!(score(10, -100), -90);
    assert_eq!(score(1, i64::MAX), i64::MAX);
    assert_eq!(score(u64::MAX, 0), i64::MAX);
    assert_eq!(score(u64::MAX, i64::MIN), i64::MAX);
    assert_eq!(score(i64::MAX as u64, i64::MIN), -1);
    assert_eq!(score(i64::MAX as u64 + 1, i64::MIN), 0);
    assert_eq!(score(i64::MAX as u64 + 5, -10), i64::MAX - 5);
    assert_eq!(score(i64::MAX as u64 + 5, -4), i64::MAX);
    assert_eq!(score(i64::MAX as u64, 1), i64::MAX);
    assert_eq!(score(i64::MAX as u64, 0), i64::MAX);
}

#[test]
fn a_scheduled_send_without_delay_is_a_send() {
    let command = send_scheduled_at(&producer(false), b"now", 0, 1_700_000_000_000);
    new_frame(pushed(&command), b"now");
    let command = send_scheduled(&producer(false), b"now", 0);
    new_frame(pushed(&command), b"now");
}

#[test]
fn a_scheduled_send_by_the_clock_falls_due_after_now() {
    match send_scheduled(&producer(false), b"later", 60_000) {
        Command::ZAdd { key, score, member } => {
            assert_eq!(key, "main::delayed");
            // 2020-01-01 in milliseconds, plus the delay.
            assert!(score > 1_577_836_800_000 + 60_000);
            new_frame(&member, b"later");
        }
        other => panic!("unexpected command {other:?}"),
    }
}

#[test]
fn frames_are_queued_again_under_fresh_ids() {
    let keys = vec![
        b"2bKzJ5tqDPmL0f8hQ1vXw7RcYaE|2|first".to_vec(),
        b"2bKzJ5tqDPmL0f8hQ1vXw7RcYaF|second".to_vec(),
    ];
    match add_to_main_queue(&keys, "main") {
        Ok(Command::LPush { key, values }) => {
            assert_eq!(key, "main");
            assert_eq!(values.len(), 2);
            assert_ne!(values[0][..27], keys[0][..27]);
            assert_eq!(internal_from_list(&values[0]), Ok((&b"first"[..], 2)));
            assert_eq!(internal_from_list(&values[1]), Ok((&b"second"[..], 0)));
            assert_eq!(&values[1][27..], b"|0|second");
        }
        other => panic!("unexpected answer {other:?}"),
    }
    assert_eq!(
        add_to_main_queue(&[], "main"),
        Ok(Command::LPush { key: "main".to_owned(), values: vec![] })
    );
}

#[test]
fn nothing_is_queued_if_one_value_is_no_frame() {
    let keys = vec![b"2bKzJ5tqDPmL0f8hQ1vXw7RcYaE|2|first".to_vec(), b"broken".to_vec()];
    assert_eq!(add_to_main_queue(&keys, "main"), Err(QueueError::MalformedFrame));
}

#[test]
fn a_redrive_reads_the_whole_dead_letter_queue() {
    assert_eq!(
        redrive_dlq_command(&producer(true)),
        Ok(Command::LRange { key: "dead".to_owned(), start: 0, stop: -1 })
    );
    assert_eq!(
        redrive_dlq_command(&producer(false)),
        Err(QueueError::Unsupported("Mandatory DeadLetterQueueConfig is not configured"))
    );
    assert_eq!(
        redrive_dlq(&producer(false), &vec![]),
        Err(QueueError::Unsupported("Mandatory DeadLetterQueueConfig is not configured"))
    );
}

#[test]
fn a_redrive_queues_dead_letters_in_the_order_of_their_arrival() {
    // Read from the head: the one that arrived last stands first.
    let entries = vec![b"third".to_vec(), b"second".to_vec(), b"first".to_vec()];
    let commands = redrive_dlq(&producer(true), &entries).unwrap();
    assert_eq!(commands.len(), 6);
    for (i, payload) in [&b"first"[..], b"second", b"third"].into_iter().enumerate() {
        new_frame(pushed(&commands[2 * i]), payload);
        assert_eq!(
            commands[2 * i + 1],
            Command::LRem { key: "dead".to_owned(), count: 1, value: payload.to_vec() }
        );
    }
    assert!(redrive_dlq(&producer(true), &vec![]).unwrap().is_empty());
}

#[test]
fn a_failure_of_the_server_is_handed_on() {
    assert_eq!(written(Ok(())), Ok(()));
    assert_eq!(
        written(Err("connection refused".to_owned())),
        Err(QueueError::Generic("connection refused".to_owned()))
    );
}
