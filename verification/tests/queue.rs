use omniqueue::codec::RawPayload;
use omniqueue::command::{Command, CommandView};
use omniqueue::delivery::{Delivery, DeliveryView};
use omniqueue::error::QueueError;
use omniqueue::queue::{DynConsumer, QueueConsumer};

/// A consumer of a backend that hands out at most `limit` messages at once.
struct Limited {
    limit: Option<usize>,
}

impl QueueConsumer for Limited {
    // What the contracts of the trait are stated over; nothing calls these
    // when the program runs.
    fn request(&self) -> CommandView {
        unreachable!()
    }

    fn batch_request(&self, _max_messages: usize, _deadline_ms: u64) -> CommandView {
        unreachable!()
    }

    fn delivered(
        &self,
        _reply: Result<Option<vstd::seq::Seq<u8>>, String>,
    ) -> Result<Option<DeliveryView>, QueueError> {
        unreachable!()
    }

    fn batch_limit(&self) -> Option<usize> {
        unreachable!()
    }

    fn receive_command(&self) -> Command {
        Command::BRPopLPush {
            source: "main".to_owned(),
            destination: "processing".to_owned(),
            timeout_ms: 0,
        }
    }

    fn receive(&self, _reply: Result<Option<RawPayload>, String>) -> Result<Delivery, QueueError> {
        Err(QueueError::NoData)
    }

    fn receive_all_command(&self, max_messages: usize, deadline_ms: u64) -> Command {
        // The batch size stands in the range, so that a test can read it.
        Command::LRange { key: "main".to_owned(), start: 0, stop: max_messages as isize }
            .with_deadline(deadline_ms)
    }

    fn receive_all(
        &self,
        _reply: Result<Option<RawPayload>, String>,
    ) -> Result<Vec<Delivery>, QueueError> {
        Ok(Vec::new())
    }

    fn max_messages(&self) -> Option<usize> {
        self.limit
    }
}

trait WithDeadline {
    fn with_deadline(self, deadline_ms: u64) -> Command;
}

impl WithDeadline for Command {
    fn with_deadline(self, _deadline_ms: u64) -> Command {
        self
    }
}

fn asked(consumer: &DynConsumer, max_messages: usize) -> isize {
    match consumer.receive_all_command(max_messages, 10) {
        Command::LRange { stop, .. } => stop,
        other => panic!("unexpected command {other:?}"),
    }
}

#[test]
fn an_erased_consumer_clamps_the_batch_to_what_the_backend_allows() {
    let limited = DynConsumer::new(Limited { limit: Some(10) });
    assert_eq!(limited.max_messages(), Some(10));
    assert_eq!(asked(&limited, 1), 1);
    assert_eq!(asked(&limited, 9), 9);
    assert_eq!(asked(&limited, 10), 10);
    assert_eq!(asked(&limited, 11), 10);
    assert_eq!(asked(&limited, 1_000_000), 10);
    assert_eq!(asked(&limited, 0), 0);
}

#[test]
fn an_erased_consumer_without_a_limit_asks_for_what_it_is_asked() {
    let unlimited = DynConsumer::new(Limited { limit: None });
    assert_eq!(unlimited.max_messages(), None);
    assert_eq!(asked(&unlimited, 1), 1);
    assert_eq!(asked(&unlimited, 1_000_000), 1_000_000);
}

#[test]
fn an_erased_consumer_hands_on_what_its_consumer_answers() {
    let erased = DynConsumer::new(Limited { limit: Some(3) });
    assert_eq!(erased.receive_command(), Limited { limit: None }.receive_command());
    assert_eq!(erased.receive(Ok(None)).unwrap_err(), QueueError::NoData);
    assert!(erased.receive_all(Ok(None)).unwrap().is_empty());
}
