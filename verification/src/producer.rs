//! The producing half: queueing payloads, now or later, and driving the
//! dead-letter queue back into the main list.

use crate::codec::{
    internal_from_list, internal_to_list_payload, is_frame_of, parse_frame, RawPayload,
};
use crate::command::{commands_view, copy_frame, copy_key, frames_view, Command, CommandView};
use crate::error::QueueError;
use crate::ident::now_millis;
use crate::reaper::{dlq_view, DeadLetterQueueConfig, DeadLetterQueueView};
use vstd::prelude::*;

verus! {

/// What a producer knows of its queue.
#[derive(Debug, PartialEq, Eq)]
pub struct RedisProducer {
    pub queue_key: String,
    pub delayed_queue_key: String,
    pub dlq_config: Option<DeadLetterQueueConfig>,
}

/// A producer as a mathematical value.
pub struct ProducerView {
    pub queue_key: Seq<char>,
    pub delayed_queue_key: Seq<char>,
    pub dlq_config: Option<DeadLetterQueueView>,
}

impl View for RedisProducer {
    type V = ProducerView;

    open spec fn view(&self) -> ProducerView {
        ProducerView {
            queue_key: self.queue_key@,
            delayed_queue_key: self.delayed_queue_key@,
            dlq_config: dlq_view(self.dlq_config),
        }
    }
}

/// The moment `delay_ms` after `now_ms`, kept within the range of the clock.
pub open spec fn due_time(now_ms: int, delay_ms: nat) -> int {
    if now_ms + delay_ms > i64::MAX {
        i64::MAX as int
    } else {
        now_ms + delay_ms
    }
}

/// `command` pushes one new frame, never delivered, that carries `payload`
/// onto the head of the list `key`.
pub open spec fn enqueues(key: Seq<char>, payload: Seq<u8>, command: CommandView) -> bool {
    command matches CommandView::LPush { key: k, values } && k == key && values.len() == 1
        && is_frame_of(values[0], 0, payload)
}

/// Every one of `keys` is a frame.
pub open spec fn all_frames(keys: Seq<Seq<u8>>) -> bool {
    forall|i: int| 0 <= i < keys.len() ==> parse_frame(#[trigger] keys[i]) is Some
}

/// `command` pushes the frames `keys`, each under a fresh id and otherwise
/// as it is, onto the head of the list `key`, in their order.
pub open spec fn requeues_all(key: Seq<char>, keys: Seq<Seq<u8>>, command: CommandView) -> bool {
    command matches CommandView::LPush { key: k, values } && k == key && values.len() == keys.len()
        && forall|i: int|
        0 <= i < keys.len() ==> is_frame_of(
            #[trigger] values[i],
            parse_frame(keys[i]).unwrap().1,
            parse_frame(keys[i]).unwrap().0,
        )
}

impl ProducerView {
    /// `command` is what `send_scheduled_at` hands out.
    pub open spec fn schedules(
        self,
        payload: Seq<u8>,
        delay_ms: nat,
        now_ms: int,
        command: CommandView,
    ) -> bool {
        if delay_ms == 0 {
            enqueues(self.queue_key, payload, command)
        } else {
            command matches CommandView::ZAdd { key, score, member } && key
                == self.delayed_queue_key && score == due_time(now_ms, delay_ms) && is_frame_of(
                member,
                0,
                payload,
            )
        }
    }

    /// The command that reads the whole dead-letter queue.
    pub open spec fn reads_dead_letters(self) -> CommandView {
        CommandView::LRange { key: self.dlq_config.unwrap().queue_key, start: 0, stop: -1 }
    }

    /// `commands` drive the dead letters `entries`, as read from the head of
    /// their list, back into the main list. They are taken from the last,
    /// the one that arrived first, to the first, two commands for each: one
    /// queues its payload as a new frame, one clears it from the dead-letter
    /// queue.
    pub open spec fn redrives(self, entries: Seq<Seq<u8>>, commands: Seq<CommandView>) -> bool {
        &&& commands.len() == 2 * entries.len()
        &&& forall|i: int|
            0 <= i < entries.len() ==> enqueues(
                self.queue_key,
                #[trigger] entries[entries.len() - 1 - i],
                commands[2 * i],
            ) && commands[2 * i + 1] == (CommandView::LRem {
                key: self.dlq_config.unwrap().queue_key,
                count: 1,
                value: entries[entries.len() - 1 - i],
            })
    }
}

/// Queues `payload`: the command that pushes it, framed as never delivered,
/// onto the head of the main list.
pub fn send_raw(producer: &RedisProducer, payload: &[u8]) -> (command: Command)
    ensures
        enqueues(producer@.queue_key, payload@, command@),
{
    enqueue(producer.queue_key.as_str(), payload)
}

fn enqueue(key: &str, payload: &[u8]) -> (command: Command)
    ensures
        enqueues(key@, payload@, command@),
{
    let mut values: Vec<RawPayload> = Vec::new();
    values.push(internal_to_list_payload((payload, 0)));
    let command = Command::LPush { key: copy_key(key), values };
    assert(command@ matches CommandView::LPush { key: k, values } && values.len() == 1);
    command
}

/// Queues `payload` for delivery `delay_ms` after `now_ms`: the command that
/// adds it, framed as never delivered, to the delayed set under the moment it
/// falls due. With no delay it is queued on the main list at once.
pub fn send_scheduled_at(
    producer: &RedisProducer,
    payload: &[u8],
    delay_ms: u64,
    now_ms: i64,
) -> (command: Command)
    ensures
        producer@.schedules(payload@, delay_ms as nat, now_ms as int, command@),
{
    if delay_ms == 0 {
        return send_raw(producer, payload);
    }
    let score: i64 = if delay_ms > i64::MAX as u64 {
        if now_ms < 0 && delay_ms - (i64::MAX as u64) <= (-(now_ms + 1)) as u64 + 1 {
            let over: u64 = delay_ms - (i64::MAX as u64);
            let below: u64 = (-(now_ms + 1)) as u64 + 1;
            i64::MAX - ((below - over) as i64)
        } else {
            i64::MAX
        }
    } else {
        let delay: i64 = delay_ms as i64;
        if now_ms > i64::MAX - delay {
            i64::MAX
        } else {
            now_ms + delay
        }
    };
    Command::ZAdd {
        key: copy_key(producer.delayed_queue_key.as_str()),
        score,
        member: internal_to_list_payload((payload, 0)),
    }
}

/// Queues `payload` for delivery `delay_ms` from now, by the clock.
pub fn send_scheduled(producer: &RedisProducer, payload: &[u8], delay_ms: u64) -> (command: Command)
    ensures
        exists|now_ms: i64| #[trigger]
            producer@.schedules(payload@, delay_ms as nat, now_ms as int, command@),
{
    let now_ms = now_millis();
    send_scheduled_at(producer, payload, delay_ms, now_ms)
}

/// Queues stored frames again: the command that pushes them onto the head of
/// the list `main_queue_name`, each under a fresh id with its payload and
/// attempts as they are. If one of them is no frame, nothing is pushed.
pub fn add_to_main_queue(keys: &[Vec<u8>], main_queue_name: &str) -> (command: Result<
    Command,
    QueueError,
>)
    ensures
        all_frames(frames_view(keys@)) ==> (command matches Ok(c) && requeues_all(
            main_queue_name@,
            frames_view(keys@),
            c@,
        )),
        !all_frames(frames_view(keys@)) ==> command == Err::<Command, QueueError>(
            QueueError::MalformedFrame,
        ),
{
    let mut new_keys: Vec<RawPayload> = Vec::new();
    let mut i: usize = 0;
    while i < keys.len()
        invariant
            0 <= i <= keys.len(),
            new_keys@.len() == i,
            forall|k: int| 0 <= k < i ==> parse_frame(#[trigger] keys@[k]@) is Some,
            forall|k: int|
                0 <= k < i ==> is_frame_of(
                    #[trigger] new_keys@[k]@,
                    parse_frame(keys@[k]@).unwrap().1,
                    parse_frame(keys@[k]@).unwrap().0,
                ),
        decreases keys.len() - i,
    {
        match internal_from_list(keys[i].as_slice()) {
            Ok(internal) => {
                new_keys.push(internal_to_list_payload(internal));
            },
            Err(e) => {
                assert(parse_frame(frames_view(keys@)[i as int]) is None);
                return Err(e);
            },
        }
        i = i + 1;
    }
    let command = Command::LPush { key: copy_key(main_queue_name), values: new_keys };
    proof {
        let kv = frames_view(keys@);
        assert forall|k: int| 0 <= k < kv.len() implies parse_frame(#[trigger] kv[k]) is Some by {
            assert(parse_frame(keys@[k]@) is Some);
        }
        let vv = frames_view(new_keys@);
        assert forall|k: int| 0 <= k < kv.len() implies is_frame_of(
            #[trigger] vv[k],
            parse_frame(kv[k]).unwrap().1,
            parse_frame(kv[k]).unwrap().0,
        ) by {
            assert(is_frame_of(
                new_keys@[k]@,
                parse_frame(keys@[k]@).unwrap().1,
                parse_frame(keys@[k]@).unwrap().0,
            ));
        }
    }
    Ok(command)
}

/// Starts a redrive: the command that reads the dead-letter queue. With no
/// dead-letter queue configured there is nothing to drive back, and the
/// operation is refused.
pub fn redrive_dlq_command(producer: &RedisProducer) -> (command: Result<Command, QueueError>)
    ensures
        producer@.dlq_config is Some ==> (command matches Ok(c) && c@
            == producer@.reads_dead_letters()),
        producer@.dlq_config is None ==> command matches Err(QueueError::Unsupported(_)),
{
    match &producer.dlq_config {
        Some(dlq) => Ok(
            Command::LRange { key: copy_key(dlq.queue_key.as_str()), start: 0, stop: -1 },
        ),
        None => Err(QueueError::Unsupported("Mandatory DeadLetterQueueConfig is not configured")),
    }
}

/// Plans a redrive of the dead letters `entries`, as read from the head of
/// their list. The payloads go back onto the main list in the order in which
/// they arrived, each as a new frame, and each is cleared from the
/// dead-letter queue after it was queued.
pub fn redrive_dlq(producer: &RedisProducer, entries: &Vec<RawPayload>) -> (commands: Result<
    Vec<Command>,
    QueueError,
>)
    ensures
        producer@.dlq_config is Some ==> (commands matches Ok(cs) && producer@.redrives(
            frames_view(entries@),
            commands_view(cs@),
        )),
        producer@.dlq_config is None ==> commands matches Err(QueueError::Unsupported(_)),
{
    let dlq = match &producer.dlq_config {
        Some(dlq) => dlq,
        None => {
            return Err(
                QueueError::Unsupported("Mandatory DeadLetterQueueConfig is not configured"),
            );
        },
    };
    let n = entries.len();
    let mut commands: Vec<Command> = Vec::new();
    let mut i: usize = 0;
    while i < n
        invariant
            0 <= i <= n,
            n == entries@.len(),
            commands@.len() == 2 * i,
            producer@.dlq_config is Some,
            dlq.queue_key@ == producer@.dlq_config.unwrap().queue_key,
            forall|k: int|
                0 <= k < i ==> enqueues(
                    producer@.queue_key,
                    (#[trigger] entries@[n - 1 - k])@,
                    commands@[2 * k]@,
                ) && commands@[2 * k + 1]@ == (CommandView::LRem {
                    key: producer@.dlq_config.unwrap().queue_key,
                    count: 1,
                    value: entries@[n - 1 - k]@,
                }),
        decreases n - i,
    {
        let entry = &entries[n - 1 - i];
        let first = enqueue(producer.queue_key.as_str(), entry.as_slice());
        let second = Command::LRem {
            key: copy_key(dlq.queue_key.as_str()),
            count: 1,
            value: copy_frame(entry.as_slice()),
        };
        let ghost before = commands@;
        commands.push(first);
        commands.push(second);
        assert forall|k: int| 0 <= k < i + 1 implies enqueues(
            producer@.queue_key,
            (#[trigger] entries@[n - 1 - k])@,
            commands@[2 * k]@,
        ) && commands@[2 * k + 1]@ == (CommandView::LRem {
            key: producer@.dlq_config.unwrap().queue_key,
            count: 1,
            value: entries@[n - 1 - k]@,
        }) by {
            if k < i {
                assert(commands@[2 * k] == before[2 * k]);
                assert(commands@[2 * k + 1] == before[2 * k + 1]);
            }
        }
        i = i + 1;
    }
    proof {
        let ev = frames_view(entries@);
        let cv = commands_view(commands@);
        assert forall|k: int| 0 <= k < ev.len() implies enqueues(
            producer@.queue_key,
            #[trigger] ev[ev.len() - 1 - k],
            cv[2 * k],
        ) && cv[2 * k + 1] == (CommandView::LRem {
            key: producer@.dlq_config.unwrap().queue_key,
            count: 1,
            value: ev[ev.len() - 1 - k],
        }) by {
            assert(enqueues(producer@.queue_key, entries@[n - 1 - k]@, commands@[2 * k]@));
        }
    }
    Ok(commands)
}

/// What the reply to a command that only writes amounts to: a failure of the
/// server is handed on with its message.
pub fn written(reply: Result<(), String>) -> (done: Result<(), QueueError>)
    ensures
        done == match reply {
            Ok(_) => Ok::<(), QueueError>(()),
            Err(message) => Err::<(), QueueError>(QueueError::Generic(message)),
        },
{
    match reply {
        Ok(_) => Ok(()),
        Err(message) => Err(QueueError::Generic(message)),
    }
}

} // verus!
