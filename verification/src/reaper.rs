//! Reclaiming deliveries whose deadline has passed.
//!
//! A frame on the processing list is overdue once its id is at or before the
//! id of the moment one deadline ago. An overdue frame goes back to the main
//! list under a fresh id with one more attempt, or, where that attempt would
//! reach the limit of a configured dead-letter queue, its payload goes there.

use crate::codec::{
    frame, frame_with_id, internal_from_list, is_frame_of, parse_frame, RawPayload,
};
use crate::command::{commands_view, copy_frame, copy_key, frames_view, Command, CommandView};
use crate::error::QueueError;
use crate::ident::{
    bytes_le, fresh_id, id_at_millis, is_id, is_id_at, lex_le, now_millis, ID_LEN,
};
use vstd::prelude::*;

verus! {

/// The last index that one scan of the processing list reads, the first
/// being zero.
pub const BATCH_SIZE: isize = 50;

/// How long the reaper rests when nothing is overdue or the server failed.
pub const IDLE_PAUSE_MS: u64 = 500;

/// Where exhausted messages go, and after how many deliveries.
#[derive(Debug, PartialEq, Eq)]
pub struct DeadLetterQueueConfig {
    pub queue_key: String,
    pub max_receives: usize,
}

/// A dead-letter configuration as a mathematical value.
pub struct DeadLetterQueueView {
    pub queue_key: Seq<char>,
    pub max_receives: nat,
}

/// What the reaper knows of its queue.
#[derive(Debug, PartialEq, Eq)]
pub struct Reaper {
    pub queue_key: String,
    pub processing_queue_key: String,
    pub ack_deadline_ms: u64,
    pub dlq_config: Option<DeadLetterQueueConfig>,
}

/// A reaper as a mathematical value.
pub struct ReaperView {
    pub queue_key: Seq<char>,
    pub processing_queue_key: Seq<char>,
    pub ack_deadline_ms: nat,
    pub dlq_config: Option<DeadLetterQueueView>,
}

/// What the reaper does next.
#[derive(Debug, PartialEq, Eq)]
pub enum ReaperStep {
    /// Nothing is overdue: rest for this long, then look again.
    Rest { pause_ms: u64 },
    /// Read a batch with this command and reclaim what is overdue in it.
    Scan { command: Command },
}

/// The commands that reclaim a batch, in the order in which to send them,
/// and the failure that ended the batch early, if one did. A failure is to be
/// reported after the commands were sent.
#[derive(Debug, PartialEq, Eq)]
pub struct ReapPlan {
    pub commands: Vec<Command>,
    pub failure: Option<QueueError>,
}

impl View for DeadLetterQueueConfig {
    type V = DeadLetterQueueView;

    open spec fn view(&self) -> DeadLetterQueueView {
        DeadLetterQueueView {
            queue_key: self.queue_key@,
            max_receives: self.max_receives as nat,
        }
    }
}

/// An optional dead-letter configuration as a mathematical value.
pub open spec fn dlq_view(dlq_config: Option<DeadLetterQueueConfig>) -> Option<
    DeadLetterQueueView,
> {
    match dlq_config {
        Some(dlq) => Some(dlq@),
        None => None,
    }
}

impl View for Reaper {
    type V = ReaperView;

    open spec fn view(&self) -> ReaperView {
        ReaperView {
            queue_key: self.queue_key@,
            processing_queue_key: self.processing_queue_key@,
            ack_deadline_ms: self.ack_deadline_ms as nat,
            dlq_config: dlq_view(self.dlq_config),
        }
    }
}

/// The moment one deadline before `now_ms`, kept within the range of the
/// clock.
pub open spec fn cutoff(now_ms: int, ack_deadline_ms: nat) -> int {
    if now_ms - ack_deadline_ms < i64::MIN {
        i64::MIN as int
    } else {
        now_ms - ack_deadline_ms
    }
}

/// The attempts of a frame that is queued again: one more, as far as the
/// counter reaches.
pub open spec fn next_attempts(attempts: nat) -> nat {
    if attempts < usize::MAX {
        attempts + 1
    } else {
        attempts
    }
}

/// The first of the entries read from the processing list is overdue.
pub open spec fn head_overdue(keys: Seq<Seq<u8>>, limit: Seq<u8>) -> bool {
    keys.len() > 0 && lex_le(keys[0], limit)
}

impl ReaperView {
    /// The command that reads the head of the processing list.
    pub open spec fn peek(self) -> CommandView {
        CommandView::LRange { key: self.processing_queue_key, start: 0, stop: 1 }
    }

    /// The command that reads a batch of the processing list.
    pub open spec fn scan(self) -> CommandView {
        CommandView::LRange { key: self.processing_queue_key, start: 0, stop: BATCH_SIZE as int }
    }

    /// A message with `attempts` earlier deliveries goes to the dead-letter
    /// queue when it is reclaimed: one is configured, and one more attempt
    /// reaches its limit.
    pub open spec fn escalates(self, attempts: nat) -> bool {
        match self.dlq_config {
            Some(dlq) => attempts + 1 >= dlq.max_receives,
            None => false,
        }
    }

    /// `command` puts the message of the stored `entry` where it goes next:
    /// its payload at the head of the dead-letter queue, or a frame under a
    /// fresh id with one more attempt at the tail of the main list.
    pub open spec fn requeues(self, entry: Seq<u8>, command: CommandView) -> bool {
        match parse_frame(entry) {
            Some((bytes, attempts)) => if self.escalates(attempts) {
                command == (CommandView::LPush {
                    key: self.dlq_config.unwrap().queue_key,
                    values: seq![bytes],
                })
            } else {
                command matches CommandView::RPush { key, value } && key == self.queue_key
                    && is_frame_of(value, next_attempts(attempts), bytes)
            },
            None => false,
        }
    }

    /// The command that clears `entry` from the processing list.
    pub open spec fn removes(self, entry: Seq<u8>) -> CommandView {
        CommandView::LRem { key: self.processing_queue_key, count: 1, value: entry }
    }

    /// `commands` and `failure` reclaim the batch `keys` against `limit`. The
    /// entries are taken in order, two commands for each: the first queues
    /// the message again, the second clears the entry. The batch ends at its
    /// end, at the first entry that is not overdue, or, with a failure, at the
    /// first overdue entry that is no frame.
    pub open spec fn reclaims(
        self,
        keys: Seq<Seq<u8>>,
        limit: Seq<u8>,
        commands: Seq<CommandView>,
        failure: Option<QueueError>,
    ) -> bool {
        let n = commands.len() / 2;
        &&& commands.len() == 2 * n
        &&& n <= keys.len()
        &&& forall|i: int|
            0 <= i < n ==> lex_le(#[trigger] keys[i], limit) && self.requeues(
                keys[i],
                commands[2 * i],
            ) && commands[2 * i + 1] == self.removes(keys[i])
        &&& if n == keys.len() || !lex_le(keys[n as int], limit) {
            failure is None
        } else {
            parse_frame(keys[n as int]) is None && failure == Some(QueueError::MalformedFrame)
        }
    }
}

/// Sets up the reaper of a queue. A deadline that is not positive is
/// refused.
pub fn background_task_processing(
    queue_key: String,
    processing_queue_key: String,
    ack_deadline_ms: i64,
    dlq_config: Option<DeadLetterQueueConfig>,
) -> (reaper: Option<Reaper>)
    ensures
        ack_deadline_ms <= 0 ==> reaper.is_none(),
        ack_deadline_ms > 0 ==> reaper == Some(
            Reaper {
                queue_key,
                processing_queue_key,
                ack_deadline_ms: ack_deadline_ms as u64,
                dlq_config,
            },
        ),
{
    if ack_deadline_ms <= 0 {
        return None;
    }
    Some(
        Reaper {
            queue_key,
            processing_queue_key,
            ack_deadline_ms: ack_deadline_ms as u64,
            dlq_config,
        },
    )
}

/// The moment one deadline before `now_ms`.
pub fn validity_cutoff(now_ms: i64, ack_deadline_ms: u64) -> (at: i64)
    ensures
        at == cutoff(now_ms as int, ack_deadline_ms as nat),
{
    if ack_deadline_ms > i64::MAX as u64 {
        if now_ms >= 0 {
            let rest: u64 = ack_deadline_ms - now_ms as u64;
            if rest > i64::MAX as u64 {
                i64::MIN
            } else {
                -(rest as i64)
            }
        } else {
            i64::MIN
        }
    } else {
        let deadline: i64 = ack_deadline_ms as i64;
        if now_ms < i64::MIN + deadline {
            i64::MIN
        } else {
            now_ms - deadline
        }
    }
}

impl Reaper {
    /// The command that reads the head of the processing list.
    pub fn peek_command(&self) -> (command: Command)
        ensures
            command@ == self@.peek(),
    {
        Command::LRange { key: copy_key(self.processing_queue_key.as_str()), start: 0, stop: 1 }
    }

    /// The id against which entries are held at the moment `now_ms`: an id
    /// of the moment one deadline before, under some payload. Entries at or
    /// before it are overdue.
    pub fn validity_limit_at(&self, now_ms: i64) -> (limit: Vec<u8>)
        ensures
            is_id(limit@),
            is_id_at(limit@, cutoff(now_ms as int, self@.ack_deadline_ms)),
    {
        id_at_millis(validity_cutoff(now_ms, self.ack_deadline_ms))
    }

    /// The id against which entries are held now, by the clock: an id of
    /// the moment one deadline before some reading of the clock.
    pub fn validity_limit(&self) -> (limit: Vec<u8>)
        ensures
            is_id(limit@),
            exists|now_ms: i64| #[trigger]
                is_id_at(limit@, cutoff(now_ms as int, self@.ack_deadline_ms)),
    {
        let now = now_millis();
        self.validity_limit_at(now)
    }

    /// Decides on the reply to the peek: scan where the head of the
    /// processing list is overdue, rest otherwise.
    pub fn after_peek(&self, keys: &Vec<RawPayload>, validity_limit: &[u8]) -> (step: ReaperStep)
        ensures
            match step {
                ReaperStep::Scan { command } => head_overdue(frames_view(keys@), validity_limit@)
                    && command@ == self@.scan(),
                ReaperStep::Rest { pause_ms } => !head_overdue(
                    frames_view(keys@),
                    validity_limit@,
                ) && pause_ms == IDLE_PAUSE_MS,
            },
    {
        if keys.len() > 0 && bytes_le(keys[0].as_slice(), validity_limit) {
            ReaperStep::Scan {
                command: Command::LRange {
                    key: copy_key(self.processing_queue_key.as_str()),
                    start: 0,
                    stop: BATCH_SIZE,
                },
            }
        } else {
            ReaperStep::Rest { pause_ms: IDLE_PAUSE_MS }
        }
    }

    /// The command that queues the message of a decoded entry again, under
    /// the given id where it goes back to the main list.
    pub fn requeue_with_id(&self, id: &[u8], payload: &[u8], num_receives: usize) -> (command:
        Command)
        ensures
            self@.escalates(num_receives as nat) ==> command@ == (CommandView::LPush {
                key: self@.dlq_config.unwrap().queue_key,
                values: seq![payload@],
            }),
            !self@.escalates(num_receives as nat) ==> command@ == (CommandView::RPush {
                key: self@.queue_key,
                value: frame(id@, next_attempts(num_receives as nat), payload@),
            }),
    {
        match &self.dlq_config {
            Some(dlq) => {
                if dlq.max_receives == 0 || num_receives >= dlq.max_receives - 1 {
                    let mut values: Vec<RawPayload> = Vec::new();
                    values.push(copy_frame(payload));
                    let command = Command::LPush {
                        key: copy_key(dlq.queue_key.as_str()),
                        values,
                    };
                    assert(frames_view(values@) =~= seq![payload@]);
                    return command;
                }
            },
            None => {},
        }
        let attempts = if num_receives < usize::MAX {
            num_receives + 1
        } else {
            num_receives
        };
        Command::RPush {
            key: copy_key(self.queue_key.as_str()),
            value: frame_with_id(id, (payload, attempts)),
        }
    }

    /// Plans the reclaiming of a batch read from the processing list. Each
    /// overdue entry is queued again, or escalated, and then cleared from the
    /// processing list; the plan ends at the first entry that is not overdue.
    /// An overdue entry that is no frame ends the plan with a failure, after
    /// the commands for the entries before it.
    pub fn reenqueue_timed_out_messages(
        &self,
        keys: &Vec<RawPayload>,
        validity_limit: &[u8],
    ) -> (plan: ReapPlan)
        ensures
            self@.reclaims(
                frames_view(keys@),
                validity_limit@,
                commands_view(plan.commands@),
                plan.failure,
            ),
    {
        let mut commands: Vec<Command> = Vec::new();
        let mut failure: Option<QueueError> = None;
        let mut i: usize = 0;
        let n = keys.len();
        while i < n
            invariant_except_break
                failure is None,
            invariant
                0 <= i <= n,
                n == keys@.len(),
                commands@.len() == 2 * i,
                forall|k: int|
                    0 <= k < i ==> lex_le(#[trigger] keys@[k]@, validity_limit@) && self@.requeues(
                        keys@[k]@,
                        commands@[2 * k]@,
                    ) && commands@[2 * k + 1]@ == self@.removes(keys@[k]@),
            ensures
                0 <= i <= n,
                commands@.len() == 2 * i,
                forall|k: int|
                    0 <= k < i ==> lex_le(#[trigger] keys@[k]@, validity_limit@) && self@.requeues(
                        keys@[k]@,
                        commands@[2 * k]@,
                    ) && commands@[2 * k + 1]@ == self@.removes(keys@[k]@),
                if i == n || !lex_le(keys@[i as int]@, validity_limit@) {
                    failure is None
                } else {
                    parse_frame(keys@[i as int]@) is None && failure == Some(
                        QueueError::MalformedFrame,
                    )
                },
            decreases n - i,
        {
            let key = &keys[i];
            if !bytes_le(key.as_slice(), validity_limit) {
                break ;
            }
            match internal_from_list(key.as_slice()) {
                Err(e) => {
                    failure = Some(e);
                    break ;
                },
                Ok((payload, num_receives)) => {
                    let id = fresh_id();
                    let first = self.requeue_with_id(id.as_slice(), payload, num_receives);
                    let second = Command::LRem {
                        key: copy_key(self.processing_queue_key.as_str()),
                        count: 1,
                        value: copy_frame(key.as_slice()),
                    };
                    proof {
                        if !self@.escalates(num_receives as nat) {
                            let value = frame(
                                id@,
                                next_attempts(num_receives as nat),
                                payload@,
                            );
                            assert(value.take(ID_LEN as int) =~= id@);
                        }
                    }
                    let ghost before = commands@;
                    commands.push(first);
                    commands.push(second);
                    assert forall|k: int| 0 <= k < i + 1 implies lex_le(
                        #[trigger] keys@[k]@,
                        validity_limit@,
                    ) && self@.requeues(keys@[k]@, commands@[2 * k]@) && commands@[2 * k + 1]@
                        == self@.removes(keys@[k]@) by {
                        if k < i {
                            assert(commands@[2 * k] == before[2 * k]);
                            assert(commands@[2 * k + 1] == before[2 * k + 1]);
                        }
                    }
                    i = i + 1;
                },
            }
        }
        proof {
            let cv = commands_view(commands@);
            let kv = frames_view(keys@);
            assert(cv.len() == 2 * i);
            assert(cv.len() / 2 == i as int);
            assert forall|k: int| 0 <= k < i implies lex_le(#[trigger] kv[k], validity_limit@)
                && self@.requeues(kv[k], cv[2 * k]) && cv[2 * k + 1] == self@.removes(kv[k]) by {
                assert(lex_le(keys@[k]@, validity_limit@));
            }
        }
        ReapPlan { commands, failure }
    }

    /// How long to rest after a pass over the processing list that ended as
    /// `outcome`: a failure is never handed on, the reaper rests and goes on.
    pub fn pause_after(outcome: &Result<(), QueueError>) -> (pause_ms: u64)
        ensures
            pause_ms == if outcome is Err {
                IDLE_PAUSE_MS
            } else {
                0
            },
    {
        match outcome {
            Err(_) => IDLE_PAUSE_MS,
            Ok(_) => 0,
        }
    }
}

} // verus!
