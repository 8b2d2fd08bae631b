//! Finalizing a delivery: acknowledging it, or giving it back.

use crate::codec::{
    internal_from_list, internal_to_list_payload, is_frame_of, parse_frame, RawPayload,
};
use crate::command::{copy_frame, copy_key, Command, CommandView};
use crate::error::QueueError;
use vstd::prelude::*;

verus! {

/// What finalizes one delivery. It keeps the frame exactly as the consumer
/// saw it, because the processing list is cleared of it by value.
#[derive(Debug, PartialEq, Eq)]
pub struct RedisFallbackAcker {
    pub queue_key: String,
    pub processing_queue_key: String,
    /// The frame as stored; its attempts field is part of it.
    pub old_payload: RawPayload,
    pub already_acked_or_nacked: bool,
    pub max_receives: usize,
    pub num_receives: usize,
    /// Whether a rejected frame goes back to the main list at once.
    pub reinsert_on_nack: bool,
}

/// An acker as a mathematical value.
pub struct AckerView {
    pub queue_key: Seq<char>,
    pub processing_queue_key: Seq<char>,
    pub old_payload: Seq<u8>,
    pub already_acked_or_nacked: bool,
    pub max_receives: nat,
    pub num_receives: nat,
    pub reinsert_on_nack: bool,
}

impl AckerView {
    /// The command that clears the delivery from the processing list.
    pub open spec fn removal(self) -> CommandView {
        CommandView::LRem { key: self.processing_queue_key, count: 1, value: self.old_payload }
    }

    /// This delivery was the last that the message is allowed.
    pub open spec fn exhausted(self) -> bool {
        self.num_receives + 1 >= self.max_receives
    }

    /// What `ack` answers.
    pub open spec fn ack(self) -> Result<CommandView, QueueError> {
        if self.already_acked_or_nacked {
            Err(QueueError::CannotAckOrNackTwice)
        } else {
            Ok(self.removal())
        }
    }

    /// `command` puts the frame of this delivery back at the head of the
    /// main list, under a fresh id and with its attempts as they are.
    pub open spec fn reinserts(self, command: CommandView) -> bool {
        match parse_frame(self.old_payload) {
            Some((bytes, attempts)) => command matches CommandView::LPush { key, values } && key
                == self.queue_key && values.len() == 1 && is_frame_of(values[0], attempts, bytes),
            None => false,
        }
    }

    /// `answer` is what `nack` answers.
    pub open spec fn nacks(self, answer: Result<Option<CommandView>, QueueError>) -> bool {
        if self.already_acked_or_nacked {
            answer == Err::<Option<CommandView>, QueueError>(QueueError::CannotAckOrNackTwice)
        } else if self.exhausted() {
            answer == Ok::<Option<CommandView>, QueueError>(Some(self.removal()))
        } else if !self.reinsert_on_nack {
            answer == Ok::<Option<CommandView>, QueueError>(None)
        } else if parse_frame(self.old_payload) is None {
            answer == Err::<Option<CommandView>, QueueError>(QueueError::MalformedFrame)
        } else {
            answer matches Ok(Some(command)) && self.reinserts(command)
        }
    }

    /// The acker after `nack`: a rejection with nothing to send finalizes the
    /// delivery at once.
    pub open spec fn after_nack(self) -> AckerView {
        if !self.already_acked_or_nacked && !self.exhausted() && !self.reinsert_on_nack {
            self.finalized()
        } else {
            self
        }
    }

    /// The acker once it has been finalized.
    pub open spec fn finalized(self) -> AckerView {
        AckerView { already_acked_or_nacked: true, ..self }
    }

    /// The acker after `finalize` was told `outcome`.
    pub open spec fn after(self, outcome: Result<(), String>) -> AckerView {
        if !self.already_acked_or_nacked && outcome is Ok {
            self.finalized()
        } else {
            self
        }
    }

    /// What `finalize` answers when told `outcome`.
    pub open spec fn finalize(self, outcome: Result<(), String>) -> Result<(), QueueError> {
        if self.already_acked_or_nacked {
            Err(QueueError::CannotAckOrNackTwice)
        } else {
            match outcome {
                Ok(_) => Ok(()),
                Err(message) => Err(QueueError::Generic(message)),
            }
        }
    }
}

impl View for RedisFallbackAcker {
    type V = AckerView;

    open spec fn view(&self) -> AckerView {
        AckerView {
            queue_key: self.queue_key@,
            processing_queue_key: self.processing_queue_key@,
            old_payload: self.old_payload@,
            already_acked_or_nacked: self.already_acked_or_nacked,
            max_receives: self.max_receives as nat,
            num_receives: self.num_receives as nat,
            reinsert_on_nack: self.reinsert_on_nack,
        }
    }
}

impl RedisFallbackAcker {
    fn removal(&self) -> (command: Command)
        ensures
            command@ == self@.removal(),
    {
        Command::LRem {
            key: copy_key(self.processing_queue_key.as_str()),
            count: 1,
            value: copy_frame(self.old_payload.as_slice()),
        }
    }

    /// Starts an acknowledgement: the command that removes the frame from the
    /// processing list, by its exact value and once. A delivery that was
    /// finalized before is refused. Tell `finalize` how the command went.
    pub fn ack(&self) -> (command: Result<Command, QueueError>)
        ensures
            match self@.ack() {
                Ok(expected) => command matches Ok(c) && c@ == expected,
                Err(e) => command == Err::<Command, QueueError>(e),
            },
    {
        if self.already_acked_or_nacked {
            return Err(QueueError::CannotAckOrNackTwice);
        }
        Ok(self.removal())
    }

    /// Rejects the delivery. A delivery that was finalized before is refused.
    /// Where this delivery was the last that the message is allowed, the
    /// rejection removes the frame as an acknowledgement does: the message is
    /// gone then, unless the reaper has reclaimed it before. Where rejected
    /// frames are put back at once, it pushes the frame onto the main list
    /// under a fresh id. Either way it hands out that command, and `finalize`
    /// is to be told how it went. Otherwise there is nothing to send and the
    /// delivery is finalized at once: the frame stays on the processing list
    /// until its deadline passes and it is reclaimed.
    pub fn nack(&mut self) -> (command: Result<Option<Command>, QueueError>)
        ensures
            final(self)@ == old(self)@.after_nack(),
            old(self)@.nacks(
                match command {
                    Ok(Some(c)) => Ok(Some(c@)),
                    Ok(None) => Ok(None),
                    Err(e) => Err(e),
                },
            ),
    {
        if self.already_acked_or_nacked {
            return Err(QueueError::CannotAckOrNackTwice);
        }
        if self.max_receives == 0 || self.num_receives >= self.max_receives - 1 {
            return Ok(Some(self.removal()));
        }
        if self.reinsert_on_nack {
            return match internal_from_list(self.old_payload.as_slice()) {
                Ok(internal) => {
                    let mut values: Vec<RawPayload> = Vec::new();
                    values.push(internal_to_list_payload(internal));
                    let command = Command::LPush {
                        key: copy_key(self.queue_key.as_str()),
                        values,
                    };
                    assert(command@ matches CommandView::LPush { key, values } && values.len()
                        == 1);
                    Ok(Some(command))
                },
                Err(e) => Err(e),
            };
        }
        self.already_acked_or_nacked = true;
        Ok(None)
    }

    /// Ends an acknowledgement or a rejection. Where the command went through
    /// the delivery is finalized; where the server failed, the failure is
    /// handed on and the delivery can be finalized again.
    pub fn finalize(&mut self, outcome: Result<(), String>) -> (done: Result<(), QueueError>)
        ensures
            final(self)@ == old(self)@.after(outcome),
            done == old(self)@.finalize(outcome),
    {
        if self.already_acked_or_nacked {
            return Err(QueueError::CannotAckOrNackTwice);
        }
        match outcome {
            Ok(_) => {
                self.already_acked_or_nacked = true;
                Ok(())
            },
            Err(message) => Err(QueueError::Generic(message)),
        }
    }

    /// Moving the deadline of a delivery is not something this engine does.
    pub fn set_ack_deadline(&mut self, _duration_ms: u64) -> (done: Result<(), QueueError>)
        ensures
            *final(self) == *old(self),
            done matches Err(QueueError::Unsupported(reason)) && reason@
                == "set_ack_deadline is not yet supported by redis fallback backend"@,
    {
        Err(
            QueueError::Unsupported(
                "set_ack_deadline is not yet supported by redis fallback backend",
            ),
        )
    }
}

} // verus!
