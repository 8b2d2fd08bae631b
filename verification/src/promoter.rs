//! Moving scheduled frames into the main list once they fall due.
//!
//! Several promoters may watch one delayed set. Each pass takes a short-lived
//! lock first, so that one of them at a time moves frames.

use crate::codec::{parse_frame, RawPayload};
use crate::command::{commands_view, copy_frame, copy_key, frames_view, Command, CommandView};
use crate::error::QueueError;
use crate::ident::now_millis;
use crate::producer::{add_to_main_queue, all_frames, requeues_all};
use vstd::prelude::*;

verus! {

/// How long the lock of a pass lives if it is not released.
pub const LOCK_TTL_MS: u64 = 1000;

/// How long the promoter rests between passes.
pub const PROMOTER_PAUSE_MS: u64 = 100;

/// The value under which the lock is held.
pub const LOCK_VALUE: u8 = 0x31;

/// What the promoter knows of its queue.
#[derive(Debug, PartialEq, Eq)]
pub struct Promoter {
    pub queue_key: String,
    pub delayed_queue_key: String,
    pub delayed_lock_key: String,
}

/// A promoter as a mathematical value.
pub struct PromoterView {
    pub queue_key: Seq<char>,
    pub delayed_queue_key: Seq<char>,
    pub delayed_lock_key: Seq<char>,
}

/// What the promoter does next.
#[derive(Debug, PartialEq, Eq)]
pub enum PromoterStep {
    /// Another promoter holds the lock: rest for this long, then try again.
    Rest { pause_ms: u64 },
    /// Read the frames that are due with this command and promote them.
    Fetch { command: Command },
}

/// The commands that promote the due frames, in the order in which to send
/// them, and the failure that ended the pass early, if one did. The last
/// command releases the lock.
#[derive(Debug, PartialEq, Eq)]
pub struct PromotePlan {
    pub commands: Vec<Command>,
    pub failure: Option<QueueError>,
}

impl View for Promoter {
    type V = PromoterView;

    open spec fn view(&self) -> PromoterView {
        PromoterView {
            queue_key: self.queue_key@,
            delayed_queue_key: self.delayed_queue_key@,
            delayed_lock_key: self.delayed_lock_key@,
        }
    }
}

impl PromoterView {
    /// The command that takes the lock, if nobody holds it.
    pub open spec fn locks(self) -> CommandView {
        CommandView::SetNxPx {
            key: self.delayed_lock_key,
            value: seq![LOCK_VALUE],
            ttl_ms: LOCK_TTL_MS as nat,
        }
    }

    /// The command that releases the lock.
    pub open spec fn unlocks(self) -> CommandView {
        CommandView::Del { key: self.delayed_lock_key }
    }

    /// The command that reads the frames due at `now_ms`.
    pub open spec fn fetches(self, now_ms: int) -> CommandView {
        CommandView::ZRangeByScore { key: self.delayed_queue_key, max: now_ms }
    }

    /// What `after_lock_at` answers.
    pub open spec fn step(self, acquired: bool, now_ms: int, step: PromoterStepView) -> bool {
        if acquired {
            step == PromoterStepView::Fetch { command: self.fetches(now_ms) }
        } else {
            step == (PromoterStepView::Rest { pause_ms: PROMOTER_PAUSE_MS as nat })
        }
    }

    /// `commands` and `failure` promote the frames `due`. The frames are
    /// taken in order, two commands for each: the first pushes the frame
    /// under a fresh id onto the head of the main list, the second removes it
    /// from the delayed set. A value that is no frame ends the pass with a
    /// failure. The lock is released last, either way.
    pub open spec fn promotes(
        self,
        due: Seq<Seq<u8>>,
        commands: Seq<CommandView>,
        failure: Option<QueueError>,
    ) -> bool {
        let n = (commands.len() - 1) / 2;
        &&& commands.len() == 2 * n + 1
        &&& n <= due.len()
        &&& commands[2 * n] == self.unlocks()
        &&& forall|i: int|
            0 <= i < n ==> parse_frame(#[trigger] due[i]) is Some && requeues_all(
                self.queue_key,
                seq![due[i]],
                commands[2 * i],
            ) && commands[2 * i + 1] == (CommandView::ZRem {
                key: self.delayed_queue_key,
                member: due[i],
            })
        &&& if n == due.len() {
            failure is None
        } else {
            parse_frame(due[n]) is None && failure == Some(QueueError::MalformedFrame)
        }
    }
}

/// A step of the promoter as a mathematical value.
pub enum PromoterStepView {
    Rest { pause_ms: nat },
    Fetch { command: CommandView },
}

impl View for PromoterStep {
    type V = PromoterStepView;

    open spec fn view(&self) -> PromoterStepView {
        match *self {
            PromoterStep::Rest { pause_ms } => PromoterStepView::Rest { pause_ms: pause_ms as nat },
            PromoterStep::Fetch { command } => PromoterStepView::Fetch { command: command@ },
        }
    }
}

impl Promoter {
    /// The command that takes the lock for one pass.
    pub fn lock_command(&self) -> (command: Command)
        ensures
            command@ == self@.locks(),
    {
        let mut value: Vec<u8> = Vec::new();
        value.push(LOCK_VALUE);
        assert(value@ =~= seq![LOCK_VALUE]);
        Command::SetNxPx {
            key: copy_key(self.delayed_lock_key.as_str()),
            value,
            ttl_ms: LOCK_TTL_MS,
        }
    }

    /// Decides on the reply to the lock at the moment `now_ms`: with the lock,
    /// read what is due by then; without it, rest.
    pub fn after_lock_at(&self, acquired: bool, now_ms: i64) -> (step: PromoterStep)
        ensures
            self@.step(acquired, now_ms as int, step@),
    {
        if acquired {
            PromoterStep::Fetch {
                command: Command::ZRangeByScore {
                    key: copy_key(self.delayed_queue_key.as_str()),
                    max: now_ms,
                },
            }
        } else {
            PromoterStep::Rest { pause_ms: PROMOTER_PAUSE_MS }
        }
    }

    /// Decides on the reply to the lock, at the moment the clock shows.
    pub fn after_lock(&self, acquired: bool) -> (step: PromoterStep)
        ensures
            exists|now_ms: i64| #[trigger] self@.step(acquired, now_ms as int, step@),
    {
        let now_ms = now_millis();
        self.after_lock_at(acquired, now_ms)
    }

    /// Plans the promotion of the frames read as due, in the order in which
    /// they were read, and the release of the lock.
    pub fn promote(&self, due: &Vec<RawPayload>) -> (plan: PromotePlan)
        ensures
            self@.promotes(frames_view(due@), commands_view(plan.commands@), plan.failure),
    {
        let mut commands: Vec<Command> = Vec::new();
        let mut failure: Option<QueueError> = None;
        let mut i: usize = 0;
        let n = due.len();
        while i < n
            invariant_except_break
                failure is None,
            invariant
                0 <= i <= n,
                n == due@.len(),
                commands@.len() == 2 * i,
                forall|k: int|
                    0 <= k < i ==> parse_frame(#[trigger] due@[k]@) is Some && requeues_all(
                        self@.queue_key,
                        seq![due@[k]@],
                        commands@[2 * k]@,
                    ) && commands@[2 * k + 1]@ == (CommandView::ZRem {
                        key: self@.delayed_queue_key,
                        member: due@[k]@,
                    }),
            ensures
                0 <= i <= n,
                commands@.len() == 2 * i,
                forall|k: int|
                    0 <= k < i ==> parse_frame(#[trigger] due@[k]@) is Some && requeues_all(
                        self@.queue_key,
                        seq![due@[k]@],
                        commands@[2 * k]@,
                    ) && commands@[2 * k + 1]@ == (CommandView::ZRem {
                        key: self@.delayed_queue_key,
                        member: due@[k]@,
                    }),
                if i == n {
                    failure is None
                } else {
                    parse_frame(due@[i as int]@) is None && failure == Some(
                        QueueError::MalformedFrame,
                    )
                },
            decreases n - i,
        {
            let mut one: Vec<RawPayload> = Vec::new();
            one.push(copy_frame(due[i].as_slice()));
            assert(frames_view(one@) =~= seq![due@[i as int]@]);
            match add_to_main_queue(one.as_slice(), self.queue_key.as_str()) {
                Err(e) => {
                    proof {
                        if parse_frame(due@[i as int]@) is Some {
                            assert(all_frames(seq![due@[i as int]@]));
                        }
                    }
                    failure = Some(e);
                    break ;
                },
                Ok(first) => {
                    assert(parse_frame(seq![due@[i as int]@][0]) is Some);
                    let second = Command::ZRem {
                        key: copy_key(self.delayed_queue_key.as_str()),
                        member: copy_frame(due[i].as_slice()),
                    };
                    let ghost before = commands@;
                    commands.push(first);
                    commands.push(second);
                    assert forall|k: int| 0 <= k < i + 1 implies parse_frame(
                        #[trigger] due@[k]@,
                    ) is Some && requeues_all(self@.queue_key, seq![due@[k]@], commands@[2 * k]@)
                        && commands@[2 * k + 1]@ == (CommandView::ZRem {
                        key: self@.delayed_queue_key,
                        member: due@[k]@,
                    }) by {
                        if k < i {
                            assert(commands@[2 * k] == before[2 * k]);
                            assert(commands@[2 * k + 1] == before[2 * k + 1]);
                        }
                    }
                    i = i + 1;
                },
            }
        }
        commands.push(Command::Del { key: copy_key(self.delayed_lock_key.as_str()) });
        proof {
            let cv = commands_view(commands@);
            let dv = frames_view(due@);
            assert(cv.len() == 2 * i + 1);
            assert((cv.len() - 1) / 2 == i as int);
            assert forall|k: int| 0 <= k < i implies parse_frame(#[trigger] dv[k]) is Some
                && requeues_all(self@.queue_key, seq![dv[k]], cv[2 * k]) && cv[2 * k + 1] == (
            CommandView::ZRem { key: self@.delayed_queue_key, member: dv[k] }) by {
                assert(parse_frame(due@[k]@) is Some);
            }
        }
        PromotePlan { commands, failure }
    }
}

} // verus!
