//! The commands that the engine asks its caller to send to the server.
//!
//! The engine decides; the caller talks to the server. Each operation hands
//! out the command to send, and a second function takes the reply.

use crate::codec::RawPayload;
use vstd::prelude::*;

verus! {

/// One command for the server.
#[derive(Debug, PartialEq, Eq)]
pub enum Command {
    /// Push each value in turn onto the head of the list.
    LPush { key: String, values: Vec<RawPayload> },
    /// Push the value onto the tail of the list.
    RPush { key: String, value: RawPayload },
    /// Remove the first `count` entries of the list that equal the value,
    /// searching from the head.
    LRem { key: String, count: isize, value: RawPayload },
    /// Read the entries of the list from index `start` to index `stop`, both
    /// included; a negative index counts from the tail.
    LRange { key: String, start: isize, stop: isize },
    /// Move the tail of `source` to the head of `destination` and return it,
    /// waiting up to the timeout for an entry; a timeout of zero waits
    /// without end.
    BRPopLPush { source: String, destination: String, timeout_ms: u64 },
    /// Add the member to the sorted set under the given score.
    ZAdd { key: String, score: i64, member: RawPayload },
    /// Read the members of the sorted set whose score is at most `max`, by
    /// ascending score.
    ZRangeByScore { key: String, max: i64 },
    /// Remove the member from the sorted set.
    ZRem { key: String, member: RawPayload },
    /// Set the key to the value if it is not set, to expire after the given
    /// time.
    SetNxPx { key: String, value: RawPayload, ttl_ms: u64 },
    /// Delete the key.
    Del { key: String },
}

/// A command as a mathematical value.
pub enum CommandView {
    LPush { key: Seq<char>, values: Seq<Seq<u8>> },
    RPush { key: Seq<char>, value: Seq<u8> },
    LRem { key: Seq<char>, count: int, value: Seq<u8> },
    LRange { key: Seq<char>, start: int, stop: int },
    BRPopLPush { source: Seq<char>, destination: Seq<char>, timeout_ms: nat },
    ZAdd { key: Seq<char>, score: int, member: Seq<u8> },
    ZRangeByScore { key: Seq<char>, max: int },
    ZRem { key: Seq<char>, member: Seq<u8> },
    SetNxPx { key: Seq<char>, value: Seq<u8>, ttl_ms: nat },
    Del { key: Seq<char> },
}

/// The frames of a vector, each as a sequence of bytes.
pub open spec fn frames_view(frames: Seq<RawPayload>) -> Seq<Seq<u8>> {
    Seq::new(frames.len(), |i: int| frames[i]@)
}

impl View for Command {
    type V = CommandView;

    open spec fn view(&self) -> CommandView {
        match *self {
            Command::LPush { key, values } => CommandView::LPush {
                key: key@,
                values: frames_view(values@),
            },
            Command::RPush { key, value } => CommandView::RPush { key: key@, value: value@ },
            Command::LRem { key, count, value } => CommandView::LRem {
                key: key@,
                count: count as int,
                value: value@,
            },
            Command::LRange { key, start, stop } => CommandView::LRange {
                key: key@,
                start: start as int,
                stop: stop as int,
            },
            Command::BRPopLPush { source, destination, timeout_ms } => CommandView::BRPopLPush {
                source: source@,
                destination: destination@,
                timeout_ms: timeout_ms as nat,
            },
            Command::ZAdd { key, score, member } => CommandView::ZAdd {
                key: key@,
                score: score as int,
                member: member@,
            },
            Command::ZRangeByScore { key, max } => CommandView::ZRangeByScore {
                key: key@,
                max: max as int,
            },
            Command::ZRem { key, member } => CommandView::ZRem { key: key@, member: member@ },
            Command::SetNxPx { key, value, ttl_ms } => CommandView::SetNxPx {
                key: key@,
                value: value@,
                ttl_ms: ttl_ms as nat,
            },
            Command::Del { key } => CommandView::Del { key: key@ },
        }
    }
}

/// The commands of a vector, each as a mathematical value.
pub open spec fn commands_view(commands: Seq<Command>) -> Seq<CommandView> {
    Seq::new(commands.len(), |i: int| commands[i]@)
}

/// A copy of a string.
pub fn copy_key(key: &str) -> (copy: String)
    ensures
        copy@ == key@,
{
    key.to_owned()
}

/// A copy of a frame.
pub fn copy_frame(frame: &[u8]) -> (copy: RawPayload)
    ensures
        copy@ == frame@,
{
    let mut copy: Vec<u8> = Vec::new();
    let mut i: usize = 0;
    while i < frame.len()
        invariant
            0 <= i <= frame.len(),
            copy@ == frame@.take(i as int),
        decreases frame.len() - i,
    {
        copy.push(frame[i]);
        assert(frame@.take(i + 1) =~= frame@.take(i as int).push(frame@[i as int]));
        i = i + 1;
    }
    assert(frame@.take(i as int) =~= frame@);
    copy
}

} // verus!
