//! A store in memory that does to its lists, sorted sets and values what the
//! model says the server does. The engine can be run against it without a
//! server.

use crate::codec::RawPayload;
use crate::command::{copy_frame, copy_key, frames_view, Command};
use crate::ident::bytes_le;
use crate::slots::Slots;
use crate::store::{
    push_front, range, rank, remove_all, remove_first, remove_first_n, remove_last,
    remove_last_n, remove_matching, stands_before, up_to, with_member, without_member, ReplyView,
    Store,
};
use vstd::prelude::*;

verus! {

/// Whether two byte strings are the same.
pub fn same_bytes(a: &[u8], b: &[u8]) -> (same: bool)
    ensures
        same == (a@ == b@),
{
    if a.len() != b.len() {
        return false;
    }
    let mut i: usize = 0;
    while i < a.len()
        invariant
            0 <= i <= a.len(),
            a.len() == b.len(),
            a@.take(i as int) == b@.take(i as int),
        decreases a.len() - i,
    {
        if a[i] != b[i] {
            return false;
        }
        assert(a@.take(i + 1) =~= a@.take(i as int).push(a@[i as int]));
        assert(b@.take(i + 1) =~= b@.take(i as int).push(b@[i as int]));
        i = i + 1;
    }
    assert(a@.take(i as int) =~= a@);
    assert(b@.take(i as int) =~= b@);
    true
}

/// A copy of a list of frames.
pub fn copy_frames(frames: &Vec<RawPayload>) -> (copy: Vec<RawPayload>)
    ensures
        frames_view(copy@) == frames_view(frames@),
{
    let mut copy: Vec<RawPayload> = Vec::new();
    let mut i: usize = 0;
    while i < frames.len()
        invariant
            0 <= i <= frames.len(),
            copy@.len() == i,
            forall|k: int| 0 <= k < i ==> (#[trigger] copy@[k])@ == frames@[k]@,
        decreases frames.len() - i,
    {
        copy.push(copy_frame(frames[i].as_slice()));
        i = i + 1;
    }
    assert(frames_view(copy@) =~= frames_view(frames@));
    copy
}

/// Removing the first match takes out the entry at the first index that
/// holds the value.
pub proof fn lemma_remove_first_at(list: Seq<Seq<u8>>, value: Seq<u8>, at: int)
    requires
        0 <= at < list.len(),
        list[at] == value,
        forall|i: int| 0 <= i < at ==> list[i] != value,
    ensures
        remove_first(list, value) == list.remove(at),
    decreases list.len(),
{
    if at == 0 {
        assert(list.remove(0) =~= list.drop_first());
    } else {
        let rest = list.drop_first();
        lemma_remove_first_at(rest, value, at - 1);
        assert(seq![list[0]] + rest.remove(at - 1) =~= list.remove(at));
    }
}

/// Removing the first match of a value that the list does not hold leaves
/// the list as it is.
pub proof fn lemma_remove_first_none(list: Seq<Seq<u8>>, value: Seq<u8>)
    requires
        forall|i: int| 0 <= i < list.len() ==> list[i] != value,
    ensures
        remove_first(list, value) == list,
    decreases list.len(),
{
    if list.len() > 0 {
        let rest = list.drop_first();
        lemma_remove_first_none(rest, value);
        assert(seq![list[0]] + rest =~= list);
    }
}

/// Removing the last match takes out the entry at the last index that holds
/// the value.
pub proof fn lemma_remove_last_at(list: Seq<Seq<u8>>, value: Seq<u8>, at: int)
    requires
        0 <= at < list.len(),
        list[at] == value,
        forall|i: int| at < i < list.len() ==> list[i] != value,
    ensures
        remove_last(list, value) == list.remove(at),
    decreases list.len(),
{
    if at == list.len() - 1 {
        assert(list.remove(at) =~= list.drop_last());
    } else {
        let rest = list.drop_last();
        lemma_remove_last_at(rest, value, at);
        assert(rest.remove(at).push(list.last()) =~= list.remove(at));
    }
}

/// Removing the last match of a value that the list does not hold leaves the
/// list as it is.
pub proof fn lemma_remove_last_none(list: Seq<Seq<u8>>, value: Seq<u8>)
    requires
        forall|i: int| 0 <= i < list.len() ==> list[i] != value,
    ensures
        remove_last(list, value) == list,
    decreases list.len(),
{
    if list.len() > 0 {
        let rest = list.drop_last();
        lemma_remove_last_none(rest, value);
        assert(rest.push(list.last()) =~= list);
    }
}

/// Once a removal changes nothing, further removals change nothing.
pub proof fn lemma_remove_first_n_fixed(list: Seq<Seq<u8>>, n: nat, value: Seq<u8>)
    requires
        remove_first(list, value) == list,
    ensures
        remove_first_n(list, n, value) == list,
    decreases n,
{
    if n > 0 {
        lemma_remove_first_n_fixed(list, (n - 1) as nat, value);
    }
}

/// Once a removal changes nothing, further removals change nothing.
pub proof fn lemma_remove_last_n_fixed(list: Seq<Seq<u8>>, n: nat, value: Seq<u8>)
    requires
        remove_last(list, value) == list,
    ensures
        remove_last_n(list, n, value) == list,
    decreases n,
{
    if n > 0 {
        lemma_remove_last_n_fixed(list, (n - 1) as nat, value);
    }
}

/// Pushes each of `values` onto the head of `list`, in turn.
pub fn push_front_all(list: &mut Vec<RawPayload>, values: &Vec<RawPayload>)
    ensures
        frames_view(final(list)@) == push_front(frames_view(old(list)@), frames_view(values@)),
{
    let mut i: usize = 0;
    assert(frames_view(values@).skip(0) =~= frames_view(values@));
    while i < values.len()
        invariant
            0 <= i <= values.len(),
            push_front(frames_view(list@), frames_view(values@).skip(i as int)) == push_front(
                frames_view(old(list)@),
                frames_view(values@),
            ),
        decreases values.len() - i,
    {
        let ghost before = frames_view(list@);
        let ghost rest = frames_view(values@).skip(i as int);
        list.insert(0, copy_frame(values[i].as_slice()));
        assert(frames_view(list@) =~= seq![rest[0]] + before);
        assert(rest.drop_first() =~= frames_view(values@).skip(i + 1));
        i = i + 1;
    }
}

/// Removes the first entry of `list` that equals `value`, and says whether
/// there was one.
pub fn remove_first_match(list: &mut Vec<RawPayload>, value: &[u8]) -> (removed: bool)
    ensures
        frames_view(final(list)@) == remove_first(frames_view(old(list)@), value@),
        !removed ==> frames_view(final(list)@) == frames_view(old(list)@),
{
    let mut i: usize = 0;
    while i < list.len()
        invariant
            0 <= i <= list.len(),
            list@ == old(list)@,
            forall|k: int| 0 <= k < i ==> frames_view(list@)[k] != value@,
        decreases list.len() - i,
    {
        if same_bytes(list[i].as_slice(), value) {
            let ghost before = frames_view(list@);
            proof {
                lemma_remove_first_at(before, value@, i as int);
            }
            list.remove(i);
            assert(frames_view(list@) =~= before.remove(i as int));
            return true;
        }
        i = i + 1;
    }
    proof {
        lemma_remove_first_none(frames_view(list@), value@);
    }
    false
}

/// Removes the last entry of `list` that equals `value`, and says whether
/// there was one.
pub fn remove_last_match(list: &mut Vec<RawPayload>, value: &[u8]) -> (removed: bool)
    ensures
        frames_view(final(list)@) == remove_last(frames_view(old(list)@), value@),
        !removed ==> frames_view(final(list)@) == frames_view(old(list)@),
{
    let mut i: usize = list.len();
    while i > 0
        invariant
            0 <= i <= list.len(),
            list@ == old(list)@,
            forall|k: int| i <= k < list.len() ==> frames_view(list@)[k] != value@,
        decreases i,
    {
        i = i - 1;
        if same_bytes(list[i].as_slice(), value) {
            let ghost before = frames_view(list@);
            proof {
                lemma_remove_last_at(before, value@, i as int);
            }
            list.remove(i);
            assert(frames_view(list@) =~= before.remove(i as int));
            return true;
        }
    }
    proof {
        lemma_remove_last_none(frames_view(list@), value@);
    }
    false
}

/// `list` without the entries that equal `value`.
pub fn remove_all_matches(list: &Vec<RawPayload>, value: &[u8]) -> (kept: Vec<RawPayload>)
    ensures
        frames_view(kept@) == remove_all(frames_view(list@), value@),
{
    let mut kept: Vec<RawPayload> = Vec::new();
    let mut i: usize = 0;
    assert(frames_view(list@).take(0) =~= Seq::<Seq<u8>>::empty());
    assert(frames_view(kept@) =~= Seq::<Seq<u8>>::empty());
    while i < list.len()
        invariant
            0 <= i <= list.len(),
            frames_view(kept@) == remove_all(frames_view(list@).take(i as int), value@),
        decreases list.len() - i,
    {
        let ghost seen = frames_view(list@).take(i as int);
        let ghost next = frames_view(list@).take(i + 1);
        assert(next.drop_last() =~= seen);
        assert(next.last() == list@[i as int]@);
        if !same_bytes(list[i].as_slice(), value) {
            let ghost before = frames_view(kept@);
            kept.push(copy_frame(list[i].as_slice()));
            assert(frames_view(kept@) =~= before.push(list@[i as int]@));
        }
        i = i + 1;
    }
    assert(frames_view(list@).take(i as int) =~= frames_view(list@));
    kept
}

/// Removes entries of `list` that equal `value`: the first `count` of them
/// for a positive count, the last `-count` for a negative one, all for zero.
pub fn remove_matches(list: &mut Vec<RawPayload>, count: isize, value: &[u8])
    ensures
        frames_view(final(list)@) == remove_matching(
            frames_view(old(list)@),
            count as int,
            value@,
        ),
{
    if count > 0 {
        let mut left: usize = count as usize;
        while left > 0
            invariant
                count > 0,
                remove_first_n(frames_view(list@), left as nat, value@) == remove_first_n(
                    frames_view(old(list)@),
                    count as nat,
                    value@,
                ),
            decreases left,
        {
            let removed = remove_first_match(list, value);
            if !removed {
                proof {
                    lemma_remove_first_n_fixed(frames_view(list@), left as nat, value@);
                }
                return ;
            }
            left = left - 1;
        }
    } else if count < 0 {
        let mut left: usize = (-(count + 1)) as usize + 1;
        while left > 0
            invariant
                count < 0,
                remove_last_n(frames_view(list@), left as nat, value@) == remove_last_n(
                    frames_view(old(list)@),
                    (-count) as nat,
                    value@,
                ),
            decreases left,
        {
            let removed = remove_last_match(list, value);
            if !removed {
                proof {
                    lemma_remove_last_n_fixed(frames_view(list@), left as nat, value@);
                }
                return ;
            }
            left = left - 1;
        }
    } else {
        let kept = remove_all_matches(list, value);
        *list = kept;
    }
}

/// The entries of `list` from index `start` to index `stop`, both included;
/// a negative index counts from the tail.
pub fn read_range(list: &Vec<RawPayload>, start: isize, stop: isize) -> (read: Vec<RawPayload>)
    ensures
        frames_view(read@) == range(frames_view(list@), start as int, stop as int),
{
    let len: i128 = list.len() as i128;
    let from: i128 = if start < 0 {
        if len + (start as i128) < 0 {
            0
        } else {
            len + (start as i128)
        }
    } else {
        start as i128
    };
    let end: i128 = if stop < 0 {
        if len + (stop as i128) < 0 {
            0
        } else {
            len + (stop as i128)
        }
    } else {
        stop as i128
    };
    let to: i128 = if end >= len {
        len - 1
    } else {
        end
    };
    let mut read: Vec<RawPayload> = Vec::new();
    if from > to {
        assert(frames_view(read@) =~= Seq::<Seq<u8>>::empty());
        return read;
    }
    let first: usize = from as usize;
    let last: usize = to as usize;
    let mut i: usize = first;
    while i <= last
        invariant
            first <= i <= last + 1,
            last < list.len(),
            read@.len() == i - first,
            forall|k: int| 0 <= k < i - first ==> (#[trigger] read@[k])@ == list@[first + k]@,
        decreases last + 1 - i,
    {
        read.push(copy_frame(list[i].as_slice()));
        i = i + 1;
    }
    assert(frames_view(read@) =~= frames_view(list@).subrange(first as int, last + 1));
    read
}

/// A sorted set as a mathematical value.
pub open spec fn scored_view(set: Seq<(i64, RawPayload)>) -> Seq<(int, Seq<u8>)> {
    Seq::new(set.len(), |i: int| (set[i].0 as int, set[i].1@))
}

/// A rank is the first position whose entry the new one stands before.
pub proof fn lemma_rank_is(set: Seq<(int, Seq<u8>)>, score: int, member: Seq<u8>, at: int)
    requires
        0 <= at <= set.len(),
        forall|i: int| 0 <= i < at ==> !stands_before(score, member, #[trigger] set[i]),
        at < set.len() ==> stands_before(score, member, set[at]),
    ensures
        rank(set, score, member) == at,
    decreases set.len(),
{
    if set.len() > 0 && at > 0 {
        assert(!stands_before(score, member, set[0]));
        let rest = set.drop_first();
        assert forall|i: int| 0 <= i < at - 1 implies !stands_before(
            score,
            member,
            #[trigger] rest[i],
        ) by {
            assert(!stands_before(score, member, set[i + 1]));
        }
        lemma_rank_is(rest, score, member, at - 1);
    }
}

/// `set` without `member`.
pub fn drop_member(set: &Vec<(i64, RawPayload)>, member: &[u8]) -> (kept: Vec<(i64, RawPayload)>)
    ensures
        scored_view(kept@) == without_member(scored_view(set@), member@),
{
    let mut kept: Vec<(i64, RawPayload)> = Vec::new();
    let mut i: usize = 0;
    assert(scored_view(set@).take(0) =~= Seq::<(int, Seq<u8>)>::empty());
    assert(scored_view(kept@) =~= Seq::<(int, Seq<u8>)>::empty());
    while i < set.len()
        invariant
            0 <= i <= set.len(),
            scored_view(kept@) == without_member(scored_view(set@).take(i as int), member@),
        decreases set.len() - i,
    {
        let ghost seen = scored_view(set@).take(i as int);
        let ghost next = scored_view(set@).take(i + 1);
        assert(next.drop_last() =~= seen);
        assert(next.last() == (set@[i as int].0 as int, set@[i as int].1@));
        if !same_bytes(set[i].1.as_slice(), member) {
            let ghost before = scored_view(kept@);
            kept.push((set[i].0, copy_frame(set[i].1.as_slice())));
            assert(scored_view(kept@) =~= before.push(next.last()));
        }
        i = i + 1;
    }
    assert(scored_view(set@).take(i as int) =~= scored_view(set@));
    kept
}

/// `set` with `member` under `score`, and under no other.
pub fn add_member(set: &Vec<(i64, RawPayload)>, score: i64, member: &[u8]) -> (added: Vec<
    (i64, RawPayload),
>)
    ensures
        scored_view(added@) == with_member(scored_view(set@), score as int, member@),
{
    let mut rest = drop_member(set, member);
    let mut i: usize = 0;
    while i < rest.len() && !(score < rest[i].0 || (score == rest[i].0 && bytes_le(
        member,
        rest[i].1.as_slice(),
    )))
        invariant
            0 <= i <= rest.len(),
            forall|k: int|
                0 <= k < i ==> !stands_before(
                    score as int,
                    member@,
                    #[trigger] scored_view(rest@)[k],
                ),
        decreases rest.len() - i,
    {
        i = i + 1;
    }
    proof {
        lemma_rank_is(scored_view(rest@), score as int, member@, i as int);
    }
    let ghost before = scored_view(rest@);
    rest.insert(i, (score, copy_frame(member)));
    assert(scored_view(rest@) =~= before.insert(i as int, (score as int, member@)));
    rest
}

/// The members of `set` whose score is at most `max`, in the order of the
/// set.
pub fn members_up_to(set: &Vec<(i64, RawPayload)>, max: i64) -> (members: Vec<RawPayload>)
    ensures
        frames_view(members@) == up_to(scored_view(set@), max as int),
{
    let mut members: Vec<RawPayload> = Vec::new();
    let mut i: usize = 0;
    assert(scored_view(set@).take(0) =~= Seq::<(int, Seq<u8>)>::empty());
    assert(frames_view(members@) =~= Seq::<Seq<u8>>::empty());
    while i < set.len()
        invariant
            0 <= i <= set.len(),
            frames_view(members@) == up_to(scored_view(set@).take(i as int), max as int),
        decreases set.len() - i,
    {
        let ghost seen = scored_view(set@).take(i as int);
        let ghost next = scored_view(set@).take(i + 1);
        assert(next.drop_last() =~= seen);
        assert(next.last() == (set@[i as int].0 as int, set@[i as int].1@));
        if set[i].0 <= max {
            let ghost before = frames_view(members@);
            members.push(copy_frame(set[i].1.as_slice()));
            assert(frames_view(members@) =~= before.push(set@[i as int].1@));
        }
        i = i + 1;
    }
    assert(scored_view(set@).take(i as int) =~= scored_view(set@));
    members
}

/// What the store answers to a command.
#[derive(Debug, PartialEq, Eq)]
pub enum Reply {
    /// The command was carried out.
    Done,
    /// The frame that was moved, or none.
    Frame(Option<RawPayload>),
    /// The entries read from a list, head first, or the members read from a
    /// sorted set, by ascending score.
    Frames(Vec<RawPayload>),
    /// Whether the value was set.
    Acquired(bool),
}

impl View for Reply {
    type V = ReplyView;

    open spec fn view(&self) -> ReplyView {
        match *self {
            Reply::Done => ReplyView::Done,
            Reply::Frame(Some(frame)) => ReplyView::Frame(Some(frame@)),
            Reply::Frame(None) => ReplyView::Frame(None),
            Reply::Frames(frames) => ReplyView::Frames(frames_view(frames@)),
            Reply::Acquired(acquired) => ReplyView::Acquired(acquired),
        }
    }
}

/// A store in memory. It never waits: a claim on an empty list comes back
/// empty at once, and a value set with a lifetime stays until it is deleted.
pub struct MemoryStore {
    pub lists: Slots<Vec<RawPayload>>,
    pub sorted: Slots<Vec<(i64, RawPayload)>>,
    pub values: Slots<RawPayload>,
}

impl View for MemoryStore {
    type V = Store;

    open spec fn view(&self) -> Store {
        Store {
            lists: Map::new(
                |key: Seq<char>| self.lists.get(key) is Some,
                |key: Seq<char>| frames_view(self.lists.get(key).unwrap()@),
            ),
            sorted: Map::new(
                |key: Seq<char>| self.sorted.get(key) is Some,
                |key: Seq<char>| scored_view(self.sorted.get(key).unwrap()@),
            ),
            values: Map::new(
                |key: Seq<char>| self.values.get(key) is Some,
                |key: Seq<char>| self.values.get(key).unwrap()@,
            ),
        }
    }
}

impl MemoryStore {
    /// Each key stands once in each kind of slot.
    pub open spec fn wf(&self) -> bool {
        self.lists.wf() && self.sorted.wf() && self.values.wf()
    }

    /// A store that holds nothing.
    pub fn new() -> (store: MemoryStore)
        ensures
            store.wf(),
            store@ == (Store { lists: Map::empty(), sorted: Map::empty(), values: Map::empty() }),
    {
        let store = MemoryStore { lists: Slots::new(), sorted: Slots::new(), values: Slots::new() };
        assert(store@.lists =~= Map::empty());
        assert(store@.sorted =~= Map::empty());
        assert(store@.values =~= Map::empty());
        store
    }

    /// The list under `key`, head first; empty where there is none.
    pub fn list(&self, key: &str) -> (list: Vec<RawPayload>)
        requires
            self.wf(),
        ensures
            frames_view(list@) == self@.list(key@),
    {
        let key = copy_key(key);
        match self.lists.position(&key) {
            Some(at) => copy_frames(&self.lists.entries[at].1),
            None => {
                let list: Vec<RawPayload> = Vec::new();
                assert(frames_view(list@) =~= Seq::<Seq<u8>>::empty());
                list
            },
        }
    }

    fn put_list(&mut self, key: &str, list: Vec<RawPayload>)
        requires
            old(self).wf(),
        ensures
            final(self).wf(),
            final(self)@ == old(self)@.with_list(key@, frames_view(list@)),
    {
        self.lists.put(copy_key(key), list);
        assert(self@.lists =~= old(self)@.lists.insert(key@, frames_view(list@)));
    }

    fn scores(&self, key: &str) -> (set: Vec<(i64, RawPayload)>)
        requires
            self.wf(),
        ensures
            scored_view(set@) == self@.scores(key@),
    {
        let key = copy_key(key);
        match self.sorted.position(&key) {
            Some(at) => {
                let held = &self.sorted.entries[at].1;
                let mut set: Vec<(i64, RawPayload)> = Vec::new();
                let mut i: usize = 0;
                while i < held.len()
                    invariant
                        0 <= i <= held.len(),
                        set@.len() == i,
                        forall|k: int|
                            0 <= k < i ==> (#[trigger] set@[k]).0 == held@[k].0 && set@[k].1@
                                == held@[k].1@,
                    decreases held.len() - i,
                {
                    set.push((held[i].0, copy_frame(held[i].1.as_slice())));
                    i = i + 1;
                }
                assert(scored_view(set@) =~= scored_view(held@));
                set
            },
            None => {
                let set: Vec<(i64, RawPayload)> = Vec::new();
                assert(scored_view(set@) =~= Seq::<(int, Seq<u8>)>::empty());
                set
            },
        }
    }

    fn put_scores(&mut self, key: &str, set: Vec<(i64, RawPayload)>)
        requires
            old(self).wf(),
        ensures
            final(self).wf(),
            final(self)@ == (Store {
                sorted: old(self)@.sorted.insert(key@, scored_view(set@)),
                ..old(self)@
            }),
    {
        self.sorted.put(copy_key(key), set);
        assert(self@.sorted =~= old(self)@.sorted.insert(key@, scored_view(set@)));
    }

    /// Carries out `command` and answers it, as the model says.
    pub fn execute(&mut self, command: &Command) -> (reply: Reply)
        requires
            old(self).wf(),
        ensures
            final(self).wf(),
            final(self)@ == old(self)@.apply(command@),
            reply@ == old(self)@.reply(command@),
    {
        match command {
            Command::LPush { key, values } => {
                let mut list = self.list(key.as_str());
                push_front_all(&mut list, values);
                self.put_list(key.as_str(), list);
                Reply::Done
            },
            Command::RPush { key, value } => {
                let mut list = self.list(key.as_str());
                let ghost before = frames_view(list@);
                list.push(copy_frame(value.as_slice()));
                assert(frames_view(list@) =~= before.push(value@));
                self.put_list(key.as_str(), list);
                Reply::Done
            },
            Command::LRem { key, count, value } => {
                let mut list = self.list(key.as_str());
                remove_matches(&mut list, *count, value.as_slice());
                self.put_list(key.as_str(), list);
                Reply::Done
            },
            Command::LRange { key, start, stop } => {
                let list = self.list(key.as_str());
                Reply::Frames(read_range(&list, *start, *stop))
            },
            Command::BRPopLPush { source, destination, timeout_ms } => {
                let mut from = self.list(source.as_str());
                match from.pop() {
                    None => Reply::Frame(None),
                    Some(moved) => {
                        assert(frames_view(from@) =~= old(self)@.list(source@).drop_last());
                        self.put_list(source.as_str(), from);
                        let mut to = self.list(destination.as_str());
                        let ghost before = frames_view(to@);
                        to.insert(0, copy_frame(moved.as_slice()));
                        assert(frames_view(to@) =~= seq![moved@] + before);
                        self.put_list(destination.as_str(), to);
                        Reply::Frame(Some(moved))
                    },
                }
            },
            Command::ZAdd { key, score, member } => {
                let set = self.scores(key.as_str());
                let added = add_member(&set, *score, member.as_slice());
                self.put_scores(key.as_str(), added);
                Reply::Done
            },
            Command::ZRangeByScore { key, max } => {
                let set = self.scores(key.as_str());
                Reply::Frames(members_up_to(&set, *max))
            },
            Command::ZRem { key, member } => {
                let set = self.scores(key.as_str());
                let kept = drop_member(&set, member.as_slice());
                self.put_scores(key.as_str(), kept);
                Reply::Done
            },
            Command::SetNxPx { key, value, ttl_ms } => {
                let held = self.values.position(key);
                match held {
                    Some(_) => Reply::Acquired(false),
                    None => {
                        self.values.put(copy_key(key.as_str()), copy_frame(value.as_slice()));
                        assert(self@.values =~= old(self)@.values.insert(key@, value@));
                        Reply::Acquired(true)
                    },
                }
            },
            Command::Del { key } => {
                self.lists.delete(key);
                self.sorted.delete(key);
                self.values.delete(key);
                assert(self@.lists =~= old(self)@.lists.remove(key@));
                assert(self@.sorted =~= old(self)@.sorted.remove(key@));
                assert(self@.values =~= old(self)@.values.remove(key@));
                Reply::Done
            },
        }
    }
}

} // verus!
