//! What the engine expects of the server: lists, sorted sets and plain
//! values under string keys, and what each command does to them.
//!
//! The laws of the queue are stated over this model.

use crate::command::CommandView;
use crate::ident::lex_le;
use vstd::prelude::*;

verus! {

/// The state of the server, as far as the engine's commands reach.
pub struct Store {
    /// The lists, head first. A key that is not in the map holds the empty
    /// list.
    pub lists: Map<Seq<char>, Seq<Seq<u8>>>,
    /// The sorted sets: each member once, with its score, by ascending score
    /// and, under one score, in the order of byte strings.
    pub sorted: Map<Seq<char>, Seq<(int, Seq<u8>)>>,
    /// The plain values.
    pub values: Map<Seq<char>, Seq<u8>>,
}

/// What the server answers.
pub enum ReplyView {
    /// The command was carried out.
    Done,
    /// The frame that was moved, or none within the timeout.
    Frame(Option<Seq<u8>>),
    /// The entries read from a list, head first, or the members read from a
    /// sorted set, by ascending score.
    Frames(Seq<Seq<u8>>),
    /// Whether the value was set.
    Acquired(bool),
}

/// `list` without the first entry that equals `value`, searching from the
/// head.
pub open spec fn remove_first(list: Seq<Seq<u8>>, value: Seq<u8>) -> Seq<Seq<u8>>
    decreases list.len(),
{
    if list.len() == 0 {
        list
    } else if list[0] == value {
        list.drop_first()
    } else {
        seq![list[0]] + remove_first(list.drop_first(), value)
    }
}

/// `list` without the last entry that equals `value`.
pub open spec fn remove_last(list: Seq<Seq<u8>>, value: Seq<u8>) -> Seq<Seq<u8>>
    decreases list.len(),
{
    if list.len() == 0 {
        list
    } else if list.last() == value {
        list.drop_last()
    } else {
        remove_last(list.drop_last(), value).push(list.last())
    }
}

/// `list` without the first `n` entries that equal `value`.
pub open spec fn remove_first_n(list: Seq<Seq<u8>>, n: nat, value: Seq<u8>) -> Seq<Seq<u8>>
    decreases n,
{
    if n == 0 {
        list
    } else {
        remove_first_n(remove_first(list, value), (n - 1) as nat, value)
    }
}

/// `list` without the last `n` entries that equal `value`.
pub open spec fn remove_last_n(list: Seq<Seq<u8>>, n: nat, value: Seq<u8>) -> Seq<Seq<u8>>
    decreases n,
{
    if n == 0 {
        list
    } else {
        remove_last_n(remove_last(list, value), (n - 1) as nat, value)
    }
}

/// `list` without the entries that equal `value`.
pub open spec fn remove_all(list: Seq<Seq<u8>>, value: Seq<u8>) -> Seq<Seq<u8>>
    decreases list.len(),
{
    if list.len() == 0 {
        list
    } else if list.last() == value {
        remove_all(list.drop_last(), value)
    } else {
        remove_all(list.drop_last(), value).push(list.last())
    }
}

/// `list` after the removal of entries that equal `value`: the first `count`
/// of them for a positive count, the last `-count` for a negative one, all
/// for zero.
pub open spec fn remove_matching(list: Seq<Seq<u8>>, count: int, value: Seq<u8>) -> Seq<Seq<u8>> {
    if count > 0 {
        remove_first_n(list, count as nat, value)
    } else if count < 0 {
        remove_last_n(list, (-count) as nat, value)
    } else {
        remove_all(list, value)
    }
}

/// `list` with each of `values` pushed onto its head, in turn: the last of
/// them ends up first.
pub open spec fn push_front(list: Seq<Seq<u8>>, values: Seq<Seq<u8>>) -> Seq<Seq<u8>>
    decreases values.len(),
{
    if values.len() == 0 {
        list
    } else {
        push_front(seq![values[0]] + list, values.drop_first())
    }
}

/// The position that an index of a range command names in a list of `len`
/// entries: a negative index counts from the tail.
pub open spec fn position(index: int, len: int) -> int {
    if index < 0 {
        if len + index < 0 {
            0
        } else {
            len + index
        }
    } else {
        index
    }
}

/// The entries of `list` from index `start` to index `stop`, both included.
pub open spec fn range(list: Seq<Seq<u8>>, start: int, stop: int) -> Seq<Seq<u8>> {
    let from = position(start, list.len() as int);
    let to = if position(stop, list.len() as int) >= list.len() {
        list.len() - 1
    } else {
        position(stop, list.len() as int)
    };
    if from > to {
        Seq::empty()
    } else {
        list.subrange(from, to + 1)
    }
}

/// A member with this score stands before `other` in a sorted set.
pub open spec fn stands_before(score: int, member: Seq<u8>, other: (int, Seq<u8>)) -> bool {
    score < other.0 || (score == other.0 && lex_le(member, other.1))
}

/// Where a member with this score goes into a sorted set: before the first
/// entry that it stands before.
pub open spec fn rank(set: Seq<(int, Seq<u8>)>, score: int, member: Seq<u8>) -> int
    decreases set.len(),
{
    if set.len() == 0 {
        0
    } else if stands_before(score, member, set[0]) {
        0
    } else {
        1 + rank(set.drop_first(), score, member)
    }
}

/// `set` without `member`.
pub open spec fn without_member(set: Seq<(int, Seq<u8>)>, member: Seq<u8>) -> Seq<
    (int, Seq<u8>),
>
    decreases set.len(),
{
    if set.len() == 0 {
        set
    } else if set.last().1 == member {
        without_member(set.drop_last(), member)
    } else {
        without_member(set.drop_last(), member).push(set.last())
    }
}

/// `set` with `member` under `score`, and under no other.
pub open spec fn with_member(set: Seq<(int, Seq<u8>)>, score: int, member: Seq<u8>) -> Seq<
    (int, Seq<u8>),
> {
    let rest = without_member(set, member);
    rest.insert(rank(rest, score, member), (score, member))
}

/// The members of `set` whose score is at most `max`, in the order of the
/// set.
pub open spec fn up_to(set: Seq<(int, Seq<u8>)>, max: int) -> Seq<Seq<u8>>
    decreases set.len(),
{
    if set.len() == 0 {
        Seq::empty()
    } else if set.last().0 <= max {
        up_to(set.drop_last(), max).push(set.last().1)
    } else {
        up_to(set.drop_last(), max)
    }
}

impl Store {
    /// The list under `key`, head first.
    pub open spec fn list(self, key: Seq<char>) -> Seq<Seq<u8>> {
        if self.lists.dom().contains(key) {
            self.lists[key]
        } else {
            Seq::empty()
        }
    }

    /// The sorted set under `key`.
    pub open spec fn scores(self, key: Seq<char>) -> Seq<(int, Seq<u8>)> {
        if self.sorted.dom().contains(key) {
            self.sorted[key]
        } else {
            Seq::empty()
        }
    }

    /// The members of the sorted set under `key` whose score is at most
    /// `max`, by ascending score.
    pub open spec fn due(self, key: Seq<char>, max: int) -> Seq<Seq<u8>> {
        up_to(self.scores(key), max)
    }

    /// The store with `list` under `key`.
    pub open spec fn with_list(self, key: Seq<char>, list: Seq<Seq<u8>>) -> Store {
        Store { lists: self.lists.insert(key, list), ..self }
    }

    /// The store after `command`.
    pub open spec fn apply(self, command: CommandView) -> Store {
        match command {
            CommandView::LPush { key, values } => self.with_list(
                key,
                push_front(self.list(key), values),
            ),
            CommandView::RPush { key, value } => self.with_list(key, self.list(key).push(value)),
            CommandView::LRem { key, count, value } => self.with_list(
                key,
                remove_matching(self.list(key), count, value),
            ),
            CommandView::LRange { key, start, stop } => self,
            CommandView::BRPopLPush { source, destination, timeout_ms } => if self.list(
                source,
            ).len() == 0 {
                self
            } else {
                let moved = self.list(source).last();
                let popped = self.with_list(source, self.list(source).drop_last());
                popped.with_list(destination, seq![moved] + popped.list(destination))
            },
            CommandView::ZAdd { key, score, member } => Store {
                sorted: self.sorted.insert(key, with_member(self.scores(key), score, member)),
                ..self
            },
            CommandView::ZRangeByScore { key, max } => self,
            CommandView::ZRem { key, member } => Store {
                sorted: self.sorted.insert(key, without_member(self.scores(key), member)),
                ..self
            },
            CommandView::SetNxPx { key, value, ttl_ms } => if self.values.dom().contains(key) {
                self
            } else {
                Store { values: self.values.insert(key, value), ..self }
            },
            CommandView::Del { key } => Store {
                lists: self.lists.remove(key),
                sorted: self.sorted.remove(key),
                values: self.values.remove(key),
            },
        }
    }

    /// What the server answers to `command` in this state.
    pub open spec fn reply(self, command: CommandView) -> ReplyView {
        match command {
            CommandView::LRange { key, start, stop } => ReplyView::Frames(
                range(self.list(key), start, stop),
            ),
            CommandView::BRPopLPush { source, destination, timeout_ms } => if self.list(
                source,
            ).len() == 0 {
                ReplyView::Frame(None)
            } else {
                ReplyView::Frame(Some(self.list(source).last()))
            },
            CommandView::ZRangeByScore { key, max } => ReplyView::Frames(self.due(key, max)),
            CommandView::SetNxPx { key, value, ttl_ms } => ReplyView::Acquired(
                !self.values.dom().contains(key),
            ),
            _ => ReplyView::Done,
        }
    }

    /// The store after each of `commands`, in turn.
    pub open spec fn apply_all(self, commands: Seq<CommandView>) -> Store
        decreases commands.len(),
    {
        if commands.len() == 0 {
            self
        } else {
            self.apply_all(commands.drop_last()).apply(commands.last())
        }
    }
}

/// What is in a sorted set without a member: the entries of the others.
pub proof fn lemma_without_member(set: Seq<(int, Seq<u8>)>, member: Seq<u8>, entry: (int, Seq<u8>))
    ensures
        without_member(set, member).contains(entry) <==> set.contains(entry) && entry.1 != member,
    decreases set.len(),
{
    if set.len() > 0 {
        let rest = set.drop_last();
        lemma_without_member(rest, member, entry);
        let kept = without_member(rest, member);
        if set.contains(entry) {
            let i = choose|i: int| 0 <= i < set.len() && set[i] == entry;
            if i < set.len() - 1 {
                assert(rest[i] == entry);
            }
        }
        if rest.contains(entry) {
            let i = choose|i: int| 0 <= i < rest.len() && rest[i] == entry;
            assert(set[i] == entry);
        }
        if set.last().1 != member {
            let all = kept.push(set.last());
            assert(all.last() == set.last());
            if kept.contains(entry) {
                let i = choose|i: int| 0 <= i < kept.len() && kept[i] == entry;
                assert(all[i] == entry);
            }
            if all.contains(entry) {
                let i = choose|i: int| 0 <= i < all.len() && all[i] == entry;
                if i < kept.len() {
                    assert(kept[i] == entry);
                }
            }
            assert(set[set.len() - 1] == set.last());
        }
    }
}

/// A member up to a score has an entry up to that score.
pub proof fn lemma_up_to_entry(set: Seq<(int, Seq<u8>)>, max: int, member: Seq<u8>) -> (score: int)
    requires
        up_to(set, max).contains(member),
    ensures
        score <= max,
        set.contains((score, member)),
    decreases set.len(),
{
    let all = up_to(set, max);
    let j = choose|j: int| 0 <= j < all.len() && all[j] == member;
    if set.len() == 0 {
        0
    } else {
        let rest = set.drop_last();
        let found = up_to(rest, max);
        let last = set.last();
        assert(set[set.len() - 1] == last);
        if last.0 <= max && j == found.len() {
            assert(last == (last.0, member));
            last.0
        } else {
            assert(found[j] == member);
            let score = lemma_up_to_entry(rest, max, member);
            let i = choose|i: int| 0 <= i < rest.len() && rest[i] == (score, member);
            assert(set[i] == (score, member));
            score
        }
    }
}

/// An entry up to a score has its member among the members up to that
/// score.
pub proof fn lemma_up_to_member(set: Seq<(int, Seq<u8>)>, max: int, score: int, member: Seq<u8>)
    requires
        score <= max,
        set.contains((score, member)),
    ensures
        up_to(set, max).contains(member),
    decreases set.len(),
{
    let i = choose|i: int| 0 <= i < set.len() && set[i] == (score, member);
    let rest = set.drop_last();
    let found = up_to(rest, max);
    let last = set.last();
    if i < set.len() - 1 {
        assert(rest[i] == (score, member));
        lemma_up_to_member(rest, max, score, member);
        let j = choose|j: int| 0 <= j < found.len() && found[j] == member;
        if last.0 <= max {
            assert(found.push(last.1)[j] == member);
        }
    } else {
        assert(found.push(last.1)[found.len() as int] == member);
    }
}

/// After a member was added under a score, it is among the members up to
/// `max` exactly when its score is.
pub proof fn lemma_with_member_due(
    set: Seq<(int, Seq<u8>)>,
    score: int,
    member: Seq<u8>,
    max: int,
)
    ensures
        up_to(with_member(set, score, member), max).contains(member) <==> score <= max,
{
    let rest = without_member(set, member);
    let at = rank(rest, score, member);
    lemma_rank_bounds(rest, score, member);
    let all = rest.insert(at, (score, member));
    assert(all[at] == (score, member));
    assert(all.contains((score, member)));
    if score <= max {
        lemma_up_to_member(all, max, score, member);
    }
    if up_to(all, max).contains(member) {
        let other = lemma_up_to_entry(all, max, member);
        assert(all.contains((other, member)));
    }
    assert forall|other: int| all.contains((other, member)) implies other == score by {
        let i = choose|i: int| 0 <= i < all.len() && all[i] == (other, member);
        if i < at {
            assert(rest[i] == (other, member));
            lemma_without_member(set, member, (other, member));
        } else if i > at {
            assert(rest[i - 1] == (other, member));
            lemma_without_member(set, member, (other, member));
        }
    }
}

/// A rank is a position of the set, or its end.
pub proof fn lemma_rank_bounds(set: Seq<(int, Seq<u8>)>, score: int, member: Seq<u8>)
    ensures
        0 <= rank(set, score, member) <= set.len(),
    decreases set.len(),
{
    if set.len() > 0 && !stands_before(score, member, set[0]) {
        lemma_rank_bounds(set.drop_first(), score, member);
    }
}

} // verus!
