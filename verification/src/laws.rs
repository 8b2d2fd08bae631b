//! The laws of the queue, over the model of the server.

use crate::acker::AckerView;
use crate::codec::{
    is_frame_of, legacy_frame, lemma_id_separator_free, lemma_parse_frame_of_fresh,
    lemma_parse_frame_of_legacy, parse_frame, separator_free,
};
use crate::command::CommandView;
use crate::consumer::ConsumerView;
use crate::delivery::DeliveryView;
use crate::error::QueueError;
use crate::ident::{is_id, lex_le};
use crate::producer::{due_time, enqueues, requeues_all, ProducerView};
use crate::promoter::PromoterView;
use crate::reaper::{head_overdue, next_attempts, ReaperView, BATCH_SIZE};
use crate::store::{
    lemma_with_member_due, lemma_without_member, push_front, range, remove_first,
    remove_first_n, remove_matching, up_to, without_member, ReplyView, Store,
};
use vstd::prelude::*;

verus! {

/// What a consumer gets from a claim on `store`: the server's answer to the
/// claim, taken as `receive_with_timeout` takes it.
pub open spec fn received(store: Store, consumer: ConsumerView) -> Result<
    Option<DeliveryView>,
    QueueError,
> {
    match store.reply(consumer.claim(0)) {
        ReplyView::Frame(frame) => consumer.claimed(Ok(frame)),
        _ => Ok(None),
    }
}

/// The store after `n` claims of `consumer`.
pub open spec fn after_claims(store: Store, consumer: ConsumerView, n: nat) -> Store
    decreases n,
{
    if n == 0 {
        store
    } else {
        after_claims(store.apply(consumer.claim(0)), consumer, (n - 1) as nat)
    }
}

/// Pushing one value puts it first.
pub proof fn lemma_push_front_one(list: Seq<Seq<u8>>, value: Seq<u8>)
    ensures
        push_front(list, seq![value]) == seq![value] + list,
{
    let values = seq![value];
    assert(values.drop_first() =~= Seq::<Seq<u8>>::empty());
    assert(push_front(seq![value] + list, values.drop_first()) == seq![value] + list);
}

/// Removing one match takes the first entry that equals the value.
pub proof fn lemma_remove_one(list: Seq<Seq<u8>>, value: Seq<u8>)
    ensures
        remove_matching(list, 1, value) == remove_first(list, value),
{
    assert(remove_first_n(remove_first(list, value), 0, value) == remove_first(list, value));
}

/// A claim on a main list that is not empty moves its tail to the head of
/// the processing list.
pub proof fn lemma_claim(store: Store, consumer: ConsumerView)
    requires
        consumer.queue_key != consumer.processing_queue_key,
        store.list(consumer.queue_key).len() > 0,
    ensures
        store.reply(consumer.claim(0)) == ReplyView::Frame(
            Some(store.list(consumer.queue_key).last()),
        ),
        store.apply(consumer.claim(0)).list(consumer.queue_key) == store.list(
            consumer.queue_key,
        ).drop_last(),
        store.apply(consumer.claim(0)).list(consumer.processing_queue_key) == seq![
            store.list(consumer.queue_key).last(),
        ] + store.list(consumer.processing_queue_key),
{
}

/// Round trip, with nothing pending: a payload that was sent is what the
/// next receive delivers, never delivered before.
pub proof fn lemma_round_trip(
    store: Store,
    producer: ProducerView,
    consumer: ConsumerView,
    payload: Seq<u8>,
    send: CommandView,
)
    requires
        producer.queue_key == consumer.queue_key,
        store.list(producer.queue_key).len() == 0,
        enqueues(producer.queue_key, payload, send),
    ensures
        received(store.apply(send), consumer) matches Ok(Some(delivery)) && delivery.payload
            == Some(payload) && delivery.acker.num_receives == 0
            && !delivery.acker.already_acked_or_nacked,
{
    let frame = send->LPush_values[0];
    assert(send->LPush_values =~= seq![frame]);
    lemma_push_front_one(store.list(producer.queue_key), frame);
    lemma_parse_frame_of_fresh(frame, 0, payload);
    let after = store.apply(send);
    assert(after.list(consumer.queue_key) =~= seq![frame]);
}

/// Round trip, behind what is pending: a payload that was sent onto a main
/// list of `n` frames is what the receive after `n` more claims delivers.
pub proof fn lemma_round_trip_in_turn(
    store: Store,
    producer: ProducerView,
    consumer: ConsumerView,
    payload: Seq<u8>,
    send: CommandView,
)
    requires
        producer.queue_key == consumer.queue_key,
        consumer.queue_key != consumer.processing_queue_key,
        enqueues(producer.queue_key, payload, send),
    ensures
        received(
            after_claims(store.apply(send), consumer, store.list(producer.queue_key).len()),
            consumer,
        ) matches Ok(Some(delivery)) && delivery.payload == Some(payload)
            && delivery.acker.num_receives == 0,
{
    let frame = send->LPush_values[0];
    assert(send->LPush_values =~= seq![frame]);
    let pending = store.list(producer.queue_key);
    lemma_push_front_one(pending, frame);
    lemma_parse_frame_of_fresh(frame, 0, payload);
    let sent = store.apply(send);
    assert(sent.list(consumer.queue_key) == seq![frame] + pending);
    lemma_claims_reach(sent, consumer, frame, pending);
}

/// Claims take the main list from its tail: after as many claims as there are
/// frames behind it, a frame is the last of the main list.
pub proof fn lemma_claims_reach(
    store: Store,
    consumer: ConsumerView,
    frame: Seq<u8>,
    pending: Seq<Seq<u8>>,
)
    requires
        consumer.queue_key != consumer.processing_queue_key,
        store.list(consumer.queue_key) == seq![frame] + pending,
    ensures
        after_claims(store, consumer, pending.len()).list(consumer.queue_key) == seq![frame],
    decreases pending.len(),
{
    if pending.len() == 0 {
        assert(seq![frame] + pending =~= seq![frame]);
    } else {
        lemma_claim(store, consumer);
        let next = store.apply(consumer.claim(0));
        assert(next.list(consumer.queue_key) =~= seq![frame] + pending.drop_last());
        lemma_claims_reach(next, consumer, frame, pending.drop_last());
    }
}

/// At most one finalize: once a delivery is finalized, acknowledging it,
/// rejecting it and finalizing it again all fail, and leave it as it is.
pub proof fn lemma_finalize_once(
    acker: AckerView,
    answer: Result<Option<CommandView>, QueueError>,
    outcome: Result<(), String>,
)
    requires
        acker.already_acked_or_nacked,
    ensures
        acker.ack() == Err::<CommandView, QueueError>(QueueError::CannotAckOrNackTwice),
        acker.nacks(answer) <==> answer == Err::<Option<CommandView>, QueueError>(
            QueueError::CannotAckOrNackTwice,
        ),
        acker.after_nack() == acker,
        acker.finalize(outcome) == Err::<(), QueueError>(QueueError::CannotAckOrNackTwice),
        acker.after(outcome) == acker,
{
}

/// An acknowledgement that went through finalizes the delivery, and so does
/// a rejection with nothing to send.
pub proof fn lemma_finalized_after(acker: AckerView)
    ensures
        acker.after(Ok(())).already_acked_or_nacked,
        acker.nacks(Ok(None)) ==> acker.after_nack().already_acked_or_nacked,
{
}

/// What a frame decodes to never has more attempts than the counter holds.
pub proof fn lemma_parsed_attempts_bounded(frame: Seq<u8>)
    ensures
        parse_frame(frame) matches Some((_, attempts)) ==> attempts <= usize::MAX,
{
}

/// Every entry of the batch up to `at` is overdue and a frame.
pub open spec fn reaches(keys: Seq<Seq<u8>>, limit: Seq<u8>, at: int) -> bool {
    &&& 0 <= at < keys.len()
    &&& forall|j: int|
        0 <= j <= at ==> lex_le(#[trigger] keys[j], limit) && parse_frame(keys[j]) is Some
}

/// A plan holds the two commands for every entry that it reaches.
pub proof fn lemma_plan_reaches(
    reaper: ReaperView,
    keys: Seq<Seq<u8>>,
    limit: Seq<u8>,
    commands: Seq<CommandView>,
    failure: Option<QueueError>,
    at: int,
)
    requires
        reaches(keys, limit, at),
        reaper.reclaims(keys, limit, commands, failure),
    ensures
        commands.len() >= 2 * at + 2,
        reaper.requeues(keys[at], commands[2 * at]),
        commands[2 * at + 1] == reaper.removes(keys[at]),
{
    let n = commands.len() as int / 2;
    if n <= at {
        assert(lex_le(keys[n], limit) && parse_frame(keys[n]) is Some);
        assert(false);
    }
    assert(lex_le(keys[at], limit) && reaper.requeues(keys[at], commands[2 * at])
        && commands[2 * at + 1] == reaper.removes(keys[at]));
}

/// Visibility reclaim: a delivery that is neither acknowledged nor rejected
/// before its deadline is delivered again. For every entry that the
/// reaper's plan reaches, and for which one more delivery is within the
/// limit, the two commands of the plan clear it from the processing list and
/// put its payload where the next receive finds it, with one more attempt.
/// `store` is the store as the plan has left it before these two commands.
pub proof fn lemma_visibility_reclaim(
    store: Store,
    reaper: ReaperView,
    consumer: ConsumerView,
    keys: Seq<Seq<u8>>,
    limit: Seq<u8>,
    commands: Seq<CommandView>,
    failure: Option<QueueError>,
    at: int,
)
    requires
        reaper.queue_key == consumer.queue_key,
        reaper.processing_queue_key == consumer.processing_queue_key,
        consumer.queue_key != consumer.processing_queue_key,
        reaches(keys, limit, at),
        parse_frame(keys[at]) matches Some((_, attempts)) && !reaper.escalates(attempts),
        reaper.reclaims(keys, limit, commands, failure),
    ensures
        commands.len() >= 2 * at + 2,
        ({
            let requeue = commands[2 * at];
            let after = store.apply(requeue).apply(commands[2 * at + 1]);
            let (payload, attempts) = parse_frame(keys[at]).unwrap();
            &&& after.list(consumer.processing_queue_key) == remove_first(
                store.list(consumer.processing_queue_key),
                keys[at],
            )
            &&& requeue is RPush
            &&& after.list(consumer.queue_key) == store.list(consumer.queue_key).push(
                requeue->RPush_value,
            )
            &&& parse_frame(requeue->RPush_value) == Some((payload, next_attempts(attempts)))
            &&& forall|key: Seq<char>|
                key != consumer.queue_key && key != consumer.processing_queue_key
                    ==> #[trigger] after.list(key) == store.list(key)
            &&& received(after, consumer) matches Ok(Some(delivery)) && delivery.payload == Some(
                payload,
            ) && delivery.acker.num_receives == next_attempts(attempts)
                && !delivery.acker.already_acked_or_nacked
        }),
{
    lemma_plan_reaches(reaper, keys, limit, commands, failure, at);
    let (payload, attempts) = parse_frame(keys[at]).unwrap();
    let requeue = commands[2 * at];
    let value = requeue->RPush_value;
    lemma_parse_frame_of_fresh(value, next_attempts(attempts), payload);
    let pushed = store.apply(requeue);
    assert(pushed.list(consumer.queue_key) == store.list(consumer.queue_key).push(value));
    lemma_remove_one(pushed.list(consumer.processing_queue_key), keys[at]);
    let after = pushed.apply(commands[2 * at + 1]);
    assert(after.list(consumer.queue_key) == pushed.list(consumer.queue_key));
    assert(after.list(consumer.queue_key).last() == value);
}

/// Escalation of one delivery: for every entry that the reaper's plan
/// reaches, and for which one more delivery would reach the limit, the two
/// commands of the plan clear it from the processing list and put its
/// payload, unframed, at the head of the dead-letter queue. The main list is
/// left as it is. `store` is the store as the plan has left it before these
/// two commands.
pub proof fn lemma_escalation(
    store: Store,
    reaper: ReaperView,
    keys: Seq<Seq<u8>>,
    limit: Seq<u8>,
    commands: Seq<CommandView>,
    failure: Option<QueueError>,
    at: int,
)
    requires
        reaper.queue_key != reaper.processing_queue_key,
        reaper.dlq_config matches Some(dlq) && dlq.queue_key != reaper.queue_key && dlq.queue_key
            != reaper.processing_queue_key,
        reaches(keys, limit, at),
        parse_frame(keys[at]) matches Some((_, attempts)) && reaper.escalates(attempts),
        reaper.reclaims(keys, limit, commands, failure),
    ensures
        commands.len() >= 2 * at + 2,
        ({
            let after = store.apply(commands[2 * at]).apply(commands[2 * at + 1]);
            let (payload, attempts) = parse_frame(keys[at]).unwrap();
            let dlq = reaper.dlq_config.unwrap().queue_key;
            &&& after.list(reaper.processing_queue_key) == remove_first(
                store.list(reaper.processing_queue_key),
                keys[at],
            )
            &&& after.list(dlq) == seq![payload] + store.list(dlq)
            &&& after.list(reaper.queue_key) == store.list(reaper.queue_key)
        }),
{
    lemma_plan_reaches(reaper, keys, limit, commands, failure, at);
    let (payload, attempts) = parse_frame(keys[at]).unwrap();
    let dlq = reaper.dlq_config.unwrap().queue_key;
    lemma_push_front_one(store.list(dlq), payload);
    let pushed = store.apply(commands[2 * at]);
    lemma_remove_one(pushed.list(reaper.processing_queue_key), keys[at]);
}

/// Backward-compatible decode: a frame of the older form is receivable, with
/// no earlier delivery to its name; it is acknowledged by its exact stored
/// value; and when it is reclaimed it is written in the current form.
pub proof fn lemma_legacy_frame(
    consumer: ConsumerView,
    reaper: ReaperView,
    id: Seq<u8>,
    payload: Seq<u8>,
    requeue: CommandView,
)
    requires
        is_id(id),
        separator_free(payload),
    ensures
        consumer.claimed(Ok(Some(legacy_frame(id, payload)))) == Ok::<
            Option<DeliveryView>,
            QueueError,
        >(Some(consumer.delivery(payload, 0, legacy_frame(id, payload)))),
        consumer.delivery(payload, 0, legacy_frame(id, payload)).acker.ack() == Ok::<
            CommandView,
            QueueError,
        >(
            CommandView::LRem {
                key: consumer.processing_queue_key,
                count: 1,
                value: legacy_frame(id, payload),
            },
        ),
        reaper.requeues(legacy_frame(id, payload), requeue) && !reaper.escalates(0) ==> (
        requeue matches CommandView::RPush { key, value } && is_frame_of(value, 1, payload)
            && parse_frame(value) == Some((payload, 1nat))),
{
    lemma_id_separator_free(id);
    lemma_parse_frame_of_legacy(id, payload);
    if reaper.requeues(legacy_frame(id, payload), requeue) && !reaper.escalates(0) {
        lemma_parse_frame_of_fresh(requeue->RPush_value, 1, payload);
    }
}

/// A plan of two commands is carried out one command after the other.
pub proof fn lemma_apply_pair(store: Store, commands: Seq<CommandView>)
    requires
        commands.len() == 2,
    ensures
        store.apply_all(commands) == store.apply(commands[0]).apply(commands[1]),
{
    let first = commands.drop_last();
    assert(first.len() == 1);
    assert(first.drop_last().len() == 0);
    assert(store.apply_all(first.drop_last()) == store);
    assert(first.last() == commands[0]);
    assert(store.apply_all(first) == store.apply(commands[0]));
}

/// One cycle of a message that no consumer finalizes: a receive, then the
/// reaper's plan.
pub open spec fn cycle(store: Store, consumer: ConsumerView, plan: Seq<CommandView>) -> Store {
    store.apply(consumer.claim(0)).apply_all(plan)
}

/// `plan` is a plan of the reaper for the batch it reads after a receive on
/// `store`, at a moment when the head of the processing list is overdue.
pub open spec fn reaps_after_receive(
    store: Store,
    reaper: ReaperView,
    consumer: ConsumerView,
    limit: Seq<u8>,
    plan: Seq<CommandView>,
) -> bool {
    let claimed = store.apply(consumer.claim(0));
    let keys = range(claimed.list(reaper.processing_queue_key), 0, BATCH_SIZE as int);
    head_overdue(keys, limit) && reaper.reclaims(keys, limit, plan, None)
}

/// The store after one cycle for each of `plans`, in turn.
pub open spec fn after_cycles(
    store: Store,
    consumer: ConsumerView,
    plans: Seq<Seq<CommandView>>,
) -> Store
    decreases plans.len(),
{
    if plans.len() == 0 {
        store
    } else {
        after_cycles(cycle(store, consumer, plans[0]), consumer, plans.drop_first())
    }
}

/// Each of `plans` is a plan of the reaper in its cycle, held against the
/// limit of the same index.
pub open spec fn cycles_reap(
    store: Store,
    reaper: ReaperView,
    consumer: ConsumerView,
    limits: Seq<Seq<u8>>,
    plans: Seq<Seq<CommandView>>,
) -> bool
    decreases plans.len(),
{
    &&& limits.len() == plans.len()
    &&& plans.len() > 0 ==> {
        &&& reaps_after_receive(store, reaper, consumer, limits[0], plans[0])
        &&& cycles_reap(
            cycle(store, consumer, plans[0]),
            reaper,
            consumer,
            limits.drop_first(),
            plans.drop_first(),
        )
    }
}

/// Dead-letter escalation: with a limit of `N` deliveries, a message that
/// was delivered `a` times before and is received without being finalized
/// `N - a` times more, its deadline passing each time, ends in the
/// dead-letter queue, unframed, and is delivered no more. For a new message
/// that is after `N` cycles.
pub proof fn lemma_dead_letter_after_max_receives(
    store: Store,
    reaper: ReaperView,
    consumer: ConsumerView,
    frame: Seq<u8>,
    limits: Seq<Seq<u8>>,
    plans: Seq<Seq<CommandView>>,
)
    requires
        reaper.queue_key == consumer.queue_key,
        reaper.processing_queue_key == consumer.processing_queue_key,
        consumer.queue_key != consumer.processing_queue_key,
        reaper.dlq_config matches Some(dlq) && dlq.queue_key != reaper.queue_key && dlq.queue_key
            != reaper.processing_queue_key && dlq.max_receives <= usize::MAX,
        store.list(consumer.queue_key) == seq![frame],
        store.list(consumer.processing_queue_key).len() == 0,
        parse_frame(frame) matches Some((_, attempts)) && attempts + plans.len()
            == reaper.dlq_config.unwrap().max_receives,
        plans.len() >= 1,
        cycles_reap(store, reaper, consumer, limits, plans),
    ensures
        ({
            let end = after_cycles(store, consumer, plans);
            let dlq = reaper.dlq_config.unwrap().queue_key;
            &&& end.list(consumer.queue_key).len() == 0
            &&& end.list(consumer.processing_queue_key).len() == 0
            &&& end.list(dlq) == seq![parse_frame(frame).unwrap().0] + store.list(dlq)
            &&& received(end, consumer) == Ok::<Option<DeliveryView>, QueueError>(None)
        }),
    decreases plans.len(),
{
    let (payload, attempts) = parse_frame(frame).unwrap();
    let dlq = reaper.dlq_config.unwrap().queue_key;
    let plan = plans[0];
    let limit = limits[0];
    lemma_claim(store, consumer);
    let claimed = store.apply(consumer.claim(0));
    let in_flight = claimed.list(consumer.processing_queue_key);
    assert(in_flight =~= seq![frame]);
    assert(claimed.list(consumer.queue_key) =~= Seq::<Seq<u8>>::empty());
    assert(claimed.list(dlq) == store.list(dlq));
    let keys = range(in_flight, 0, BATCH_SIZE as int);
    assert(keys =~= seq![frame]);
    assert(reaches(keys, limit, 0));
    lemma_plan_reaches(reaper, keys, limit, plan, None, 0);
    assert(plan.len() == 2);
    lemma_apply_pair(claimed, plan);
    let next = cycle(store, consumer, plan);
    assert(remove_first(in_flight, frame) =~= Seq::<Seq<u8>>::empty());
    if plans.len() == 1 {
        lemma_escalation(claimed, reaper, keys, limit, plan, None, 0);
        assert(plans.drop_first().len() == 0);
        assert(after_cycles(next, consumer, plans.drop_first()) == next);
    } else {
        lemma_visibility_reclaim(claimed, reaper, consumer, keys, limit, plan, None, 0);
        let value = plan[0]->RPush_value;
        assert(next.list(consumer.queue_key) =~= seq![value]);
        assert(next.list(dlq) == store.list(dlq));
        lemma_dead_letter_after_max_receives(
            next,
            reaper,
            consumer,
            value,
            limits.drop_first(),
            plans.drop_first(),
        );
    }
}

/// Claims take the main list from its tail.
pub proof fn lemma_claims_take(store: Store, consumer: ConsumerView, n: nat)
    requires
        consumer.queue_key != consumer.processing_queue_key,
        n <= store.list(consumer.queue_key).len(),
    ensures
        after_claims(store, consumer, n).list(consumer.queue_key) == store.list(
            consumer.queue_key,
        ).take(store.list(consumer.queue_key).len() - n),
    decreases n,
{
    let main = store.list(consumer.queue_key);
    if n == 0 {
        assert(main.take(main.len() as int) =~= main);
    } else {
        lemma_claim(store, consumer);
        let next = store.apply(consumer.claim(0));
        lemma_claims_take(next, consumer, (n - 1) as nat);
        assert(main.drop_last().take(main.len() - 1 - (n - 1)) =~= main.take(main.len() - n));
    }
}

/// The main list in the course of a redrive: after the commands for the
/// first `m` dead letters, new frames that carry them stand in front of what
/// the list held, the one queued last first.
pub proof fn lemma_redrive_progress(
    store: Store,
    producer: ProducerView,
    entries: Seq<Seq<u8>>,
    commands: Seq<CommandView>,
    m: nat,
)
    requires
        producer.dlq_config matches Some(dlq) && dlq.queue_key != producer.queue_key,
        producer.redrives(entries, commands),
        m <= entries.len(),
    ensures
        ({
            let before = store.list(producer.queue_key);
            let main = store.apply_all(commands.take(2 * (m as int))).list(producer.queue_key);
            &&& main.len() == before.len() + m
            &&& forall|j: int|
                0 <= j < m ==> parse_frame(#[trigger] main[j]) == Some(
                    (entries[entries.len() - m + j], 0nat),
                )
            &&& forall|j: int| m <= j < main.len() ==> #[trigger] main[j] == before[j - m]
        }),
    decreases m,
{
    let before = store.list(producer.queue_key);
    if m == 0 {
        assert(commands.take(0).len() == 0);
    } else {
        let k: int = m - 1;
        lemma_redrive_progress(store, producer, entries, commands, k as nat);
        let done = commands.take(2 * k);
        let one = commands.take(2 * k + 1);
        let two = commands.take(2 * (m as int));
        assert(two.drop_last() =~= one);
        assert(one.drop_last() =~= done);
        assert(two.last() == commands[2 * k + 1]);
        assert(one.last() == commands[2 * k]);
        let s0 = store.apply_all(done);
        let s1 = s0.apply(commands[2 * k]);
        let s2 = s1.apply(commands[2 * k + 1]);
        assert(store.apply_all(one) == s1);
        assert(store.apply_all(two) == s2);
        let entry = entries[entries.len() - 1 - k];
        assert(enqueues(producer.queue_key, entry, commands[2 * k]));
        let value = commands[2 * k]->LPush_values[0];
        assert(commands[2 * k]->LPush_values =~= seq![value]);
        lemma_push_front_one(s0.list(producer.queue_key), value);
        lemma_parse_frame_of_fresh(value, 0, entry);
        let old_main = s0.list(producer.queue_key);
        let main = s2.list(producer.queue_key);
        assert(main == seq![value] + old_main);
        assert forall|j: int| 0 <= j < m implies parse_frame(#[trigger] main[j]) == Some(
            (entries[entries.len() - m + j], 0nat),
        ) by {
            if j > 0 {
                assert(main[j] == old_main[j - 1]);
            }
        }
        assert forall|j: int| m <= j < main.len() implies #[trigger] main[j] == before[j - m] by {
            assert(main[j] == old_main[j - 1]);
        }
    }
}

/// Dead-letter ordering under redrive: after a redrive into an empty main
/// list, the receives deliver the dead letters in the order in which they
/// arrived. Dead letters are pushed onto the head of their queue, so the one
/// that arrived `k`-th stands `k`-th from the tail of `entries`, and it is
/// what the receive after `k` claims delivers, as a message never delivered
/// before.
pub proof fn lemma_redrive_in_order(
    store: Store,
    producer: ProducerView,
    consumer: ConsumerView,
    entries: Seq<Seq<u8>>,
    commands: Seq<CommandView>,
    k: nat,
)
    requires
        producer.queue_key == consumer.queue_key,
        consumer.queue_key != consumer.processing_queue_key,
        producer.dlq_config matches Some(dlq) && dlq.queue_key != producer.queue_key,
        store.list(producer.queue_key).len() == 0,
        producer.redrives(entries, commands),
        k < entries.len(),
    ensures
        received(
            after_claims(store.apply_all(commands), consumer, k),
            consumer,
        ) matches Ok(Some(delivery)) && delivery.payload == Some(entries[entries.len() - 1 - k])
            && delivery.acker.num_receives == 0,
{
    let n: int = entries.len() as int;
    lemma_redrive_progress(store, producer, entries, commands, n as nat);
    assert(commands.take(2 * n) =~= commands);
    let driven = store.apply_all(commands);
    let main = driven.list(consumer.queue_key);
    lemma_claims_take(driven, consumer, k);
    let left = after_claims(driven, consumer, k).list(consumer.queue_key);
    assert(left.last() == main[n - 1 - k]);
    assert(parse_frame(main[n - 1 - k]) == Some((entries[n - n + (n - 1 - k)], 0nat)));
}

/// Scheduled delivery, as far as the store goes: a payload that is sent with
/// a delay leaves the main list as it is, so no receive delivers it; it
/// stands in the delayed set, due from the moment the delay has passed and
/// not before; and what stands there is a frame that carries it, never
/// delivered.
pub proof fn lemma_scheduled_due(
    store: Store,
    producer: ProducerView,
    payload: Seq<u8>,
    delay_ms: nat,
    now_ms: int,
    command: CommandView,
    at: int,
)
    requires
        delay_ms > 0,
        producer.schedules(payload, delay_ms, now_ms, command),
    ensures
        command is ZAdd,
        parse_frame(command->ZAdd_member) == Some((payload, 0nat)),
        forall|key: Seq<char>| #[trigger] store.apply(command).list(key) == store.list(key),
        store.apply(command).due(producer.delayed_queue_key, at).contains(command->ZAdd_member)
            <==> at >= due_time(now_ms, delay_ms),
{
    lemma_parse_frame_of_fresh(command->ZAdd_member, 0, payload);
    lemma_with_member_due(
        store.scores(producer.delayed_queue_key),
        command->ZAdd_score,
        command->ZAdd_member,
        at,
    );
}

/// Promotion: once a scheduled frame is read as due, the promoter's plan
/// takes it out of the delayed set, releases the lock, and puts its payload on
/// the main list, where a receive on a main list that held nothing delivers
/// it with its attempts as they were.
pub proof fn lemma_promotion_delivers(
    store: Store,
    promoter: PromoterView,
    consumer: ConsumerView,
    member: Seq<u8>,
    commands: Seq<CommandView>,
    failure: Option<QueueError>,
    entry: (int, Seq<u8>),
)
    requires
        promoter.queue_key == consumer.queue_key,
        promoter.delayed_lock_key != promoter.queue_key,
        store.list(promoter.queue_key).len() == 0,
        parse_frame(member) is Some,
        promoter.promotes(seq![member], commands, failure),
    ensures
        failure is None,
        commands.len() == 3,
        ({
            let after = store.apply(commands[0]).apply(commands[1]).apply(commands[2]);
            let (payload, attempts) = parse_frame(member).unwrap();
            &&& after == store.apply_all(commands)
            &&& received(after, consumer) matches Ok(Some(delivery)) && delivery.payload == Some(
                payload,
            ) && delivery.acker.num_receives == attempts
            &&& after.scores(promoter.delayed_queue_key).contains(entry) ==> entry.1 != member
            &&& !after.values.dom().contains(promoter.delayed_lock_key)
        }),
{
    let due = seq![member];
    let n = (commands.len() - 1) / 2;
    if n == 0 {
        assert(parse_frame(due[0]) is None);
    }
    assert(n == 1);
    assert(parse_frame(due[0]) is Some && requeues_all(
        promoter.queue_key,
        seq![due[0]],
        commands[2 * 0int],
    ) && commands[2 * 0int + 1] == (CommandView::ZRem {
        key: promoter.delayed_queue_key,
        member: due[0],
    }));
    let (payload, attempts) = parse_frame(member).unwrap();
    lemma_parsed_attempts_bounded(member);
    let values = commands[0]->LPush_values;
    let value = values[0];
    assert(values =~= seq![value]);
    assert(is_frame_of(value, attempts, payload));
    lemma_parse_frame_of_fresh(value, attempts, payload);
    lemma_push_front_one(store.list(promoter.queue_key), value);
    let s1 = store.apply(commands[0]);
    assert(s1.list(consumer.queue_key) =~= seq![value]);
    let s2 = s1.apply(commands[1]);
    lemma_without_member(s1.scores(promoter.delayed_queue_key), member, entry);
    let s3 = s2.apply(commands[2]);
    assert(s3.list(consumer.queue_key) == s1.list(consumer.queue_key));
    let two = commands.drop_last();
    assert(two.len() == 2);
    lemma_apply_pair(store, two);
    assert(two[0] == commands[0] && two[1] == commands[1]);
    assert(commands.last() == commands[2]);
}

/// Scheduled delivery, with no other traffic: a payload that is sent with a
/// delay onto an empty queue is delivered by no pass of the promoter before
/// the delay has passed, and by any pass from then on. A pass at the moment
/// `at` reads what is due by then; before the due time it reads nothing and
/// a receive finds nothing, from the due time on it reads the frame, and
/// after its plan a receive delivers the payload, never delivered before. So
/// a promoter that makes a pass between one delay and two delays after the
/// send delivers the payload within that time.
pub proof fn lemma_scheduled_delivery(
    store: Store,
    producer: ProducerView,
    promoter: PromoterView,
    consumer: ConsumerView,
    payload: Seq<u8>,
    delay_ms: nat,
    now_ms: int,
    send: CommandView,
    at: int,
    commands: Seq<CommandView>,
    failure: Option<QueueError>,
)
    requires
        producer.queue_key == promoter.queue_key,
        producer.queue_key == consumer.queue_key,
        producer.delayed_queue_key == promoter.delayed_queue_key,
        promoter.delayed_lock_key != promoter.queue_key,
        store.list(producer.queue_key).len() == 0,
        store.scores(producer.delayed_queue_key).len() == 0,
        delay_ms > 0,
        producer.schedules(payload, delay_ms, now_ms, send),
    ensures
        send is ZAdd,
        ({
            let sent = store.apply(send);
            let read = sent.reply(promoter.fetches(at));
            let due = ReplyView::Frames(seq![send->ZAdd_member]);
            &&& at < due_time(now_ms, delay_ms) ==> read == ReplyView::Frames(Seq::empty())
                && received(sent, consumer) == Ok::<Option<DeliveryView>, QueueError>(None)
            &&& at >= due_time(now_ms, delay_ms) ==> read == due
            &&& at >= due_time(now_ms, delay_ms) && promoter.promotes(
                seq![send->ZAdd_member],
                commands,
                failure,
            ) ==> failure is None && (received(sent.apply_all(commands), consumer) matches Ok(
                Some(delivery),
            ) && delivery.payload == Some(payload) && delivery.acker.num_receives == 0)
        }),
{
    let member = send->ZAdd_member;
    let score = send->ZAdd_score;
    let key = producer.delayed_queue_key;
    let sent = store.apply(send);
    lemma_parse_frame_of_fresh(member, 0, payload);
    let before = store.scores(key);
    assert(without_member(before, member) =~= before);
    let scores = sent.scores(key);
    assert(scores =~= seq![(score, member)]);
    assert(scores.drop_last() =~= Seq::<(int, Seq<u8>)>::empty());
    assert(up_to(scores.drop_last(), at) =~= Seq::<Seq<u8>>::empty());
    if score <= at {
        assert(up_to(scores, at) =~= seq![member]);
    } else {
        assert(up_to(scores, at) =~= Seq::<Seq<u8>>::empty());
    }
    assert(sent.list(consumer.queue_key) == store.list(consumer.queue_key));
    if at >= due_time(now_ms, delay_ms) && promoter.promotes(seq![member], commands, failure) {
        lemma_promotion_delivers(
            sent,
            promoter,
            consumer,
            member,
            commands,
            failure,
            (score, member),
        );
    }
}

/// Attempts stay under the limit: where a dead-letter queue is configured, a
/// frame that the reaper puts back on the main list carries fewer attempts
/// than the limit allows.
pub proof fn lemma_requeued_under_limit(reaper: ReaperView, entry: Seq<u8>, command: CommandView)
    requires
        reaper.dlq_config matches Some(dlq) && dlq.max_receives <= usize::MAX,
        reaper.requeues(entry, command),
        command is RPush,
    ensures
        parse_frame(command->RPush_value) matches Some((_, attempts)) && attempts
            < reaper.dlq_config.unwrap().max_receives,
{
    let (payload, attempts) = parse_frame(entry).unwrap();
    lemma_parsed_attempts_bounded(entry);
    lemma_parse_frame_of_fresh(command->RPush_value, next_attempts(attempts), payload);
}

} // verus!
