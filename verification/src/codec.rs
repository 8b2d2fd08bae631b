//! The frame codec.
//!
//! A frame is the unit stored in the lists: an id, the number of earlier
//! deliveries in decimal, and the payload, joined by a separator byte:
//! `id|attempts|payload`. A frame of the older form `id|payload` is read as a
//! frame with no earlier delivery.

use crate::error::QueueError;
use crate::ident::{fresh_id, has_moment, is_id, is_id_byte, ID_LEN};
use vstd::prelude::*;
use vstd::slice::slice_subrange;

verus! {

/// The byte between the fields of a frame: a vertical bar.
pub const SEPARATOR: u8 = 0x7c;

/// A frame as stored.
pub type RawPayload = Vec<u8>;

/// A decoded frame: the payload and the number of earlier deliveries.
pub type InternalPayload<'a> = (&'a [u8], usize);

/// A decoded frame that owns its payload.
pub type InternalPayloadOwned = (Vec<u8>, usize);

/// An ASCII decimal digit.
pub open spec fn is_digit(b: u8) -> bool {
    0x30 <= b && b <= 0x39
}

/// Every byte of `s` is a decimal digit.
pub open spec fn all_digits(s: Seq<u8>) -> bool {
    forall|i: int| 0 <= i < s.len() ==> is_digit(#[trigger] s[i])
}

/// No byte of `s` is the separator.
pub open spec fn separator_free(s: Seq<u8>) -> bool {
    forall|i: int| 0 <= i < s.len() ==> #[trigger] s[i] != SEPARATOR
}

/// The decimal rendering of `n`, without sign or leading zeros.
pub open spec fn decimal(n: nat) -> Seq<u8>
    decreases n,
{
    if n < 10 {
        seq![(0x30 + n) as u8]
    } else {
        decimal(n / 10).push((0x30 + n % 10) as u8)
    }
}

/// The value of one digit; zero for any other byte.
pub open spec fn digit_value(b: u8) -> nat {
    if is_digit(b) {
        (b - 0x30) as nat
    } else {
        0
    }
}

/// The number that a sequence of decimal digits denotes.
pub open spec fn digits_value(s: Seq<u8>) -> nat
    decreases s.len(),
{
    if s.len() == 0 {
        0
    } else {
        digits_value(s.drop_last()) * 10 + digit_value(s.last())
    }
}

/// The attempts field as a number: one digit or more, and a value that a
/// `usize` can hold.
pub open spec fn parse_count(field: Seq<u8>) -> Option<nat> {
    if field.len() > 0 && all_digits(field) && digits_value(field) <= usize::MAX {
        Some(digits_value(field))
    } else {
        None
    }
}

/// The index of the first separator in `s`, or the length of `s` if it holds
/// none.
pub open spec fn separator_at(s: Seq<u8>) -> int
    decreases s.len(),
{
    if s.len() == 0 {
        0
    } else if s[0] == SEPARATOR {
        0
    } else {
        1 + separator_at(s.drop_first())
    }
}

/// The frame with the given id, attempts and payload.
pub open spec fn frame(id: Seq<u8>, attempts: nat, payload: Seq<u8>) -> Seq<u8> {
    id + seq![SEPARATOR] + decimal(attempts) + seq![SEPARATOR] + payload
}

/// The older form of a frame, without the attempts field.
pub open spec fn legacy_frame(id: Seq<u8>, payload: Seq<u8>) -> Seq<u8> {
    id + seq![SEPARATOR] + payload
}

/// What a stored value decodes to: the payload and the attempts, or `None`
/// where the value is no frame. The value is split at its first two
/// separators; with only one, it is a frame of the older form.
pub open spec fn parse_frame(s: Seq<u8>) -> Option<(Seq<u8>, nat)> {
    let first = separator_at(s);
    if first >= s.len() {
        None
    } else {
        let rest = s.skip(first + 1);
        let second = separator_at(rest);
        if second >= rest.len() {
            Some((rest, 0nat))
        } else {
            match parse_count(rest.take(second)) {
                Some(attempts) => Some((rest.skip(second + 1), attempts)),
                None => None,
            }
        }
    }
}

/// `s` is a frame that carries the given attempts and payload, with a
/// well-formed id of some moment in front.
pub open spec fn is_frame_of(s: Seq<u8>, attempts: nat, payload: Seq<u8>) -> bool {
    &&& s.len() >= ID_LEN
    &&& is_id(s.take(ID_LEN as int))
    &&& has_moment(s.take(ID_LEN as int))
    &&& s == frame(s.take(ID_LEN as int), attempts, payload)
}

/// The first separator is where a separator stands with none before it.
pub proof fn lemma_separator_at_is(s: Seq<u8>, i: int)
    requires
        0 <= i <= s.len(),
        separator_free(s.take(i)),
        i < s.len() ==> s[i] == SEPARATOR,
    ensures
        separator_at(s) == i,
    decreases s.len(),
{
    if s.len() == 0 {
    } else if i == 0 {
    } else {
        assert(s.take(i)[0] != SEPARATOR);
        let t = s.drop_first();
        assert forall|j: int| 0 <= j < i - 1 implies #[trigger] t.take(i - 1)[j] != SEPARATOR by {
            assert(s.take(i)[j + 1] != SEPARATOR);
        }
        lemma_separator_at_is(t, i - 1);
    }
}

/// An id holds no separator.
pub proof fn lemma_id_separator_free(id: Seq<u8>)
    requires
        is_id(id),
    ensures
        separator_free(id),
{
    assert forall|i: int| 0 <= i < id.len() implies #[trigger] id[i] != SEPARATOR by {
        assert(is_id_byte(id[i]));
    }
}

/// The decimal rendering of a number is made of digits and denotes that
/// number.
pub proof fn lemma_decimal_value(n: nat)
    ensures
        decimal(n).len() > 0,
        all_digits(decimal(n)),
        separator_free(decimal(n)),
        digits_value(decimal(n)) == n,
    decreases n,
{
    if n < 10 {
        let s = decimal(n);
        assert(s.drop_last() =~= Seq::<u8>::empty());
        assert(digits_value(s.drop_last()) == 0);
    } else {
        lemma_decimal_value(n / 10);
        let p = decimal(n / 10);
        let d = (0x30 + n % 10) as u8;
        let s = p.push(d);
        assert(s.drop_last() =~= p);
        assert(s.last() == d);
        assert forall|i: int| 0 <= i < s.len() implies is_digit(#[trigger] s[i]) by {
            if i < p.len() {
                assert(is_digit(p[i]));
            }
        }
        assert forall|i: int| 0 <= i < s.len() implies #[trigger] s[i] != SEPARATOR by {
            assert(is_digit(s[i]));
        }
    }
}

/// A prefix of a digit sequence denotes no more than the whole.
pub proof fn lemma_digits_value_prefix(s: Seq<u8>, k: int)
    requires
        0 <= k <= s.len(),
    ensures
        digits_value(s.take(k)) <= digits_value(s),
    decreases s.len(),
{
    if k == s.len() {
        assert(s.take(k) =~= s);
    } else {
        let t = s.drop_last();
        lemma_digits_value_prefix(t, k);
        assert(t.take(k) =~= s.take(k));
    }
}

/// Decoding undoes encoding: a frame whose id holds no separator decodes to
/// the payload and the attempts it was made of.
pub proof fn lemma_parse_frame_of_frame(id: Seq<u8>, attempts: nat, payload: Seq<u8>)
    requires
        separator_free(id),
        attempts <= usize::MAX,
    ensures
        parse_frame(frame(id, attempts, payload)) == Some((payload, attempts)),
{
    let s = frame(id, attempts, payload);
    let count = decimal(attempts);
    lemma_decimal_value(attempts);
    assert(s.take(id.len() as int) =~= id);
    assert(s[id.len() as int] == SEPARATOR);
    lemma_separator_at_is(s, id.len() as int);
    let rest = s.skip(id.len() as int + 1);
    assert(rest =~= count + seq![SEPARATOR] + payload);
    assert(rest.take(count.len() as int) =~= count);
    assert(rest[count.len() as int] == SEPARATOR);
    lemma_separator_at_is(rest, count.len() as int);
    assert(rest.skip(count.len() as int + 1) =~= payload);
}

/// A frame of the older form, whose payload holds no separator, decodes to
/// that payload with no earlier delivery.
pub proof fn lemma_parse_frame_of_legacy(id: Seq<u8>, payload: Seq<u8>)
    requires
        separator_free(id),
        separator_free(payload),
    ensures
        parse_frame(legacy_frame(id, payload)) == Some((payload, 0nat)),
{
    let s = legacy_frame(id, payload);
    assert(s.take(id.len() as int) =~= id);
    assert(s[id.len() as int] == SEPARATOR);
    lemma_separator_at_is(s, id.len() as int);
    let rest = s.skip(id.len() as int + 1);
    assert(rest =~= payload);
    assert(rest.take(rest.len() as int) =~= rest);
    lemma_separator_at_is(rest, rest.len() as int);
}

/// A frame that `is_frame_of` accepts decodes to its attempts and payload.
pub proof fn lemma_parse_frame_of_fresh(s: Seq<u8>, attempts: nat, payload: Seq<u8>)
    requires
        is_frame_of(s, attempts, payload),
        attempts <= usize::MAX,
    ensures
        parse_frame(s) == Some((payload, attempts)),
{
    lemma_id_separator_free(s.take(ID_LEN as int));
    lemma_parse_frame_of_frame(s.take(ID_LEN as int), attempts, payload);
}

/// Appends `bytes` to `out`.
fn append_bytes(out: &mut Vec<u8>, bytes: &[u8])
    ensures
        final(out)@ == old(out)@ + bytes@,
{
    let mut i: usize = 0;
    while i < bytes.len()
        invariant
            0 <= i <= bytes.len(),
            out@ == old(out)@ + bytes@.take(i as int),
        decreases bytes.len() - i,
    {
        out.push(bytes[i]);
        assert(bytes@.take(i + 1) =~= bytes@.take(i as int).push(bytes@[i as int]));
        i = i + 1;
    }
    assert(bytes@.take(i as int) =~= bytes@);
}

/// Appends the decimal rendering of `n` to `out`.
fn append_decimal(out: &mut Vec<u8>, n: usize)
    ensures
        final(out)@ == old(out)@ + decimal(n as nat),
    decreases n,
{
    if n >= 10 {
        append_decimal(out, n / 10);
    }
    let d: u8 = (n % 10) as u8;
    out.push(0x30 + d);
    if n >= 10 {
        assert(out@ =~= old(out)@ + decimal(n as nat));
    } else {
        assert(out@ =~= old(out)@ + decimal(n as nat));
    }
}

/// The index of the first separator of `s` at or after `from`, or the length
/// of `s` if there is none.
fn find_separator(s: &[u8], from: usize) -> (at: usize)
    requires
        from <= s.len(),
    ensures
        from <= at <= s.len(),
        at == from + separator_at(s@.skip(from as int)),
{
    let mut i: usize = from;
    while i < s.len() && s[i] != SEPARATOR
        invariant
            from <= i <= s.len(),
            separator_free(s@.subrange(from as int, i as int)),
        decreases s.len() - i,
    {
        assert forall|j: int| 0 <= j < i + 1 - from implies #[trigger] s@.subrange(
            from as int,
            i + 1,
        )[j] != SEPARATOR by {
            if j < i - from {
                assert(s@.subrange(from as int, i as int)[j] != SEPARATOR);
            }
        }
        i = i + 1;
    }
    proof {
        let t = s@.skip(from as int);
        assert(t.take(i - from) =~= s@.subrange(from as int, i as int));
        lemma_separator_at_is(t, i - from);
    }
    i
}

/// Reads the bytes of `s` from `from` up to `to` as the attempts field.
fn read_count(s: &[u8], from: usize, to: usize) -> (count: Option<usize>)
    requires
        from <= to <= s.len(),
    ensures
        match parse_count(s@.subrange(from as int, to as int)) {
            Some(n) => count == Some(n as usize) && n <= usize::MAX,
            None => count.is_none(),
        },
{
    let ghost field = s@.subrange(from as int, to as int);
    if from == to {
        return None;
    }
    let mut value: usize = 0;
    let mut i: usize = from;
    while i < to
        invariant
            from <= i <= to <= s.len(),
            field == s@.subrange(from as int, to as int),
            all_digits(field.take(i - from)),
            value == digits_value(field.take(i - from)),
        decreases to - i,
    {
        let b = s[i];
        if b < 0x30 || b > 0x39 {
            assert(!is_digit(field[i - from]));
            return None;
        }
        let d: usize = (b - 0x30) as usize;
        proof {
            let next = field.take(i + 1 - from);
            assert(next.drop_last() =~= field.take(i - from));
            assert(next.last() == b);
            assert forall|j: int| 0 <= j < next.len() implies is_digit(#[trigger] next[j]) by {
                if j < i - from {
                    assert(is_digit(field.take(i - from)[j]));
                }
            }
            lemma_digits_value_prefix(field, i + 1 - from);
        }
        if value > (usize::MAX - d) / 10 {
            assert(digits_value(field.take(i + 1 - from)) > usize::MAX);
            return None;
        }
        value = value * 10 + d;
        i = i + 1;
    }
    assert(field.take(to - from) =~= field);
    Some(value)
}

/// Builds the frame with the given id for a payload and its attempts.
pub fn frame_with_id(id: &[u8], internal: InternalPayload) -> (raw: RawPayload)
    ensures
        raw@ == frame(id@, internal.1 as nat, internal.0@),
{
    let (payload, num_receives) = internal;
    let mut raw: Vec<u8> = Vec::new();
    append_bytes(&mut raw, id);
    raw.push(SEPARATOR);
    append_decimal(&mut raw, num_receives);
    raw.push(SEPARATOR);
    append_bytes(&mut raw, payload);
    assert(raw@ =~= frame(id@, num_receives as nat, payload@));
    raw
}

/// Encodes a payload and its attempts as a frame with a fresh id.
pub fn internal_to_list_payload(internal: InternalPayload) -> (raw: RawPayload)
    ensures
        is_frame_of(raw@, internal.1 as nat, internal.0@),
{
    let id = fresh_id();
    let raw = frame_with_id(id.as_slice(), internal);
    assert(raw@.take(ID_LEN as int) =~= id@);
    raw
}

/// Decodes a stored value into its payload and attempts. A value that is no
/// frame is refused as malformed.
pub fn internal_from_list(payload: &[u8]) -> (decoded: Result<InternalPayload<'_>, QueueError>)
    ensures
        match parse_frame(payload@) {
            Some((bytes, attempts)) => decoded matches Ok((p, n)) && p@ == bytes && n == attempts,
            None => decoded == Err::<InternalPayload<'_>, QueueError>(QueueError::MalformedFrame),
        },
{
    let len = payload.len();
    let first = find_separator(payload, 0);
    assert(payload@.skip(0) =~= payload@);
    if first >= len {
        return Err(QueueError::MalformedFrame);
    }
    let ghost rest = payload@.skip(first + 1);
    let second = find_separator(payload, first + 1);
    if second >= len {
        let bytes = slice_subrange(payload, first + 1, len);
        assert(bytes@ =~= rest);
        return Ok((bytes, 0));
    }
    assert(rest.take(second - first - 1) =~= payload@.subrange(first + 1, second as int));
    match read_count(payload, first + 1, second) {
        Some(attempts) => {
            let bytes = slice_subrange(payload, second + 1, len);
            assert(bytes@ =~= rest.skip(second - first));
            Ok((bytes, attempts))
        },
        None => Err(QueueError::MalformedFrame),
    }
}

/// Decodes a frame and encodes it again under a fresh id, with the same
/// payload and attempts.
pub fn regenerate_key(key: &[u8]) -> (regenerated: Result<RawPayload, QueueError>)
    ensures
        match parse_frame(key@) {
            Some((bytes, attempts)) => regenerated matches Ok(raw) && is_frame_of(
                raw@,
                attempts,
                bytes,
            ),
            None => regenerated == Err::<RawPayload, QueueError>(QueueError::MalformedFrame),
        },
{
    match internal_from_list(key) {
        Ok(internal) => Ok(internal_to_list_payload(internal)),
        Err(e) => Err(e),
    }
}

} // verus!
