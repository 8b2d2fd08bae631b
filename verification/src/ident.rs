//! Frame ids: 27 base62 characters, made so that their lexical order follows
//! the time at which they were made.

use svix_ksuid::KsuidLike;
use vstd::prelude::*;

verus! {

/// The length of every id, in bytes.
pub const ID_LEN: usize = 27;

/// A byte of the base62 alphabet: an ASCII digit or letter.
pub open spec fn is_id_byte(b: u8) -> bool {
    (0x30 <= b && b <= 0x39) || (0x41 <= b && b <= 0x5a) || (0x61 <= b && b <= 0x7a)
}

/// A well-formed id: `ID_LEN` bytes of the base62 alphabet.
pub open spec fn is_id(s: Seq<u8>) -> bool {
    s.len() == ID_LEN && forall|i: int| 0 <= i < s.len() ==> is_id_byte(#[trigger] s[i])
}

/// The order of byte strings: by the first byte in which they differ, and a
/// prefix before what it is a prefix of.
pub open spec fn lex_le(a: Seq<u8>, b: Seq<u8>) -> bool
    decreases a.len(),
{
    if a.len() == 0 {
        true
    } else if b.len() == 0 {
        false
    } else if a[0] != b[0] {
        a[0] < b[0]
    } else {
        lex_le(a.drop_first(), b.drop_first())
    }
}

/// Whether `a` comes at or before `b` in the order of byte strings.
pub fn bytes_le(a: &[u8], b: &[u8]) -> (le: bool)
    ensures
        le == lex_le(a@, b@),
{
    let mut i: usize = 0;
    assert(a@.skip(0) =~= a@ && b@.skip(0) =~= b@);
    while i < a.len() && i < b.len()
        invariant
            0 <= i <= a.len(),
            i <= b.len(),
            lex_le(a@, b@) == lex_le(a@.skip(i as int), b@.skip(i as int)),
        decreases a.len() - i,
    {
        if a[i] != b[i] {
            return a[i] < b[i];
        }
        assert(a@.skip(i as int).drop_first() =~= a@.skip(i + 1));
        assert(b@.skip(i as int).drop_first() =~= b@.skip(i + 1));
        i = i + 1;
    }
    i == a.len()
}

/// How many bytes of payload an id carries behind its time.
pub const PAYLOAD_LEN: usize = 15;

/// The id that `svix_ksuid::KsuidMs::from_millis` makes of a Unix time in
/// milliseconds and 15 bytes of payload, as its `Display` renders it.
pub uninterp spec fn id_for(unix_ms: int, payload: Seq<u8>) -> Seq<u8>;

/// `id` is an id of the moment `unix_ms`, under some payload.
pub open spec fn is_id_at(id: Seq<u8>, unix_ms: int) -> bool {
    exists|payload: Seq<u8>|
        payload.len() == PAYLOAD_LEN && id == #[trigger] id_for(unix_ms, payload)
}

/// `id` is an id of some moment that the clock can show, under some payload.
pub open spec fn has_moment(id: Seq<u8>) -> bool {
    exists|unix_ms: i64| #[trigger] is_id_at(id, unix_ms as int)
}

/// Calls `svix_ksuid::KsuidMs::from_millis` with the given Unix time in
/// milliseconds and no payload, and hands out the id as its `Display` renders
/// it, with the payload that the id carries. With no payload given the call
/// draws 15 random bytes and goes on as it does with these bytes given, so
/// the id is the one of this time and of the payload handed out; which bytes
/// they are is not claimed. `Display` pads the base62 rendering of the 20
/// bytes of an id to 27 characters, all of them digits or letters. The call
/// panics where the system has no random bytes to give.
#[verifier::external_body]
fn id_with_payload(unix_ms: i64) -> (made: (Vec<u8>, Vec<u8>))
    ensures
        is_id(made.0@),
        made.1@.len() == PAYLOAD_LEN,
        made.0@ == id_for(unix_ms as int, made.1@),
{
    let id = svix_ksuid::KsuidMs::from_millis(Some(unix_ms), None);
    (id.to_string().into_bytes(), id.payload().to_vec())
}

/// An id of the moment `unix_ms`, under a payload drawn at random.
pub(crate) fn id_at_millis(unix_ms: i64) -> (id: Vec<u8>)
    ensures
        is_id(id@),
        is_id_at(id@, unix_ms as int),
{
    let (id, _payload) = id_with_payload(unix_ms);
    id
}

/// An id of the moment that the clock shows, under a payload drawn at random.
pub(crate) fn fresh_id() -> (id: Vec<u8>)
    ensures
        is_id(id@),
        has_moment(id@),
{
    let now = now_millis();
    id_at_millis(now)
}

/// Calls `time::OffsetDateTime::now_utc` and reads the result as milliseconds
/// since the Unix epoch, through `svix_ksuid::Timestamp::as_millis`. Nothing
/// is claimed of the value: it is the clock's.
#[verifier::external_body]
pub(crate) fn now_millis() -> (unix_ms: i64) {
    svix_ksuid::Timestamp::as_millis(&time::OffsetDateTime::now_utc())
}

} // verus!
