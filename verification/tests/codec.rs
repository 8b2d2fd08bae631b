use std::str::FromStr;

use omniqueue::codec::{frame_with_id, internal_from_list, internal_to_list_payload, regenerate_key};
use omniqueue::error::QueueError;

fn id() -> Vec<u8> {
    b"2bKzJ5tqDPmL0f8hQ1vXw7RcYaE".to_vec()
}

#[test]
fn frame_with_id_joins_the_fields() {
    let raw = frame_with_id(&id(), (b"hello", 0));
    assert_eq!(raw, b"2bKzJ5tqDPmL0f8hQ1vXw7RcYaE|0|hello".to_vec());
    let raw = frame_with_id(&id(), (b"{\"a\":1}", 1203));
    assert_eq!(raw, b"2bKzJ5tqDPmL0f8hQ1vXw7RcYaE|1203|{\"a\":1}".to_vec());
}

#[test]
fn decode_reads_payload_and_attempts() {
    let raw = b"2bKzJ5tqDPmL0f8hQ1vXw7RcYaE|17|pay|load".to_vec();
    assert_eq!(internal_from_list(&raw), Ok((&b"pay|load"[..], 17)));
}

#[test]
fn decode_rejects_what_is_no_frame() {
    assert_eq!(internal_from_list(b"no separator"), Err(QueueError::MalformedFrame));
    assert_eq!(internal_from_list(b"id|x1|payload"), Err(QueueError::MalformedFrame));
    assert_eq!(internal_from_list(b"id||payload"), Err(QueueError::MalformedFrame));
}

#[test]
fn fresh_frames_decode_to_what_they_carry() {
    let raw = internal_to_list_payload((b"hello", 3));
    assert_eq!(raw.len(), 27 + 1 + 1 + 1 + 5);
    assert!(raw[..27].iter().all(|b| b.is_ascii_alphanumeric()));
    assert_eq!(internal_from_list(&raw), Ok((&b"hello"[..], 3)));
    let again = regenerate_key(&raw).unwrap();
    assert_eq!(internal_from_list(&again), Ok((&b"hello"[..], 3)));
}

#[test]
fn a_frame_without_attempts_is_read_as_never_delivered() {
    assert_eq!(
        internal_from_list(b"2bKzJ5tqDPmL0f8hQ1vXw7RcYaE|{\"a\":1}"),
        Ok((&b"{\"a\":1}"[..], 0))
    );
    assert_eq!(internal_from_list(b"id|"), Ok((&b""[..], 0)));
    assert_eq!(internal_from_list(b"|"), Ok((&b""[..], 0)));
    assert_eq!(internal_from_list(b"|payload"), Ok((&b"payload"[..], 0)));
}

#[test]
fn the_payload_starts_behind_the_second_separator() {
    assert_eq!(internal_from_list(b"id|0|"), Ok((&b""[..], 0)));
    assert_eq!(internal_from_list(b"|7|"), Ok((&b""[..], 7)));
    assert_eq!(internal_from_list(b"id|3|a|b|c"), Ok((&b"a|b|c"[..], 3)));
    assert_eq!(internal_from_list(b"id|3||"), Ok((&b"|"[..], 3)));
    assert_eq!(internal_from_list(b"id|007|x"), Ok((&b"x"[..], 7)));
    assert_eq!(internal_from_list(&[b'i', b'|', b'1', b'|', 0x00, 0xff]), Ok((&[0x00, 0xff][..], 1)));
}

#[test]
fn the_attempts_are_decimal_digits_that_fit_the_counter() {
    let most = format!("id|{}|x", usize::MAX).into_bytes();
    assert_eq!(internal_from_list(&most), Ok((&b"x"[..], usize::MAX)));
    let padded = format!("id|000000000000000000000000{}|x", usize::MAX).into_bytes();
    assert_eq!(internal_from_list(&padded), Ok((&b"x"[..], usize::MAX)));
    let beyond = format!("id|{}0|x", usize::MAX).into_bytes();
    assert_eq!(internal_from_list(&beyond), Err(QueueError::MalformedFrame));
    let one_more = format!("id|{}|x", usize::MAX as u128 + 1).into_bytes();
    assert_eq!(internal_from_list(&one_more), Err(QueueError::MalformedFrame));
    for field in ["+1", "-1", " 1", "1 ", "1.0", "0x1", "one", "١"] {
        let frame = format!("id|{field}|x").into_bytes();
        assert_eq!(internal_from_list(&frame), Err(QueueError::MalformedFrame));
    }
}

#[test]
fn a_legacy_payload_with_a_separator_is_read_in_the_current_form() {
    // The older form cannot be told from the current one here: the first
    // part of the payload is taken for the attempts.
    assert_eq!(internal_from_list(b"id|12|rest"), Ok((&b"rest"[..], 12)));
    assert_eq!(internal_from_list(b"id|{\"a\":\"b|c\"}"), Err(QueueError::MalformedFrame));
}

#[test]
fn the_empty_value_is_no_frame() {
    assert_eq!(internal_from_list(b""), Err(QueueError::MalformedFrame));
    assert_eq!(regenerate_key(b""), Err(QueueError::MalformedFrame));
    assert_eq!(regenerate_key(b"id|x|payload"), Err(QueueError::MalformedFrame));
}

#[test]
fn frames_render_attempts_without_sign_or_padding() {
    assert_eq!(frame_with_id(b"", (b"", 0)), b"|0|".to_vec());
    assert_eq!(frame_with_id(b"i", (b"p", 9)), b"i|9|p".to_vec());
    assert_eq!(frame_with_id(b"i", (b"p", 10)), b"i|10|p".to_vec());
    assert_eq!(frame_with_id(b"i", (b"p", 1_000_000)), b"i|1000000|p".to_vec());
    assert_eq!(
        frame_with_id(b"i", (b"p", usize::MAX)),
        format!("i|{}|p", usize::MAX).into_bytes()
    );
}

#[test]
fn regenerating_keeps_payload_and_attempts_under_a_new_id() {
    let old = b"2bKzJ5tqDPmL0f8hQ1vXw7RcYaE|4|keep|this".to_vec();
    let new = regenerate_key(&old).unwrap();
    assert_eq!(new.len(), old.len());
    assert_ne!(new[..27], old[..27]);
    assert_eq!(new[27..], old[27..]);

    let legacy = b"2bKzJ5tqDPmL0f8hQ1vXw7RcYaE|payload".to_vec();
    let current = regenerate_key(&legacy).unwrap();
    assert_eq!(&current[27..], b"|0|payload");
}

#[test]
fn fresh_ids_sort_by_the_time_they_were_made() {
    let earlier = internal_to_list_payload((b"p", 0));
    let start = std::time::Instant::now();
    while start.elapsed() < std::time::Duration::from_millis(20) {
        std::hint::spin_loop();
    }
    let later = internal_to_list_payload((b"p", 0));
    assert!(earlier[..27] < later[..27]);
}

#[test]
fn fresh_ids_are_27_letters_and_digits() {
    for attempts in 0..200 {
        let raw = internal_to_list_payload((b"", attempts));
        assert_eq!(raw[27], b'|');
        assert!(raw[..27].iter().all(|b| b.is_ascii_alphanumeric()));
        assert_eq!(internal_from_list(&raw), Ok((&b""[..], attempts)));
    }
}

#[test]
fn fresh_ids_carry_the_present_moment() {
    let now = || {
        std::time::SystemTime::now()
            .duration_since(std::time::UNIX_EPOCH)
            .unwrap()
            .as_millis() as i64
    };
    let before = now();
    let raw = internal_to_list_payload((b"p", 0));
    let after = now();
    let id = svix_ksuid::KsuidMs::from_str(std::str::from_utf8(&raw[..27]).unwrap()).unwrap();
    // An id keeps its time to four milliseconds.
    assert!(before - 4 <= id.timestamp_millis());
    assert!(id.timestamp_millis() <= after);
}
