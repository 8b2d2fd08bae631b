use omniqueue::ident::{bytes_le, ID_LEN};

#[test]
fn ids_have_27_characters() {
    assert_eq!(ID_LEN, 27);
}

#[test]
fn byte_strings_are_ordered_by_their_first_difference() {
    assert!(bytes_le(b"", b""));
    assert!(bytes_le(b"", b"a"));
    assert!(!bytes_le(b"a", b""));
    assert!(bytes_le(b"abc", b"abc"));
    assert!(bytes_le(b"abc", b"abd"));
    assert!(!bytes_le(b"abd", b"abc"));
    assert!(bytes_le(b"ab", b"abc"));
    assert!(!bytes_le(b"abc", b"ab"));
    assert!(bytes_le(b"Zz", b"a"));
    assert!(bytes_le(&[0x00, 0xff], &[0x01]));
    assert!(!bytes_le(&[0xff], &[0x7f, 0xff]));
}

#[test]
fn the_order_is_that_of_vectors() {
    let samples: [&[u8]; 6] = [b"", b"0", b"0|1|x", b"0|10|x", b"1", b"z|0|"];
    for a in samples {
        for b in samples {
            assert_eq!(bytes_le(a, b), a.to_vec() <= b.to_vec());
        }
    }
}
