use card_proxy::ids::{encode_id, fallback_id_bytes, valid_id};

#[test]
fn ids_look_right_and_unique() {
    let a = encode_id(&[0x12, 0x9f, 0x00, 0xff, 0x42, 0x07, 0x88, 0x31, 0xc4]);
    let b = encode_id(&[0x12, 0x9f, 0x00, 0xff, 0x42, 0x07, 0x88, 0x31, 0xc5]);
    assert_eq!(a.len(), 12);
    assert!(valid_id(&a));
    assert_ne!(a, b);
    assert!(!valid_id("../evil"));
}

#[test]
fn id_encoding_is_base64url_least_significant_digit_first() {
    assert_eq!(encode_id(&[0; 9]), "AAAAAAAAAAAA");
    assert_eq!(encode_id(&[0xff; 9]), "____________");
    // value 1: lowest digit 1 ('B'), the rest 0
    assert_eq!(encode_id(&[0, 0, 0, 0, 0, 0, 0, 0, 1]), "BAAAAAAAAAAA");
    // value 63 + 64 * 62: digits 63 ('_') then 62 ('-')
    let v: u128 = 63 + 64 * 62;
    let bytes: [u8; 9] = {
        let mut b = [0u8; 9];
        b[7] = (v >> 8) as u8;
        b[8] = (v & 0xff) as u8;
        b
    };
    assert_eq!(encode_id(&bytes), "_-AAAAAAAAAA");
    // 26 -> 'a', 52 -> '0'
    assert_eq!(encode_id(&[0, 0, 0, 0, 0, 0, 0, 0, 26]), "aAAAAAAAAAAA");
    assert_eq!(encode_id(&[0, 0, 0, 0, 0, 0, 0, 0, 52]), "0AAAAAAAAAAA");
}

#[test]
fn valid_id_bounds_and_alphabet() {
    assert!(valid_id("abcdEFGH"));
    assert!(!valid_id("abcdEFG"));
    assert!(valid_id(&"a".repeat(64)));
    assert!(!valid_id(&"a".repeat(65)));
    assert!(valid_id("a-b_c-0123"));
    assert!(!valid_id("abc.defgh"));
    assert!(!valid_id("abc/defgh"));
    assert!(!valid_id("abcdéfgh"));
    assert!(!valid_id(""));
}

#[test]
fn fallback_bytes_are_hash_then_low_time_byte() {
    let b = fallback_id_bytes(0x0102030405060708, 0x1234_5678_9abc);
    assert_eq!(b, [1, 2, 3, 4, 5, 6, 7, 8, 0xbc]);
}
