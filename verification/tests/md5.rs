use tools::md5::{hex_string, md5};

#[test]
fn md5_test() {
    assert_eq!(md5("hello"), "5d41402abc4b2a76b9719d911017c592".to_string());
    assert_eq!(md5("asdfasdfasdf"), "a95c530a7af5f492a74499e70578d150".to_string());
}

#[test]
fn md5_of_empty_input() {
    assert_eq!(md5(""), "d41d8cd98f00b204e9800998ecf8427e");
}

#[test]
fn md5_of_longer_input() {
    assert_eq!(
        md5("The quick brown fox jumps over the lazy dog"),
        "9e107d9d372bb6826bd81d3542a419d6"
    );
    assert_eq!(md5("abcdefghijklmnopqrstuvwxyz"), "c3fcd3d76192e4007dfb496cca67e13b");
}

#[test]
fn md5_is_deterministic_and_32_digits() {
    let a = md5("some message");
    let b = md5("some message");
    assert_eq!(a, b);
    assert_eq!(a.len(), 32);
    assert!(a.chars().all(|c| c.is_ascii_digit() || ('a'..='f').contains(&c)));
    assert_ne!(a, md5("some messagf"));
}

#[test]
fn hex_string_pads_small_bytes() {
    let zeros = [0u8; 16];
    assert_eq!(hex_string(&zeros), "00000000000000000000000000000000");
    let low = [0u8, 1, 2, 3, 4, 5, 6, 7, 8, 9, 10, 11, 12, 13, 14, 15];
    assert_eq!(hex_string(&low), "000102030405060708090a0b0c0d0e0f");
}

#[test]
fn hex_string_writes_high_half_first() {
    let bytes = [
        0x10u8, 0x2f, 0xa0, 0xff, 0x99, 0x9a, 0xa9, 0xab, 0xcd, 0xef, 0x7f, 0x80, 0x01, 0xf0, 0x5d,
        0x41,
    ];
    assert_eq!(hex_string(&bytes), "102fa0ff999aa9abcdef7f8001f05d41");
}
