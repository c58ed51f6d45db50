use hydra::key::{DecodableKey, Key};
use hydra::query::decode_cursor_key;
use hydra::store::FetchError;
use ulid::Ulid;

#[test]
fn word_keys_are_big_endian() {
    assert_eq!(258usize.as_bytes(), vec![0, 0, 0, 0, 0, 0, 1, 2]);
    assert_eq!(0usize.as_bytes(), vec![0; 8]);
    assert_eq!(usize::MAX.as_bytes(), usize::MAX.to_be_bytes().to_vec());
    assert!(255usize.as_bytes() < 256usize.as_bytes());
}

#[test]
fn word_keys_decode() {
    assert_eq!(usize::from_key_bytes(&[0, 0, 0, 0, 0, 0, 1, 2]), Some(258));
    assert_eq!(usize::from_key_bytes(&[1, 2, 3]), None);
    assert_eq!(usize::from_key_bytes(&12345usize.as_bytes()), Some(12345));
}

#[test]
fn byte_keys_pass_through() {
    let k = vec![9u8, 0, 7];
    assert_eq!(k.as_bytes(), vec![9, 0, 7]);
    assert_eq!(Vec::<u8>::from_key_bytes(&[]), Some(vec![]));
}

#[test]
fn slice_keys_pass_through() {
    let k: &[u8] = &[3, 1, 4];
    assert_eq!(k.as_bytes(), vec![3, 1, 4]);
}

#[test]
fn word_key_width_is_the_word_size() {
    assert_eq!(7usize.as_bytes().len(), std::mem::size_of::<usize>());
    assert_eq!(7usize.as_bytes(), 7usize.to_be_bytes().to_vec());
}

#[test]
fn ulid_keys_are_sixteen_big_endian_bytes() {
    let u = Ulid(0x0102_0304_0506_0708_090a_0b0c_0d0e_0f10);
    let b = u.as_bytes();
    assert_eq!(b, (1u8..=16).collect::<Vec<u8>>());
    assert_eq!(<Ulid as DecodableKey>::from_key_bytes(&b), Some(u));
    assert_eq!(<Ulid as DecodableKey>::from_key_bytes(&b[..15]), None);
    assert!(Ulid(5).as_bytes() < Ulid(6).as_bytes());
}

#[test]
fn malformed_cursor_is_rejected() {
    assert!(matches!(decode_cursor_key::<usize>(&[1, 2, 3]), Err(FetchError::InvalidCursor)));
    assert!(matches!(decode_cursor_key::<Ulid>(&[0; 8]), Err(FetchError::InvalidCursor)));
    assert!(matches!(decode_cursor_key::<usize>(&[0, 0, 0, 0, 0, 0, 0, 4]), Ok(4)));
}
