use std::marker::PhantomData;

use pow_sha256::network_byte_order::decode;
use pow_sha256::network_byte_order::encode;
use pow_sha256::network_byte_order::put;
use pow_sha256::network_byte_order::safe_split;
use pow_sha256::network_byte_order::take_sized;
use pow_sha256::network_byte_order::Ne;
use pow_sha256::network_byte_order::ToNe;
use pow_sha256::PoW;
use pow_sha256::PowError;

#[test]
fn sd_u128() {
    let t: u128 = 0x0123_4567_89ab_cdef_1122_3344_5566_7788;
    let v = t.serialize_to_vec();
    let (t2, rest) = <u128 as Ne>::pick(&v).unwrap();
    assert_eq!(rest.len(), 0);
    assert_eq!(t, t2);
}

#[test]
fn sd_2t() {
    let t: (u128, u128) = (42, u128::MAX - 17);
    let v = t.serialize_to_vec();
    let (t2, rest) = <(u128, u128) as Ne>::pick(&v).unwrap();
    assert_eq!(rest.len(), 0);
    assert_eq!(t, t2);
}

#[test]
fn sd_4t() {
    let t: (u128, u128, u128, u128) = (1, 2, 0xdead_beef, u128::MAX);
    let v = t.serialize_to_vec();
    let (t2, rest) = <(u128, u128, u128, u128) as Ne>::pick(&v).unwrap();
    assert_eq!(rest.len(), 0);
    assert_eq!(t, t2);
}

#[test]
fn sd_vu8() {
    let t: Vec<u8> = vec![9, 8, 7, 0, 255, 1, 2, 3];
    let v = t.serialize_to_vec();
    let (t2, rest) = <Vec<u8> as Ne>::pick(&v).unwrap();
    assert_eq!(rest.len(), 0);
    assert_eq!(t, t2);
}

#[test]
fn exact_wire_bytes() {
    let b: u8 = 0xab;
    assert_eq!(b.serialize_to_vec(), vec![0xab]);

    let n: u64 = 0x0102_0304_0506_0708;
    assert_eq!(n.serialize_to_vec(), vec![1, 2, 3, 4, 5, 6, 7, 8]);
    assert_eq!(n.size(), 8);

    let w: u128 = 0x0102_0304_0506_0708_090a_0b0c_0d0e_0f10;
    assert_eq!(
        w.serialize_to_vec(),
        vec![1, 2, 3, 4, 5, 6, 7, 8, 9, 10, 11, 12, 13, 14, 15, 16]
    );
    assert_eq!(w.size(), 16);

    let raw: Vec<u8> = vec![4, 5, 6];
    assert_eq!(raw.serialize_to_vec(), raw);
    assert_eq!(raw.size(), 3);
}

#[test]
fn string_wire_bytes() {
    let s = "h\u{e9}llo".to_owned();
    assert_eq!(s.serialize_to_vec(), s.as_bytes().to_vec());
    assert_eq!(s.size(), s.as_bytes().len());
}

#[test]
fn pow_wire_format() {
    // A proof's wire form is 24 bytes: 8 of nonce, then 16 of score, both
    // big-endian.
    let pw = PoW::<u8> { nonce: 0x0102_0304_0506_0708, result: 0xff, _spook: PhantomData };
    let v = pw.serialize_to_vec();
    assert_eq!(v.len(), 24);
    assert_eq!(&v[..8], &[1, 2, 3, 4, 5, 6, 7, 8]);
    assert_eq!(&v[8..23], &[0u8; 15]);
    assert_eq!(v[23], 0xff);
    assert_eq!(pw.size(), 24);

    let (pw2, rest) = <PoW<u8> as Ne>::pick(&v).unwrap();
    assert_eq!(rest.len(), 0);
    assert_eq!(pw2, pw);
}

#[test]
fn encode_decode_roundtrip() {
    let n: u64 = 31337;
    let n_bytes = encode(&n);
    let (n2, rest) = decode::<u64>(&n_bytes).unwrap();
    assert_eq!((n2, rest.len()), (n, 0));

    let message = (7u8, PoW::<u8> { nonce: 3, result: 99, _spook: PhantomData });
    let bytes = encode(&message);
    assert_eq!(bytes.len(), 25);
    let (message2, rest) = decode::<(u8, PoW<u8>)>(&bytes).unwrap();
    assert_eq!(rest.len(), 0);
    assert_eq!(message2, message);
}

#[test]
fn truncated_decode() {
    assert!(matches!(decode::<u64>(&[0u8; 7]), Err(PowError::TruncatedInput)));
    assert!(matches!(decode::<u128>(&[0u8; 15]), Err(PowError::TruncatedInput)));
    let short = vec![0u8; 23];
    assert!(matches!(decode::<PoW<u8>>(&short), Err(PowError::TruncatedInput)));
    let exact = vec![0u8; 24];
    assert!(decode::<PoW<u8>>(&exact).is_ok());
}

#[test]
fn split_helpers() {
    let src: Vec<u8> = vec![1, 2, 3, 4, 5];
    let (head, tail) = safe_split(&src, 2).unwrap();
    assert_eq!(head, &[1, 2]);
    assert_eq!(tail, &[3, 4, 5]);
    assert!(safe_split(&src, 6).is_none());

    let (owned, rest) = take_sized(&src, 3).unwrap();
    assert_eq!(owned, vec![1, 2, 3]);
    assert_eq!(rest, &[4, 5]);
    assert!(take_sized(&src, 6).is_none());

    let mut dest: Vec<u8> = vec![9];
    put(&src, &mut dest);
    assert_eq!(dest, vec![9, 1, 2, 3, 4, 5]);
}
