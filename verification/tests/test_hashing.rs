use bigint::U512;
use pointproofs_paramgen::hash_to_field_pointproofs::{hash_to_field_pointproofs, os2ip_mod_p};
use pointproofs_paramgen::random_scalar;
use sha2::{Digest, Sha512};
use std::ops::Rem;

// SHA-512("") mod r, big-endian
const EMPTY_VECTOR: [u8; 32] = [
    0x51, 0x71, 0x8e, 0x7e, 0xe8, 0xb1, 0xaa, 0x98, 0x25, 0xce, 0x32, 0x6e, 0x8f, 0x28, 0x6f,
    0x16, 0xee, 0xe0, 0xb3, 0x9b, 0x63, 0x46, 0xc0, 0xb0, 0xef, 0xbc, 0xbb, 0xcd, 0x5a, 0x0d,
    0xee, 0xdc,
];

const R_BYTES: [u8; 32] = [
    0x73, 0xed, 0xa7, 0x53, 0x29, 0x9d, 0x7d, 0x48, 0x33, 0x39, 0xd8, 0x08, 0x09, 0xa1, 0xd8,
    0x05, 0x53, 0xbd, 0xa4, 0x02, 0xff, 0xfe, 0x5b, 0xfe, 0xff, 0xff, 0xff, 0xff, 0x00, 0x00,
    0x00, 0x01,
];

#[test]
fn hash_of_empty_input_matches_vector() {
    let out = hash_to_field_pointproofs(&Vec::new());
    assert_eq!(&out.as_bytes()[..], &EMPTY_VECTOR[..]);
}

#[test]
fn hash_matches_direct_computation() {
    let input = b"The quick brown fox jumps over the lazy dog".to_vec();
    let out = hash_to_field_pointproofs(&input);

    let mut hasher = Sha512::new();
    hasher.input(&input);
    let digest = hasher.result();
    let x = U512::from(&digest[..]);
    let p = U512::from(&R_BYTES[..]);
    let t = x.rem(p);
    let mut wide = [0u8; 64];
    t.to_big_endian(&mut wide);
    assert_eq!(&out.as_bytes()[..], &wide[32..]);
}

#[test]
fn os2ip_reduces_all_ones() {
    let input = vec![0xffu8; 64];
    let out = os2ip_mod_p(&input);
    assert_eq!(out.len(), 32);

    let x = U512::from(&input[..]);
    let p = U512::from(&R_BYTES[..]);
    let t = x.rem(p);
    let mut wide = [0u8; 64];
    t.to_big_endian(&mut wide);
    assert_eq!(&out[..], &wide[32..]);
}

#[test]
fn random_scalars_are_wellformed_and_fresh() {
    let a = random_scalar();
    let b = random_scalar();
    assert_eq!(a.as_bytes().len(), 32);
    assert_eq!(b.as_bytes().len(), 32);
    assert_ne!(a.as_bytes(), b.as_bytes());
}
