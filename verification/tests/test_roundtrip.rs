use pointproofs_paramgen::errors::SerdesError;
use pointproofs_paramgen::group::FrElem;
use pointproofs_paramgen::schnorr::{PoK, make_pok, verify_pok};
use pointproofs_paramgen::{VeccomParams, generate, random_scalar};

fn fr_from_u8(x: u8) -> FrElem {
    let mut b = vec![0u8; 32];
    b[31] = x;
    FrElem::from_bytes(b).unwrap()
}

fn small_params() -> VeccomParams {
    generate(&fr_from_u8(5), 3, 2)
}

#[test]
fn params_round_trip_with_trailing_bytes() {
    let p = small_params();
    let mut buf = p.serialize(true).unwrap();
    let wire_len = buf.len();
    buf.push(0xab);
    buf.push(0xcd);
    let (q, used) = VeccomParams::deserialize(&buf, 0, true).unwrap();
    assert_eq!(used, wire_len);
    assert_eq!(p, q);
    assert_eq!(q.ciphersuite, 3);
    assert_eq!(q.n, 2);
}

#[test]
fn pok_round_trip() {
    let x = random_scalar();
    let id = b"round trip".to_vec();
    let pok = make_pok(&x, &id);
    let buf = pok.serialize(true).unwrap();
    assert_eq!(buf.len(), 128);
    let (pok2, used) = PoK::deserialize(&buf, 0, true).unwrap();
    assert_eq!(used, 128);
    assert_eq!(pok, pok2);
    assert!(verify_pok(&pok2, &id));
}

#[test]
fn uncompressed_form_is_refused() {
    let p = small_params();
    assert_eq!(p.serialize(false).unwrap_err(), SerdesError::NotCompressed);
    let buf = p.serialize(true).unwrap();
    assert_eq!(
        VeccomParams::deserialize(&buf, 0, false).unwrap_err(),
        SerdesError::NotCompressed
    );
    let x = random_scalar();
    let pok = make_pok(&x, &b"id".to_vec());
    assert_eq!(pok.serialize(false).unwrap_err(), SerdesError::NotCompressed);
    let pbuf = pok.serialize(true).unwrap();
    assert_eq!(
        PoK::deserialize(&pbuf, 0, false).unwrap_err(),
        SerdesError::NotCompressed
    );
}

#[test]
fn deserialize_rejects_large_n() {
    // ciphersuite byte, then n = 70000 little-endian, then padding
    let mut buf = vec![0u8];
    buf.extend_from_slice(&70000u64.to_le_bytes());
    buf.extend_from_slice(&[0u8; 64]);
    assert_eq!(
        VeccomParams::deserialize(&buf, 0, true).unwrap_err(),
        SerdesError::NTooLarge
    );
}

#[test]
fn deserialize_rejects_zero_n() {
    let mut buf = vec![0u8];
    buf.extend_from_slice(&0u64.to_le_bytes());
    buf.extend_from_slice(&[0u8; 64]);
    assert_eq!(
        VeccomParams::deserialize(&buf, 0, true).unwrap_err(),
        SerdesError::NZero
    );
}

#[test]
fn deserialize_rejects_short_buffer() {
    let p = small_params();
    let buf = p.serialize(true).unwrap();
    let short = buf[..buf.len() - 1].to_vec();
    assert_eq!(
        VeccomParams::deserialize(&short, 0, true).unwrap_err(),
        SerdesError::TooShort
    );
    let header_only = buf[..5].to_vec();
    assert_eq!(
        VeccomParams::deserialize(&header_only, 0, true).unwrap_err(),
        SerdesError::TooShort
    );
}

#[test]
fn deserialize_rejects_mangled_point() {
    let p = small_params();
    let mut buf = p.serialize(true).unwrap();
    // clear the compression flag of the first G1 element
    buf[9] &= 0x7f;
    assert_eq!(
        VeccomParams::deserialize(&buf, 0, true).unwrap_err(),
        SerdesError::BadPoint
    );
}

#[test]
fn deserialize_rejects_bad_target_coefficient() {
    let p = small_params();
    let mut buf = p.serialize(true).unwrap();
    // force the first coefficient of T far above the base-field modulus
    let t_off = buf.len() - 576;
    for i in 0..48 {
        buf[t_off + i] = 0xff;
    }
    assert_eq!(
        VeccomParams::deserialize(&buf, 0, true).unwrap_err(),
        SerdesError::BadScalar
    );
}

#[test]
fn pok_deserialize_rejects_short_buffer() {
    let x = random_scalar();
    let pok = make_pok(&x, &b"id".to_vec());
    let buf = pok.serialize(true).unwrap();
    let short = buf[..100].to_vec();
    assert_eq!(
        PoK::deserialize(&short, 0, true).unwrap_err(),
        SerdesError::TooShort
    );
}

// the layout of an evolve output file: the parameter set followed by the
// proof, read back from one buffer at the positions the reads return
#[test]
fn combined_file_round_trip() {
    let p = small_params();
    let x = random_scalar();
    let pok = make_pok(&x, &b"party".to_vec());
    let mut buf = p.serialize(true).unwrap();
    buf.extend_from_slice(&pok.serialize(true).unwrap());

    let (p2, used) = VeccomParams::deserialize(&buf, 0, true).unwrap();
    let (pok2, end) = PoK::deserialize(&buf, used, true).unwrap();
    assert_eq!(p, p2);
    assert_eq!(pok, pok2);
    assert_eq!(end, buf.len());
    assert!(verify_pok(&pok2, &b"party".to_vec()));
}

#[test]
fn pok_deserialize_rejects_big_scalar() {
    let x = random_scalar();
    let pok = make_pok(&x, &b"id".to_vec());
    let mut buf = pok.serialize(true).unwrap();
    // the scalar occupies the last 32 bytes; force it above the group order
    for i in 96..128 {
        buf[i] = 0xff;
    }
    assert_eq!(
        PoK::deserialize(&buf, 0, true).unwrap_err(),
        SerdesError::BadScalar
    );
}
