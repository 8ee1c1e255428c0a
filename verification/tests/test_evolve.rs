use pairing_plus::serdes::SerDes;
use pairing_plus::bls12_381::G2Affine;
use pairing_plus::CurveAffine;
use pointproofs_paramgen::group::{FrElem, G2Elem};
use pointproofs_paramgen::schnorr::{PoK, verify_pok};
use pointproofs_paramgen::{check_rerandomization, consistent, generate, rerandomize};
use rand::RngCore;

fn fr_from_u8(x: u8) -> FrElem {
    let mut b = vec![0u8; 32];
    b[31] = x;
    FrElem::from_bytes(b).unwrap()
}

#[test]
fn evolve_chain_verifies() {
    let alpha = fr_from_u8(5);
    let p0 = generate(&alpha, 0, 2);

    // first participant, fixed entropy
    let id_a = b"party-A".to_vec();
    let entropy = vec![0u8; 64];
    let (p1, pok1) = rerandomize(&p0, &entropy, &id_a);
    assert!(verify_pok(&pok1, &id_a));
    assert!(check_rerandomization(&p1, &p0.g2_alpha_1_to_n[0], &pok1, &id_a));

    // second participant, fresh entropy
    let id_b = b"party-B".to_vec();
    let mut r = vec![0u8; 64];
    rand::rngs::OsRng.fill_bytes(&mut r[..]);
    let (p2, pok2) = rerandomize(&p1, &r, &id_b);
    assert!(check_rerandomization(&p2, &p1.g2_alpha_1_to_n[0], &pok2, &id_b));

    // the wrong identity is rejected
    assert!(!check_rerandomization(&p2, &p1.g2_alpha_1_to_n[0], &pok2, &id_a));
}

#[test]
fn pok_bit_flip_is_rejected() {
    let alpha = fr_from_u8(5);
    let p0 = generate(&alpha, 0, 2);
    let id = b"party-A".to_vec();
    let entropy = vec![0u8; 64];
    let (p1, pok) = rerandomize(&p0, &entropy, &id);
    assert!(check_rerandomization(&p1, &p0.g2_alpha_1_to_n[0], &pok, &id));

    let buf = pok.serialize(true).unwrap();
    // a sample of bit positions across all three components
    for byte in [0usize, 5, 17, 47, 48, 60, 95, 96, 101, 112, 127] {
        for bit in [0u8, 7] {
            let mut tampered = buf.clone();
            tampered[byte] ^= 1 << bit;
            match PoK::deserialize(&tampered, 0, true) {
                Err(_) => {},
                Ok((bad, _)) => {
                    assert!(
                        !check_rerandomization(&p1, &p0.g2_alpha_1_to_n[0], &bad, &id),
                        "tampered proof accepted at byte {} bit {}",
                        byte,
                        bit
                    );
                },
            }
        }
    }
}

#[test]
fn consistent_rejects_generator_element() {
    let alpha = fr_from_u8(5);
    let mut p = generate(&alpha, 0, 2);
    let mut gb: Vec<u8> = vec![];
    G2Affine::one().serialize(&mut gb, true).unwrap();
    let gen2 = G2Elem::from_bytes(gb).unwrap();
    p.g2_alpha_1_to_n[0] = gen2;
    assert!(!consistent(&p));
}

#[test]
fn consistent_rejects_swapped_powers() {
    // all elements stay valid and nondegenerate, but the algebraic shape is
    // broken, so the pairing equations must catch it
    let alpha = fr_from_u8(5);
    let mut p = generate(&alpha, 0, 3);
    p.g1_alpha_1_to_n.swap(0, 1);
    assert!(!consistent(&p));
}

#[test]
fn consistent_rejects_identity_element() {
    let alpha = fr_from_u8(5);
    let mut p = generate(&alpha, 0, 2);
    let mut ib = vec![0u8; 96];
    ib[0] = 0xc0;
    let ident = G2Elem::from_bytes(ib).unwrap();
    p.g2_alpha_1_to_n[1] = ident;
    assert!(!consistent(&p));
}
