use pointproofs_paramgen::group::FrElem;
use pointproofs_paramgen::schnorr::{make_pok, verify_pok};
use pointproofs_paramgen::{
    VeccomParams, check_rerandomization, consistent, generate, random_scalar, rerandomize,
};
use rand::RngCore;

fn fr_from_u8(x: u8) -> FrElem {
    let mut b = vec![0u8; 32];
    b[31] = x;
    FrElem::from_bytes(b).unwrap()
}

#[test]
fn test_param() {
    let alpha = fr_from_u8(5);
    let t = generate(&alpha, 0, 16);

    let buf = t.serialize(true).unwrap();

    let (tt, used) = VeccomParams::deserialize(&buf, 0, true).unwrap();
    assert_eq!(used, buf.len());

    assert_eq!(t, tt);
}

#[test]
fn test_functions() {
    // generate an initial parameter set
    let alpha = fr_from_u8(5);
    let init_param = generate(&alpha, 0, 8);

    // re-randomize the initial parameter set
    let mut r = vec![0u8; 64];
    rand::rngs::OsRng.fill_bytes(&mut r[..]);

    let id: Vec<u8> = Vec::new();
    let (update_param, proof) = rerandomize(&init_param, &r, &id);
    println!("finish rerandomize");
    // check the proof
    assert!(
        check_rerandomization(&update_param, &init_param.g2_alpha_1_to_n[0], &proof, &id),
        "re-randomization failed"
    );
}

#[test]
fn test_schnorr_basic() {
    let id = b"id string".to_vec();
    let x = random_scalar();
    let proof = make_pok(&x, &id);
    let mut ok = verify_pok(&proof, &id);
    assert!(ok, "failed to verify a pok we made");
    ok = verify_pok(&proof, &b"bad id string".to_vec());
    assert!(!ok, "pok verified with bad id string");
}

#[test]
fn consistent_accepts_generated() {
    let alpha = fr_from_u8(5);
    let p = generate(&alpha, 0, 4);
    assert!(consistent(&p));
}

#[test]
fn smallest_vector_length_works() {
    let alpha = fr_from_u8(9);
    let p = generate(&alpha, 0, 1);
    assert_eq!(p.n, 1);
    assert_eq!(p.g1_alpha_nplus2_to_2n.len(), 0);
    assert!(consistent(&p));
    let buf = p.serialize(true).unwrap();
    let (q, used) = VeccomParams::deserialize(&buf, 0, true).unwrap();
    assert_eq!(used, buf.len());
    assert_eq!(p, q);

    let id = b"solo".to_vec();
    let entropy = vec![7u8; 64];
    let (p1, pok) = rerandomize(&p, &entropy, &id);
    assert!(check_rerandomization(&p1, &p.g2_alpha_1_to_n[0], &pok, &id));
}
