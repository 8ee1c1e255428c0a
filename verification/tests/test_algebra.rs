use ff_zeroize::{Field, PrimeField};
use pairing_plus::bls12_381::{Fr, FrRepr, G1Affine, G2Affine};
use pairing_plus::serdes::SerDes;
use pairing_plus::{CurveAffine, CurveProjective};
use pointproofs_paramgen::group::FrElem;
use pointproofs_paramgen::generate;

fn fr_from_u8(x: u8) -> FrElem {
    let mut b = vec![0u8; 32];
    b[31] = x;
    FrElem::from_bytes(b).unwrap()
}

fn g1_bytes(s: Fr) -> Vec<u8> {
    let mut out: Vec<u8> = vec![];
    G1Affine::one().mul(s).serialize(&mut out, true).unwrap();
    out
}

fn g2_bytes(s: Fr) -> Vec<u8> {
    let mut out: Vec<u8> = vec![];
    G2Affine::one().mul(s).serialize(&mut out, true).unwrap();
    out
}

// The layout for n = 3: header 9, three 48-byte A1 slots, two 48-byte B1
// slots, three 96-byte A2 slots, two 96-byte B2 slots, and T on 576 bytes.
#[test]
fn powers_match_and_hole_is_absent() {
    let n = 3usize;
    let p = generate(&fr_from_u8(7), 0, n);
    let ser = p.serialize(true).unwrap();
    assert_eq!(ser.len(), 9 + 3 * 48 + 2 * 48 + 3 * 96 + 2 * 96 + 576);

    // alpha^1 .. alpha^6 over the pairing library directly
    let alpha = Fr::from_repr(FrRepr([7, 0, 0, 0])).unwrap();
    let mut powers: Vec<Fr> = vec![];
    let mut acc = alpha;
    for _ in 0..6 {
        powers.push(acc);
        acc.mul_assign(&alpha);
    }

    // every listed element is the claimed power of the right generator
    for i in 0..3 {
        let off = 9 + 48 * i;
        assert_eq!(&ser[off..off + 48], &g1_bytes(powers[i])[..], "A1[{}]", i);
    }
    for i in 0..2 {
        let off = 9 + 144 + 48 * i;
        assert_eq!(&ser[off..off + 48], &g1_bytes(powers[i + 4])[..], "B1[{}]", i);
    }
    for i in 0..3 {
        let off = 249 + 96 * i;
        assert_eq!(&ser[off..off + 96], &g2_bytes(powers[i])[..], "A2[{}]", i);
    }
    for i in 0..2 {
        let off = 537 + 96 * i;
        assert_eq!(&ser[off..off + 96], &g2_bytes(powers[i + 4])[..], "B2[{}]", i);
    }

    // the hole alpha^{n+1} appears nowhere among the listed elements
    let hole1 = g1_bytes(powers[3]);
    let hole2 = g2_bytes(powers[3]);
    for i in 0..5 {
        let off = 9 + 48 * i;
        assert_ne!(&ser[off..off + 48], &hole1[..]);
    }
    for i in 0..5 {
        let off = 249 + 96 * i;
        assert_ne!(&ser[off..off + 96], &hole2[..]);
    }

    // and T is exactly the pairing of the hole with the G2 generator
    let hole_affine = G1Affine::one().mul(powers[3]).into_affine();
    let mut t_expected: Vec<u8> = vec![];
    hole_affine
        .pairing_with(&G2Affine::one())
        .serialize(&mut t_expected, true)
        .unwrap();
    assert_eq!(&ser[729..1305], &t_expected[..]);
}
