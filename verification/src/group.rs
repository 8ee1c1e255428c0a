//! Scalars and group elements of the BLS12-381 pairing, each carried as its
//! canonical compressed encoding.
//!
//! Every value of the four element types holds the exact byte string that the
//! wire format and the Fiat-Shamir pre-images use, so contracts over these
//! types are contracts over bytes.  The group arithmetic is done by the
//! `pairing-plus` crate behind the trusted wrappers of this module; each
//! wrapper decodes the canonical bytes, performs one group operation, and
//! re-encodes the result.  What an operation returns is given a name (an
//! uninterpreted spec function), and nothing is assumed of the algebra of
//! those names.

use vstd::prelude::*;
use crate::encoding::{be32, be_nat, bytes_eq, subvec};
use pairing_plus::bls12_381::{Fr, FrRepr, G1Affine, G2Affine, Fq12};
use pairing_plus::hash_to_field::{hash_to_field, ExpandMsgXmd};
use pairing_plus::serdes::SerDes;
use pairing_plus::{CurveAffine, CurveProjective};
use ff_zeroize::{Field, PrimeField};
use rand::RngCore;
use zeroize::Zeroize;

verus! {

/// The big-endian bytes of the order of the scalar field `Fr` of BLS12-381.
pub open spec fn fr_order_bytes() -> Seq<u8> {
    seq![
        0x73u8, 0xed, 0xa7, 0x53, 0x29, 0x9d, 0x7d, 0x48, 0x33, 0x39, 0xd8, 0x08,
        0x09, 0xa1, 0xd8, 0x05, 0x53, 0xbd, 0xa4, 0x02, 0xff, 0xfe, 0x5b, 0xfe,
        0xff, 0xff, 0xff, 0xff, 0x00, 0x00, 0x00, 0x01,
    ]
}

/// The order of the scalar field `Fr` of BLS12-381.
pub open spec fn fr_order() -> nat {
    be_nat(fr_order_bytes())
}

/// The additive inverse of a scalar value mod the group order.
pub open spec fn fr_neg_val(v: nat) -> nat {
    (((fr_order() - v) % (fr_order() as int)) as nat)
}

/// The group order, as a vector of its big-endian bytes.
pub fn fr_order_bytes_vec() -> (r: Vec<u8>)
    ensures
        r@ == fr_order_bytes(),
{
    let mut out: Vec<u8> = Vec::new();
    out.push(0x73);
    out.push(0xed);
    out.push(0xa7);
    out.push(0x53);
    out.push(0x29);
    out.push(0x9d);
    out.push(0x7d);
    out.push(0x48);
    out.push(0x33);
    out.push(0x39);
    out.push(0xd8);
    out.push(0x08);
    out.push(0x09);
    out.push(0xa1);
    out.push(0xd8);
    out.push(0x05);
    out.push(0x53);
    out.push(0xbd);
    out.push(0xa4);
    out.push(0x02);
    out.push(0xff);
    out.push(0xfe);
    out.push(0x5b);
    out.push(0xfe);
    out.push(0xff);
    out.push(0xff);
    out.push(0xff);
    out.push(0xff);
    out.push(0x00);
    out.push(0x00);
    out.push(0x00);
    out.push(0x01);
    assert(out@ =~= fr_order_bytes());
    out
}

/// Whether 48 bytes are a canonical compressed encoding of a `G1` point of
/// the prime-order subgroup (the point at infinity included).
pub uninterp spec fn g1_wf(b: Seq<u8>) -> bool;

/// Whether 96 bytes are a canonical compressed encoding of a `G2` point of
/// the prime-order subgroup (the point at infinity included).
pub uninterp spec fn g2_wf(b: Seq<u8>) -> bool;

/// Whether 576 bytes are a canonical encoding of an `Fq12` element
/// (each 48-byte coefficient below the base-field modulus).
pub uninterp spec fn gt_wf(b: Seq<u8>) -> bool;

/// The canonical encoding of the `G1` point `P^s`, for a point encoded by
/// `p` and a scalar encoded by `s`.
pub uninterp spec fn g1_pow_of(p: Seq<u8>, s: Seq<u8>) -> Seq<u8>;

/// The canonical encoding of the `G2` point `Q^s`.
pub uninterp spec fn g2_pow_of(p: Seq<u8>, s: Seq<u8>) -> Seq<u8>;

/// The canonical encoding of the `G1` sum of the points encoded by `a` and `b`.
pub uninterp spec fn g1_add_of(a: Seq<u8>, b: Seq<u8>) -> Seq<u8>;

/// The canonical encoding of the pairing `e(P, Q)`.
pub uninterp spec fn pairing_of(p: Seq<u8>, q: Seq<u8>) -> Seq<u8>;

/// The canonical encoding of a multi-scalar product in `G1`:
/// the sum over i of `ps[i]` raised to `ss[i]`.
pub uninterp spec fn g1_msm_of(ps: Seq<Seq<u8>>, ss: Seq<Seq<u8>>) -> Seq<u8>;

/// The canonical encoding of a multi-scalar product in `G2`.
pub uninterp spec fn g2_msm_of(ps: Seq<Seq<u8>>, ss: Seq<Seq<u8>>) -> Seq<u8>;

/// The canonical encoding of the scalar that the pairing library's
/// `hash_to_field` derives from a message.
pub uninterp spec fn hash_fr_of(msg: Seq<u8>) -> Seq<u8>;

/// A well-formed scalar encoding: 32 bytes, big-endian value below the group
/// order.
pub open spec fn fr_elem_ok(b: Seq<u8>) -> bool {
    b.len() == 32 && be_nat(b) < fr_order()
}

/// A well-formed `G1` element encoding.
pub open spec fn g1_elem_ok(b: Seq<u8>) -> bool {
    b.len() == 48 && g1_wf(b)
}

/// A well-formed `G2` element encoding.
pub open spec fn g2_elem_ok(b: Seq<u8>) -> bool {
    b.len() == 96 && g2_wf(b)
}

/// A well-formed target-group element encoding.
pub open spec fn gt_elem_ok(b: Seq<u8>) -> bool {
    b.len() == 576 && gt_wf(b)
}

/// The canonical compressed encoding of the fixed `G1` generator.
pub open spec fn g1_gen_bytes() -> Seq<u8> {
    seq![
        0x97u8, 0xf1, 0xd3, 0xa7, 0x31, 0x97, 0xd7, 0x94, 0x26, 0x95, 0x63, 0x8c,
        0x4f, 0xa9, 0xac, 0x0f, 0xc3, 0x68, 0x8c, 0x4f, 0x97, 0x74, 0xb9, 0x05,
        0xa1, 0x4e, 0x3a, 0x3f, 0x17, 0x1b, 0xac, 0x58, 0x6c, 0x55, 0xe8, 0x3f,
        0xf9, 0x7a, 0x1a, 0xef, 0xfb, 0x3a, 0xf0, 0x0a, 0xdb, 0x22, 0xc6, 0xbb,
    ]
}

/// The canonical compressed encoding of the fixed `G2` generator.
pub open spec fn g2_gen_bytes() -> Seq<u8> {
    seq![
        0x93u8, 0xe0, 0x2b, 0x60, 0x52, 0x71, 0x9f, 0x60, 0x7d, 0xac, 0xd3, 0xa0,
        0x88, 0x27, 0x4f, 0x65, 0x59, 0x6b, 0xd0, 0xd0, 0x99, 0x20, 0xb6, 0x1a,
        0xb5, 0xda, 0x61, 0xbb, 0xdc, 0x7f, 0x50, 0x49, 0x33, 0x4c, 0xf1, 0x12,
        0x13, 0x94, 0x5d, 0x57, 0xe5, 0xac, 0x7d, 0x05, 0x5d, 0x04, 0x2b, 0x7e,
        0x02, 0x4a, 0xa2, 0xb2, 0xf0, 0x8f, 0x0a, 0x91, 0x26, 0x08, 0x05, 0x27,
        0x2d, 0xc5, 0x10, 0x51, 0xc6, 0xe4, 0x7a, 0xd4, 0xfa, 0x40, 0x3b, 0x02,
        0xb4, 0x51, 0x0b, 0x64, 0x7a, 0xe3, 0xd1, 0x77, 0x0b, 0xac, 0x03, 0x26,
        0xa8, 0x05, 0xbb, 0xef, 0xd4, 0x80, 0x56, 0xc8, 0xc1, 0x21, 0xbd, 0xb8,
    ]
}

/// The canonical compressed encoding of the `G1` point at infinity.
pub open spec fn g1_ident_bytes() -> Seq<u8> {
    Seq::new(48, |i: int| if i == 0 { 0xc0u8 } else { 0u8 })
}

/// The canonical compressed encoding of the `G2` point at infinity.
pub open spec fn g2_ident_bytes() -> Seq<u8> {
    Seq::new(96, |i: int| if i == 0 { 0xc0u8 } else { 0u8 })
}

/// The canonical encoding of the scalar one.
pub open spec fn fr_one_bytes() -> Seq<u8> {
    Seq::new(32, |i: int| if i == 31 { 1u8 } else { 0u8 })
}

/// A scalar of the field `Fr`, held as its canonical 32-byte big-endian
/// encoding.
#[derive(Clone, Debug, PartialEq)]
pub struct FrElem {
    b: Vec<u8>,
}

/// A `G1` point, held as its canonical 48-byte compressed encoding.
#[derive(Clone, Debug, PartialEq)]
pub struct G1Elem {
    b: Vec<u8>,
}

/// A `G2` point, held as its canonical 96-byte compressed encoding.
#[derive(Clone, Debug, PartialEq)]
pub struct G2Elem {
    b: Vec<u8>,
}

/// A target-group element, held as its canonical 576-byte encoding.
#[derive(Clone, Debug, PartialEq)]
pub struct GtElem {
    b: Vec<u8>,
}

impl View for FrElem {
    type V = Seq<u8>;

    closed spec fn view(&self) -> Seq<u8> {
        self.b@
    }
}

impl View for G1Elem {
    type V = Seq<u8>;

    closed spec fn view(&self) -> Seq<u8> {
        self.b@
    }
}

impl View for G2Elem {
    type V = Seq<u8>;

    closed spec fn view(&self) -> Seq<u8> {
        self.b@
    }
}

impl View for GtElem {
    type V = Seq<u8>;

    closed spec fn view(&self) -> Seq<u8> {
        self.b@
    }
}

impl FrElem {
    /// A well-formed scalar: 32 canonical bytes below the group order.
    pub open spec fn inv(&self) -> bool {
        fr_elem_ok(self@)
    }

    /// The canonical bytes of the scalar.
    pub fn as_bytes(&self) -> (r: &Vec<u8>)
        ensures
            r@ == self@,
    {
        &self.b
    }

    /// An independent copy of the scalar.
    pub fn dup(&self) -> (r: Self)
        ensures
            r@ == self@,
    {
        let n = self.b.len();
        FrElem { b: subvec(&self.b, 0, n) }
    }

    /// Accepts exactly the canonical 32-byte big-endian encodings of values
    /// below the group order.
    pub fn from_bytes(b: Vec<u8>) -> (r: Option<Self>)
        ensures
            match r {
                Some(e) => e@ == b@ && fr_elem_ok(b@),
                None => !fr_elem_ok(b@),
            },
    {
        if b.len() != 32 {
            return None;
        }
        if !fr_bytes_valid(&b) {
            return None;
        }
        Some(FrElem { b })
    }

    /// Wraps bytes already known to be a canonical scalar encoding.
    pub fn from_canonical(b: Vec<u8>) -> (r: Self)
        requires
            fr_elem_ok(b@),
        ensures
            r@ == b@,
            r.inv(),
    {
        FrElem { b }
    }

    /// Overwrites the scalar's bytes; the value is gone afterwards.
    pub fn wipe(&mut self)
        ensures
            final(self)@.len() == 0,
    {
        wipe_vec(&mut self.b);
    }
}

impl G1Elem {
    /// A well-formed `G1` element: 48 canonical compressed bytes.
    pub open spec fn inv(&self) -> bool {
        g1_elem_ok(self@)
    }

    /// The canonical bytes of the point.
    pub fn as_bytes(&self) -> (r: &Vec<u8>)
        ensures
            r@ == self@,
    {
        &self.b
    }

    /// An independent copy of the point.
    pub fn dup(&self) -> (r: Self)
        ensures
            r@ == self@,
    {
        let n = self.b.len();
        G1Elem { b: subvec(&self.b, 0, n) }
    }

    /// Accepts exactly the canonical compressed encodings of subgroup points.
    pub fn from_bytes(b: Vec<u8>) -> (r: Option<Self>)
        ensures
            match r {
                Some(e) => e@ == b@ && g1_elem_ok(b@),
                None => !g1_elem_ok(b@),
            },
    {
        if b.len() != 48 {
            return None;
        }
        if !g1_bytes_valid(&b) {
            return None;
        }
        Some(G1Elem { b })
    }

    /// Whether two points are the same, decided on the canonical bytes.
    pub fn same(&self, other: &Self) -> (r: bool)
        ensures
            r == (self@ == other@),
    {
        bytes_eq(&self.b, &other.b)
    }
}

impl G2Elem {
    /// A well-formed `G2` element: 96 canonical compressed bytes.
    pub open spec fn inv(&self) -> bool {
        g2_elem_ok(self@)
    }

    /// The canonical bytes of the point.
    pub fn as_bytes(&self) -> (r: &Vec<u8>)
        ensures
            r@ == self@,
    {
        &self.b
    }

    /// An independent copy of the point.
    pub fn dup(&self) -> (r: Self)
        ensures
            r@ == self@,
    {
        let n = self.b.len();
        G2Elem { b: subvec(&self.b, 0, n) }
    }

    /// Accepts exactly the canonical compressed encodings of subgroup points.
    pub fn from_bytes(b: Vec<u8>) -> (r: Option<Self>)
        ensures
            match r {
                Some(e) => e@ == b@ && g2_elem_ok(b@),
                None => !g2_elem_ok(b@),
            },
    {
        if b.len() != 96 {
            return None;
        }
        if !g2_bytes_valid(&b) {
            return None;
        }
        Some(G2Elem { b })
    }

    /// Whether two points are the same, decided on the canonical bytes.
    pub fn same(&self, other: &Self) -> (r: bool)
        ensures
            r == (self@ == other@),
    {
        bytes_eq(&self.b, &other.b)
    }
}

impl GtElem {
    /// A well-formed target-group element: 576 canonical bytes.
    pub open spec fn inv(&self) -> bool {
        gt_elem_ok(self@)
    }

    /// The canonical bytes of the element.
    pub fn as_bytes(&self) -> (r: &Vec<u8>)
        ensures
            r@ == self@,
    {
        &self.b
    }

    /// An independent copy of the element.
    pub fn dup(&self) -> (r: Self)
        ensures
            r@ == self@,
    {
        let n = self.b.len();
        GtElem { b: subvec(&self.b, 0, n) }
    }

    /// Accepts exactly the canonical encodings of `Fq12` elements.
    pub fn from_bytes(b: Vec<u8>) -> (r: Option<Self>)
        ensures
            match r {
                Some(e) => e@ == b@ && gt_elem_ok(b@),
                None => !gt_elem_ok(b@),
            },
    {
        if b.len() != 576 {
            return None;
        }
        if !gt_bytes_valid(&b) {
            return None;
        }
        Some(GtElem { b })
    }

    /// Whether two elements are the same, decided on the canonical bytes.
    pub fn same(&self, other: &Self) -> (r: bool)
        ensures
            r == (self@ == other@),
    {
        bytes_eq(&self.b, &other.b)
    }
}

/// Relies on `Fr::deserialize` of pairing-plus: 32 big-endian bytes are
/// accepted exactly when their value is below the group order
/// (`ff` rejects a representation at or above the modulus).
#[verifier::external_body]
fn fr_bytes_valid(b: &Vec<u8>) -> (r: bool)
    requires
        b@.len() == 32,
    ensures
        r == (be_nat(b@) < fr_order()),
{
    Fr::deserialize(&mut &b[..], true).is_ok()
}

/// Relies on `G1Affine::deserialize` of pairing-plus: decompression with the
/// curve and subgroup checks; `g1_wf` names exactly the byte strings it
/// accepts.
#[verifier::external_body]
fn g1_bytes_valid(b: &Vec<u8>) -> (r: bool)
    requires
        b@.len() == 48,
    ensures
        r == g1_wf(b@),
{
    G1Affine::deserialize(&mut &b[..], true).is_ok()
}

/// Relies on `G2Affine::deserialize` of pairing-plus: decompression with the
/// curve and subgroup checks; `g2_wf` names exactly the byte strings it
/// accepts.
#[verifier::external_body]
fn g2_bytes_valid(b: &Vec<u8>) -> (r: bool)
    requires
        b@.len() == 96,
    ensures
        r == g2_wf(b@),
{
    G2Affine::deserialize(&mut &b[..], true).is_ok()
}

/// Relies on `Fq12::deserialize` of pairing-plus: twelve 48-byte big-endian
/// coefficients, each below the base-field modulus; `gt_wf` names exactly the
/// byte strings it accepts.
#[verifier::external_body]
fn gt_bytes_valid(b: &Vec<u8>) -> (r: bool)
    requires
        b@.len() == 576,
    ensures
        r == gt_wf(b@),
{
    Fq12::deserialize(&mut &b[..], true).is_ok()
}

/// Relies on `G1Affine::one` and its serialization: the fixed generator of
/// `G1` has the canonical compressed encoding `g1_gen_bytes()`.
#[verifier::external_body]
pub fn g1_generator() -> (r: G1Elem)
    ensures
        r@ == g1_gen_bytes(),
        g1_elem_ok(r@),
{
    let mut out: Vec<u8> = vec![];
    G1Affine::one().serialize(&mut out, true).unwrap();
    G1Elem { b: out }
}

/// Relies on `G2Affine::one` and its serialization: the fixed generator of
/// `G2` has the canonical compressed encoding `g2_gen_bytes()`.
#[verifier::external_body]
pub fn g2_generator() -> (r: G2Elem)
    ensures
        r@ == g2_gen_bytes(),
        g2_elem_ok(r@),
{
    let mut out: Vec<u8> = vec![];
    G2Affine::one().serialize(&mut out, true).unwrap();
    G2Elem { b: out }
}

/// Relies on `Fr::mul_assign` of the ff field arithmetic and the big-endian
/// scalar serialization: the canonical bytes of the product mod the group
/// order.
#[verifier::external_body]
pub(crate) fn fr_mul(a: &FrElem, b: &FrElem) -> (r: FrElem)
    requires
        fr_elem_ok(a@),
        fr_elem_ok(b@),
    ensures
        r@ == be32((be_nat(a@) * be_nat(b@)) % fr_order()),
        be_nat(r@) == (be_nat(a@) * be_nat(b@)) % fr_order(),
        fr_elem_ok(r@),
{
    let mut x = Fr::deserialize(&mut &a.b[..], true).unwrap();
    let y = Fr::deserialize(&mut &b.b[..], true).unwrap();
    x.mul_assign(&y);
    let mut out: Vec<u8> = vec![];
    x.serialize(&mut out, true).unwrap();
    FrElem { b: out }
}

/// Relies on `Fr::negate` of the ff field arithmetic: zero stays zero, any
/// other value becomes the group order minus it.
#[verifier::external_body]
pub(crate) fn fr_neg(a: &FrElem) -> (r: FrElem)
    requires
        fr_elem_ok(a@),
    ensures
        r@ == be32(fr_neg_val(be_nat(a@))),
        be_nat(r@) == fr_neg_val(be_nat(a@)),
        fr_elem_ok(r@),
{
    let mut x = Fr::deserialize(&mut &a.b[..], true).unwrap();
    x.negate();
    let mut out: Vec<u8> = vec![];
    x.serialize(&mut out, true).unwrap();
    FrElem { b: out }
}

/// Relies on `Fr::add_assign` of the ff field arithmetic: the canonical
/// bytes of the sum mod the group order.
#[verifier::external_body]
pub(crate) fn fr_add(a: &FrElem, b: &FrElem) -> (r: FrElem)
    requires
        fr_elem_ok(a@),
        fr_elem_ok(b@),
    ensures
        r@ == be32((be_nat(a@) + be_nat(b@)) % fr_order()),
        be_nat(r@) == (be_nat(a@) + be_nat(b@)) % fr_order(),
        fr_elem_ok(r@),
{
    let mut x = Fr::deserialize(&mut &a.b[..], true).unwrap();
    let y = Fr::deserialize(&mut &b.b[..], true).unwrap();
    x.add_assign(&y);
    let mut out: Vec<u8> = vec![];
    x.serialize(&mut out, true).unwrap();
    FrElem { b: out }
}

/// Relies on `hash_to_field` of pairing-plus with SHA-256 message expansion:
/// the scalar it derives depends on the message alone, and `hash_fr_of`
/// names its canonical encoding.
#[verifier::external_body]
pub(crate) fn fr_hash_to_field(msg: &Vec<u8>) -> (r: FrElem)
    ensures
        r@ == hash_fr_of(msg@),
        fr_elem_ok(r@),
{
    let v: Vec<Fr> = hash_to_field::<Fr, ExpandMsgXmd<sha2::Sha256>>(msg, &[], 1);
    let mut out: Vec<u8> = vec![];
    v[0].serialize(&mut out, true).unwrap();
    FrElem { b: out }
}

/// Relies on `CurveAffine::mul` of pairing-plus: the point raised to the
/// scalar, re-encoded canonically.
#[verifier::external_body]
pub(crate) fn g1_pow(p: &G1Elem, s: &FrElem) -> (r: G1Elem)
    requires
        g1_elem_ok(p@),
        fr_elem_ok(s@),
    ensures
        r@ == g1_pow_of(p@, s@),
        g1_elem_ok(r@),
{
    let pt = G1Affine::deserialize(&mut &p.b[..], true).unwrap();
    let sc = Fr::deserialize(&mut &s.b[..], true).unwrap();
    let mut out: Vec<u8> = vec![];
    pt.mul(sc).serialize(&mut out, true).unwrap();
    G1Elem { b: out }
}

/// Relies on `CurveAffine::mul` of pairing-plus for `G2`.
#[verifier::external_body]
pub(crate) fn g2_pow(p: &G2Elem, s: &FrElem) -> (r: G2Elem)
    requires
        g2_elem_ok(p@),
        fr_elem_ok(s@),
    ensures
        r@ == g2_pow_of(p@, s@),
        g2_elem_ok(r@),
{
    let pt = G2Affine::deserialize(&mut &p.b[..], true).unwrap();
    let sc = Fr::deserialize(&mut &s.b[..], true).unwrap();
    let mut out: Vec<u8> = vec![];
    pt.mul(sc).serialize(&mut out, true).unwrap();
    G2Elem { b: out }
}

/// Relies on `CurveProjective::add_assign_mixed` of pairing-plus: the sum of
/// two `G1` points, re-encoded canonically.
#[verifier::external_body]
pub(crate) fn g1_add(a: &G1Elem, b: &G1Elem) -> (r: G1Elem)
    requires
        g1_elem_ok(a@),
        g1_elem_ok(b@),
    ensures
        r@ == g1_add_of(a@, b@),
        g1_elem_ok(r@),
{
    let x = G1Affine::deserialize(&mut &a.b[..], true).unwrap();
    let y = G1Affine::deserialize(&mut &b.b[..], true).unwrap();
    let mut acc = x.into_projective();
    acc.add_assign_mixed(&y);
    let mut out: Vec<u8> = vec![];
    acc.serialize(&mut out, true).unwrap();
    G1Elem { b: out }
}

/// Relies on `CurveAffine::pairing_with` of pairing-plus: the pairing
/// `e(P, Q)`, re-encoded canonically.
#[verifier::external_body]
pub(crate) fn pairing(p: &G1Elem, q: &G2Elem) -> (r: GtElem)
    requires
        g1_elem_ok(p@),
        g2_elem_ok(q@),
    ensures
        r@ == pairing_of(p@, q@),
        gt_elem_ok(r@),
{
    let x = G1Affine::deserialize(&mut &p.b[..], true).unwrap();
    let y = G2Affine::deserialize(&mut &q.b[..], true).unwrap();
    let mut out: Vec<u8> = vec![];
    x.pairing_with(&y).serialize(&mut out, true).unwrap();
    GtElem { b: out }
}

/// Relies on `G1Affine::sum_of_products` of pairing-plus: the multi-scalar
/// product of `ps[from..to]` with the first `to - from` scalars of `ss`.
#[verifier::external_body]
pub(crate) fn g1_msm(ps: &Vec<G1Elem>, from: usize, to: usize, ss: &Vec<FrElem>) -> (r: G1Elem)
    requires
        from <= to <= ps@.len(),
        to - from <= ss@.len(),
        forall|i: int| from <= i < to ==> g1_elem_ok(#[trigger] ps@[i]@),
        forall|i: int| 0 <= i < to - from ==> fr_elem_ok(#[trigger] ss@[i]@),
    ensures
        r@ == g1_msm_of(
            ps@.subrange(from as int, to as int).map(|i: int, e: G1Elem| e@),
            ss@.subrange(0, to - from).map(|i: int, e: FrElem| e@),
        ),
        g1_elem_ok(r@),
{
    let pts: Vec<G1Affine> = ps[from..to].iter().map(
        |e: &G1Elem| G1Affine::deserialize(&mut &e.b[..], true).unwrap()).collect();
    let reprs: Vec<FrRepr> = ss[..to - from].iter().map(
        |e: &FrElem| Fr::deserialize(&mut &e.b[..], true).unwrap().into_repr()).collect();
    let refs: Vec<&[u64; 4]> = reprs.iter().map(|x: &FrRepr| &x.0).collect();
    let mut out: Vec<u8> = vec![];
    G1Affine::sum_of_products(&pts, &refs).serialize(&mut out, true).unwrap();
    G1Elem { b: out }
}

/// Relies on `G2Affine::sum_of_products` of pairing-plus.
#[verifier::external_body]
pub(crate) fn g2_msm(ps: &Vec<G2Elem>, from: usize, to: usize, ss: &Vec<FrElem>) -> (r: G2Elem)
    requires
        from <= to <= ps@.len(),
        to - from <= ss@.len(),
        forall|i: int| from <= i < to ==> g2_elem_ok(#[trigger] ps@[i]@),
        forall|i: int| 0 <= i < to - from ==> fr_elem_ok(#[trigger] ss@[i]@),
    ensures
        r@ == g2_msm_of(
            ps@.subrange(from as int, to as int).map(|i: int, e: G2Elem| e@),
            ss@.subrange(0, to - from).map(|i: int, e: FrElem| e@),
        ),
        g2_elem_ok(r@),
{
    let pts: Vec<G2Affine> = ps[from..to].iter().map(
        |e: &G2Elem| G2Affine::deserialize(&mut &e.b[..], true).unwrap()).collect();
    let reprs: Vec<FrRepr> = ss[..to - from].iter().map(
        |e: &FrElem| Fr::deserialize(&mut &e.b[..], true).unwrap().into_repr()).collect();
    let refs: Vec<&[u64; 4]> = reprs.iter().map(|x: &FrRepr| &x.0).collect();
    let mut out: Vec<u8> = vec![];
    G2Affine::sum_of_products(&pts, &refs).serialize(&mut out, true).unwrap();
    G2Elem { b: out }
}

/// Relies on `OsRng::fill_bytes` of the rand crate: fresh bytes from the
/// operating system's RNG.  Nothing is assumed of their values.  An OS RNG
/// failure ends the process, which the ceremony treats as fatal.
#[verifier::external_body]
pub(crate) fn os_random_bytes(len: usize) -> (r: Vec<u8>)
    ensures
        r@.len() == len,
{
    let mut b: Vec<u8> = vec![0u8; len];
    rand::rngs::OsRng.fill_bytes(&mut b);
    b
}

/// Relies on `Zeroize::zeroize` of the zeroize crate: overwrites the buffer
/// and leaves it empty.
#[verifier::external_body]
pub(crate) fn wipe_vec(v: &mut Vec<u8>)
    ensures
        final(v)@.len() == 0,
{
    v.zeroize();
}

/// The compressed encoding of the `G1` point at infinity, as a vector.
pub fn g1_identity_bytes() -> (r: Vec<u8>)
    ensures
        r@ == g1_ident_bytes(),
{
    let mut out: Vec<u8> = Vec::new();
    out.push(0xc0);
    let mut i: usize = 1;
    while i < 48
        invariant
            1 <= i <= 48,
            out@.len() == i,
            out@[0] == 0xc0u8,
            forall|j: int| 1 <= j < i ==> out@[j] == 0u8,
        decreases 48 - i,
    {
        out.push(0);
        i += 1;
    }
    assert(out@ =~= g1_ident_bytes());
    out
}

/// The compressed encoding of the `G2` point at infinity, as a vector.
pub fn g2_identity_bytes() -> (r: Vec<u8>)
    ensures
        r@ == g2_ident_bytes(),
{
    let mut out: Vec<u8> = Vec::new();
    out.push(0xc0);
    let mut i: usize = 1;
    while i < 96
        invariant
            1 <= i <= 96,
            out@.len() == i,
            out@[0] == 0xc0u8,
            forall|j: int| 1 <= j < i ==> out@[j] == 0u8,
        decreases 96 - i,
    {
        out.push(0);
        i += 1;
    }
    assert(out@ =~= g2_ident_bytes());
    out
}

/// The canonical encoding of the scalar one, as a vector.
pub fn fr_one_bytes_vec() -> (r: Vec<u8>)
    ensures
        r@ == fr_one_bytes(),
{
    let mut out: Vec<u8> = Vec::new();
    let mut i: usize = 0;
    while i < 31
        invariant
            0 <= i <= 31,
            out@.len() == i,
            forall|j: int| 0 <= j < i ==> out@[j] == 0u8,
        decreases 31 - i,
    {
        out.push(0);
        i += 1;
    }
    out.push(1);
    assert(out@ =~= fr_one_bytes());
    out
}

/// The group order read from its bytes is far above one.
pub proof fn lemma_fr_order_large()
    ensures
        fr_order() > 1,
{
    crate::encoding::lemma_be_nat_first(fr_order_bytes());
    crate::encoding::lemma_pow256_pos(31);
    assert(fr_order_bytes()[0] == 0x73);
    assert(0x73 * crate::encoding::pow256(31) >= 0x73 * 1) by (nonlinear_arith)
        requires
            crate::encoding::pow256(31) >= 1,
    ;
}

/// The canonical one-encoding denotes one, and is a well-formed scalar.
pub proof fn lemma_fr_one_value()
    ensures
        be_nat(fr_one_bytes()) == 1,
        fr_elem_ok(fr_one_bytes()),
{
    let s = fr_one_bytes();
    let t = s.drop_last();
    assert(forall|i: int| 0 <= i < t.len() ==> #[trigger] t[i] == 0);
    crate::encoding::lemma_be_nat_zero(t);
    assert(be_nat(s) == be_nat(t) * 256 + s.last() as nat);
    assert(s.last() == 1);
    lemma_fr_order_large();
}

/// The canonical one-encoding is the positional encoding of one.
pub proof fn lemma_fr_one_is_be32_one()
    ensures
        fr_one_bytes() == be32(1),
{
    assert forall|i: int| 0 <= i < 32 implies fr_one_bytes()[i] == be32(1)[i] by {
        assert(be32(1)[i] == ((1nat / crate::encoding::pow256((31 - i) as nat)) % 256) as u8);
        assert(fr_one_bytes()[i] == (if i == 31 { 1u8 } else { 0u8 }));
        if i == 31 {
            assert(crate::encoding::pow256(0) == 1);
            assert(1nat / 1nat == 1nat);
        } else {
            crate::encoding::lemma_pow256_at_least((31 - i) as nat);
            vstd::arithmetic::div_mod::lemma_basic_div(
                1,
                crate::encoding::pow256((31 - i) as nat) as int,
            );
        }
    }
    assert(fr_one_bytes() =~= be32(1));
}

/// A uniformly random scalar: 64 bytes from the OS RNG fed through the
/// pairing library's hash-to-field, the byte buffer wiped before returning.
/// The result is the hash-to-field image of the drawn block; nothing is
/// assumed of the block's value.
pub fn random_scalar() -> (r: FrElem)
    ensures
        r.inv(),
        exists|b: Seq<u8>| b.len() == 64 && r@ == hash_fr_of(b),
{
    let mut buf = os_random_bytes(64);
    let ghost drawn = buf@;
    let r = fr_hash_to_field(&buf);
    wipe_vec(&mut buf);
    proof {
        assert(drawn.len() == 64 && r@ == hash_fr_of(drawn));
    }
    r
}

} // verus!
