//! Schnorr proof of knowledge of a discrete log in `G1`, bound to a
//! participant identity by Fiat-Shamir.
//!
//! A proof `(P, A, s)` claims knowledge of `x` with `P = g1^x`: the prover
//! draws a fresh scalar `k`, sets `A = g1^k` and `s = k - e*x`, where the
//! challenge `e` hashes the encodings of `A` and `P` together with the
//! length-prefixed identity.  The construction is not constant-time.

use vstd::prelude::*;
use crate::encoding::{be32, be8, be_nat, bytes_eq, extend, u64_to_be_bytes};
use crate::errors::SerdesError;
use crate::group::{
    FrElem, G1Elem, fr_add, fr_elem_ok, fr_hash_to_field, fr_mul, fr_neg, fr_order, g1_add,
    g1_add_of, g1_elem_ok, g1_gen_bytes, g1_generator, g1_ident_bytes, g1_identity_bytes,
    g1_pow, g1_pow_of, hash_fr_of, random_scalar,
};

verus! {

/// The Fiat-Shamir domain separator, the ASCII bytes of "DomainSep".
pub open spec fn domain_sep() -> Seq<u8> {
    seq![0x44u8, 0x6f, 0x6d, 0x61, 0x69, 0x6e, 0x53, 0x65, 0x70]
}

/// The domain separator as a vector.
fn domain_sep_vec() -> (r: Vec<u8>)
    ensures
        r@ == domain_sep(),
{
    let mut out: Vec<u8> = Vec::new();
    out.push(0x44);
    out.push(0x6f);
    out.push(0x6d);
    out.push(0x61);
    out.push(0x69);
    out.push(0x6e);
    out.push(0x53);
    out.push(0x65);
    out.push(0x70);
    assert(out@ =~= domain_sep());
    out
}

/// The challenge pre-image: domain separator, the encodings of `A` and `P`,
/// and the 8-byte big-endian length of the identity followed by the identity.
pub open spec fn pok_preimage(a: Seq<u8>, p: Seq<u8>, id: Seq<u8>) -> Seq<u8> {
    domain_sep() + a + p + be8(id.len()) + id
}

/// The challenge scalar of a proof for an identity.
pub open spec fn pok_challenge(v: PokV, id: Seq<u8>) -> Seq<u8> {
    hash_fr_of(pok_preimage(v.a, v.p, id))
}

/// The response scalar `s = k - e*x` of the scheme, over the big-endian
/// values of the three scalar encodings, reduced mod the group order.
pub open spec fn schnorr_response(e: Seq<u8>, x: Seq<u8>, k: Seq<u8>) -> Seq<u8> {
    be32((crate::group::fr_neg_val((be_nat(e) * be_nat(x)) % fr_order()) + be_nat(k))
        % fr_order())
}

/// The mathematical content of a proof: the canonical encodings of its three
/// components.
#[verifier::ext_equal]
pub ghost struct PokV {
    /// The encoding of `P = g1^x`.
    pub p: Seq<u8>,
    /// The encoding of the commitment `A = g1^k`.
    pub a: Seq<u8>,
    /// The encoding of the response scalar `s`.
    pub s: Seq<u8>,
}

/// Well-formedness of a proof's components.
pub open spec fn pok_ok(v: PokV) -> bool {
    g1_elem_ok(v.p) && g1_elem_ok(v.a) && fr_elem_ok(v.s)
}

/// Whether the verifier accepts a proof for an identity: neither point is
/// the identity, and `g1^s * P^e` re-derives the commitment `A`.
pub open spec fn pok_accepts(v: PokV, id: Seq<u8>) -> bool {
    &&& v.p != g1_ident_bytes()
    &&& v.a != g1_ident_bytes()
    &&& g1_add_of(g1_pow_of(v.p, pok_challenge(v, id)), g1_pow_of(g1_gen_bytes(), v.s))
        == v.a
}

/// The 128-byte wire form of a proof: `enc(P) || enc(A) || enc(s)`.
pub open spec fn pok_serial(v: PokV) -> Seq<u8> {
    v.p + v.a + v.s
}

/// The parse of a proof from the front of a byte string: exactly the
/// well-formed 128-byte prefixes are accepted.
pub open spec fn pok_parse(b: Seq<u8>) -> Result<PokV, SerdesError> {
    if b.len() < 128 {
        Err(SerdesError::TooShort)
    } else if !g1_elem_ok(b.subrange(0, 48)) {
        Err(SerdesError::BadPoint)
    } else if !g1_elem_ok(b.subrange(48, 96)) {
        Err(SerdesError::BadPoint)
    } else if !fr_elem_ok(b.subrange(96, 128)) {
        Err(SerdesError::BadScalar)
    } else {
        Ok(PokV { p: b.subrange(0, 48), a: b.subrange(48, 96), s: b.subrange(96, 128) })
    }
}

/// A Schnorr proof of knowledge of the exponent of `g1x`.
#[derive(Clone, Debug, PartialEq)]
pub struct PoK {
    /// `g1^x`, where knowledge of `x` is being proved.
    pub g1x: G1Elem,
    a: G1Elem,
    s: FrElem,
}

impl View for PoK {
    type V = PokV;

    closed spec fn view(&self) -> PokV {
        PokV { p: self.g1x@, a: self.a@, s: self.s@ }
    }
}

impl PoK {
    /// A well-formed proof: three canonical encodings.
    pub open spec fn inv(&self) -> bool {
        pok_ok(self@)
    }

    /// The point `P = g1^x` whose exponent the proof speaks for.
    pub fn g1x_elem(&self) -> (r: &G1Elem)
        ensures
            r@ == self@.p,
    {
        &self.g1x
    }

    /// Writes the proof in its 128-byte wire form.  Only the compressed form
    /// exists; asking for the uncompressed form is refused.
    pub fn serialize(&self, compressed: bool) -> (r: Result<Vec<u8>, SerdesError>)
        ensures
            match r {
                Ok(out) => compressed && out@ == pok_serial(self@),
                Err(e) => !compressed && e == SerdesError::NotCompressed,
            },
    {
        if !compressed {
            return Err(SerdesError::NotCompressed);
        }
        let mut out: Vec<u8> = Vec::new();
        extend(&mut out, self.g1x.as_bytes());
        extend(&mut out, self.a.as_bytes());
        extend(&mut out, self.s.as_bytes());
        Ok(out)
    }

    /// Reads a proof from `buf` at `start`; on success also returns the
    /// position after it.  Exactly the well-formed 128-byte encodings are
    /// accepted, with every point subgroup-checked, and the error says what
    /// was wrong.
    pub fn deserialize(buf: &Vec<u8>, start: usize, compressed: bool) -> (r: Result<
        (PoK, usize),
        SerdesError,
    >)
        requires
            start <= buf@.len(),
        ensures
            match r {
                Ok((pok, used)) => {
                    &&& compressed
                    &&& pok.inv()
                    &&& pok_parse(buf@.skip(start as int)) == Ok::<PokV, SerdesError>(pok@)
                    &&& used == start + 128
                },
                Err(e) => {
                    if compressed {
                        pok_parse(buf@.skip(start as int)) == Err::<PokV, SerdesError>(e)
                    } else {
                        e == SerdesError::NotCompressed
                    }
                },
            },
    {
        if !compressed {
            return Err(SerdesError::NotCompressed);
        }
        let n = buf.len();
        let ghost tail = buf@.skip(start as int);
        if n - start < 128 {
            return Err(SerdesError::TooShort);
        }
        let pb = crate::encoding::subvec(buf, start, start + 48);
        assert(pb@ =~= tail.subrange(0, 48));
        let p = match G1Elem::from_bytes(pb) {
            Some(p) => p,
            None => {
                return Err(SerdesError::BadPoint);
            },
        };
        let ab = crate::encoding::subvec(buf, start + 48, start + 96);
        assert(ab@ =~= tail.subrange(48, 96));
        let a = match G1Elem::from_bytes(ab) {
            Some(a) => a,
            None => {
                return Err(SerdesError::BadPoint);
            },
        };
        let sb = crate::encoding::subvec(buf, start + 96, start + 128);
        assert(sb@ =~= tail.subrange(96, 128));
        let s = match FrElem::from_bytes(sb) {
            Some(s) => s,
            None => {
                return Err(SerdesError::BadScalar);
            },
        };
        let pok = PoK { g1x: p, a, s };
        Ok((pok, start + 128))
    }
}

/// Round trip: a well-formed proof parses back from its own wire form,
/// whatever follows it in the buffer.
pub proof fn lemma_pok_round_trip(v: PokV, rest: Seq<u8>)
    requires
        pok_ok(v),
    ensures
        pok_parse(pok_serial(v) + rest) == Ok::<PokV, SerdesError>(v),
{
    let b = pok_serial(v) + rest;
    assert(b.subrange(0, 48) =~= v.p);
    assert(b.subrange(48, 96) =~= v.a);
    assert(b.subrange(96, 128) =~= v.s);
    assert(pok_parse(b) == Ok::<PokV, SerdesError>(v));
}

/// A successful parse inverts serialization: the parsed proof re-serializes
/// to exactly the bytes it was read from.  So two buffers that parse to
/// proofs and differ anywhere in their first 128 bytes parse to different
/// proofs.
pub proof fn lemma_pok_parse_inverts(b: Seq<u8>, v: PokV)
    requires
        pok_parse(b) == Ok::<PokV, SerdesError>(v),
    ensures
        pok_ok(v),
        pok_serial(v) == b.subrange(0, 128),
{
    assert(pok_serial(v) =~= b.subrange(0, 128));
}

/// The wire form determines the proof: two well-formed proofs with the same
/// wire form are the same proof.
pub proof fn lemma_pok_serial_injective(v1: PokV, v2: PokV)
    requires
        pok_ok(v1),
        pok_ok(v2),
        pok_serial(v1) == pok_serial(v2),
    ensures
        v1 == v2,
{
    lemma_pok_round_trip(v1, Seq::empty());
    lemma_pok_round_trip(v2, Seq::empty());
}

/// Tamper rejection at the wire level: a buffer of the proof's wire length
/// that differs anywhere from the proof's wire form never parses back to
/// the same proof.  It either fails to parse, or parses to a different one.
pub proof fn lemma_pok_tamper(v: PokV, b: Seq<u8>)
    requires
        pok_ok(v),
        b.len() == 128,
        b != pok_serial(v),
    ensures
        pok_parse(b) != Ok::<PokV, SerdesError>(v),
{
    if pok_parse(b) == Ok::<PokV, SerdesError>(v) {
        lemma_pok_parse_inverts(b, v);
        assert(pok_serial(v).len() == 128);
        assert(b.subrange(0, 128) =~= b);
    }
}

/// Makes a Schnorr proof of knowledge of the scalar `x`, bound to `id`.
/// `P` is exactly `g1^x`; the commitment uses a fresh random scalar, wiped
/// before returning, so of `A` and `s` only the defining relation is stated.
pub fn make_pok(x: &FrElem, id: &Vec<u8>) -> (r: PoK)
    requires
        x.inv(),
    ensures
        r.inv(),
        r@.p == g1_pow_of(g1_gen_bytes(), x@),
        exists|k: Seq<u8>|
            {
                &&& #[trigger] fr_elem_ok(k)
                &&& r@.a == g1_pow_of(g1_gen_bytes(), k)
                &&& r@.s == schnorr_response(pok_challenge(r@, id@), x@, k)
            },
{
    let gen = g1_generator();
    let p = g1_pow(&gen, x);
    let mut k = random_scalar();
    let ghost kk = k@;
    let a = g1_pow(&gen, &k);

    let mut hash_input = domain_sep_vec();
    extend(&mut hash_input, a.as_bytes());
    extend(&mut hash_input, p.as_bytes());
    let len_id = u64_to_be_bytes(id.len() as u64);
    extend(&mut hash_input, &len_id);
    extend(&mut hash_input, id);
    assert(hash_input@ =~= pok_preimage(a@, p@, id@));
    let e = fr_hash_to_field(&hash_input);

    let mut ex = fr_mul(&e, x);
    let mut nex = fr_neg(&ex);
    let s = fr_add(&nex, &k);
    // k and both intermediates carry the secret exponent; wipe them all
    k.wipe();
    ex.wipe();
    nex.wipe();
    let r = PoK { g1x: p, a, s };
    proof {
        assert(fr_elem_ok(kk) && r@.a == g1_pow_of(g1_gen_bytes(), kk)
            && r@.s == schnorr_response(pok_challenge(r@, id@), x@, kk));
    }
    r
}

/// Verifies a Schnorr proof against an identity: recomputes the challenge
/// from the same pre-image as the prover, rejects an identity point, and
/// accepts exactly when `g1^s * P^e` equals `A`.  The subgroup membership of
/// both points is already part of the proof's well-formedness.
pub fn verify_pok(pok: &PoK, id: &Vec<u8>) -> (r: bool)
    requires
        pok.inv(),
    ensures
        r == pok_accepts(pok@, id@),
{
    let ident = g1_identity_bytes();
    if bytes_eq(pok.g1x.as_bytes(), &ident) {
        return false;
    }
    if bytes_eq(pok.a.as_bytes(), &ident) {
        return false;
    }

    let mut hash_input = domain_sep_vec();
    extend(&mut hash_input, pok.a.as_bytes());
    extend(&mut hash_input, pok.g1x.as_bytes());
    let len_id = u64_to_be_bytes(id.len() as u64);
    extend(&mut hash_input, &len_id);
    extend(&mut hash_input, id);
    assert(hash_input@ =~= pok_preimage(pok@.a, pok@.p, id@));
    let e = fr_hash_to_field(&hash_input);

    let pe = g1_pow(&pok.g1x, &e);
    let gen = g1_generator();
    let gs = g1_pow(&gen, &pok.s);
    let b = g1_add(&pe, &gs);
    b.same(&pok.a)
}

} // verus!
