//! Hashing of arbitrary bytes to a non-zero scalar, in the Pointproofs
//! style: the SHA-512 digest of the message, read as a 64-byte big-endian
//! integer, reduced mod the group order (the RFC 8017 OS2IP primitive
//! composed with a modular reduction), with the negligible zero outcome
//! mapped to one.

use vstd::prelude::*;
use crate::encoding::{be32, be_nat, lemma_be_nat_zero};
use crate::group::{
    FrElem, fr_elem_ok, fr_one_bytes_vec, fr_order, fr_order_bytes_vec,
    lemma_fr_one_is_be32_one, lemma_fr_one_value, lemma_fr_order_large,
};
use bigint::U512;
use sha2::{Digest, Sha512};
use std::ops::Rem;

verus! {

/// The SHA-512 digest of a message.
pub uninterp spec fn sha512_of(m: Seq<u8>) -> Seq<u8>;

/// The scalar value that `hash_to_field_pointproofs` returns for a message:
/// the digest read big-endian, reduced mod the group order, zero replaced by
/// one.
pub open spec fn hash_to_field_value(m: Seq<u8>) -> nat {
    let h = be_nat(sha512_of(m)) % fr_order();
    if h == 0 {
        1
    } else {
        h
    }
}

/// Relies on `Sha512` of the sha2 crate: the digest depends on the message
/// alone and has 64 bytes.
#[verifier::external_body]
fn sha512(msg: &Vec<u8>) -> (r: Vec<u8>)
    ensures
        r@ == sha512_of(msg@),
        r@.len() == 64,
{
    let mut h = Sha512::new();
    h.input(&msg[..]);
    h.result().to_vec()
}

/// Relies on `U512` of the bigint crate: `from` reads big-endian bytes,
/// `rem` is the integer remainder, `to_big_endian` writes the value's
/// positional digits on 64 bytes; a remainder below a 32-byte modulus fits
/// in the last 32.
#[verifier::external_body]
fn u512_mod(b: &Vec<u8>, m: &Vec<u8>) -> (r: Vec<u8>)
    requires
        b@.len() == 64,
        m@.len() == 32,
        be_nat(m@) > 0,
    ensures
        r@ == be32(be_nat(b@) % be_nat(m@)),
        be_nat(r@) == be_nat(b@) % be_nat(m@),
{
    let x = U512::from(&b[..]);
    let p = U512::from(&m[..]);
    let t = x.rem(p);
    let mut out = [0u8; 64];
    t.to_big_endian(&mut out);
    out[32..].to_vec()
}

/// Whether every byte of `v` is zero.
fn is_all_zero(v: &Vec<u8>) -> (r: bool)
    ensures
        r == (forall|i: int| 0 <= i < v@.len() ==> v@[i] == 0),
{
    let n = v.len();
    let mut i: usize = 0;
    while i < n
        invariant
            n == v@.len(),
            0 <= i <= n,
            forall|j: int| 0 <= j < i ==> v@[j] == 0,
        decreases n - i,
    {
        if v[i] != 0 {
            return false;
        }
        i += 1;
    }
    true
}

/// The digest of a message reduced into the field: 32 canonical big-endian
/// bytes of `SHA-512(input) mod r`, with zero replaced by one.
pub fn hash_to_field_repr_pointproofs(input: &Vec<u8>) -> (r: Vec<u8>)
    ensures
        r@ == be32(hash_to_field_value(input@)),
        be_nat(r@) == hash_to_field_value(input@),
        fr_elem_ok(r@),
{
    let digest = sha512(input);
    let mut t = os2ip_mod_p(&digest);
    proof {
        lemma_be_nat_zero(t@);
        lemma_fr_order_large();
        lemma_fr_one_value();
        lemma_fr_one_is_be32_one();
    }
    // a zero outcome has negligible probability, but is mapped to one
    if is_all_zero(&t) {
        t = fr_one_bytes_vec();
    }
    t
}

/// The octet-string-to-integer primitive of RFC 8017, composed with a
/// reduction mod the group order: the 64 input bytes read big-endian,
/// reduced, and written on 32 canonical bytes.
pub fn os2ip_mod_p(oct_str: &Vec<u8>) -> (r: Vec<u8>)
    requires
        oct_str@.len() == 64,
    ensures
        r@ == be32(be_nat(oct_str@) % fr_order()),
        be_nat(r@) == be_nat(oct_str@) % fr_order(),
{
    let m = fr_order_bytes_vec();
    proof {
        lemma_fr_order_large();
    }
    u512_mod(oct_str, &m)
}

/// Hashes a message to a non-zero scalar of the field.
pub fn hash_to_field_pointproofs(input: &Vec<u8>) -> (r: FrElem)
    ensures
        r.inv(),
        r@ == be32(hash_to_field_value(input@)),
        be_nat(r@) == hash_to_field_value(input@),
{
    let bytes = hash_to_field_repr_pointproofs(input);
    FrElem::from_canonical(bytes)
}

} // verus!
