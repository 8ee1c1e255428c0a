//! The ceremony operations on a structured reference string: initial
//! generation from a known scalar, multiplicative re-randomization by a
//! participant's secret, the batched probabilistic consistency check, and
//! the pairing link between an old and a new parameter set.

use vstd::prelude::*;
use crate::encoding::{be32, be8, be_nat, bytes_eq, extend, u64_to_be_bytes};
use crate::group::{
    FrElem, G1Elem, G2Elem, fr_elem_ok, fr_hash_to_field, fr_mul, fr_order, g1_add,
    g1_add_of, g1_elem_ok, g1_gen_bytes, g1_generator, g1_ident_bytes, g1_identity_bytes,
    g1_msm, g1_msm_of, g1_pow, g1_pow_of, g2_elem_ok, g2_gen_bytes, g2_generator,
    g2_ident_bytes, g2_identity_bytes, g2_msm, g2_msm_of, g2_pow, g2_pow_of, hash_fr_of,
    lemma_fr_one_value, pairing, pairing_of, random_scalar, wipe_vec,
};
use crate::params::{ParamsV, VeccomParams, views1, views2};
use crate::schnorr::{PoK, make_pok, pok_accepts, pok_challenge, schnorr_response};

verus! {

/// The views of a sequence of scalars.
pub open spec fn viewsf(s: Seq<FrElem>) -> Seq<Seq<u8>> {
    s.map(|i: int, e: FrElem| e@)
}

/// Every entry is a well-formed scalar encoding.
pub open spec fn all_fr_ok(s: Seq<Seq<u8>>) -> bool {
    forall|i: int| 0 <= i < s.len() ==> fr_elem_ok(#[trigger] s[i])
}

/// The canonical encoding of the `k`-th power of a scalar mod the group
/// order, as a running product builds it: the first power is the scalar's
/// own encoding, and each step multiplies the scalar's value in once.
pub open spec fn fr_pow(alpha: Seq<u8>, k: nat) -> Seq<u8>
    decreases k,
{
    if k <= 1 {
        alpha
    } else {
        be32((be_nat(fr_pow(alpha, (k - 1) as nat)) * be_nat(alpha)) % fr_order())
    }
}

/// The domain-separation prefix of the re-randomization hash, the ASCII
/// bytes of "Rerandomize".
pub open spec fn rr_dsep() -> Seq<u8> {
    seq![0x52u8, 0x65, 0x72, 0x61, 0x6e, 0x64, 0x6f, 0x6d, 0x69, 0x7a, 0x65]
}

/// The pre-image that the re-randomization scalar is derived from: the
/// prefix, the 8-byte big-endian length of the identity, and the entropy
/// bytes.
pub open spec fn rerandomize_preimage(id_len: nat, entropy: Seq<u8>) -> Seq<u8> {
    rr_dsep() + be8(id_len) + entropy
}

/// The secret exponent that a re-randomization with this identity and
/// entropy mixes in.
pub open spec fn rr_beta(id: Seq<u8>, entropy: Seq<u8>) -> Seq<u8> {
    hash_fr_of(rerandomize_preimage(id.len(), entropy))
}

/// The prefix as a vector.
fn rr_dsep_vec() -> (r: Vec<u8>)
    ensures
        r@ == rr_dsep(),
{
    let mut out: Vec<u8> = Vec::new();
    out.push(0x52);
    out.push(0x65);
    out.push(0x72);
    out.push(0x61);
    out.push(0x6e);
    out.push(0x64);
    out.push(0x6f);
    out.push(0x6d);
    out.push(0x69);
    out.push(0x7a);
    out.push(0x65);
    assert(out@ =~= rr_dsep());
    out
}

/// No listed element is the identity or the generator of its group.
pub open spec fn elements_nondegenerate(v: ParamsV) -> bool {
    &&& forall|i: int|
        0 <= i < v.a2.len() ==> (#[trigger] v.a2[i]) != g2_ident_bytes() && v.a2[i]
            != g2_gen_bytes()
    &&& forall|i: int|
        0 <= i < v.b2.len() ==> (#[trigger] v.b2[i]) != g2_ident_bytes() && v.b2[i]
            != g2_gen_bytes()
    &&& forall|i: int|
        0 <= i < v.a1.len() ==> (#[trigger] v.a1[i]) != g1_ident_bytes() && v.a1[i]
            != g1_gen_bytes()
    &&& forall|i: int|
        0 <= i < v.b1.len() ==> (#[trigger] v.b1[i]) != g1_ident_bytes() && v.b1[i]
            != g1_gen_bytes()
}

/// The four pairing equations of the batched consistency check, for one
/// draw of scalars `rs` (one per listed power).
pub open spec fn consistency_eqs(v: ParamsV, rs: Seq<Seq<u8>>) -> bool {
    let n = v.n as int;
    let s = g1_msm_of(v.a1.subrange(0, n - 1), rs.subrange(0, n - 1));
    let r1 = g1_add_of(g1_pow_of(v.a1[n - 1], rs[n - 1]), s);
    let r2 = g2_msm_of(v.a2.subrange(0, n), rs.subrange(0, n));
    let t1 = g1_msm_of(v.a1.subrange(1, n), rs.subrange(0, n - 1));
    let u1 = g1_msm_of(v.b1.subrange(0, n - 1), rs.subrange(0, n - 1));
    let u2 = g2_msm_of(v.b2.subrange(0, n - 1), rs.subrange(0, n - 1));
    &&& pairing_of(r1, g2_gen_bytes()) == pairing_of(g1_gen_bytes(), r2)
    &&& pairing_of(s, v.a2[0]) == pairing_of(t1, g2_gen_bytes())
    &&& pairing_of(v.a1[n - 1], v.a2[0]) == v.t
    &&& pairing_of(t1, v.a2[n - 1]) == pairing_of(u1, g2_gen_bytes())
    &&& pairing_of(t1, v.a2[n - 1]) == pairing_of(g1_gen_bytes(), u2)
}

/// Element-wise well-formedness carries from the mapped views back to the
/// elements.
proof fn lemma_views1_ok(s: Seq<G1Elem>)
    requires
        crate::params::all_g1_ok(views1(s)),
    ensures
        forall|i: int| 0 <= i < s.len() ==> g1_elem_ok((#[trigger] s[i])@),
{
    assert forall|i: int| 0 <= i < s.len() implies g1_elem_ok((#[trigger] s[i])@) by {
        assert(views1(s)[i] == s[i]@);
    }
}

/// Element-wise well-formedness carries from the mapped views back to the
/// elements.
proof fn lemma_views2_ok(s: Seq<G2Elem>)
    requires
        crate::params::all_g2_ok(views2(s)),
    ensures
        forall|i: int| 0 <= i < s.len() ==> g2_elem_ok((#[trigger] s[i])@),
{
    assert forall|i: int| 0 <= i < s.len() implies g2_elem_ok((#[trigger] s[i])@) by {
        assert(views2(s)[i] == s[i]@);
    }
}

/// The degeneracy screen over the mapped views says the same as the screen
/// over the elements.
proof fn lemma_g1_window_views(s: Seq<G1Elem>)
    ensures
        (forall|i: int|
            0 <= i < views1(s).len() ==> (#[trigger] views1(s)[i]) != g1_ident_bytes()
                && views1(s)[i] != g1_gen_bytes()) <==> (forall|i: int|
            0 <= i < s.len() ==> ((#[trigger] s[i])@) != g1_ident_bytes() && s[i]@
                != g1_gen_bytes()),
{
    if forall|i: int|
        0 <= i < views1(s).len() ==> (#[trigger] views1(s)[i]) != g1_ident_bytes()
            && views1(s)[i] != g1_gen_bytes() {
        assert forall|i: int|
            0 <= i < s.len() implies ((#[trigger] s[i])@) != g1_ident_bytes() && s[i]@
            != g1_gen_bytes() by {
            assert(views1(s)[i] == s[i]@);
        }
    }
    if forall|i: int|
        0 <= i < s.len() ==> ((#[trigger] s[i])@) != g1_ident_bytes() && s[i]@
            != g1_gen_bytes() {
        assert forall|i: int|
            0 <= i < views1(s).len() implies (#[trigger] views1(s)[i]) != g1_ident_bytes()
            && views1(s)[i] != g1_gen_bytes() by {
            assert(views1(s)[i] == s[i]@);
        }
    }
}

/// The degeneracy screen over the mapped views says the same as the screen
/// over the elements.
proof fn lemma_g2_window_views(s: Seq<G2Elem>)
    ensures
        (forall|i: int|
            0 <= i < views2(s).len() ==> (#[trigger] views2(s)[i]) != g2_ident_bytes()
                && views2(s)[i] != g2_gen_bytes()) <==> (forall|i: int|
            0 <= i < s.len() ==> ((#[trigger] s[i])@) != g2_ident_bytes() && s[i]@
                != g2_gen_bytes()),
{
    if forall|i: int|
        0 <= i < views2(s).len() ==> (#[trigger] views2(s)[i]) != g2_ident_bytes()
            && views2(s)[i] != g2_gen_bytes() {
        assert forall|i: int|
            0 <= i < s.len() implies ((#[trigger] s[i])@) != g2_ident_bytes() && s[i]@
            != g2_gen_bytes() by {
            assert(views2(s)[i] == s[i]@);
        }
    }
    if forall|i: int|
        0 <= i < s.len() ==> ((#[trigger] s[i])@) != g2_ident_bytes() && s[i]@
            != g2_gen_bytes() {
        assert forall|i: int|
            0 <= i < views2(s).len() implies (#[trigger] views2(s)[i]) != g2_ident_bytes()
            && views2(s)[i] != g2_gen_bytes() by {
            assert(views2(s)[i] == s[i]@);
        }
    }
}

/// Checks that no element of a `G1` window is the identity or the
/// generator.
fn check_g1_window(v: &Vec<G1Elem>) -> (r: bool)
    ensures
        r == (forall|i: int|
            0 <= i < v@.len() ==> (#[trigger] v@[i]@) != g1_ident_bytes() && v@[i]@
                != g1_gen_bytes()),
{
    let ident = g1_identity_bytes();
    let gen = g1_generator();
    let n = v.len();
    let mut i: usize = 0;
    while i < n
        invariant
            n == v@.len(),
            0 <= i <= n,
            gen@ == g1_gen_bytes(),
            ident@ == g1_ident_bytes(),
            forall|j: int|
                0 <= j < i ==> (#[trigger] v@[j]@) != g1_ident_bytes() && v@[j]@
                    != g1_gen_bytes(),
        decreases n - i,
    {
        if bytes_eq((&v[i]).as_bytes(), &ident) {
            return false;
        }
        if (&v[i]).same(&gen) {
            return false;
        }
        i += 1;
    }
    true
}

/// Checks that no element of a `G2` window is the identity or the
/// generator.
fn check_g2_window(v: &Vec<G2Elem>) -> (r: bool)
    ensures
        r == (forall|i: int|
            0 <= i < v@.len() ==> (#[trigger] v@[i]@) != g2_ident_bytes() && v@[i]@
                != g2_gen_bytes()),
{
    let ident = g2_identity_bytes();
    let gen = g2_generator();
    let n = v.len();
    let mut i: usize = 0;
    while i < n
        invariant
            n == v@.len(),
            0 <= i <= n,
            gen@ == g2_gen_bytes(),
            ident@ == g2_ident_bytes(),
            forall|j: int|
                0 <= j < i ==> (#[trigger] v@[j]@) != g2_ident_bytes() && v@[j]@
                    != g2_gen_bytes(),
        decreases n - i,
    {
        if bytes_eq((&v[i]).as_bytes(), &ident) {
            return false;
        }
        if (&v[i]).same(&gen) {
            return false;
        }
        i += 1;
    }
    true
}

/// The deterministic part of the consistency check, on given scalars: the
/// element screen and the four pairing equations, decided exactly.
pub fn consistent_with(params: &VeccomParams, rs: &Vec<FrElem>) -> (r: bool)
    requires
        params.inv(),
        rs@.len() == params@.n,
        forall|i: int| 0 <= i < rs@.len() ==> (#[trigger] rs@[i]).inv(),
    ensures
        r == (elements_nondegenerate(params@) && consistency_eqs(params@, viewsf(rs@))),
{
    proof {
        lemma_g2_window_views(params.g2_alpha_1_to_n@);
        lemma_g2_window_views(params.g2_alpha_nplus2_to_2n@);
        lemma_g1_window_views(params.g1_alpha_1_to_n@);
        lemma_g1_window_views(params.g1_alpha_nplus2_to_2n@);
    }
    let nondeg = check_g2_window(&params.g2_alpha_1_to_n)
        && check_g2_window(&params.g2_alpha_nplus2_to_2n)
        && check_g1_window(&params.g1_alpha_1_to_n)
        && check_g1_window(&params.g1_alpha_nplus2_to_2n);
    proof {
        assert(nondeg == elements_nondegenerate(params@));
    }
    if !nondeg {
        return false;
    }
    let n = params.n;
    let ghost rv = viewsf(rs@);
    proof {
        lemma_views1_ok(params.g1_alpha_1_to_n@);
        lemma_views1_ok(params.g1_alpha_nplus2_to_2n@);
        lemma_views2_ok(params.g2_alpha_1_to_n@);
        lemma_views2_ok(params.g2_alpha_nplus2_to_2n@);
        assert(forall|i: int| 0 <= i < rs@.len() ==> fr_elem_ok(#[trigger] rs@[i]@));
    }

    let s = g1_msm(&params.g1_alpha_1_to_n, 0, n - 1, rs);
    let r1 = {
        let last_pow = g1_pow(&params.g1_alpha_1_to_n[n - 1], &rs[n - 1]);
        g1_add(&last_pow, &s)
    };
    let r2 = g2_msm(&params.g2_alpha_1_to_n, 0, n, rs);
    let t1 = g1_msm(&params.g1_alpha_1_to_n, 1, n, rs);
    let u1 = g1_msm(&params.g1_alpha_nplus2_to_2n, 0, n - 1, rs);
    let u2 = g2_msm(&params.g2_alpha_nplus2_to_2n, 0, n - 1, rs);
    proof {
        let v = params@;
        let ni = n as int;
        assert(params.g1_alpha_1_to_n@.subrange(0, ni - 1).map(|i: int, e: G1Elem| e@)
            =~= v.a1.subrange(0, ni - 1));
        assert(rs@.subrange(0, ni - 1).map(|i: int, e: FrElem| e@)
            =~= rv.subrange(0, ni - 1));
        assert(params.g2_alpha_1_to_n@.subrange(0, ni).map(|i: int, e: G2Elem| e@)
            =~= v.a2.subrange(0, ni));
        assert(rs@.subrange(0, ni).map(|i: int, e: FrElem| e@) =~= rv.subrange(0, ni));
        assert(params.g1_alpha_1_to_n@.subrange(1, ni).map(|i: int, e: G1Elem| e@)
            =~= v.a1.subrange(1, ni));
        assert(params.g1_alpha_nplus2_to_2n@.subrange(0, ni - 1).map(|i: int, e: G1Elem| e@)
            =~= v.b1.subrange(0, ni - 1));
        assert(params.g2_alpha_nplus2_to_2n@.subrange(0, ni - 1).map(|i: int, e: G2Elem| e@)
            =~= v.b2.subrange(0, ni - 1));
    }

    let gen1 = g1_generator();
    let gen2 = g2_generator();

    // (a) e(R1, g2) = e(g1, R2): one alpha runs through both windows
    let lhs1 = pairing(&r1, &gen2);
    let rhs1 = pairing(&gen1, &r2);
    if !lhs1.same(&rhs1) {
        return false;
    }

    // (b) e(S, g2^alpha) = e(T1, g2): the shift-by-one relation
    let lhs2 = pairing(&s, &params.g2_alpha_1_to_n[0]);
    let rhs2 = pairing(&t1, &gen2);
    if !lhs2.same(&rhs2) {
        return false;
    }

    // (c) e(g1^{alpha^n}, g2^alpha) equals the published T
    let lhs3 = pairing(&params.g1_alpha_1_to_n[n - 1], &params.g2_alpha_1_to_n[0]);
    if !lhs3.same(&params.gt_alpha_nplus1) {
        return false;
    }

    // (d) e(T1, g2^{alpha^n}) = e(U1, g2) = e(g1, U2): the second windows
    let lhs4 = pairing(&t1, &params.g2_alpha_1_to_n[n - 1]);
    let rhs4a = pairing(&u1, &gen2);
    if !lhs4.same(&rhs4a) {
        return false;
    }
    let rhs4b = pairing(&gen1, &u2);
    if !lhs4.same(&rhs4b) {
        return false;
    }

    true
}

/// Checks that a parameter set is in the correct form, `g^alpha, g^alpha^2`
/// and so on for one scalar `alpha`, with overwhelming probability: draws
/// one fresh scalar per power and decides the batched pairing equations on
/// them.  A `true` answer always certifies that no element is the identity
/// or the generator; the equations are decided on the scalars drawn inside,
/// so the rest is stated for that draw.
pub fn consistent(params: &VeccomParams) -> (r: bool)
    requires
        params.inv(),
    ensures
        r ==> elements_nondegenerate(params@),
        exists|rs: Seq<Seq<u8>>|
            {
                &&& #[trigger] all_fr_ok(rs)
                &&& rs.len() == params@.n
                &&& r == (elements_nondegenerate(params@) && consistency_eqs(params@, rs))
            },
{
    proof {
        lemma_g2_window_views(params.g2_alpha_1_to_n@);
        lemma_g2_window_views(params.g2_alpha_nplus2_to_2n@);
        lemma_g1_window_views(params.g1_alpha_1_to_n@);
        lemma_g1_window_views(params.g1_alpha_nplus2_to_2n@);
    }
    let nondeg = check_g2_window(&params.g2_alpha_1_to_n)
        && check_g2_window(&params.g2_alpha_nplus2_to_2n)
        && check_g1_window(&params.g1_alpha_1_to_n)
        && check_g1_window(&params.g1_alpha_nplus2_to_2n);
    if !nondeg {
        proof {
            assert(!elements_nondegenerate(params@));
            let ones = Seq::new(params@.n, |i: int| crate::group::fr_one_bytes());
            lemma_fr_one_value();
            assert(all_fr_ok(ones));
        }
        return false;
    }
    let n = params.n;
    let mut rs: Vec<FrElem> = Vec::new();
    let mut i: usize = 0;
    while i < n
        invariant
            0 <= i <= n,
            rs@.len() == i,
            forall|j: int| 0 <= j < i ==> (#[trigger] rs@[j]).inv(),
        decreases n - i,
    {
        rs.push(random_scalar());
        i += 1;
    }
    let r = consistent_with(params, &rs);
    proof {
        let rv = viewsf(rs@);
        assert(all_fr_ok(rv));
        assert(rv.len() == params@.n);
    }
    r
}

/// Builds the initial parameter set for a known scalar `alpha`: every
/// listed element is the stated power of its group's generator, built by a
/// running scalar, and the target element pairs the never-published power
/// `n+1` with the `G2` generator.
pub fn generate(alpha: &FrElem, ciphersuite: u8, n: usize) -> (r: VeccomParams)
    requires
        alpha.inv(),
        1 <= n <= 65535,
    ensures
        r.inv(),
        r@.ciphersuite == ciphersuite,
        r@.n == n,
        forall|i: int|
            0 <= i < n ==> (#[trigger] r@.a1[i]) == g1_pow_of(
                g1_gen_bytes(),
                fr_pow(alpha@, (i + 1) as nat),
            ),
        forall|i: int|
            0 <= i < n ==> (#[trigger] r@.a2[i]) == g2_pow_of(
                g2_gen_bytes(),
                fr_pow(alpha@, (i + 1) as nat),
            ),
        forall|i: int|
            0 <= i < n - 1 ==> (#[trigger] r@.b1[i]) == g1_pow_of(
                g1_gen_bytes(),
                fr_pow(alpha@, (i + n + 2) as nat),
            ),
        forall|i: int|
            0 <= i < n - 1 ==> (#[trigger] r@.b2[i]) == g2_pow_of(
                g2_gen_bytes(),
                fr_pow(alpha@, (i + n + 2) as nat),
            ),
        r@.t == pairing_of(
            g1_pow_of(g1_gen_bytes(), fr_pow(alpha@, (n + 1) as nat)),
            g2_gen_bytes(),
        ),
{
    let gen1 = g1_generator();
    let gen2 = g2_generator();
    let mut g1_alpha_1_to_n: Vec<G1Elem> = Vec::new();
    let mut g1_alpha_nplus2_to_2n: Vec<G1Elem> = Vec::new();
    let mut g2_alpha_1_to_n: Vec<G2Elem> = Vec::new();
    let mut g2_alpha_nplus2_to_2n: Vec<G2Elem> = Vec::new();

    let mut scalar = alpha.dup();
    let mut i: usize = 0;
    while i < n
        invariant
            0 <= i <= n,
            alpha.inv(),
            scalar.inv(),
            gen1@ == g1_gen_bytes(),
            gen2@ == g2_gen_bytes(),
            g1_elem_ok(gen1@),
            g2_elem_ok(gen2@),
            scalar@ == fr_pow(alpha@, (i + 1) as nat),
            g1_alpha_1_to_n@.len() == i,
            g2_alpha_1_to_n@.len() == i,
            forall|j: int|
                0 <= j < i ==> (#[trigger] g1_alpha_1_to_n@[j])@ == g1_pow_of(
                    g1_gen_bytes(),
                    fr_pow(alpha@, (j + 1) as nat),
                ) && g1_elem_ok(g1_alpha_1_to_n@[j]@),
            forall|j: int|
                0 <= j < i ==> (#[trigger] g2_alpha_1_to_n@[j])@ == g2_pow_of(
                    g2_gen_bytes(),
                    fr_pow(alpha@, (j + 1) as nat),
                ) && g2_elem_ok(g2_alpha_1_to_n@[j]@),
        decreases n - i,
    {
        g2_alpha_1_to_n.push(g2_pow(&gen2, &scalar));
        g1_alpha_1_to_n.push(g1_pow(&gen1, &scalar));
        scalar = fr_mul(&scalar, alpha);
        proof {
            assert(fr_pow(alpha@, (i + 2) as nat)
                == be32((be_nat(fr_pow(alpha@, (i + 1) as nat)) * be_nat(alpha@)) % fr_order()));
        }
        i += 1;
    }
    // scalar = alpha^{n+1}: pair the hole with the generator, never list it
    let tg1 = g1_pow(&gen1, &scalar);
    let gt_alpha_nplus1 = pairing(&tg1, &gen2);
    scalar = fr_mul(&scalar, alpha);
    proof {
        assert(fr_pow(alpha@, (n + 2) as nat)
            == be32((be_nat(fr_pow(alpha@, (n + 1) as nat)) * be_nat(alpha@)) % fr_order()));
    }

    let mut i: usize = 0;
    while i < n - 1
        invariant
            0 <= i <= n - 1,
            n >= 1,
            alpha.inv(),
            scalar.inv(),
            gen1@ == g1_gen_bytes(),
            gen2@ == g2_gen_bytes(),
            g1_elem_ok(gen1@),
            g2_elem_ok(gen2@),
            scalar@ == fr_pow(alpha@, (i + n + 2) as nat),
            g1_alpha_nplus2_to_2n@.len() == i,
            g2_alpha_nplus2_to_2n@.len() == i,
            forall|j: int|
                0 <= j < i ==> (#[trigger] g1_alpha_nplus2_to_2n@[j])@ == g1_pow_of(
                    g1_gen_bytes(),
                    fr_pow(alpha@, (j + n + 2) as nat),
                ) && g1_elem_ok(g1_alpha_nplus2_to_2n@[j]@),
            forall|j: int|
                0 <= j < i ==> (#[trigger] g2_alpha_nplus2_to_2n@[j])@ == g2_pow_of(
                    g2_gen_bytes(),
                    fr_pow(alpha@, (j + n + 2) as nat),
                ) && g2_elem_ok(g2_alpha_nplus2_to_2n@[j]@),
        decreases n - 1 - i,
    {
        g2_alpha_nplus2_to_2n.push(g2_pow(&gen2, &scalar));
        g1_alpha_nplus2_to_2n.push(g1_pow(&gen1, &scalar));
        scalar = fr_mul(&scalar, alpha);
        proof {
            assert(fr_pow(alpha@, (i + n + 3) as nat)
                == be32((be_nat(fr_pow(alpha@, (i + n + 2) as nat)) * be_nat(alpha@)) % fr_order()));
        }
        i += 1;
    }

    VeccomParams {
        ciphersuite,
        n,
        g1_alpha_1_to_n,
        g1_alpha_nplus2_to_2n,
        g2_alpha_1_to_n,
        g2_alpha_nplus2_to_2n,
        gt_alpha_nplus1,
    }
}

/// Re-randomizes a parameter set: derives the secret exponent `beta` from
/// the entropy, raises every listed element to the matching power of
/// `beta`, recomputes the target element by pairing the new first `G1`
/// power with the new last `G2` power, and emits a proof of knowledge of
/// `beta` bound to the identity.  The hash pre-image and the derived
/// scalars are wiped before returning; the old set is unchanged.
pub fn rerandomize(params: &VeccomParams, entropy: &Vec<u8>, id: &Vec<u8>) -> (r: (
    VeccomParams,
    PoK,
))
    requires
        params.inv(),
    ensures
        ({
            let beta = rr_beta(id@, entropy@);
            let n = params@.n as int;
            &&& r.0.inv()
            &&& r.0@.ciphersuite == params@.ciphersuite
            &&& r.0@.n == params@.n
            &&& forall|i: int|
                0 <= i < n ==> (#[trigger] r.0@.a1[i]) == g1_pow_of(
                    params@.a1[i],
                    fr_pow(beta, (i + 1) as nat),
                )
            &&& forall|i: int|
                0 <= i < n ==> (#[trigger] r.0@.a2[i]) == g2_pow_of(
                    params@.a2[i],
                    fr_pow(beta, (i + 1) as nat),
                )
            &&& forall|i: int|
                0 <= i < n - 1 ==> (#[trigger] r.0@.b1[i]) == g1_pow_of(
                    params@.b1[i],
                    fr_pow(beta, (i + n + 2) as nat),
                )
            &&& forall|i: int|
                0 <= i < n - 1 ==> (#[trigger] r.0@.b2[i]) == g2_pow_of(
                    params@.b2[i],
                    fr_pow(beta, (i + n + 2) as nat),
                )
            &&& r.0@.t == pairing_of(r.0@.a1[0], r.0@.a2[n - 1])
            &&& r.1.inv()
            &&& r.1@.p == g1_pow_of(g1_gen_bytes(), beta)
            &&& exists|k: Seq<u8>|
                {
                    &&& #[trigger] fr_elem_ok(k)
                    &&& r.1@.a == g1_pow_of(g1_gen_bytes(), k)
                    &&& r.1@.s == schnorr_response(pok_challenge(r.1@, id@), beta, k)
                }
        }),
{
    // beta = HashToScalar("Rerandomize" || len(id) as 8-byte big-endian || entropy);
    // the length prefix counts the identity, as the ceremony has always
    // hashed it, while the bytes that follow are the entropy
    let mut hash_input = rr_dsep_vec();
    let len_id = u64_to_be_bytes(id.len() as u64);
    extend(&mut hash_input, &len_id);
    extend(&mut hash_input, entropy);
    assert(hash_input@ =~= rerandomize_preimage(id@.len(), entropy@));
    let mut beta = fr_hash_to_field(&hash_input);
    wipe_vec(&mut hash_input);

    let n = params.n;
    let mut g1_alpha_1_to_n: Vec<G1Elem> = Vec::new();
    let mut g1_alpha_nplus2_to_2n: Vec<G1Elem> = Vec::new();
    let mut g2_alpha_1_to_n: Vec<G2Elem> = Vec::new();
    let mut g2_alpha_nplus2_to_2n: Vec<G2Elem> = Vec::new();

    let mut scalar = beta.dup();
    let mut i: usize = 0;
    while i < n
        invariant
            0 <= i <= n,
            n == params@.n,
            params.inv(),
            beta.inv(),
            scalar.inv(),
            beta@ == rr_beta(id@, entropy@),
            scalar@ == fr_pow(beta@, (i + 1) as nat),
            g1_alpha_1_to_n@.len() == i,
            g2_alpha_1_to_n@.len() == i,
            forall|j: int|
                0 <= j < i ==> (#[trigger] g1_alpha_1_to_n@[j])@ == g1_pow_of(
                    params@.a1[j],
                    fr_pow(beta@, (j + 1) as nat),
                ) && g1_elem_ok(g1_alpha_1_to_n@[j]@),
            forall|j: int|
                0 <= j < i ==> (#[trigger] g2_alpha_1_to_n@[j])@ == g2_pow_of(
                    params@.a2[j],
                    fr_pow(beta@, (j + 1) as nat),
                ) && g2_elem_ok(g2_alpha_1_to_n@[j]@),
        decreases n - i,
    {
        proof {
            lemma_views1_ok(params.g1_alpha_1_to_n@);
            lemma_views2_ok(params.g2_alpha_1_to_n@);
            assert(params@.a1[i as int] == params.g1_alpha_1_to_n@[i as int]@);
            assert(params@.a2[i as int] == params.g2_alpha_1_to_n@[i as int]@);
        }
        g2_alpha_1_to_n.push(g2_pow(&params.g2_alpha_1_to_n[i], &scalar));
        g1_alpha_1_to_n.push(g1_pow(&params.g1_alpha_1_to_n[i], &scalar));
        let next = fr_mul(&scalar, &beta);
        scalar.wipe();
        scalar = next;
        proof {
            assert(fr_pow(beta@, (i + 2) as nat)
                == be32((be_nat(fr_pow(beta@, (i + 1) as nat)) * be_nat(beta@)) % fr_order()));
        }
        i += 1;
    }
    // the new hole value: e(g1,g2)^{(alpha*beta)^{n+1}}, recomputed from the
    // published endpoints
    let gt_alpha_nplus1 = pairing(&g1_alpha_1_to_n[0], &g2_alpha_1_to_n[n - 1]);
    let next = fr_mul(&scalar, &beta);
    scalar.wipe();
    scalar = next;
    proof {
        assert(fr_pow(beta@, (n + 2) as nat)
            == be32((be_nat(fr_pow(beta@, (n + 1) as nat)) * be_nat(beta@)) % fr_order()));
    }

    let mut i: usize = 0;
    while i < n - 1
        invariant
            0 <= i <= n - 1,
            n >= 1,
            n == params@.n,
            params.inv(),
            beta.inv(),
            scalar.inv(),
            beta@ == rr_beta(id@, entropy@),
            scalar@ == fr_pow(beta@, (i + n + 2) as nat),
            g1_alpha_nplus2_to_2n@.len() == i,
            g2_alpha_nplus2_to_2n@.len() == i,
            forall|j: int|
                0 <= j < i ==> (#[trigger] g1_alpha_nplus2_to_2n@[j])@ == g1_pow_of(
                    params@.b1[j],
                    fr_pow(beta@, (j + n + 2) as nat),
                ) && g1_elem_ok(g1_alpha_nplus2_to_2n@[j]@),
            forall|j: int|
                0 <= j < i ==> (#[trigger] g2_alpha_nplus2_to_2n@[j])@ == g2_pow_of(
                    params@.b2[j],
                    fr_pow(beta@, (j + n + 2) as nat),
                ) && g2_elem_ok(g2_alpha_nplus2_to_2n@[j]@),
        decreases n - 1 - i,
    {
        proof {
            lemma_views1_ok(params.g1_alpha_nplus2_to_2n@);
            lemma_views2_ok(params.g2_alpha_nplus2_to_2n@);
            assert(params@.b1[i as int] == params.g1_alpha_nplus2_to_2n@[i as int]@);
            assert(params@.b2[i as int] == params.g2_alpha_nplus2_to_2n@[i as int]@);
        }
        g2_alpha_nplus2_to_2n.push(g2_pow(&params.g2_alpha_nplus2_to_2n[i], &scalar));
        g1_alpha_nplus2_to_2n.push(g1_pow(&params.g1_alpha_nplus2_to_2n[i], &scalar));
        let next = fr_mul(&scalar, &beta);
        scalar.wipe();
        scalar = next;
        proof {
            assert(fr_pow(beta@, (i + n + 3) as nat)
                == be32((be_nat(fr_pow(beta@, (i + n + 2) as nat)) * be_nat(beta@)) % fr_order()));
        }
        i += 1;
    }

    let out = VeccomParams {
        ciphersuite: params.ciphersuite,
        n,
        g1_alpha_1_to_n,
        g1_alpha_nplus2_to_2n,
        g2_alpha_1_to_n,
        g2_alpha_nplus2_to_2n,
        gt_alpha_nplus1,
    };
    let pok = make_pok(&beta, id);
    scalar.wipe();
    beta.wipe();
    (out, pok)
}

/// Verifies that `params` is a re-randomization of a prior parameter set
/// whose first `G2` power was `g2alpha_old`, by a participant with this
/// identity: the proof of knowledge must verify, the pairing
/// `e(P, old_first)` must equal `e(g1, new_first)` (which says the new
/// exponent is the old one times the proved `beta`), and the new set must
/// be consistent.  The consistency part draws its scalars inside, so it is
/// stated for that draw.
pub fn check_rerandomization(
    params: &VeccomParams,
    g2alpha_old: &G2Elem,
    pok: &PoK,
    id: &Vec<u8>,
) -> (r: bool)
    requires
        params.inv(),
        g2alpha_old.inv(),
        pok.inv(),
    ensures
        r ==> pok_accepts(pok@, id@) && elements_nondegenerate(params@),
        exists|rs: Seq<Seq<u8>>|
            {
                &&& #[trigger] all_fr_ok(rs)
                &&& rs.len() == params@.n
                &&& r == (pok_accepts(pok@, id@) && pairing_of(pok@.p, g2alpha_old@)
                    == pairing_of(g1_gen_bytes(), params@.a2[0]) && elements_nondegenerate(
                    params@,
                ) && consistency_eqs(params@, rs))
            },
{
    if !crate::schnorr::verify_pok(pok, id) {
        proof {
            let ones = Seq::new(params@.n, |i: int| crate::group::fr_one_bytes());
            lemma_fr_one_value();
            assert(all_fr_ok(ones));
        }
        return false;
    }
    let lhs = pairing(pok.g1x_elem(), g2alpha_old);
    let gen1 = g1_generator();
    proof {
        lemma_views2_ok(params.g2_alpha_1_to_n@);
        assert(params@.a2[0] == params.g2_alpha_1_to_n@[0]@);
    }
    let rhs = pairing(&gen1, &params.g2_alpha_1_to_n[0]);
    if !lhs.same(&rhs) {
        proof {
            let ones = Seq::new(params@.n, |i: int| crate::group::fr_one_bytes());
            lemma_fr_one_value();
            assert(all_fr_ok(ones));
        }
        return false;
    }
    let c = consistent(params);
    proof {
        let rs = choose|rs: Seq<Seq<u8>>|
            {
                &&& #[trigger] all_fr_ok(rs)
                &&& rs.len() == params@.n
                &&& c == (elements_nondegenerate(params@) && consistency_eqs(params@, rs))
            };
        assert(all_fr_ok(rs) && rs.len() == params@.n);
    }
    c
}

} // verus!
