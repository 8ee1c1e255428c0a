//! The structured reference string and its wire format.
//!
//! A parameter set holds, for a secret scalar `alpha`, the powers
//! `g1^{alpha^1..alpha^n}` and `g2^{alpha^1..alpha^n}`, the second windows
//! `g1^{alpha^{n+2}..alpha^{2n}}` and `g2^{alpha^{n+2}..alpha^{2n}}`, and the
//! pairing value `e(g1,g2)^{alpha^{n+1}}` that stands in for the deliberately
//! absent power `n+1`.  The wire form is the byte-exact concatenation that
//! the Fiat-Shamir hashing and the files of a ceremony use.

use vstd::prelude::*;
use crate::encoding::{
    extend, flat, le8, le_nat, lemma_flat_index, lemma_flat_len, lemma_flat_push,
    lemma_le8_to_nat, lemma_le_nat_to_le8, lemma_pow256_8, subvec, u64_from_le_bytes,
    u64_to_le_bytes, uniform,
};
use crate::errors::SerdesError;
use crate::group::{G1Elem, G2Elem, GtElem, g1_elem_ok, g2_elem_ok, gt_elem_ok};

verus! {

/// The views of a sequence of `G1` elements.
pub open spec fn views1(s: Seq<G1Elem>) -> Seq<Seq<u8>> {
    s.map(|i: int, e: G1Elem| e@)
}

/// The views of a sequence of `G2` elements.
pub open spec fn views2(s: Seq<G2Elem>) -> Seq<Seq<u8>> {
    s.map(|i: int, e: G2Elem| e@)
}

/// Every entry is a well-formed `G1` encoding.
pub open spec fn all_g1_ok(s: Seq<Seq<u8>>) -> bool {
    forall|i: int| 0 <= i < s.len() ==> g1_elem_ok(#[trigger] s[i])
}

/// Every entry is a well-formed `G2` encoding.
pub open spec fn all_g2_ok(s: Seq<Seq<u8>>) -> bool {
    forall|i: int| 0 <= i < s.len() ==> g2_elem_ok(#[trigger] s[i])
}

/// The mathematical content of a parameter set: the canonical encodings of
/// its elements.
#[verifier::ext_equal]
pub ghost struct ParamsV {
    /// The ciphersuite byte.
    pub ciphersuite: u8,
    /// The vector length `n`.
    pub n: nat,
    /// `g1^{alpha^1}, ..., g1^{alpha^n}`.
    pub a1: Seq<Seq<u8>>,
    /// `g1^{alpha^{n+2}}, ..., g1^{alpha^{2n}}`.
    pub b1: Seq<Seq<u8>>,
    /// `g2^{alpha^1}, ..., g2^{alpha^n}`.
    pub a2: Seq<Seq<u8>>,
    /// `g2^{alpha^{n+2}}, ..., g2^{alpha^{2n}}`.
    pub b2: Seq<Seq<u8>>,
    /// `e(g1,g2)^{alpha^{n+1}}`.
    pub t: Seq<u8>,
}

/// Well-formedness of a parameter set: the documented bounds on `n`, the
/// lengths of the four windows, and canonical encodings throughout.
pub open spec fn params_ok(v: ParamsV) -> bool {
    &&& 1 <= v.n <= 65535
    &&& v.a1.len() == v.n
    &&& v.b1.len() == v.n - 1
    &&& v.a2.len() == v.n
    &&& v.b2.len() == v.n - 1
    &&& all_g1_ok(v.a1)
    &&& all_g1_ok(v.b1)
    &&& all_g2_ok(v.a2)
    &&& all_g2_ok(v.b2)
    &&& gt_elem_ok(v.t)
}

/// Offset of the second `G1` window in the wire form.
pub open spec fn off_b1(n: int) -> int {
    9 + 48 * n
}

/// Offset of the first `G2` window.
pub open spec fn off_a2(n: int) -> int {
    off_b1(n) + 48 * (n - 1)
}

/// Offset of the second `G2` window.
pub open spec fn off_b2(n: int) -> int {
    off_a2(n) + 96 * n
}

/// Offset of the target-group element.
pub open spec fn off_t(n: int) -> int {
    off_b2(n) + 96 * (n - 1)
}

/// The byte length of the wire form of a parameter set with length `n`.
pub open spec fn params_serial_len(n: int) -> int {
    off_t(n) + 576
}

/// The wire form: ciphersuite byte, `n` as 8 little-endian bytes, the four
/// element windows, and the target-group element.
pub open spec fn params_serial(v: ParamsV) -> Seq<u8> {
    seq![v.ciphersuite] + le8(v.n) + flat(v.a1) + flat(v.b1) + flat(v.a2) + flat(v.b2) + v.t
}

/// The `cnt` blocks of width `w` that start at `off` in `b`.
pub open spec fn chunks(b: Seq<u8>, off: int, cnt: nat, w: nat) -> Seq<Seq<u8>> {
    Seq::new(cnt, |i: int| b.subrange(off + i * (w as int), off + i * (w as int) + (w as int)))
}

/// The parse of a parameter set from the front of a byte string: exactly
/// the well-formed encodings are accepted, and the error says what was
/// wrong.  `n` must lie in `1..=65535` and every element must be canonical.
pub open spec fn params_parse(b: Seq<u8>) -> Result<ParamsV, SerdesError> {
    if b.len() < 9 {
        Err(SerdesError::TooShort)
    } else {
        let n = le_nat(b.subrange(1, 9)) as int;
        if n > 65535 {
            Err(SerdesError::NTooLarge)
        } else if n == 0 {
            Err(SerdesError::NZero)
        } else if b.len() < params_serial_len(n) {
            Err(SerdesError::TooShort)
        } else {
            let a1 = chunks(b, 9, n as nat, 48);
            let b1 = chunks(b, off_b1(n), (n - 1) as nat, 48);
            let a2 = chunks(b, off_a2(n), n as nat, 96);
            let b2 = chunks(b, off_b2(n), (n - 1) as nat, 96);
            let t = b.subrange(off_t(n), off_t(n) + 576);
            if !(all_g1_ok(a1) && all_g1_ok(b1) && all_g2_ok(a2) && all_g2_ok(b2)) {
                Err(SerdesError::BadPoint)
            } else if !gt_elem_ok(t) {
                Err(SerdesError::BadScalar)
            } else {
                Ok(ParamsV { ciphersuite: b[0], n: n as nat, a1, b1, a2, b2, t })
            }
        }
    }
}

/// A structured reference string over BLS12-381.
#[derive(Clone, Debug, PartialEq)]
pub struct VeccomParams {
    /// ciphersuite id
    pub ciphersuite: u8,

    /// parameter N
    pub n: usize,

    /// g1^{alpha}, ..., g1^{alpha^N}
    pub g1_alpha_1_to_n: Vec<G1Elem>,

    /// g1^{alpha^{N+2}}, g1^{alpha^{N+3}}, ..., g1^{alpha^{2N}}
    pub g1_alpha_nplus2_to_2n: Vec<G1Elem>,

    /// g2^{alpha}, g2^{alpha^2}, ..., g2^{alpha^N}
    pub g2_alpha_1_to_n: Vec<G2Elem>,

    /// g2^{alpha^{N+2}}, g2^{alpha^{N+3}}, ..., g2^{alpha^{2N}}
    pub g2_alpha_nplus2_to_2n: Vec<G2Elem>,

    /// e(g2,g1)^{alpha^{N+1}}
    pub gt_alpha_nplus1: GtElem,
}

impl View for VeccomParams {
    type V = ParamsV;

    open spec fn view(&self) -> ParamsV {
        ParamsV {
            ciphersuite: self.ciphersuite,
            n: self.n as nat,
            a1: views1(self.g1_alpha_1_to_n@),
            b1: views1(self.g1_alpha_nplus2_to_2n@),
            a2: views2(self.g2_alpha_1_to_n@),
            b2: views2(self.g2_alpha_nplus2_to_2n@),
            t: self.gt_alpha_nplus1@,
        }
    }
}

/// Appends the encodings of all elements of `elems` to `out`.
fn extend_g1s(out: &mut Vec<u8>, elems: &Vec<G1Elem>)
    ensures
        final(out)@ == old(out)@ + flat(views1(elems@)),
{
    let n = elems.len();
    let mut i: usize = 0;
    while i < n
        invariant
            n == elems@.len(),
            0 <= i <= n,
            out@ == old(out)@ + flat(views1(elems@).take(i as int)),
        decreases n - i,
    {
        extend(out, (&elems[i]).as_bytes());
        proof {
            let vs = views1(elems@);
            assert(vs.take(i + 1) =~= vs.take(i as int).push(vs[i as int]));
            lemma_flat_push(vs.take(i as int), vs[i as int]);
        }
        i += 1;
    }
    assert(views1(elems@).take(n as int) =~= views1(elems@));
}

/// Appends the encodings of all elements of `elems` to `out`.
fn extend_g2s(out: &mut Vec<u8>, elems: &Vec<G2Elem>)
    ensures
        final(out)@ == old(out)@ + flat(views2(elems@)),
{
    let n = elems.len();
    let mut i: usize = 0;
    while i < n
        invariant
            n == elems@.len(),
            0 <= i <= n,
            out@ == old(out)@ + flat(views2(elems@).take(i as int)),
        decreases n - i,
    {
        extend(out, (&elems[i]).as_bytes());
        proof {
            let vs = views2(elems@);
            assert(vs.take(i + 1) =~= vs.take(i as int).push(vs[i as int]));
            lemma_flat_push(vs.take(i as int), vs[i as int]);
        }
        i += 1;
    }
    assert(views2(elems@).take(n as int) =~= views2(elems@));
}

/// Reads `cnt` 48-byte `G1` encodings from `buf` at `off`; accepts exactly
/// when every one is canonical.
fn read_g1s(buf: &Vec<u8>, off: usize, cnt: usize) -> (r: Option<Vec<G1Elem>>)
    requires
        off + cnt * 48 <= buf@.len(),
    ensures
        match r {
            Some(v) => v@.len() == cnt && views1(v@) == chunks(buf@, off as int, cnt as nat, 48)
                && all_g1_ok(views1(v@)),
            None => !all_g1_ok(chunks(buf@, off as int, cnt as nat, 48)),
        },
{
    let ghost cs = chunks(buf@, off as int, cnt as nat, 48);
    let blen = buf.len();
    let mut out: Vec<G1Elem> = Vec::new();
    let mut i: usize = 0;
    while i < cnt
        invariant
            off + cnt * 48 <= blen,
            blen == buf@.len(),
            0 <= i <= cnt,
            cs == chunks(buf@, off as int, cnt as nat, 48),
            out@.len() == i,
            views1(out@) =~= cs.take(i as int),
            all_g1_ok(views1(out@)),
        decreases cnt - i,
    {
        assert(off + i * 48 + 48 <= off + cnt * 48) by (nonlinear_arith)
            requires
                i < cnt,
        ;
        let sub = subvec(buf, off + i * 48, off + i * 48 + 48);
        assert(sub@ == cs[i as int]);
        match G1Elem::from_bytes(sub) {
            Some(e) => {
                out.push(e);
                proof {
                    assert(views1(out@) =~= cs.take(i + 1));
                }
            },
            None => {
                assert(!g1_elem_ok(cs[i as int]));
                return None;
            },
        }
        i += 1;
    }
    assert(cs.take(cnt as int) =~= cs);
    Some(out)
}

/// Reads `cnt` 96-byte `G2` encodings from `buf` at `off`; accepts exactly
/// when every one is canonical.
fn read_g2s(buf: &Vec<u8>, off: usize, cnt: usize) -> (r: Option<Vec<G2Elem>>)
    requires
        off + cnt * 96 <= buf@.len(),
    ensures
        match r {
            Some(v) => v@.len() == cnt && views2(v@) == chunks(buf@, off as int, cnt as nat, 96)
                && all_g2_ok(views2(v@)),
            None => !all_g2_ok(chunks(buf@, off as int, cnt as nat, 96)),
        },
{
    let ghost cs = chunks(buf@, off as int, cnt as nat, 96);
    let blen = buf.len();
    let mut out: Vec<G2Elem> = Vec::new();
    let mut i: usize = 0;
    while i < cnt
        invariant
            off + cnt * 96 <= blen,
            blen == buf@.len(),
            0 <= i <= cnt,
            cs == chunks(buf@, off as int, cnt as nat, 96),
            out@.len() == i,
            views2(out@) =~= cs.take(i as int),
            all_g2_ok(views2(out@)),
        decreases cnt - i,
    {
        assert(off + i * 96 + 96 <= off + cnt * 96) by (nonlinear_arith)
            requires
                i < cnt,
        ;
        let sub = subvec(buf, off + i * 96, off + i * 96 + 96);
        assert(sub@ == cs[i as int]);
        match G2Elem::from_bytes(sub) {
            Some(e) => {
                out.push(e);
                proof {
                    assert(views2(out@) =~= cs.take(i + 1));
                }
            },
            None => {
                assert(!g2_elem_ok(cs[i as int]));
                return None;
            },
        }
        i += 1;
    }
    assert(cs.take(cnt as int) =~= cs);
    Some(out)
}

impl VeccomParams {
    /// A well-formed parameter set.
    pub open spec fn inv(&self) -> bool {
        params_ok(self@)
    }

    /// Writes the parameter set in its wire form.  Only the compressed form
    /// exists; asking for the uncompressed form is refused.
    pub fn serialize(&self, compressed: bool) -> (r: Result<Vec<u8>, SerdesError>)
        ensures
            match r {
                Ok(out) => compressed && out@ == params_serial(self@),
                Err(e) => !compressed && e == SerdesError::NotCompressed,
            },
    {
        if !compressed {
            return Err(SerdesError::NotCompressed);
        }
        let mut out: Vec<u8> = Vec::new();
        out.push(self.ciphersuite);
        let nb = u64_to_le_bytes(self.n as u64);
        extend(&mut out, &nb);
        assert(out@ =~= seq![self.ciphersuite] + le8(self.n as nat));
        extend_g1s(&mut out, &self.g1_alpha_1_to_n);
        extend_g1s(&mut out, &self.g1_alpha_nplus2_to_2n);
        extend_g2s(&mut out, &self.g2_alpha_1_to_n);
        extend_g2s(&mut out, &self.g2_alpha_nplus2_to_2n);
        extend(&mut out, self.gt_alpha_nplus1.as_bytes());
        assert(out@ =~= params_serial(self@));
        Ok(out)
    }

    /// Reads a parameter set from `buf` at `start`; on success also returns
    /// the position after it.  Exactly the well-formed encodings are
    /// accepted, with every point subgroup-checked, `n` within `1..=65535`,
    /// and the error says what was wrong.
    pub fn deserialize(buf: &Vec<u8>, start: usize, compressed: bool) -> (r: Result<
        (VeccomParams, usize),
        SerdesError,
    >)
        requires
            start <= buf@.len(),
        ensures
            match r {
                Ok((p, used)) => {
                    &&& compressed
                    &&& p.inv()
                    &&& params_parse(buf@.skip(start as int)) == Ok::<ParamsV, SerdesError>(p@)
                    &&& used == start + params_serial_len(p@.n as int)
                },
                Err(e) => {
                    if compressed {
                        params_parse(buf@.skip(start as int)) == Err::<ParamsV, SerdesError>(e)
                    } else {
                        e == SerdesError::NotCompressed
                    }
                },
            },
    {
        if !compressed {
            return Err(SerdesError::NotCompressed);
        }
        let ghost tail = buf@.skip(start as int);
        let nbuf = buf.len();
        if nbuf - start < 9 {
            return Err(SerdesError::TooShort);
        }
        let cs = buf[start];
        assert(cs == tail[0]);
        let nv = u64_from_le_bytes(buf, start + 1);
        assert(buf@.subrange(start as int + 1, start as int + 9) =~= tail.subrange(1, 9));
        if nv > 65535 {
            return Err(SerdesError::NTooLarge);
        }
        if nv == 0 {
            return Err(SerdesError::NZero);
        }
        let n = nv as usize;
        let total = 9 + 48 * n + 48 * (n - 1) + 96 * n + 96 * (n - 1) + 576;
        assert(total == params_serial_len(n as int));
        if nbuf - start < total {
            return Err(SerdesError::TooShort);
        }
        let o_a1 = start + 9;
        let o_b1 = o_a1 + 48 * n;
        let o_a2 = o_b1 + 48 * (n - 1);
        let o_b2 = o_a2 + 96 * n;
        let o_t = o_b2 + 96 * (n - 1);

        proof {
            lemma_chunks_shift(buf@, start as int, 9, n as nat, 48);
            lemma_chunks_shift(buf@, start as int, off_b1(n as int), (n - 1) as nat, 48);
            lemma_chunks_shift(buf@, start as int, off_a2(n as int), n as nat, 96);
            lemma_chunks_shift(buf@, start as int, off_b2(n as int), (n - 1) as nat, 96);
        }

        let a1 = match read_g1s(buf, o_a1, n) {
            Some(v) => v,
            None => {
                return Err(SerdesError::BadPoint);
            },
        };
        let b1 = match read_g1s(buf, o_b1, n - 1) {
            Some(v) => v,
            None => {
                return Err(SerdesError::BadPoint);
            },
        };
        let a2 = match read_g2s(buf, o_a2, n) {
            Some(v) => v,
            None => {
                return Err(SerdesError::BadPoint);
            },
        };
        let b2 = match read_g2s(buf, o_b2, n - 1) {
            Some(v) => v,
            None => {
                return Err(SerdesError::BadPoint);
            },
        };
        let tb = subvec(buf, o_t, o_t + 576);
        assert(tb@ =~= tail.subrange(off_t(n as int), off_t(n as int) + 576));
        let t = match GtElem::from_bytes(tb) {
            Some(t) => t,
            None => {
                return Err(SerdesError::BadScalar);
            },
        };
        let p = VeccomParams {
            ciphersuite: cs,
            n,
            g1_alpha_1_to_n: a1,
            g1_alpha_nplus2_to_2n: b1,
            g2_alpha_1_to_n: a2,
            g2_alpha_nplus2_to_2n: b2,
            gt_alpha_nplus1: t,
        };
        proof {
            assert(tail.len() == nbuf - start);
            assert(le_nat(tail.subrange(1, 9)) == nv);
            assert(views1(a1@) == chunks(tail, 9, n as nat, 48));
            assert(views1(b1@) == chunks(tail, off_b1(n as int), (n - 1) as nat, 48));
            assert(views2(a2@) == chunks(tail, off_a2(n as int), n as nat, 96));
            assert(views2(b2@) == chunks(tail, off_b2(n as int), (n - 1) as nat, 96));
            assert(params_parse(tail) is Ok);
            let pv = params_parse(tail).unwrap();
            assert(p@ =~~= pv);
            assert(params_parse(tail) == Ok::<ParamsV, SerdesError>(p@));
        }
        Ok((p, start + total))
    }
}

/// Blocks cut at an offset within `b` are blocks cut at the shifted offset
/// of the suffix of `b`.
proof fn lemma_chunks_shift(b: Seq<u8>, start: int, off: int, cnt: nat, w: nat)
    requires
        0 <= start <= b.len(),
        0 <= off,
        start + off + cnt * w <= b.len(),
    ensures
        chunks(b, start + off, cnt, w) == chunks(b.skip(start), off, cnt, w),
{
    let lhs = chunks(b, start + off, cnt, w);
    let rhs = chunks(b.skip(start), off, cnt, w);
    assert forall|i: int| 0 <= i < cnt implies lhs[i] == rhs[i] by {
        assert(i * w + w <= cnt * w) by (nonlinear_arith)
            requires
                0 <= i < cnt,
        ;
        assert(lhs[i] =~= rhs[i]);
    }
    assert(lhs =~~= rhs);
}

/// A block sequence laid out between a prefix and a suffix is recovered by
/// cutting at the prefix's end.
proof fn lemma_chunk_extract(b: Seq<u8>, off: int, s: Seq<Seq<u8>>, w: nat)
    requires
        uniform(s, w),
        0 <= off,
        off + s.len() * w <= b.len(),
        b.subrange(off, off + (s.len() * w) as int) == flat(s),
    ensures
        chunks(b, off, s.len(), w) == s,
{
    lemma_flat_len(s, w);
    assert forall|i: int| 0 <= i < s.len() implies chunks(b, off, s.len(), w)[i] == s[i] by {
        lemma_flat_index(s, w, i);
        assert(i * w + w <= s.len() * w) by (nonlinear_arith)
            requires
                0 <= i < s.len(),
        ;
        assert(chunks(b, off, s.len(), w)[i]
            == b.subrange(off + i * (w as int), off + i * (w as int) + (w as int)));
        assert(b.subrange(off + i * (w as int), off + i * (w as int) + (w as int))
            =~= flat(s).subrange(i * (w as int), i * (w as int) + (w as int)));
    }
    assert(chunks(b, off, s.len(), w) =~~= s);
}

/// The flattening of the blocks cut from a range is the range itself.
proof fn lemma_flat_of_chunks(b: Seq<u8>, off: int, cnt: nat, w: nat)
    requires
        0 <= off,
        off + cnt * w <= b.len(),
    ensures
        flat(chunks(b, off, cnt, w)) == b.subrange(off, off + (cnt * w) as int),
    decreases cnt,
{
    if cnt == 0 {
        assert(flat(chunks(b, off, cnt, w)) =~= b.subrange(off, off));
    } else {
        assert((cnt - 1) * w + w == cnt * w) by (nonlinear_arith);
        lemma_flat_of_chunks(b, off, (cnt - 1) as nat, w);
        let cs = chunks(b, off, cnt, w);
        assert(cs.drop_last() =~= chunks(b, off, (cnt - 1) as nat, w));
        assert(cs.last() == b.subrange(
            off + (cnt - 1) * (w as int),
            off + (cnt - 1) * (w as int) + (w as int),
        ));
        assert(flat(cs) == flat(cs.drop_last()) + cs.last());
        assert(flat(cs) =~= b.subrange(off, off + (cnt * w) as int));
    }
}

/// The wire form of a well-formed parameter set has exactly the length the
/// layout gives for its `n`.
pub proof fn lemma_params_serial_len(v: ParamsV)
    requires
        params_ok(v),
    ensures
        params_serial(v).len() == params_serial_len(v.n as int),
{
    lemma_flat_len(v.a1, 48);
    lemma_flat_len(v.b1, 48);
    lemma_flat_len(v.a2, 96);
    lemma_flat_len(v.b2, 96);
}

/// Round trip: a well-formed parameter set parses back from its own wire
/// form, whatever follows it in the buffer.
pub proof fn lemma_params_round_trip(v: ParamsV, rest: Seq<u8>)
    requires
        params_ok(v),
    ensures
        params_parse(params_serial(v) + rest) == Ok::<ParamsV, SerdesError>(v),
{
    let b = params_serial(v) + rest;
    let n = v.n as int;
    assert(uniform(v.a1, 48) && uniform(v.b1, 48) && uniform(v.a2, 96) && uniform(v.b2, 96));
    lemma_flat_len(v.a1, 48);
    lemma_flat_len(v.b1, 48);
    lemma_flat_len(v.a2, 96);
    lemma_flat_len(v.b2, 96);
    assert(params_serial(v).len() == params_serial_len(n));
    assert(b[0] == v.ciphersuite);
    assert(b.subrange(1, 9) =~= le8(v.n));
    lemma_pow256_8();
    lemma_le8_to_nat(v.n);
    assert(le_nat(b.subrange(1, 9)) == v.n);
    assert(b.subrange(9, 9 + (v.a1.len() * 48) as int) =~= flat(v.a1));
    lemma_chunk_extract(b, 9, v.a1, 48);
    assert(b.subrange(off_b1(n), off_b1(n) + (v.b1.len() * 48) as int) =~= flat(v.b1));
    lemma_chunk_extract(b, off_b1(n), v.b1, 48);
    assert(b.subrange(off_a2(n), off_a2(n) + (v.a2.len() * 96) as int) =~= flat(v.a2));
    lemma_chunk_extract(b, off_a2(n), v.a2, 96);
    assert(b.subrange(off_b2(n), off_b2(n) + (v.b2.len() * 96) as int) =~= flat(v.b2));
    lemma_chunk_extract(b, off_b2(n), v.b2, 96);
    assert(b.subrange(off_t(n), off_t(n) + 576) =~= v.t);
    let parsed = params_parse(b).unwrap();
    assert(parsed =~~= v);
}

/// The wire form determines the parameter set: two well-formed sets with
/// the same wire form are the same set.
pub proof fn lemma_params_serial_injective(v1: ParamsV, v2: ParamsV)
    requires
        params_ok(v1),
        params_ok(v2),
        params_serial(v1) == params_serial(v2),
    ensures
        v1 == v2,
{
    lemma_params_round_trip(v1, Seq::empty());
    lemma_params_round_trip(v2, Seq::empty());
}

/// Tamper rejection at the wire level: a buffer of the set's wire length
/// that differs anywhere from the set's wire form never parses back to the
/// same set.  It either fails to parse, or parses to a different one.
pub proof fn lemma_params_tamper(v: ParamsV, b: Seq<u8>)
    requires
        params_ok(v),
        b.len() == params_serial_len(v.n as int),
        b != params_serial(v),
    ensures
        params_parse(b) != Ok::<ParamsV, SerdesError>(v),
{
    if params_parse(b) == Ok::<ParamsV, SerdesError>(v) {
        lemma_params_parse_inverts(b, v);
        assert(b.subrange(0, params_serial_len(v.n as int)) =~= b);
    }
}

/// A successful parse inverts serialization: the parsed set re-serializes
/// to exactly the bytes it was read from.  So two buffers that parse to
/// parameter sets and differ anywhere in the parsed span parse to different
/// sets.
pub proof fn lemma_params_parse_inverts(b: Seq<u8>, v: ParamsV)
    requires
        params_parse(b) == Ok::<ParamsV, SerdesError>(v),
    ensures
        params_ok(v),
        params_serial(v) == b.subrange(0, params_serial_len(v.n as int)),
{
    let n = le_nat(b.subrange(1, 9)) as int;
    lemma_flat_of_chunks(b, 9, n as nat, 48);
    lemma_flat_of_chunks(b, off_b1(n), (n - 1) as nat, 48);
    lemma_flat_of_chunks(b, off_a2(n), n as nat, 96);
    lemma_flat_of_chunks(b, off_b2(n), (n - 1) as nat, 96);
    lemma_le_nat_to_le8(b.subrange(1, 9));
    assert(params_serial(v) =~= b.subrange(0, params_serial_len(n)));
    assert forall|i: int| 0 <= i < v.a1.len() implies g1_elem_ok(#[trigger] v.a1[i]) by {
        assert(v.a1[i] == chunks(b, 9, n as nat, 48)[i]);
    }
    assert forall|i: int| 0 <= i < v.b1.len() implies g1_elem_ok(#[trigger] v.b1[i]) by {
        assert(v.b1[i] == chunks(b, off_b1(n), (n - 1) as nat, 48)[i]);
    }
    assert forall|i: int| 0 <= i < v.a2.len() implies g2_elem_ok(#[trigger] v.a2[i]) by {
        assert(v.a2[i] == chunks(b, off_a2(n), n as nat, 96)[i]);
    }
    assert forall|i: int| 0 <= i < v.b2.len() implies g2_elem_ok(#[trigger] v.b2[i]) by {
        assert(v.b2[i] == chunks(b, off_b2(n), (n - 1) as nat, 96)[i]);
    }
}

} // verus!
