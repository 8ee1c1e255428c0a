//! Byte-string arithmetic shared by the wire format and the hash pre-images:
//! big- and little-endian integer views of byte strings, and flattening of a
//! sequence of fixed-width blocks.

use vstd::prelude::*;

verus! {

/// The natural number that a byte string denotes when read big-endian
/// (first byte most significant).
pub open spec fn be_nat(s: Seq<u8>) -> nat
    decreases s.len(),
{
    if s.len() == 0 {
        0
    } else {
        be_nat(s.drop_last()) * 256 + s.last() as nat
    }
}

/// The natural number that a byte string denotes when read little-endian
/// (first byte least significant).
pub open spec fn le_nat(s: Seq<u8>) -> nat
    decreases s.len(),
{
    if s.len() == 0 {
        0
    } else {
        le_nat(s.drop_last()) + s.last() as nat * pow256((s.len() - 1) as nat)
    }
}

/// 256 to the power k.
pub open spec fn pow256(k: nat) -> nat
    decreases k,
{
    if k == 0 {
        1
    } else {
        256 * pow256((k - 1) as nat)
    }
}

/// A byte string denotes zero in big-endian exactly when every byte is zero.
pub proof fn lemma_be_nat_zero(s: Seq<u8>)
    ensures
        be_nat(s) == 0 <==> (forall|i: int| 0 <= i < s.len() ==> s[i] == 0),
    decreases s.len(),
{
    if s.len() > 0 {
        let t = s.drop_last();
        lemma_be_nat_zero(t);
        assert forall|i: int| 0 <= i < t.len() implies #[trigger] t[i] == s[i] by {
        }
        if be_nat(s) == 0 {
            assert(be_nat(t) == 0 && s.last() == 0);
            assert forall|i: int| 0 <= i < s.len() implies #[trigger] s[i] == 0 by {
                if i < s.len() - 1 {
                    assert(t[i] == 0);
                } else {
                    assert(s[i] == s.last());
                }
            }
        } else {
            if forall|i: int| 0 <= i < s.len() ==> #[trigger] s[i] == 0 {
                assert forall|i: int| 0 <= i < t.len() implies #[trigger] t[i] == 0 by {
                    assert(s[i] == 0);
                }
                assert(be_nat(t) == 0);
                assert(s.last() == s[s.len() - 1] && s[s.len() - 1] == 0);
                assert(be_nat(s) == 0);
            }
        }
    }
}

/// 256 to any power is positive.
pub proof fn lemma_pow256_pos(k: nat)
    ensures
        pow256(k) >= 1,
    decreases k,
{
    if k > 0 {
        lemma_pow256_pos((k - 1) as nat);
    }
}

/// 256 to any positive power is at least 256.
pub proof fn lemma_pow256_at_least(k: nat)
    requires
        k >= 1,
    ensures
        pow256(k) >= 256,
{
    lemma_pow256_pos((k - 1) as nat);
    assert(256 * pow256((k - 1) as nat) >= 256 * 1) by (nonlinear_arith)
        requires
            pow256((k - 1) as nat) >= 1,
    ;
}

/// A big-endian value is at least its first byte times the weight of the
/// first position.
pub proof fn lemma_be_nat_first(s: Seq<u8>)
    requires
        s.len() > 0,
    ensures
        be_nat(s) >= s[0] * pow256((s.len() - 1) as nat),
    decreases s.len(),
{
    if s.len() == 1 {
        assert(pow256(0) == 1);
        assert(be_nat(s.drop_last()) == 0);
        assert(be_nat(s) == s.last() as nat);
        assert(s.last() == s[0]);
        assert(s[0] * pow256(0) == s[0]) by (nonlinear_arith)
            requires
                pow256(0) == 1,
        ;
    } else {
        let t = s.drop_last();
        lemma_be_nat_first(t);
        assert(t[0] == s[0]);
        assert(be_nat(s) == be_nat(t) * 256 + s.last() as nat);
        assert(pow256((s.len() - 1) as nat) == 256 * pow256((s.len() - 2) as nat));
        assert(be_nat(t) * 256 + s.last() as nat
            >= s[0] * pow256((s.len() - 1) as nat)) by (nonlinear_arith)
            requires
                be_nat(t) >= s[0] * pow256((s.len() - 2) as nat),
                pow256((s.len() - 1) as nat) == 256 * pow256((s.len() - 2) as nat),
                s.len() >= 2,
        ;
    }
}

/// Flattening of a sequence of byte strings into one byte string.
pub open spec fn flat(s: Seq<Seq<u8>>) -> Seq<u8>
    decreases s.len(),
{
    if s.len() == 0 {
        Seq::empty()
    } else {
        flat(s.drop_last()) + s.last()
    }
}

/// Flattening distributes over push.
pub proof fn lemma_flat_push(s: Seq<Seq<u8>>, x: Seq<u8>)
    ensures
        flat(s.push(x)) == flat(s) + x,
{
    assert(s.push(x).drop_last() =~= s);
    assert(s.push(x).last() == x);
}

/// All blocks of `s` have width `w`.
pub open spec fn uniform(s: Seq<Seq<u8>>, w: nat) -> bool {
    forall|i: int| 0 <= i < s.len() ==> (#[trigger] s[i]).len() == w
}

/// A uniform sequence of blocks flattens to `w` times as many bytes.
pub proof fn lemma_flat_len(s: Seq<Seq<u8>>, w: nat)
    requires
        uniform(s, w),
    ensures
        flat(s).len() == s.len() * w,
    decreases s.len(),
{
    if s.len() > 0 {
        assert(uniform(s.drop_last(), w));
        lemma_flat_len(s.drop_last(), w);
        assert(s.last().len() == w);
        assert(flat(s).len() == (s.len() - 1) * w + w);
        assert((s.len() - 1) * w + w == s.len() * w) by (nonlinear_arith);
    }
}

/// The i-th width-`w` slice of the flattening of a uniform sequence is its
/// i-th block.
pub proof fn lemma_flat_index(s: Seq<Seq<u8>>, w: nat, i: int)
    requires
        uniform(s, w),
        0 <= i < s.len(),
    ensures
        flat(s).len() == s.len() * w,
        flat(s).subrange(i * w, i * w + w as int) == s[i],
    decreases s.len(),
{
    lemma_flat_len(s, w);
    if i == s.len() - 1 {
        lemma_flat_len(s.drop_last(), w);
        assert(flat(s).subrange(i * w, i * w + w as int) =~= s[i]);
    } else {
        assert(uniform(s.drop_last(), w));
        lemma_flat_index(s.drop_last(), w, i);
        assert(s.drop_last()[i] == s[i]);
        assert(i * w + w <= flat(s.drop_last()).len()) by {
            assert((i + 1) * w <= (s.len() - 1) * w) by (nonlinear_arith)
                requires i + 1 <= s.len() - 1, w >= 0;
            assert((i + 1) * w == i * w + w) by (nonlinear_arith);
        }
        assert(flat(s).subrange(i * w, i * w + w as int)
            =~= flat(s.drop_last()).subrange(i * w, i * w + w as int));
    }
}

/// Exact byte-string equality, decided by a scan.
pub fn bytes_eq(a: &Vec<u8>, b: &Vec<u8>) -> (r: bool)
    ensures
        r == (a@ == b@),
{
    if a.len() != b.len() {
        assert(a@ != b@);
        return false;
    }
    let n = a.len();
    let mut i: usize = 0;
    while i < n
        invariant
            n == a.len() == b.len(),
            0 <= i <= n,
            forall|j: int| 0 <= j < i ==> a@[j] == b@[j],
        decreases n - i,
    {
        if a[i] != b[i] {
            return false;
        }
        i += 1;
    }
    assert(a@ =~= b@);
    true
}

/// The bytes of `v` from `from` (inclusive) to `to` (exclusive), as a fresh
/// vector.
pub fn subvec(v: &Vec<u8>, from: usize, to: usize) -> (r: Vec<u8>)
    requires
        from <= to <= v@.len(),
    ensures
        r@ == v@.subrange(from as int, to as int),
{
    let mut out: Vec<u8> = Vec::new();
    let mut i: usize = from;
    while i < to
        invariant
            from <= i <= to <= v@.len(),
            out@ == v@.subrange(from as int, i as int),
        decreases to - i,
    {
        out.push(v[i]);
        i += 1;
        assert(out@ =~= v@.subrange(from as int, i as int));
    }
    out
}

/// Appends all of `src` to `dst`.
pub fn extend(dst: &mut Vec<u8>, src: &Vec<u8>)
    ensures
        final(dst)@ == old(dst)@ + src@,
{
    let n = src.len();
    let mut i: usize = 0;
    while i < n
        invariant
            n == src.len(),
            0 <= i <= n,
            dst@ == old(dst)@ + src@.subrange(0, i as int),
        decreases n - i,
    {
        dst.push(src[i]);
        i += 1;
        assert(dst@ =~= old(dst)@ + src@.subrange(0, i as int));
    }
    assert(dst@ =~= old(dst)@ + src@);
}

/// The 8-byte little-endian encoding of a value below 2^64, byte by byte.
pub open spec fn le8(v: nat) -> Seq<u8> {
    Seq::new(8, |i: int| ((v / pow256(i as nat)) % 256) as u8)
}

/// Reading the little-endian encoding of a value gives the value back.
pub proof fn lemma_le8_to_nat(v: nat)
    requires
        v < 0x10000000000000000,
    ensures
        le_nat(le8(v)) == v,
{
    let x = v as u64;
    lemma_le_nat_8(le8(v));
    lemma_pow256_8();
    assert(le8(v)[0] == ((v / pow256(0)) % 256) as u8);
    assert(le8(v)[1] == ((v / pow256(1)) % 256) as u8);
    assert(le8(v)[2] == ((v / pow256(2)) % 256) as u8);
    assert(le8(v)[3] == ((v / pow256(3)) % 256) as u8);
    assert(le8(v)[4] == ((v / pow256(4)) % 256) as u8);
    assert(le8(v)[5] == ((v / pow256(5)) % 256) as u8);
    assert(le8(v)[6] == ((v / pow256(6)) % 256) as u8);
    assert(le8(v)[7] == ((v / pow256(7)) % 256) as u8);
    assert(x ==
        (x % 256)
        + 0x100 * ((x / 0x100) % 256)
        + 0x10000 * ((x / 0x10000) % 256)
        + 0x1000000 * ((x / 0x1000000) % 256)
        + 0x100000000 * ((x / 0x100000000) % 256)
        + 0x10000000000 * ((x / 0x10000000000) % 256)
        + 0x1000000000000 * ((x / 0x1000000000000) % 256)
        + 0x100000000000000 * ((x / 0x100000000000000) % 256)) by (bit_vector);
}

/// An 8-byte string is the little-endian encoding of the value it denotes.
pub proof fn lemma_le_nat_to_le8(s: Seq<u8>)
    requires
        s.len() == 8,
    ensures
        le_nat(s) < 0x10000000000000000,
        le8(le_nat(s)) == s,
{
    lemma_le_nat_8(s);
    lemma_pow256_8();
    let b0 = s[0] as u64;
    let b1 = s[1] as u64;
    let b2 = s[2] as u64;
    let b3 = s[3] as u64;
    let b4 = s[4] as u64;
    let b5 = s[5] as u64;
    let b6 = s[6] as u64;
    let b7 = s[7] as u64;
    assert(b0 + 0x100 * b1 + 0x10000 * b2 + 0x1000000 * b3 + 0x100000000 * b4
        + 0x10000000000 * b5 + 0x1000000000000 * b6 + 0x100000000000000 * b7
        < 0x10000000000000000) by (bit_vector)
        requires
            b0 < 256 && b1 < 256 && b2 < 256 && b3 < 256 && b4 < 256 && b5 < 256
                && b6 < 256 && b7 < 256,
    ;
    let x = (b0 + 0x100 * b1 + 0x10000 * b2 + 0x1000000 * b3 + 0x100000000 * b4
        + 0x10000000000 * b5 + 0x1000000000000 * b6 + 0x100000000000000 * b7) as u64;
    assert(x % 256 == b0 && (x / 0x100) % 256 == b1 && (x / 0x10000) % 256 == b2
        && (x / 0x1000000) % 256 == b3 && (x / 0x100000000) % 256 == b4
        && (x / 0x10000000000) % 256 == b5 && (x / 0x1000000000000) % 256 == b6
        && (x / 0x100000000000000) % 256 == b7) by (bit_vector)
        requires
            b0 < 256 && b1 < 256 && b2 < 256 && b3 < 256 && b4 < 256 && b5 < 256
                && b6 < 256 && b7 < 256,
            x == b0 + 0x100 * b1 + 0x10000 * b2 + 0x1000000 * b3 + 0x100000000 * b4
                + 0x10000000000 * b5 + 0x1000000000000 * b6 + 0x100000000000000 * b7,
    ;
    let v = le_nat(s);
    assert(le8(v)[0] == ((v / pow256(0)) % 256) as u8);
    assert(le8(v)[1] == ((v / pow256(1)) % 256) as u8);
    assert(le8(v)[2] == ((v / pow256(2)) % 256) as u8);
    assert(le8(v)[3] == ((v / pow256(3)) % 256) as u8);
    assert(le8(v)[4] == ((v / pow256(4)) % 256) as u8);
    assert(le8(v)[5] == ((v / pow256(5)) % 256) as u8);
    assert(le8(v)[6] == ((v / pow256(6)) % 256) as u8);
    assert(le8(v)[7] == ((v / pow256(7)) % 256) as u8);
    assert(le8(v) =~= s);
}

/// The powers of 256 up to the eighth, as literals.
pub proof fn lemma_pow256_8()
    ensures
        pow256(0) == 1,
        pow256(1) == 0x100,
        pow256(2) == 0x10000,
        pow256(3) == 0x1000000,
        pow256(4) == 0x100000000,
        pow256(5) == 0x10000000000,
        pow256(6) == 0x1000000000000,
        pow256(7) == 0x100000000000000,
        pow256(8) == 0x10000000000000000,
{
    assert(pow256(0) == 1);
    assert(pow256(1) == 0x100);
    assert(pow256(2) == 0x10000);
    assert(pow256(3) == 0x1000000);
    assert(pow256(4) == 0x100000000);
    assert(pow256(5) == 0x10000000000);
    assert(pow256(6) == 0x1000000000000);
    assert(pow256(7) == 0x100000000000000);
    assert(pow256(8) == 0x10000000000000000);
}

/// Encodes a 64-bit value as 8 little-endian bytes.
pub fn u64_to_le_bytes(v: u64) -> (r: Vec<u8>)
    ensures
        r@.len() == 8,
        le_nat(r@) == v,
        r@ == le8(v as nat),
{
    let c0: u64 = v & 0xff;
    let c1: u64 = (v >> 8) & 0xff;
    let c2: u64 = (v >> 16) & 0xff;
    let c3: u64 = (v >> 24) & 0xff;
    let c4: u64 = (v >> 32) & 0xff;
    let c5: u64 = (v >> 40) & 0xff;
    let c6: u64 = (v >> 48) & 0xff;
    let c7: u64 = (v >> 56) & 0xff;
    proof {
        assert(v & 0xff < 256 && (v >> 8) & 0xff < 256 && (v >> 16) & 0xff < 256
            && (v >> 24) & 0xff < 256 && (v >> 32) & 0xff < 256
            && (v >> 40) & 0xff < 256 && (v >> 48) & 0xff < 256
            && (v >> 56) & 0xff < 256) by (bit_vector);
    }
    let mut r: Vec<u8> = Vec::new();
    r.push(c0 as u8);
    r.push(c1 as u8);
    r.push(c2 as u8);
    r.push(c3 as u8);
    r.push(c4 as u8);
    r.push(c5 as u8);
    r.push(c6 as u8);
    r.push(c7 as u8);
    proof {
        lemma_le_nat_8(r@);
        assert(v ==
            (v & 0xff)
            + 0x100 * ((v >> 8) & 0xff)
            + 0x10000 * ((v >> 16) & 0xff)
            + 0x1000000 * ((v >> 24) & 0xff)
            + 0x100000000 * ((v >> 32) & 0xff)
            + 0x10000000000 * ((v >> 40) & 0xff)
            + 0x1000000000000 * ((v >> 48) & 0xff)
            + 0x100000000000000 * ((v >> 56) & 0xff)) by (bit_vector);
        lemma_le_nat_to_le8(r@);
    }
    r
}

/// Reads 8 little-endian bytes of `v`, starting at `off`, as a 64-bit value.
pub fn u64_from_le_bytes(v: &Vec<u8>, off: usize) -> (r: u64)
    requires
        off + 8 <= v@.len(),
    ensures
        r == le_nat(v@.subrange(off as int, off as int + 8)),
{
    let n = v.len();
    assert(off + 8 <= n);
    let b0 = v[off] as u64;
    let b1 = v[off + 1] as u64;
    let b2 = v[off + 2] as u64;
    let b3 = v[off + 3] as u64;
    let b4 = v[off + 4] as u64;
    let b5 = v[off + 5] as u64;
    let b6 = v[off + 6] as u64;
    let b7 = v[off + 7] as u64;
    let r = b0
        | (b1 << 8)
        | (b2 << 16)
        | (b3 << 24)
        | (b4 << 32)
        | (b5 << 40)
        | (b6 << 48)
        | (b7 << 56);
    proof {
        let s = v@.subrange(off as int, off as int + 8);
        lemma_le_nat_8(s);
        let c0 = b0 as u64;
        assert(b0 | (b1 << 8) | (b2 << 16) | (b3 << 24) | (b4 << 32)
            | (b5 << 40) | (b6 << 48) | (b7 << 56)
            == b0 + 0x100 * b1 + 0x10000 * b2 + 0x1000000 * b3
            + 0x100000000 * b4 + 0x10000000000 * b5
            + 0x1000000000000 * b6 + 0x100000000000000 * b7) by (bit_vector)
            requires
                b0 < 256 && b1 < 256 && b2 < 256 && b3 < 256 && b4 < 256
                    && b5 < 256 && b6 < 256 && b7 < 256;
    }
    r
}

/// The 8-byte big-endian encoding of a value below 2^64, byte by byte.
pub open spec fn be8(v: nat) -> Seq<u8> {
    Seq::new(8, |i: int| ((v / pow256((7 - i) as nat)) % 256) as u8)
}

/// The 32-byte big-endian encoding of a value below 2^256, byte by byte.
pub open spec fn be32(v: nat) -> Seq<u8> {
    Seq::new(32, |i: int| ((v / pow256((31 - i) as nat)) % 256) as u8)
}

/// Encodes a 64-bit value as 8 big-endian bytes.
pub fn u64_to_be_bytes(v: u64) -> (r: Vec<u8>)
    ensures
        r@.len() == 8,
        be_nat(r@) == v,
        r@ == be8(v as nat),
{
    let c0: u64 = (v >> 56) & 0xff;
    let c1: u64 = (v >> 48) & 0xff;
    let c2: u64 = (v >> 40) & 0xff;
    let c3: u64 = (v >> 32) & 0xff;
    let c4: u64 = (v >> 24) & 0xff;
    let c5: u64 = (v >> 16) & 0xff;
    let c6: u64 = (v >> 8) & 0xff;
    let c7: u64 = v & 0xff;
    proof {
        assert(v & 0xff < 256 && (v >> 8) & 0xff < 256 && (v >> 16) & 0xff < 256
            && (v >> 24) & 0xff < 256 && (v >> 32) & 0xff < 256
            && (v >> 40) & 0xff < 256 && (v >> 48) & 0xff < 256
            && (v >> 56) & 0xff < 256) by (bit_vector);
    }
    let mut r: Vec<u8> = Vec::new();
    r.push(c0 as u8);
    r.push(c1 as u8);
    r.push(c2 as u8);
    r.push(c3 as u8);
    r.push(c4 as u8);
    r.push(c5 as u8);
    r.push(c6 as u8);
    r.push(c7 as u8);
    proof {
        lemma_be_nat_8(r@);
        assert(v ==
            ((v >> 56) & 0xff) * 0x100000000000000
            + ((v >> 48) & 0xff) * 0x1000000000000
            + ((v >> 40) & 0xff) * 0x10000000000
            + ((v >> 32) & 0xff) * 0x100000000
            + ((v >> 24) & 0xff) * 0x1000000
            + ((v >> 16) & 0xff) * 0x10000
            + ((v >> 8) & 0xff) * 0x100
            + (v & 0xff)) by (bit_vector);
        assert((v >> 56) & 0xff == (v / 0x100000000000000) % 256
            && (v >> 48) & 0xff == (v / 0x1000000000000) % 256
            && (v >> 40) & 0xff == (v / 0x10000000000) % 256
            && (v >> 32) & 0xff == (v / 0x100000000) % 256
            && (v >> 24) & 0xff == (v / 0x1000000) % 256
            && (v >> 16) & 0xff == (v / 0x10000) % 256
            && (v >> 8) & 0xff == (v / 0x100) % 256
            && v & 0xff == v % 256) by (bit_vector);
        assert(pow256(0) == 1);
        assert(pow256(1) == 0x100);
        assert(pow256(2) == 0x10000);
        assert(pow256(3) == 0x1000000);
        assert(pow256(4) == 0x100000000);
        assert(pow256(5) == 0x10000000000);
        assert(pow256(6) == 0x1000000000000);
        assert(pow256(7) == 0x100000000000000);
        let b = be8(v as nat);
        assert(b[0] == ((v as nat / pow256(7)) % 256) as u8);
        assert(b[1] == ((v as nat / pow256(6)) % 256) as u8);
        assert(b[2] == ((v as nat / pow256(5)) % 256) as u8);
        assert(b[3] == ((v as nat / pow256(4)) % 256) as u8);
        assert(b[4] == ((v as nat / pow256(3)) % 256) as u8);
        assert(b[5] == ((v as nat / pow256(2)) % 256) as u8);
        assert(b[6] == ((v as nat / pow256(1)) % 256) as u8);
        assert(b[7] == ((v as nat / pow256(0)) % 256) as u8);
        assert(r@[0] == b[0] && r@[1] == b[1] && r@[2] == b[2] && r@[3] == b[3]
            && r@[4] == b[4] && r@[5] == b[5] && r@[6] == b[6] && r@[7] == b[7]);
        assert(r@ =~= b);
    }
    r
}

/// Unfolds `le_nat` on an 8-byte string.
proof fn lemma_le_nat_8(s: Seq<u8>)
    requires
        s.len() == 8,
    ensures
        le_nat(s) == s[0]
            + 0x100 * s[1]
            + 0x10000 * s[2]
            + 0x1000000 * s[3]
            + 0x100000000 * s[4]
            + 0x10000000000 * s[5]
            + 0x1000000000000 * s[6]
            + 0x100000000000000 * s[7],
{
    let s7 = s.drop_last();
    let s6 = s7.drop_last();
    let s5 = s6.drop_last();
    let s4 = s5.drop_last();
    let s3 = s4.drop_last();
    let s2 = s3.drop_last();
    let s1 = s2.drop_last();
    let s0 = s1.drop_last();
    assert(pow256(0) == 1);
    assert(pow256(1) == 0x100);
    assert(pow256(2) == 0x10000);
    assert(pow256(3) == 0x1000000);
    assert(pow256(4) == 0x100000000);
    assert(pow256(5) == 0x10000000000);
    assert(pow256(6) == 0x1000000000000);
    assert(pow256(7) == 0x100000000000000);
    assert(s0.len() == 0 && le_nat(s0) == 0);
    assert(s1.last() == s[0] && s2.last() == s[1] && s3.last() == s[2]
        && s4.last() == s[3] && s5.last() == s[4] && s6.last() == s[5]
        && s7.last() == s[6] && s.last() == s[7]);
    assert(le_nat(s1) == le_nat(s0) + s[0] as nat * pow256(0));
    assert(le_nat(s2) == le_nat(s1) + s[1] as nat * pow256(1));
    assert(le_nat(s3) == le_nat(s2) + s[2] as nat * pow256(2));
    assert(le_nat(s4) == le_nat(s3) + s[3] as nat * pow256(3));
    assert(le_nat(s5) == le_nat(s4) + s[4] as nat * pow256(4));
    assert(le_nat(s6) == le_nat(s5) + s[5] as nat * pow256(5));
    assert(le_nat(s7) == le_nat(s6) + s[6] as nat * pow256(6));
    assert(le_nat(s) == le_nat(s7) + s[7] as nat * pow256(7));
}

/// Unfolds `be_nat` on an 8-byte string.
proof fn lemma_be_nat_8(s: Seq<u8>)
    requires
        s.len() == 8,
    ensures
        be_nat(s) == s[0] * 0x100000000000000
            + s[1] * 0x1000000000000
            + s[2] * 0x10000000000
            + s[3] * 0x100000000
            + s[4] * 0x1000000
            + s[5] * 0x10000
            + s[6] * 0x100
            + s[7],
{
    let s7 = s.drop_last();
    let s6 = s7.drop_last();
    let s5 = s6.drop_last();
    let s4 = s5.drop_last();
    let s3 = s4.drop_last();
    let s2 = s3.drop_last();
    let s1 = s2.drop_last();
    let s0 = s1.drop_last();
    assert(s0.len() == 0 && be_nat(s0) == 0);
    assert(s1.last() == s[0] && s2.last() == s[1] && s3.last() == s[2]
        && s4.last() == s[3] && s5.last() == s[4] && s6.last() == s[5]
        && s7.last() == s[6] && s.last() == s[7]);
    assert(be_nat(s1) == be_nat(s0) * 256 + s[0] as nat);
    assert(be_nat(s2) == be_nat(s1) * 256 + s[1] as nat);
    assert(be_nat(s3) == be_nat(s2) * 256 + s[2] as nat);
    assert(be_nat(s4) == be_nat(s3) * 256 + s[3] as nat);
    assert(be_nat(s5) == be_nat(s4) * 256 + s[4] as nat);
    assert(be_nat(s6) == be_nat(s5) * 256 + s[5] as nat);
    assert(be_nat(s7) == be_nat(s6) * 256 + s[6] as nat);
    assert(be_nat(s) == be_nat(s7) * 256 + s[7] as nat);
}

} // verus!
