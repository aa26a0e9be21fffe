//! Byte sequences as integers: little- and big-endian values, with the
//! verified readers and writers the rest of the library builds on.

use vstd::prelude::*;
use vstd::arithmetic::power2::{pow2, lemma_pow2_adds};

verus! {

/// The value of `s` read as a little-endian integer.
pub open spec fn le_val(s: Seq<u8>) -> nat
    decreases s.len(),
{
    if s.len() == 0 {
        0
    } else {
        (s[0] as nat) + 256 * le_val(s.drop_first())
    }
}

/// The value of `s` read as a big-endian integer.
pub open spec fn be_val(s: Seq<u8>) -> nat
    decreases s.len(),
{
    if s.len() == 0 {
        0
    } else {
        256 * be_val(s.drop_last()) + (s.last() as nat)
    }
}

/// The eight-byte little-endian encoding of `x`.
pub open spec fn u64_le(x: u64) -> Seq<u8> {
    seq![
        (x & 0xff) as u8,
        ((x >> 8) & 0xff) as u8,
        ((x >> 16) & 0xff) as u8,
        ((x >> 24) & 0xff) as u8,
        ((x >> 32) & 0xff) as u8,
        ((x >> 40) & 0xff) as u8,
        ((x >> 48) & 0xff) as u8,
        ((x >> 56) & 0xff) as u8,
    ]
}

pub proof fn lemma_le_val_bound(s: Seq<u8>)
    ensures
        le_val(s) < pow2(8 * s.len()),
    decreases s.len(),
{
    if s.len() == 0 {
        assert(pow2(0) == 1) by { vstd::arithmetic::power2::lemma2_to64(); }
    } else {
        lemma_le_val_bound(s.drop_first());
        lemma_pow2_adds(8, 8 * (s.len() - 1) as nat);
        assert(pow2(8) == 256) by { vstd::arithmetic::power2::lemma2_to64(); }
    }
}

pub proof fn lemma_be_val_bound(s: Seq<u8>)
    ensures
        be_val(s) < pow2(8 * s.len()),
    decreases s.len(),
{
    if s.len() == 0 {
        assert(pow2(0) == 1) by { vstd::arithmetic::power2::lemma2_to64(); }
    } else {
        lemma_be_val_bound(s.drop_last());
        lemma_pow2_adds(8 * (s.len() - 1) as nat, 8);
        assert(pow2(8) == 256) by { vstd::arithmetic::power2::lemma2_to64(); }
    }
}

/// A little-endian value splits at any position `m` into a low and a high part.
pub proof fn lemma_le_val_split(s: Seq<u8>, m: int)
    requires
        0 <= m <= s.len(),
    ensures
        le_val(s) == le_val(s.subrange(0, m)) + pow2(8 * m as nat) * le_val(
            s.subrange(m, s.len() as int),
        ),
    decreases m,
{
    if m == 0 {
        assert(s.subrange(0, 0) =~= Seq::<u8>::empty());
        assert(s.subrange(0, s.len() as int) =~= s);
        assert(pow2(0) == 1) by { vstd::arithmetic::power2::lemma2_to64(); }
    } else {
        assert(s.len() > 0);
        lemma_le_val_split(s.drop_first(), m - 1);
        assert(s.drop_first().subrange(0, m - 1) =~= s.subrange(0, m).drop_first());
        assert(s.drop_first().subrange(m - 1, s.drop_first().len() as int) =~= s.subrange(
            m,
            s.len() as int,
        ));
        lemma_pow2_adds(8, 8 * (m - 1) as nat);
        assert(pow2(8) == 256) by { vstd::arithmetic::power2::lemma2_to64(); }
        let hi = le_val(s.subrange(m, s.len() as int));
        assert(le_val(s) == (s[0] as nat) + 256 * le_val(s.drop_first()));
        assert(le_val(s.subrange(0, m)) == (s[0] as nat) + 256 * le_val(
            s.subrange(0, m).drop_first(),
        ));
        assert(256 * (pow2(8 * (m - 1) as nat) * hi) == pow2(8 * m as nat) * hi)
            by (nonlinear_arith)
            requires
                256 * pow2(8 * (m - 1) as nat) == pow2(8 * m as nat),
        ;
    }
}

/// The eight explicit bytes of `u64_le` read back as the value itself.
pub proof fn lemma_le_val_u64_le(x: u64)
    ensures
        u64_le(x).len() == 8,
        le_val(u64_le(x)) == x,
{
    let s = u64_le(x);
    let y0 = x & 0xff;
    let y1 = (x >> 8) & 0xff;
    let y2 = (x >> 16) & 0xff;
    let y3 = (x >> 24) & 0xff;
    let y4 = (x >> 32) & 0xff;
    let y5 = (x >> 40) & 0xff;
    let y6 = (x >> 48) & 0xff;
    let y7 = (x >> 56) & 0xff;
    assert(y0 < 256 && y1 < 256 && y2 < 256 && y3 < 256 && y4 < 256 && y5 < 256 && y6 < 256 && y7
        < 256) by (bit_vector)
        requires
            y0 == x & 0xff && y1 == (x >> 8) & 0xff && y2 == (x >> 16) & 0xff && y3 == (x >> 24)
                & 0xff && y4 == (x >> 32) & 0xff && y5 == (x >> 40) & 0xff && y6 == (x >> 48)
                & 0xff && y7 == (x >> 56) & 0xff,
    ;
    assert(s.drop_first() =~= s.subrange(1, 8));
    assert(s.subrange(1, 8).drop_first() =~= s.subrange(2, 8));
    assert(s.subrange(2, 8).drop_first() =~= s.subrange(3, 8));
    assert(s.subrange(3, 8).drop_first() =~= s.subrange(4, 8));
    assert(s.subrange(4, 8).drop_first() =~= s.subrange(5, 8));
    assert(s.subrange(5, 8).drop_first() =~= s.subrange(6, 8));
    assert(s.subrange(6, 8).drop_first() =~= s.subrange(7, 8));
    assert(s.subrange(7, 8).drop_first() =~= Seq::<u8>::empty());
    assert(le_val(Seq::<u8>::empty()) == 0);
    assert(le_val(s.subrange(7, 8)) == y7 as nat);
    assert(le_val(s.subrange(6, 8)) == y6 + 256 * (y7 as nat));
    assert(le_val(s.subrange(5, 8)) == y5 + 256 * (y6 + 256 * (y7 as nat)));
    assert(le_val(s.subrange(4, 8)) == y4 + 256 * (y5 + 256 * (y6 + 256 * (y7 as nat))));
    assert(le_val(s.subrange(3, 8)) == y3 + 256 * (y4 + 256 * (y5 + 256 * (y6 + 256 * (
    y7 as nat)))));
    assert(le_val(s.subrange(2, 8)) == y2 + 256 * (y3 + 256 * (y4 + 256 * (y5 + 256 * (y6 + 256 * (
    y7 as nat))))));
    assert(le_val(s.subrange(1, 8)) == y1 + 256 * (y2 + 256 * (y3 + 256 * (y4 + 256 * (y5 + 256 * (
    y6 + 256 * (y7 as nat)))))));
    assert(le_val(s) == y0 + 256 * (y1 + 256 * (y2 + 256 * (y3 + 256 * (y4 + 256 * (y5 + 256 * (y6
        + 256 * (y7 as nat))))))));
    assert(y0 + 256 * (y1 + 256 * (y2 + 256 * (y3 + 256 * (y4 + 256 * (y5 + 256 * (y6 + 256
        * y7)))))) == x) by (bit_vector)
        requires
            y0 == x & 0xff && y1 == (x >> 8) & 0xff && y2 == (x >> 16) & 0xff && y3 == (x >> 24)
                & 0xff && y4 == (x >> 32) & 0xff && y5 == (x >> 40) & 0xff && y6 == (x >> 48)
                & 0xff && y7 == (x >> 56) & 0xff,
    ;
}

/// Reports whether two byte vectors hold the same bytes.
pub fn bytes_eq(a: &Vec<u8>, b: &Vec<u8>) -> (r: bool)
    ensures
        r == (a@ == b@),
{
    if a.len() != b.len() {
        assert(a@ != b@);
        return false;
    }
    let n = a.len();
    let mut j: usize = 0;
    while j < n
        invariant
            n == a@.len() == b@.len(),
            0 <= j <= n,
            forall|k: int| 0 <= k < j ==> a@[k] == b@[k],
        decreases n - j,
    {
        if a[j] != b[j] {
            return false;
        }
        j += 1;
    }
    assert(a@ =~= b@);
    true
}

/// Copies a byte vector.
pub fn copy_bytes(a: &Vec<u8>) -> (r: Vec<u8>)
    ensures
        r@ == a@,
{
    sub_bytes(a, 0, a.len())
}

/// Copies `len` bytes of `b` starting at `off`.
pub fn sub_bytes(b: &Vec<u8>, off: usize, len: usize) -> (r: Vec<u8>)
    requires
        off + len <= b@.len(),
    ensures
        r@ == b@.subrange(off as int, off + len),
{
    let n = b.len();
    let mut r: Vec<u8> = Vec::new();
    let mut j: usize = 0;
    while j < len
        invariant
            n == b@.len(),
            off + len <= n,
            0 <= j <= len,
            r@ =~= b@.subrange(off as int, off + j),
        decreases len - j,
    {
        r.push(b[off + j]);
        assert(r@ =~= b@.subrange(off as int, off + j + 1));
        j += 1;
    }
    r
}

/// Appends all of `src` to `out`.
pub fn extend_bytes(out: &mut Vec<u8>, src: &Vec<u8>)
    ensures
        final(out)@ == old(out)@ + src@,
{
    let n = src.len();
    let mut j: usize = 0;
    while j < n
        invariant
            n == src@.len(),
            0 <= j <= n,
            out@ =~= old(out)@ + src@.subrange(0, j as int),
        decreases n - j,
    {
        out.push(src[j]);
        assert(out@ =~= old(out)@ + src@.subrange(0, j + 1));
        j += 1;
    }
    assert(out@ =~= old(out)@ + src@);
}

/// Appends the eight-byte little-endian encoding of `x` to `out`.
pub fn push_u64_le(out: &mut Vec<u8>, x: u64)
    ensures
        final(out)@ == old(out)@ + u64_le(x),
{
    proof {
        assert((x & 0xff) <= 0xff && ((x >> 8) & 0xff) <= 0xff && ((x >> 16) & 0xff) <= 0xff && ((x
            >> 24) & 0xff) <= 0xff && ((x >> 32) & 0xff) <= 0xff && ((x >> 40) & 0xff) <= 0xff && ((
        x >> 48) & 0xff) <= 0xff && ((x >> 56) & 0xff) <= 0xff) by (bit_vector);
    }
    out.push((x & 0xff) as u8);
    out.push(((x >> 8) & 0xff) as u8);
    out.push(((x >> 16) & 0xff) as u8);
    out.push(((x >> 24) & 0xff) as u8);
    out.push(((x >> 32) & 0xff) as u8);
    out.push(((x >> 40) & 0xff) as u8);
    out.push(((x >> 48) & 0xff) as u8);
    out.push(((x >> 56) & 0xff) as u8);
    assert(out@ =~= old(out)@ + u64_le(x));
}

/// Reads the eight bytes of `b` at `off` as a little-endian `u64`.
pub fn read_u64_le(b: &Vec<u8>, off: usize) -> (r: u64)
    requires
        off + 8 <= b@.len(),
    ensures
        u64_le(r) == b@.subrange(off as int, off + 8),
        r == le_val(b@.subrange(off as int, off + 8)),
{
    let n = b.len();
    assert(off + 8 <= n);
    let x0 = b[off];
    let x1 = b[off + 1];
    let x2 = b[off + 2];
    let x3 = b[off + 3];
    let x4 = b[off + 4];
    let x5 = b[off + 5];
    let x6 = b[off + 6];
    let x7 = b[off + 7];
    let r: u64 = (x0 as u64) | ((x1 as u64) << 8) | ((x2 as u64) << 16) | ((x3 as u64) << 24) | ((
    x4 as u64) << 32) | ((x5 as u64) << 40) | ((x6 as u64) << 48) | ((x7 as u64) << 56);
    proof {
        assert({
            &&& (r & 0xff) == x0
            &&& ((r >> 8) & 0xff) == x1
            &&& ((r >> 16) & 0xff) == x2
            &&& ((r >> 24) & 0xff) == x3
            &&& ((r >> 32) & 0xff) == x4
            &&& ((r >> 40) & 0xff) == x5
            &&& ((r >> 48) & 0xff) == x6
            &&& ((r >> 56) & 0xff) == x7
        }) by (bit_vector)
            requires
                r == (x0 as u64) | ((x1 as u64) << 8) | ((x2 as u64) << 16) | ((x3 as u64) << 24)
                    | ((x4 as u64) << 32) | ((x5 as u64) << 40) | ((x6 as u64) << 48) | ((
                x7 as u64) << 56),
        ;
        assert(u64_le(r) =~= b@.subrange(off as int, off + 8));
        lemma_le_val_u64_le(r);
    }
    r
}

/// Reads the eight bytes of `b` at `off` as a big-endian `u64`.
pub fn read_u64_be(b: &Vec<u8>, off: usize) -> (r: u64)
    requires
        off + 8 <= b@.len(),
    ensures
        r == be_val(b@.subrange(off as int, off + 8)),
{
    let n = b.len();
    let mut r: u64 = 0;
    let mut j: usize = 0;
    while j < 8
        invariant
            n == b@.len(),
            off + 8 <= n,
            0 <= j <= 8,
            r == be_val(b@.subrange(off as int, off + j)),
        decreases 8 - j,
    {
        proof {
            lemma_be_val_bound(b@.subrange(off as int, off + j));
            vstd::arithmetic::power2::lemma2_to64();
            vstd::arithmetic::power2::lemma2_to64_rest();
            assert(pow2(8 * j as nat) <= pow2(56)) by {
                if 8 * j < 56 {
                    vstd::arithmetic::power2::lemma_pow2_strictly_increases(8 * j as nat, 56);
                }
            }
            let t = b@.subrange(off as int, off + j + 1);
            assert(t.drop_last() =~= b@.subrange(off as int, off + j));
            assert(be_val(t) == 256 * be_val(t.drop_last()) + (t.last() as nat));
        }
        r = r * 256 + (b[off + j] as u64);
        j += 1;
    }
    assert(b@.subrange(off as int, off + 8) =~= b@.subrange(off as int, off + j));
    r
}

} // verus!
