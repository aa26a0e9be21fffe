//! Scalar sampling and conversion helpers.

use vstd::prelude::*;
use vstd::arithmetic::power2::{pow2, lemma2_to64, lemma_pow2_adds, lemma_pow2_strictly_increases};
use crate::bytes::{le_val, lemma_le_val_bound, lemma_le_val_split, read_u64_le};
use crate::group::{
    GroupPoint, GroupScalar, base_mul_enc, fill_random, group_order, lemma_group_order_above_u64,
    scalar_from_canonical_bytes, scalar_mul_base,
};
use crate::Error;

verus! {

/// A sequence of zero bytes has value zero.
proof fn lemma_le_val_zero(s: Seq<u8>)
    requires
        forall|j: int| 0 <= j < s.len() ==> s[j] == 0,
    ensures
        le_val(s) == 0,
    decreases s.len(),
{
    if s.len() > 0 {
        lemma_le_val_zero(s.drop_first());
    }
}

/// Generates a random scalar with the specified number of bits: uniform bytes
/// are drawn for the low `bits` positions and the rest of the encoding is
/// zero, so the value is below `2^bits`.
pub fn generate_random_scalar(bits: u8) -> (r: Result<GroupScalar, Error>)
    ensures
        r matches Ok(s) ==> bits <= 64 && s.wf() && s.value() < pow2(bits as nat),
        bits > 64 <==> (r matches Err(e) && e == Error::InvalidBitLength),
        r matches Err(e) ==> e == Error::InvalidBitLength || e == Error::RandomnessFailure,
{
    if bits > 64 {
        return Err(Error::InvalidBitLength);
    }
    let last_byte: usize = ((bits as usize) + 7) / 8;
    let rnd = match fill_random(last_byte) {
        Ok(v) => v,
        Err(e) => { return Err(e) },
    };
    let mut key: Vec<u8> = Vec::new();
    let ghost t: nat = (bits % 8) as nat;
    if last_byte > 0 {
        let mut j: usize = 0;
        while j + 1 < last_byte
            invariant
                rnd@.len() == last_byte,
                0 <= j < last_byte,
                key@ =~= rnd@.subrange(0, j as int),
            decreases last_byte - j,
        {
            key.push(rnd[j]);
            assert(key@ =~= rnd@.subrange(0, j + 1));
            j += 1;
        }
        let top = rnd[last_byte - 1];
        if bits % 8 != 0 {
            let tbits: u8 = bits % 8;
            proof {
                assert((1u8 << tbits) >= 1) by (bit_vector)
                    requires
                        tbits < 8,
                ;
            }
            let mask: u8 = (1u8 << tbits) - 1;
            let masked = top & mask;
            proof {
                assert(masked < (1u8 << tbits) && (1u8 << tbits) != 0) by (bit_vector)
                    requires
                        0 < tbits < 8 && masked == top & (((1u8 << tbits) - 1) as u8),
                ;
                vstd::bits::lemma_u8_pow2_no_overflow(t);
                vstd::bits::lemma_u8_shl_is_mul(1u8, tbits);
                assert(masked < pow2(t));
            }
            key.push(masked);
        } else {
            key.push(top);
        }
    }
    let ghost low = key@;
    while key.len() < 32
        invariant
            key@.len() >= low.len(),
            key@.len() <= 32,
            key@.subrange(0, low.len() as int) =~= low,
            forall|k: int| low.len() <= k < key@.len() ==> key@[k] == 0,
        decreases 32 - key@.len(),
    {
        key.push(0);
    }
    assert(key@.len() == 32);
    proof {
        lemma_le_val_split(key@, low.len() as int);
        assert(key@.subrange(low.len() as int, key@.len() as int) =~= key@.subrange(
            low.len() as int,
            32,
        ));
        assert(key@.subrange(0, low.len() as int) == low);
        lemma_le_val_zero(key@.subrange(low.len() as int, 32));
        assert(le_val(key@) == le_val(low));
        // the value of the low bytes is below 2^bits
        if bits == 0 {
            assert(low.len() == 0);
            assert(le_val(low) == 0);
            assert(pow2(0) == 1) by { lemma2_to64() };
        } else if bits % 8 == 0 {
            lemma_le_val_bound(low);
            assert(8 * low.len() == bits as nat);
        } else {
            let m = low.len() as int;
            lemma_le_val_split(low, m - 1);
            lemma_le_val_bound(low.subrange(0, m - 1));
            assert(low.subrange(m - 1, m).drop_first() =~= Seq::<u8>::empty());
            assert(le_val(Seq::<u8>::empty()) == 0);
            assert(le_val(low.subrange(m - 1, m)) == low[m - 1] as nat);
            assert(low[m - 1] < pow2(t));
            let p = pow2(8 * (m - 1) as nat);
            assert(le_val(low) == le_val(low.subrange(0, m - 1)) + p * le_val(
                low.subrange(m - 1, m),
            ));
            assert(le_val(low) < p + p * (pow2(t) - 1)) by (nonlinear_arith)
                requires
                    le_val(low) == le_val(low.subrange(0, m - 1)) + p * le_val(
                        low.subrange(m - 1, m),
                    ),
                    le_val(low.subrange(0, m - 1)) < p,
                    le_val(low.subrange(m - 1, m)) <= pow2(t) - 1,
                    p > 0,
            ;
            assert(p + p * (pow2(t) - 1) == p * pow2(t)) by (nonlinear_arith);
            lemma_pow2_adds(8 * (m - 1) as nat, t);
            assert(8 * (m - 1) + t == bits as nat);
        }
        assert(le_val(key@) < pow2(bits as nat));
        // below 2^bits means canonical
        if (bits as nat) < 64 {
            lemma_pow2_strictly_increases(bits as nat, 64);
        }
        lemma_group_order_above_u64();
        assert(le_val(key@) < group_order());
    }
    match scalar_from_canonical_bytes(&key) {
        Some(s) => Ok(s),
        None => Err(Error::RandomnessFailure),
    }
}

/// Converts a scalar to a `u64` by reading the low eight bytes of its
/// canonical encoding; for values below `2^64` this is the value itself.
pub fn scalar_to_u64(scalar: &GroupScalar) -> (r: u64)
    requires
        scalar.wf(),
    ensures
        r == le_val(scalar@.subrange(0, 8)),
        r == scalar.value() % pow2(64),
        scalar.value() < pow2(64) ==> r == scalar.value(),
{
    let r = read_u64_le(scalar.bytes(), 0);
    proof {
        lemma_le_val_split(scalar@, 8);
        assert(scalar@.subrange(8, scalar@.len() as int) =~= scalar@.subrange(8, 32));
        let hi = le_val(scalar@.subrange(8, 32));
        assert(scalar.value() == le_val(scalar@.subrange(0, 8)) + pow2(64) * hi);
        lemma_le_val_bound(scalar@.subrange(0, 8));
        vstd::arithmetic::power2::lemma_pow2_pos(64);
        assert(pow2(64) * hi == hi * pow2(64)) by (nonlinear_arith);
        vstd::arithmetic::div_mod::lemma_fundamental_div_mod_converse(
            scalar.value() as int,
            pow2(64) as int,
            hi as int,
            le_val(scalar@.subrange(0, 8)) as int,
        );
        if scalar.value() < pow2(64) {
            if hi > 0 {
                assert(pow2(64) * hi >= pow2(64)) by (nonlinear_arith)
                    requires
                        hi >= 1,
                        pow2(64) > 0,
                ;
                vstd::arithmetic::power2::lemma_pow2_pos(64);
                assert(false);
            }
            assert(hi == 0);
            assert(pow2(64) * hi == 0) by (nonlinear_arith)
                requires
                    hi == 0,
            ;
        }
    }
    r
}

/// Builds the scalar whose value is `value`: the inverse of
/// [`scalar_to_u64`] on values below `2^64`.
pub fn scalar_from_u64(value: u64) -> (r: GroupScalar)
    ensures
        r.wf(),
        r.value() == value,
{
    let mut key: Vec<u8> = Vec::new();
    crate::bytes::push_u64_le(&mut key, value);
    let ghost low = key@;
    while key.len() < 32
        invariant
            key@.len() >= low.len(),
            key@.len() <= 32,
            low.len() == 8,
            key@.subrange(0, 8) =~= low,
            forall|k: int| low.len() <= k < key@.len() ==> key@[k] == 0,
        decreases 32 - key@.len(),
    {
        key.push(0);
    }
    proof {
        crate::bytes::lemma_le_val_u64_le(value);
        lemma_le_val_split(key@, 8);
        assert(key@.subrange(8, key@.len() as int) =~= key@.subrange(8, 32));
        lemma_le_val_zero(key@.subrange(8, 32));
        assert(le_val(key@) == le_val(low));
        lemma_group_order_above_u64();
        vstd::arithmetic::power2::lemma2_to64();
        assert(le_val(key@) < group_order());
    }
    match scalar_from_canonical_bytes(&key) {
        Some(s) => s,
        None => unreached(),
    }
}

/// The public point of a secret: the secret times the base point.
pub fn public_key(secret: &GroupScalar) -> (r: GroupPoint)
    requires
        secret.wf(),
    ensures
        r.wf(),
        r@ == base_mul_enc(secret.value()),
{
    scalar_mul_base(secret)
}

/// Generates a random scalar of `bits` bits and its corresponding public
/// point, `scalar` times the base point.
pub fn generate_keypair(bits: u8) -> (r: Result<(GroupScalar, GroupPoint), Error>)
    ensures
        r matches Ok(kp) ==> bits <= 64 && kp.0.wf() && kp.1.wf() && kp.0.value() < pow2(
            bits as nat,
        ) && kp.1@ == base_mul_enc(kp.0.value()),
        bits > 64 <==> (r matches Err(e) && e == Error::InvalidBitLength),
        r matches Err(e) ==> e == Error::InvalidBitLength || e == Error::RandomnessFailure,
{
    let sk = generate_random_scalar(bits)?;
    let pk = scalar_mul_base(&sk);
    Ok((sk, pk))
}

} // verus!
