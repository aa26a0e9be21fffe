//! The boundary to the Ristretto group arithmetic of `curve25519_dalek_ng`.
//!
//! The library models a group element by its canonical compressed encoding
//! (32 bytes) and a scalar by its canonical little-endian encoding (32 bytes,
//! value below the group order). Everything the kangaroo logic reads — index
//! bits, distinguished-point bits, table keys — is a function of those plain
//! bytes, so all of it is verified; only the group operations themselves are
//! trusted, each behind one wrapper whose contract states what the outside
//! crate's source documents.

use vstd::prelude::*;
use crate::bytes::le_val;
use crate::Error;

verus! {

#[verifier::external_type_specification]
#[verifier::external_body]
pub struct ExRistrettoPoint(curve25519_dalek_ng::ristretto::RistrettoPoint);

#[verifier::external_type_specification]
#[verifier::external_body]
pub struct ExDalekScalar(curve25519_dalek_ng::scalar::Scalar);

#[verifier::external_type_specification]
#[verifier::external_body]
pub struct ExInstant(web_time::Instant);

/// The order of the Ristretto group (and of its base point):
/// 2^252 + 27742317777372353535851937790883648493.
pub open spec fn group_order() -> nat {
    vstd::arithmetic::power2::pow2(252) + 0x14def9dea2f79cd65812631a5cf5d3ed
}

/// Whether `enc` is the canonical compressed encoding of some group element;
/// names the outcome of `CompressedRistretto::decompress`, which succeeds
/// exactly on canonical encodings.
pub uninterp spec fn is_point_encoding(enc: Seq<u8>) -> bool;

/// The canonical encoding of the sum of the group elements encoded by `a` and
/// `b`; names the result of `RistrettoPoint` addition followed by compression.
pub uninterp spec fn point_add_enc(a: Seq<u8>, b: Seq<u8>) -> Seq<u8>;

/// The canonical encoding of `k` times the Ristretto base point; names the
/// result of fixed-base scalar multiplication followed by compression.
pub uninterp spec fn base_mul_enc(k: nat) -> Seq<u8>;

/// A scalar modulo the group order, held together with its canonical
/// little-endian byte encoding. The `raw` field is always the scalar whose
/// canonical encoding (`to_bytes`) is `bytes`; every constructor below
/// establishes that and no other code touches the fields.
pub struct GroupScalar {
    raw: curve25519_dalek_ng::scalar::Scalar,
    bytes: Vec<u8>,
}

impl View for GroupScalar {
    type V = Seq<u8>;

    closed spec fn view(&self) -> Seq<u8> {
        self.bytes@
    }
}

impl GroupScalar {
    /// A valid scalar: 32 canonical bytes encoding a value below the group order.
    pub open spec fn wf(self) -> bool {
        self@.len() == 32 && le_val(self@) < group_order()
    }

    /// The numeric value of the scalar.
    pub open spec fn value(self) -> nat {
        le_val(self@)
    }

    /// The canonical little-endian encoding of the scalar.
    pub fn bytes(&self) -> (r: &Vec<u8>)
        ensures
            r@ == self@,
    {
        &self.bytes
    }
}

/// A group element, held together with its canonical compressed encoding.
/// The `raw` field always is a representative of the group element that
/// `enc` encodes; every constructor below establishes that and no other
/// code touches the fields.
pub struct GroupPoint {
    raw: curve25519_dalek_ng::ristretto::RistrettoPoint,
    enc: Vec<u8>,
}

impl View for GroupPoint {
    type V = Seq<u8>;

    closed spec fn view(&self) -> Seq<u8> {
        self.enc@
    }
}

impl GroupPoint {
    /// A valid group element: 32 bytes forming a canonical encoding.
    pub open spec fn wf(self) -> bool {
        self@.len() == 32 && is_point_encoding(self@)
    }

    /// The canonical compressed encoding of the element.
    pub fn encoding(&self) -> (r: &Vec<u8>)
        ensures
            r@ == self@,
    {
        &self.enc
    }
}

/// Relies on `Scalar::from_canonical_bytes`: it returns `Some` exactly when
/// the bytes are a canonical encoding (value below the group order), and the
/// scalar it returns encodes back to those same bytes.
#[verifier::external_body]
pub(crate) fn scalar_from_canonical_bytes(b: &Vec<u8>) -> (r: Option<GroupScalar>)
    requires
        b@.len() == 32,
    ensures
        r is Some <==> le_val(b@) < group_order(),
        r matches Some(s) ==> s@ == b@,
{
    let mut arr = [0u8; 32];
    arr.copy_from_slice(b.as_slice());
    match curve25519_dalek_ng::scalar::Scalar::from_canonical_bytes(arr) {
        Some(raw) => Some(GroupScalar { raw, bytes: raw.to_bytes().to_vec() }),
        None => None,
    }
}

/// Relies on `Scalar` addition: the sum of two scalars reduced modulo the
/// group order, returned in canonical form.
#[verifier::external_body]
pub(crate) fn scalar_add(a: &GroupScalar, b: &GroupScalar) -> (r: GroupScalar)
    requires
        a.wf(),
        b.wf(),
    ensures
        r.wf(),
        r.value() == (a.value() + b.value()) % group_order(),
{
    let raw = a.raw + b.raw;
    GroupScalar { raw, bytes: raw.to_bytes().to_vec() }
}

/// Relies on `Scalar` subtraction: the difference of two scalars reduced
/// modulo the group order, returned in canonical form.
#[verifier::external_body]
pub(crate) fn scalar_sub(a: &GroupScalar, b: &GroupScalar) -> (r: GroupScalar)
    requires
        a.wf(),
        b.wf(),
    ensures
        r.wf(),
        r.value() == ((a.value() + group_order() - b.value()) as nat) % group_order(),
{
    let raw = a.raw - b.raw;
    GroupScalar { raw, bytes: raw.to_bytes().to_vec() }
}

/// Relies on fixed-base multiplication by `RISTRETTO_BASEPOINT_TABLE` and on
/// `RistrettoPoint::compress` giving the canonical encoding: the result is
/// the encoding of `value` times the base point.
#[verifier::external_body]
pub(crate) fn scalar_mul_base(k: &GroupScalar) -> (r: GroupPoint)
    requires
        k.wf(),
    ensures
        r.wf(),
        r@ == base_mul_enc(k.value()),
{
    let raw = &curve25519_dalek_ng::constants::RISTRETTO_BASEPOINT_TABLE * &k.raw;
    let enc = raw.compress().to_bytes().to_vec();
    GroupPoint { raw, enc }
}

/// Relies on `RistrettoPoint` addition being the group law and on compression
/// being canonical per group element: the sum's encoding is a function of the
/// operands' encodings, and adding two multiples of the base point gives the
/// multiple by the sum of the exponents modulo the group order.
#[verifier::external_body]
pub(crate) fn point_add(a: &GroupPoint, b: &GroupPoint) -> (r: GroupPoint)
    requires
        a.wf(),
        b.wf(),
    ensures
        r.wf(),
        r@ == point_add_enc(a@, b@),
        forall|x: nat, y: nat|
            a@ == #[trigger] base_mul_enc(x) && b@ == #[trigger] base_mul_enc(y) && x
                < group_order() && y < group_order() ==> r@ == base_mul_enc(
                (x + y) % group_order(),
            ),
{
    let raw = a.raw + b.raw;
    let enc = raw.compress().to_bytes().to_vec();
    GroupPoint { raw, enc }
}

/// Relies on `RistrettoPoint::identity` being the neutral element, which is
/// zero times the base point, and on compression being canonical.
#[verifier::external_body]
pub(crate) fn identity_point() -> (r: GroupPoint)
    ensures
        r.wf(),
        r@ == base_mul_enc(0),
{
    let raw = curve25519_dalek_ng::traits::Identity::identity();
    let enc = curve25519_dalek_ng::ristretto::RistrettoPoint::compress(&raw).to_bytes().to_vec();
    GroupPoint { raw, enc }
}

/// Relies on `CompressedRistretto::decompress`: it returns `Some` exactly
/// when the bytes are the canonical encoding of a group element.
#[verifier::external_body]
pub(crate) fn point_from_bytes(b: &Vec<u8>) -> (r: Option<GroupPoint>)
    requires
        b@.len() == 32,
    ensures
        r is Some <==> is_point_encoding(b@),
        r matches Some(p) ==> p@ == b@ && p.wf(),
{
    let compressed = curve25519_dalek_ng::ristretto::CompressedRistretto::from_slice(b.as_slice());
    match compressed.decompress() {
        Some(raw) => Some(GroupPoint { raw, enc: b.clone() }),
        None => None,
    }
}

/// Relies on `OsRng::try_fill_bytes`: on success the buffer is filled with
/// `n` bytes from the operating system's entropy source. Nothing is assumed
/// about the bytes themselves.
#[verifier::external_body]
pub(crate) fn fill_random(n: usize) -> (r: Result<Vec<u8>, Error>)
    ensures
        r matches Ok(v) ==> v@.len() == n,
        r matches Err(e) ==> e == Error::RandomnessFailure,
{
    let mut buf = vec![0u8; n];
    match rand_core::RngCore::try_fill_bytes(&mut rand_core::OsRng, buf.as_mut_slice()) {
        Ok(()) => Ok(buf),
        Err(_) => Err(Error::RandomnessFailure),
    }
}

/// Relies on `Instant::now` for a monotonic clock reading; no property of the
/// reading is assumed.
#[verifier::external_body]
pub(crate) fn instant_now() -> web_time::Instant {
    web_time::Instant::now()
}

/// Relies on `Instant::elapsed`; the duration is handed back as whole
/// milliseconds, and nothing is assumed about its size.
#[verifier::external_body]
pub(crate) fn elapsed_millis(start: &web_time::Instant) -> u128 {
    start.elapsed().as_millis()
}

/// The group order is far above any 64-bit value.
pub proof fn lemma_group_order_above_u64()
    ensures
        vstd::arithmetic::power2::pow2(64) < group_order(),
{
    vstd::arithmetic::power2::lemma_pow2_strictly_increases(64, 252);
}

} // verus!
