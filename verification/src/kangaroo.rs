//! The kangaroo state: tuning parameters, the jump table, the distinguished
//! point map, and the pure helpers both phases share.

#![allow(non_snake_case)]

use vstd::prelude::*;
use vstd::arithmetic::power2::pow2;
use crate::bytes::{be_val, read_u64_be, bytes_eq, lemma_be_val_bound};
use crate::group::{GroupPoint, GroupScalar, base_mul_enc};
use crate::Error;

verus! {

/// Whether `x` is a power of two, written the way the helpers test it.
pub open spec fn is_power_of_two(x: u64) -> bool {
    x != 0 && (x & ((x - 1) as u64)) == 0
}

/// Defines constants based on which the algorithm runs.
#[derive(Clone, Copy, Debug, PartialEq, Eq, Structural)]
pub struct Parameters {
    /// Coefficient to increase the `W` constant: each walk runs at most
    /// `i * W` steps before it is discarded.
    pub i: u64,
    /// Distinguished-point density: one point in `W` is distinguished.
    pub W: u64,
    /// Size of the generated table.
    pub N: u64,
    /// Number of jump functions, and so of elements in the `s` and `slog`
    /// vectors of the [`Table`] structure.
    pub R: u64,
    /// Size in bits of a secret to look for.
    pub secret_size: u8,
}

impl Parameters {
    /// A valid parameter set: `secret_size` in `[8, 64]`, `W` and `R` powers
    /// of two, a positive walk bound `i * W` that fits in 64 bits, and a jump
    /// magnitude exponent of at least one (`2 * W <= 2^(secret_size - 2)`).
    pub open spec fn wf(self) -> bool {
        &&& 8 <= self.secret_size <= 64
        &&& is_power_of_two(self.W)
        &&& is_power_of_two(self.R)
        &&& self.i >= 1
        &&& self.i * self.W <= u64::MAX
        &&& 2 * self.W <= pow2((self.secret_size - 2) as nat)
    }

    /// Decides validity, exactly as [`Parameters::wf`] states it.
    pub fn is_valid(&self) -> (r: bool)
        ensures
            r == self.wf(),
    {
        if self.secret_size < 8 || self.secret_size > 64 {
            return false;
        }
        if self.W == 0 || (self.W & (self.W - 1)) != 0 {
            return false;
        }
        if self.R == 0 || (self.R & (self.R - 1)) != 0 {
            return false;
        }
        if self.i == 0 {
            return false;
        }
        if self.i.checked_mul(self.W).is_none() {
            return false;
        }
        let shift: u64 = (self.secret_size - 2) as u64;
        let cap: u64 = 1u64 << shift;
        proof {
            vstd::bits::lemma_u64_pow2_no_overflow(shift as nat);
            vstd::bits::lemma_u64_shl_is_mul(1u64, shift);
            vstd::arithmetic::power2::lemma_pow2_unfold(shift as nat);
            assert(cap == pow2(shift as nat));
            assert(cap == 2 * pow2((shift - 1) as nat));
        }
        if self.W > cap / 2 {
            proof {
                assert(cap / 2 == pow2((shift - 1) as nat));
                assert(2 * self.W > pow2(shift as nat));
            }
            return false;
        }
        proof {
            assert(cap / 2 == pow2((shift - 1) as nat));
            assert(2 * self.W <= pow2(shift as nat));
        }
        true
    }
}

/// The low eight bytes of a compressed point encoding, read big-endian; the
/// sole quantity the distinguished-point and index helpers look at.
pub open spec fn spec_last_u64(enc: Seq<u8>) -> u64 {
    be_val(enc.subrange(24, 32)) as u64
}

/// Whether the point encoded by `enc` is distinguished: its low eight bytes
/// vanish on the low bits selected by `w - 1`, picking one point in `w`.
pub open spec fn spec_is_distinguished(enc: Seq<u8>, w: u64) -> bool
    recommends
        w >= 1,
{
    (spec_last_u64(enc) & ((w - 1) as u64)) == 0
}

/// The jump index the point encoded by `enc` selects: its low eight bytes
/// masked down to one of `r_count` values.
pub open spec fn spec_hash(enc: Seq<u8>, r_count: u64) -> u64
    recommends
        r_count >= 1,
{
    spec_last_u64(enc) & ((r_count - 1) as u64)
}

/// Reads the low eight bytes of a compressed point encoding, big-endian.
pub fn get_last_point_bytes(compressed_point: &Vec<u8>) -> (r: u64)
    requires
        compressed_point@.len() == 32,
    ensures
        r == spec_last_u64(compressed_point@),
{
    let r = read_u64_be(compressed_point, 24);
    proof {
        lemma_be_val_bound(compressed_point@.subrange(24, 32));
        vstd::arithmetic::power2::lemma2_to64();
    }
    r
}

/// Tests whether a compressed point is distinguished; a pure function of the
/// point bytes and `W`, shared by the build and solve phases.
pub fn is_distinguished(compressed_point: &Vec<u8>, parameters: &Parameters) -> (r: bool)
    requires
        compressed_point@.len() == 32,
        parameters.wf(),
    ensures
        r == spec_is_distinguished(compressed_point@, parameters.W),
{
    let point_bytes = get_last_point_bytes(compressed_point);
    (point_bytes & (parameters.W - 1)) == 0
}

/// Selects the jump function a point applies at this step; a pure function of
/// the point bytes and `R`, shared by the build and solve phases.
///
/// Note: it does not perform hashing. However, in the original reference
/// implementation authors (Daniel J. Bernstein and Tanja Lange) use exactly
/// the same name.
pub fn hash(compressed_point: &Vec<u8>, parameters: &Parameters) -> (h: u64)
    requires
        compressed_point@.len() == 32,
        parameters.wf(),
    ensures
        h == spec_hash(compressed_point@, parameters.R),
        h < parameters.R,
{
    let point_bytes = get_last_point_bytes(compressed_point);
    let h = point_bytes & (parameters.R - 1);
    proof {
        let r_count = parameters.R;
        assert(r_count >= 1 ==> (point_bytes & ((r_count - 1) as u64)) <= ((r_count - 1) as u64))
            by (bit_vector);
    }
    h
}

/// One record of the distinguished map: a distinguished point's compressed
/// encoding and a discrete log of it.
pub struct TableEntry {
    /// The compressed encoding of the distinguished point.
    pub point: Vec<u8>,
    /// The discrete log recorded for that point.
    pub log: GroupScalar,
}

impl TableEntry {
    pub open spec fn wf(self) -> bool {
        self.point@.len() == 32 && self.log.wf()
    }
}

/// Defines generated table values.
pub struct Table {
    /// The jump points: element `j` is `slog[j]` times the base point, used
    /// to advance a walk.
    pub s: Vec<GroupPoint>,
    /// The jump logs: the discrete logs of the `s` elements.
    pub slog: Vec<GroupScalar>,
    /// The distinguished map: distinguished compressed points, each with a
    /// discrete log. Keys are unique; [`Table::generate`] fills it.
    pub table: Vec<TableEntry>,
}

impl Table {
    /// Structural validity against a parameter set: `R` jump pairs, every
    /// scalar canonical, every point encoding canonical, every map record 32
    /// bytes of key with a canonical scalar.
    pub open spec fn wf(self, parameters: Parameters) -> bool {
        &&& self.s@.len() == parameters.R
        &&& self.slog@.len() == parameters.R
        &&& forall|j: int| 0 <= j < self.s@.len() ==> (#[trigger] self.s@[j]).wf()
        &&& forall|j: int| 0 <= j < self.slog@.len() ==> (#[trigger] self.slog@[j]).wf()
        &&& forall|j: int| 0 <= j < self.table@.len() ==> (#[trigger] self.table@[j]).wf()
    }

    /// Every jump point is its jump log times the base point.
    pub open spec fn jumps_consistent(self) -> bool {
        forall|j: int|
            0 <= j < self.s@.len() ==> (#[trigger] self.s@[j])@ == base_mul_enc(
                self.slog@[j].value(),
            )
    }

    /// Every map record holds a true discrete log of its point: the tame-walk
    /// law that table generation establishes.
    pub open spec fn entries_consistent(self) -> bool {
        forall|j: int|
            0 <= j < self.table@.len() ==> (#[trigger] self.table@[j]).point@ == base_mul_enc(
                self.table@[j].log.value(),
            )
    }

    /// Every map record's point is distinguished.
    pub open spec fn entries_distinguished(self, parameters: Parameters) -> bool {
        forall|j: int|
            0 <= j < self.table@.len() ==> spec_is_distinguished(
                (#[trigger] self.table@[j]).point@,
                parameters.W,
            )
    }

    /// No two map records share a point.
    pub open spec fn keys_unique(self) -> bool {
        forall|j: int, k: int|
            0 <= j < k < self.table@.len() ==> (#[trigger] self.table@[j]).point@ != (
            #[trigger] self.table@[k]).point@
    }
}

/// Finds the position of `key` in the distinguished map, if it is there.
pub fn table_find_index(entries: &Vec<TableEntry>, key: &Vec<u8>) -> (r: Option<usize>)
    ensures
        match r {
            Some(j) => j < entries@.len() && entries@[j as int].point@ == key@,
            None => forall|j: int| 0 <= j < entries@.len() ==> (#[trigger] entries@[j]).point@ != key@,
        },
{
    let n = entries.len();
    let mut j: usize = 0;
    while j < n
        invariant
            n == entries@.len(),
            0 <= j <= n,
            forall|k: int| 0 <= k < j ==> (#[trigger] entries@[k]).point@ != key@,
        decreases n - j,
    {
        if bytes_eq(&entries[j].point, key) {
            return Some(j);
        }
        j += 1;
    }
    None
}

/// Looks `key` up in the distinguished map and hands back its recorded log.
pub fn table_lookup<'a>(entries: &'a Vec<TableEntry>, key: &Vec<u8>) -> (r: Option<&'a GroupScalar>)
    ensures
        match r {
            Some(v) => exists|j: int|
                0 <= j < entries@.len() && (#[trigger] entries@[j]).point@ == key@
                    && entries@[j].log == *v,
            None => forall|j: int| 0 <= j < entries@.len() ==> (#[trigger] entries@[j]).point@ != key@,
        },
{
    match table_find_index(entries, key) {
        Some(j) => Some(&entries[j].log),
        None => None,
    }
}

/// The aggregate the solver queries: a parameter set and the table built (or
/// loaded) for it.
pub struct Kangaroo {
    pub parameters: Parameters,
    pub table: Table,
}

impl Kangaroo {
    /// A valid aggregate: valid parameters and a structurally valid table.
    pub open spec fn wf(self) -> bool {
        self.parameters.wf() && self.table.wf(self.parameters)
    }

    /// Builds a [`Kangaroo`] by generating a fresh table for `parameters`.
    pub fn from_parameters(parameters: Parameters) -> (r: Result<Kangaroo, Error>)
        ensures
            r matches Ok(k) ==> k.wf() && k.parameters == parameters && k.table.table@.len()
                == parameters.N && k.table.jumps_consistent() && k.table.entries_consistent()
                && k.table.entries_distinguished(parameters) && k.table.keys_unique() && (
            forall|j: int|
                0 <= j < k.table.slog@.len() ==> (#[trigger] k.table.slog@[j]).value() < pow2(
                    crate::generator::jump_exponent(parameters),
                )),
            !parameters.wf() <==> (r matches Err(e) && e == Error::InvalidParameters),
            r matches Err(e) ==> e == Error::InvalidParameters || e == Error::RandomnessFailure,
    {
        let table = Table::generate(&parameters)?;
        Ok(Kangaroo { parameters, table })
    }
}

} // verus!
