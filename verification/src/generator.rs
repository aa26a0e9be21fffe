//! Table generation: independent tame walks from known discrete logs, each
//! recorded when it reaches a distinguished point.

use vstd::prelude::*;
use vstd::arithmetic::power2::pow2;
use crate::bytes::copy_bytes;
use crate::group::{base_mul_enc, point_add, scalar_mul_base, GroupPoint, GroupScalar};
use crate::kangaroo::{
    hash, is_distinguished, spec_is_distinguished, table_find_index, Parameters, Table, TableEntry,
};
use crate::utils::generate_random_scalar;
use crate::Error;

verus! {

/// The floor of the base-two logarithm.
pub open spec fn log2_nat(x: nat) -> nat
    decreases x,
{
    if x <= 1 {
        0
    } else {
        1 + log2_nat(x / 2)
    }
}

/// The number of bits of a jump log: the floor logarithm of
/// `2^(secret_size - 2) / W`, tying the average jump to the expected search
/// distance divided by the distinguished-point density.
pub open spec fn jump_exponent(parameters: Parameters) -> nat
    recommends
        parameters.wf(),
{
    log2_nat(pow2((parameters.secret_size - 2) as nat) / parameters.W as nat)
}

/// Computes the floor of the base-two logarithm of `x`.
fn floor_log2(x: u64) -> (r: u8)
    requires
        x >= 1,
    ensures
        r == log2_nat(x as nat),
        r <= 63,
{
    let mut v = x;
    let mut r: u8 = 0;
    proof {
        vstd::arithmetic::power2::lemma2_to64();
        assert(pow2(0) * x == x) by (nonlinear_arith)
            requires
                pow2(0) == 1,
        ;
    }
    while v > 1
        invariant
            v >= 1,
            log2_nat(x as nat) == r + log2_nat(v as nat),
            pow2(r as nat) * v <= x,
        decreases v,
    {
        proof {
            vstd::arithmetic::power2::lemma_pow2_pos(r as nat);
            vstd::arithmetic::power2::lemma_pow2_unfold((r + 1) as nat);
            assert(log2_nat(v as nat) == 1 + log2_nat((v / 2) as nat));
            assert(pow2((r + 1) as nat) * (v / 2) as nat <= pow2(r as nat) * v as nat)
                by (nonlinear_arith)
                requires
                    pow2((r + 1) as nat) == 2 * pow2(r as nat),
                    v >= 1,
            ;
            assert(r < 64) by {
                assert(pow2(r as nat) <= x as nat) by (nonlinear_arith)
                    requires
                        pow2(r as nat) * v <= x,
                        v >= 1,
                        pow2(r as nat) > 0,
                ;
                vstd::arithmetic::power2::lemma2_to64();
                if r >= 64 {
                    vstd::arithmetic::power2::lemma_pow2_strictly_increases(64, r as nat);
                    assert(false);
                }
            }
        }
        v = v / 2;
        r = r + 1;
    }
    proof {
        vstd::arithmetic::power2::lemma_pow2_pos(r as nat);
        assert(pow2(r as nat) * 1 == pow2(r as nat)) by (nonlinear_arith);
        vstd::arithmetic::power2::lemma2_to64();
        if r == 64 {
            assert(false);
        }
        if r > 64 {
            vstd::arithmetic::power2::lemma_pow2_strictly_increases(64, r as nat);
            assert(false);
        }
    }
    r
}

/// The jump vectors of `parameters`: pairs of a jump log, uniform below
/// `2^jump_exponent`, and the jump point it generates.
fn s_values_init(parameters: &Parameters) -> (r: Result<(Vec<GroupScalar>, Vec<GroupPoint>), Error>)
    requires
        parameters.wf(),
    ensures
        r matches Ok(v) ==> ({
            &&& v.0@.len() == parameters.R
            &&& v.1@.len() == parameters.R
            &&& forall|j: int|
                0 <= j < v.0@.len() ==> (#[trigger] v.0@[j]).wf() && v.0@[j].value() < pow2(
                    jump_exponent(*parameters),
                )
            &&& forall|j: int|
                0 <= j < v.1@.len() ==> (#[trigger] v.1@[j]).wf() && v.1@[j]@ == base_mul_enc(
                    v.0@[j].value(),
                )
        }),
        r matches Err(e) ==> e == Error::RandomnessFailure,
{
    let shift: u64 = (parameters.secret_size - 2) as u64;
    let cap: u64 = 1u64 << shift;
    proof {
        vstd::bits::lemma_u64_pow2_no_overflow(shift as nat);
        vstd::bits::lemma_u64_shl_is_mul(1u64, shift);
        assert(cap == pow2(shift as nat));
        vstd::arithmetic::div_mod::lemma_div_is_ordered(
            2 * parameters.W as int,
            cap as int,
            parameters.W as int,
        );
        vstd::arithmetic::div_mod::lemma_div_multiples_vanish(2, parameters.W as int);
        assert(cap / parameters.W >= 2);
    }
    let q: u64 = cap / parameters.W;
    let slog_size = floor_log2(q);
    let mut scalars: Vec<GroupScalar> = Vec::new();
    let mut points: Vec<GroupPoint> = Vec::new();
    let mut built: u64 = 0;
    while built < parameters.R
        invariant
            parameters.wf(),
            slog_size == jump_exponent(*parameters),
            slog_size <= 63,
            0 <= built <= parameters.R,
            scalars@.len() == built,
            points@.len() == built,
            forall|j: int|
                0 <= j < scalars@.len() ==> (#[trigger] scalars@[j]).wf() && scalars@[j].value()
                    < pow2(jump_exponent(*parameters)),
            forall|j: int|
                0 <= j < points@.len() ==> (#[trigger] points@[j]).wf() && points@[j]@
                    == base_mul_enc(scalars@[j].value()),
        decreases parameters.R - built,
    {
        let slog = match generate_random_scalar(slog_size) {
            Ok(s) => s,
            Err(_) => { return Err(Error::RandomnessFailure) },
        };
        let s = scalar_mul_base(&slog);
        scalars.push(slog);
        points.push(s);
        built = built + 1;
    }
    Ok((scalars, points))
}

/// One tame walk: starts from a fresh random log of `secret_size` bits and
/// jumps until it reaches a distinguished point (handed back with its log) or
/// exhausts its `i * W` step budget (handed back as `None`).
fn tame_walk(parameters: &Parameters, slog: &Vec<GroupScalar>, s: &Vec<GroupPoint>) -> (r: Result<
    Option<TableEntry>,
    Error,
>)
    requires
        parameters.wf(),
        slog@.len() == parameters.R,
        s@.len() == parameters.R,
        forall|j: int| 0 <= j < slog@.len() ==> (#[trigger] slog@[j]).wf(),
        forall|j: int|
            0 <= j < s@.len() ==> (#[trigger] s@[j]).wf() && s@[j]@ == base_mul_enc(
                slog@[j].value(),
            ),
    ensures
        r matches Ok(Some(e)) ==> e.wf() && e.point@ == base_mul_enc(e.log.value())
            && spec_is_distinguished(e.point@, parameters.W),
        r matches Err(e) ==> e == Error::RandomnessFailure,
{
    let wlog0 = match generate_random_scalar(parameters.secret_size) {
        Ok(x) => x,
        Err(_) => { return Err(Error::RandomnessFailure) },
    };
    let mut wlog = wlog0;
    let mut w = scalar_mul_base(&wlog);
    let iw: u64 = parameters.i * parameters.W;
    let mut step: u64 = 0;
    while step < iw
        invariant
            parameters.wf(),
            slog@.len() == parameters.R,
            s@.len() == parameters.R,
            forall|j: int| 0 <= j < slog@.len() ==> (#[trigger] slog@[j]).wf(),
            forall|j: int|
                0 <= j < s@.len() ==> (#[trigger] s@[j]).wf() && s@[j]@ == base_mul_enc(
                    slog@[j].value(),
                ),
            wlog.wf(),
            w.wf(),
            w@ == base_mul_enc(wlog.value()),
        decreases iw - step,
    {
        if is_distinguished(w.encoding(), parameters) {
            let point = copy_bytes(w.encoding());
            return Ok(Some(TableEntry { point, log: wlog }));
        }
        let h = hash(w.encoding(), parameters);
        let hi = h as usize;
        wlog = crate::group::scalar_add(&wlog, &slog[hi]);
        w = point_add(&w, &s[hi]);
        step = step + 1;
    }
    Ok(None)
}

impl Table {
    /// Builds the table for `parameters`: jump vectors first, then tame walks
    /// until the distinguished map holds `N` records. Every record carries a
    /// true discrete log of its distinguished point, and no point is recorded
    /// twice (a duplicate overwrites the earlier record, as discrete-log
    /// uniqueness makes the two logs interchangeable).
    pub fn generate(parameters: &Parameters) -> (r: Result<Table, Error>)
        ensures
            r matches Ok(t) ==> parameters.wf() && t.wf(*parameters) && t.table@.len()
                == parameters.N && t.jumps_consistent() && t.entries_consistent()
                && t.entries_distinguished(*parameters) && t.keys_unique() && (forall|j: int|
                0 <= j < t.slog@.len() ==> (#[trigger] t.slog@[j]).value() < pow2(
                    jump_exponent(*parameters),
                )),
            !parameters.wf() <==> (r matches Err(e) && e == Error::InvalidParameters),
            r matches Err(e) ==> e == Error::InvalidParameters || e == Error::RandomnessFailure,
    {
        if !parameters.is_valid() {
            return Err(Error::InvalidParameters);
        }
        let (slog, s) = match s_values_init(parameters) {
            Ok(v) => v,
            Err(_) => { return Err(Error::RandomnessFailure) },
        };
        let mut table: Vec<TableEntry> = Vec::new();
        // Walks keep starting until the map reaches N records. A counter
        // bounds them at 2^64 - 1, which no feasible run exhausts; an
        // exhausted counter is reported as the entropy source failing to
        // drive the walks anywhere.
        let mut attempts: u64 = u64::MAX;
        while (table.len() as u64) < parameters.N
            invariant
                parameters.wf(),
                slog@.len() == parameters.R,
                s@.len() == parameters.R,
                forall|j: int| 0 <= j < slog@.len() ==> (#[trigger] slog@[j]).wf(),
                forall|j: int|
                    0 <= j < s@.len() ==> (#[trigger] s@[j]).wf() && s@[j]@ == base_mul_enc(
                        slog@[j].value(),
                    ),
                table@.len() <= parameters.N,
                forall|j: int|
                    0 <= j < table@.len() ==> (#[trigger] table@[j]).wf() && table@[j].point@
                        == base_mul_enc(table@[j].log.value()) && spec_is_distinguished(
                        table@[j].point@,
                        parameters.W,
                    ),
                forall|j: int, k: int|
                    0 <= j < k < table@.len() ==> (#[trigger] table@[j]).point@ != (
                    #[trigger] table@[k]).point@,
            decreases attempts,
        {
            if attempts == 0 {
                return Err(Error::RandomnessFailure);
            }
            attempts = attempts - 1;
            let entry = match tame_walk(parameters, &slog, &s) {
                Ok(e) => e,
                Err(_) => { return Err(Error::RandomnessFailure) },
            };
            match entry {
                Some(entry) => {
                    let ghost pre = table@;
                    match table_find_index(&table, &entry.point) {
                        Some(j) => {
                            let _ = table.remove(j);
                            table.push(entry);
                            proof {
                                let post = table@;
                                assert(post.len() == pre.len());
                                assert(forall|k: int|
                                    0 <= k < pre.len() - 1 ==> post[k] == if k < j {
                                        pre[k]
                                    } else {
                                        pre[k + 1]
                                    });
                            }
                        },
                        None => {
                            table.push(entry);
                        },
                    }
                },
                None => {},
            }
        }
        Ok(Table { s, slog, table })
    }
}

} // verus!
