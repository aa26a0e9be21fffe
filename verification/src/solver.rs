//! The solver: wild walks from the target point, watched for collisions with
//! the precomputed distinguished map.

use vstd::prelude::*;
use vstd::arithmetic::power2::pow2;
use crate::bytes::bytes_eq;
use crate::group::{
    base_mul_enc, elapsed_millis, group_order, identity_point, instant_now, point_add,
    scalar_mul_base, scalar_sub, GroupPoint,
};
use crate::kangaroo::{hash, is_distinguished, table_lookup, Kangaroo};
use crate::utils::{generate_random_scalar, scalar_to_u64};
use crate::Error;

verus! {

/// Whether `k` is the low 64 bits of a discrete log of the point encoded by
/// `pk_enc`: some scalar value maps to that point under the base point, and
/// `k` is that value reduced modulo `2^64`. For secrets below `2^64` — the
/// only ones this library searches for — the value and `k` coincide.
pub open spec fn is_dlog64(k: u64, pk_enc: Seq<u8>) -> bool {
    exists|s: nat|
        s < group_order() && #[trigger] base_mul_enc(s) == pk_enc && k == s % pow2(64)
}

impl Kangaroo {
    /// Searches for the discrete log of `pk`, walking until a distinguished
    /// point collides with the table, the time budget `max_time` (in
    /// milliseconds) runs out (`Ok(None)`), or — without a budget — for as
    /// long as it takes. Every secret handed back is verified against `pk`
    /// before it is returned; a colliding table record whose log does not
    /// verify only restarts the walk. The identity point is answered with
    /// `Some(0)` at once.
    pub fn solve_dlp(&self, pk: &GroupPoint, max_time: Option<u64>) -> (r: Result<
        Option<u64>,
        Error,
    >)
        requires
            self.wf(),
            pk.wf(),
        ensures
            r matches Ok(Some(k)) ==> is_dlog64(k, pk@),
            pk@ == base_mul_enc(0) ==> r == Ok::<Option<u64>, Error>(Some(0u64)),
            r matches Err(e) ==> e == Error::RandomnessFailure,
    {
        let id = identity_point();
        if bytes_eq(pk.encoding(), id.encoding()) {
            proof {
                vstd::arithmetic::power2::lemma_pow2_pos(64);
                assert(0nat % pow2(64) == 0);
                assert(is_dlog64(0u64, pk@));
            }
            return Ok(Some(0));
        }
        let start_time = instant_now();
        // Wild walks restart until one collides with the table. A counter
        // bounds them at 2^64 - 1 restarts, which no feasible run exhausts;
        // an exhausted counter is answered like an exhausted time budget.
        let mut attempts: u64 = u64::MAX;
        while attempts > 0
            invariant
                self.wf(),
                pk.wf(),
                pk@ != base_mul_enc(0),
            decreases attempts,
        {
            attempts = attempts - 1;
            let wdist0 = match generate_random_scalar(self.parameters.secret_size - 8) {
                Ok(x) => x,
                Err(_) => { return Err(Error::RandomnessFailure) },
            };
            let mut wdist = wdist0;
            let mut w = point_add(pk, &scalar_mul_base(&wdist));
            let iw: u64 = self.parameters.i * self.parameters.W;
            let mut step: u64 = 0;
            while step < iw
                invariant
                    self.wf(),
                    pk.wf(),
                    pk@ != base_mul_enc(0),
                    wdist.wf(),
                    w.wf(),
                decreases iw - step,
            {
                if is_distinguished(w.encoding(), &self.parameters) {
                    if let Some(value) = table_lookup(&self.table.table, w.encoding()) {
                        proof {
                            let key = w@;
                            let j = choose|j: int|
                                0 <= j < self.table.table@.len() && (
                                #[trigger] self.table.table@[j]).point@ == key
                                    && self.table.table@[j].log == *value;
                            assert(self.table.table@[j].wf());
                        }
                        let sk = scalar_sub(value, &wdist);
                        let sk_point = scalar_mul_base(&sk);
                        if bytes_eq(sk_point.encoding(), pk.encoding()) {
                            let k = scalar_to_u64(&sk);
                            proof {
                                assert(base_mul_enc(sk.value()) == pk@);
                                assert(is_dlog64(k, pk@));
                            }
                            return Ok(Some(k));
                        }
                        // a collision whose recovered log does not verify is
                        // index aliasing: discard this walk and start afresh
                    }
                    break ;
                }
                if let Some(mt) = max_time {
                    if elapsed_millis(&start_time) >= mt as u128 {
                        return Ok(None);
                    }
                }
                let h = hash(w.encoding(), &self.parameters);
                let hi = h as usize;
                wdist = crate::group::scalar_add(&wdist, &self.table.slog[hi]);
                w = point_add(&w, &self.table.s[hi]);
                step = step + 1;
            }
        }
        Ok(None)
    }
}

} // verus!
