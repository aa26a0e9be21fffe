//! The named configuration presets this library recognizes.

use vstd::prelude::*;
use crate::kangaroo::{Kangaroo, Parameters};
use crate::Error;

verus! {

/// A recognized option: the tuning constants for one target secret size.
#[derive(Clone, Copy, Debug, PartialEq, Eq, Structural)]
pub enum Presets {
    /// 16-bit secrets: `i = 8`, `W = 8`, `N = 8000`, `R = 64`.
    Kangaroo16,
    /// 32-bit secrets: `i = 8`, `W = 2048`, `N = 4000`, `R = 128`.
    Kangaroo32,
    /// 48-bit secrets: `i = 8`, `W = 65536`, `N = 40000`, `R = 128`.
    Kangaroo48,
}

impl Presets {
    /// The parameter set this preset names.
    pub open spec fn spec_parameters(self) -> Parameters {
        match self {
            Presets::Kangaroo16 => Parameters { i: 8, W: 8, N: 8000, R: 64, secret_size: 16 },
            Presets::Kangaroo32 => Parameters { i: 8, W: 2048, N: 4000, R: 128, secret_size: 32 },
            Presets::Kangaroo48 => Parameters {
                i: 8,
                W: 65536,
                N: 40000,
                R: 128,
                secret_size: 48,
            },
        }
    }

    /// Hands back the preset's parameter set, which is valid.
    pub fn parameters(&self) -> (r: Parameters)
        ensures
            r == self.spec_parameters(),
            r.wf(),
    {
        proof {
            assert((8u64 & 7u64) == 0 && (64u64 & 63u64) == 0 && (2048u64 & 2047u64) == 0 && (
            128u64 & 127u64) == 0 && (65536u64 & 65535u64) == 0) by (bit_vector);
            vstd::arithmetic::power2::lemma2_to64();
            vstd::arithmetic::power2::lemma2_to64_rest();
        }
        match self {
            Presets::Kangaroo16 => Parameters { i: 8, W: 8, N: 8000, R: 64, secret_size: 16 },
            Presets::Kangaroo32 => Parameters { i: 8, W: 2048, N: 4000, R: 128, secret_size: 32 },
            Presets::Kangaroo48 => Parameters {
                i: 8,
                W: 65536,
                N: 40000,
                R: 128,
                secret_size: 48,
            },
        }
    }
}

impl Kangaroo {
    /// Builds a [`Kangaroo`] for a preset by generating its table in full.
    /// The heavier presets take considerable time; a generated table can be
    /// kept with [`Kangaroo::to_bytes`] and brought back with
    /// [`Kangaroo::from_bytes`] instead of being derived again.
    pub fn from_preset(preset: Presets) -> (r: Result<Kangaroo, Error>)
        ensures
            r matches Ok(k) ==> k.wf() && k.parameters == preset.spec_parameters()
                && k.table.table@.len() == preset.spec_parameters().N
                && k.table.jumps_consistent() && k.table.entries_consistent()
                && k.table.entries_distinguished(preset.spec_parameters())
                && k.table.keys_unique(),
            r matches Err(e) ==> e == Error::RandomnessFailure,
    {
        Kangaroo::from_parameters(preset.parameters())
    }
}

} // verus!
