//! The gear table: a deterministic map from each byte value to a 64-bit
//! pseudo-random constant. Each byte absorbed by the rolling hash contributes
//! its gear entry, so the low bits of the hash behave like an unbiased
//! boundary-detection signal. The entries are computed by a fixed integer
//! mixing function, so the table is identical in every run.

use vstd::prelude::*;

verus! {

/// The low 64 bits of the product `a * b`.
pub open spec fn wmul64(a: u64, b: u64) -> u64 {
    ((a as nat * b as nat) % 0x1_0000_0000_0000_0000) as u64
}

/// The gear entry for byte `b`: a 64-bit avalanche mix of the byte value.
/// Two multiply-xor-shift rounds spread every input bit over the whole word,
/// so the 256 entries have well-dispersed bits.
pub open spec fn gear_spec(b: u8) -> u64 {
    let z0 = (b as u64 + 0x9E37_79B9_7F4A_7C15) as u64;
    let z1 = wmul64(z0 ^ (z0 >> 30u64), 0xBF58_476D_1CE4_E5B9);
    let z2 = wmul64(z1 ^ (z1 >> 27u64), 0x94D0_49BB_1331_11EB);
    z2 ^ (z2 >> 31u64)
}

/// Computes the gear entry for byte `b`.
pub fn gear(b: u8) -> (g: u64)
    ensures
        g == gear_spec(b),
{
    let z0: u64 = (b as u64) + 0x9E37_79B9_7F4A_7C15;
    let z1: u64 = (z0 ^ (z0 >> 30u64)).wrapping_mul(0xBF58_476D_1CE4_E5B9);
    let z2: u64 = (z1 ^ (z1 >> 27u64)).wrapping_mul(0x94D0_49BB_1331_11EB);
    z2 ^ (z2 >> 31u64)
}

} // verus!
