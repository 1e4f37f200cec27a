//! The seeded generator that supplies fresh colors.
use vstd::prelude::*;
use rand::{Rng, SeedableRng};
use rand_xorshift::XorShiftRng;

verus! {

#[verifier::external_type_specification]
#[verifier::external_body]
pub struct ExXorShiftRng(XorShiftRng);

/// Relies on `SeedableRng::from_seed` of rand_xorshift's `XorShiftRng`:
/// builds the generator from sixteen seed bytes, and never fails.
#[verifier::external_body]
pub(crate) fn xorshift_from_seed(seed: [u8; 16]) -> (r: XorShiftRng) {
    XorShiftRng::from_seed(seed)
}

/// Relies on rand's `Rng::gen_range`: a value drawn from `0..bound`. It
/// panics only on an empty range, which `requires` rules out.
#[verifier::external_body]
pub(crate) fn gen_below(rng: &mut XorShiftRng, bound: u32) -> (r: u32)
    requires
        0 < bound,
    ensures
        r < bound,
{
    rng.gen_range(0..bound)
}

} // verus!
