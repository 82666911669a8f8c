use vstd::prelude::*;
use rand::Rng;
use rand::RngCore;
use rand::rngs::StdRng;

verus! {

/// The pseudo-random source that a board owns: rand's `StdRng`, declared
/// opaque so that a board can store it and thread it through its methods.
#[verifier::external_type_specification]
#[verifier::external_body]
pub struct ExStdRng(StdRng);

/// Relies on rand's `Rng::gen_range` over `0..n` for `usize`: it panics only
/// on an empty range and returns a value uniformly drawn from the range.
/// Nothing is promised about which value comes back.
#[verifier::external_body]
pub(crate) fn sample_index(rng: &mut StdRng, n: usize) -> (r: usize)
    requires
        n >= 1,
    ensures
        r < n,
{
    rng.gen_range(0..n)
}

/// Relies on rand's `Rng::gen_range` over `0..n` for `u64`: it panics only
/// on an empty range and returns a value uniformly drawn from the range.
/// Nothing is promised about which value comes back.
#[verifier::external_body]
pub(crate) fn sample_below(rng: &mut StdRng, n: u64) -> (r: u64)
    requires
        n >= 1,
    ensures
        r < n,
{
    rng.gen_range(0..n)
}

/// Relies on rand's `RngCore::next_u64`: one uniformly distributed machine
/// word, consuming the generator. Nothing can be promised of the value.
#[verifier::external_body]
pub(crate) fn next_word(rng: &mut StdRng) -> u64 {
    rng.next_u64()
}

} // verus!
