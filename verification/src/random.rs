//! Reproducible random element values drawn with `rand`'s seeded
//! standard generator.
use vstd::prelude::*;

verus! {

/// `n` values drawn from `rand`'s `Standard` distribution by a `StdRng`
/// seeded with `seed`. `rand` derives the generator from the seed alone,
/// so the same seed gives the same values; the generator is opaque here,
/// and the contract states only how many values come back.
pub fn seeded_standard_values<T>(n: usize, seed: u64) -> (v: Vec<T>)
    where rand::distributions::Standard: rand::distributions::Distribution<T>
    ensures
        v@.len() == n,
{
    let mut rng = seeded_std_rng(seed);
    let mut v: Vec<T> = Vec::with_capacity(n);
    let mut i: usize = 0;
    while i < n
        invariant
            i <= n,
            v@.len() == i,
        decreases n - i,
    {
        v.push(sample_standard(&mut rng));
        i = i + 1;
    }
    v
}

/// The standard seedable generator of `rand`.
#[verifier::external_type_specification]
#[verifier::external_body]
pub struct ExStdRng(rand::rngs::StdRng);

/// Calls `rand::SeedableRng::seed_from_u64` for `StdRng`: a generator whose
/// state is derived from `seed` alone. The generator is opaque here, so
/// nothing is stated of it.
#[verifier::external_body]
fn seeded_std_rng(seed: u64) -> rand::rngs::StdRng {
    <rand::rngs::StdRng as rand::SeedableRng>::seed_from_u64(seed)
}

/// Calls `rand::Rng::gen` on a `StdRng`: one value drawn from `Standard`,
/// which advances the generator. The generator's state is opaque here, so
/// nothing is stated of the value or of the new state. A `StdRng` draws
/// without touching the operating system, so the call cannot fail.
#[verifier::external_body]
fn sample_standard<T>(rng: &mut rand::rngs::StdRng) -> T
    where rand::distributions::Standard: rand::distributions::Distribution<T>
{
    <rand::rngs::StdRng as rand::Rng>::gen::<T>(rng)
}

} // verus!
