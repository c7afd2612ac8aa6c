//! Random numbers: one from the thread's generator, and runs of them from a
//! Mersenne Twister that a seed determines.
use vstd::prelude::*;
use rand::{Rng, SeedableRng};
use rand_mt::Mt64;

verus! {

/// The 64-bit Mersenne Twister of `rand_mt`.
#[verifier::external_type_specification]
#[verifier::external_body]
pub struct ExMt64(Mt64);

/// The 128-bit number that a generator gives at its draw number `n` from
/// now, counted from zero.
pub uninterp spec fn drawn_from(rng: Mt64, n: nat) -> u128;

/// The 128-bit number that a generator made of `seed` gives at its draw
/// number `n`, counted from zero.
pub uninterp spec fn drawn_from_seed(seed: u64, n: nat) -> u128;

/// Calls `Mt64::seed_from_u64`. Believed: what the generator gives depends
/// on the seed alone.
#[verifier::external_body]
fn generator_of_seed(seed: u64) -> (rng: Mt64)
    ensures
        forall|n: nat| #[trigger] drawn_from(rng, n) == drawn_from_seed(seed, n),
{
    Mt64::seed_from_u64(seed)
}

/// Calls `Rng::gen` for a `u128`. Believed: it gives the generator's next
/// draw and moves the generator on by one.
#[verifier::external_body]
fn next_u128(rng: &mut Mt64) -> (r: u128)
    ensures
        r == drawn_from(*old(rng), 0),
        forall|n: nat| #[trigger] drawn_from(*final(rng), n) == drawn_from(*old(rng), n + 1),
{
    rng.gen()
}

/// Calls `Rng::gen` on the generator of the thread: any number may come.
#[verifier::external_body]
pub fn generate_u32_random_number() -> (r: u32) {
    rand::thread_rng().gen()
}

/// The first `random_numbers_count` numbers of the generator made of `seed`.
pub fn generate_u128_random_numbers(seed: u32, random_numbers_count: u8) -> (result: Vec<u128>)
    ensures
        result@.len() == random_numbers_count,
        forall|i: int|
            0 <= i < random_numbers_count ==> result@[i] == drawn_from_seed(seed as u64, i as nat),
{
    let mut result: Vec<u128> = Vec::new();
    let mut rng: Mt64 = generator_of_seed(seed as u64);
    let mut i: u8 = 0;
    while i < random_numbers_count
        invariant
            i <= random_numbers_count,
            result@.len() == i,
            forall|j: int| 0 <= j < i ==> result@[j] == drawn_from_seed(seed as u64, j as nat),
            forall|n: nat| #[trigger] drawn_from(rng, n) == drawn_from_seed(seed as u64, n + i as nat),
        decreases random_numbers_count - i,
    {
        let ghost before = rng;
        let number = next_u128(&mut rng);
        proof {
            assert(number == drawn_from(before, 0));
            assert forall|n: nat| #[trigger] drawn_from(rng, n) == drawn_from_seed(
                seed as u64,
                n + i as nat + 1,
            ) by {
                assert(drawn_from(rng, n) == drawn_from(before, n + 1));
            }
        }
        result.push(number);
        i += 1;
    }
    result
}

} // verus!
