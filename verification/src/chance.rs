//! Random draws.

use rand::rngs::StdRng;
use rand::seq::SliceRandom;
use rand::{Rng, SeedableRng};
use vstd::prelude::*;
use crate::text::texts;

verus! {

/// `rand::rngs::StdRng`, the generator of the rand crate that can be seeded.
/// Nothing is known of what it holds.
#[verifier::external_type_specification]
#[verifier::external_body]
pub struct ExStdRng(rand::rngs::StdRng);

/// `StdRng::seed_from_u64` of the rand crate: a generator that starts from
/// `seed`. Nothing is claimed of the generator.
#[verifier::external_body]
pub(crate) fn seeded(seed: u64) -> StdRng {
    StdRng::seed_from_u64(seed)
}

/// `Rng::gen_range` of the rand crate on `usize`: a number that is at least
/// `low` and less than `high`. Which one is not claimed. The call panics
/// unless `low < high`.
#[verifier::external_body]
pub(crate) fn draw_between(rng: &mut StdRng, low: usize, high: usize) -> (n: usize)
    requires
        low < high,
    ensures
        low <= n < high,
{
    rng.gen_range(low, high)
}

/// `SliceRandom::choose` of the rand crate: nothing for an empty slice, else
/// one of its items. Which one is not claimed.
#[verifier::external_body]
pub(crate) fn pick<'a>(rng: &mut StdRng, names: &'a Vec<String>) -> (r: Option<&'a String>)
    ensures
        r is None <==> names@.len() == 0,
        r matches Some(s) ==> texts(names@).contains(s@),
{
    names.choose(rng)
}

} // verus!
