//! The calls into `rand` that the race makes: every draw of chance goes
//! through one of the functions below.
use rand::rngs::StdRng;
use vstd::prelude::*;

verus! {

/// `rand::rngs::StdRng`, the seedable generator that drives a race.
#[verifier::external_type_specification]
#[verifier::external_body]
pub struct ExStdRng(StdRng);

/// `rand::seq::IndexedRandom::choose` on a slice of faces: `None` exactly when
/// the slice is empty, otherwise one of its elements (which one is chance).
#[verifier::external_body]
pub(crate) fn choose_face(faces: &[usize], rng: &mut StdRng) -> (r: Option<usize>)
    ensures
        r is None <==> faces@.len() == 0,
        r matches Some(v) ==> faces@.contains(v),
{
    rand::seq::IndexedRandom::choose(faces, rng).copied()
}

/// `rand::seq::SliceRandom::shuffle` on the whole vector: the result is a
/// rearrangement of the same items (which one is chance).
#[verifier::external_body]
pub(crate) fn shuffle<T>(items: &mut Vec<T>, rng: &mut StdRng)
    ensures
        final(items)@.len() == old(items)@.len(),
        final(items)@.to_multiset() == old(items)@.to_multiset(),
{
    rand::seq::SliceRandom::shuffle(items.as_mut_slice(), rng)
}

/// `rand::RngExt::random_ratio`: `true` with chance `numerator / denominator`.
/// The source returns `false` without fail when the numerator is zero and
/// `true` without drawing when numerator and denominator are equal; it panics
/// when the denominator is zero or below the numerator.
#[verifier::external_body]
pub(crate) fn coin(rng: &mut StdRng, numerator: u32, denominator: u32) -> (r: bool)
    requires
        0 < denominator,
        numerator <= denominator,
    ensures
        numerator == 0 ==> !r,
        numerator == denominator ==> r,
{
    rand::RngExt::random_ratio(rng, numerator, denominator)
}

/// `rand::RngExt::random::<u64>()`: 64 fresh random bits. Nothing is known of
/// the value.
#[verifier::external_body]
pub(crate) fn draw_u64(rng: &mut StdRng) -> u64 {
    rand::RngExt::random::<u64>(rng)
}

/// `rand::make_rng::<StdRng>()`: a generator seeded from the operating
/// system (the source panics when the system gives no entropy). Nothing is
/// known of its state.
#[verifier::external_body]
pub(crate) fn fresh_rng() -> StdRng {
    rand::make_rng::<StdRng>()
}

} // verus!
