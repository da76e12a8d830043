//! The random source of the game, from the `rand` crate.
use vstd::prelude::*;

verus! {

/// `rand::ThreadRng`, the thread-local generator; opaque here.
#[verifier::external_type_specification]
#[verifier::external_body]
pub struct ExThreadRng(rand::ThreadRng);

/// Calls `rand::thread_rng`. Nothing is claimed of the generator it hands
/// back; the call panics when the operating system has no entropy, which no
/// argument can rule out.
#[verifier::external_body]
pub(crate) fn new_rng() -> rand::ThreadRng {
    rand::thread_rng()
}

/// Calls `rand::Rng::gen_range` on `i16`. The crate's source asserts
/// `low < high` (hence the `requires`) and returns a value of the half-open
/// range `low..high`, which is all that is claimed: which one it is rests on
/// chance.
#[verifier::external_body]
pub(crate) fn gen_range_i16(rng: &mut rand::ThreadRng, low: i16, high: i16) -> (r: i16)
    requires
        low < high,
    ensures
        low <= r < high,
{
    rand::Rng::gen_range(rng, low, high)
}

/// Calls `rand::Rng::shuffle` on the vector's elements. The crate's source
/// only swaps elements of the slice, so the result is a permutation of the
/// input: the same multiset of elements. Which permutation rests on chance.
#[verifier::external_body]
pub(crate) fn shuffle<T>(rng: &mut rand::ThreadRng, v: &mut Vec<T>)
    ensures
        final(v)@.to_multiset() == old(v)@.to_multiset(),
{
    rand::Rng::shuffle(rng, v.as_mut_slice())
}

/// A random colour other than black, from `1..7` (black is colour 0).
pub fn get_rand_non_black_color(rng: &mut rand::ThreadRng) -> (c: u16)
    ensures
        1 <= c < 7,
{
    let c = gen_range_i16(rng, 1, 7);
    c as u16
}

} // verus!
