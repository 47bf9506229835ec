use vstd::prelude::*;

verus! {

/// Calls `rand::thread_rng().gen::<usize>()`: one draw from the thread-local
/// generator of the `rand` crate. Nothing is claimed of the value drawn, and
/// two calls may differ. `rand` seeds the generator from the operating
/// system when a thread first uses it, and panics if that source fails.
#[verifier::external_body]
fn random_usize() -> (drawn: usize) {
    rand::Rng::gen::<usize>(&mut rand::thread_rng())
}

/// The index that a raw draw selects among `number` samples.
pub open spec fn index_for(drawn: usize, number: usize) -> int {
    drawn as int % number as int
}

/// Reduces a raw draw to an index below `number`.
pub fn index_from_draw(drawn: usize, number: usize) -> (index: usize)
    requires
        number > 0,
    ensures
        index == index_for(drawn, number),
        index < number,
{
    drawn % number
}

/// Picks at random the index of one of `number` samples.
pub fn pick_index(number: usize) -> (index: usize)
    requires
        number > 0,
    ensures
        index < number,
{
    index_from_draw(random_usize(), number)
}

} // verus!
