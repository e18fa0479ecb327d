use vstd::prelude::*;
use rand::seq::SliceRandom;

verus! {

/// Picks one element of `items` at random with rand's `SliceRandom::choose`
/// and the thread-local generator. Its contract claims what rand's source
/// shows: `None` for an empty slice, otherwise some element of the slice.
/// Which element comes out is left open.
#[verifier::external_body]
pub(crate) fn pick_one<T: Copy>(items: &[T]) -> (r: Option<T>)
    ensures
        r is None <==> items@.len() == 0,
        r matches Some(x) ==> exists|i: int| 0 <= i < items@.len() && items@[i] == x,
{
    items.choose(&mut rand::thread_rng()).copied()
}

} // verus!
