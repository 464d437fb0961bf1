use vstd::prelude::*;
use rand::seq::SliceRandom;
use rand::Rng;

verus! {

/// A uniformly drawn integer of `[i, j)`, from the thread's random source.
///
/// Relies on `rand::Rng::gen_range` over a half-open range: its result lies in
/// the range, and it panics only when the range is empty.
#[verifier::external_body]
pub fn random_int(i: u32, j: u32) -> (r: u32)
    requires
        i < j,
    ensures
        i <= r < j,
{
    rand::thread_rng().gen_range(i..j)
}

/// One element of `items`, drawn uniformly from the thread's random source;
/// `None` when `items` is empty.
///
/// Relies on `rand::seq::SliceRandom::choose` on a slice: `None` for an empty
/// slice, else a reference to one of its elements (copied out here).
#[verifier::external_body]
pub(crate) fn choose_one(items: &Vec<usize>) -> (r: Option<usize>)
    ensures
        items@.len() == 0 <==> r.is_none(),
        r matches Some(x) ==> items@.contains(x),
{
    items.choose(&mut rand::thread_rng()).copied()
}

} // verus!
