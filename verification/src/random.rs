//! Random choice, with the generator that `rand` keeps for each thread.

use vstd::prelude::*;
use rand::rngs::ThreadRng;
use rand::seq::SliceRandom;
use rand::Rng;

verus! {

/// The generator of a thread. Nothing is known of its state.
#[verifier::external_type_specification]
#[verifier::external_body]
pub struct ExThreadRng(ThreadRng);

/// `rand::thread_rng` hands out the generator of the thread, which the
/// system seeds. Nothing is claimed of it. Where the system has no
/// randomness to give, `thread_rng` does not return.
pub assume_specification[ rand::thread_rng ]() -> (rng: ThreadRng)
;

/// `SliceRandom::choose`: `None` for an empty list, else one of its
/// items. Which one is left open.
#[verifier::external_body]
pub(crate) fn pick<'a, T>(items: &'a Vec<T>, rng: &mut ThreadRng) -> (chosen: Option<&'a T>)
    ensures
        items@.len() == 0 ==> chosen is None,
        items@.len() > 0 ==> chosen is Some && items@.contains(*chosen.unwrap()),
{
    items.choose(rng)
}

/// `Rng::gen_range` over `0..bound`: a number below `bound`. Which one is
/// left open. An empty range makes `gen_range` panic, so `bound` is not
/// zero.
#[verifier::external_body]
pub(crate) fn index_below(rng: &mut ThreadRng, bound: usize) -> (index: usize)
    requires
        bound > 0,
    ensures
        index < bound,
{
    rng.gen_range(0..bound)
}

} // verus!
