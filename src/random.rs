use vstd::prelude::*;

verus! {

/// Relies on rand's `SliceRandom::shuffle` with the thread-local generator,
/// which only swaps elements: what comes out is a permutation of what went in.
#[verifier::external_body]
pub(crate) fn shuffle_indices(v: &mut Vec<usize>)
    ensures
        final(v)@.len() == old(v)@.len(),
        final(v)@.to_multiset() == old(v)@.to_multiset(),
{
    rand::seq::SliceRandom::shuffle(v.as_mut_slice(), &mut rand::thread_rng());
}

/// Relies on rand's `SliceRandom::choose` with the thread-local generator: it
/// returns one element of the slice, and nothing only when the slice is empty.
#[verifier::external_body]
pub(crate) fn choose_color<U: Copy>(colors: &Vec<U>) -> (r: Option<U>)
    ensures
        r is Some <==> colors@.len() > 0,
        r matches Some(c) ==> colors@.contains(c),
{
    rand::seq::SliceRandom::choose(colors.as_slice(), &mut rand::thread_rng()).copied()
}

} // verus!
