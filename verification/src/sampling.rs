//! Random choice of distinct coordinates, through the `rand` crate.

use vstd::prelude::*;

verus! {

use rand::seq::SliceRandom;

/// Relies on rand's `SliceRandom::choose_multiple` on a slice: it yields
/// `min(amount, v.len())` elements of `v` picked at pairwise distinct
/// positions, in unspecified order. So when the elements of `v` are pairwise
/// distinct, so are the chosen ones. Which elements come back depends on the
/// thread's random-number generator, so nothing more is promised.
#[verifier::external_body]
pub(crate) fn choose_distinct(v: &Vec<(usize, usize)>, amount: usize) -> (r: Vec<
    (usize, usize),
>)
    ensures
        r@.len() == if amount <= v@.len() {
            amount as int
        } else {
            v@.len() as int
        },
        forall|i: int| 0 <= i < r@.len() ==> v@.contains(#[trigger] r@[i]),
        (forall|i: int, j: int| 0 <= i < j < v@.len() ==> v@[i] != v@[j]) ==> (forall|
            i: int,
            j: int,
        |
            0 <= i < j < r@.len() ==> r@[i] != r@[j]),
{
    let mut rng = rand::thread_rng();
    v.choose_multiple(&mut rng, amount).cloned().collect()
}

} // verus!
