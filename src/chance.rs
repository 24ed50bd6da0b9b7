use vstd::prelude::*;

verus! {

/// Relies on `rand::random_range` over `0..n`: a uniform draw from the
/// half-open range, which panics only on an empty range.
#[verifier::external_body]
pub(crate) fn random_below(n: usize) -> (r: usize)
    requires
        n > 0,
    ensures
        r < n,
{
    rand::random_range(0..n)
}

/// Relies on `rand::random::<bool>`: a fair coin; nothing is known of the outcome.
#[verifier::external_body]
pub(crate) fn coin() -> bool {
    rand::random::<bool>()
}

/// Draws a mask of `n` fair coins.
pub fn coin_mask(n: usize) -> (r: Vec<bool>)
    ensures
        r@.len() == n,
{
    let mut r: Vec<bool> = Vec::with_capacity(n);
    let mut i: usize = 0;
    while i < n
        invariant
            i <= n,
            r@.len() == i,
        decreases n - i,
    {
        r.push(coin());
        i = i + 1;
    }
    r
}

/// Picks an ordered pair of distinct indices below `max`, uniformly among all
/// such pairs. Drawing the second index from the `max - 1` values other than
/// the first gives the same distribution as redrawing until the two differ,
/// and always ends.
pub fn make_distinct(max: usize) -> (r: (usize, usize))
    requires
        max >= 2,
    ensures
        r.0 < max,
        r.1 < max,
        r.0 != r.1,
{
    let specimen_one = random_below(max);
    let draw = random_below(max - 1);
    let specimen_two = if draw >= specimen_one {
        draw + 1
    } else {
        draw
    };
    (specimen_one, specimen_two)
}

} // verus!
