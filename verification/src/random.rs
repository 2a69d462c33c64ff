use vstd::prelude::*;

verus! {

/// `nannou::rand::random_range`, which draws from the thread's
/// generator: for two different ends the result lies between them, the lower
/// one included and the upper one not, whichever was given first. Equal ends
/// make an empty range, on which the generator panics.
#[verifier::external_body]
fn random_range(min: i64, max: i64) -> (r: i64)
    requires
        min != max,
    ensures
        min <= r < max || max <= r < min,
{
    nannou::rand::random_range(min, max)
}

/// A number drawn between `lo` and `hi`; `lo` itself where the two are equal.
pub fn random_between(lo: i64, hi: i64) -> (r: i64)
    ensures
        lo == hi ==> r == lo,
        lo < hi ==> lo <= r < hi,
        hi < lo ==> hi <= r < lo,
{
    if lo == hi {
        lo
    } else {
        random_range(lo, hi)
    }
}

} // verus!
