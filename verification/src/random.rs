//! The random-array generator: bounded uniform integers for test and
//! benchmark fixtures. The draws themselves come from the `rand` crate
//! through trusted wrappers; everything around them is verified for every
//! value the generator could hand back.

use rand::RngExt;
use vstd::prelude::*;

verus! {

/// Declares rand's thread-local generator handle, so that it can be
/// created once and threaded through the draws; Verus sees nothing inside
/// a value of it.
#[verifier::external_type_specification]
#[verifier::external_body]
pub struct ExThreadRng(rand::rngs::ThreadRng);

/// Relies on rand::rng: a handle to the thread-local generator.
#[verifier::external_body]
fn fresh_rng() -> rand::rngs::ThreadRng {
    rand::rng()
}

/// Relies on RngExt::random_range over `min..max`: the draw is uniform over
/// the non-empty half-open range, so every outcome lies in `[min, max)`;
/// the call panics on an empty range, which the precondition rules out.
#[verifier::external_body]
fn sample_range(rng: &mut rand::rngs::ThreadRng, min: i32, max: i32) -> (r: i32)
    requires
        min < max,
    ensures
        min <= r < max,
{
    rng.random_range(min..max)
}

/// Returns a new vector of `len` integers (none for a negative `len`),
/// each drawn independently and uniformly from the half-open range
/// `[min, max)` — the lower bound inclusive, the upper exclusive. No
/// order of the output is guaranteed.
pub fn generate_random_array(len: i32, min: i32, max: i32) -> (r: Vec<i32>)
    requires
        min < max,
    ensures
        r@.len() == (if len >= 0 { len as int } else { 0 }),
        forall|k: int| 0 <= k < r@.len() ==> min <= #[trigger] r@[k] < max,
{
    let mut rng = fresh_rng();
    let mut v: Vec<i32> = Vec::new();
    let mut i: i32 = 0;
    while i < len
        invariant
            min < max,
            0 <= i,
            len >= 0 ==> i <= len,
            len < 0 ==> i == 0,
            v@.len() == i as int,
            forall|k: int| 0 <= k < v@.len() ==> min <= #[trigger] v@[k] < max,
        decreases len - i,
    {
        let x = sample_range(&mut rng, min, max);
        v.push(x);
        i += 1;
    }
    v
}

} // verus!
