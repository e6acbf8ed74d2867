use rand::seq::IteratorRandom;
use vstd::prelude::*;

verus! {

#[verifier::external_type_specification]
#[verifier::external_body]
pub struct ExThreadRng(rand::rngs::ThreadRng);

#[verifier::external_type_specification]
#[verifier::external_body]
pub struct ExStrengthReducedU64(strength_reduce::StrengthReducedU64);

/// Relies on rand::thread_rng: it hands out the calling thread's generator;
/// nothing is promised of the numbers it yields.
pub assume_specification[ rand::thread_rng ]() -> rand::rngs::ThreadRng;

/// Relies on IteratorRandom::choose_multiple over the range `0..n`: reservoir
/// sampling keeps `min(amount, n)` elements of the range, and each element of
/// the range occupies at most one slot of the reservoir.
#[verifier::external_body]
pub(crate) fn choose_indices(rng: &mut rand::rngs::ThreadRng, n: u64, amount: usize) -> (r: Vec<u64>)
    requires
        n <= usize::MAX,
    ensures
        r@.len() == if (amount as int) < (n as int) { amount as int } else { n as int },
        r@.no_duplicates(),
        forall|i: int| 0 <= i < r@.len() ==> r@[i] < n,
{
    (0..n).choose_multiple(rng, amount)
}

/// The divisor that a strength-reduced divisor was made from.
pub uninterp spec fn reduced_divisor(d: strength_reduce::StrengthReducedU64) -> u64;

/// Relies on StrengthReducedU64::new: it panics on zero and otherwise keeps
/// `divisor` beside the precomputed multiplier.
pub assume_specification[ strength_reduce::StrengthReducedU64::new ](divisor: u64) -> (r: strength_reduce::StrengthReducedU64)
    requires
        divisor > 0,
    ensures
        reduced_divisor(r) == divisor,
;

/// Relies on StrengthReducedU64::div_rem: truncated quotient and remainder by
/// the divisor the value was made from.
pub assume_specification[ strength_reduce::StrengthReducedU64::div_rem ](numerator: u64, denom: strength_reduce::StrengthReducedU64) -> (r: (u64, u64))
    ensures
        r.0 == numerator / reduced_divisor(denom),
        r.1 == numerator % reduced_divisor(denom),
;

/// Names the result of `str::to_lowercase`, which depends on the characters alone.
pub uninterp spec fn lower_of(s: Seq<char>) -> Seq<char>;

/// Relies on str::to_lowercase: the lowercase mapping of each character.
#[verifier::external_body]
pub(crate) fn lowercase(s: &str) -> (r: String)
    ensures
        r@ == lower_of(s@),
{
    s.to_lowercase()
}

} // verus!
