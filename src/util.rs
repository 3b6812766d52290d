use vstd::prelude::*;

use rand::distributions::{Alphanumeric, DistString};
use rand::rngs::SmallRng;
use rand::SeedableRng;

verus! {

/// ASCII letters and digits.
pub open spec fn is_alphanumeric(c: char) -> bool {
    ('a' <= c && c <= 'z') || ('A' <= c && c <= 'Z') || ('0' <= c && c <= '9')
}

/// Relies on rand's `SmallRng::from_entropy` and `Alphanumeric::sample_string`:
/// `len` characters, each drawn from the ASCII letters and digits. Which ones
/// is left to chance. Seeding panics only when the operating system's random
/// source fails.
#[verifier::external_body]
pub fn get_random_name(len: usize) -> (r: String)
    ensures
        r@.len() == len,
        forall|i: int| 0 <= i < r@.len() ==> is_alphanumeric(#[trigger] r@[i]),
{
    let mut rng = SmallRng::from_entropy();
    Alphanumeric.sample_string(&mut rng, len)
}

} // verus!
