//! Random identifiers.

use vstd::prelude::*;

verus! {

/// A number drawn with `rand::random::<u64>`. Nothing is claimed of it: any
/// number may come, and the same one may come twice. That the system has a
/// working source of randomness, without which `rand` panics, is left unsaid.
#[verifier::external_body]
pub(crate) fn random_u64() -> (r: u64)
{
    rand::random::<u64>()
}

} // verus!
