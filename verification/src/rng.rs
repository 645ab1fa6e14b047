//! The one nondeterministic call the library makes: fresh random bytes,
//! used to colour newly spawned bricks.

use vstd::prelude::*;

verus! {

/// Relies on rand::random for `[u8; 3]`: three uniformly random bytes from
/// the thread-local generator. Nothing can be promised of the values, so
/// the contract promises nothing; callers treat every triple alike.
#[verifier::external_body]
pub(crate) fn random_bytes3() -> (r: (u8, u8, u8)) {
    let [a, b, c] = rand::random::<[u8; 3]>();
    (a, b, c)
}

} // verus!
