//! Fresh identifiers for cards and transactions.

use vstd::prelude::*;

verus! {

/// How many characters an identifier has.
pub const ID_LENGTH: usize = 21;

/// A new random identifier.
///
/// Calls `nanoid::format` with the generator `nanoid::rngs::default`, the
/// alphabet `nanoid::alphabet::SAFE` and the size 21, as the crate's
/// default generator does. The result is random, so the contract states
/// only what holds of every outcome: it has 21 characters.
#[verifier::external_body]
pub(crate) fn fresh_id() -> (id: String)
    ensures
        id@.len() == ID_LENGTH,
{
    nanoid::format(nanoid::rngs::default, &nanoid::alphabet::SAFE, 21)
}

} // verus!
