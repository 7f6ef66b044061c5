//! On-chain validation logic of a two-party payment channel on a cell-based ledger:
//! the channel type script (state machine guard), the channel lock script
//! (participant gate) and the funds lock script (funds stay with the channel).
use vstd::prelude::*;

pub mod balances;
pub mod builder;
pub mod bytes;
pub mod channel;
pub mod codec;
pub mod crypto;
pub mod error;
pub mod laws;
pub mod layout;
pub mod locks;
pub mod model;
pub mod rules;
pub mod tx;

verus! {

} // verus!
