//! Marker types of the runtime configuration.
//!
//! The weight-to-fee and account-merging policies themselves live in the
//! runtime; these types identify them where a configuration names them.

use vstd::prelude::*;

verus! {

/// Handles converting a weight scalar to a fee value, based on the
/// scale and granularity of the node's balance type.
#[derive(Clone, Copy, Debug, PartialEq, Eq, Structural)]
pub struct WeightToFee;

/// Merges an account's native balances into its EVM-mapped account.
#[derive(Clone, Copy, Debug, PartialEq, Eq, Structural)]
pub struct MergeAccountEvm;

} // verus!
