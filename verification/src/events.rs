//! Events emitted for the off-chain relayer. They are an append-only,
//! publicly observable log: the bridge never reads them back, and a
//! consumer must do its own bookkeeping of which events it has acted on.

use vstd::prelude::*;
use crate::addr::Address;

verus! {

/// A notification appended to the bridge's event log by a successful
/// burn or mint. The surrounding platform, not the bridge, timestamps
/// and delivers it.
#[derive(Clone, Copy, Debug, PartialEq, Eq)]
pub enum BridgeEvent {
    /// Tokens left the home chain: `account` burned `amount` of a bridged
    /// token, and the relayer should mint the equivalent on the foreign
    /// chain.
    Burn { account: Address, amount: u64 },
    /// Tokens arrived on the home chain: `amount` was minted to `account`
    /// in response to a burn of the foreign token at `foreign_address`.
    Mint { account: Address, amount: u64, foreign_address: Address },
}

} // verus!
