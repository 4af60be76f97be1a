//! A verified model of the on-chain half of a two-way token bridge.
//!
//! Users burn tokens on the home chain and a trusted relayer mints the
//! equivalent amount on a foreign chain; symmetrically, the relayer mints
//! home-chain tokens when it observes a burn on the foreign chain. The
//! library captures the entire trust boundary of the bridge: the singleton
//! administrative configuration, the owner-gated registry of foreign tokens,
//! the one-time transfer of a token's mint authority to the bridge, and the
//! burn/mint flows together with the events they emit for the off-chain
//! relayer.
//!
//! The token ledger that enforces balances and supply is modelled in
//! [`ledger`]; the bridge state machine built on top of it lives in
//! [`bridge`]; the properties that hold of every run are proved in [`laws`].

pub mod addr;
pub mod bridge;
pub mod errors;
pub mod events;
pub mod laws;
pub mod ledger;
