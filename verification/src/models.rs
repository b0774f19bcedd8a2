//! The messages that the router reads and the ones it forwards.

use vstd::prelude::*;

verus! {

/// Addresses grouped by chain name, one entry per chain (a JSON object from
/// chain name to addresses). It is held as a list of pairs rather than a
/// `HashMap` keyed by `String`, of which Verus can prove next to nothing;
/// the object it is read from has each chain name once, and where names are
/// distinct the list reads as the map did (see
/// `crate::router::law_one_entry_per_chain`).
pub type AddressMap = Vec<(String, Vec<String>)>;

/// No chain name occurs twice in `m`.
pub open spec fn chain_names_distinct(m: Seq<(String, Vec<String>)>) -> bool {
    forall|i: int, j: int| 0 <= i < j < m.len() ==> (#[trigger] m[i]).0@ != (#[trigger] m[j]).0@
}

/// A chat message with the token and pool addresses found in it.
#[derive(Debug, Clone)]
pub struct IncomingMessage {
    pub chat_id: i64,
    pub chat_name: String,
    pub images: Vec<String>,
    pub mints: Vec<String>,
    pub text: String,
    pub tokens: Vec<String>,
    pub context: String,
    pub pool: Option<String>,
    pub ethereum_mints: Vec<String>,
    pub evm_mints: Vec<String>,
    pub solana_mints: Vec<String>,
    pub bsc_mints: Vec<String>,
    pub addresses: Option<AddressMap>,
    pub pools: Vec<String>,
    pub solana_pools: Vec<String>,
    pub ethereum_pools: Vec<String>,
    pub evm_pools: Vec<String>,
    pub bsc_pools: Vec<String>,
    pub pool_addresses: Option<AddressMap>,
    pub base_mints: Vec<String>,
    pub base_pools: Vec<String>,
}

/// A message forwarded to one chain's consumer.
#[derive(Debug, Clone)]
pub struct OutputMessage {
    pub context: String,
    pub command: String,
    pub args: OutputArgs,
    pub pool: Option<String>,
}

/// The arguments of an [`OutputMessage`].
#[derive(Debug, Clone)]
pub struct OutputArgs {
    pub channel: String,
    pub ts: i64,
    pub text: String,
}

} // verus!
