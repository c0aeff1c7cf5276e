//! Core of a terminal tool that inventories a wallet's token accounts,
//! lets a user select a subset, and prepares batched ledger submissions
//! that burn and close each selected account.
//!
//! The library holds the selection/filtering state machine and the batched
//! submission pipeline; terminal rendering and network calls live outside.
use vstd::prelude::*;

pub mod text;
pub mod errors;
pub mod record;
pub mod directory;
pub mod view;
pub mod controller;
pub mod batch;
pub mod pipeline;
pub mod ledger;

verus! {

/// Maximum number of account records bundled into one submission unit.
pub const BATCH_SIZE: usize = 12;

/// Command-line arguments accepted by the tool.
pub struct Args {
    /// Private key in base58 form.
    pub private_key: String,
    /// RPC endpoint URL of the ledger service.
    pub rpc_url: String,
}

} // verus!
