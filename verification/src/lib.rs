//! A per-token task queue and metadata-completion workflow on top of a
//! sequentially-minted token ledger.
//!
//! The contract state holds the minted tokens, the single authorized
//! operator, and a global index of tokens whose metadata is still
//! incomplete.  Every state transition is a verified function whose
//! contract pins down the new state and the returned attributes.

pub mod decimal;
pub mod execute;
pub mod laws;
pub mod msg;
pub mod query;
pub mod state;
pub mod traits;
