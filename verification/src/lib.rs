//! A deterministic ledger-replay engine.
//!
//! An ordered stream of movement records (deposits, withdrawals, disputes,
//! resolutions, chargebacks) is replayed against a set of per-client
//! accounts, producing the final balance of every account that the stream
//! referenced. Monetary amounts are fixed-point decimals: scaled integers
//! carrying four fractional digits, so `10000` stands for `1.0000`.

use vstd::prelude::*;

pub mod account_state;
pub mod engine;
pub mod transaction;

pub use account_state::AccountState;
pub use account_state::AccountView;
pub use engine::process_tx;
pub use engine::Ledger;
pub use transaction::Chargeback;
pub use transaction::Deposit;
pub use transaction::Dispute;
pub use transaction::Record;
pub use transaction::Resolve;
pub use transaction::Transaction;
pub use transaction::TxError;
pub use transaction::TxKind;
pub use transaction::Withdrawal;

verus! {

/// Identifies one client account; stable for the whole run.
pub type ClientId = u16;

/// Identifies one deposit or withdrawal transaction; unique across the stream.
pub type TxId = u32;

} // verus!
