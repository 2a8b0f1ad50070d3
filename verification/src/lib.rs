//! A prediction-market style posting and voting system.
//!
//! Users submit a piece of content backed by a bond, the community votes
//! "bullish" or "bearish" on it within a fixed voting window, and at the end
//! of the window the submitter is rewarded or slashed based on the vote
//! outcome, while voters' locked stake is subsequently released in bounded
//! batches.
//!
//! The state machine, the post registry, the vote ledger and the escrow
//! accounting are all verified. Balances live in a model ledger with the
//! hold / freeze / mint / burn operations the core needs; content addressing
//! is delegated to the host's Blake2 hash.

pub mod hashing;
pub mod laws;
pub mod ledger;
pub mod pallet;
pub mod store;
pub mod tally;
pub mod types;

pub use ledger::Account;
pub use ledger::Ledger;
pub use pallet::Pallet;
pub use types::Config;
pub use types::Direction;
pub use types::Error;
pub use types::Event;
pub use types::FreezeReason;
pub use types::HoldReason;
pub use types::Post;
pub use types::PostId;
