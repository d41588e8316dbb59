//! An append-only ledger of hash-linked blocks sealed by proof of work.
//!
//! Every block commits to its predecessor through a SHA-256 digest of its
//! own fields; a chain can be rebuilt block by block and checked end to end.

pub mod block;
pub mod chain;
pub mod clock;
pub mod difficulty;
pub mod digest;
pub mod encoding;
pub mod tamper;

pub use block::Block;
pub use block::BlockModel;
pub use chain::Blockchain;
