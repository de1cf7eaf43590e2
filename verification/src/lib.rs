//! An off-chain mirror of an append-only binary hash tree, with the
//! admission control and retry rules that guard its submission path.

pub mod backoff;
pub mod error;
pub mod hash;
pub mod merkle;
pub mod node_store;
pub mod rate_limiter;
pub mod text;
pub mod time;
pub mod transaction;
pub mod tree_manager;
pub mod types;

pub use error::BubblegumError;
pub use types::{Config, NifCreator, NifMetadataArgs};
