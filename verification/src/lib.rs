//! Aid escrow: packages of tokens locked for recipients, claimed, disbursed,
//! revoked or refunded under an administrator's control.

pub mod accounting;
pub mod actions;
pub mod admin;
pub mod codec;
pub mod keymap;
pub mod laws;
pub mod merkle;
pub mod packages;
pub mod queries;
pub mod state;
pub mod types;

pub use state::AidEscrow;
pub use types::{Aggregates, Config, Deposit, Error, Metadata, Package, PackageStatus, Payout};
