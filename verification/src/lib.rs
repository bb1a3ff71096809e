//! Ratio and unit accounting for a composite basket vault.
//!
//! A basket is a fixed list of assets in a fixed integer ratio. Depositing
//! the assets in that ratio mints basket tokens, one per basket unit;
//! burning basket tokens pays the assets back out. This crate holds the
//! rules of the vault: it reduces a basket's ratio to lowest terms, checks
//! every deposit against it, computes what a redemption is owed, and lays
//! out the ledger calls that carry an operation out. Moving balances is the
//! ledger's work and happens outside this crate.

pub mod accounts;
pub mod config;
pub mod configurator;
pub mod deposit;
pub mod divisibility;
pub mod error;
pub mod identity;
pub mod ledger;
pub mod redeem;
pub mod round_trip;

pub use accounts::{BasketMint, DepositAndMintWithInit, RedeemAndWithdraw, SuppliedAccount};
pub use config::{normalize, CompositeConfig, MAX_ASSETS};
pub use configurator::{configure, verify_ratio};
pub use deposit::{deposit_and_mint_with_init, validate_deposit};
pub use divisibility::{gcd_of_list, gcd_u64};
pub use error::{CompositeError, RedeemError};
pub use identity::Identity;
pub use ledger::{LedgerCall, Signer};
pub use redeem::{compute_payouts, redeem_and_withdraw};
