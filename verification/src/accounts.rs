//! What an operation is given: the named accounts of the call and the
//! accounts supplied after them.

use crate::config::CompositeConfig;
use crate::identity::Identity;
use vstd::prelude::*;

verus! {

/// The basket token as the ledger holds it.
#[derive(Clone, Copy, Debug, PartialEq, Eq)]
pub struct BasketMint {
    /// The basket token's identity.
    pub key: Identity,
    /// Who may mint the basket token, if anyone.
    pub mint_authority: Option<Identity>,
    /// The basket token's divisibility.
    pub decimals: u8,
}

/// An account supplied with a deposit.
#[derive(Clone, Copy, Debug, PartialEq, Eq)]
pub struct SuppliedAccount {
    /// The account's identity.
    pub key: Identity,
    /// Whether the ledger holds no data for the account yet.
    pub data_is_empty: bool,
}

/// The accounts of a deposit. The supplied accounts come in three blocks of
/// one account per asset: the assets, the vault's holding accounts, and the
/// caller's source accounts.
#[derive(Clone, Debug, PartialEq, Eq)]
pub struct DepositAndMintWithInit {
    /// The caller, who pays in the assets.
    pub user: Identity,
    /// The basket token.
    pub composite_mint: BasketMint,
    /// The basket's configuration record, not yet initialized before the
    /// first deposit.
    pub config: CompositeConfig,
    /// The custody authority.
    pub mint_auth: Identity,
    /// The derivation salt of the configuration record.
    pub bump_config: u8,
    /// The derivation salt of the custody authority.
    pub bump_mint_auth: u8,
    /// The accounts supplied after the named ones.
    pub remaining_accounts: Vec<SuppliedAccount>,
}

/// The accounts of a redemption. The supplied accounts come in two blocks
/// of one account per asset: the vault's holding accounts, and the caller's
/// destination accounts.
#[derive(Clone, Debug, PartialEq, Eq)]
pub struct RedeemAndWithdraw {
    /// The basket token named in the call.
    pub composite_mint: Identity,
    /// The basket's configuration record.
    pub config: CompositeConfig,
    /// The accounts supplied after the named ones.
    pub remaining_accounts: Vec<Identity>,
}

} // verus!
