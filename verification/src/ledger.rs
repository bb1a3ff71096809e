//! The calls that the vault asks the ledger to perform.
//!
//! The vault moves no balance itself. Each operation checks its inputs,
//! computes the amounts, and hands back the ledger calls that carry it out,
//! in the order in which they are to be issued. The ledger applies all of
//! them or none.

use vstd::prelude::*;

verus! {

/// Who authorizes a ledger call.
#[derive(Clone, Copy, Debug, PartialEq, Eq, Structural)]
pub enum Signer {
    /// The caller of the operation.
    User,
    /// The custody authority derived from the basket's configuration.
    MintAuthority,
}

/// One call on the ledger. Accounts are named by their position among the
/// accounts supplied with the operation.
#[derive(Clone, Copy, Debug, PartialEq, Eq, Structural)]
pub enum LedgerCall {
    /// Create the holding account at `vault` for the asset at `mint`, owned
    /// by the custody authority.
    CreateVault { mint: usize, vault: usize },
    /// Move `amount` from the account at `from` to the account at `to`.
    Transfer { from: usize, to: usize, amount: u64, authority: Signer },
    /// Mint `amount` basket tokens to the caller's basket-token account,
    /// authorized by the custody authority.
    MintTo { amount: u64 },
    /// Burn `amount` basket tokens from the caller's basket-token account,
    /// authorized by the caller.
    Burn { amount: u64 },
}

} // verus!
