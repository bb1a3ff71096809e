//! The reasons for which the vault refuses an operation.

use vstd::prelude::*;

verus! {

/// Why a configuration, a deposit or a redemption was refused. Every
/// refusal is final: the caller corrects the input and submits again.
#[derive(Clone, Copy, Debug, PartialEq, Eq, Structural)]
pub enum CompositeError {
    /// The per-unit ratio is unusable: it is empty, it is all zero when the
    /// basket is created, or a per-unit amount that a deposit is measured
    /// against is zero.
    InvalidUnit,
    /// The basket token's minting authority is not the custody authority.
    BadMintAuth,
    /// The basket token's decimals differ from those the caller declared.
    BadDecimals,
    /// The basket token named in the call is not the one the configuration
    /// was created for.
    WrongMint,
    /// A deposit amount, or the amount to burn, is zero.
    ZeroAmount,
    /// A deposit amount is not a whole multiple of its per-unit amount.
    NonMultipleDeposit,
    /// The ratio supplied is not equivalent to the stored composition, or
    /// the legs of a deposit stand for different numbers of basket units.
    RatioMismatch,
    /// The number of basket units to mint came out as zero.
    ZeroMint,
    /// The ratio names more assets than a basket can hold.
    TooManyAssets,
    /// Fewer accounts were supplied than the basket's assets need.
    MissingAccounts,
    /// A list's length differs from the number of configured assets.
    WrongArgumentLength,
    /// The configuration holds no asset.
    ZeroAssets,
}

/// Why a redemption was refused.
#[derive(Clone, Copy, Debug, PartialEq, Eq, Structural)]
pub enum RedeemError {
    /// A check on the call's inputs failed.
    Rejected(CompositeError),
    /// A per-unit amount times the unit scale does not fit in 64 bits.
    ScaleOverflow,
    /// The amount owed for one asset does not fit in 64 bits.
    PayoutOverflow,
}

impl CompositeError {
    /// The text of `message`.
    pub open spec fn message_text(self) -> Seq<char> {
        match self {
            CompositeError::InvalidUnit => "Invalid per-unit amounts"@,
            CompositeError::BadMintAuth => "Composite mint has wrong authority"@,
            CompositeError::BadDecimals => "Composite mint has unexpected decimals"@,
            CompositeError::WrongMint => "Wrong mint passed to instruction"@,
            CompositeError::ZeroAmount => "Zero amounts are not allowed"@,
            CompositeError::NonMultipleDeposit => {
                "Deposit must be an exact multiple of the configured per-unit amount"@
            },
            CompositeError::RatioMismatch => "Deposits do not match the required ratio"@,
            CompositeError::ZeroMint => "Mint amount computed to zero"@,
            CompositeError::TooManyAssets => "Too many assets configured"@,
            CompositeError::MissingAccounts => "Missing remaining accounts for dynamic assets"@,
            CompositeError::WrongArgumentLength => "Wrong number of arguments provided"@,
            CompositeError::ZeroAssets => "Zero assets configured"@,
        }
    }

    /// A sentence for the caller that says what was wrong.
    pub fn message(&self) -> (text: &'static str)
        ensures
            text@ == self.message_text(),
    {
        match self {
            CompositeError::InvalidUnit => "Invalid per-unit amounts",
            CompositeError::BadMintAuth => "Composite mint has wrong authority",
            CompositeError::BadDecimals => "Composite mint has unexpected decimals",
            CompositeError::WrongMint => "Wrong mint passed to instruction",
            CompositeError::ZeroAmount => "Zero amounts are not allowed",
            CompositeError::NonMultipleDeposit => {
                "Deposit must be an exact multiple of the configured per-unit amount"
            },
            CompositeError::RatioMismatch => "Deposits do not match the required ratio",
            CompositeError::ZeroMint => "Mint amount computed to zero",
            CompositeError::TooManyAssets => "Too many assets configured",
            CompositeError::MissingAccounts => "Missing remaining accounts for dynamic assets",
            CompositeError::WrongArgumentLength => "Wrong number of arguments provided",
            CompositeError::ZeroAssets => "Zero assets configured",
        }
    }
}

} // verus!
