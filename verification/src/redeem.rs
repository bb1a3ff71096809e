//! The redeem and withdraw engine: it computes what a burn of basket
//! tokens is owed in each asset, and lays out the ledger calls that burn
//! the tokens and pay the assets out.

use crate::accounts::RedeemAndWithdraw;
use crate::config::{CompositeConfig, MAX_ASSETS};
use crate::error::{CompositeError, RedeemError};
use crate::ledger::{LedgerCall, Signer};
use vstd::prelude::*;

verus! {

/// The amount of asset `i` in one basket unit, in raw token units: the
/// per-unit amount scaled back by the unit scale.
pub open spec fn scaled_per_unit(config: CompositeConfig, i: int) -> nat {
    config.per_unit()[i] as nat * config.unit_scale as nat
}

/// The amount of asset `i` owed for `basket_amount` basket tokens.
pub open spec fn owed(config: CompositeConfig, basket_amount: u64, i: int) -> nat {
    basket_amount as nat * scaled_per_unit(config, i)
}

/// Why the amount owed for asset `i` cannot be paid, if it cannot: one of
/// the two products does not fit in 64 bits.
pub open spec fn payout_fault(config: CompositeConfig, basket_amount: u64, i: int) -> Option<
    RedeemError,
> {
    if scaled_per_unit(config, i) > u64::MAX {
        Some(RedeemError::ScaleOverflow)
    } else if owed(config, basket_amount, i) > u64::MAX {
        Some(RedeemError::PayoutOverflow)
    } else {
        None
    }
}

/// The fault of the first asset among the first `upto` whose amount cannot
/// be paid.
pub open spec fn first_payout_fault(
    config: CompositeConfig,
    basket_amount: u64,
    upto: nat,
) -> Option<RedeemError>
    decreases upto,
{
    if upto == 0 {
        None
    } else {
        match first_payout_fault(config, basket_amount, (upto - 1) as nat) {
            Some(e) => Some(e),
            None => payout_fault(config, basket_amount, upto - 1),
        }
    }
}

/// The amounts owed for `basket_amount` basket tokens, one per asset in
/// the configured order, or the overflow that prevents the redemption.
pub open spec fn payouts(config: CompositeConfig, basket_amount: u64) -> Result<
    Seq<u64>,
    RedeemError,
> {
    match first_payout_fault(config, basket_amount, config.num_assets as nat) {
        Some(e) => Err(e),
        None => Ok(
            Seq::new(config.num_assets as nat, |i: int| owed(config, basket_amount, i) as u64),
        ),
    }
}

/// The first asset whose amount cannot be paid decides:
/// `first_payout_fault` is the fault of an asset before which every amount
/// can be paid, and it is `None` only if every amount can.
pub proof fn lemma_first_payout_fault(config: CompositeConfig, basket_amount: u64, upto: nat)
    ensures
        match first_payout_fault(config, basket_amount, upto) {
            Some(e) => exists|i: int|
                0 <= i < upto && #[trigger] payout_fault(config, basket_amount, i) == Some(e)
                    && forall|j: int|
                    0 <= j < i ==> #[trigger] payout_fault(config, basket_amount, j) is None,
            None => forall|i: int|
                0 <= i < upto ==> #[trigger] payout_fault(config, basket_amount, i) is None,
        },
    decreases upto,
{
    if upto > 0 {
        lemma_first_payout_fault(config, basket_amount, (upto - 1) as nat);
        if first_payout_fault(config, basket_amount, (upto - 1) as nat) is None {
            if payout_fault(config, basket_amount, upto - 1) is Some {
                assert(payout_fault(config, basket_amount, upto - 1) == first_payout_fault(
                    config,
                    basket_amount,
                    upto,
                ));
            }
        }
    }
}

/// An asset whose amount cannot be paid, and before which every amount
/// can, decides the outcome.
pub proof fn lemma_first_unpayable_decides(
    config: CompositeConfig,
    basket_amount: u64,
    upto: nat,
    i: int,
)
    requires
        0 <= i < upto,
        payout_fault(config, basket_amount, i) is Some,
        forall|j: int| 0 <= j < i ==> #[trigger] payout_fault(config, basket_amount, j) is None,
    ensures
        first_payout_fault(config, basket_amount, upto) == payout_fault(config, basket_amount, i),
    decreases upto,
{
    if upto - 1 > i {
        lemma_first_unpayable_decides(config, basket_amount, (upto - 1) as nat, i);
    } else {
        lemma_first_payout_fault(config, basket_amount, i as nat);
    }
}

/// A redemption of a positive amount fails with an overflow exactly when
/// the amount owed for some asset exceeds 64 bits, and otherwise pays each
/// asset its per-unit amount times the unit scale times the amount burned.
pub proof fn lemma_payouts_guard_overflow(config: CompositeConfig, basket_amount: u64)
    requires
        basket_amount > 0,
    ensures
        payouts(config, basket_amount) is Ok <==> (forall|i: int|
            0 <= i < config.num_assets ==> #[trigger] owed(config, basket_amount, i) <= u64::MAX),
        payouts(config, basket_amount) matches Ok(amounts) ==> amounts.len() == config.num_assets
            && forall|i: int|
            0 <= i < config.num_assets ==> #[trigger] amounts[i] == owed(config, basket_amount, i),
{
    let n = config.num_assets as nat;
    lemma_first_payout_fault(config, basket_amount, n);
    assert forall|i: int| 0 <= i < n implies (#[trigger] payout_fault(config, basket_amount, i)
        is None <==> owed(config, basket_amount, i) <= u64::MAX) by {
        let s = scaled_per_unit(config, i);
        assert(s <= basket_amount * s) by (nonlinear_arith)
            requires
                basket_amount > 0,
                s >= 0,
        ;
    }
    if forall|i: int| 0 <= i < n ==> #[trigger] owed(config, basket_amount, i) <= u64::MAX {
        if first_payout_fault(config, basket_amount, n) is Some {
            let i = choose|i: int|
                0 <= i < n && #[trigger] payout_fault(config, basket_amount, i) is Some;
            assert(owed(config, basket_amount, i) <= u64::MAX);
        }
    } else {
        let i = choose|i: int|
            0 <= i < n && !(#[trigger] owed(config, basket_amount, i) <= u64::MAX);
        assert(payout_fault(config, basket_amount, i) is Some);
    }
}

/// Computes what one asset is owed, with both multiplications checked.
fn checked_payout(per_unit: u64, unit_scale: u64, basket_amount: u64) -> (paid: Result<
    u64,
    RedeemError,
>)
    ensures
        paid == (if per_unit * unit_scale > u64::MAX {
            Err::<u64, RedeemError>(RedeemError::ScaleOverflow)
        } else if basket_amount * (per_unit * unit_scale) > u64::MAX {
            Err(RedeemError::PayoutOverflow)
        } else {
            Ok((basket_amount * (per_unit * unit_scale)) as u64)
        }),
{
    match per_unit.checked_mul(unit_scale) {
        Some(scaled) => match basket_amount.checked_mul(scaled) {
            Some(amount) => Ok(amount),
            None => Err(RedeemError::PayoutOverflow),
        },
        None => Err(RedeemError::ScaleOverflow),
    }
}

/// Computes the amount owed in each asset for a burn of `basket_amount`
/// basket tokens. Both multiplications are checked; the first asset whose
/// amount does not fit in 64 bits decides the refusal.
pub fn compute_payouts(config: &CompositeConfig, basket_amount: u64) -> (amounts: Result<
    Vec<u64>,
    RedeemError,
>)
    ensures
        match amounts {
            Ok(list) => {
                &&& config.in_capacity()
                &&& payouts(*config, basket_amount) == Ok::<Seq<u64>, RedeemError>(list@)
                &&& list.len() == config.num_assets
                &&& forall|i: int|
                    0 <= i < list.len() ==> #[trigger] list[i] == basket_amount * (
                    config.per_unit()[i] * config.unit_scale)
            },
            Err(e) => if config.in_capacity() {
                payouts(*config, basket_amount) == Err::<Seq<u64>, RedeemError>(e)
            } else {
                e == RedeemError::Rejected(CompositeError::TooManyAssets)
            },
        },
{
    let n: usize = config.num_assets as usize;
    if n > MAX_ASSETS {
        return Err(RedeemError::Rejected(CompositeError::TooManyAssets));
    }
    let mut list: Vec<u64> = Vec::new();
    let mut i: usize = 0;
    while i < n
        invariant
            i <= n,
            n == config.num_assets,
            n <= MAX_ASSETS,
            list.len() == i,
            first_payout_fault(*config, basket_amount, i as nat) is None,
            forall|j: int| 0 <= j < i ==> #[trigger] list@[j] == owed(*config, basket_amount, j),
        decreases n - i,
    {
        let per: u64 = config.amounts_per_unit[i];
        assert(per == config.per_unit()[i as int]);
        let amount: u64 = match checked_payout(per, config.unit_scale, basket_amount) {
            Ok(amount) => amount,
            Err(fault) => {
                proof {
                    lemma_first_payout_fault(*config, basket_amount, i as nat);
                    lemma_first_unpayable_decides(*config, basket_amount, n as nat, i as int);
                }
                return Err(fault);
            },
        };
        list.push(amount);
        i += 1;
    }
    assert(list@ =~= Seq::new(
        config.num_assets as nat,
        |i: int| owed(*config, basket_amount, i) as u64,
    ));
    Ok(list)
}

/// Why a redemption is refused before any amount is computed, if it is:
/// the first check that fails, in the order in which the checks are made.
pub open spec fn redeem_fault(accounts: RedeemAndWithdraw, basket_amount: u64) -> Option<
    CompositeError,
> {
    if accounts.config.composite_mint != accounts.composite_mint {
        Some(CompositeError::WrongMint)
    } else if basket_amount == 0 {
        Some(CompositeError::ZeroAmount)
    } else if accounts.config.num_assets == 0 {
        Some(CompositeError::ZeroAssets)
    } else if !accounts.config.in_capacity() {
        Some(CompositeError::TooManyAssets)
    } else if accounts.remaining_accounts@.len() < 2 * accounts.config.num_assets {
        Some(CompositeError::MissingAccounts)
    } else {
        None
    }
}

/// The ledger calls of a redemption that pays `amounts`: the basket tokens
/// are burned, then asset `i` is paid from the vault's holding account to
/// the caller's destination account.
pub open spec fn redeem_calls(basket_amount: u64, amounts: Seq<u64>) -> Seq<LedgerCall> {
    seq![LedgerCall::Burn { amount: basket_amount }] + Seq::new(
        amounts.len(),
        |i: int|
            LedgerCall::Transfer {
                from: i as usize,
                to: (amounts.len() + i) as usize,
                amount: amounts[i],
                authority: Signer::MintAuthority,
            },
    )
}

/// The ledger calls of a redemption call, or why it is refused.
pub open spec fn redeem_outcome(accounts: RedeemAndWithdraw, basket_amount: u64) -> Result<
    Seq<LedgerCall>,
    RedeemError,
> {
    match redeem_fault(accounts, basket_amount) {
        Some(e) => Err(RedeemError::Rejected(e)),
        None => match payouts(accounts.config, basket_amount) {
            Ok(amounts) => Ok(redeem_calls(basket_amount, amounts)),
            Err(e) => Err(e),
        },
    }
}

/// Burns basket tokens and withdraws the share of each asset that they
/// stand for. Returns the ledger calls to issue, in order: the burn, then
/// one transfer per asset of the per-unit amount times the unit scale
/// times the amount burned. Nothing is returned unless every amount fits.
pub fn redeem_and_withdraw(ctx: &RedeemAndWithdraw, amount_composite: u64) -> (outcome: Result<
    Vec<LedgerCall>,
    RedeemError,
>)
    ensures
        match outcome {
            Ok(calls) => {
                &&& redeem_outcome(*ctx, amount_composite) == Ok::<Seq<LedgerCall>, RedeemError>(
                    calls@,
                )
                &&& calls.len() == 1 + ctx.config.num_assets
                &&& calls[0] == (LedgerCall::Burn { amount: amount_composite })
                &&& forall|i: int|
                    0 <= i < ctx.config.num_assets ==> #[trigger] owed(
                        ctx.config,
                        amount_composite,
                        i,
                    ) <= u64::MAX
                &&& forall|j: int|
                    1 <= j <= ctx.config.num_assets ==> #[trigger] calls[j] == (
                    LedgerCall::Transfer {
                        from: (j - 1) as usize,
                        to: (ctx.config.num_assets + j - 1) as usize,
                        amount: owed(ctx.config, amount_composite, j - 1) as u64,
                        authority: Signer::MintAuthority,
                    })
            },
            Err(e) => redeem_outcome(*ctx, amount_composite) == Err::<Seq<LedgerCall>, RedeemError>(
                e,
            ),
        },
{
    if ctx.config.composite_mint != ctx.composite_mint {
        return Err(RedeemError::Rejected(CompositeError::WrongMint));
    }
    if amount_composite == 0 {
        return Err(RedeemError::Rejected(CompositeError::ZeroAmount));
    }
    let n: usize = ctx.config.num_assets as usize;
    if n == 0 {
        return Err(RedeemError::Rejected(CompositeError::ZeroAssets));
    }
    if n > MAX_ASSETS {
        return Err(RedeemError::Rejected(CompositeError::TooManyAssets));
    }
    if ctx.remaining_accounts.len() < n * 2 {
        return Err(RedeemError::Rejected(CompositeError::MissingAccounts));
    }
    let amounts = match compute_payouts(&ctx.config, amount_composite) {
        Ok(amounts) => amounts,
        Err(e) => {
            return Err(e);
        },
    };
    let mut calls: Vec<LedgerCall> = Vec::new();
    calls.push(LedgerCall::Burn { amount: amount_composite });
    let ghost planned = redeem_calls(amount_composite, amounts@);
    let mut i: usize = 0;
    while i < n
        invariant
            i <= n,
            n == amounts.len(),
            n <= MAX_ASSETS,
            planned == redeem_calls(amount_composite, amounts@),
            calls@ == planned.take(1 + i),
        decreases n - i,
    {
        calls.push(
            LedgerCall::Transfer {
                from: i,
                to: n + i,
                amount: amounts[i],
                authority: Signer::MintAuthority,
            },
        );
        assert(calls@ =~= planned.take(2 + i));
        i += 1;
    }
    proof {
        assert(planned.take(1 + n) =~= planned);
        assert forall|i: int| 0 <= i < n implies #[trigger] owed(ctx.config, amount_composite, i)
            == amounts@[i] by {}
        assert forall|j: int| 1 <= j <= n implies #[trigger] calls@[j] == (LedgerCall::Transfer {
            from: (j - 1) as usize,
            to: (n + j - 1) as usize,
            amount: amounts@[j - 1],
            authority: Signer::MintAuthority,
        }) by {
            assert(calls@[j] == planned[j]);
        }
    }
    Ok(calls)
}

} // verus!
