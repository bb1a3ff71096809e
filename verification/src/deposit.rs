//! The deposit and mint engine: it checks a batch of deposit amounts
//! against the basket's composition, computes the number of basket units
//! they stand for, and lays out the ledger calls that take the assets in
//! and mint the basket tokens.

use crate::accounts::{DepositAndMintWithInit, SuppliedAccount};
use crate::config::{normalized, CompositeConfig, MAX_ASSETS};
use crate::configurator::{configure, configure_fault, configured};
use crate::divisibility::{lemma_divides_quotient, lemma_multiple_quotient};
use crate::error::CompositeError;
use crate::ledger::{LedgerCall, Signer};
use vstd::arithmetic::div_mod::lemma_small_mod;
use vstd::prelude::*;

verus! {

/// What is wrong with an amount measured against a per-unit amount, if
/// anything: the amount is zero, the per-unit amount is zero, or the amount
/// is not a whole multiple of the per-unit amount.
pub open spec fn amount_fault(amount: u64, per_unit: u64) -> Option<CompositeError> {
    if amount == 0 {
        Some(CompositeError::ZeroAmount)
    } else if per_unit == 0 {
        Some(CompositeError::InvalidUnit)
    } else if amount % per_unit != 0 {
        Some(CompositeError::NonMultipleDeposit)
    } else {
        None
    }
}

/// What is wrong with leg `i` of a deposit taken by itself, if anything.
pub open spec fn leg_fault(per_unit: Seq<u64>, amounts: Seq<u64>, i: int) -> Option<
    CompositeError,
> {
    amount_fault(amounts[i], per_unit[i])
}

/// The fault of the first unsound leg among the first `upto` legs.
pub open spec fn first_leg_fault(per_unit: Seq<u64>, amounts: Seq<u64>, upto: nat) -> Option<
    CompositeError,
>
    decreases upto,
{
    if upto == 0 {
        None
    } else {
        match first_leg_fault(per_unit, amounts, (upto - 1) as nat) {
            Some(e) => Some(e),
            None => leg_fault(per_unit, amounts, upto - 1),
        }
    }
}

/// The number of basket units that leg `i` stands for.
pub open spec fn leg_units(per_unit: Seq<u64>, amounts: Seq<u64>, i: int) -> u64 {
    amounts[i] / per_unit[i]
}

/// The first `upto` legs all stand for the number of units of the first.
pub open spec fn units_agree(per_unit: Seq<u64>, amounts: Seq<u64>, upto: int) -> bool {
    forall|i: int|
        0 <= i < upto ==> #[trigger] leg_units(per_unit, amounts, i) == leg_units(
            per_unit,
            amounts,
            0,
        )
}

/// The number of basket units that `amounts` stands for under the per-unit
/// amounts `per_unit`, or why the deposit is refused. Every leg is checked
/// by itself first, and the first unsound leg decides. Only a deposit whose
/// legs are all sound is refused for legs that stand for different numbers
/// of units.
pub open spec fn deposit_units(per_unit: Seq<u64>, amounts: Seq<u64>) -> Result<
    u64,
    CompositeError,
> {
    if per_unit.len() == 0 {
        Err(CompositeError::ZeroAssets)
    } else if amounts.len() != per_unit.len() {
        Err(CompositeError::WrongArgumentLength)
    } else {
        match first_leg_fault(per_unit, amounts, per_unit.len()) {
            Some(e) => Err(e),
            None => if units_agree(per_unit, amounts, per_unit.len() as int) {
                Ok(leg_units(per_unit, amounts, 0))
            } else {
                Err(CompositeError::RatioMismatch)
            },
        }
    }
}

/// The first unsound leg decides: `first_leg_fault` is the fault of a leg
/// before which every leg is sound, and it is `None` only if every leg is.
pub proof fn lemma_first_leg_fault(per_unit: Seq<u64>, amounts: Seq<u64>, upto: nat)
    ensures
        match first_leg_fault(per_unit, amounts, upto) {
            Some(e) => exists|i: int|
                0 <= i < upto && #[trigger] leg_fault(per_unit, amounts, i) == Some(e) && forall|
                    j: int,
                | 0 <= j < i ==> #[trigger] leg_fault(per_unit, amounts, j) is None,
            None => forall|i: int|
                0 <= i < upto ==> #[trigger] leg_fault(per_unit, amounts, i) is None,
        },
    decreases upto,
{
    if upto > 0 {
        lemma_first_leg_fault(per_unit, amounts, (upto - 1) as nat);
        if first_leg_fault(per_unit, amounts, (upto - 1) as nat) is None {
            if leg_fault(per_unit, amounts, upto - 1) is Some {
                assert(leg_fault(per_unit, amounts, upto - 1) == first_leg_fault(
                    per_unit,
                    amounts,
                    upto,
                ));
            }
        }
    }
}

/// A leg before which every leg is sound, and which is itself unsound,
/// decides the outcome.
pub proof fn lemma_first_unsound_leg_decides(
    per_unit: Seq<u64>,
    amounts: Seq<u64>,
    upto: nat,
    i: int,
)
    requires
        0 <= i < upto,
        leg_fault(per_unit, amounts, i) is Some,
        forall|j: int| 0 <= j < i ==> #[trigger] leg_fault(per_unit, amounts, j) is None,
    ensures
        first_leg_fault(per_unit, amounts, upto) == leg_fault(per_unit, amounts, i),
    decreases upto,
{
    if upto - 1 > i {
        lemma_first_unsound_leg_decides(per_unit, amounts, (upto - 1) as nat, i);
    } else {
        lemma_first_leg_fault(per_unit, amounts, i as nat);
    }
}

/// A deposit of `units` basket units in every leg is accepted, and it
/// stands for exactly `units`.
pub proof fn lemma_exact_deposit_accepted(per_unit: Seq<u64>, amounts: Seq<u64>, units: u64)
    requires
        per_unit.len() > 0,
        amounts.len() == per_unit.len(),
        units > 0,
        forall|i: int|
            #![trigger per_unit[i]]
            #![trigger amounts[i]]
            0 <= i < per_unit.len() ==> per_unit[i] > 0 && amounts[i] == per_unit[i] * units,
    ensures
        deposit_units(per_unit, amounts) == Ok::<u64, CompositeError>(units),
{
    assert forall|i: int| 0 <= i < per_unit.len() implies #[trigger] leg_fault(
        per_unit,
        amounts,
        i,
    ) is None && leg_units(per_unit, amounts, i) == units by {
        assert(amounts[i] == per_unit[i] * units);
        lemma_multiple_quotient(per_unit[i] as nat, units as nat);
    }
    assert(leg_fault(per_unit, amounts, 0) is None);
    assert forall|i: int| 0 <= i < per_unit.len() implies #[trigger] leg_units(
        per_unit,
        amounts,
        i,
    ) == leg_units(per_unit, amounts, 0) by {
        assert(leg_fault(per_unit, amounts, i) is None);
    }
    lemma_first_leg_fault(per_unit, amounts, per_unit.len());
}

/// An accepted deposit is exact: it stands for a positive number of basket
/// units, and every leg is that number times its per-unit amount.
pub proof fn lemma_accepted_deposit_exact(per_unit: Seq<u64>, amounts: Seq<u64>)
    requires
        deposit_units(per_unit, amounts) is Ok,
    ensures
        per_unit.len() > 0,
        amounts.len() == per_unit.len(),
        deposit_units(per_unit, amounts)->Ok_0 > 0,
        forall|i: int|
            #![trigger per_unit[i]]
            #![trigger amounts[i]]
            0 <= i < per_unit.len() ==> per_unit[i] > 0 && amounts[i] == per_unit[i]
                * deposit_units(per_unit, amounts)->Ok_0,
{
    let units = deposit_units(per_unit, amounts)->Ok_0;
    lemma_first_leg_fault(per_unit, amounts, per_unit.len());
    assert(leg_fault(per_unit, amounts, 0) is None);
    assert forall|i: int|
        #![trigger per_unit[i]]
        #![trigger amounts[i]]
        0 <= i < per_unit.len() implies per_unit[i] > 0 && amounts[i] == per_unit[i] * units by {
        assert(leg_fault(per_unit, amounts, i) is None);
        assert(leg_units(per_unit, amounts, i) == units);
        lemma_divides_quotient(per_unit[i] as nat, amounts[i] as nat);
    }
    assert(units > 0) by (nonlinear_arith)
        requires
            amounts[0] > 0,
            amounts[0] == per_unit[0] * units,
    ;
}

/// A deposit whose legs are all positive whole multiples, but not all of
/// the same number of units, is refused as a ratio mismatch.
pub proof fn lemma_unequal_legs_refused(per_unit: Seq<u64>, amounts: Seq<u64>, i: int, j: int)
    requires
        amounts.len() == per_unit.len(),
        forall|h: int|
            #![trigger per_unit[h]]
            #![trigger amounts[h]]
            0 <= h < per_unit.len() ==> amounts[h] > 0 && per_unit[h] > 0 && amounts[h]
                % per_unit[h] == 0,
        0 <= i < per_unit.len(),
        0 <= j < per_unit.len(),
        amounts[i] / per_unit[i] != amounts[j] / per_unit[j],
    ensures
        deposit_units(per_unit, amounts) == Err::<u64, CompositeError>(
            CompositeError::RatioMismatch,
        ),
{
    let n = per_unit.len();
    lemma_first_leg_fault(per_unit, amounts, n);
    assert forall|h: int| 0 <= h < n implies #[trigger] leg_fault(per_unit, amounts, h) is None by {
        assert(amounts[h] > 0);
    }
    if units_agree(per_unit, amounts, n as int) {
        assert(leg_units(per_unit, amounts, i) == leg_units(per_unit, amounts, 0));
        assert(leg_units(per_unit, amounts, j) == leg_units(per_unit, amounts, 0));
    }
}

/// A deposit with a leg that is not a whole multiple of its per-unit amount
/// is refused, and never as a ratio mismatch. When every amount and every
/// per-unit amount is positive, the refusal is that of a non-multiple
/// deposit, whatever the other legs are.
pub proof fn lemma_non_multiple_leg_refused(per_unit: Seq<u64>, amounts: Seq<u64>, i: int)
    requires
        amounts.len() == per_unit.len(),
        0 <= i < per_unit.len(),
        per_unit[i] > 0,
        amounts[i] % per_unit[i] != 0,
    ensures
        deposit_units(per_unit, amounts) is Err,
        deposit_units(per_unit, amounts) != Err::<u64, CompositeError>(
            CompositeError::RatioMismatch,
        ),
        (forall|h: int|
            #![trigger per_unit[h]]
            #![trigger amounts[h]]
            0 <= h < per_unit.len() ==> amounts[h] > 0 && per_unit[h] > 0) ==> deposit_units(
            per_unit,
            amounts,
        ) == Err::<u64, CompositeError>(CompositeError::NonMultipleDeposit),
{
    let n = per_unit.len();
    assert(amounts[i] != 0) by {
        lemma_small_mod(0, per_unit[i] as nat);
    }
    assert(leg_fault(per_unit, amounts, i) == Some(CompositeError::NonMultipleDeposit));
    lemma_first_leg_fault(per_unit, amounts, n);
    if forall|h: int|
        #![trigger per_unit[h]]
        #![trigger amounts[h]]
        0 <= h < per_unit.len() ==> amounts[h] > 0 && per_unit[h] > 0 {
        let e = first_leg_fault(per_unit, amounts, n)->Some_0;
        let h = choose|h: int| 0 <= h < n && #[trigger] leg_fault(per_unit, amounts, h) == Some(e);
        assert(amounts[h] > 0 && per_unit[h] > 0);
    }
}

/// Checks one amount against its per-unit amount.
fn check_amount(amount: u64, per_unit: u64) -> (fault: Option<CompositeError>)
    ensures
        fault == amount_fault(amount, per_unit),
{
    if amount == 0 {
        Some(CompositeError::ZeroAmount)
    } else if per_unit == 0 {
        Some(CompositeError::InvalidUnit)
    } else if amount % per_unit != 0 {
        Some(CompositeError::NonMultipleDeposit)
    } else {
        None
    }
}

/// Checks the amounts of a deposit against a configuration and computes
/// the number of basket units to mint. Every leg is checked by itself, in
/// order, and the first leg with a zero amount, a zero per-unit amount or
/// an amount that is no whole multiple decides the refusal. Legs that are
/// all sound but stand for different numbers of units are a ratio
/// mismatch. An accepted deposit never stands for zero units, since every
/// amount is a positive multiple.
pub fn validate_deposit(config: &CompositeConfig, amounts: &Vec<u64>) -> (units: Result<
    u64,
    CompositeError,
>)
    ensures
        units == (if config.in_capacity() {
            deposit_units(config.per_unit(), amounts@)
        } else {
            Err(CompositeError::TooManyAssets)
        }),
        units matches Ok(k) ==> {
            &&& k > 0
            &&& forall|i: int|
                0 <= i < amounts.len() ==> #[trigger] amounts[i] == config.per_unit()[i] * k
        },
{
    let n: usize = config.num_assets as usize;
    if n > MAX_ASSETS {
        return Err(CompositeError::TooManyAssets);
    }
    if n == 0 {
        return Err(CompositeError::ZeroAssets);
    }
    if amounts.len() != n {
        return Err(CompositeError::WrongArgumentLength);
    }
    let ghost per_unit = config.per_unit();
    let mut units: u64 = 0;
    let mut agree: bool = true;
    let mut i: usize = 0;
    while i < n
        invariant
            i <= n,
            0 < n <= MAX_ASSETS,
            n == config.num_assets,
            n == amounts.len(),
            per_unit == config.per_unit(),
            first_leg_fault(per_unit, amounts@, i as nat) is None,
            i > 0 ==> units == leg_units(per_unit, amounts@, 0),
            agree == units_agree(per_unit, amounts@, i as int),
        decreases n - i,
    {
        let amount: u64 = amounts[i];
        let per: u64 = config.amounts_per_unit[i];
        assert(per == per_unit[i as int]);
        match check_amount(amount, per) {
            Some(fault) => {
                proof {
                    lemma_first_leg_fault(per_unit, amounts@, i as nat);
                    lemma_first_unsound_leg_decides(per_unit, amounts@, n as nat, i as int);
                }
                return Err(fault);
            },
            None => {},
        }
        let of_leg: u64 = amount / per;
        assert(of_leg == leg_units(per_unit, amounts@, i as int));
        if i == 0 {
            units = of_leg;
        } else if of_leg != units {
            agree = false;
        }
        i += 1;
    }
    if !agree {
        return Err(CompositeError::RatioMismatch);
    }
    proof {
        lemma_accepted_deposit_exact(per_unit, amounts@);
    }
    Ok(units)
}

/// The holding account of leg `i`, where `n` is the number of legs.
pub open spec fn vault_at(accounts: Seq<SuppliedAccount>, n: int, i: int) -> SuppliedAccount {
    accounts[n + i]
}

/// A leg before leg `i` names the same holding account as leg `i`.
pub open spec fn vault_named_before(accounts: Seq<SuppliedAccount>, n: int, i: int) -> bool {
    exists|j: int|
        0 <= j < i && (#[trigger] vault_at(accounts, n, j)).key == vault_at(accounts, n, i).key
}

/// Leg `i` needs its holding account created: the ledger holds nothing for
/// it yet, and no earlier leg names the same account.
pub open spec fn needs_vault(accounts: Seq<SuppliedAccount>, n: int, i: int) -> bool {
    vault_at(accounts, n, i).data_is_empty && !vault_named_before(accounts, n, i)
}

/// The creations of holding accounts for the first `upto` of `n` legs, in
/// the order of the legs.
pub open spec fn vault_creations(accounts: Seq<SuppliedAccount>, n: int, upto: int) -> Seq<
    LedgerCall,
>
    decreases upto,
{
    if upto <= 0 {
        Seq::empty()
    } else {
        let earlier = vault_creations(accounts, n, upto - 1);
        if needs_vault(accounts, n, upto - 1) {
            earlier.push(
                LedgerCall::CreateVault {
                    mint: (upto - 1) as usize,
                    vault: (n + upto - 1) as usize,
                },
            )
        } else {
            earlier
        }
    }
}

/// The transfers of a deposit: leg `i` moves its amount from the caller's
/// source account into the vault's holding account.
pub open spec fn deposit_transfers(amounts: Seq<u64>) -> Seq<LedgerCall> {
    Seq::new(
        amounts.len(),
        |i: int|
            LedgerCall::Transfer {
                from: (2 * amounts.len() + i) as usize,
                to: (amounts.len() + i) as usize,
                amount: amounts[i],
                authority: Signer::User,
            },
    )
}

/// The ledger calls of an accepted deposit of `units` basket units: the
/// holding accounts that are missing are created, then every leg is
/// transferred, then the basket tokens are minted.
pub open spec fn deposit_calls(
    accounts: Seq<SuppliedAccount>,
    amounts: Seq<u64>,
    units: u64,
) -> Seq<LedgerCall> {
    vault_creations(accounts, amounts.len() as int, amounts.len() as int) + deposit_transfers(
        amounts,
    ) + seq![LedgerCall::MintTo { amount: units }]
}

/// Whether a leg before leg `i` names the same holding account.
fn is_vault_named_before(accounts: &Vec<SuppliedAccount>, n: usize, i: usize) -> (found: bool)
    requires
        i < n,
        2 * n <= accounts.len(),
    ensures
        found == vault_named_before(accounts@, n as int, i as int),
{
    let mut j: usize = 0;
    while j < i
        invariant
            j <= i < n,
            2 * n <= accounts.len(),
            forall|h: int|
                0 <= h < j ==> (#[trigger] vault_at(accounts@, n as int, h)).key != vault_at(
                    accounts@,
                    n as int,
                    i as int,
                ).key,
        decreases i - j,
    {
        if accounts[n + j].key == accounts[n + i].key {
            assert(vault_at(accounts@, n as int, j as int).key == vault_at(
                accounts@,
                n as int,
                i as int,
            ).key);
            return true;
        }
        j += 1;
    }
    false
}

/// Lays out the ledger calls of an accepted deposit.
fn plan_deposit(accounts: &Vec<SuppliedAccount>, amounts: &Vec<u64>, units: u64) -> (calls: Vec<
    LedgerCall,
>)
    requires
        3 * amounts.len() <= accounts.len(),
    ensures
        calls@ == deposit_calls(accounts@, amounts@, units),
{
    let n: usize = amounts.len();
    let mut calls: Vec<LedgerCall> = Vec::new();
    let mut i: usize = 0;
    while i < n
        invariant
            i <= n,
            n == amounts.len(),
            3 * n <= accounts.len(),
            calls@ == vault_creations(accounts@, n as int, i as int),
        decreases n - i,
    {
        if accounts[n + i].data_is_empty && !is_vault_named_before(accounts, n, i) {
            calls.push(LedgerCall::CreateVault { mint: i, vault: n + i });
        }
        i += 1;
    }
    let ghost creations = calls@;
    let mut i: usize = 0;
    while i < n
        invariant
            i <= n,
            n == amounts.len(),
            3 * n <= accounts.len(),
            creations == vault_creations(accounts@, n as int, n as int),
            calls@ == creations + deposit_transfers(amounts@).take(i as int),
        decreases n - i,
    {
        calls.push(
            LedgerCall::Transfer {
                from: 2 * n + i,
                to: n + i,
                amount: amounts[i],
                authority: Signer::User,
            },
        );
        assert(calls@ =~= creations + deposit_transfers(amounts@).take(i + 1));
        i += 1;
    }
    assert(deposit_transfers(amounts@).take(n as int) =~= deposit_transfers(amounts@));
    calls.push(LedgerCall::MintTo { amount: units });
    calls
}

/// The per-unit amounts that a deposit is checked against: those of the
/// configuration that exists, or for a first deposit the ratio in lowest
/// terms.
pub open spec fn effective_per_unit(accounts: DepositAndMintWithInit, ratio: Seq<u64>) -> Seq<
    u64,
> {
    if accounts.config.initialized() {
        accounts.config.per_unit()
    } else {
        normalized(ratio)
    }
}

/// The number of basket units that a deposit call mints, or why the call
/// is refused: the configurator's fault if it has one, else the outcome of
/// checking the amounts.
pub open spec fn deposit_outcome(
    accounts: DepositAndMintWithInit,
    ratio: Seq<u64>,
    amounts: Seq<u64>,
    decimals: u8,
) -> Result<u64, CompositeError> {
    match configure_fault(accounts, ratio, decimals) {
        Some(e) => Err(e),
        None => deposit_units(effective_per_unit(accounts, ratio), amounts),
    }
}

/// Deposits a batch of assets and mints the basket tokens they stand for;
/// the first deposit also creates the basket's configuration.
///
/// The ratio `amounts_per_unit` creates the configuration when the record
/// is not initialized, and is checked against it when it is. The amounts
/// are then checked against the configured per-unit amounts. On success
/// the configuration record in `ctx` is the configured one and the ledger
/// calls to issue are returned, in order. On refusal nothing is changed.
pub fn deposit_and_mint_with_init(
    ctx: &mut DepositAndMintWithInit,
    amounts_per_unit: Vec<u64>,
    amounts: Vec<u64>,
    composite_decimals: u8,
) -> (outcome: Result<Vec<LedgerCall>, CompositeError>)
    ensures
        match outcome {
            Ok(calls) => {
                &&& deposit_outcome(*old(ctx), amounts_per_unit@, amounts@, composite_decimals)
                    matches Ok(units)
                &&& units > 0
                &&& calls@ == deposit_calls(old(ctx).remaining_accounts@, amounts@, units)
                &&& configured(final(ctx).config, *old(ctx), amounts_per_unit@)
                &&& *final(ctx) == (DepositAndMintWithInit {
                    config: final(ctx).config,
                    ..*old(ctx)
                })
                &&& final(ctx).config.unit_scale > 0 ==> final(ctx).config.wf()
                &&& !old(ctx).config.initialized() ==> final(ctx).config.wf()
            },
            Err(e) => {
                &&& deposit_outcome(*old(ctx), amounts_per_unit@, amounts@, composite_decimals)
                    == Err::<u64, CompositeError>(e)
                &&& *final(ctx) == *old(ctx)
            },
        },
{
    let config = match configure(ctx, &amounts_per_unit, composite_decimals) {
        Ok(config) => config,
        Err(e) => {
            return Err(e);
        },
    };
    let units = match validate_deposit(&config, &amounts) {
        Ok(units) => units,
        Err(e) => {
            return Err(e);
        },
    };
    proof {
        lemma_accepted_deposit_exact(config.per_unit(), amounts@);
    }
    let calls = plan_deposit(&ctx.remaining_accounts, &amounts, units);
    ctx.config = config;
    Ok(calls)
}

} // verus!
