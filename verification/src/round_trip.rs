//! What a deposit followed by a redemption gives back.

use crate::config::CompositeConfig;
use crate::deposit::{deposit_units, lemma_accepted_deposit_exact};
use crate::error::RedeemError;
use crate::redeem::{lemma_payouts_guard_overflow, owed, payouts, scaled_per_unit};
use vstd::prelude::*;

verus! {

/// Redeeming the basket units that a deposit minted pays, for each asset,
/// the per-unit amount times the unit scale times the units: the amount
/// deposited times the unit scale. With a unit scale of one the deposit
/// comes back exactly. This holds whenever the amounts owed fit in 64 bits;
/// otherwise the redemption fails with an overflow.
pub proof fn lemma_redeeming_minted_units(config: CompositeConfig, amounts: Seq<u64>)
    requires
        config.in_capacity(),
        deposit_units(config.per_unit(), amounts) is Ok,
    ensures
        ({
            let units = deposit_units(config.per_unit(), amounts)->Ok_0;
            let fits = forall|i: int|
                0 <= i < config.num_assets ==> #[trigger] owed(config, units, i) <= u64::MAX;
            &&& payouts(config, units) is Ok <==> fits
            &&& payouts(config, units) matches Ok(paid) ==> {
                &&& paid.len() == amounts.len()
                &&& forall|i: int|
                    0 <= i < paid.len() ==> #[trigger] paid[i] == config.per_unit()[i]
                        * config.unit_scale * units
                &&& forall|i: int|
                    0 <= i < paid.len() ==> #[trigger] paid[i] == config.unit_scale * amounts[i]
                &&& config.unit_scale == 1 ==> paid == amounts
            }
        }),
{
    let units = deposit_units(config.per_unit(), amounts)->Ok_0;
    lemma_accepted_deposit_exact(config.per_unit(), amounts);
    lemma_payouts_guard_overflow(config, units);
    if payouts(config, units) is Ok {
        let paid = payouts(config, units)->Ok_0;
        assert forall|i: int| 0 <= i < paid.len() implies #[trigger] paid[i]
            == config.per_unit()[i] * config.unit_scale * units && paid[i] == config.unit_scale
            * amounts[i] by {
            let p = config.per_unit()[i] as nat;
            let s = config.unit_scale as nat;
            let k = units as nat;
            assert(paid[i] == owed(config, units, i));
            assert(amounts[i] == p * k);
            assert(k * (p * s) == p * s * k && k * (p * s) == s * (p * k)) by (nonlinear_arith);
        }
        if config.unit_scale == 1 {
            assert(paid =~= amounts);
        }
    }
}

/// Redeeming `units` basket tokens returns exactly the amounts `amounts`
/// whenever each of them is the per-unit amount times the unit scale times
/// `units`.
pub proof fn lemma_redemption_returns_deposit(
    config: CompositeConfig,
    amounts: Seq<u64>,
    units: u64,
)
    requires
        config.in_capacity(),
        amounts.len() == config.num_assets,
        units > 0,
        forall|i: int|
            0 <= i < amounts.len() ==> #[trigger] amounts[i] == config.per_unit()[i]
                * config.unit_scale * units,
    ensures
        payouts(config, units) == Ok::<Seq<u64>, RedeemError>(amounts),
{
    assert forall|i: int| 0 <= i < config.num_assets implies #[trigger] owed(config, units, i)
        == amounts[i] by {
        let p = config.per_unit()[i] as nat;
        let s = config.unit_scale as nat;
        let k = units as nat;
        assert(amounts[i] == p * s * k);
        assert(owed(config, units, i) == k * scaled_per_unit(config, i));
        assert(k * (p * s) == p * s * k) by (nonlinear_arith);
    }
    lemma_payouts_guard_overflow(config, units);
    assert(payouts(config, units)->Ok_0 =~= amounts);
}

} // verus!
