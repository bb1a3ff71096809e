//! The basket's configuration record and the normalization of its ratio.

use crate::divisibility::{
    divides, gcd_of, gcd_of_list, is_gcd_of, lemma_divides_quotient, lemma_gcd_of_bounded,
    lemma_gcd_of_is_greatest, lemma_gcd_unique, lemma_quotients_in_lowest_terms,
};
use crate::identity::Identity;
use vstd::prelude::*;

verus! {

/// The largest number of assets in a basket.
pub const MAX_ASSETS: usize = 8;

/// The configuration of one basket. It is written once, by the first
/// deposit, and only read afterwards. A record whose `num_assets` is zero
/// has not been initialized yet.
#[derive(Clone, Copy, Debug, PartialEq, Eq)]
pub struct CompositeConfig {
    /// Who initialized the basket.
    pub authority: Identity,
    /// The basket token.
    pub composite_mint: Identity,
    /// The custody authority, which owns the vault's holding accounts and
    /// mints the basket token.
    pub mint_authority: Identity,
    /// The number of assets in the basket.
    pub num_assets: u8,
    /// The assets, in their fixed order; only the first `num_assets` slots
    /// are meaningful.
    pub mints: [Identity; MAX_ASSETS],
    /// The amount of each asset in one basket unit, in lowest terms; only
    /// the first `num_assets` slots are meaningful.
    pub amounts_per_unit: [u64; MAX_ASSETS],
    /// The factor that was divided out of the ratio at initialization.
    pub unit_scale: u64,
    /// The derivation salt of this record.
    pub bump_config: u8,
    /// The derivation salt of the custody authority.
    pub bump_mint_auth: u8,
}

impl CompositeConfig {
    /// The size of the stored record in bytes.
    pub const LEN: usize = 32 + 32 + 32 + 1 + (32 * MAX_ASSETS) + (8 * MAX_ASSETS) + 8 + 1 + 1;

    /// The record has been initialized.
    pub open spec fn initialized(&self) -> bool {
        self.num_assets != 0
    }

    /// The number of assets is within the record's capacity.
    pub open spec fn in_capacity(&self) -> bool {
        self.num_assets <= MAX_ASSETS
    }

    /// The per-unit amounts of the basket's assets, in order.
    pub open spec fn per_unit(&self) -> Seq<u64> {
        self.amounts_per_unit@.take(self.num_assets as int)
    }

    /// The basket's assets, in order.
    pub open spec fn assets(&self) -> Seq<Identity> {
        self.mints@.take(self.num_assets as int)
    }

    /// What holds of every initialized record: it names between one and
    /// `MAX_ASSETS` assets, every per-unit amount is positive, the per-unit
    /// amounts are in lowest terms, and the unit scale is positive.
    pub open spec fn wf(&self) -> bool {
        &&& 1 <= self.num_assets <= MAX_ASSETS
        &&& forall|i: int| 0 <= i < self.num_assets ==> #[trigger] self.per_unit()[i] > 0
        &&& is_gcd_of(1, self.per_unit())
        &&& self.unit_scale > 0
    }

    /// A record that has not been initialized: every field is zero.
    pub fn uninitialized() -> (config: CompositeConfig)
        ensures
            !config.initialized(),
            config.unit_scale == 0,
            config.bump_config == 0,
            config.bump_mint_auth == 0,
            config.authority@ == Seq::new(32, |i: int| 0u8),
            config.composite_mint == config.authority,
            config.mint_authority == config.authority,
            forall|i: int| 0 <= i < MAX_ASSETS ==> #[trigger] config.mints@[i] == config.authority,
            forall|i: int| 0 <= i < MAX_ASSETS ==> #[trigger] config.amounts_per_unit@[i] == 0,
    {
        let zero = Identity::new([0u8; 32]);
        assert(zero@ =~= Seq::new(32, |i: int| 0u8));
        CompositeConfig {
            authority: zero,
            composite_mint: zero,
            mint_authority: zero,
            num_assets: 0,
            mints: [zero; MAX_ASSETS],
            amounts_per_unit: [0u64; MAX_ASSETS],
            unit_scale: 0,
            bump_config: 0,
            bump_mint_auth: 0,
        }
    }

    /// Whether the record has been initialized.
    pub fn is_initialized(&self) -> (yes: bool)
        ensures
            yes == self.initialized(),
    {
        self.num_assets != 0
    }
}

/// A ratio in lowest terms: each amount of `raw` divided by the greatest
/// common divisor of all of them.
pub open spec fn normalized(raw: Seq<u64>) -> Seq<u64> {
    Seq::new(raw.len(), |i: int| (raw[i] as nat / gcd_of(raw)) as u64)
}

/// Normalization reduces a ratio to lowest terms without loss: the
/// normalized amounts have the greatest common divisor one, scaling them by
/// the divisor that was taken out gives the raw ratio back, and normalizing
/// a second time changes nothing. This holds of every ratio that is not all
/// zero; an all-zero ratio has no lowest terms.
pub proof fn lemma_normalized_in_lowest_terms(raw: Seq<u64>)
    requires
        gcd_of(raw) > 0,
    ensures
        normalized(raw).len() == raw.len(),
        is_gcd_of(1, normalized(raw)),
        gcd_of(normalized(raw)) == 1,
        forall|i: int|
            0 <= i < raw.len() ==> (#[trigger] normalized(raw)[i]) * gcd_of(raw) == raw[i],
        normalized(normalized(raw)) == normalized(raw),
{
    let g = gcd_of(raw);
    let q = normalized(raw);
    lemma_gcd_of_is_greatest(raw);
    assert forall|i: int| 0 <= i < raw.len() implies (#[trigger] q[i]) * g == raw[i] by {
        let x = raw[i] as nat;
        assert(divides(g, x));
        lemma_divides_quotient(g, x);
        assert(x / g <= x) by (nonlinear_arith)
            requires
                g > 0,
                x == (x / g) * g,
        ;
    }
    assert forall|i: int| 0 <= i < raw.len() implies #[trigger] raw[i] == g * q[i] by {
        assert(q[i] * g == raw[i]);
        assert(q[i] * g == g * q[i]) by (nonlinear_arith);
    }
    lemma_quotients_in_lowest_terms(q, g, raw);
    lemma_gcd_of_is_greatest(q);
    lemma_gcd_unique(1, gcd_of(q), q);
    assert(normalized(q) =~= q);
}

/// A ratio in lowest terms has a positive amount exactly where the raw
/// ratio has one.
pub proof fn lemma_normalized_positive(raw: Seq<u64>)
    requires
        gcd_of(raw) > 0,
    ensures
        forall|i: int| 0 <= i < raw.len() ==> (#[trigger] normalized(raw)[i] > 0 <==> raw[i] > 0),
{
    lemma_normalized_in_lowest_terms(raw);
    let g = gcd_of(raw);
    assert forall|i: int| 0 <= i < raw.len() implies (#[trigger] normalized(raw)[i] > 0 <==> raw[i]
        > 0) by {
        let q = normalized(raw)[i] as nat;
        let x = raw[i] as nat;
        assert(q * g == x);
        assert(q > 0 <==> x > 0) by (nonlinear_arith)
            requires
                g > 0,
                q * g == x,
        ;
    }
}

/// Reduces a ratio to lowest terms. Returns the normalized amounts and the
/// divisor that was taken out of them, or `None` for a ratio that is empty
/// or all zero.
pub fn normalize(raw: &Vec<u64>) -> (reduced: Option<(Vec<u64>, u64)>)
    ensures
        reduced is None <==> gcd_of(raw@) == 0,
        reduced is None <==> (forall|i: int| 0 <= i < raw.len() ==> #[trigger] raw[i] == 0),
        reduced matches Some((per_unit, scale)) ==> {
            &&& scale == gcd_of(raw@)
            &&& per_unit@ == normalized(raw@)
            &&& is_gcd_of(1, per_unit@)
            &&& forall|i: int| 0 <= i < raw.len() ==> per_unit[i] * scale == raw[i]
        },
{
    let scale: u64 = gcd_of_list(raw);
    proof {
        lemma_gcd_of_bounded(raw@);
    }
    if scale == 0 {
        return None;
    }
    let mut per_unit: Vec<u64> = Vec::new();
    let mut i: usize = 0;
    while i < raw.len()
        invariant
            i <= raw.len(),
            scale > 0,
            scale == gcd_of(raw@),
            per_unit.len() == i,
            forall|j: int| 0 <= j < i ==> per_unit[j] == normalized(raw@)[j],
        decreases raw.len() - i,
    {
        per_unit.push(raw[i] / scale);
        i += 1;
    }
    proof {
        lemma_normalized_in_lowest_terms(raw@);
        assert(per_unit@ =~= normalized(raw@));
    }
    Some((per_unit, scale))
}

} // verus!
