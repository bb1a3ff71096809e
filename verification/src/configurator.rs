//! The composition configurator: it creates a basket's configuration from
//! a raw ratio, or checks a ratio against the configuration that exists.

use crate::accounts::DepositAndMintWithInit;
use crate::config::{
    lemma_normalized_in_lowest_terms, lemma_normalized_positive, normalize, normalized,
    CompositeConfig, MAX_ASSETS,
};
use crate::divisibility::{
    divides, divides_all, gcd_of, gcd_of_list, is_gcd_of, lemma_divides_quotient,
    lemma_gcd_of_is_greatest, lemma_multiple_divides, lemma_quotients_in_lowest_terms, scaled_by,
};
use crate::error::CompositeError;
use vstd::prelude::*;

verus! {

/// The configurator accepts `supplied` as equivalent to the stored per-unit
/// amounts: it is not all zero, and dividing it by its greatest common
/// divisor gives the stored amounts.
pub open spec fn ratio_accepted(stored: Seq<u64>, supplied: Seq<u64>) -> bool {
    &&& gcd_of(supplied) > 0
    &&& scaled_by(stored, gcd_of(supplied), supplied)
}

/// Why the configurator refuses to create a configuration, if it does.
pub open spec fn creation_fault(
    accounts: DepositAndMintWithInit,
    ratio: Seq<u64>,
    decimals: u8,
) -> Option<CompositeError> {
    if accounts.remaining_accounts@.len() < 3 * ratio.len() {
        Some(CompositeError::MissingAccounts)
    } else if gcd_of(ratio) == 0 {
        Some(CompositeError::InvalidUnit)
    } else if accounts.composite_mint.mint_authority != Some(accounts.mint_auth) {
        Some(CompositeError::BadMintAuth)
    } else if accounts.composite_mint.decimals != decimals {
        Some(CompositeError::BadDecimals)
    } else {
        None
    }
}

/// Why the configurator refuses a ratio against the configuration that
/// exists, if it does.
pub open spec fn verification_fault(accounts: DepositAndMintWithInit, ratio: Seq<u64>) -> Option<
    CompositeError,
> {
    if ratio.len() != accounts.config.num_assets {
        Some(CompositeError::WrongArgumentLength)
    } else if !ratio_accepted(accounts.config.per_unit(), ratio) {
        Some(CompositeError::RatioMismatch)
    } else if accounts.remaining_accounts@.len() < 3 * ratio.len() {
        Some(CompositeError::MissingAccounts)
    } else {
        None
    }
}

/// Why the configurator refuses a call, if it does: the first check that
/// fails, in the order in which the checks are made.
pub open spec fn configure_fault(
    accounts: DepositAndMintWithInit,
    ratio: Seq<u64>,
    decimals: u8,
) -> Option<CompositeError> {
    if ratio.len() == 0 {
        Some(CompositeError::InvalidUnit)
    } else if ratio.len() > MAX_ASSETS {
        Some(CompositeError::TooManyAssets)
    } else if accounts.config.initialized() {
        verification_fault(accounts, ratio)
    } else {
        creation_fault(accounts, ratio, decimals)
    }
}

/// `config` is the configuration that the configurator creates from the
/// accounts of a first deposit and a raw ratio: the ratio in lowest terms,
/// the divisor taken out of it, the assets in the order supplied, and the
/// identities and salts of the call. Slots beyond the assets keep what the
/// record held before.
pub open spec fn created_from(
    config: CompositeConfig,
    accounts: DepositAndMintWithInit,
    ratio: Seq<u64>,
) -> bool {
    &&& config.authority == accounts.user
    &&& config.composite_mint == accounts.composite_mint.key
    &&& config.mint_authority == accounts.mint_auth
    &&& config.num_assets == ratio.len()
    &&& config.unit_scale == gcd_of(ratio)
    &&& config.bump_config == accounts.bump_config
    &&& config.bump_mint_auth == accounts.bump_mint_auth
    &&& config.per_unit() == normalized(ratio)
    &&& forall|i: int|
        0 <= i < ratio.len() ==> #[trigger] config.assets()[i]
            == accounts.remaining_accounts@[i].key
    &&& forall|i: int|
        ratio.len() <= i < MAX_ASSETS ==> #[trigger] config.mints@[i] == accounts.config.mints@[i]
    &&& forall|i: int|
        ratio.len() <= i < MAX_ASSETS ==> #[trigger] config.amounts_per_unit@[i]
            == accounts.config.amounts_per_unit@[i]
}

/// The configuration that a call leaves behind when the configurator
/// accepts it: a new one for a record that was not initialized, the old one
/// unchanged for a record that was.
pub open spec fn configured(
    config: CompositeConfig,
    accounts: DepositAndMintWithInit,
    ratio: Seq<u64>,
) -> bool {
    if accounts.config.initialized() {
        config == accounts.config
    } else {
        created_from(config, accounts, ratio)
    }
}

/// A list that is a positive multiple of a ratio in lowest terms has that
/// multiple as its greatest common divisor, so the configurator accepts it.
pub proof fn lemma_multiple_of_lowest_terms_accepted(
    stored: Seq<u64>,
    factor: nat,
    supplied: Seq<u64>,
)
    requires
        is_gcd_of(1, stored),
        factor > 0,
        scaled_by(stored, factor, supplied),
    ensures
        gcd_of(supplied) == factor,
        ratio_accepted(stored, supplied),
{
    let g = gcd_of(supplied);
    lemma_gcd_of_is_greatest(supplied);
    assert(divides_all(factor, supplied)) by {
        assert forall|i: int| 0 <= i < supplied.len() implies divides(
            factor,
            #[trigger] supplied[i] as nat,
        ) by {
            lemma_multiple_divides(factor, stored[i] as nat);
        }
    }
    assert(divides(factor, g));
    lemma_divides_quotient(factor, g);
    let m: nat = g / factor;
    assert(divides_all(m, stored)) by {
        assert forall|i: int| 0 <= i < stored.len() implies divides(
            m,
            #[trigger] stored[i] as nat,
        ) by {
            let x = supplied[i] as nat;
            let y = stored[i] as nat;
            assert(divides(g, x));
            lemma_divides_quotient(g, x);
            let t: nat = x / g;
            assert(y == m * t) by (nonlinear_arith)
                requires
                    factor > 0,
                    g == factor * m,
                    x == g * t,
                    x == factor * y,
            ;
            lemma_multiple_divides(m, t);
        }
    }
    assert(divides(m, 1));
    assert(m == 1) by {
        if m > 1 {
            assert(1nat % m == 1) by (nonlinear_arith)
                requires
                    m > 1,
            ;
        }
    }
    assert(g == factor) by (nonlinear_arith)
        requires
            g == factor * m,
            m == 1,
    ;
}

/// A ratio that the configurator accepts is a positive multiple of the
/// stored amounts, and the stored amounts are in lowest terms.
pub proof fn lemma_accepted_is_multiple_of_lowest_terms(stored: Seq<u64>, supplied: Seq<u64>)
    requires
        ratio_accepted(stored, supplied),
    ensures
        is_gcd_of(1, stored),
        scaled_by(stored, gcd_of(supplied), supplied),
{
    lemma_gcd_of_is_greatest(supplied);
    lemma_quotients_in_lowest_terms(stored, gcd_of(supplied), supplied);
}

/// For per-unit amounts in lowest terms, the configurator accepts exactly
/// their positive multiples.
pub proof fn lemma_accepted_iff_multiple(stored: Seq<u64>, supplied: Seq<u64>)
    requires
        is_gcd_of(1, stored),
    ensures
        ratio_accepted(stored, supplied) <==> exists|factor: nat|
            factor > 0 && #[trigger] scaled_by(stored, factor, supplied),
{
    if ratio_accepted(stored, supplied) {
        assert(scaled_by(stored, gcd_of(supplied), supplied));
    }
    if exists|factor: nat| factor > 0 && #[trigger] scaled_by(stored, factor, supplied) {
        let factor = choose|factor: nat|
            factor > 0 && #[trigger] scaled_by(stored, factor, supplied);
        lemma_multiple_of_lowest_terms_accepted(stored, factor, supplied);
    }
}

/// Once a basket is configured from the ratio `raw`, the configurator
/// accepts every positive multiple of `raw` in later calls, `raw` itself
/// and its lowest terms among them, provided the accounts of all assets
/// are supplied.
pub proof fn lemma_equivalent_ratio_accepted(
    accounts: DepositAndMintWithInit,
    raw: Seq<u64>,
    factor: nat,
    supplied: Seq<u64>,
    decimals: u8,
)
    requires
        accounts.config.initialized(),
        accounts.config.in_capacity(),
        gcd_of(raw) > 0,
        accounts.config.per_unit() == normalized(raw),
        factor > 0,
        scaled_by(raw, factor, supplied),
        accounts.remaining_accounts@.len() >= 3 * supplied.len(),
    ensures
        ratio_accepted(normalized(raw), supplied),
        ratio_accepted(normalized(raw), normalized(raw)),
        configure_fault(accounts, supplied, decimals) is None,
{
    let stored = normalized(raw);
    let g = gcd_of(raw);
    lemma_normalized_in_lowest_terms(raw);
    let whole: nat = factor * g;
    assert(whole > 0) by (nonlinear_arith)
        requires
            factor > 0,
            g > 0,
            whole == factor * g,
    ;
    assert forall|i: int| 0 <= i < supplied.len() implies #[trigger] supplied[i] == whole
        * stored[i] by {
        assert(stored[i] * g == raw[i]);
        assert(supplied[i] == factor * raw[i]);
        assert(factor * (stored[i] * g) == (factor * g) * stored[i]) by (nonlinear_arith);
    }
    lemma_multiple_of_lowest_terms_accepted(stored, whole, supplied);
    assert forall|i: int| 0 <= i < stored.len() implies #[trigger] stored[i] == 1 * stored[i] by {}
    lemma_multiple_of_lowest_terms_accepted(stored, 1, stored);
}

/// A configured basket refuses every ratio of the right length that is not
/// a positive multiple of its per-unit amounts, the all-zero ratio among
/// them, as a ratio mismatch. (A ratio of another length is refused for
/// its length.)
pub proof fn lemma_other_ratio_refused(
    accounts: DepositAndMintWithInit,
    supplied: Seq<u64>,
    decimals: u8,
)
    requires
        accounts.config.initialized(),
        accounts.config.in_capacity(),
        supplied.len() == accounts.config.num_assets,
        !exists|factor: nat|
            factor > 0 && #[trigger] scaled_by(accounts.config.per_unit(), factor, supplied),
    ensures
        !ratio_accepted(accounts.config.per_unit(), supplied),
        configure_fault(accounts, supplied, decimals) == Some(CompositeError::RatioMismatch),
{
    let stored = accounts.config.per_unit();
    if ratio_accepted(stored, supplied) {
        assert(scaled_by(stored, gcd_of(supplied), supplied));
    }
}

/// Checks a ratio against the configuration that exists. The ratio passes
/// when it is the stored per-unit amounts, or those amounts scaled by one
/// common factor; any other ratio of the right length is a ratio mismatch.
/// A record that claims more assets than it has room for is refused.
pub fn verify_ratio(config: &CompositeConfig, supplied: &Vec<u64>) -> (checked: Result<
    (),
    CompositeError,
>)
    ensures
        checked == (if supplied.len() != config.num_assets {
            Err::<(), CompositeError>(CompositeError::WrongArgumentLength)
        } else if !config.in_capacity() {
            Err(CompositeError::TooManyAssets)
        } else if ratio_accepted(config.per_unit(), supplied@) {
            Ok(())
        } else {
            Err(CompositeError::RatioMismatch)
        }),
{
    let n: usize = config.num_assets as usize;
    if supplied.len() != n {
        return Err(CompositeError::WrongArgumentLength);
    }
    if n > MAX_ASSETS {
        return Err(CompositeError::TooManyAssets);
    }
    let g: u64 = gcd_of_list(supplied);
    if g == 0 {
        return Err(CompositeError::RatioMismatch);
    }
    let mut i: usize = 0;
    while i < n
        invariant
            i <= n,
            n == supplied.len(),
            n == config.num_assets,
            n <= MAX_ASSETS,
            g > 0,
            g == gcd_of(supplied@),
            is_gcd_of(g as nat, supplied@),
            forall|j: int| 0 <= j < i ==> #[trigger] supplied@[j] == g * config.per_unit()[j],
        decreases n - i,
    {
        // The divisor divides every amount it was computed from, so the
        // quotient alone decides whether the amount matches.
        let quotient: u64 = supplied[i] / g;
        proof {
            let x = supplied@[i as int] as nat;
            assert(divides(g as nat, x));
            lemma_divides_quotient(g as nat, x);
            assert(x == g * quotient);
        }
        if quotient != config.amounts_per_unit[i] {
            proof {
                let x = supplied@[i as int] as nat;
                let y = config.per_unit()[i as int] as nat;
                assert(x != g * y) by (nonlinear_arith)
                    requires
                        g > 0,
                        x == g * quotient,
                        quotient != y,
                ;
            }
            return Err(CompositeError::RatioMismatch);
        }
        i += 1;
    }
    Ok(())
}

/// The composition configurator. For a record that is not initialized it
/// creates the configuration from the raw ratio; for one that is, it checks
/// the ratio against the stored one and leaves the record as it is. The
/// configuration that the call leaves behind is returned, not stored.
pub fn configure(
    accounts: &DepositAndMintWithInit,
    amounts_per_unit: &Vec<u64>,
    composite_decimals: u8,
) -> (outcome: Result<CompositeConfig, CompositeError>)
    ensures
        match outcome {
            Ok(config) => {
                &&& configure_fault(*accounts, amounts_per_unit@, composite_decimals) is None
                &&& configured(config, *accounts, amounts_per_unit@)
                &&& 1 <= config.num_assets <= MAX_ASSETS
                &&& config.num_assets == amounts_per_unit.len()
                &&& is_gcd_of(1, config.per_unit())
                &&& !accounts.config.initialized() ==> config.unit_scale > 0
                &&& !accounts.config.initialized() ==> (config.wf() <==> forall|i: int|
                    0 <= i < amounts_per_unit.len() ==> #[trigger] amounts_per_unit[i] > 0)
            },
            Err(e) => configure_fault(*accounts, amounts_per_unit@, composite_decimals) == Some(e),
        },
{
    let n: usize = amounts_per_unit.len();
    if n == 0 {
        return Err(CompositeError::InvalidUnit);
    }
    if n > MAX_ASSETS {
        return Err(CompositeError::TooManyAssets);
    }
    if accounts.config.is_initialized() {
        match verify_ratio(&accounts.config, amounts_per_unit) {
            Err(e) => {
                return Err(e);
            },
            Ok(()) => {},
        }
        if accounts.remaining_accounts.len() < n * 3 {
            return Err(CompositeError::MissingAccounts);
        }
        proof {
            lemma_accepted_is_multiple_of_lowest_terms(
                accounts.config.per_unit(),
                amounts_per_unit@,
            );
        }
        return Ok(accounts.config);
    }
    if accounts.remaining_accounts.len() < n * 3 {
        return Err(CompositeError::MissingAccounts);
    }
    let (per_unit, scale) = match normalize(amounts_per_unit) {
        Some(reduced) => reduced,
        None => {
            return Err(CompositeError::InvalidUnit);
        },
    };
    let mut config: CompositeConfig = accounts.config;
    config.authority = accounts.user;
    config.num_assets = n as u8;
    let mut i: usize = 0;
    while i < n
        invariant
            i <= n,
            n == amounts_per_unit.len(),
            n <= MAX_ASSETS,
            n * 3 <= accounts.remaining_accounts.len(),
            per_unit@ == normalized(amounts_per_unit@),
            config.authority == accounts.user,
            config.num_assets == n,
            forall|j: int|
                0 <= j < i ==> #[trigger] config.mints@[j] == accounts.remaining_accounts@[j].key,
            forall|j: int|
                0 <= j < i ==> #[trigger] config.amounts_per_unit@[j] == normalized(
                    amounts_per_unit@,
                )[j],
            forall|j: int|
                i <= j < MAX_ASSETS ==> #[trigger] config.mints@[j] == accounts.config.mints@[j],
            forall|j: int|
                i <= j < MAX_ASSETS ==> #[trigger] config.amounts_per_unit@[j]
                    == accounts.config.amounts_per_unit@[j],
        decreases n - i,
    {
        config.mints[i] = accounts.remaining_accounts[i].key;
        config.amounts_per_unit[i] = per_unit[i];
        i += 1;
    }
    config.unit_scale = scale;
    config.composite_mint = accounts.composite_mint.key;
    config.mint_authority = accounts.mint_auth;
    config.bump_config = accounts.bump_config;
    config.bump_mint_auth = accounts.bump_mint_auth;
    let authority_matches = match accounts.composite_mint.mint_authority {
        Some(authority) => authority == accounts.mint_auth,
        None => false,
    };
    if !authority_matches {
        return Err(CompositeError::BadMintAuth);
    }
    if accounts.composite_mint.decimals != composite_decimals {
        return Err(CompositeError::BadDecimals);
    }
    proof {
        assert(config.per_unit() =~= normalized(amounts_per_unit@));
        lemma_normalized_positive(amounts_per_unit@);
    }
    Ok(config)
}

} // verus!
