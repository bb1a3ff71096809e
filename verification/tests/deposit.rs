use composite_vault::{
    deposit_and_mint_with_init, validate_deposit, BasketMint, CompositeConfig, CompositeError,
    DepositAndMintWithInit, Identity, LedgerCall, Signer, SuppliedAccount,
};

fn key(b: u8) -> Identity {
    Identity::new([b; 32])
}

fn supplied(n: usize, vaults_exist: bool) -> Vec<SuppliedAccount> {
    let mut list = Vec::new();
    for i in 0..3 * n {
        let is_vault = n <= i && i < 2 * n;
        list.push(SuppliedAccount {
            key: key(100 + i as u8),
            data_is_empty: is_vault && !vaults_exist,
        });
    }
    list
}

fn first_call(n: usize, vaults_exist: bool) -> DepositAndMintWithInit {
    DepositAndMintWithInit {
        user: key(1),
        composite_mint: BasketMint { key: key(2), mint_authority: Some(key(3)), decimals: 0 },
        config: CompositeConfig::uninitialized(),
        mint_auth: key(3),
        bump_config: 254,
        bump_mint_auth: 253,
        remaining_accounts: supplied(n, vaults_exist),
    }
}

fn basket(per_unit: &[u64], unit_scale: u64) -> CompositeConfig {
    let mut config = CompositeConfig::uninitialized();
    config.num_assets = per_unit.len() as u8;
    for i in 0..per_unit.len() {
        config.amounts_per_unit[i] = per_unit[i];
        config.mints[i] = key(100 + i as u8);
    }
    config.unit_scale = unit_scale;
    config.composite_mint = key(2);
    config.mint_authority = key(3);
    config.authority = key(1);
    config
}

fn transfer_in(n: usize, i: usize, amount: u64) -> LedgerCall {
    LedgerCall::Transfer { from: 2 * n + i, to: n + i, amount, authority: Signer::User }
}

#[test]
fn exact_multiples_mint_their_units() {
    let config = basket(&[2, 5], 50);
    assert_eq!(validate_deposit(&config, &vec![200, 500]), Ok(100));
    assert_eq!(validate_deposit(&config, &vec![2, 5]), Ok(1));
    assert_eq!(validate_deposit(&config, &vec![14, 35]), Ok(7));
    let three = basket(&[7, 3, 5], 1);
    for k in [1u64, 2, 9, 1000, 1 << 50] {
        assert_eq!(validate_deposit(&three, &vec![7 * k, 3 * k, 5 * k]), Ok(k));
    }
}

#[test]
fn largest_deposit_is_accepted() {
    let config = basket(&[1, 1], 1);
    assert_eq!(validate_deposit(&config, &vec![u64::MAX, u64::MAX]), Ok(u64::MAX));
    let one = basket(&[u64::MAX], 1);
    assert_eq!(validate_deposit(&one, &vec![u64::MAX]), Ok(1));
}

#[test]
fn legs_of_different_units_are_a_ratio_mismatch() {
    let config = basket(&[2, 5], 50);
    assert_eq!(validate_deposit(&config, &vec![200, 400]), Err(CompositeError::RatioMismatch));
    assert_eq!(validate_deposit(&config, &vec![2, 10]), Err(CompositeError::RatioMismatch));
    assert_eq!(validate_deposit(&config, &vec![4, 5]), Err(CompositeError::RatioMismatch));
    let three = basket(&[1, 1, 1], 1);
    assert_eq!(validate_deposit(&three, &vec![3, 3, 4]), Err(CompositeError::RatioMismatch));
}

#[test]
fn non_multiple_leg_is_refused() {
    let config = basket(&[2, 5], 50);
    assert_eq!(validate_deposit(&config, &vec![201, 500]), Err(CompositeError::NonMultipleDeposit));
    assert_eq!(validate_deposit(&config, &vec![200, 501]), Err(CompositeError::NonMultipleDeposit));
    assert_eq!(validate_deposit(&config, &vec![1, 5]), Err(CompositeError::NonMultipleDeposit));
}

#[test]
fn zero_amount_is_refused() {
    let config = basket(&[2, 5], 50);
    assert_eq!(validate_deposit(&config, &vec![0, 500]), Err(CompositeError::ZeroAmount));
    assert_eq!(validate_deposit(&config, &vec![200, 0]), Err(CompositeError::ZeroAmount));
    assert_eq!(validate_deposit(&config, &vec![0, 0]), Err(CompositeError::ZeroAmount));
}

#[test]
fn zero_per_unit_amount_is_an_invalid_unit() {
    let config = basket(&[0, 1], 5);
    assert_eq!(validate_deposit(&config, &vec![3, 3]), Err(CompositeError::InvalidUnit));
    let later = basket(&[1, 0], 5);
    assert_eq!(validate_deposit(&later, &vec![3, 3]), Err(CompositeError::InvalidUnit));
}

#[test]
fn first_faulty_leg_decides_the_refusal() {
    let config = basket(&[1, 2, 2], 1);
    assert_eq!(validate_deposit(&config, &vec![2, 3, 0]), Err(CompositeError::NonMultipleDeposit));
    assert_eq!(validate_deposit(&config, &vec![2, 0, 3]), Err(CompositeError::ZeroAmount));
    let zero_unit = basket(&[1, 0, 2], 1);
    assert_eq!(validate_deposit(&zero_unit, &vec![2, 0, 3]), Err(CompositeError::ZeroAmount));
    assert_eq!(validate_deposit(&zero_unit, &vec![2, 1, 3]), Err(CompositeError::InvalidUnit));
}

#[test]
fn faulty_leg_is_reported_before_unequal_units() {
    let config = basket(&[1, 2, 2], 1);
    assert_eq!(validate_deposit(&config, &vec![2, 6, 3]), Err(CompositeError::NonMultipleDeposit));
    assert_eq!(validate_deposit(&config, &vec![2, 6, 0]), Err(CompositeError::ZeroAmount));
    assert_eq!(validate_deposit(&config, &vec![2, 6, 4]), Err(CompositeError::RatioMismatch));
    let other = basket(&[1, 1, 2], 1);
    assert_eq!(validate_deposit(&other, &vec![1, 2, 3]), Err(CompositeError::NonMultipleDeposit));
    assert_eq!(validate_deposit(&other, &vec![1, 2, 4]), Err(CompositeError::RatioMismatch));
    let zero_unit = basket(&[1, 1, 0], 1);
    assert_eq!(validate_deposit(&zero_unit, &vec![1, 2, 4]), Err(CompositeError::InvalidUnit));
}

#[test]
fn non_multiple_leg_is_refused_whatever_the_other_legs_are() {
    let config = basket(&[2, 3, 5], 1);
    for a in 1..12u64 {
        for b in 1..12u64 {
            for c in 1..12u64 {
                let outcome = validate_deposit(&config, &vec![a, b, c]);
                if a % 2 != 0 || b % 3 != 0 || c % 5 != 0 {
                    assert_eq!(outcome, Err(CompositeError::NonMultipleDeposit));
                } else if a / 2 == b / 3 && b / 3 == c / 5 {
                    assert_eq!(outcome, Ok(a / 2));
                } else {
                    assert_eq!(outcome, Err(CompositeError::RatioMismatch));
                }
            }
        }
    }
}

#[test]
fn amounts_of_another_length_are_refused() {
    let config = basket(&[2, 5], 50);
    assert_eq!(validate_deposit(&config, &vec![200]), Err(CompositeError::WrongArgumentLength));
    assert_eq!(validate_deposit(&config, &vec![]), Err(CompositeError::WrongArgumentLength));
    assert_eq!(
        validate_deposit(&config, &vec![200, 500, 1]),
        Err(CompositeError::WrongArgumentLength)
    );
}

#[test]
fn deposit_against_an_empty_record_is_refused() {
    let config = CompositeConfig::uninitialized();
    assert_eq!(validate_deposit(&config, &vec![]), Err(CompositeError::ZeroAssets));
    assert_eq!(validate_deposit(&config, &vec![1]), Err(CompositeError::ZeroAssets));
}

#[test]
fn deposit_against_a_record_beyond_capacity_is_refused() {
    let mut config = basket(&[1, 1], 1);
    config.num_assets = 9;
    assert_eq!(validate_deposit(&config, &vec![1; 9]), Err(CompositeError::TooManyAssets));
}

#[test]
fn first_deposit_creates_the_configuration_and_mints() {
    let mut ctx = first_call(2, true);
    let calls = deposit_and_mint_with_init(&mut ctx, vec![100, 250], vec![200, 500], 0).unwrap();
    assert_eq!(
        calls,
        vec![transfer_in(2, 0, 200), transfer_in(2, 1, 500), LedgerCall::MintTo { amount: 100 }]
    );
    assert_eq!(ctx.config.num_assets, 2);
    assert_eq!(ctx.config.amounts_per_unit, [2, 5, 0, 0, 0, 0, 0, 0]);
    assert_eq!(ctx.config.unit_scale, 50);
    assert_eq!(ctx.config.mints[0], key(100));
    assert_eq!(ctx.config.mints[1], key(101));
    assert_eq!(ctx.config.authority, key(1));
    assert_eq!(ctx.config.composite_mint, key(2));
    assert_eq!(ctx.config.mint_authority, key(3));
    assert_eq!(ctx.config.bump_config, 254);
    assert_eq!(ctx.config.bump_mint_auth, 253);
}

#[test]
fn transfers_go_from_the_source_block_to_the_vault_block() {
    let mut ctx = first_call(3, true);
    let calls = deposit_and_mint_with_init(&mut ctx, vec![1, 2, 3], vec![4, 8, 12], 0).unwrap();
    assert_eq!(
        calls,
        vec![
            LedgerCall::Transfer { from: 6, to: 3, amount: 4, authority: Signer::User },
            LedgerCall::Transfer { from: 7, to: 4, amount: 8, authority: Signer::User },
            LedgerCall::Transfer { from: 8, to: 5, amount: 12, authority: Signer::User },
            LedgerCall::MintTo { amount: 4 },
        ]
    );
}

#[test]
fn missing_vaults_are_created_before_any_transfer() {
    let mut ctx = first_call(2, false);
    let calls = deposit_and_mint_with_init(&mut ctx, vec![2, 5], vec![6, 15], 0).unwrap();
    assert_eq!(
        calls,
        vec![
            LedgerCall::CreateVault { mint: 0, vault: 2 },
            LedgerCall::CreateVault { mint: 1, vault: 3 },
            transfer_in(2, 0, 6),
            transfer_in(2, 1, 15),
            LedgerCall::MintTo { amount: 3 },
        ]
    );
}

#[test]
fn only_the_missing_vault_is_created() {
    let mut ctx = first_call(3, true);
    ctx.remaining_accounts[4].data_is_empty = true;
    let calls = deposit_and_mint_with_init(&mut ctx, vec![1, 1, 1], vec![5, 5, 5], 0).unwrap();
    assert_eq!(calls.len(), 5);
    assert_eq!(calls[0], LedgerCall::CreateVault { mint: 1, vault: 4 });
    assert_eq!(calls[1], transfer_in(3, 0, 5));
    assert_eq!(calls[4], LedgerCall::MintTo { amount: 5 });
}

#[test]
fn a_vault_named_twice_is_created_once() {
    let mut ctx = first_call(3, false);
    ctx.remaining_accounts[5].key = ctx.remaining_accounts[3].key;
    let calls = deposit_and_mint_with_init(&mut ctx, vec![1, 1, 1], vec![5, 5, 5], 0).unwrap();
    assert_eq!(
        calls,
        vec![
            LedgerCall::CreateVault { mint: 0, vault: 3 },
            LedgerCall::CreateVault { mint: 1, vault: 4 },
            transfer_in(3, 0, 5),
            transfer_in(3, 1, 5),
            transfer_in(3, 2, 5),
            LedgerCall::MintTo { amount: 5 },
        ]
    );
}

#[test]
fn emptiness_of_other_blocks_creates_nothing() {
    let mut ctx = first_call(2, true);
    ctx.remaining_accounts[0].data_is_empty = true;
    ctx.remaining_accounts[5].data_is_empty = true;
    let calls = deposit_and_mint_with_init(&mut ctx, vec![1, 1], vec![5, 5], 0).unwrap();
    assert_eq!(
        calls,
        vec![transfer_in(2, 0, 5), transfer_in(2, 1, 5), LedgerCall::MintTo { amount: 5 }]
    );
}

#[test]
fn later_deposit_leaves_the_configuration_alone() {
    let mut ctx = first_call(2, true);
    deposit_and_mint_with_init(&mut ctx, vec![100, 250], vec![200, 500], 0).unwrap();
    let stored = ctx.config;
    ctx.user = key(50);
    for ratio in [vec![2, 5], vec![100, 250], vec![6, 15]] {
        let calls = deposit_and_mint_with_init(&mut ctx, ratio, vec![4, 10], 0).unwrap();
        assert_eq!(calls[2], LedgerCall::MintTo { amount: 2 });
        assert_eq!(ctx.config, stored);
    }
}

#[test]
fn refused_first_deposit_creates_nothing() {
    let refused: [(Vec<u64>, Vec<u64>, CompositeError); 6] = [
        (vec![100, 250], vec![200, 400], CompositeError::RatioMismatch),
        (vec![100, 250], vec![200], CompositeError::WrongArgumentLength),
        (vec![100, 250], vec![201, 500], CompositeError::NonMultipleDeposit),
        (vec![100, 250], vec![0, 500], CompositeError::ZeroAmount),
        (vec![0, 5], vec![3, 3], CompositeError::InvalidUnit),
        (vec![0, 0], vec![3, 3], CompositeError::InvalidUnit),
    ];
    for (ratio, amounts, error) in refused {
        let mut ctx = first_call(2, false);
        let before = ctx.clone();
        assert_eq!(deposit_and_mint_with_init(&mut ctx, ratio, amounts, 0), Err(error));
        assert_eq!(ctx, before);
        assert!(!ctx.config.is_initialized());
    }
}

#[test]
fn configurator_refusals_come_first() {
    let mut ctx = first_call(2, true);
    assert_eq!(
        deposit_and_mint_with_init(&mut ctx, vec![], vec![0, 0], 0),
        Err(CompositeError::InvalidUnit)
    );
    assert_eq!(
        deposit_and_mint_with_init(&mut ctx, vec![1; 9], vec![0, 0], 0),
        Err(CompositeError::TooManyAssets)
    );
    assert_eq!(
        deposit_and_mint_with_init(&mut ctx, vec![1, 1], vec![0, 0], 3),
        Err(CompositeError::BadDecimals)
    );
    ctx.composite_mint.mint_authority = Some(key(9));
    assert_eq!(
        deposit_and_mint_with_init(&mut ctx, vec![1, 1], vec![0, 0], 0),
        Err(CompositeError::BadMintAuth)
    );
    ctx.remaining_accounts.truncate(5);
    assert_eq!(
        deposit_and_mint_with_init(&mut ctx, vec![1, 1], vec![0, 0], 0),
        Err(CompositeError::MissingAccounts)
    );
    assert!(!ctx.config.is_initialized());
}

#[test]
fn later_deposit_with_another_ratio_is_refused() {
    let mut ctx = first_call(2, true);
    deposit_and_mint_with_init(&mut ctx, vec![100, 250], vec![200, 500], 0).unwrap();
    let before = ctx.clone();
    assert_eq!(
        deposit_and_mint_with_init(&mut ctx, vec![2, 4], vec![200, 500], 0),
        Err(CompositeError::RatioMismatch)
    );
    assert_eq!(
        deposit_and_mint_with_init(&mut ctx, vec![0, 0], vec![200, 500], 0),
        Err(CompositeError::RatioMismatch)
    );
    assert_eq!(
        deposit_and_mint_with_init(&mut ctx, vec![2, 5, 1], vec![200, 500], 0),
        Err(CompositeError::WrongArgumentLength)
    );
    assert_eq!(ctx, before);
}

#[test]
fn later_deposit_with_a_non_multiple_leg_is_refused() {
    let mut ctx = first_call(3, true);
    deposit_and_mint_with_init(&mut ctx, vec![1, 1, 2], vec![1, 1, 2], 0).unwrap();
    let before = ctx.clone();
    assert_eq!(
        deposit_and_mint_with_init(&mut ctx, vec![1, 1, 2], vec![1, 2, 3], 0),
        Err(CompositeError::NonMultipleDeposit)
    );
    assert_eq!(ctx, before);
}

#[test]
fn no_deposit_is_refused_as_a_zero_mint() {
    let config = basket(&[3, 4], 1);
    for a in 0..30u64 {
        for b in 0..30u64 {
            let outcome = validate_deposit(&config, &vec![a, b]);
            assert_ne!(outcome, Err(CompositeError::ZeroMint));
            assert_ne!(outcome, Ok(0));
            if a > 0 && a % 3 == 0 && b > 0 && b % 4 == 0 && a / 3 == b / 4 {
                assert_eq!(outcome, Ok(a / 3));
            } else {
                assert!(outcome.is_err());
            }
        }
    }
}
