use composite_vault::{
    configure, verify_ratio, BasketMint, CompositeConfig, CompositeError, DepositAndMintWithInit,
    Identity, SuppliedAccount, MAX_ASSETS,
};

fn key(b: u8) -> Identity {
    Identity::new([b; 32])
}

fn supplied(n: usize) -> Vec<SuppliedAccount> {
    let mut list = Vec::new();
    for i in 0..3 * n {
        list.push(SuppliedAccount { key: key(100 + i as u8), data_is_empty: false });
    }
    list
}

fn first_call(n: usize) -> DepositAndMintWithInit {
    DepositAndMintWithInit {
        user: key(1),
        composite_mint: BasketMint { key: key(2), mint_authority: Some(key(3)), decimals: 0 },
        config: CompositeConfig::uninitialized(),
        mint_auth: key(3),
        bump_config: 254,
        bump_mint_auth: 253,
        remaining_accounts: supplied(n),
    }
}

fn configured(raw: &Vec<u64>) -> DepositAndMintWithInit {
    let mut ctx = first_call(raw.len());
    ctx.config = configure(&ctx, raw, 0).unwrap();
    ctx
}

#[test]
fn uninitialized_record_is_all_zero() {
    let config = CompositeConfig::uninitialized();
    assert!(!config.is_initialized());
    assert_eq!(config.num_assets, 0);
    assert_eq!(config.unit_scale, 0);
    assert_eq!(config.authority, Identity::new([0; 32]));
    assert_eq!(config.amounts_per_unit, [0; MAX_ASSETS]);
    assert_eq!(config.mints, [Identity::new([0; 32]); MAX_ASSETS]);
}

#[test]
fn stored_record_has_its_fixed_size() {
    assert_eq!(MAX_ASSETS, 8);
    assert_eq!(CompositeConfig::LEN, 427);
}

#[test]
fn identities_compare_by_their_bytes() {
    let mut bytes = [7u8; 32];
    assert_eq!(Identity::new(bytes), key(7));
    bytes[31] = 8;
    assert_ne!(Identity::new(bytes), key(7));
    bytes[31] = 7;
    bytes[0] = 0;
    assert_ne!(Identity::new(bytes), key(7));
}

#[test]
fn creation_stores_the_ratio_in_lowest_terms() {
    let ctx = first_call(2);
    let config = configure(&ctx, &vec![100, 250], 0).unwrap();
    assert!(config.is_initialized());
    assert_eq!(config.num_assets, 2);
    assert_eq!(config.amounts_per_unit, [2, 5, 0, 0, 0, 0, 0, 0]);
    assert_eq!(config.unit_scale, 50);
    assert_eq!(config.authority, key(1));
    assert_eq!(config.composite_mint, key(2));
    assert_eq!(config.mint_authority, key(3));
    assert_eq!(config.bump_config, 254);
    assert_eq!(config.bump_mint_auth, 253);
    assert_eq!(config.mints[0], key(100));
    assert_eq!(config.mints[1], key(101));
    for i in 2..MAX_ASSETS {
        assert_eq!(config.mints[i], Identity::new([0; 32]));
    }
}

#[test]
fn creation_fills_all_eight_slots() {
    let ctx = first_call(8);
    let config = configure(&ctx, &vec![8, 16, 24, 32, 40, 48, 56, 64], 0).unwrap();
    assert_eq!(config.num_assets, 8);
    assert_eq!(config.amounts_per_unit, [1, 2, 3, 4, 5, 6, 7, 8]);
    assert_eq!(config.unit_scale, 8);
    for i in 0..8 {
        assert_eq!(config.mints[i], key(100 + i as u8));
    }
}

#[test]
fn creation_does_not_touch_the_record_it_was_given() {
    let ctx = first_call(2);
    let before = ctx.clone();
    let _ = configure(&ctx, &vec![100, 250], 0).unwrap();
    assert_eq!(ctx, before);
}

#[test]
fn empty_ratio_is_an_invalid_unit() {
    assert_eq!(configure(&first_call(0), &vec![], 0), Err(CompositeError::InvalidUnit));
    assert_eq!(configure(&configured(&vec![1, 2]), &vec![], 0), Err(CompositeError::InvalidUnit));
}

#[test]
fn ratio_of_nine_assets_is_too_many() {
    let raw = vec![1; 9];
    assert_eq!(configure(&first_call(9), &raw, 0), Err(CompositeError::TooManyAssets));
    assert_eq!(configure(&configured(&vec![1, 2]), &raw, 0), Err(CompositeError::TooManyAssets));
}

#[test]
fn creation_needs_three_accounts_per_asset() {
    let mut ctx = first_call(2);
    ctx.remaining_accounts.pop();
    assert_eq!(configure(&ctx, &vec![100, 250], 0), Err(CompositeError::MissingAccounts));
    ctx.remaining_accounts.push(SuppliedAccount { key: key(9), data_is_empty: true });
    assert!(configure(&ctx, &vec![100, 250], 0).is_ok());
}

#[test]
fn all_zero_ratio_cannot_be_normalized() {
    assert_eq!(configure(&first_call(2), &vec![0, 0], 0), Err(CompositeError::InvalidUnit));
    assert_eq!(configure(&first_call(1), &vec![0], 0), Err(CompositeError::InvalidUnit));
}

#[test]
fn missing_accounts_are_reported_before_a_zero_ratio() {
    let mut ctx = first_call(2);
    ctx.remaining_accounts.clear();
    assert_eq!(configure(&ctx, &vec![0, 0], 0), Err(CompositeError::MissingAccounts));
}

#[test]
fn creation_checks_the_minting_authority() {
    let mut ctx = first_call(2);
    ctx.composite_mint.mint_authority = Some(key(4));
    assert_eq!(configure(&ctx, &vec![100, 250], 0), Err(CompositeError::BadMintAuth));
    ctx.composite_mint.mint_authority = None;
    assert_eq!(configure(&ctx, &vec![100, 250], 0), Err(CompositeError::BadMintAuth));
}

#[test]
fn creation_checks_the_decimals() {
    let mut ctx = first_call(2);
    ctx.composite_mint.decimals = 6;
    assert_eq!(configure(&ctx, &vec![100, 250], 0), Err(CompositeError::BadDecimals));
    assert!(configure(&ctx, &vec![100, 250], 6).is_ok());
}

#[test]
fn wrong_authority_is_reported_before_wrong_decimals() {
    let mut ctx = first_call(2);
    ctx.composite_mint.mint_authority = None;
    ctx.composite_mint.decimals = 6;
    assert_eq!(configure(&ctx, &vec![100, 250], 0), Err(CompositeError::BadMintAuth));
}

#[test]
fn second_call_with_normalized_ratio_only_verifies() {
    let ctx = configured(&vec![100, 250]);
    let again = configure(&ctx, &vec![2, 5], 0).unwrap();
    assert_eq!(again, ctx.config);
    assert_eq!(again.amounts_per_unit, [2, 5, 0, 0, 0, 0, 0, 0]);
    assert_eq!(again.unit_scale, 50);
}

#[test]
fn second_call_ignores_the_basket_token_checks() {
    let mut ctx = configured(&vec![100, 250]);
    ctx.composite_mint.mint_authority = None;
    ctx.composite_mint.decimals = 9;
    ctx.user = key(77);
    let again = configure(&ctx, &vec![100, 250], 0).unwrap();
    assert_eq!(again, ctx.config);
    assert_eq!(again.authority, key(1));
}

#[test]
fn every_positive_multiple_of_the_ratio_is_accepted() {
    let raw = vec![100, 250];
    let ctx = configured(&raw);
    for c in [1u64, 2, 3, 7, 50, 1000, 1 << 40] {
        let scaled: Vec<u64> = raw.iter().map(|r| r * c).collect();
        assert_eq!(configure(&ctx, &scaled, 0), Ok(ctx.config));
        assert_eq!(verify_ratio(&ctx.config, &scaled), Ok(()));
    }
    for c in [1u64, 3, 49, 51] {
        assert_eq!(verify_ratio(&ctx.config, &vec![2 * c, 5 * c]), Ok(()));
    }
}

#[test]
fn unproportional_ratio_is_a_ratio_mismatch() {
    let ctx = configured(&vec![100, 250]);
    let others =
        [vec![2, 4], vec![5, 2], vec![1, 1], vec![100, 251], vec![4, 5], vec![2, 0], vec![3, 5]];
    for other in others {
        assert_eq!(configure(&ctx, &other, 0), Err(CompositeError::RatioMismatch));
        assert_eq!(verify_ratio(&ctx.config, &other), Err(CompositeError::RatioMismatch));
    }
}

#[test]
fn zero_ratio_against_a_configuration_is_a_ratio_mismatch() {
    let ctx = configured(&vec![100, 250]);
    assert_eq!(configure(&ctx, &vec![0, 0], 0), Err(CompositeError::RatioMismatch));
    assert_eq!(verify_ratio(&ctx.config, &vec![0, 0]), Err(CompositeError::RatioMismatch));
}

#[test]
fn refused_ratio_leaves_the_record_alone() {
    let ctx = configured(&vec![100, 250]);
    let before = ctx.clone();
    assert_eq!(configure(&ctx, &vec![3, 5], 0), Err(CompositeError::RatioMismatch));
    assert_eq!(ctx, before);
}

#[test]
fn created_record_is_sound_when_every_raw_amount_is_positive() {
    let sound = configure(&first_call(3), &vec![6, 10, 15], 0).unwrap();
    assert_eq!(&sound.amounts_per_unit[..3], &[6, 10, 15]);
    assert_eq!(sound.unit_scale, 1);
    assert!(sound.amounts_per_unit[..3].iter().all(|per| *per > 0));
    let unsound = configure(&first_call(2), &vec![0, 5], 0).unwrap();
    assert_eq!(&unsound.amounts_per_unit[..2], &[0, 1]);
    assert_eq!(unsound.unit_scale, 5);
}

#[test]
fn ratio_of_another_length_is_a_wrong_argument_length() {
    let ctx = configured(&vec![100, 250]);
    assert_eq!(configure(&ctx, &vec![2], 0), Err(CompositeError::WrongArgumentLength));
    assert_eq!(configure(&ctx, &vec![2, 5, 1], 0), Err(CompositeError::WrongArgumentLength));
    assert_eq!(verify_ratio(&ctx.config, &vec![]), Err(CompositeError::WrongArgumentLength));
}

#[test]
fn verification_needs_three_accounts_per_asset() {
    let mut ctx = configured(&vec![100, 250]);
    ctx.remaining_accounts.truncate(5);
    assert_eq!(configure(&ctx, &vec![2, 5], 0), Err(CompositeError::MissingAccounts));
    assert_eq!(configure(&ctx, &vec![2, 4], 0), Err(CompositeError::RatioMismatch));
}

#[test]
fn record_beyond_capacity_is_refused() {
    let mut config = CompositeConfig::uninitialized();
    config.num_assets = 9;
    assert_eq!(verify_ratio(&config, &vec![1; 9]), Err(CompositeError::TooManyAssets));
    assert_eq!(verify_ratio(&config, &vec![1; 8]), Err(CompositeError::WrongArgumentLength));
}

#[test]
fn every_error_has_its_message() {
    assert_eq!(CompositeError::InvalidUnit.message(), "Invalid per-unit amounts");
    assert_eq!(CompositeError::BadMintAuth.message(), "Composite mint has wrong authority");
    assert_eq!(CompositeError::BadDecimals.message(), "Composite mint has unexpected decimals");
    assert_eq!(CompositeError::WrongMint.message(), "Wrong mint passed to instruction");
    assert_eq!(CompositeError::ZeroAmount.message(), "Zero amounts are not allowed");
    assert_eq!(
        CompositeError::NonMultipleDeposit.message(),
        "Deposit must be an exact multiple of the configured per-unit amount"
    );
    assert_eq!(CompositeError::RatioMismatch.message(), "Deposits do not match the required ratio");
    assert_eq!(CompositeError::ZeroMint.message(), "Mint amount computed to zero");
    assert_eq!(CompositeError::TooManyAssets.message(), "Too many assets configured");
    assert_eq!(
        CompositeError::MissingAccounts.message(),
        "Missing remaining accounts for dynamic assets"
    );
    assert_eq!(CompositeError::WrongArgumentLength.message(), "Wrong number of arguments provided");
    assert_eq!(CompositeError::ZeroAssets.message(), "Zero assets configured");
}
