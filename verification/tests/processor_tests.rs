use coin_staking::accounts::{AccountSnapshot, Effect, Outcome, RentSource};
use coin_staking::error::ProgramError;
use coin_staking::process_instruction;
use coin_staking::state::{
    CoinConfig, Pubkey, StakePoolConfig, StakePosition, COIN_CFG_SIZE, POOL_SIZE, POSITION_SIZE,
};
use solana_program::program_option::COption;
use solana_program::program_pack::Pack;
use solana_program::pubkey::Pubkey as SolKey;
use spl_token::state::{Account as TokenAccount, AccountState, Mint};

const FP: u128 = 1u128 << 64;

fn program() -> SolKey {
    SolKey::new_from_array([8u8; 32])
}
fn user() -> SolKey {
    SolKey::new_from_array([1u8; 32])
}
fn stake_mint() -> SolKey {
    SolKey::new_from_array([2u8; 32])
}
fn reward_mint() -> SolKey {
    SolKey::new_from_array([3u8; 32])
}
fn authority() -> SolKey {
    SolKey::new_from_array([4u8; 32])
}
fn payer() -> SolKey {
    SolKey::new_from_array([5u8; 32])
}
fn other() -> SolKey {
    SolKey::new_from_array([6u8; 32])
}
fn lib_key(k: &SolKey) -> Pubkey {
    Pubkey { bytes: k.to_bytes() }
}
fn pda(seeds: &[&[u8]]) -> (SolKey, u8) {
    SolKey::find_program_address(seeds, &program())
}
fn pool_key() -> (SolKey, u8) {
    pda(&[b"stake_pool", stake_mint().as_ref(), reward_mint().as_ref()])
}
fn vault_key() -> (SolKey, u8) {
    pda(&[b"stake_vault", pool_key().0.as_ref()])
}
fn position_key() -> (SolKey, u8) {
    pda(&[b"stake_position", pool_key().0.as_ref(), user().as_ref()])
}
fn mint_authority_key() -> (SolKey, u8) {
    pda(&[b"reward_mint_authority", reward_mint().as_ref()])
}
fn coin_cfg_key() -> (SolKey, u8) {
    pda(&[b"coin_cfg", reward_mint().as_ref()])
}

fn account(key: SolKey, owner: SolKey, lamports: u64, data: Vec<u8>, is_signer: bool) -> AccountSnapshot {
    AccountSnapshot { key: lib_key(&key), owner: lib_key(&owner), lamports, data, is_signer }
}
fn plain(key: SolKey, is_signer: bool) -> AccountSnapshot {
    account(key, solana_program::system_program::ID, 1_000_000, Vec::new(), is_signer)
}
fn token_account(key: SolKey, mint: SolKey, owner: SolKey) -> AccountSnapshot {
    let state = TokenAccount {
        mint,
        owner,
        amount: 1_000_000,
        delegate: COption::None,
        state: AccountState::Initialized,
        is_native: COption::None,
        delegated_amount: 0,
        close_authority: COption::None,
    };
    let mut data = vec![0u8; TokenAccount::LEN];
    TokenAccount::pack(state, &mut data).unwrap();
    account(key, spl_token::ID, 2_039_280, data, false)
}
fn mint_data(mint_authority: Option<SolKey>, freeze_authority: Option<SolKey>, initialized: bool) -> Vec<u8> {
    let mint = Mint {
        mint_authority: COption::from(mint_authority),
        supply: 0,
        decimals: 6,
        is_initialized: initialized,
        freeze_authority: COption::from(freeze_authority),
    };
    let mut data = vec![0u8; Mint::LEN];
    Mint::pack(mint, &mut data).unwrap();
    data
}
fn reward_mint_account() -> AccountSnapshot {
    account(reward_mint(), spl_token::ID, 1_461_600, mint_data(Some(mint_authority_key().0), None, true), false)
}
fn stake_mint_account() -> AccountSnapshot {
    account(stake_mint(), spl_token::ID, 1_461_600, mint_data(Some(other()), None, true), false)
}
fn clock(slot: u64) -> AccountSnapshot {
    let mut data = slot.to_le_bytes().to_vec();
    data.extend_from_slice(&[0u8; 32]);
    account(solana_program::sysvar::clock::ID, solana_program::sysvar::ID, 1, data, false)
}
fn coin_cfg_account(recorded_authority: SolKey) -> AccountSnapshot {
    let mut data = vec![0u8; COIN_CFG_SIZE];
    CoinConfig { authority: lib_key(&recorded_authority) }.serialize(&mut data);
    account(coin_cfg_key().0, program(), 1_000, data, false)
}
fn pool_config(total_staked: u64, reward_per_token_stored: u128, last_update_slot: u64) -> StakePoolConfig {
    StakePoolConfig {
        authority: lib_key(&authority()),
        stake_mint: lib_key(&stake_mint()),
        reward_mint: lib_key(&reward_mint()),
        reward_per_epoch: 1000,
        epoch_slots: 100,
        start_slot: 0,
        reward_per_token_stored,
        last_update_slot,
        total_staked,
    }
}
fn pool_account(cfg: &StakePoolConfig) -> AccountSnapshot {
    let mut data = vec![0u8; POOL_SIZE];
    cfg.serialize(&mut data);
    account(pool_key().0, program(), 2_000, data, false)
}
fn position_account(p: &StakePosition, lamports: u64) -> AccountSnapshot {
    let mut data = vec![0u8; POSITION_SIZE];
    p.serialize(&mut data);
    account(position_key().0, program(), lamports, data, false)
}
fn empty_position() -> AccountSnapshot {
    account(position_key().0, solana_program::system_program::ID, 0, Vec::new(), false)
}
fn token_program() -> AccountSnapshot {
    account(spl_token::ID, solana_program::bpf_loader::ID, 1, Vec::new(), false)
}
fn system_program() -> AccountSnapshot {
    account(solana_program::system_program::ID, solana_program::bpf_loader::ID, 1, Vec::new(), false)
}

fn with_u64(tag: u8, values: &[u64]) -> Vec<u8> {
    let mut data = vec![tag];
    for v in values {
        data.extend_from_slice(&v.to_le_bytes());
    }
    data
}
fn run(accounts: &[AccountSnapshot], data: &[u8]) -> Outcome {
    process_instruction(&lib_key(&program()), accounts, data)
}
fn written(e: &Effect, expected_account: usize) -> Vec<u8> {
    match e {
        Effect::WriteData { account, bytes } => {
            assert_eq!(*account, expected_account);
            bytes.clone()
        }
        _ => panic!("expected a data write"),
    }
}
fn seeds(parts: &[&[u8]]) -> Vec<Vec<u8>> {
    parts.iter().map(|p| p.to_vec()).collect()
}

// ---- stake ----

fn stake_accounts(pool: &StakePoolConfig, position: AccountSnapshot, slot: u64) -> Vec<AccountSnapshot> {
    vec![
        plain(user(), true),
        pool_account(pool),
        token_account(other(), stake_mint(), user()),
        token_account(vault_key().0, stake_mint(), pool_key().0),
        position,
        token_program(),
        system_program(),
        clock(slot),
    ]
}

#[test]
fn first_stake_creates_the_position() {
    let cfg = pool_config(0, 0, 100);
    let out = run(&stake_accounts(&cfg, empty_position(), 200), &with_u64(2, &[500]));
    assert_eq!(out.result, Ok(()));
    assert_eq!(out.effects.len(), 4);
    match &out.effects[0] {
        Effect::CreateAccount { payer, target, system_program, space, owner, rent, signer_seeds } => {
            assert_eq!((*payer, *target, *system_program, *space), (0, 4, 6, POSITION_SIZE as u64));
            assert!(*owner == lib_key(&program()));
            assert_eq!(*rent, RentSource::Current);
            let bump = position_key().1;
            assert_eq!(*signer_seeds, seeds(&[b"stake_position", pool_key().0.as_ref(), user().as_ref(), &[bump]]));
        }
        _ => panic!("expected the position's creation"),
    }
    let pool_after = StakePoolConfig::deserialize(&written(&out.effects[1], 1)).unwrap();
    assert_eq!(pool_after.total_staked, 500);
    assert_eq!(pool_after.last_update_slot, 200);
    match &out.effects[2] {
        Effect::Transfer { token_program, source, destination, authority, amount, signer_seeds } => {
            assert_eq!((*token_program, *source, *destination, *authority, *amount), (5, 2, 3, 0, 500));
            assert!(signer_seeds.is_none());
        }
        _ => panic!("expected a transfer"),
    }
    let position = StakePosition::deserialize(&written(&out.effects[3], 4)).unwrap();
    assert_eq!(position, StakePosition { amount: 500, deposit_slot: 200, reward_per_token_paid: 0, pending_rewards: 0 });
}

#[test]
fn later_stake_settles_rewards_first() {
    let cfg = pool_config(1000, 0, 100);
    let old = StakePosition { amount: 1000, deposit_slot: 100, reward_per_token_paid: 0, pending_rewards: 0 };
    let out = run(&stake_accounts(&cfg, position_account(&old, 1_000), 200), &with_u64(2, &[10]));
    assert_eq!(out.result, Ok(()));
    assert_eq!(out.effects.len(), 3);
    let pool_after = StakePoolConfig::deserialize(&written(&out.effects[0], 1)).unwrap();
    // 1000 per 100 slots over 100 slots, shared by 1000 tokens: one unit per token.
    assert_eq!(pool_after.reward_per_token_stored, FP);
    assert_eq!(pool_after.total_staked, 1010);
    let position = StakePosition::deserialize(&written(&out.effects[2], 4)).unwrap();
    assert_eq!(position, StakePosition { amount: 1010, deposit_slot: 200, reward_per_token_paid: FP, pending_rewards: 1000 });
}

#[test]
fn stake_refuses_zero_and_missing_amount() {
    let cfg = pool_config(0, 0, 100);
    let accounts = stake_accounts(&cfg, empty_position(), 200);
    assert_eq!(run(&accounts, &with_u64(2, &[0])).result, Err(ProgramError::InvalidInstructionData));
    assert_eq!(run(&accounts, &[2, 1, 2, 3]).result, Err(ProgramError::InvalidInstructionData));
}

#[test]
fn stake_needs_the_users_signature() {
    let cfg = pool_config(0, 0, 100);
    let mut accounts = stake_accounts(&cfg, empty_position(), 200);
    accounts[0].is_signer = false;
    let out = run(&accounts, &with_u64(2, &[5]));
    assert_eq!(out.result, Err(ProgramError::MissingRequiredSignature));
    assert!(out.effects.is_empty());
}

#[test]
fn stake_refuses_a_foreign_pool_or_token_program() {
    let cfg = pool_config(0, 0, 100);
    let mut accounts = stake_accounts(&cfg, empty_position(), 200);
    accounts[1].owner = lib_key(&other());
    assert_eq!(run(&accounts, &with_u64(2, &[5])).result, Err(ProgramError::IllegalOwner));
    let mut accounts = stake_accounts(&cfg, empty_position(), 200);
    accounts[5].key = lib_key(&other());
    assert_eq!(run(&accounts, &with_u64(2, &[5])).result, Err(ProgramError::IncorrectProgramId));
}

#[test]
fn stake_refuses_a_wrong_position_address_or_clock() {
    let cfg = pool_config(0, 0, 100);
    let mut accounts = stake_accounts(&cfg, empty_position(), 200);
    accounts[4].key = lib_key(&other());
    assert_eq!(run(&accounts, &with_u64(2, &[5])).result, Err(ProgramError::InvalidSeeds));
    let mut accounts = stake_accounts(&cfg, empty_position(), 200);
    accounts[7].key = lib_key(&other());
    assert_eq!(run(&accounts, &with_u64(2, &[5])).result, Err(ProgramError::InvalidArgument));
    let mut accounts = stake_accounts(&cfg, empty_position(), 200);
    accounts[7].data.truncate(39);
    assert_eq!(run(&accounts, &with_u64(2, &[5])).result, Err(ProgramError::InvalidArgument));
}

#[test]
fn stake_refuses_a_funded_but_empty_position() {
    let cfg = pool_config(0, 0, 100);
    let mut position = empty_position();
    position.lamports = 5;
    let out = run(&stake_accounts(&cfg, position, 200), &with_u64(2, &[5]));
    assert_eq!(out.result, Err(ProgramError::AccountAlreadyInitialized));
}

#[test]
fn stake_refuses_a_position_owned_elsewhere() {
    let cfg = pool_config(0, 0, 100);
    let old = StakePosition { amount: 1, deposit_slot: 1, reward_per_token_paid: 0, pending_rewards: 0 };
    let mut position = position_account(&old, 1_000);
    position.owner = lib_key(&other());
    let out = run(&stake_accounts(&cfg, position, 200), &with_u64(2, &[5]));
    assert_eq!(out.result, Err(ProgramError::IllegalOwner));
}

#[test]
fn stake_refuses_totals_that_overflow() {
    let cfg = pool_config(u64::MAX, 0, 100);
    let out = run(&stake_accounts(&cfg, empty_position(), 200), &with_u64(2, &[1]));
    assert_eq!(out.result, Err(ProgramError::ArithmeticOverflow));
    assert_eq!(out.effects.len(), 1);
    let cfg = pool_config(1, 0, 100);
    let old = StakePosition { amount: u64::MAX, deposit_slot: 1, reward_per_token_paid: 0, pending_rewards: 0 };
    let out = run(&stake_accounts(&cfg, position_account(&old, 1_000), 200), &with_u64(2, &[1]));
    assert_eq!(out.result, Err(ProgramError::ArithmeticOverflow));
    assert_eq!(out.effects.len(), 2);
}

#[test]
fn stake_refuses_a_vault_of_another_mint() {
    let cfg = pool_config(0, 0, 100);
    let mut accounts = stake_accounts(&cfg, empty_position(), 200);
    accounts[3] = token_account(vault_key().0, reward_mint(), pool_key().0);
    assert_eq!(run(&accounts, &with_u64(2, &[5])).result, Err(ProgramError::InvalidAccountData));
}

// ---- unstake ----

fn unstake_accounts(pool: &StakePoolConfig, position: AccountSnapshot, slot: u64) -> Vec<AccountSnapshot> {
    vec![
        plain(user(), true),
        pool_account(pool),
        token_account(other(), stake_mint(), user()),
        token_account(vault_key().0, stake_mint(), pool_key().0),
        position,
        reward_mint_account(),
        token_account(payer(), reward_mint(), user()),
        plain(mint_authority_key().0, false),
        token_program(),
        clock(slot),
    ]
}

#[test]
fn full_unstake_pays_rewards_and_closes_the_position() {
    let cfg = pool_config(1000, 0, 100);
    let old = StakePosition { amount: 1000, deposit_slot: 100, reward_per_token_paid: 0, pending_rewards: 5 };
    let out = run(&unstake_accounts(&cfg, position_account(&old, 1_000), 200), &with_u64(3, &[1000]));
    assert_eq!(out.result, Ok(()));
    assert_eq!(out.effects.len(), 4);
    let pool_after = StakePoolConfig::deserialize(&written(&out.effects[0], 1)).unwrap();
    assert_eq!(pool_after.total_staked, 0);
    match &out.effects[1] {
        Effect::Transfer { token_program, source, destination, authority, amount, signer_seeds } => {
            assert_eq!((*token_program, *source, *destination, *authority, *amount), (8, 3, 2, 1, 1000));
            let bump = pool_key().1;
            assert_eq!(signer_seeds.clone(), Some(seeds(&[b"stake_pool", stake_mint().as_ref(), reward_mint().as_ref(), &[bump]])));
        }
        _ => panic!("expected the vault's transfer"),
    }
    match &out.effects[2] {
        Effect::MintTo { token_program, mint, destination, authority, amount, signer_seeds } => {
            assert_eq!((*token_program, *mint, *destination, *authority, *amount), (8, 5, 6, 7, 1005));
            let bump = mint_authority_key().1;
            assert_eq!(*signer_seeds, seeds(&[b"reward_mint_authority", reward_mint().as_ref(), &[bump]]));
        }
        _ => panic!("expected the reward minting"),
    }
    match &out.effects[3] {
        Effect::CloseAccount { account, destination, destination_lamports } => {
            assert_eq!((*account, *destination, *destination_lamports), (4, 0, 1_001_000));
        }
        _ => panic!("expected the position's closing"),
    }
}

#[test]
fn partial_unstake_keeps_the_rest() {
    let cfg = pool_config(1000, 0, 200);
    let old = StakePosition { amount: 1000, deposit_slot: 100, reward_per_token_paid: 0, pending_rewards: 0 };
    let out = run(&unstake_accounts(&cfg, position_account(&old, 1_000), 200), &with_u64(3, &[400]));
    assert_eq!(out.result, Ok(()));
    assert_eq!(out.effects.len(), 3);
    let pool_after = StakePoolConfig::deserialize(&written(&out.effects[0], 1)).unwrap();
    assert_eq!(pool_after.total_staked, 600);
    let position = StakePosition::deserialize(&written(&out.effects[2], 4)).unwrap();
    assert_eq!(position, StakePosition { amount: 600, deposit_slot: 100, reward_per_token_paid: 0, pending_rewards: 0 });
}

#[test]
fn unstake_refuses_more_than_staked() {
    let cfg = pool_config(1000, 0, 200);
    let old = StakePosition { amount: 10, deposit_slot: 100, reward_per_token_paid: 0, pending_rewards: 0 };
    let out = run(&unstake_accounts(&cfg, position_account(&old, 1_000), 200), &with_u64(3, &[11]));
    assert_eq!(out.result, Err(ProgramError::InsufficientFunds));
    assert!(out.effects.is_empty());
}

#[test]
fn unstake_refuses_a_foreign_reward_mint() {
    let cfg = pool_config(1000, 0, 200);
    let old = StakePosition { amount: 10, deposit_slot: 100, reward_per_token_paid: 0, pending_rewards: 0 };
    let mut accounts = unstake_accounts(&cfg, position_account(&old, 1_000), 200);
    accounts[5].key = lib_key(&other());
    assert_eq!(run(&accounts, &with_u64(3, &[1])).result, Err(ProgramError::InvalidAccountData));
}

#[test]
fn unstake_refuses_a_wrong_mint_authority() {
    let cfg = pool_config(1000, 0, 100);
    let old = StakePosition { amount: 1000, deposit_slot: 100, reward_per_token_paid: 0, pending_rewards: 0 };
    let mut accounts = unstake_accounts(&cfg, position_account(&old, 1_000), 200);
    accounts[7].key = lib_key(&other());
    let out = run(&accounts, &with_u64(3, &[1]));
    assert_eq!(out.result, Err(ProgramError::InvalidSeeds));
    assert_eq!(out.effects.len(), 2);
}

#[test]
fn closing_refuses_a_lamport_overflow() {
    let cfg = pool_config(1000, 0, 200);
    let old = StakePosition { amount: 10, deposit_slot: 100, reward_per_token_paid: 0, pending_rewards: 0 };
    let mut accounts = unstake_accounts(&cfg, position_account(&old, 1_000), 200);
    accounts[0].lamports = u64::MAX;
    let out = run(&accounts, &with_u64(3, &[10]));
    assert_eq!(out.result, Err(ProgramError::ArithmeticOverflow));
    assert_eq!(out.effects.len(), 2);
}

// ---- claim ----

fn claim_accounts(pool: &StakePoolConfig, position: AccountSnapshot, slot: u64) -> Vec<AccountSnapshot> {
    vec![
        plain(user(), true),
        pool_account(pool),
        position,
        reward_mint_account(),
        token_account(payer(), reward_mint(), user()),
        plain(mint_authority_key().0, false),
        token_program(),
        clock(slot),
    ]
}

#[test]
fn claim_mints_what_is_owed() {
    let cfg = pool_config(1000, 0, 100);
    let old = StakePosition { amount: 500, deposit_slot: 100, reward_per_token_paid: 0, pending_rewards: 0 };
    let mut accounts = claim_accounts(&cfg, position_account(&old, 1_000), 200);
    accounts[2].key = lib_key(&position_key().0);
    let out = run(&accounts, &[4]);
    assert_eq!(out.result, Ok(()));
    assert_eq!(out.effects.len(), 3);
    match &out.effects[1] {
        Effect::MintTo { destination, amount, .. } => assert_eq!((*destination, *amount), (4, 500)),
        _ => panic!("expected the reward minting"),
    }
    let position = StakePosition::deserialize(&written(&out.effects[2], 2)).unwrap();
    assert_eq!(position, StakePosition { amount: 500, deposit_slot: 100, reward_per_token_paid: FP, pending_rewards: 0 });
}

#[test]
fn claim_with_nothing_owed_mints_nothing() {
    let cfg = pool_config(1000, FP, 200);
    let old = StakePosition { amount: 500, deposit_slot: 100, reward_per_token_paid: FP, pending_rewards: 0 };
    let out = run(&claim_accounts(&cfg, position_account(&old, 1_000), 200), &[4]);
    assert_eq!(out.result, Ok(()));
    assert_eq!(out.effects.len(), 2);
}

#[test]
fn claim_refuses_a_missing_position() {
    let cfg = pool_config(1000, 0, 100);
    let out = run(&claim_accounts(&cfg, empty_position(), 200), &[4]);
    assert_eq!(out.result, Err(ProgramError::IllegalOwner));
    assert_eq!(out.effects.len(), 1);
}

#[test]
fn claim_refuses_a_reward_account_of_another_owner() {
    let cfg = pool_config(1000, 0, 100);
    let old = StakePosition { amount: 500, deposit_slot: 100, reward_per_token_paid: 0, pending_rewards: 0 };
    let mut accounts = claim_accounts(&cfg, position_account(&old, 1_000), 200);
    accounts[4] = token_account(payer(), reward_mint(), other());
    assert_eq!(run(&accounts, &[4]).result, Err(ProgramError::InvalidAccountData));
}

// ---- administration ----

#[test]
fn init_coin_config_records_the_authority() {
    let accounts = vec![
        plain(payer(), true),
        plain(authority(), true),
        reward_mint_account(),
        account(coin_cfg_key().0, solana_program::system_program::ID, 0, Vec::new(), false),
        system_program(),
    ];
    let out = run(&accounts, &[0]);
    assert_eq!(out.result, Ok(()));
    assert_eq!(out.effects.len(), 2);
    match &out.effects[0] {
        Effect::CreateAccount { payer, target, system_program, space, signer_seeds, .. } => {
            assert_eq!((*payer, *target, *system_program, *space), (0, 3, 4, COIN_CFG_SIZE as u64));
            let bump = coin_cfg_key().1;
            assert_eq!(*signer_seeds, seeds(&[b"coin_cfg", reward_mint().as_ref(), &[bump]]));
        }
        _ => panic!("expected the config's creation"),
    }
    let cfg = CoinConfig::deserialize(&written(&out.effects[1], 3)).unwrap();
    assert!(cfg.authority == lib_key(&authority()));
}

#[test]
fn init_coin_config_refusals() {
    let good = || {
        vec![
            plain(payer(), true),
            plain(authority(), true),
            reward_mint_account(),
            account(coin_cfg_key().0, solana_program::system_program::ID, 0, Vec::new(), false),
            system_program(),
        ]
    };
    assert_eq!(run(&good()[..4], &[0]).result, Err(ProgramError::NotEnoughAccountKeys));
    let mut a = good();
    a[1].is_signer = false;
    assert_eq!(run(&a, &[0]).result, Err(ProgramError::MissingRequiredSignature));
    let mut a = good();
    a[4].key = lib_key(&other());
    assert_eq!(run(&a, &[0]).result, Err(ProgramError::IncorrectProgramId));
    let mut a = good();
    a[2].data = mint_data(Some(mint_authority_key().0), Some(other()), true);
    assert_eq!(run(&a, &[0]).result, Err(ProgramError::InvalidAccountData));
    let mut a = good();
    a[2].data = mint_data(Some(other()), None, true);
    assert_eq!(run(&a, &[0]).result, Err(ProgramError::InvalidAccountData));
    let mut a = good();
    a[2].data = mint_data(Some(mint_authority_key().0), None, false);
    assert_eq!(run(&a, &[0]).result, Err(ProgramError::UninitializedAccount));
    let mut a = good();
    a[2].owner = lib_key(&other());
    assert_eq!(run(&a, &[0]).result, Err(ProgramError::IllegalOwner));
    let mut a = good();
    a[3].lamports = 1;
    assert_eq!(run(&a, &[0]).result, Err(ProgramError::AccountAlreadyInitialized));
    let mut a = good();
    a[3].key = lib_key(&other());
    assert_eq!(run(&a, &[0]).result, Err(ProgramError::InvalidSeeds));
}

fn init_pool_accounts() -> Vec<AccountSnapshot> {
    vec![
        plain(payer(), true),
        plain(authority(), true),
        account(pool_key().0, solana_program::system_program::ID, 0, Vec::new(), false),
        reward_mint_account(),
        coin_cfg_account(authority()),
        stake_mint_account(),
        account(vault_key().0, solana_program::system_program::ID, 0, Vec::new(), false),
        token_program(),
        account(solana_program::sysvar::rent::ID, solana_program::sysvar::ID, 1, vec![0u8; 17], false),
        system_program(),
        clock(777),
    ]
}

#[test]
fn init_stake_pool_creates_pool_and_vault() {
    let out = run(&init_pool_accounts(), &with_u64(1, &[5000, 432000]));
    assert_eq!(out.result, Ok(()));
    assert_eq!(out.effects.len(), 4);
    let cfg = StakePoolConfig::deserialize(&written(&out.effects[1], 2)).unwrap();
    assert!(cfg.authority == lib_key(&authority()));
    assert!(cfg.stake_mint == lib_key(&stake_mint()));
    assert!(cfg.reward_mint == lib_key(&reward_mint()));
    assert_eq!((cfg.reward_per_epoch, cfg.epoch_slots, cfg.start_slot, cfg.last_update_slot), (5000, 432000, 777, 777));
    assert_eq!((cfg.reward_per_token_stored, cfg.total_staked), (0, 0));
    match &out.effects[2] {
        Effect::CreateAccount { payer, target, system_program, space, owner, rent, signer_seeds } => {
            assert_eq!((*payer, *target, *system_program, *space), (0, 6, 9, 165));
            assert!(*owner == lib_key(&spl_token::ID));
            assert_eq!(*rent, RentSource::Account(8));
            let bump = vault_key().1;
            assert_eq!(*signer_seeds, seeds(&[b"stake_vault", pool_key().0.as_ref(), &[bump]]));
        }
        _ => panic!("expected the vault's creation"),
    }
    match &out.effects[3] {
        Effect::InitializeTokenAccount { token_program, account, mint, rent_sysvar, owner } => {
            assert_eq!((*token_program, *account, *mint, *rent_sysvar), (7, 6, 5, 8));
            assert!(*owner == lib_key(&pool_key().0));
        }
        _ => panic!("expected the vault's initialization"),
    }
}

#[test]
fn init_stake_pool_refusals() {
    assert_eq!(run(&init_pool_accounts(), &with_u64(1, &[5000, 0])).result, Err(ProgramError::InvalidInstructionData));
    assert_eq!(run(&init_pool_accounts(), &with_u64(1, &[5000])).result, Err(ProgramError::InvalidInstructionData));
    let mut a = init_pool_accounts();
    a[4] = coin_cfg_account(other());
    assert_eq!(run(&a, &with_u64(1, &[5000, 10])).result, Err(ProgramError::MissingRequiredSignature));
    let mut a = init_pool_accounts();
    a[6].key = lib_key(&other());
    let out = run(&a, &with_u64(1, &[5000, 10]));
    assert_eq!(out.result, Err(ProgramError::InvalidSeeds));
    assert_eq!(out.effects.len(), 2);
    let mut a = init_pool_accounts();
    a[10].key = lib_key(&other());
    let out = run(&a, &with_u64(1, &[5000, 10]));
    assert_eq!(out.result, Err(ProgramError::InvalidArgument));
    assert_eq!(out.effects.len(), 1);
}

fn set_rewards_accounts(pool: &StakePoolConfig) -> Vec<AccountSnapshot> {
    vec![plain(authority(), true), pool_account(pool), reward_mint_account(), coin_cfg_account(authority()), clock(300)]
}

#[test]
fn set_rewards_settles_then_changes_the_rate() {
    let cfg = pool_config(1000, 0, 100);
    let out = run(&set_rewards_accounts(&cfg), &with_u64(5, &[7, 9]));
    assert_eq!(out.result, Ok(()));
    let after = StakePoolConfig::deserialize(&written(&out.effects[0], 1)).unwrap();
    // 1000 per 100 slots over 200 slots, shared by 1000 tokens.
    assert_eq!(after.reward_per_token_stored, 2 * FP);
    assert_eq!((after.reward_per_epoch, after.epoch_slots, after.last_update_slot), (7, 9, 300));
    assert!(after.authority == lib_key(&authority()));
}

#[test]
fn set_rewards_needs_the_coin_authority() {
    let cfg = pool_config(1000, 0, 100);
    let mut a = set_rewards_accounts(&cfg);
    a[0].is_signer = false;
    assert_eq!(run(&a, &with_u64(5, &[7, 9])).result, Err(ProgramError::MissingRequiredSignature));
    let mut a = set_rewards_accounts(&cfg);
    a[3] = coin_cfg_account(other());
    assert_eq!(run(&a, &with_u64(5, &[7, 9])).result, Err(ProgramError::MissingRequiredSignature));
    let mut a = set_rewards_accounts(&cfg);
    a[3].owner = lib_key(&other());
    assert_eq!(run(&a, &with_u64(5, &[7, 9])).result, Err(ProgramError::IllegalOwner));
    assert_eq!(run(&set_rewards_accounts(&cfg), &with_u64(5, &[7, 0])).result, Err(ProgramError::InvalidInstructionData));
}

fn admin_mint_accounts() -> Vec<AccountSnapshot> {
    vec![
        plain(authority(), true),
        reward_mint_account(),
        coin_cfg_account(authority()),
        token_account(payer(), reward_mint(), other()),
        plain(mint_authority_key().0, false),
        token_program(),
    ]
}

#[test]
fn mint_reward_mints_to_a_reward_account() {
    let out = run(&admin_mint_accounts(), &with_u64(6, &[42]));
    assert_eq!(out.result, Ok(()));
    match &out.effects[..] {
        [Effect::MintTo { token_program, mint, destination, authority, amount, .. }] => {
            assert_eq!((*token_program, *mint, *destination, *authority, *amount), (5, 1, 3, 4, 42));
        }
        _ => panic!("expected one minting"),
    }
}

#[test]
fn mint_reward_refusals() {
    assert_eq!(run(&admin_mint_accounts(), &with_u64(6, &[0])).result, Err(ProgramError::InvalidInstructionData));
    let mut a = admin_mint_accounts();
    a[3] = token_account(payer(), stake_mint(), other());
    assert_eq!(run(&a, &with_u64(6, &[1])).result, Err(ProgramError::InvalidAccountData));
    let mut a = admin_mint_accounts();
    a[3].owner = lib_key(&other());
    assert_eq!(run(&a, &with_u64(6, &[1])).result, Err(ProgramError::IllegalOwner));
    let mut a = admin_mint_accounts();
    a[2].key = lib_key(&other());
    assert_eq!(run(&a, &with_u64(6, &[1])).result, Err(ProgramError::InvalidSeeds));
}

#[test]
fn transfer_mint_authority_signs_with_the_derived_authority() {
    let mut a = admin_mint_accounts();
    a[4] = plain(mint_authority_key().0, false);
    a[3] = plain(other(), false);
    let mut accounts = vec![a[0].clone_snapshot(), a[1].clone_snapshot(), a[2].clone_snapshot(), a[4].clone_snapshot(), a[3].clone_snapshot(), a[5].clone_snapshot()];
    let out = run(&accounts, &[7]);
    assert_eq!(out.result, Ok(()));
    match &out.effects[..] {
        [Effect::SetMintAuthority { token_program, mint, new_authority, authority, signer_seeds }] => {
            assert_eq!((*token_program, *mint, *new_authority, *authority), (5, 1, 4, 3));
            let bump = mint_authority_key().1;
            assert_eq!(*signer_seeds, seeds(&[b"reward_mint_authority", reward_mint().as_ref(), &[bump]]));
        }
        _ => panic!("expected one authority change"),
    }
    accounts[3].key = lib_key(&other());
    assert_eq!(run(&accounts, &[7]).result, Err(ProgramError::InvalidSeeds));
}

#[test]
fn transfer_config_authority_rewrites_the_config() {
    let accounts = vec![plain(authority(), true), reward_mint_account(), coin_cfg_account(authority()), plain(other(), false)];
    let out = run(&accounts, &[8]);
    assert_eq!(out.result, Ok(()));
    let cfg = CoinConfig::deserialize(&written(&out.effects[0], 2)).unwrap();
    assert!(cfg.authority == lib_key(&other()));
    let accounts = vec![plain(other(), true), reward_mint_account(), coin_cfg_account(authority()), plain(other(), false)];
    assert_eq!(run(&accounts, &[8]).result, Err(ProgramError::MissingRequiredSignature));
}

#[test]
fn unknown_or_empty_instructions_are_refused() {
    assert_eq!(run(&[], &[]).result, Err(ProgramError::InvalidInstructionData));
    assert_eq!(run(&[], &[9]).result, Err(ProgramError::InvalidInstructionData));
    assert_eq!(run(&[], &[2]).result, Err(ProgramError::NotEnoughAccountKeys));
}

trait CloneSnapshot {
    fn clone_snapshot(&self) -> AccountSnapshot;
}
impl CloneSnapshot for AccountSnapshot {
    fn clone_snapshot(&self) -> AccountSnapshot {
        AccountSnapshot { key: self.key, owner: self.owner, lamports: self.lamports, data: self.data.clone(), is_signer: self.is_signer }
    }
}

fn apply_write(account: &mut AccountSnapshot, e: &Effect) {
    if let Effect::WriteData { bytes, .. } = e {
        account.data[..bytes.len()].copy_from_slice(bytes);
    }
}

#[test]
fn a_second_claim_at_the_same_slot_pays_nothing() {
    let cfg = pool_config(1000, 0, 100);
    let old = StakePosition { amount: 500, deposit_slot: 100, reward_per_token_paid: 0, pending_rewards: 0 };
    let mut accounts = claim_accounts(&cfg, position_account(&old, 1_000), 200);
    let first = run(&accounts, &[4]);
    assert_eq!(first.result, Ok(()));
    assert_eq!(first.effects.len(), 3);
    apply_write(&mut accounts[1], &first.effects[0]);
    apply_write(&mut accounts[2], &first.effects[2]);
    let second = run(&accounts, &[4]);
    assert_eq!(second.result, Ok(()));
    assert_eq!(second.effects.len(), 2);
    assert_eq!(written(&second.effects[0], 1), written(&first.effects[0], 1));
    assert_eq!(written(&second.effects[1], 2), written(&first.effects[2], 2));
}

#[test]
fn pool_total_stays_the_sum_of_stakes() {
    // 500 staked by others, 1000 by this user.
    let cfg = pool_config(1500, 0, 100);
    let old = StakePosition { amount: 1000, deposit_slot: 100, reward_per_token_paid: 0, pending_rewards: 0 };
    let out = run(&unstake_accounts(&cfg, position_account(&old, 1_000), 200), &with_u64(3, &[400]));
    assert_eq!(out.result, Ok(()));
    let pool_after = StakePoolConfig::deserialize(&written(&out.effects[0], 1)).unwrap();
    let position = StakePosition::deserialize(&written(out.effects.last().unwrap(), 4)).unwrap();
    assert_eq!(pool_after.total_staked, 500 + position.amount);
    let out = run(&stake_accounts(&cfg, position_account(&old, 1_000), 200), &with_u64(2, &[25]));
    let pool_after = StakePoolConfig::deserialize(&written(&out.effects[0], 1)).unwrap();
    let position = StakePosition::deserialize(&written(out.effects.last().unwrap(), 4)).unwrap();
    assert_eq!(pool_after.total_staked, 500 + position.amount);
}
