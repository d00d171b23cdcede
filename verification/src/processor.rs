//! The instruction processors: from the accounts and instruction data to the
//! effects the runtime carries out and the instruction's answer.

use vstd::prelude::*;
use crate::accounts::{
    account_views, effect_views, no_effects, push_effect, refused, AccountSnapshot, AccountView, Effect,
    EffectView, Outcome, OutcomeView, RentSource,
};
use crate::checks::{
    coin_authority_check, mint_check, verify_mint_account, derive_address, is_derived, check_derived, load_position, load_token_account, pool_account_check,
    position_load, require_coin_authority, reward_mint_check, stake_vault_check,
    token_account_check, token_account_load, token_program_check, validate_stake_vault,
    validate_token_account, verify_pool_account, verify_reward_mint_authority,
    verify_token_program,
};
use crate::codec::le_value;
use crate::instruction::{read_u64, read_u8};
use crate::math::{accumulated, settle_pending, settled, update_accumulator};
use crate::token::{clock_slot, clock_slot_of, TOKEN_ACCOUNT_LEN};
use crate::error::ProgramError;
use crate::keys::{
    coin_cfg_seeds, coin_cfg_seeds_view, mint_authority_seeds, mint_authority_seeds_view,
    stake_vault_seeds, stake_vault_seeds_view, token_program_id, token_program_key,
    pool_seeds, pool_seeds_view, position_seeds, position_seeds_view, program_address, push_bump, seeds_view, system_program_id, system_program_key, with_bump,
};
use crate::state::{
    coin_cfg_bytes, parse_pool, parse_position, pool_bytes, position_bytes, CoinConfig, CoinConfigView, Pubkey,
    StakePoolConfig, StakePoolConfigView, StakePosition, COIN_CFG_SIZE, POOL_SIZE, POSITION_SIZE,
};

verus! {

/// An outcome with these effects and this answer.
pub open spec fn finish(effects: Seq<EffectView>, result: Result<(), ProgramError>) -> OutcomeView {
    OutcomeView { effects, result }
}

fn refuse(e: ProgramError) -> (r: Outcome)
    ensures
        r@ == refused(e),
{
    let r = Outcome { effects: Vec::new(), result: Err(e) };
    assert(r@.effects =~= Seq::<EffectView>::empty());
    r
}

fn stop(effects: Vec<Effect>, e: ProgramError) -> (r: Outcome)
    ensures
        r@ == finish(effect_views(effects@), Err(e)),
{
    Outcome { effects, result: Err(e) }
}

fn succeed(effects: Vec<Effect>) -> (r: Outcome)
    ensures
        r@ == finish(effect_views(effects@), Ok(())),
{
    Outcome { effects, result: Ok(()) }
}

/// The account creation that `create_pda_account` asks for: a `size`-byte
/// account at the address derived from `seeds`, owned by the program, which
/// must not hold lamports yet.
pub open spec fn create_pda_effect(
    payer: usize,
    target: usize,
    system_program: usize,
    target_account: AccountView,
    program_id: Seq<u8>,
    seeds: Seq<Seq<u8>>,
    size: u64,
) -> Result<EffectView, ProgramError> {
    match program_address(seeds, program_id) {
        None => Err(ProgramError::InvalidSeeds),
        Some((k, bump)) => if target_account.key != k {
            Err(ProgramError::InvalidSeeds)
        } else if target_account.lamports > 0 {
            Err(ProgramError::AccountAlreadyInitialized)
        } else {
            Ok(
                EffectView::CreateAccount {
                    payer,
                    target,
                    system_program,
                    space: size,
                    owner: program_id,
                    rent: RentSource::Current,
                    signer_seeds: with_bump(seeds, bump),
                },
            )
        },
    }
}

/// Asks for a new program-owned account of `size` bytes at the address that
/// `seeds` derive, paid by `payer`.
fn create_pda_account(
    accounts: &[AccountSnapshot],
    payer: usize,
    target: usize,
    system_program: usize,
    program_id: &Pubkey,
    seeds: Vec<Vec<u8>>,
    size: u64,
) -> (r: Result<Effect, ProgramError>)
    requires
        target < accounts@.len(),
    ensures
        match r {
            Ok(e) => create_pda_effect(payer, target, system_program, accounts@[target as int]@, program_id@, seeds_view(seeds), size) == Ok::<EffectView, ProgramError>(e@),
            Err(e) => create_pda_effect(payer, target, system_program, accounts@[target as int]@, program_id@, seeds_view(seeds), size) == Err::<EffectView, ProgramError>(e),
        },
{
    let (expected, bump) = derive_address(&seeds, program_id)?;
    if accounts[target].key != expected {
        return Err(ProgramError::InvalidSeeds);
    }
    if accounts[target].lamports > 0 {
        return Err(ProgramError::AccountAlreadyInitialized);
    }
    let mut signer_seeds = seeds;
    push_bump(&mut signer_seeds, bump);
    Ok(Effect::CreateAccount {
        payer,
        target,
        system_program,
        space: size,
        owner: *program_id,
        rent: RentSource::Current,
        signer_seeds,
    })
}

fn coin_cfg_record(authority: &Pubkey) -> (r: Vec<u8>)
    ensures
        r@ == coin_cfg_bytes(CoinConfigView { authority: authority@ }),
{
    let mut buf = vec![0u8; COIN_CFG_SIZE];
    let cfg = CoinConfig { authority: *authority };
    cfg.serialize(buf.as_mut_slice());
    assert(buf@ =~= coin_cfg_bytes(CoinConfigView { authority: authority@ }));
    buf
}

/// `init_coin_config`: records the coin's governance authority in a new coin
/// config at the address derived from the reward mint. Payer and authority
/// must sign, and the reward mint must be minted by the program's derived
/// authority and have no freeze authority.
pub open spec fn init_coin_config_outcome(program_id: Seq<u8>, a: Seq<AccountView>) -> OutcomeView {
    if a.len() < 5 {
        refused(ProgramError::NotEnoughAccountKeys)
    } else if !a[0].is_signer || !a[1].is_signer {
        refused(ProgramError::MissingRequiredSignature)
    } else if a[4].key != system_program_key() {
        refused(ProgramError::IncorrectProgramId)
    } else {
        match reward_mint_check(program_id, a[2]) {
            Err(e) => refused(e),
            Ok(()) => match create_pda_effect(0, 3, 4, a[3], program_id, coin_cfg_seeds_view(a[2].key), COIN_CFG_SIZE as u64) {
                Err(e) => refused(e),
                Ok(create) => finish(
                    seq![create, EffectView::WriteData { account: 3, bytes: coin_cfg_bytes(CoinConfigView { authority: a[1].key }) }],
                    Ok(()),
                ),
            },
        }
    }
}

pub fn process_init_coin_config(program_id: &Pubkey, accounts: &[AccountSnapshot]) -> (r: Outcome)
    ensures
        r@ == init_coin_config_outcome(program_id@, account_views(accounts@)),
{
    let ghost a = account_views(accounts@);
    if accounts.len() < 5 {
        return refuse(ProgramError::NotEnoughAccountKeys);
    }
    assert(a[0] == accounts@[0]@ && a[1] == accounts@[1]@ && a[2] == accounts@[2]@ && a[3] == accounts@[3]@ && a[4] == accounts@[4]@);
    if !accounts[0].is_signer || !accounts[1].is_signer {
        return refuse(ProgramError::MissingRequiredSignature);
    }
    if accounts[4].key != system_program_id() {
        return refuse(ProgramError::IncorrectProgramId);
    }
    if let Err(e) = verify_reward_mint_authority(program_id, &accounts[2]) {
        return refuse(e);
    }
    let create = match create_pda_account(accounts, 0, 3, 4, program_id, coin_cfg_seeds(&accounts[2].key), COIN_CFG_SIZE as u64) {
        Ok(e) => e,
        Err(e) => return refuse(e),
    };
    let ghost create_view = create@;
    assert(create_pda_effect(0, 3, 4, a[3], program_id@, coin_cfg_seeds_view(a[2].key), COIN_CFG_SIZE as u64) == Ok::<EffectView, ProgramError>(create_view));
    let mut effects = no_effects();
    push_effect(&mut effects, create);
    let write = Effect::WriteData { account: 3, bytes: coin_cfg_record(&accounts[1].key) };
    assert(write@ == EffectView::WriteData { account: 3, bytes: coin_cfg_bytes(CoinConfigView { authority: a[1].key }) });
    push_effect(&mut effects, write);
    assert(effect_views(effects@) =~= seq![create_view, EffectView::WriteData { account: 3, bytes: coin_cfg_bytes(CoinConfigView { authority: a[1].key }) }]);
    succeed(effects)
}


fn pool_record(cfg: &StakePoolConfig) -> (r: Vec<u8>)
    ensures
        r@ == pool_bytes(cfg@),
{
    let mut buf = vec![0u8; POOL_SIZE];
    cfg.serialize(buf.as_mut_slice());
    assert(buf@ =~= pool_bytes(cfg@));
    buf
}

fn position_record(p: &StakePosition) -> (r: Vec<u8>)
    ensures
        r@ == position_bytes(*p),
{
    let mut buf = vec![0u8; POSITION_SIZE];
    p.serialize(buf.as_mut_slice());
    assert(buf@ =~= position_bytes(*p));
    buf
}

/// The effects in `o`, if any, as a list.
pub open spec fn optional(o: Option<EffectView>) -> Seq<EffectView> {
    match o {
        Some(e) => seq![e],
        None => seq![],
    }
}

/// The reward minting that `mint_pending_rewards` asks for: nothing for a zero
/// amount; otherwise `amount` of the reward mint into `destination`, signed by
/// the program's derived mint authority.
pub open spec fn mint_rewards_effect(
    program_id: Seq<u8>,
    a: Seq<AccountView>,
    token_program: usize,
    reward_mint: usize,
    destination: usize,
    mint_authority: usize,
    expected_reward_mint: Seq<u8>,
    amount: u64,
) -> Result<Option<EffectView>, ProgramError> {
    if amount == 0 {
        Ok(None)
    } else if a[reward_mint as int].key != expected_reward_mint {
        Err(ProgramError::InvalidAccountData)
    } else {
        match program_address(mint_authority_seeds_view(a[reward_mint as int].key), program_id) {
            None => Err(ProgramError::InvalidSeeds),
            Some((k, bump)) => if a[mint_authority as int].key != k {
                Err(ProgramError::InvalidSeeds)
            } else {
                Ok(
                    Some(
                        EffectView::MintTo {
                            token_program,
                            mint: reward_mint,
                            destination,
                            authority: mint_authority,
                            amount,
                            signer_seeds: with_bump(
                                mint_authority_seeds_view(a[reward_mint as int].key),
                                bump,
                            ),
                        },
                    ),
                )
            },
        }
    }
}

/// Mints `amount` reward tokens to `destination` by the program's derived mint authority.
fn mint_pending_rewards(
    program_id: &Pubkey,
    accounts: &[AccountSnapshot],
    token_program: usize,
    reward_mint: usize,
    destination: usize,
    mint_authority: usize,
    expected_reward_mint: &Pubkey,
    amount: u64,
) -> (r: Result<Option<Effect>, ProgramError>)
    requires
        reward_mint < accounts@.len(),
        mint_authority < accounts@.len(),
    ensures
        match r {
            Ok(Some(e)) => mint_rewards_effect(program_id@, account_views(accounts@), token_program, reward_mint, destination, mint_authority, expected_reward_mint@, amount) == Ok::<Option<EffectView>, ProgramError>(Some(e@)),
            Ok(None) => mint_rewards_effect(program_id@, account_views(accounts@), token_program, reward_mint, destination, mint_authority, expected_reward_mint@, amount) == Ok::<Option<EffectView>, ProgramError>(None),
            Err(e) => mint_rewards_effect(program_id@, account_views(accounts@), token_program, reward_mint, destination, mint_authority, expected_reward_mint@, amount) == Err::<Option<EffectView>, ProgramError>(e),
        },
{
    let ghost a = account_views(accounts@);
    assert(a[reward_mint as int] == accounts@[reward_mint as int]@);
    assert(a[mint_authority as int] == accounts@[mint_authority as int]@);
    if amount == 0 {
        return Ok(None);
    }
    if accounts[reward_mint].key != *expected_reward_mint {
        return Err(ProgramError::InvalidAccountData);
    }
    let seeds = mint_authority_seeds(&accounts[reward_mint].key);
    let (expected_mint_authority, mint_bump) = derive_address(&seeds, program_id)?;
    if accounts[mint_authority].key != expected_mint_authority {
        return Err(ProgramError::InvalidSeeds);
    }
    let mut signer_seeds = seeds;
    push_bump(&mut signer_seeds, mint_bump);
    Ok(Some(Effect::MintTo {
        token_program,
        mint: reward_mint,
        destination,
        authority: mint_authority,
        amount,
        signer_seeds,
    }))
}

pub open spec fn optional_view(o: Option<Effect>) -> Option<EffectView> {
    match o {
        Some(e) => Some(e@),
        None => None,
    }
}

fn push_optional(effects: &mut Vec<Effect>, o: Option<Effect>)
    ensures
        effect_views(final(effects)@) == effect_views(old(effects)@) + optional(optional_view(o)),
{
    match o {
        Some(e) => {
            let ghost v = e@;
            push_effect(effects, e);
            assert(effect_views(effects@) =~= effect_views(old(effects)@) + seq![v]);
        },
        None => {
            assert(effect_views(effects@) =~= effect_views(old(effects)@) + Seq::<EffectView>::empty());
        },
    }
}

/// `transfer_config_authority`: the coin authority hands the coin config to a
/// new authority.
pub open spec fn transfer_config_authority_outcome(program_id: Seq<u8>, a: Seq<AccountView>) -> OutcomeView {
    if a.len() < 4 {
        refused(ProgramError::NotEnoughAccountKeys)
    } else {
        match coin_authority_check(a[2], a[1].key, a[0], program_id) {
            Err(e) => refused(e),
            Ok(()) => finish(
                seq![EffectView::WriteData { account: 2, bytes: coin_cfg_bytes(CoinConfigView { authority: a[3].key }) }],
                Ok(()),
            ),
        }
    }
}

pub fn process_transfer_config_authority(program_id: &Pubkey, accounts: &[AccountSnapshot]) -> (r: Outcome)
    ensures
        r@ == transfer_config_authority_outcome(program_id@, account_views(accounts@)),
{
    let ghost a = account_views(accounts@);
    if accounts.len() < 4 {
        return refuse(ProgramError::NotEnoughAccountKeys);
    }
    assert(a[0] == accounts@[0]@ && a[1] == accounts@[1]@ && a[2] == accounts@[2]@ && a[3] == accounts@[3]@);
    if let Err(e) = require_coin_authority(&accounts[2], &accounts[1].key, &accounts[0], program_id) {
        return refuse(e);
    }
    let mut effects = no_effects();
    let write = Effect::WriteData { account: 2, bytes: coin_cfg_record(&accounts[3].key) };
    let ghost w = write@;
    push_effect(&mut effects, write);
    assert(effect_views(effects@) =~= seq![w]);
    succeed(effects)
}

/// `mint_reward`: the coin authority mints `amount` reward tokens into a token
/// account of the reward mint.
pub open spec fn mint_reward_outcome(program_id: Seq<u8>, a: Seq<AccountView>, data: Seq<u8>) -> OutcomeView {
    if a.len() < 6 {
        refused(ProgramError::NotEnoughAccountKeys)
    } else if data.len() < 8 {
        refused(ProgramError::InvalidInstructionData)
    } else {
        let amount = le_value(data.subrange(0, 8)) as u64;
        if amount == 0 {
            refused(ProgramError::InvalidInstructionData)
        } else {
            match token_program_check(a[5]) {
                Err(e) => refused(e),
                Ok(()) => match coin_authority_check(a[2], a[1].key, a[0], program_id) {
                    Err(e) => refused(e),
                    Ok(()) => match token_account_load(a[3]) {
                        Err(e) => refused(e),
                        Ok((mint, _)) => if mint != a[1].key {
                            refused(ProgramError::InvalidAccountData)
                        } else {
                            match mint_rewards_effect(program_id, a, 5, 1, 3, 4, a[1].key, amount) {
                                Err(e) => refused(e),
                                Ok(o) => finish(optional(o), Ok(())),
                            }
                        },
                    },
                },
            }
        }
    }
}

pub fn process_mint_reward(program_id: &Pubkey, accounts: &[AccountSnapshot], data: &[u8]) -> (r: Outcome)
    ensures
        r@ == mint_reward_outcome(program_id@, account_views(accounts@), data@),
{
    let ghost a = account_views(accounts@);
    if accounts.len() < 6 {
        return refuse(ProgramError::NotEnoughAccountKeys);
    }
    assert(forall|i: int| 0 <= i < 6 ==> a[i] == accounts@[i]@);
    let mut cursor = data;
    let amount = match read_u64(&mut cursor) {
        Ok(v) => v,
        Err(e) => return refuse(e),
    };
    if amount == 0 {
        return refuse(ProgramError::InvalidInstructionData);
    }
    if let Err(e) = verify_token_program(&accounts[5]) {
        return refuse(e);
    }
    if let Err(e) = require_coin_authority(&accounts[2], &accounts[1].key, &accounts[0], program_id) {
        return refuse(e);
    }
    let dest = match load_token_account(&accounts[3]) {
        Ok(t) => t,
        Err(e) => return refuse(e),
    };
    if dest.mint != accounts[1].key {
        return refuse(ProgramError::InvalidAccountData);
    }
    let minted = match mint_pending_rewards(program_id, accounts, 5, 1, 3, 4, &accounts[1].key, amount) {
        Ok(o) => o,
        Err(e) => return refuse(e),
    };
    let mut effects = no_effects();
    push_optional(&mut effects, minted);
    assert(effect_views(effects@) =~= Seq::<EffectView>::empty() + effect_views(effects@).subrange(0, effect_views(effects@).len() as int));
    succeed(effects)
}

/// `transfer_mint_authority`: the coin authority moves the reward mint's mint
/// authority from the program's derived authority to a new authority.
pub open spec fn transfer_mint_authority_outcome(program_id: Seq<u8>, a: Seq<AccountView>) -> OutcomeView {
    if a.len() < 6 {
        refused(ProgramError::NotEnoughAccountKeys)
    } else {
        match token_program_check(a[5]) {
            Err(e) => refused(e),
            Ok(()) => match coin_authority_check(a[2], a[1].key, a[0], program_id) {
                Err(e) => refused(e),
                Ok(()) => match program_address(mint_authority_seeds_view(a[1].key), program_id) {
                    None => refused(ProgramError::InvalidSeeds),
                    Some((k, bump)) => if a[3].key != k {
                        refused(ProgramError::InvalidSeeds)
                    } else {
                        finish(
                            seq![
                                EffectView::SetMintAuthority {
                                    token_program: 5,
                                    mint: 1,
                                    new_authority: 4,
                                    authority: 3,
                                    signer_seeds: with_bump(mint_authority_seeds_view(a[1].key), bump),
                                },
                            ],
                            Ok(()),
                        )
                    },
                },
            },
        }
    }
}

pub fn process_transfer_mint_authority(program_id: &Pubkey, accounts: &[AccountSnapshot]) -> (r: Outcome)
    ensures
        r@ == transfer_mint_authority_outcome(program_id@, account_views(accounts@)),
{
    let ghost a = account_views(accounts@);
    if accounts.len() < 6 {
        return refuse(ProgramError::NotEnoughAccountKeys);
    }
    assert(forall|i: int| 0 <= i < 6 ==> a[i] == accounts@[i]@);
    if let Err(e) = verify_token_program(&accounts[5]) {
        return refuse(e);
    }
    if let Err(e) = require_coin_authority(&accounts[2], &accounts[1].key, &accounts[0], program_id) {
        return refuse(e);
    }
    let seeds = mint_authority_seeds(&accounts[1].key);
    let (expected_mint_authority, mint_bump) = match derive_address(&seeds, program_id) {
        Ok(found) => found,
        Err(e) => return refuse(e),
    };
    if accounts[3].key != expected_mint_authority {
        return refuse(ProgramError::InvalidSeeds);
    }
    let mut signer_seeds = seeds;
    push_bump(&mut signer_seeds, mint_bump);
    let set = Effect::SetMintAuthority {
        token_program: 5,
        mint: 1,
        new_authority: 4,
        authority: 3,
        signer_seeds,
    };
    let ghost v = set@;
    let mut effects = no_effects();
    push_effect(&mut effects, set);
    assert(effect_views(effects@) =~= seq![v]);
    succeed(effects)
}

/// `set_stake_pool_rewards`: the coin authority settles the pool's
/// accumulator up to the current slot, then sets a new reward rate and
/// becomes the pool's recorded authority.
pub open spec fn set_stake_pool_rewards_outcome(program_id: Seq<u8>, a: Seq<AccountView>, data: Seq<u8>) -> OutcomeView {
    if a.len() < 5 {
        refused(ProgramError::NotEnoughAccountKeys)
    } else if data.len() < 16 {
        refused(ProgramError::InvalidInstructionData)
    } else {
        let reward_per_epoch = le_value(data.subrange(0, 8)) as u64;
        let epoch_slots = le_value(data.subrange(8, 16)) as u64;
        if epoch_slots == 0 {
            refused(ProgramError::InvalidInstructionData)
        } else {
            match coin_authority_check(a[3], a[2].key, a[0], program_id) {
                Err(e) => refused(e),
                Ok(()) => match parse_pool(a[1].data) {
                    None => refused(ProgramError::InvalidAccountData),
                    Some(cfg) => match pool_account_check(a[1], cfg, program_id) {
                        Err(e) => refused(e),
                        Ok(()) => if cfg.reward_mint != a[2].key {
                            refused(ProgramError::InvalidAccountData)
                        } else {
                            match clock_slot_of(a[4].key, a[4].data) {
                                Err(e) => refused(e),
                                Ok(slot) => finish(
                                    seq![
                                        EffectView::WriteData {
                                            account: 1,
                                            bytes: pool_bytes(
                                                StakePoolConfigView {
                                                    reward_per_epoch,
                                                    epoch_slots,
                                                    authority: a[0].key,
                                                    ..accumulated(cfg, slot)
                                                },
                                            ),
                                        },
                                    ],
                                    Ok(()),
                                ),
                            }
                        },
                    },
                },
            }
        }
    }
}

pub fn process_set_stake_pool_rewards(program_id: &Pubkey, accounts: &[AccountSnapshot], data: &[u8]) -> (r: Outcome)
    ensures
        r@ == set_stake_pool_rewards_outcome(program_id@, account_views(accounts@), data@),
{
    let ghost a = account_views(accounts@);
    if accounts.len() < 5 {
        return refuse(ProgramError::NotEnoughAccountKeys);
    }
    assert(forall|i: int| 0 <= i < 5 ==> a[i] == accounts@[i]@);
    let mut cursor = data;
    let new_reward_per_epoch = match read_u64(&mut cursor) {
        Ok(v) => v,
        Err(e) => return refuse(e),
    };
    let new_epoch_slots = match read_u64(&mut cursor) {
        Ok(v) => v,
        Err(e) => return refuse(e),
    };
    assert(data@.subrange(8, 16) =~= data@.subrange(8, data@.len() as int).subrange(0, 8));
    if new_epoch_slots == 0 {
        return refuse(ProgramError::InvalidInstructionData);
    }
    if let Err(e) = require_coin_authority(&accounts[3], &accounts[2].key, &accounts[0], program_id) {
        return refuse(e);
    }
    let mut cfg = match StakePoolConfig::deserialize(accounts[1].data.as_slice()) {
        Ok(c) => c,
        Err(e) => return refuse(e),
    };
    if let Err(e) = verify_pool_account(&accounts[1], &cfg, program_id) {
        return refuse(e);
    }
    if cfg.reward_mint != accounts[2].key {
        return refuse(ProgramError::InvalidAccountData);
    }
    let slot = match clock_slot(&accounts[4].key, accounts[4].data.as_slice()) {
        Ok(s) => s,
        Err(e) => return refuse(e),
    };
    update_accumulator(&mut cfg, slot);
    cfg.reward_per_epoch = new_reward_per_epoch;
    cfg.epoch_slots = new_epoch_slots;
    cfg.authority = accounts[0].key;
    let write = Effect::WriteData { account: 1, bytes: pool_record(&cfg) };
    let ghost v = write@;
    let mut effects = no_effects();
    push_effect(&mut effects, write);
    assert(effect_views(effects@) =~= seq![v]);
    succeed(effects)
}


/// The account closing that `close_position` asks for: all of the position's
/// lamports go to `destination`, refused where its balance would overflow.
pub open spec fn close_effect(a: Seq<AccountView>, account: usize, destination: usize) -> Result<EffectView, ProgramError> {
    if a[destination as int].lamports + a[account as int].lamports > u64::MAX {
        Err(ProgramError::ArithmeticOverflow)
    } else {
        Ok(
            EffectView::CloseAccount {
                account,
                destination,
                destination_lamports: (a[destination as int].lamports + a[account as int].lamports) as u64,
            },
        )
    }
}

/// Closes a position account, returning its lamports to `destination`.
fn close_position(accounts: &[AccountSnapshot], account: usize, destination: usize) -> (r: Result<Effect, ProgramError>)
    requires
        account < accounts@.len(),
        destination < accounts@.len(),
    ensures
        match r {
            Ok(e) => close_effect(account_views(accounts@), account, destination) == Ok::<EffectView, ProgramError>(e@),
            Err(e) => close_effect(account_views(accounts@), account, destination) == Err::<EffectView, ProgramError>(e),
        },
{
    let ghost a = account_views(accounts@);
    assert(a[account as int] == accounts@[account as int]@);
    assert(a[destination as int] == accounts@[destination as int]@);
    match accounts[destination].lamports.checked_add(accounts[account].lamports) {
        Some(total) => Ok(Effect::CloseAccount { account, destination, destination_lamports: total }),
        None => Err(ProgramError::ArithmeticOverflow),
    }
}

/// `claim_stake_rewards`: brings the pool's accumulator to the current slot,
/// settles the user's position, mints its pending rewards to the user and
/// clears them.
pub open spec fn claim_outcome(program_id: Seq<u8>, a: Seq<AccountView>) -> OutcomeView {
    if a.len() < 8 {
        refused(ProgramError::NotEnoughAccountKeys)
    } else if !a[0].is_signer {
        refused(ProgramError::MissingRequiredSignature)
    } else {
        match parse_pool(a[1].data) {
            None => refused(ProgramError::InvalidAccountData),
            Some(cfg) => match pool_account_check(a[1], cfg, program_id) {
                Err(e) => refused(e),
                Ok(()) => match token_program_check(a[6]) {
                    Err(e) => refused(e),
                    Ok(()) => match token_account_check(a[4], cfg.reward_mint, a[0].key) {
                        Err(e) => refused(e),
                        Ok(()) => if a[3].key != cfg.reward_mint {
                            refused(ProgramError::InvalidAccountData)
                        } else {
                            match clock_slot_of(a[7].key, a[7].data) {
                                Err(e) => refused(e),
                                Ok(slot) => {
                                    let cfg1 = accumulated(cfg, slot);
                                    let write_pool = EffectView::WriteData { account: 1, bytes: pool_bytes(cfg1) };
                                    match position_load(a[2], a[1].key, a[0].key, program_id) {
                                        Err(e) => finish(seq![write_pool], Err(e)),
                                        Ok(p) => {
                                            let p1 = settled(p, cfg1.reward_per_token_stored);
                                            match mint_rewards_effect(program_id, a, 6, 3, 4, 5, cfg1.reward_mint, p1.pending_rewards) {
                                                Err(e) => finish(seq![write_pool], Err(e)),
                                                Ok(o) => finish(
                                                    seq![write_pool] + optional(o) + seq![
                                                        EffectView::WriteData {
                                                            account: 2,
                                                            bytes: position_bytes(StakePosition { pending_rewards: 0, ..p1 }),
                                                        },
                                                    ],
                                                    Ok(()),
                                                ),
                                            }
                                        },
                                    }
                                },
                            }
                        },
                    },
                },
            },
        }
    }
}

pub fn process_claim_stake_rewards(program_id: &Pubkey, accounts: &[AccountSnapshot]) -> (r: Outcome)
    ensures
        r@ == claim_outcome(program_id@, account_views(accounts@)),
{
    let ghost a = account_views(accounts@);
    if accounts.len() < 8 {
        return refuse(ProgramError::NotEnoughAccountKeys);
    }
    assert(forall|i: int| 0 <= i < 8 ==> a[i] == accounts@[i]@);
    if !accounts[0].is_signer {
        return refuse(ProgramError::MissingRequiredSignature);
    }
    let mut cfg = match StakePoolConfig::deserialize(accounts[1].data.as_slice()) {
        Ok(c) => c,
        Err(e) => return refuse(e),
    };
    if let Err(e) = verify_pool_account(&accounts[1], &cfg, program_id) {
        return refuse(e);
    }
    if let Err(e) = verify_token_program(&accounts[6]) {
        return refuse(e);
    }
    if let Err(e) = validate_token_account(&accounts[4], &cfg.reward_mint, &accounts[0].key) {
        return refuse(e);
    }
    if accounts[3].key != cfg.reward_mint {
        return refuse(ProgramError::InvalidAccountData);
    }
    let slot = match clock_slot(&accounts[7].key, accounts[7].data.as_slice()) {
        Ok(s) => s,
        Err(e) => return refuse(e),
    };
    update_accumulator(&mut cfg, slot);
    let write_pool = Effect::WriteData { account: 1, bytes: pool_record(&cfg) };
    let ghost wp = write_pool@;
    let mut effects = no_effects();
    push_effect(&mut effects, write_pool);
    let mut position = match load_position(&accounts[2], &accounts[1].key, &accounts[0].key, program_id) {
        Ok(p) => p,
        Err(e) => {
            assert(effect_views(effects@) =~= seq![wp]);
            return stop(effects, e);
        },
    };
    settle_pending(&mut position, cfg.reward_per_token_stored);
    let minted = match mint_pending_rewards(program_id, accounts, 6, 3, 4, 5, &cfg.reward_mint, position.pending_rewards) {
        Ok(o) => o,
        Err(e) => {
            assert(effect_views(effects@) =~= seq![wp]);
            return stop(effects, e);
        },
    };
    let ghost mv = optional_view(minted);
    push_optional(&mut effects, minted);
    position.pending_rewards = 0;
    let write_position = Effect::WriteData { account: 2, bytes: position_record(&position) };
    let ghost wpos = write_position@;
    push_effect(&mut effects, write_position);
    assert(effect_views(effects@) =~= seq![wp] + optional(mv) + seq![wpos]);
    succeed(effects)
}


/// How `stake` comes by the user's position: a new, empty position account
/// (whose creation is the first effect), or the one already there.
pub open spec fn stake_position_source(program_id: Seq<u8>, a: Seq<AccountView>) -> Result<(Seq<EffectView>, StakePosition), ProgramError> {
    if a[4].lamports == 0 || a[4].data.len() == 0 {
        match create_pda_effect(0, 4, 6, a[4], program_id, position_seeds_view(a[1].key, a[0].key), POSITION_SIZE as u64) {
            Err(e) => Err(e),
            Ok(c) => Ok((seq![c], StakePosition { amount: 0, deposit_slot: 0, reward_per_token_paid: 0, pending_rewards: 0 })),
        }
    } else if a[4].owner != program_id {
        Err(ProgramError::IllegalOwner)
    } else {
        match parse_position(a[4].data) {
            None => Err(ProgramError::InvalidAccountData),
            Some(p) => Ok((seq![], p)),
        }
    }
}

/// What `stake` does once the pool is checked and brought to `slot`.
pub open spec fn stake_tail(program_id: Seq<u8>, a: Seq<AccountView>, amount: u64, cfg1: StakePoolConfigView, slot: u64) -> OutcomeView {
    match stake_position_source(program_id, a) {
        Err(e) => refused(e),
        Ok((pre, p)) => {
            let p1 = settled(p, cfg1.reward_per_token_stored);
            if cfg1.total_staked + amount > u64::MAX {
                finish(pre, Err(ProgramError::ArithmeticOverflow))
            } else {
                let cfg2 = StakePoolConfigView { total_staked: (cfg1.total_staked + amount) as u64, ..cfg1 };
                let mid = pre + seq![
                    EffectView::WriteData { account: 1, bytes: pool_bytes(cfg2) },
                    EffectView::Transfer {
                        token_program: 5,
                        source: 2,
                        destination: 3,
                        authority: 0,
                        amount,
                        signer_seeds: None,
                    },
                ];
                if p1.amount + amount > u64::MAX {
                    finish(mid, Err(ProgramError::ArithmeticOverflow))
                } else {
                    finish(
                        mid.push(
                            EffectView::WriteData {
                                account: 4,
                                bytes: position_bytes(
                                    StakePosition {
                                        amount: (p1.amount + amount) as u64,
                                        deposit_slot: slot,
                                        reward_per_token_paid: cfg2.reward_per_token_stored,
                                        pending_rewards: p1.pending_rewards,
                                    },
                                ),
                            },
                        ),
                        Ok(()),
                    )
                }
            }
        },
    }
}

/// `stake`: moves `amount` stake tokens from the user into the pool's vault,
/// after bringing the pool's accumulator to the current slot and settling the
/// user's position (created on first use); the position records the deposit.
pub open spec fn stake_outcome(program_id: Seq<u8>, a: Seq<AccountView>, data: Seq<u8>) -> OutcomeView {
    if a.len() < 8 {
        refused(ProgramError::NotEnoughAccountKeys)
    } else if data.len() < 8 {
        refused(ProgramError::InvalidInstructionData)
    } else {
        let amount = le_value(data.subrange(0, 8)) as u64;
        if amount == 0 {
            refused(ProgramError::InvalidInstructionData)
        } else if !a[0].is_signer {
            refused(ProgramError::MissingRequiredSignature)
        } else {
            match parse_pool(a[1].data) {
                None => refused(ProgramError::InvalidAccountData),
                Some(cfg) => match pool_account_check(a[1], cfg, program_id) {
                    Err(e) => refused(e),
                    Ok(()) => match token_program_check(a[5]) {
                        Err(e) => refused(e),
                        Ok(()) => match token_account_check(a[2], cfg.stake_mint, a[0].key) {
                            Err(e) => refused(e),
                            Ok(()) => match stake_vault_check(a[3], a[1].key, cfg.stake_mint, program_id) {
                                Err(e) => refused(e),
                                Ok(()) => match clock_slot_of(a[7].key, a[7].data) {
                                    Err(e) => refused(e),
                                    Ok(slot) => if !is_derived(a[4].key, position_seeds_view(a[1].key, a[0].key), program_id) {
                                        refused(ProgramError::InvalidSeeds)
                                    } else {
                                        stake_tail(program_id, a, amount, accumulated(cfg, slot), slot)
                                    },
                                },
                            },
                        },
                    },
                },
            }
        }
    }
}

pub fn process_stake(program_id: &Pubkey, accounts: &[AccountSnapshot], data: &[u8]) -> (r: Outcome)
    ensures
        r@ == stake_outcome(program_id@, account_views(accounts@), data@),
{
    let ghost a = account_views(accounts@);
    if accounts.len() < 8 {
        return refuse(ProgramError::NotEnoughAccountKeys);
    }
    assert(forall|i: int| 0 <= i < 8 ==> a[i] == accounts@[i]@);
    let mut cursor = data;
    let amount = match read_u64(&mut cursor) {
        Ok(v) => v,
        Err(e) => return refuse(e),
    };
    if amount == 0 {
        return refuse(ProgramError::InvalidInstructionData);
    }
    if !accounts[0].is_signer {
        return refuse(ProgramError::MissingRequiredSignature);
    }
    let mut cfg = match StakePoolConfig::deserialize(accounts[1].data.as_slice()) {
        Ok(c) => c,
        Err(e) => return refuse(e),
    };
    if let Err(e) = verify_pool_account(&accounts[1], &cfg, program_id) {
        return refuse(e);
    }
    if let Err(e) = verify_token_program(&accounts[5]) {
        return refuse(e);
    }
    if let Err(e) = validate_token_account(&accounts[2], &cfg.stake_mint, &accounts[0].key) {
        return refuse(e);
    }
    if let Err(e) = validate_stake_vault(&accounts[3], &accounts[1].key, &cfg.stake_mint, program_id) {
        return refuse(e);
    }
    let slot = match clock_slot(&accounts[7].key, accounts[7].data.as_slice()) {
        Ok(s) => s,
        Err(e) => return refuse(e),
    };
    update_accumulator(&mut cfg, slot);
    let ghost cfg1 = cfg@;
    if let Err(e) = check_derived(&accounts[4].key, &position_seeds(&accounts[1].key, &accounts[0].key), program_id) {
        return refuse(e);
    }
    let mut effects = no_effects();
    let mut position = if accounts[4].lamports == 0 || accounts[4].data.len() == 0 {
        let create = match create_pda_account(accounts, 0, 4, 6, program_id, position_seeds(&accounts[1].key, &accounts[0].key), POSITION_SIZE as u64) {
            Ok(c) => c,
            Err(e) => return refuse(e),
        };
        push_effect(&mut effects, create);
        StakePosition { amount: 0, deposit_slot: 0, reward_per_token_paid: 0, pending_rewards: 0 }
    } else {
        if accounts[4].owner != *program_id {
            return refuse(ProgramError::IllegalOwner);
        }
        match StakePosition::deserialize(accounts[4].data.as_slice()) {
            Ok(p) => p,
            Err(e) => return refuse(e),
        }
    };
    let ghost pre = effect_views(effects@);
    assert(stake_position_source(program_id@, a) == Ok::<(Seq<EffectView>, StakePosition), ProgramError>((pre, position)));
    settle_pending(&mut position, cfg.reward_per_token_stored);
    cfg.total_staked = match cfg.total_staked.checked_add(amount) {
        Some(t) => t,
        None => return stop(effects, ProgramError::ArithmeticOverflow),
    };
    let write_pool = Effect::WriteData { account: 1, bytes: pool_record(&cfg) };
    let ghost wp = write_pool@;
    push_effect(&mut effects, write_pool);
    let transfer = Effect::Transfer {
        token_program: 5,
        source: 2,
        destination: 3,
        authority: 0,
        amount,
        signer_seeds: None,
    };
    let ghost tv = transfer@;
    push_effect(&mut effects, transfer);
    assert(effect_views(effects@) =~= pre + seq![wp, tv]);
    position.amount = match position.amount.checked_add(amount) {
        Some(v) => v,
        None => return stop(effects, ProgramError::ArithmeticOverflow),
    };
    position.deposit_slot = slot;
    position.reward_per_token_paid = cfg.reward_per_token_stored;
    let write_position = Effect::WriteData { account: 4, bytes: position_record(&position) };
    let ghost wpos = write_position@;
    push_effect(&mut effects, write_position);
    assert(effect_views(effects@) =~= (pre + seq![wp, tv]).push(wpos));
    succeed(effects)
}


/// What `unstake` does once the position is settled (`p1`) and the pool
/// brought to the current slot (`cfg1`).
pub open spec fn unstake_tail(program_id: Seq<u8>, a: Seq<AccountView>, amount: u64, cfg1: StakePoolConfigView, p1: StakePosition) -> OutcomeView {
    let cfg2 = StakePoolConfigView {
        total_staked: if cfg1.total_staked >= amount {
            (cfg1.total_staked - amount) as u64
        } else {
            0
        },
        ..cfg1
    };
    let write_pool = EffectView::WriteData { account: 1, bytes: pool_bytes(cfg2) };
    match program_address(pool_seeds_view(cfg1.stake_mint, cfg1.reward_mint), program_id) {
        None => finish(seq![write_pool], Err(ProgramError::InvalidSeeds)),
        Some((_, bump)) => {
            let transfer = EffectView::Transfer {
                token_program: 8,
                source: 3,
                destination: 2,
                authority: 1,
                amount,
                signer_seeds: Some(with_bump(pool_seeds_view(cfg1.stake_mint, cfg1.reward_mint), bump)),
            };
            match mint_rewards_effect(program_id, a, 8, 5, 6, 7, cfg1.reward_mint, p1.pending_rewards) {
                Err(e) => finish(seq![write_pool, transfer], Err(e)),
                Ok(o) => {
                    let mid = seq![write_pool, transfer] + optional(o);
                    let remaining = (p1.amount - amount) as u64;
                    if remaining == 0 {
                        match close_effect(a, 4, 0) {
                            Err(e) => finish(mid, Err(e)),
                            Ok(c) => finish(mid.push(c), Ok(())),
                        }
                    } else {
                        finish(
                            mid.push(
                                EffectView::WriteData {
                                    account: 4,
                                    bytes: position_bytes(StakePosition { amount: remaining, pending_rewards: 0, ..p1 }),
                                },
                            ),
                            Ok(()),
                        )
                    }
                },
            }
        },
    }
}

/// `unstake`: brings the pool's accumulator to the current slot, settles the
/// user's position, returns `amount` stake tokens from the vault (signed by
/// the pool), mints the pending rewards to the user, and closes the position
/// once nothing is left staked in it.
pub open spec fn unstake_outcome(program_id: Seq<u8>, a: Seq<AccountView>, data: Seq<u8>) -> OutcomeView {
    if a.len() < 10 {
        refused(ProgramError::NotEnoughAccountKeys)
    } else if data.len() < 8 {
        refused(ProgramError::InvalidInstructionData)
    } else {
        let amount = le_value(data.subrange(0, 8)) as u64;
        if amount == 0 {
            refused(ProgramError::InvalidInstructionData)
        } else if !a[0].is_signer {
            refused(ProgramError::MissingRequiredSignature)
        } else {
            match parse_pool(a[1].data) {
                None => refused(ProgramError::InvalidAccountData),
                Some(cfg) => match pool_account_check(a[1], cfg, program_id) {
                    Err(e) => refused(e),
                    Ok(()) => match token_program_check(a[8]) {
                        Err(e) => refused(e),
                        Ok(()) => match token_account_check(a[2], cfg.stake_mint, a[0].key) {
                            Err(e) => refused(e),
                            Ok(()) => match stake_vault_check(a[3], a[1].key, cfg.stake_mint, program_id) {
                                Err(e) => refused(e),
                                Ok(()) => match token_account_check(a[6], cfg.reward_mint, a[0].key) {
                                    Err(e) => refused(e),
                                    Ok(()) => if a[5].key != cfg.reward_mint {
                                        refused(ProgramError::InvalidAccountData)
                                    } else {
                                        match clock_slot_of(a[9].key, a[9].data) {
                                            Err(e) => refused(e),
                                            Ok(slot) => {
                                                let cfg1 = accumulated(cfg, slot);
                                                match position_load(a[4], a[1].key, a[0].key, program_id) {
                                                    Err(e) => refused(e),
                                                    Ok(p) => if amount > p.amount {
                                                        refused(ProgramError::InsufficientFunds)
                                                    } else {
                                                        unstake_tail(program_id, a, amount, cfg1, settled(p, cfg1.reward_per_token_stored))
                                                    },
                                                }
                                            },
                                        }
                                    },
                                },
                            },
                        },
                    },
                },
            }
        }
    }
}

pub fn process_unstake(program_id: &Pubkey, accounts: &[AccountSnapshot], data: &[u8]) -> (r: Outcome)
    ensures
        r@ == unstake_outcome(program_id@, account_views(accounts@), data@),
{
    let ghost a = account_views(accounts@);
    if accounts.len() < 10 {
        return refuse(ProgramError::NotEnoughAccountKeys);
    }
    assert(forall|i: int| 0 <= i < 10 ==> a[i] == accounts@[i]@);
    let mut cursor = data;
    let amount = match read_u64(&mut cursor) {
        Ok(v) => v,
        Err(e) => return refuse(e),
    };
    if amount == 0 {
        return refuse(ProgramError::InvalidInstructionData);
    }
    if !accounts[0].is_signer {
        return refuse(ProgramError::MissingRequiredSignature);
    }
    let mut cfg = match StakePoolConfig::deserialize(accounts[1].data.as_slice()) {
        Ok(c) => c,
        Err(e) => return refuse(e),
    };
    if let Err(e) = verify_pool_account(&accounts[1], &cfg, program_id) {
        return refuse(e);
    }
    if let Err(e) = verify_token_program(&accounts[8]) {
        return refuse(e);
    }
    if let Err(e) = validate_token_account(&accounts[2], &cfg.stake_mint, &accounts[0].key) {
        return refuse(e);
    }
    if let Err(e) = validate_stake_vault(&accounts[3], &accounts[1].key, &cfg.stake_mint, program_id) {
        return refuse(e);
    }
    if let Err(e) = validate_token_account(&accounts[6], &cfg.reward_mint, &accounts[0].key) {
        return refuse(e);
    }
    if accounts[5].key != cfg.reward_mint {
        return refuse(ProgramError::InvalidAccountData);
    }
    let slot = match clock_slot(&accounts[9].key, accounts[9].data.as_slice()) {
        Ok(s) => s,
        Err(e) => return refuse(e),
    };
    update_accumulator(&mut cfg, slot);
    let ghost cfg1 = cfg@;
    let mut position = match load_position(&accounts[4], &accounts[1].key, &accounts[0].key, program_id) {
        Ok(p) => p,
        Err(e) => return refuse(e),
    };
    if amount > position.amount {
        return refuse(ProgramError::InsufficientFunds);
    }
    settle_pending(&mut position, cfg.reward_per_token_stored);
    let ghost p1 = position;
    cfg.total_staked = cfg.total_staked.saturating_sub(amount);
    let write_pool = Effect::WriteData { account: 1, bytes: pool_record(&cfg) };
    let ghost wp = write_pool@;
    let mut effects = no_effects();
    push_effect(&mut effects, write_pool);
    let seeds = pool_seeds(&cfg.stake_mint, &cfg.reward_mint);
    let (_, pool_bump) = match derive_address(&seeds, program_id) {
        Ok(found) => found,
        Err(e) => {
            assert(effect_views(effects@) =~= seq![wp]);
            return stop(effects, e);
        },
    };
    let mut signer_seeds = seeds;
    push_bump(&mut signer_seeds, pool_bump);
    let transfer = Effect::Transfer {
        token_program: 8,
        source: 3,
        destination: 2,
        authority: 1,
        amount,
        signer_seeds: Some(signer_seeds),
    };
    let ghost tv = transfer@;
    push_effect(&mut effects, transfer);
    assert(effect_views(effects@) =~= seq![wp, tv]);
    let minted = match mint_pending_rewards(program_id, accounts, 8, 5, 6, 7, &cfg.reward_mint, position.pending_rewards) {
        Ok(o) => o,
        Err(e) => return stop(effects, e),
    };
    let ghost mv = optional_view(minted);
    push_optional(&mut effects, minted);
    let ghost mid = effect_views(effects@);
    assert(mid =~= seq![wp, tv] + optional(mv));
    position.amount = position.amount - amount;
    position.pending_rewards = 0;
    if position.amount == 0 {
        let close = match close_position(accounts, 4, 0) {
            Ok(c) => c,
            Err(e) => return stop(effects, e),
        };
        let ghost cv = close@;
        push_effect(&mut effects, close);
        assert(effect_views(effects@) =~= mid.push(cv));
    } else {
        let write_position = Effect::WriteData { account: 4, bytes: position_record(&position) };
        let ghost wpos = write_position@;
        push_effect(&mut effects, write_position);
        assert(effect_views(effects@) =~= mid.push(wpos));
    }
    succeed(effects)
}

/// `init_stake_pool`: the coin authority opens a pool for a stake mint at the
/// address derived from the two mints, with the given reward rate, starting
/// at the current slot, and creates and initializes its stake vault (a token
/// account of the stake mint owned by the pool).
pub open spec fn init_stake_pool_outcome(program_id: Seq<u8>, a: Seq<AccountView>, data: Seq<u8>) -> OutcomeView {
    if a.len() < 11 {
        refused(ProgramError::NotEnoughAccountKeys)
    } else if data.len() < 16 {
        refused(ProgramError::InvalidInstructionData)
    } else {
        let reward_per_epoch = le_value(data.subrange(0, 8)) as u64;
        let epoch_slots = le_value(data.subrange(8, 16)) as u64;
        if epoch_slots == 0 {
            refused(ProgramError::InvalidInstructionData)
        } else if !a[0].is_signer {
            refused(ProgramError::MissingRequiredSignature)
        } else {
            match token_program_check(a[7]) {
                Err(e) => refused(e),
                Ok(()) => match coin_authority_check(a[4], a[3].key, a[1], program_id) {
                    Err(e) => refused(e),
                    Ok(()) => match mint_check(a[5]) {
                        Err(e) => refused(e),
                        Ok(()) => match reward_mint_check(program_id, a[3]) {
                            Err(e) => refused(e),
                            Ok(()) => match create_pda_effect(0, 2, 9, a[2], program_id, pool_seeds_view(a[5].key, a[3].key), POOL_SIZE as u64) {
                                Err(e) => refused(e),
                                Ok(create_pool) => match clock_slot_of(a[10].key, a[10].data) {
                                    Err(e) => finish(seq![create_pool], Err(e)),
                                    Ok(slot) => {
                                        let cfg = StakePoolConfigView {
                                            authority: a[1].key,
                                            stake_mint: a[5].key,
                                            reward_mint: a[3].key,
                                            reward_per_epoch,
                                            epoch_slots,
                                            start_slot: slot,
                                            reward_per_token_stored: 0,
                                            last_update_slot: slot,
                                            total_staked: 0,
                                        };
                                        let first = seq![create_pool, EffectView::WriteData { account: 2, bytes: pool_bytes(cfg) }];
                                        match program_address(stake_vault_seeds_view(a[2].key), program_id) {
                                            None => finish(first, Err(ProgramError::InvalidSeeds)),
                                            Some((k, bump)) => if a[6].key != k {
                                                finish(first, Err(ProgramError::InvalidSeeds))
                                            } else {
                                                finish(
                                                    first + seq![
                                                        EffectView::CreateAccount {
                                                            payer: 0,
                                                            target: 6,
                                                            system_program: 9,
                                                            space: TOKEN_ACCOUNT_LEN as u64,
                                                            owner: token_program_key(),
                                                            rent: RentSource::Account(8),
                                                            signer_seeds: with_bump(stake_vault_seeds_view(a[2].key), bump),
                                                        },
                                                        EffectView::InitializeTokenAccount {
                                                            token_program: 7,
                                                            account: 6,
                                                            mint: 5,
                                                            rent_sysvar: 8,
                                                            owner: a[2].key,
                                                        },
                                                    ],
                                                    Ok(()),
                                                )
                                            },
                                        }
                                    },
                                },
                            },
                        },
                    },
                },
            }
        }
    }
}

pub fn process_init_stake_pool(program_id: &Pubkey, accounts: &[AccountSnapshot], data: &[u8]) -> (r: Outcome)
    ensures
        r@ == init_stake_pool_outcome(program_id@, account_views(accounts@), data@),
{
    let ghost a = account_views(accounts@);
    if accounts.len() < 11 {
        return refuse(ProgramError::NotEnoughAccountKeys);
    }
    assert(forall|i: int| 0 <= i < 11 ==> a[i] == accounts@[i]@);
    let mut cursor = data;
    let reward_per_epoch = match read_u64(&mut cursor) {
        Ok(v) => v,
        Err(e) => return refuse(e),
    };
    let epoch_slots = match read_u64(&mut cursor) {
        Ok(v) => v,
        Err(e) => return refuse(e),
    };
    assert(data@.subrange(8, 16) =~= data@.subrange(8, data@.len() as int).subrange(0, 8));
    if epoch_slots == 0 {
        return refuse(ProgramError::InvalidInstructionData);
    }
    if !accounts[0].is_signer {
        return refuse(ProgramError::MissingRequiredSignature);
    }
    if let Err(e) = verify_token_program(&accounts[7]) {
        return refuse(e);
    }
    if let Err(e) = require_coin_authority(&accounts[4], &accounts[3].key, &accounts[1], program_id) {
        return refuse(e);
    }
    if let Err(e) = verify_mint_account(&accounts[5]) {
        return refuse(e);
    }
    if let Err(e) = verify_reward_mint_authority(program_id, &accounts[3]) {
        return refuse(e);
    }
    let create_pool = match create_pda_account(accounts, 0, 2, 9, program_id, pool_seeds(&accounts[5].key, &accounts[3].key), POOL_SIZE as u64) {
        Ok(c) => c,
        Err(e) => return refuse(e),
    };
    let ghost cp = create_pool@;
    let mut effects = no_effects();
    push_effect(&mut effects, create_pool);
    let slot = match clock_slot(&accounts[10].key, accounts[10].data.as_slice()) {
        Ok(s) => s,
        Err(e) => {
            assert(effect_views(effects@) =~= seq![cp]);
            return stop(effects, e);
        },
    };
    let cfg = StakePoolConfig {
        authority: accounts[1].key,
        stake_mint: accounts[5].key,
        reward_mint: accounts[3].key,
        reward_per_epoch,
        epoch_slots,
        start_slot: slot,
        reward_per_token_stored: 0,
        last_update_slot: slot,
        total_staked: 0,
    };
    let write_pool = Effect::WriteData { account: 2, bytes: pool_record(&cfg) };
    let ghost wp = write_pool@;
    push_effect(&mut effects, write_pool);
    let ghost first = effect_views(effects@);
    assert(first =~= seq![cp, wp]);
    let seeds = stake_vault_seeds(&accounts[2].key);
    let (expected_vault, vault_bump) = match derive_address(&seeds, program_id) {
        Ok(found) => found,
        Err(e) => return stop(effects, e),
    };
    if accounts[6].key != expected_vault {
        return stop(effects, ProgramError::InvalidSeeds);
    }
    let mut signer_seeds = seeds;
    push_bump(&mut signer_seeds, vault_bump);
    let create_vault = Effect::CreateAccount {
        payer: 0,
        target: 6,
        system_program: 9,
        space: TOKEN_ACCOUNT_LEN as u64,
        owner: token_program_id(),
        rent: RentSource::Account(8),
        signer_seeds,
    };
    let ghost cv = create_vault@;
    push_effect(&mut effects, create_vault);
    let init = Effect::InitializeTokenAccount {
        token_program: 7,
        account: 6,
        mint: 5,
        rent_sysvar: 8,
        owner: accounts[2].key,
    };
    let ghost iv = init@;
    push_effect(&mut effects, init);
    assert(effect_views(effects@) =~= first + seq![cv, iv]);
    succeed(effects)
}

/// The instruction tags, in the order of the README's table.
pub const IX_INIT_COIN_CONFIG: u8 = 0;
pub const IX_INIT_STAKE_POOL: u8 = 1;
pub const IX_STAKE: u8 = 2;
pub const IX_UNSTAKE: u8 = 3;
pub const IX_CLAIM_STAKE_REWARDS: u8 = 4;
pub const IX_SET_STAKE_POOL_REWARDS: u8 = 5;
pub const IX_MINT_REWARD: u8 = 6;
pub const IX_TRANSFER_MINT_AUTHORITY: u8 = 7;
pub const IX_TRANSFER_CONFIG_AUTHORITY: u8 = 8;

/// What an instruction does: its first byte picks the instruction, the rest is
/// its arguments; an empty or unknown tag is refused.
pub open spec fn instruction_outcome(program_id: Seq<u8>, a: Seq<AccountView>, data: Seq<u8>) -> OutcomeView {
    if data.len() == 0 {
        refused(ProgramError::InvalidInstructionData)
    } else {
        let rest = data.subrange(1, data.len() as int);
        if data[0] == IX_INIT_COIN_CONFIG {
            init_coin_config_outcome(program_id, a)
        } else if data[0] == IX_INIT_STAKE_POOL {
            init_stake_pool_outcome(program_id, a, rest)
        } else if data[0] == IX_STAKE {
            stake_outcome(program_id, a, rest)
        } else if data[0] == IX_UNSTAKE {
            unstake_outcome(program_id, a, rest)
        } else if data[0] == IX_CLAIM_STAKE_REWARDS {
            claim_outcome(program_id, a)
        } else if data[0] == IX_SET_STAKE_POOL_REWARDS {
            set_stake_pool_rewards_outcome(program_id, a, rest)
        } else if data[0] == IX_MINT_REWARD {
            mint_reward_outcome(program_id, a, rest)
        } else if data[0] == IX_TRANSFER_MINT_AUTHORITY {
            transfer_mint_authority_outcome(program_id, a)
        } else if data[0] == IX_TRANSFER_CONFIG_AUTHORITY {
            transfer_config_authority_outcome(program_id, a)
        } else {
            refused(ProgramError::InvalidInstructionData)
        }
    }
}

/// The program's entry point: what the instruction in `instruction_data` does
/// with `accounts`.
pub fn process_instruction(program_id: &Pubkey, accounts: &[AccountSnapshot], instruction_data: &[u8]) -> (r: Outcome)
    ensures
        r@ == instruction_outcome(program_id@, account_views(accounts@), instruction_data@),
{
    let mut data = instruction_data;
    let tag = match read_u8(&mut data) {
        Ok(t) => t,
        Err(e) => return refuse(e),
    };
    match tag {
        IX_INIT_COIN_CONFIG => process_init_coin_config(program_id, accounts),
        IX_INIT_STAKE_POOL => process_init_stake_pool(program_id, accounts, data),
        IX_STAKE => process_stake(program_id, accounts, data),
        IX_UNSTAKE => process_unstake(program_id, accounts, data),
        IX_CLAIM_STAKE_REWARDS => process_claim_stake_rewards(program_id, accounts),
        IX_SET_STAKE_POOL_REWARDS => process_set_stake_pool_rewards(program_id, accounts, data),
        IX_MINT_REWARD => process_mint_reward(program_id, accounts, data),
        IX_TRANSFER_MINT_AUTHORITY => process_transfer_mint_authority(program_id, accounts),
        IX_TRANSFER_CONFIG_AUTHORITY => process_transfer_config_authority(program_id, accounts),
        _ => refuse(ProgramError::InvalidInstructionData),
    }
}

} // verus!
