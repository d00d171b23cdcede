//! The account checks that the instructions share.

use vstd::prelude::*;
use crate::accounts::{AccountSnapshot, AccountView};
use crate::error::ProgramError;
use crate::keys::{
    coin_cfg_seeds, coin_cfg_seeds_view, mint_authority_seeds, mint_authority_seeds_view,
    pool_seeds, pool_seeds_view, position_seeds, position_seeds_view, program_address,
    stake_vault_seeds, stake_vault_seeds_view, token_program_id, token_program_key,
    try_find_program_address,
};
use crate::state::{
    parse_coin_cfg, parse_position, CoinConfig, Pubkey, StakePoolConfig, StakePoolConfigView,
    StakePosition,
};
use crate::token::{
    mint_error, option_key, token_account_error, unpack_mint, unpack_token_account,
    TokenAccountInfo,
};

verus! {

/// Whether `key` is the address derived from `seeds` for `program_id`. Seeds
/// from which no address can be derived match no key.
pub open spec fn is_derived(key: Seq<u8>, seeds: Seq<Seq<u8>>, program_id: Seq<u8>) -> bool {
    match program_address(seeds, program_id) {
        Some((k, _)) => k == key,
        None => false,
    }
}

/// The address derived from `seeds`, or `InvalidSeeds` where there is none.
pub fn derive_address(seeds: &Vec<Vec<u8>>, program_id: &Pubkey) -> (r: Result<(Pubkey, u8), ProgramError>)
    ensures
        match r {
            Ok((k, bump)) => program_address(crate::keys::seeds_view(*seeds), program_id@) == Some((k@, bump)),
            Err(e) => program_address(crate::keys::seeds_view(*seeds), program_id@) is None && e
                == ProgramError::InvalidSeeds,
        },
{
    match try_find_program_address(seeds, program_id) {
        Some(found) => Ok(found),
        None => Err(ProgramError::InvalidSeeds),
    }
}

/// Refuses an account that is not at the address derived from `seeds`.
pub fn check_derived(account: &Pubkey, seeds: &Vec<Vec<u8>>, program_id: &Pubkey) -> (r: Result<(), ProgramError>)
    ensures
        r == if is_derived(account@, crate::keys::seeds_view(*seeds), program_id@) {
            Ok(())
        } else {
            Err(ProgramError::InvalidSeeds)
        },
{
    let (expected, _) = derive_address(seeds, program_id)?;
    if *account != expected {
        return Err(ProgramError::InvalidSeeds);
    }
    Ok(())
}

pub open spec fn token_program_check(a: AccountView) -> Result<(), ProgramError> {
    if a.key == token_program_key() {
        Ok(())
    } else {
        Err(ProgramError::IncorrectProgramId)
    }
}

/// Refuses any account but the SPL token program.
pub fn verify_token_program(token_program: &AccountSnapshot) -> (r: Result<(), ProgramError>)
    ensures
        r == token_program_check(token_program@),
{
    if token_program.key != token_program_id() {
        return Err(ProgramError::IncorrectProgramId);
    }
    Ok(())
}

pub open spec fn mint_check(a: AccountView) -> Result<(), ProgramError> {
    if a.owner != token_program_key() {
        Err(ProgramError::IllegalOwner)
    } else {
        match mint_error(a.data) {
            Some(e) => Err(e),
            None => Ok(()),
        }
    }
}

/// Refuses an account that is not an initialized mint of the token program.
pub fn verify_mint_account(mint_account: &AccountSnapshot) -> (r: Result<(), ProgramError>)
    ensures
        r == mint_check(mint_account@),
{
    if mint_account.owner != token_program_id() {
        return Err(ProgramError::IllegalOwner);
    }
    unpack_mint(mint_account.data.as_slice())?;
    Ok(())
}

pub open spec fn reward_mint_check(program_id: Seq<u8>, m: AccountView) -> Result<(), ProgramError> {
    match mint_check(m) {
        Err(e) => Err(e),
        Ok(()) => if option_key(m.data, 46) is Some {
            Err(ProgramError::InvalidAccountData)
        } else {
            match program_address(mint_authority_seeds_view(m.key), program_id) {
                None => Err(ProgramError::InvalidSeeds),
                Some((k, _)) => if option_key(m.data, 0) == Some(k) {
                    Ok(())
                } else {
                    Err(ProgramError::InvalidAccountData)
                },
            }
        },
    }
}

/// Refuses a reward mint that has a freeze authority or whose mint authority
/// is not the program's derived mint authority.
pub fn verify_reward_mint_authority(program_id: &Pubkey, reward_mint: &AccountSnapshot) -> (r: Result<(), ProgramError>)
    ensures
        r == reward_mint_check(program_id@, reward_mint@),
{
    verify_mint_account(reward_mint)?;
    let mint = match unpack_mint(reward_mint.data.as_slice()) {
        Ok(m) => m,
        Err(e) => return Err(e),
    };
    if mint.freeze_authority.is_some() {
        return Err(ProgramError::InvalidAccountData);
    }
    let (expected_authority, _) = derive_address(&mint_authority_seeds(&reward_mint.key), program_id)?;
    match mint.mint_authority {
        Some(authority) => if authority == expected_authority {
            Ok(())
        } else {
            Err(ProgramError::InvalidAccountData)
        },
        None => Err(ProgramError::InvalidAccountData),
    }
}

pub open spec fn token_account_load(a: AccountView) -> Result<(Seq<u8>, Seq<u8>), ProgramError> {
    if a.owner != token_program_key() {
        Err(ProgramError::IllegalOwner)
    } else if token_account_error(a.data) is Some {
        Err(ProgramError::InvalidAccountData)
    } else {
        Ok((a.data.subrange(0, 32), a.data.subrange(32, 64)))
    }
}

/// Reads a token account: its mint and owner.
pub fn load_token_account(account: &AccountSnapshot) -> (r: Result<TokenAccountInfo, ProgramError>)
    ensures
        match r {
            Ok(t) => token_account_load(account@) == Ok::<(Seq<u8>, Seq<u8>), ProgramError>((t.mint@, t.owner@)),
            Err(e) => token_account_load(account@) == Err::<(Seq<u8>, Seq<u8>), ProgramError>(e),
        },
{
    if account.owner != token_program_id() {
        return Err(ProgramError::IllegalOwner);
    }
    match unpack_token_account(account.data.as_slice()) {
        Ok(t) => Ok(t),
        Err(_) => Err(ProgramError::InvalidAccountData),
    }
}

pub open spec fn token_account_check(a: AccountView, mint: Seq<u8>, owner: Seq<u8>) -> Result<(), ProgramError> {
    match token_account_load(a) {
        Err(e) => Err(e),
        Ok((m, o)) => if m == mint && o == owner {
            Ok(())
        } else {
            Err(ProgramError::InvalidAccountData)
        },
    }
}

/// Refuses a token account of another mint or owner.
pub fn validate_token_account(account: &AccountSnapshot, expected_mint: &Pubkey, expected_owner: &Pubkey) -> (r: Result<(), ProgramError>)
    ensures
        r == token_account_check(account@, expected_mint@, expected_owner@),
{
    let token = load_token_account(account)?;
    if token.mint != *expected_mint || token.owner != *expected_owner {
        return Err(ProgramError::InvalidAccountData);
    }
    Ok(())
}

pub open spec fn coin_authority_check(
    coin_cfg: AccountView,
    reward_mint: Seq<u8>,
    authority: AccountView,
    program_id: Seq<u8>,
) -> Result<(), ProgramError> {
    if !authority.is_signer {
        Err(ProgramError::MissingRequiredSignature)
    } else if !is_derived(coin_cfg.key, coin_cfg_seeds_view(reward_mint), program_id) {
        Err(ProgramError::InvalidSeeds)
    } else if coin_cfg.owner != program_id {
        Err(ProgramError::IllegalOwner)
    } else {
        match parse_coin_cfg(coin_cfg.data) {
            None => Err(ProgramError::InvalidAccountData),
            Some(cfg) => if cfg.authority == authority.key {
                Ok(())
            } else {
                Err(ProgramError::MissingRequiredSignature)
            },
        }
    }
}

/// Refuses an administrative instruction unless `authority` signed and is the
/// authority in the coin config of `reward_mint`.
pub fn require_coin_authority(
    coin_cfg_account: &AccountSnapshot,
    reward_mint: &Pubkey,
    authority: &AccountSnapshot,
    program_id: &Pubkey,
) -> (r: Result<(), ProgramError>)
    ensures
        r == coin_authority_check(coin_cfg_account@, reward_mint@, authority@, program_id@),
{
    if !authority.is_signer {
        return Err(ProgramError::MissingRequiredSignature);
    }
    check_derived(&coin_cfg_account.key, &coin_cfg_seeds(reward_mint), program_id)?;
    if coin_cfg_account.owner != *program_id {
        return Err(ProgramError::IllegalOwner);
    }
    let cfg = CoinConfig::deserialize(coin_cfg_account.data.as_slice())?;
    if cfg.authority != authority.key {
        return Err(ProgramError::MissingRequiredSignature);
    }
    Ok(())
}

pub open spec fn pool_account_check(pool: AccountView, cfg: StakePoolConfigView, program_id: Seq<u8>) -> Result<(), ProgramError> {
    if pool.owner != program_id {
        Err(ProgramError::IllegalOwner)
    } else if !is_derived(pool.key, pool_seeds_view(cfg.stake_mint, cfg.reward_mint), program_id) {
        Err(ProgramError::InvalidSeeds)
    } else {
        Ok(())
    }
}

/// Refuses a pool account that the program does not own or that is not at the
/// address derived from the pool's two mints.
pub fn verify_pool_account(pool_account: &AccountSnapshot, cfg: &StakePoolConfig, program_id: &Pubkey) -> (r: Result<(), ProgramError>)
    ensures
        r == pool_account_check(pool_account@, cfg@, program_id@),
{
    if pool_account.owner != *program_id {
        return Err(ProgramError::IllegalOwner);
    }
    check_derived(&pool_account.key, &pool_seeds(&cfg.stake_mint, &cfg.reward_mint), program_id)
}

pub open spec fn stake_vault_check(vault: AccountView, pool: Seq<u8>, stake_mint: Seq<u8>, program_id: Seq<u8>) -> Result<(), ProgramError> {
    if !is_derived(vault.key, stake_vault_seeds_view(pool), program_id) {
        Err(ProgramError::InvalidSeeds)
    } else {
        token_account_check(vault, stake_mint, pool)
    }
}

/// Refuses a stake vault that is not the pool's derived vault, a token account
/// of the stake mint owned by the pool.
pub fn validate_stake_vault(stake_vault: &AccountSnapshot, pool: &Pubkey, stake_mint: &Pubkey, program_id: &Pubkey) -> (r: Result<(), ProgramError>)
    ensures
        r == stake_vault_check(stake_vault@, pool@, stake_mint@, program_id@),
{
    check_derived(&stake_vault.key, &stake_vault_seeds(pool), program_id)?;
    validate_token_account(stake_vault, stake_mint, pool)
}

pub open spec fn position_load(position: AccountView, pool: Seq<u8>, user: Seq<u8>, program_id: Seq<u8>) -> Result<StakePosition, ProgramError> {
    if position.owner != program_id {
        Err(ProgramError::IllegalOwner)
    } else if !is_derived(position.key, position_seeds_view(pool, user), program_id) {
        Err(ProgramError::InvalidSeeds)
    } else {
        match parse_position(position.data) {
            Some(p) => Ok(p),
            None => Err(ProgramError::InvalidAccountData),
        }
    }
}

/// Reads the user's stake position in the pool, refusing an account that the
/// program does not own or that is not the position's derived address.
pub fn load_position(position_account: &AccountSnapshot, pool: &Pubkey, user: &Pubkey, program_id: &Pubkey) -> (r: Result<StakePosition, ProgramError>)
    ensures
        r == position_load(position_account@, pool@, user@, program_id@),
{
    if position_account.owner != *program_id {
        return Err(ProgramError::IllegalOwner);
    }
    check_derived(&position_account.key, &position_seeds(pool, user), program_id)?;
    StakePosition::deserialize(position_account.data.as_slice())
}

} // verus!
