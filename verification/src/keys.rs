//! Well-known program addresses and the program-derived addresses (PDAs) of
//! the staking program's accounts.

use vstd::prelude::*;
use crate::state::Pubkey;

verus! {

/// The address of the SPL token program, `TokenkegQfeZyiNwAJbNbGKPFXCWuBvf9Ss623VQ5DA`.
pub open spec fn token_program_key() -> Seq<u8> {
    seq![
        6u8, 221u8, 246u8, 225u8, 215u8, 101u8, 161u8, 147u8, 217u8, 203u8, 225u8, 70u8, 206u8,
        235u8, 121u8, 172u8, 28u8, 180u8, 133u8, 237u8, 95u8, 91u8, 55u8, 145u8, 58u8, 140u8,
        245u8, 133u8, 126u8, 255u8, 0u8, 169u8,
    ]
}

/// The address of the system program: 32 zero bytes.
pub open spec fn system_program_key() -> Seq<u8> {
    Seq::new(32, |i: int| 0u8)
}

/// The address of the clock sysvar, `SysvarC1ock11111111111111111111111111111111`.
pub open spec fn clock_sysvar_key() -> Seq<u8> {
    seq![
        6u8, 167u8, 213u8, 23u8, 24u8, 199u8, 116u8, 201u8, 40u8, 86u8, 99u8, 152u8, 105u8, 29u8,
        94u8, 182u8, 139u8, 94u8, 184u8, 163u8, 155u8, 75u8, 109u8, 92u8, 115u8, 85u8, 91u8, 33u8,
        0u8, 0u8, 0u8, 0u8,
    ]
}

/// `spl_token::ID`: the address of the SPL token program, as `token_program_key` spells it.
#[verifier::external_body]
pub(crate) fn token_program_id() -> (r: Pubkey)
    ensures
        r@ == token_program_key(),
{
    Pubkey { bytes: spl_token::ID.to_bytes() }
}

/// `solana_program::system_program::ID`: the system program's address, all zero bytes.
#[verifier::external_body]
pub(crate) fn system_program_id() -> (r: Pubkey)
    ensures
        r@ == system_program_key(),
{
    Pubkey { bytes: solana_program::system_program::ID.to_bytes() }
}

/// The address that `Pubkey::try_find_program_address` derives from `seeds`
/// and `program_id`, with its bump seed; `None` where no bump seed gives an
/// address off the curve, or the seeds are too many or too long. It is a
/// hash of its arguments alone.
pub uninterp spec fn program_address(seeds: Seq<Seq<u8>>, program_id: Seq<u8>) -> Option<(Seq<u8>, u8)>;

/// `Pubkey::try_find_program_address`: claims that the result is the named
/// `program_address` of the seeds and the program id, the address taken by its
/// bytes. What that address is (a SHA-256 search off the ed25519 curve) is
/// left to the name.
#[verifier::external_body]
pub(crate) fn try_find_program_address(seeds: &Vec<Vec<u8>>, program_id: &Pubkey) -> (r: Option<
    (Pubkey, u8),
>)
    ensures
        match r {
            Some((k, bump)) => program_address(seeds_view(*seeds), program_id@) == Some((k@, bump)),
            None => program_address(seeds_view(*seeds), program_id@) is None,
        },
{
    let slices: Vec<&[u8]> = seeds.iter().map(|s| s.as_slice()).collect();
    let id = solana_program::pubkey::Pubkey::new_from_array(program_id.bytes);
    match solana_program::pubkey::Pubkey::try_find_program_address(&slices, &id) {
        Some((k, bump)) => Some((Pubkey { bytes: k.to_bytes() }, bump)),
        None => None,
    }
}

/// The program's own id, 32 bytes of 8.
pub fn id() -> (r: Pubkey)
    ensures
        r@ == Seq::new(32, |i: int| 8u8),
{
    let r = Pubkey { bytes: [8u8; 32] };
    assert(r@ =~= Seq::new(32, |i: int| 8u8));
    r
}

/// The seed that starts the address of every `stake_pool` account: its ASCII.
pub const STAKE_POOL_TAG: [u8; 10] = [115, 116, 97, 107, 101, 95, 112, 111, 111, 108];

pub open spec fn stake_pool_tag() -> Seq<u8> {
    seq![115u8, 116u8, 97u8, 107u8, 101u8, 95u8, 112u8, 111u8, 111u8, 108u8]
}

/// The seed that starts the address of every `stake_position` account: its ASCII.
pub const STAKE_POSITION_TAG: [u8; 14] = [115, 116, 97, 107, 101, 95, 112, 111, 115, 105, 116, 105, 111, 110];

pub open spec fn stake_position_tag() -> Seq<u8> {
    seq![115u8, 116u8, 97u8, 107u8, 101u8, 95u8, 112u8, 111u8, 115u8, 105u8, 116u8, 105u8, 111u8, 110u8]
}

/// The seed that starts the address of every `stake_vault` account: its ASCII.
pub const STAKE_VAULT_TAG: [u8; 11] = [115, 116, 97, 107, 101, 95, 118, 97, 117, 108, 116];

pub open spec fn stake_vault_tag() -> Seq<u8> {
    seq![115u8, 116u8, 97u8, 107u8, 101u8, 95u8, 118u8, 97u8, 117u8, 108u8, 116u8]
}

/// The seed that starts the address of every `reward_mint_authority` account: its ASCII.
pub const MINT_AUTHORITY_TAG: [u8; 21] = [114, 101, 119, 97, 114, 100, 95, 109, 105, 110, 116, 95, 97, 117, 116, 104, 111, 114, 105, 116, 121];

pub open spec fn mint_authority_tag() -> Seq<u8> {
    seq![114u8, 101u8, 119u8, 97u8, 114u8, 100u8, 95u8, 109u8, 105u8, 110u8, 116u8, 95u8, 97u8, 117u8, 116u8, 104u8, 111u8, 114u8, 105u8, 116u8, 121u8]
}

/// The seed that starts the address of every `coin_cfg` account: its ASCII.
pub const COIN_CFG_TAG: [u8; 8] = [99, 111, 105, 110, 95, 99, 102, 103];

pub open spec fn coin_cfg_tag() -> Seq<u8> {
    seq![99u8, 111u8, 105u8, 110u8, 95u8, 99u8, 102u8, 103u8]
}

/// The bytes of each seed.
pub open spec fn seeds_view(seeds: Vec<Vec<u8>>) -> Seq<Seq<u8>> {
    seeds@.map_values(|s: Vec<u8>| s@)
}

/// Seeds of a stake pool's address.
pub open spec fn pool_seeds_view(stake_mint: Seq<u8>, reward_mint: Seq<u8>) -> Seq<Seq<u8>> {
    seq![stake_pool_tag(), stake_mint, reward_mint]
}

/// Seeds of a user's stake position in a pool.
pub open spec fn position_seeds_view(pool: Seq<u8>, user: Seq<u8>) -> Seq<Seq<u8>> {
    seq![stake_position_tag(), pool, user]
}

/// Seeds of a pool's stake vault.
pub open spec fn stake_vault_seeds_view(pool: Seq<u8>) -> Seq<Seq<u8>> {
    seq![stake_vault_tag(), pool]
}

/// Seeds of the authority that mints a reward mint.
pub open spec fn mint_authority_seeds_view(reward_mint: Seq<u8>) -> Seq<Seq<u8>> {
    seq![mint_authority_tag(), reward_mint]
}

/// Seeds of a coin's config.
pub open spec fn coin_cfg_seeds_view(reward_mint: Seq<u8>) -> Seq<Seq<u8>> {
    seq![coin_cfg_tag(), reward_mint]
}

/// Seeds followed by the one-byte bump seed: what signs for the address.
pub open spec fn with_bump(seeds: Seq<Seq<u8>>, bump: u8) -> Seq<Seq<u8>> {
    seeds.push(seq![bump])
}

pub fn pool_seeds(stake_mint: &Pubkey, reward_mint: &Pubkey) -> (r: Vec<Vec<u8>>)
    ensures
        seeds_view(r) == pool_seeds_view(stake_mint@, reward_mint@),
{
    assert(STAKE_POOL_TAG@ =~= stake_pool_tag());
    let r = vec![
        vstd::slice::slice_to_vec(STAKE_POOL_TAG.as_slice()),
        vstd::slice::slice_to_vec(stake_mint.bytes.as_slice()),
        vstd::slice::slice_to_vec(reward_mint.bytes.as_slice()),
    ];
    assert(seeds_view(r) =~= pool_seeds_view(stake_mint@, reward_mint@));
    r
}

pub fn position_seeds(pool: &Pubkey, user: &Pubkey) -> (r: Vec<Vec<u8>>)
    ensures
        seeds_view(r) == position_seeds_view(pool@, user@),
{
    assert(STAKE_POSITION_TAG@ =~= stake_position_tag());
    let r = vec![
        vstd::slice::slice_to_vec(STAKE_POSITION_TAG.as_slice()),
        vstd::slice::slice_to_vec(pool.bytes.as_slice()),
        vstd::slice::slice_to_vec(user.bytes.as_slice()),
    ];
    assert(seeds_view(r) =~= position_seeds_view(pool@, user@));
    r
}

pub fn stake_vault_seeds(pool: &Pubkey) -> (r: Vec<Vec<u8>>)
    ensures
        seeds_view(r) == stake_vault_seeds_view(pool@),
{
    assert(STAKE_VAULT_TAG@ =~= stake_vault_tag());
    let r = vec![
        vstd::slice::slice_to_vec(STAKE_VAULT_TAG.as_slice()),
        vstd::slice::slice_to_vec(pool.bytes.as_slice()),
    ];
    assert(seeds_view(r) =~= stake_vault_seeds_view(pool@));
    r
}

pub fn mint_authority_seeds(reward_mint: &Pubkey) -> (r: Vec<Vec<u8>>)
    ensures
        seeds_view(r) == mint_authority_seeds_view(reward_mint@),
{
    assert(MINT_AUTHORITY_TAG@ =~= mint_authority_tag());
    let r = vec![
        vstd::slice::slice_to_vec(MINT_AUTHORITY_TAG.as_slice()),
        vstd::slice::slice_to_vec(reward_mint.bytes.as_slice()),
    ];
    assert(seeds_view(r) =~= mint_authority_seeds_view(reward_mint@));
    r
}

pub fn coin_cfg_seeds(reward_mint: &Pubkey) -> (r: Vec<Vec<u8>>)
    ensures
        seeds_view(r) == coin_cfg_seeds_view(reward_mint@),
{
    assert(COIN_CFG_TAG@ =~= coin_cfg_tag());
    let r = vec![
        vstd::slice::slice_to_vec(COIN_CFG_TAG.as_slice()),
        vstd::slice::slice_to_vec(reward_mint.bytes.as_slice()),
    ];
    assert(seeds_view(r) =~= coin_cfg_seeds_view(reward_mint@));
    r
}

/// Appends the bump seed to `seeds`.
pub fn push_bump(seeds: &mut Vec<Vec<u8>>, bump: u8)
    ensures
        seeds_view(*final(seeds)) == with_bump(seeds_view(*old(seeds)), bump),
{
    let b = vec![bump];
    assert(b@ =~= seq![bump]);
    seeds.push(b);
    assert(seeds_view(*seeds) =~= with_bump(seeds_view(*old(seeds)), bump));
}

} // verus!
