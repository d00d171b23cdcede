//! The program's account types and their byte layouts.

use vstd::prelude::*;
use crate::codec::{
    le_bytes, le_value, lemma_le_bytes_value, lemma_le_value_bound, lemma_le_value_bytes,
    lemma_pow256_widths, read_le, read_pubkey, write_bytes, write_le,
};
use crate::error::ProgramError;

verus! {

/// A 32-byte account address.
#[derive(Clone, Copy, Debug)]
pub struct Pubkey {
    pub bytes: [u8; 32],
}

impl View for Pubkey {
    type V = Seq<u8>;

    open spec fn view(&self) -> Seq<u8> {
        self.bytes@
    }
}

impl PartialEq for Pubkey {
    fn eq(&self, other: &Self) -> (r: bool) {
        let mut i: usize = 0;
        while i < 32
            invariant
                i <= 32,
                forall|j: int| 0 <= j < i ==> self.bytes@[j] == other.bytes@[j],
            decreases 32 - i,
        {
            if self.bytes[i] != other.bytes[i] {
                return false;
            }
            i = i + 1;
        }
        assert(self.bytes@ =~= other.bytes@);
        true
    }
}

impl vstd::std_specs::cmp::PartialEqSpecImpl for Pubkey {
    open spec fn obeys_eq_spec() -> bool {
        true
    }

    open spec fn eq_spec(&self, other: &Pubkey) -> bool {
        self@ == other@
    }
}


/// Bytes in a coin-config account: discriminator and authority.
pub const COIN_CFG_SIZE: usize = 40;

/// Bytes in a stake-pool account.
pub const POOL_SIZE: usize = 160;

/// Bytes in a stake-position account.
pub const POSITION_SIZE: usize = 48;

/// Discriminator of a coin-config account, the ASCII of `CCFG0001`.
pub const COIN_CFG_DISC: [u8; 8] = [67, 67, 70, 71, 48, 48, 48, 49];

/// Discriminator of a stake-pool account, the ASCII of `STPOOL01`.
pub const POOL_DISC: [u8; 8] = [83, 84, 80, 79, 79, 76, 48, 49];

/// Discriminator of a stake-position account, the ASCII of `STPOS001`.
pub const POSITION_DISC: [u8; 8] = [83, 84, 80, 79, 83, 48, 48, 49];

pub open spec fn coin_cfg_disc() -> Seq<u8> {
    seq![67u8, 67u8, 70u8, 71u8, 48u8, 48u8, 48u8, 49u8]
}

pub open spec fn pool_disc() -> Seq<u8> {
    seq![83u8, 84u8, 80u8, 79u8, 79u8, 76u8, 48u8, 49u8]
}

pub open spec fn position_disc() -> Seq<u8> {
    seq![83u8, 84u8, 80u8, 79u8, 83u8, 48u8, 48u8, 49u8]
}

/// Whether `data` starts with the 8-byte discriminator `disc`.
fn has_disc(data: &[u8], disc: &[u8; 8]) -> (r: bool)
    requires
        data@.len() >= 8,
    ensures
        r == (data@.subrange(0, 8) == disc@),
{
    let mut i: usize = 0;
    while i < 8
        invariant
            i <= 8,
            data@.len() >= 8,
            forall|j: int| 0 <= j < i ==> data@[j] == disc@[j],
        decreases 8 - i,
    {
        if data[i] != disc[i] {
            assert(data@.subrange(0, 8)[i as int] != disc@[i as int]);
            return false;
        }
        i = i + 1;
    }
    assert(data@.subrange(0, 8) =~= disc@);
    true
}

/// The coin's configuration: who may administer its staking.
pub struct CoinConfig {
    pub authority: Pubkey,
}

#[verifier::ext_equal]
pub struct CoinConfigView {
    pub authority: Seq<u8>,
}

impl View for CoinConfig {
    type V = CoinConfigView;

    open spec fn view(&self) -> CoinConfigView {
        CoinConfigView { authority: self.authority@ }
    }
}

/// The stored bytes of a coin config.
pub open spec fn coin_cfg_bytes(c: CoinConfigView) -> Seq<u8> {
    coin_cfg_disc() + c.authority
}

/// The coin config that account data holds, if it holds one.
pub open spec fn parse_coin_cfg(s: Seq<u8>) -> Option<CoinConfigView> {
    if s.len() >= COIN_CFG_SIZE && s.subrange(0, 8) == coin_cfg_disc() {
        Some(CoinConfigView { authority: s.subrange(8, 40) })
    } else {
        None
    }
}

impl CoinConfig {
    /// Reads a coin config; refuses data that is short or of another kind.
    pub fn deserialize(data: &[u8]) -> (r: Result<CoinConfig, ProgramError>)
        ensures
            match r {
                Ok(c) => parse_coin_cfg(data@) == Some(c@),
                Err(e) => parse_coin_cfg(data@) is None && e == ProgramError::InvalidAccountData,
            },
    {
        assert(COIN_CFG_DISC@ =~= coin_cfg_disc());
        if data.len() < COIN_CFG_SIZE || !has_disc(data, &COIN_CFG_DISC) {
            return Err(ProgramError::InvalidAccountData);
        }
        Ok(CoinConfig { authority: read_pubkey(data, 8) })
    }

    /// Writes this config over the first `COIN_CFG_SIZE` bytes of `data`.
    pub fn serialize(&self, data: &mut [u8])
        requires
            old(data)@.len() >= COIN_CFG_SIZE,
        ensures
            final(data)@ == coin_cfg_bytes(self@) + old(data)@.subrange(
                COIN_CFG_SIZE as int,
                old(data)@.len() as int,
            ),
    {
        assert(COIN_CFG_DISC@ =~= coin_cfg_disc());
        write_bytes(data, 0, COIN_CFG_DISC.as_slice());
        write_bytes(data, 8, self.authority.bytes.as_slice());
        assert(data@ =~= coin_cfg_bytes(self@) + old(data)@.subrange(
            COIN_CFG_SIZE as int,
            old(data)@.len() as int,
        ));
    }
}


/// A stake pool: one stake mint paired with one reward mint, and its reward
/// accumulator.
pub struct StakePoolConfig {
    pub authority: Pubkey,
    pub stake_mint: Pubkey,
    pub reward_mint: Pubkey,
    pub reward_per_epoch: u64,
    pub epoch_slots: u64,
    pub start_slot: u64,
    pub reward_per_token_stored: u128,
    pub last_update_slot: u64,
    pub total_staked: u64,
}

#[verifier::ext_equal]
pub struct StakePoolConfigView {
    pub authority: Seq<u8>,
    pub stake_mint: Seq<u8>,
    pub reward_mint: Seq<u8>,
    pub reward_per_epoch: u64,
    pub epoch_slots: u64,
    pub start_slot: u64,
    pub reward_per_token_stored: u128,
    pub last_update_slot: u64,
    pub total_staked: u64,
}

impl View for StakePoolConfig {
    type V = StakePoolConfigView;

    open spec fn view(&self) -> StakePoolConfigView {
        StakePoolConfigView {
            authority: self.authority@,
            stake_mint: self.stake_mint@,
            reward_mint: self.reward_mint@,
            reward_per_epoch: self.reward_per_epoch,
            epoch_slots: self.epoch_slots,
            start_slot: self.start_slot,
            reward_per_token_stored: self.reward_per_token_stored,
            last_update_slot: self.last_update_slot,
            total_staked: self.total_staked,
        }
    }
}

/// The stored bytes of a stake pool.
pub open spec fn pool_bytes(c: StakePoolConfigView) -> Seq<u8> {
    pool_disc() + c.authority + c.stake_mint + c.reward_mint + le_bytes(c.reward_per_epoch as nat, 8)
        + le_bytes(c.epoch_slots as nat, 8) + le_bytes(c.start_slot as nat, 8) + le_bytes(
        c.reward_per_token_stored as nat,
        16,
    ) + le_bytes(c.last_update_slot as nat, 8) + le_bytes(c.total_staked as nat, 8)
}

/// The stake pool that account data holds, if it holds one.
pub open spec fn parse_pool(s: Seq<u8>) -> Option<StakePoolConfigView> {
    if s.len() >= POOL_SIZE && s.subrange(0, 8) == pool_disc() {
        Some(
            StakePoolConfigView {
                authority: s.subrange(8, 40),
                stake_mint: s.subrange(40, 72),
                reward_mint: s.subrange(72, 104),
                reward_per_epoch: le_value(s.subrange(104, 112)) as u64,
                epoch_slots: le_value(s.subrange(112, 120)) as u64,
                start_slot: le_value(s.subrange(120, 128)) as u64,
                reward_per_token_stored: le_value(s.subrange(128, 144)) as u128,
                last_update_slot: le_value(s.subrange(144, 152)) as u64,
                total_staked: le_value(s.subrange(152, 160)) as u64,
            },
        )
    } else {
        None
    }
}

impl StakePoolConfig {
    /// Reads a stake pool; refuses data that is short or of another kind.
    pub fn deserialize(data: &[u8]) -> (r: Result<StakePoolConfig, ProgramError>)
        ensures
            match r {
                Ok(c) => parse_pool(data@) == Some(c@),
                Err(e) => parse_pool(data@) is None && e == ProgramError::InvalidAccountData,
            },
    {
        assert(POOL_DISC@ =~= pool_disc());
        if data.len() < POOL_SIZE || !has_disc(data, &POOL_DISC) {
            return Err(ProgramError::InvalidAccountData);
        }
        proof {
            lemma_pow256_widths();
        }
        let authority = read_pubkey(data, 8);
        let stake_mint = read_pubkey(data, 40);
        let reward_mint = read_pubkey(data, 72);
        let reward_per_epoch = read_le(data, 104, 8) as u64;
        let epoch_slots = read_le(data, 112, 8) as u64;
        let start_slot = read_le(data, 120, 8) as u64;
        let reward_per_token_stored = read_le(data, 128, 16);
        let last_update_slot = read_le(data, 144, 8) as u64;
        let total_staked = read_le(data, 152, 8) as u64;
        Ok(StakePoolConfig {
            authority,
            stake_mint,
            reward_mint,
            reward_per_epoch,
            epoch_slots,
            start_slot,
            reward_per_token_stored,
            last_update_slot,
            total_staked,
        })
    }

    /// Writes this pool over the first `POOL_SIZE` bytes of `data`.
    pub fn serialize(&self, data: &mut [u8])
        requires
            old(data)@.len() >= POOL_SIZE,
        ensures
            final(data)@ == pool_bytes(self@) + old(data)@.subrange(
                POOL_SIZE as int,
                old(data)@.len() as int,
            ),
    {
        assert(POOL_DISC@ =~= pool_disc());
        write_bytes(data, 0, POOL_DISC.as_slice());
        write_bytes(data, 8, self.authority.bytes.as_slice());
        write_bytes(data, 40, self.stake_mint.bytes.as_slice());
        write_bytes(data, 72, self.reward_mint.bytes.as_slice());
        write_le(data, 104, 8, self.reward_per_epoch as u128);
        write_le(data, 112, 8, self.epoch_slots as u128);
        write_le(data, 120, 8, self.start_slot as u128);
        write_le(data, 128, 16, self.reward_per_token_stored);
        write_le(data, 144, 8, self.last_update_slot as u128);
        write_le(data, 152, 8, self.total_staked as u128);
        assert(data@ =~= pool_bytes(self@) + old(data)@.subrange(
            POOL_SIZE as int,
            old(data)@.len() as int,
        ));
    }
}

/// A user's stake in one pool.
#[derive(Clone, Copy, Debug, PartialEq, Eq, Structural)]
pub struct StakePosition {
    pub amount: u64,
    pub deposit_slot: u64,
    pub reward_per_token_paid: u128,
    pub pending_rewards: u64,
}

/// The stored bytes of a stake position.
pub open spec fn position_bytes(p: StakePosition) -> Seq<u8> {
    position_disc() + le_bytes(p.amount as nat, 8) + le_bytes(p.deposit_slot as nat, 8) + le_bytes(
        p.reward_per_token_paid as nat,
        16,
    ) + le_bytes(p.pending_rewards as nat, 8)
}

/// The stake position that account data holds, if it holds one.
pub open spec fn parse_position(s: Seq<u8>) -> Option<StakePosition> {
    if s.len() >= POSITION_SIZE && s.subrange(0, 8) == position_disc() {
        Some(
            StakePosition {
                amount: le_value(s.subrange(8, 16)) as u64,
                deposit_slot: le_value(s.subrange(16, 24)) as u64,
                reward_per_token_paid: le_value(s.subrange(24, 40)) as u128,
                pending_rewards: le_value(s.subrange(40, 48)) as u64,
            },
        )
    } else {
        None
    }
}

impl StakePosition {
    /// Reads a stake position; refuses data that is short or of another kind.
    pub fn deserialize(data: &[u8]) -> (r: Result<StakePosition, ProgramError>)
        ensures
            match r {
                Ok(p) => parse_position(data@) == Some(p),
                Err(e) => parse_position(data@) is None && e == ProgramError::InvalidAccountData,
            },
    {
        assert(POSITION_DISC@ =~= position_disc());
        if data.len() < POSITION_SIZE || !has_disc(data, &POSITION_DISC) {
            return Err(ProgramError::InvalidAccountData);
        }
        proof {
            lemma_pow256_widths();
        }
        Ok(StakePosition {
            amount: read_le(data, 8, 8) as u64,
            deposit_slot: read_le(data, 16, 8) as u64,
            reward_per_token_paid: read_le(data, 24, 16),
            pending_rewards: read_le(data, 40, 8) as u64,
        })
    }

    /// Writes this position over the first `POSITION_SIZE` bytes of `data`.
    pub fn serialize(&self, data: &mut [u8])
        requires
            old(data)@.len() >= POSITION_SIZE,
        ensures
            final(data)@ == position_bytes(*self) + old(data)@.subrange(
                POSITION_SIZE as int,
                old(data)@.len() as int,
            ),
    {
        assert(POSITION_DISC@ =~= position_disc());
        write_bytes(data, 0, POSITION_DISC.as_slice());
        write_le(data, 8, 8, self.amount as u128);
        write_le(data, 16, 8, self.deposit_slot as u128);
        write_le(data, 24, 16, self.reward_per_token_paid);
        write_le(data, 40, 8, self.pending_rewards as u128);
        assert(data@ =~= position_bytes(*self) + old(data)@.subrange(
            POSITION_SIZE as int,
            old(data)@.len() as int,
        ));
    }
}


/// A coin config reads back as written, whatever bytes follow it.
pub proof fn lemma_coin_cfg_roundtrip(c: CoinConfigView, rest: Seq<u8>)
    requires
        c.authority.len() == 32,
    ensures
        parse_coin_cfg(coin_cfg_bytes(c) + rest) == Some(c),
{
    let s = coin_cfg_bytes(c) + rest;
    assert(s.subrange(0, 8) =~= coin_cfg_disc());
    assert(s.subrange(8, 40) =~= c.authority);
    assert(parse_coin_cfg(s).unwrap() =~= c);
}

/// Writing back a coin config that was read gives the bytes it was read from.
pub proof fn lemma_coin_cfg_reencode(s: Seq<u8>)
    requires
        parse_coin_cfg(s) is Some,
    ensures
        coin_cfg_bytes(parse_coin_cfg(s).unwrap()) == s.subrange(0, COIN_CFG_SIZE as int),
{
    assert(coin_cfg_bytes(parse_coin_cfg(s).unwrap()) =~= s.subrange(0, COIN_CFG_SIZE as int));
}

/// A stake pool reads back as written, whatever bytes follow it.
pub proof fn lemma_pool_roundtrip(c: StakePoolConfigView, rest: Seq<u8>)
    requires
        c.authority.len() == 32,
        c.stake_mint.len() == 32,
        c.reward_mint.len() == 32,
    ensures
        parse_pool(pool_bytes(c) + rest) == Some(c),
{
    let s = pool_bytes(c) + rest;
    lemma_pow256_widths();
    assert(s.subrange(0, 8) =~= pool_disc());
    assert(s.subrange(8, 40) =~= c.authority);
    assert(s.subrange(40, 72) =~= c.stake_mint);
    assert(s.subrange(72, 104) =~= c.reward_mint);
    assert(s.subrange(104, 112) =~= le_bytes(c.reward_per_epoch as nat, 8));
    assert(s.subrange(112, 120) =~= le_bytes(c.epoch_slots as nat, 8));
    assert(s.subrange(120, 128) =~= le_bytes(c.start_slot as nat, 8));
    assert(s.subrange(128, 144) =~= le_bytes(c.reward_per_token_stored as nat, 16));
    assert(s.subrange(144, 152) =~= le_bytes(c.last_update_slot as nat, 8));
    assert(s.subrange(152, 160) =~= le_bytes(c.total_staked as nat, 8));
    lemma_le_bytes_value(c.reward_per_epoch as nat, 8);
    lemma_le_bytes_value(c.epoch_slots as nat, 8);
    lemma_le_bytes_value(c.start_slot as nat, 8);
    lemma_le_bytes_value(c.reward_per_token_stored as nat, 16);
    lemma_le_bytes_value(c.last_update_slot as nat, 8);
    lemma_le_bytes_value(c.total_staked as nat, 8);
    assert(parse_pool(s).unwrap() =~= c);
}

/// Writing back a stake pool that was read gives the bytes it was read from.
pub proof fn lemma_pool_reencode(s: Seq<u8>)
    requires
        parse_pool(s) is Some,
    ensures
        pool_bytes(parse_pool(s).unwrap()) == s.subrange(0, POOL_SIZE as int),
{
    lemma_pow256_widths();
    lemma_le_value_bound(s.subrange(104, 112));
    lemma_le_value_bound(s.subrange(112, 120));
    lemma_le_value_bound(s.subrange(120, 128));
    lemma_le_value_bound(s.subrange(128, 144));
    lemma_le_value_bound(s.subrange(144, 152));
    lemma_le_value_bound(s.subrange(152, 160));
    lemma_le_value_bytes(s.subrange(104, 112));
    lemma_le_value_bytes(s.subrange(112, 120));
    lemma_le_value_bytes(s.subrange(120, 128));
    lemma_le_value_bytes(s.subrange(128, 144));
    lemma_le_value_bytes(s.subrange(144, 152));
    lemma_le_value_bytes(s.subrange(152, 160));
    assert(pool_bytes(parse_pool(s).unwrap()) =~= s.subrange(0, POOL_SIZE as int));
}

/// A stake position reads back as written, whatever bytes follow it.
pub proof fn lemma_position_roundtrip(p: StakePosition, rest: Seq<u8>)
    ensures
        parse_position(position_bytes(p) + rest) == Some(p),
{
    let s = position_bytes(p) + rest;
    lemma_pow256_widths();
    assert(s.subrange(0, 8) =~= position_disc());
    assert(s.subrange(8, 16) =~= le_bytes(p.amount as nat, 8));
    assert(s.subrange(16, 24) =~= le_bytes(p.deposit_slot as nat, 8));
    assert(s.subrange(24, 40) =~= le_bytes(p.reward_per_token_paid as nat, 16));
    assert(s.subrange(40, 48) =~= le_bytes(p.pending_rewards as nat, 8));
    lemma_le_bytes_value(p.amount as nat, 8);
    lemma_le_bytes_value(p.deposit_slot as nat, 8);
    lemma_le_bytes_value(p.reward_per_token_paid as nat, 16);
    lemma_le_bytes_value(p.pending_rewards as nat, 8);
}

/// Writing back a stake position that was read gives the bytes it was read from.
pub proof fn lemma_position_reencode(s: Seq<u8>)
    requires
        parse_position(s) is Some,
    ensures
        position_bytes(parse_position(s).unwrap()) == s.subrange(0, POSITION_SIZE as int),
{
    lemma_pow256_widths();
    lemma_le_value_bound(s.subrange(8, 16));
    lemma_le_value_bound(s.subrange(16, 24));
    lemma_le_value_bound(s.subrange(24, 40));
    lemma_le_value_bound(s.subrange(40, 48));
    lemma_le_value_bytes(s.subrange(8, 16));
    lemma_le_value_bytes(s.subrange(16, 24));
    lemma_le_value_bytes(s.subrange(24, 40));
    lemma_le_value_bytes(s.subrange(40, 48));
    assert(position_bytes(parse_position(s).unwrap()) =~= s.subrange(0, POSITION_SIZE as int));
}

} // verus!
