use coin_staking::codec::{read_le, read_pubkey, write_bytes, write_le};
use coin_staking::error::ProgramError;
use coin_staking::instruction::{read_u64, read_u8};
use coin_staking::state::{
    CoinConfig, Pubkey, StakePoolConfig, StakePosition, COIN_CFG_SIZE, POOL_SIZE, POSITION_SIZE,
};

fn sample_pool() -> StakePoolConfig {
    StakePoolConfig {
        authority: Pubkey { bytes: [1u8; 32] },
        stake_mint: Pubkey { bytes: [2u8; 32] },
        reward_mint: Pubkey { bytes: [3u8; 32] },
        reward_per_epoch: 0x0102030405060708,
        epoch_slots: 432000,
        start_slot: 99,
        reward_per_token_stored: 0x0f0e0d0c0b0a09080706050403020100,
        last_update_slot: 1234,
        total_staked: u64::MAX,
    }
}

#[test]
fn coin_config_layout_and_roundtrip() {
    let mut data = vec![0xAAu8; COIN_CFG_SIZE + 3];
    CoinConfig { authority: Pubkey { bytes: [9u8; 32] } }.serialize(&mut data);
    assert_eq!(&data[..8], b"CCFG0001");
    assert_eq!(&data[8..40], &[9u8; 32]);
    assert_eq!(&data[40..], &[0xAA, 0xAA, 0xAA]);
    let back = CoinConfig::deserialize(&data).unwrap();
    assert!(back.authority == Pubkey { bytes: [9u8; 32] });
}

#[test]
fn coin_config_refuses_short_or_foreign_data() {
    let mut data = vec![0u8; COIN_CFG_SIZE];
    CoinConfig { authority: Pubkey { bytes: [9u8; 32] } }.serialize(&mut data);
    assert_eq!(CoinConfig::deserialize(&data[..39]).err(), Some(ProgramError::InvalidAccountData));
    data[0] = b'X';
    assert_eq!(CoinConfig::deserialize(&data).err(), Some(ProgramError::InvalidAccountData));
}

#[test]
fn pool_layout_and_roundtrip() {
    let cfg = sample_pool();
    let mut data = vec![0u8; POOL_SIZE];
    cfg.serialize(&mut data);
    assert_eq!(&data[..8], b"STPOOL01");
    assert_eq!(&data[104..112], &0x0102030405060708u64.to_le_bytes());
    assert_eq!(&data[128..144], &0x0f0e0d0c0b0a09080706050403020100u128.to_le_bytes());
    assert_eq!(&data[152..160], &u64::MAX.to_le_bytes());
    let back = StakePoolConfig::deserialize(&data).unwrap();
    assert!(back.authority == cfg.authority);
    assert!(back.stake_mint == cfg.stake_mint);
    assert!(back.reward_mint == cfg.reward_mint);
    assert_eq!(back.reward_per_epoch, cfg.reward_per_epoch);
    assert_eq!(back.epoch_slots, cfg.epoch_slots);
    assert_eq!(back.start_slot, cfg.start_slot);
    assert_eq!(back.reward_per_token_stored, cfg.reward_per_token_stored);
    assert_eq!(back.last_update_slot, cfg.last_update_slot);
    assert_eq!(back.total_staked, cfg.total_staked);
}

#[test]
fn pool_rewrite_restores_bytes() {
    let mut data: Vec<u8> = (0..POOL_SIZE as u32).map(|i| (i * 7 % 251) as u8).collect();
    data[..8].copy_from_slice(b"STPOOL01");
    let before = data.clone();
    let cfg = StakePoolConfig::deserialize(&data).unwrap();
    let mut rewritten = vec![0u8; POOL_SIZE];
    cfg.serialize(&mut rewritten);
    assert_eq!(rewritten, before);
}

#[test]
fn pool_refuses_short_or_foreign_data() {
    let mut data = vec![0u8; POOL_SIZE];
    sample_pool().serialize(&mut data);
    assert_eq!(StakePoolConfig::deserialize(&data[..POOL_SIZE - 1]).err(), Some(ProgramError::InvalidAccountData));
    data[7] = b'2';
    assert_eq!(StakePoolConfig::deserialize(&data).err(), Some(ProgramError::InvalidAccountData));
}

#[test]
fn position_layout_and_roundtrip() {
    let p = StakePosition { amount: 5, deposit_slot: 6, reward_per_token_paid: 1u128 << 100, pending_rewards: 8 };
    let mut data = vec![0u8; POSITION_SIZE];
    p.serialize(&mut data);
    assert_eq!(&data[..8], b"STPOS001");
    assert_eq!(&data[8..16], &5u64.to_le_bytes());
    assert_eq!(&data[24..40], &(1u128 << 100).to_le_bytes());
    assert_eq!(StakePosition::deserialize(&data).unwrap(), p);
}

#[test]
fn position_refuses_short_or_foreign_data() {
    let p = StakePosition { amount: 5, deposit_slot: 6, reward_per_token_paid: 7, pending_rewards: 8 };
    let mut data = vec![0u8; POSITION_SIZE];
    p.serialize(&mut data);
    assert_eq!(StakePosition::deserialize(&data[..47]).err(), Some(ProgramError::InvalidAccountData));
    data[3] = 0;
    assert_eq!(StakePosition::deserialize(&data).err(), Some(ProgramError::InvalidAccountData));
}

#[test]
fn reads_fields_front_to_back() {
    let bytes = [7u8, 1, 0, 0, 0, 0, 0, 0, 2, 9];
    let mut data: &[u8] = &bytes;
    assert_eq!(read_u8(&mut data), Ok(7));
    assert_eq!(read_u64(&mut data), Ok(0x0200000000000001));
    assert_eq!(data, &[9u8][..]);
    assert_eq!(read_u64(&mut data), Err(ProgramError::InvalidInstructionData));
    assert_eq!(data, &[9u8][..]);
    assert_eq!(read_u8(&mut data), Ok(9));
    assert_eq!(read_u8(&mut data), Err(ProgramError::InvalidInstructionData));
}

#[test]
fn program_id_is_eights() {
    assert!(coin_staking::id() == Pubkey { bytes: [8u8; 32] });
}

#[test]
fn little_endian_read_and_write() {
    let mut data = vec![0xFFu8; 20];
    write_le(&mut data, 2, 3, 0x0A0B0C0D);
    assert_eq!(&data[..6], &[0xFF, 0xFF, 0x0D, 0x0C, 0x0B, 0xFF]);
    assert_eq!(read_le(&data, 2, 3), 0x0B0C0D);
    write_le(&mut data, 4, 16, u128::MAX - 1);
    assert_eq!(read_le(&data, 4, 16), u128::MAX - 1);
    write_bytes(&mut data, 0, &[7u8; 4]);
    assert_eq!(&data[..4], &[7u8; 4]);
    let mut keyed = vec![0u8; 40];
    write_bytes(&mut keyed, 5, &[3u8; 32]);
    assert!(read_pubkey(&keyed, 5) == Pubkey { bytes: [3u8; 32] });
}
