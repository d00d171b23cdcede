use coin_staking::math::{
    div_u256_by_u128, mul_u128_wide, settle_pending, update_accumulator, FP,
};
use coin_staking::state::{Pubkey, StakePoolConfig, StakePosition};

fn pool(reward_per_epoch: u64, epoch_slots: u64, total_staked: u64, last_update_slot: u64) -> StakePoolConfig {
    StakePoolConfig {
        authority: Pubkey { bytes: [1u8; 32] },
        stake_mint: Pubkey { bytes: [2u8; 32] },
        reward_mint: Pubkey { bytes: [3u8; 32] },
        reward_per_epoch,
        epoch_slots,
        start_slot: 0,
        reward_per_token_stored: 0,
        last_update_slot,
        total_staked,
    }
}

#[test]
fn wide_product_of_small_numbers() {
    assert_eq!(mul_u128_wide(3, 4), (12, 0));
    assert_eq!(mul_u128_wide(0, u128::MAX), (0, 0));
}

#[test]
fn wide_product_of_largest_numbers() {
    // (2^128 - 1)^2 = (2^128 - 2) * 2^128 + 1
    assert_eq!(mul_u128_wide(u128::MAX, u128::MAX), (1, u128::MAX - 1));
}

#[test]
fn wide_product_crosses_the_halves() {
    // 2^64 * 2^64 = 2^128
    assert_eq!(mul_u128_wide(FP, FP), (0, 1));
    assert_eq!(mul_u128_wide(u128::MAX, 2), (u128::MAX - 1, 1));
}

#[test]
fn wide_division_by_zero_saturates() {
    assert_eq!(div_u256_by_u128(5, 0, 0), u128::MAX);
}

#[test]
fn wide_division_with_empty_high_half() {
    assert_eq!(div_u256_by_u128(100, 0, 7), 14);
}

#[test]
fn wide_division_long_path() {
    // ((5 << 128) + 7) / 11
    assert_eq!(div_u256_by_u128(7, 5, 11), 154673803145881119756079367014440096117);
    assert_eq!(div_u256_by_u128(0, 1, 2), 1u128 << 127);
    assert_eq!(div_u256_by_u128(u128::MAX, 2, 3), u128::MAX);
}

#[test]
fn wide_division_saturates_when_quotient_is_too_large() {
    assert_eq!(div_u256_by_u128(u128::MAX, u128::MAX, u128::MAX), u128::MAX);
    assert_eq!(div_u256_by_u128(0, 9, 9), u128::MAX);
}

#[test]
fn wide_division_inverts_the_wide_product() {
    let (lo, hi) = mul_u128_wide(123456789012345678901234567890, 987654321098765432109876543);
    assert_eq!(div_u256_by_u128(lo, hi, 987654321098765432109876543), 123456789012345678901234567890);
}

#[test]
fn accumulator_accrues_reward_per_epoch_over_epoch_slots() {
    let mut cfg = pool(1000, 100, 50, 10);
    update_accumulator(&mut cfg, 20);
    // 1000 * 10 * 2^64 / (100 * 50)
    assert_eq!(cfg.reward_per_token_stored, 36893488147419103232);
    assert_eq!(cfg.last_update_slot, 20);
    assert_eq!(cfg.total_staked, 50);
}

#[test]
fn accumulator_rounds_down() {
    let mut cfg = pool(3, 7, 1, 0);
    update_accumulator(&mut cfg, 1);
    assert_eq!(cfg.reward_per_token_stored, 7905747460161236406);
}

#[test]
fn accumulator_without_stake_only_moves_the_slot() {
    let mut cfg = pool(1000, 100, 0, 10);
    update_accumulator(&mut cfg, 50);
    assert_eq!(cfg.reward_per_token_stored, 0);
    assert_eq!(cfg.last_update_slot, 50);
}

#[test]
fn accumulator_ignores_earlier_slots() {
    let mut cfg = pool(1000, 100, 50, 10);
    cfg.reward_per_token_stored = 77;
    update_accumulator(&mut cfg, 5);
    assert_eq!(cfg.reward_per_token_stored, 77);
    assert_eq!(cfg.last_update_slot, 5);
}

#[test]
fn accumulator_never_decreases_and_saturates() {
    let mut cfg = pool(u64::MAX, 1, 1, 0);
    cfg.reward_per_token_stored = u128::MAX - 5;
    update_accumulator(&mut cfg, u64::MAX);
    assert_eq!(cfg.reward_per_token_stored, u128::MAX);
}

#[test]
fn accrual_grows_with_time() {
    let mut early = pool(1000, 100, 50, 10);
    let mut late = pool(1000, 100, 50, 10);
    update_accumulator(&mut early, 15);
    update_accumulator(&mut late, 30);
    assert!(early.reward_per_token_stored <= late.reward_per_token_stored);
}

#[test]
fn settle_adds_earned_rewards() {
    let mut p = StakePosition { amount: 50, deposit_slot: 3, reward_per_token_paid: 0, pending_rewards: 4 };
    // 50 tokens at 2 reward units per token
    settle_pending(&mut p, 2 * FP);
    assert_eq!(p.pending_rewards, 104);
    assert_eq!(p.reward_per_token_paid, 2 * FP);
    assert_eq!(p.amount, 50);
    assert_eq!(p.deposit_slot, 3);
}

#[test]
fn settle_rounds_down() {
    let mut p = StakePosition { amount: 3, deposit_slot: 0, reward_per_token_paid: 0, pending_rewards: 0 };
    settle_pending(&mut p, FP / 2);
    assert_eq!(p.pending_rewards, 1);
}

#[test]
fn settle_of_empty_position_only_marks_paid() {
    let mut p = StakePosition { amount: 0, deposit_slot: 0, reward_per_token_paid: 5, pending_rewards: 9 };
    settle_pending(&mut p, 1000 * FP);
    assert_eq!(p.pending_rewards, 9);
    assert_eq!(p.reward_per_token_paid, 1000 * FP);
}

#[test]
fn settle_below_paid_mark_earns_nothing() {
    let mut p = StakePosition { amount: 10, deposit_slot: 0, reward_per_token_paid: 5 * FP, pending_rewards: 9 };
    settle_pending(&mut p, FP);
    assert_eq!(p.pending_rewards, 9);
    assert_eq!(p.reward_per_token_paid, FP);
}

#[test]
fn settle_caps_pending_rewards() {
    let mut p = StakePosition { amount: u64::MAX, deposit_slot: 0, reward_per_token_paid: 0, pending_rewards: 1 };
    settle_pending(&mut p, u128::MAX);
    assert_eq!(p.pending_rewards, u64::MAX);
}

#[test]
fn settling_twice_changes_nothing() {
    let mut p = StakePosition { amount: 7, deposit_slot: 0, reward_per_token_paid: 0, pending_rewards: 0 };
    settle_pending(&mut p, 3 * FP);
    let once = p;
    settle_pending(&mut p, 3 * FP);
    assert_eq!(p, once);
}

#[test]
fn stakers_are_never_paid_more_than_their_share() {
    // 5 of 7 staked tokens, 3 rewards per 7 slots, 11 slots elapsed.
    let mut cfg = pool(3, 7, 7, 0);
    let mut p = StakePosition { amount: 5, deposit_slot: 0, reward_per_token_paid: 0, pending_rewards: 0 };
    update_accumulator(&mut cfg, 11);
    settle_pending(&mut p, cfg.reward_per_token_stored);
    // share = 5 * 3 * 11 / (7 * 7) = 3.36...
    assert_eq!(p.pending_rewards, 3);
    assert!(p.pending_rewards as u128 * 49 <= 5 * 3 * 11);
}

#[test]
fn settling_in_steps_pays_at_most_one_unit_less() {
    let start = StakePosition { amount: 3, deposit_slot: 0, reward_per_token_paid: 0, pending_rewards: 0 };
    let mut stepped = start;
    settle_pending(&mut stepped, FP / 2);
    settle_pending(&mut stepped, FP);
    let mut once = start;
    settle_pending(&mut once, FP);
    assert_eq!(stepped.pending_rewards, 2);
    assert_eq!(once.pending_rewards, 3);
    assert_eq!(stepped.reward_per_token_paid, once.reward_per_token_paid);
}
