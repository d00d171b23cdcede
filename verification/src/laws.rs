//! Properties of the program as a whole, stated over the instructions' outcomes.

use vstd::prelude::*;
use crate::accounts::{AccountView, EffectView, OutcomeView};
use crate::error::ProgramError;
use crate::cpi::effect_in_bounds;
use crate::checks::{coin_authority_check, is_derived, pool_account_check, position_load, token_account_load};
use crate::codec::{le_value, lemma_le_value_bound, lemma_pow256_widths};
use crate::keys::{mint_authority_seeds_view, position_seeds_view, program_address};
use crate::processor::{
    claim_outcome, init_coin_config_outcome, instruction_outcome, init_stake_pool_outcome, mint_reward_outcome, set_stake_pool_rewards_outcome,
    stake_outcome, stake_position_source, transfer_config_authority_outcome,
    transfer_mint_authority_outcome, unstake_outcome,
};
use crate::math::{accrual, accumulated, earned, settled, two64};
use vstd::arithmetic::div_mod::{lemma_fundamental_div_mod, lemma_fundamental_div_mod_converse};
use crate::token::clock_slot_of;
use crate::state::{
    CoinConfigView, StakePoolConfigView, StakePosition, coin_cfg_bytes, lemma_coin_cfg_roundtrip,
    lemma_pool_roundtrip, lemma_position_roundtrip, parse_coin_cfg, parse_pool, parse_position,
    pool_bytes, position_bytes,
};

verus! {

/// Whether `authority` signed and is the authority recorded in `coin_cfg`.
pub open spec fn signed_by_coin_authority(coin_cfg: AccountView, authority: AccountView) -> bool {
    &&& authority.is_signer
    &&& parse_coin_cfg(coin_cfg.data) matches Some(c)
    &&& c.authority == authority.key
}

/// Administration belongs to the coin's authority: every administrative
/// instruction that succeeds was signed by the authority recorded in the coin
/// config derived from its reward mint.
pub proof fn lemma_admin_requires_coin_authority(program_id: Seq<u8>, a: Seq<AccountView>, data: Seq<u8>)
    ensures
        init_stake_pool_outcome(program_id, a, data).result is Ok ==> signed_by_coin_authority(a[4], a[1]) && coin_authority_check(a[4], a[3].key, a[1], program_id) is Ok,
        set_stake_pool_rewards_outcome(program_id, a, data).result is Ok ==> signed_by_coin_authority(a[3], a[0]) && coin_authority_check(a[3], a[2].key, a[0], program_id) is Ok,
        mint_reward_outcome(program_id, a, data).result is Ok ==> signed_by_coin_authority(a[2], a[0]) && coin_authority_check(a[2], a[1].key, a[0], program_id) is Ok,
        transfer_mint_authority_outcome(program_id, a).result is Ok ==> signed_by_coin_authority(a[2], a[0]) && coin_authority_check(a[2], a[1].key, a[0], program_id) is Ok,
        transfer_config_authority_outcome(program_id, a).result is Ok ==> signed_by_coin_authority(a[2], a[0]) && coin_authority_check(a[2], a[1].key, a[0], program_id) is Ok,
{
}

/// A position moves only with its owner's signature: stake, unstake and claim
/// succeed only when the user signed and the position account is the one
/// derived from the pool and that user.
pub proof fn lemma_positions_move_by_their_owner(program_id: Seq<u8>, a: Seq<AccountView>, data: Seq<u8>)
    ensures
        stake_outcome(program_id, a, data).result is Ok ==> a[0].is_signer && is_derived(a[4].key, position_seeds_view(a[1].key, a[0].key), program_id),
        unstake_outcome(program_id, a, data).result is Ok ==> a[0].is_signer && is_derived(a[4].key, position_seeds_view(a[1].key, a[0].key), program_id),
        claim_outcome(program_id, a).result is Ok ==> a[0].is_signer && is_derived(a[2].key, position_seeds_view(a[1].key, a[0].key), program_id),
{
}


/// Staking is booked on both sides: a successful stake of `amount` ends by
/// writing the pool with `amount` more staked, moving `amount` from the
/// user's token account into the vault, and writing the position with
/// `amount` more staked.
pub proof fn lemma_stake_books_amount(program_id: Seq<u8>, a: Seq<AccountView>, data: Seq<u8>)
    ensures
        ({
            let o = stake_outcome(program_id, a, data);
            let n = o.effects.len();
            let amount = le_value(data.subrange(0, 8)) as u64;
            o.result is Ok ==> {
                &&& n >= 3
                &&& o.effects[n - 3] matches EffectView::WriteData { account, bytes }
                &&& account == 1
                &&& parse_pool(bytes) matches Some(after)
                &&& after.total_staked == parse_pool(a[1].data).unwrap().total_staked + amount
                &&& o.effects[n - 2] == EffectView::Transfer {
                    token_program: 5,
                    source: 2,
                    destination: 3,
                    authority: 0,
                    amount,
                    signer_seeds: None,
                }
                &&& o.effects[n - 1] matches EffectView::WriteData { account: position_account, bytes: position_data }
                &&& position_account == 4
                &&& parse_position(position_data) matches Some(p)
                &&& p.amount == stake_position_source(program_id, a).unwrap().1.amount + amount
            }
        }),
{
    let o = stake_outcome(program_id, a, data);
    if o.result is Ok {
        let amount = le_value(data.subrange(0, 8)) as u64;
        let cfg = parse_pool(a[1].data).unwrap();
        if let Ok(slot) = clock_slot_of(a[7].key, a[7].data) {
            let cfg1 = accumulated(cfg, slot);
            if let Ok((pre, p)) = stake_position_source(program_id, a) {
                let p1 = settled(p, cfg1.reward_per_token_stored);
                let cfg2 = StakePoolConfigView { total_staked: (cfg1.total_staked + amount) as u64, ..cfg1 };
                let p2 = StakePosition {
                    amount: (p1.amount + amount) as u64,
                    deposit_slot: slot,
                    reward_per_token_paid: cfg2.reward_per_token_stored,
                    pending_rewards: p1.pending_rewards,
                };
                lemma_pool_roundtrip(cfg2, Seq::<u8>::empty());
                assert(pool_bytes(cfg2) + Seq::<u8>::empty() =~= pool_bytes(cfg2));
                lemma_position_roundtrip(p2, Seq::<u8>::empty());
                assert(position_bytes(p2) + Seq::<u8>::empty() =~= position_bytes(p2));
            }
        }
    }
}


/// Unstaking returns exactly what was asked and never more than was staked: a
/// successful unstake of `amount` found at least `amount` in the position,
/// writes the pool with `amount` less staked (none, where the pool's total
/// held less), moves `amount` from the vault
/// back to the user under the pool's signature, mints the position's settled
/// pending rewards to the user's reward account (nothing when none are owed),
/// and ends with the position holding `amount` less, no pending rewards, its
/// deposit slot kept and marked paid up to the pool's accumulator, or closed
/// when it held exactly `amount`.
pub proof fn lemma_unstake_returns_amount(program_id: Seq<u8>, a: Seq<AccountView>, data: Seq<u8>)
    ensures
        ({
            let o = unstake_outcome(program_id, a, data);
            let n = o.effects.len();
            let amount = le_value(data.subrange(0, 8)) as u64;
            o.result is Ok ==> {
                &&& position_load(a[4], a[1].key, a[0].key, program_id) matches Ok(before)
                &&& amount <= before.amount
                &&& n >= 3
                &&& o.effects[0] matches EffectView::WriteData { account, bytes }
                &&& account == 1
                &&& parse_pool(bytes) matches Some(after)
                &&& after.total_staked == if parse_pool(a[1].data).unwrap().total_staked >= amount {
                    parse_pool(a[1].data).unwrap().total_staked - amount
                } else {
                    0
                }
                &&& o.effects[1] matches EffectView::Transfer { token_program, source, destination, authority, amount: moved, .. }
                &&& token_program == 8 && source == 3 && destination == 2 && authority == 1 && moved == amount
                &&& clock_slot_of(a[9].key, a[9].data) matches Ok(slot)
                &&& ({
                    let owed = settled(
                        before,
                        accumulated(parse_pool(a[1].data).unwrap(), slot).reward_per_token_stored,
                    ).pending_rewards;
                    &&& owed > 0 ==> n == 4 && (o.effects[2] matches EffectView::MintTo {
                        token_program: t,
                        mint,
                        destination: to,
                        authority: by,
                        amount: minted,
                        ..
                    } && t == 8 && mint == 5 && to == 6 && by == 7 && minted == owed)
                    &&& owed == 0 ==> n == 3
                })
                &&& if before.amount == amount {
                    o.effects[n - 1] matches EffectView::CloseAccount { account: closed, destination: to, .. } && closed == 4 && to == 0
                } else {
                    &&& o.effects[n - 1] matches EffectView::WriteData { account: position_account, bytes: position_data }
                    &&& position_account == 4
                    &&& parse_position(position_data) matches Some(p)
                    &&& p.amount == before.amount - amount
                    &&& p.pending_rewards == 0
                    &&& p.deposit_slot == before.deposit_slot
                    &&& p.reward_per_token_paid == accumulated(
                        parse_pool(a[1].data).unwrap(),
                        clock_slot_of(a[9].key, a[9].data)->Ok_0,
                    ).reward_per_token_stored
                }
            }
        }),
{
    let o = unstake_outcome(program_id, a, data);
    if o.result is Ok {
        let amount = le_value(data.subrange(0, 8)) as u64;
        let cfg = parse_pool(a[1].data).unwrap();
        if let Ok(slot) = clock_slot_of(a[9].key, a[9].data) {
            let cfg1 = accumulated(cfg, slot);
            if let Ok(p) = position_load(a[4], a[1].key, a[0].key, program_id) {
                let p1 = settled(p, cfg1.reward_per_token_stored);
                let cfg2 = StakePoolConfigView {
                    total_staked: if cfg1.total_staked >= amount {
                        (cfg1.total_staked - amount) as u64
                    } else {
                        0
                    },
                    ..cfg1
                };
                lemma_pool_roundtrip(cfg2, Seq::<u8>::empty());
                assert(pool_bytes(cfg2) + Seq::<u8>::empty() =~= pool_bytes(cfg2));
                let p2 = StakePosition { amount: (p1.amount - amount) as u64, pending_rewards: 0, ..p1 };
                lemma_position_roundtrip(p2, Seq::<u8>::empty());
                assert(position_bytes(p2) + Seq::<u8>::empty() =~= position_bytes(p2));
            }
        }
    }
}


/// Claiming pays out exactly what was owed: a successful claim mints the
/// position's settled pending rewards to the user's reward account (nothing
/// when none are owed) and leaves the position with the same stake and
/// deposit slot, no pending rewards, and marked paid up to the pool's
/// accumulator.
pub proof fn lemma_claim_pays_what_is_owed(program_id: Seq<u8>, a: Seq<AccountView>)
    ensures
        ({
            let o = claim_outcome(program_id, a);
            let n = o.effects.len();
            o.result is Ok ==> {
                &&& clock_slot_of(a[7].key, a[7].data) matches Ok(slot)
                &&& position_load(a[2], a[1].key, a[0].key, program_id) matches Ok(before)
                &&& ({
                    let owed = settled(
                        before,
                        accumulated(parse_pool(a[1].data).unwrap(), slot).reward_per_token_stored,
                    ).pending_rewards;
                    &&& owed > 0 ==> n == 3 && (o.effects[1] matches EffectView::MintTo { destination, amount, .. } && destination == 4 && amount == owed)
                    &&& owed == 0 ==> n == 2
                })
                &&& o.effects[n - 1] matches EffectView::WriteData { account, bytes }
                &&& account == 2
                &&& parse_position(bytes) matches Some(after)
                &&& after.pending_rewards == 0
                &&& after.amount == before.amount
                &&& after.deposit_slot == before.deposit_slot
                &&& after.reward_per_token_paid == accumulated(
                    parse_pool(a[1].data).unwrap(),
                    slot,
                ).reward_per_token_stored
            }
        }),
{
    let o = claim_outcome(program_id, a);
    if o.result is Ok {
        let cfg = parse_pool(a[1].data).unwrap();
        if let Ok(slot) = clock_slot_of(a[7].key, a[7].data) {
            let cfg1 = accumulated(cfg, slot);
            if let Ok(p) = position_load(a[2], a[1].key, a[0].key, program_id) {
                let p1 = settled(p, cfg1.reward_per_token_stored);
                let p2 = StakePosition { pending_rewards: 0, ..p1 };
                lemma_position_roundtrip(p2, Seq::<u8>::empty());
                assert(position_bytes(p2) + Seq::<u8>::empty() =~= position_bytes(p2));
            }
        }
    }
}


/// No staker is paid more than its share: over the slots from the pool's last
/// update to `slot`, a position that was settled up to date earns at most its
/// stake's share of the rewards emitted, `amount * reward_per_epoch * elapsed /
/// (epoch_slots * total_staked)`; rounding only ever goes against the staker.
pub proof fn lemma_rewards_within_share(c: StakePoolConfigView, p: StakePosition, slot: u64)
    requires
        p.reward_per_token_paid == c.reward_per_token_stored,
        c.total_staked > 0,
        c.epoch_slots > 0,
        slot > c.last_update_slot,
    ensures
        ({
            let q = settled(p, accumulated(c, slot).reward_per_token_stored);
            let elapsed = slot - c.last_update_slot;
            (q.pending_rewards - p.pending_rewards) * (c.epoch_slots * c.total_staked) <= p.amount
                * c.reward_per_epoch * elapsed
        }),
{
    let elapsed = (slot - c.last_update_slot) as nat;
    let d = (c.epoch_slots * c.total_staked) as int;
    assert(d > 0) by (nonlinear_arith)
        requires
            c.epoch_slots > 0,
            c.total_staked > 0,
            d == c.epoch_slots * c.total_staked,
    ;
    let n = (c.reward_per_epoch * elapsed * two64()) as int;
    let rise = accrual(c.reward_per_epoch, elapsed, c.epoch_slots, c.total_staked);
    lemma_fundamental_div_mod(n, d);
    assert(rise * d <= n) by (nonlinear_arith)
        requires
            rise == n / d,
            n == d * (n / d) + n % d,
            n % d >= 0,
            d > 0,
    ;
    let stored = accumulated(c, slot).reward_per_token_stored;
    let delta = (stored - p.reward_per_token_paid) as u128;
    assert(delta <= rise);
    let gained = earned(p.amount, delta);
    lemma_fundamental_div_mod((p.amount * delta) as int, two64() as int);
    assert(gained * two64() <= p.amount * delta) by (nonlinear_arith)
        requires
            gained == (p.amount * delta) / (two64() as int),
            p.amount * delta == two64() * ((p.amount * delta) / (two64() as int)) + (p.amount * delta) % (two64() as int),
            (p.amount * delta) % (two64() as int) >= 0,
    ;
    let q = settled(p, stored);
    let increase = q.pending_rewards - p.pending_rewards;
    assert(increase <= gained);
    assert(increase * d * two64() <= p.amount * c.reward_per_epoch * elapsed * two64()) by (nonlinear_arith)
        requires
            0 <= increase <= gained,
            gained * two64() <= p.amount * delta,
            0 <= delta <= rise,
            rise * d <= n,
            n == c.reward_per_epoch * elapsed * two64(),
            d > 0,
            p.amount >= 0,
    ;
    assert(increase * d <= p.amount * c.reward_per_epoch * elapsed) by (nonlinear_arith)
        requires
            increase * d * two64() <= p.amount * c.reward_per_epoch * elapsed * two64(),
            two64() > 0,
    ;
}


/// Whether every effect of the outcome names only accounts among the first `n`.
pub open spec fn effects_in_bounds(o: OutcomeView, n: nat) -> bool {
    forall|i: int| 0 <= i < o.effects.len() ==> effect_in_bounds(#[trigger] o.effects[i], n)
}

proof fn lemma_user_effects_in_bounds(program_id: Seq<u8>, a: Seq<AccountView>, data: Seq<u8>)
    ensures
        effects_in_bounds(stake_outcome(program_id, a, data), a.len()),
        effects_in_bounds(unstake_outcome(program_id, a, data), a.len()),
        effects_in_bounds(claim_outcome(program_id, a), a.len()),
{
}

proof fn lemma_admin_effects_in_bounds(program_id: Seq<u8>, a: Seq<AccountView>, data: Seq<u8>)
    ensures
        effects_in_bounds(init_coin_config_outcome(program_id, a), a.len()),
        effects_in_bounds(init_stake_pool_outcome(program_id, a, data), a.len()),
        effects_in_bounds(set_stake_pool_rewards_outcome(program_id, a, data), a.len()),
        effects_in_bounds(mint_reward_outcome(program_id, a, data), a.len()),
        effects_in_bounds(transfer_mint_authority_outcome(program_id, a), a.len()),
        effects_in_bounds(transfer_config_authority_outcome(program_id, a), a.len()),
{
}

/// Every effect that an instruction asks for names only accounts that the
/// instruction was given.
pub proof fn lemma_effects_name_given_accounts(program_id: Seq<u8>, a: Seq<AccountView>, data: Seq<u8>)
    ensures
        effects_in_bounds(instruction_outcome(program_id, a, data), a.len()),
{
    if data.len() > 0 {
        let rest = data.subrange(1, data.len() as int);
        lemma_user_effects_in_bounds(program_id, a, rest);
        lemma_admin_effects_in_bounds(program_id, a, rest);
    }
}


/// Settling more often never pays more than settling once: settling a position
/// at `r1` and then at `r2` (its paid mark `<= r1 <= r2`) leaves it marked
/// paid to `r2` with pending rewards at most one unit below, and never above,
/// those of settling once at `r2`, where nothing reaches the `u64` cap.
pub proof fn lemma_settling_in_steps(p: StakePosition, r1: u128, r2: u128)
    requires
        p.reward_per_token_paid <= r1 <= r2,
        p.pending_rewards + earned(p.amount, (r2 - p.reward_per_token_paid) as u128) <= u64::MAX,
    ensures
        ({
            let stepped = settled(settled(p, r1), r2);
            let once = settled(p, r2);
            &&& stepped.reward_per_token_paid == r2
            &&& once.reward_per_token_paid == r2
            &&& stepped.pending_rewards <= once.pending_rewards
            &&& once.pending_rewards <= stepped.pending_rewards + 1
            &&& stepped.amount == once.amount
        }),
{
    let m = two64() as int;
    let d1 = (r1 - p.reward_per_token_paid) as u128;
    let d2 = (r2 - r1) as u128;
    let d = (r2 - p.reward_per_token_paid) as u128;
    let x = p.amount * d1;
    let y = p.amount * d2;
    assert(x + y == p.amount * d) by (nonlinear_arith)
        requires
            d == d1 + d2,
            x == p.amount * d1,
            y == p.amount * d2,
    ;
    assert(x >= 0 && y >= 0) by (nonlinear_arith)
        requires
            x == p.amount * d1,
            y == p.amount * d2,
            d1 >= 0,
            d2 >= 0,
            p.amount >= 0,
    ;
    lemma_fundamental_div_mod(x, m);
    lemma_fundamental_div_mod(y, m);
    let qx = x / m;
    let qy = y / m;
    let rx = x % m;
    let ry = y % m;
    if rx + ry < m {
        lemma_fundamental_div_mod_converse(x + y, m, qx + qy, rx + ry);
    } else {
        lemma_fundamental_div_mod_converse(x + y, m, qx + qy + 1, rx + ry - m);
    }
    assert(earned(p.amount, d1) == qx);
    assert(earned(p.amount, d2) == qy);
    assert(earned(p.amount, d) == (x + y) / m);
}


/// The bytes that a data write puts down (none for another effect).
pub open spec fn written_bytes(e: EffectView) -> Seq<u8> {
    match e {
        EffectView::WriteData { bytes, .. } => bytes,
        _ => seq![],
    }
}

/// The total staked in the pool that an effect writes.
pub open spec fn pool_total_written(e: EffectView) -> nat {
    parse_pool(written_bytes(e)).unwrap().total_staked as nat
}

/// The stake left in the position that an effect writes or closes (a closed
/// position holds none).
pub open spec fn position_stake_written(e: EffectView) -> nat {
    match e {
        EffectView::CloseAccount { .. } => 0,
        _ => parse_position(written_bytes(e)).unwrap().amount as nat,
    }
}

/// A pool's total stays the sum of its positions' stakes. Where the pool's
/// total before the instruction is `others` (the stakes of all its other
/// positions) plus the stake of the position the instruction touches, a
/// successful stake, unstake or claim writes a pool whose total is `others`
/// plus that position's stake afterwards, and set-rewards writes no position
/// and keeps the total. An unstake under this invariant never meets the
/// subtraction's floor: the pool's total falls by exactly the amount.
pub proof fn lemma_pool_total_is_sum_of_stakes(program_id: Seq<u8>, a: Seq<AccountView>, data: Seq<u8>, others: nat)
    ensures
        ({
            let o = stake_outcome(program_id, a, data);
            let n = o.effects.len();
            o.result is Ok && parse_pool(a[1].data).unwrap().total_staked == others
                + stake_position_source(program_id, a).unwrap().1.amount ==> pool_total_written(o.effects[n - 3])
                == others + position_stake_written(o.effects[n - 1])
        }),
        ({
            let o = unstake_outcome(program_id, a, data);
            let n = o.effects.len();
            let total = parse_pool(a[1].data).unwrap().total_staked;
            o.result is Ok && total == others + position_load(a[4], a[1].key, a[0].key, program_id).unwrap().amount ==> {
                &&& pool_total_written(o.effects[0]) == others + position_stake_written(o.effects[n - 1])
                &&& pool_total_written(o.effects[0]) + le_value(data.subrange(0, 8)) as u64 == total
            }
        }),
        ({
            let o = claim_outcome(program_id, a);
            let n = o.effects.len();
            o.result is Ok && parse_pool(a[1].data).unwrap().total_staked == others
                + position_load(a[2], a[1].key, a[0].key, program_id).unwrap().amount ==> pool_total_written(o.effects[0])
                == others + position_stake_written(o.effects[n - 1])
        }),
        ({
            let o = set_stake_pool_rewards_outcome(program_id, a, data);
            o.result is Ok ==> o.effects.len() == 1 && pool_total_written(o.effects[0])
                == parse_pool(a[1].data).unwrap().total_staked
        }),
{
    lemma_stake_books_amount(program_id, a, data);
    lemma_unstake_returns_amount(program_id, a, data);
    lemma_claim_pays_what_is_owed(program_id, a);
    let o = claim_outcome(program_id, a);
    if o.result is Ok {
        let cfg = parse_pool(a[1].data).unwrap();
        if let Ok(slot) = clock_slot_of(a[7].key, a[7].data) {
            let cfg1 = accumulated(cfg, slot);
            lemma_pool_roundtrip(cfg1, Seq::<u8>::empty());
            assert(pool_bytes(cfg1) + Seq::<u8>::empty() =~= pool_bytes(cfg1));
        }
    }
    let o = set_stake_pool_rewards_outcome(program_id, a, data);
    if o.result is Ok {
        let cfg = parse_pool(a[1].data).unwrap();
        if let Ok(slot) = clock_slot_of(a[4].key, a[4].data) {
            let cfg2 = StakePoolConfigView {
                reward_per_epoch: le_value(data.subrange(0, 8)) as u64,
                epoch_slots: le_value(data.subrange(8, 16)) as u64,
                authority: a[0].key,
                ..accumulated(cfg, slot)
            };
            lemma_pool_roundtrip(cfg2, Seq::<u8>::empty());
            assert(pool_bytes(cfg2) + Seq::<u8>::empty() =~= pool_bytes(cfg2));
        }
    }
}


/// The account after a data write: `bytes` over the front of its data.
pub open spec fn after_write(account: AccountView, bytes: Seq<u8>) -> AccountView {
    AccountView { data: bytes + account.data.subrange(bytes.len() as int, account.data.len() as int), ..account }
}

/// No reward is paid twice: after a successful claim, a second claim at the
/// same slot with the same accounts succeeds, mints nothing, and writes the
/// same pool and position bytes again. The pool and the position are as the
/// first claim wrote them; the user and the reward mint need only keep their
/// keys (and the user its signature), since the first claim's minting and fees
/// may change their balances and supply; the user's reward account may be any
/// token account of the same mint and owner; accounts past the eighth are not
/// read.
pub proof fn lemma_second_claim_pays_nothing(program_id: Seq<u8>, a: Seq<AccountView>, b: Seq<AccountView>)
    requires
        claim_outcome(program_id, a).result is Ok,
        b.len() == a.len(),
        b[0].key == a[0].key,
        b[0].is_signer == a[0].is_signer,
        b[3].key == a[3].key,
        b[5] == a[5],
        b[6] == a[6],
        b[7] == a[7],
        b[1] == after_write(a[1], written_bytes(claim_outcome(program_id, a).effects[0])),
        b[2] == after_write(a[2], written_bytes(claim_outcome(program_id, a).effects.last())),
        b[4].key == a[4].key,
        token_account_load(b[4]) == token_account_load(a[4]),
    ensures
        ({
            let first = claim_outcome(program_id, a);
            let second = claim_outcome(program_id, b);
            &&& second.result is Ok
            &&& second.effects.len() == 2
            &&& second.effects[0] == first.effects[0]
            &&& second.effects[1] == first.effects.last()
        }),
{
    let first = claim_outcome(program_id, a);
    let cfg = parse_pool(a[1].data).unwrap();
    let slot = clock_slot_of(a[7].key, a[7].data)->Ok_0;
    let cfg1 = accumulated(cfg, slot);
    let p = position_load(a[2], a[1].key, a[0].key, program_id)->Ok_0;
    let p1 = settled(p, cfg1.reward_per_token_stored);
    let p2 = StakePosition { pending_rewards: 0, ..p1 };
    let pool_rest = a[1].data.subrange(pool_bytes(cfg1).len() as int, a[1].data.len() as int);
    let position_rest = a[2].data.subrange(position_bytes(p2).len() as int, a[2].data.len() as int);
    assert(b[1].data == pool_bytes(cfg1) + pool_rest);
    assert(b[2].data == position_bytes(p2) + position_rest);
    lemma_pool_roundtrip(cfg1, pool_rest);
    lemma_position_roundtrip(p2, position_rest);
    assert(parse_pool(b[1].data) == Some(cfg1));
    assert(pool_account_check(b[1], cfg1, program_id) == pool_account_check(a[1], cfg, program_id));
    assert(accumulated(cfg1, slot) =~= cfg1);
    assert(position_load(b[2], b[1].key, b[0].key, program_id) == Ok::<StakePosition, ProgramError>(p2));
    assert(earned(p2.amount, 0) == 0);
    assert(settled(p2, cfg1.reward_per_token_stored) == p2);
    assert(StakePosition { pending_rewards: 0, ..p2 } == p2);
    let second = claim_outcome(program_id, b);
    assert(second.effects =~= seq![first.effects[0], first.effects.last()]);
}

/// Staking keeps what a position already earned: a successful stake of the
/// amount in the first eight argument bytes writes the position with that
/// amount added to the stake it held, the deposit slot at the clock's slot,
/// marked paid up to the pool's accumulator brought to that slot, and, as
/// pending rewards, the stored pending rewards plus what the stored stake
/// earned since it was last settled. A position account with no lamports or
/// no data is new: it held no stake and is owed nothing.
pub proof fn lemma_stake_keeps_pending_rewards(program_id: Seq<u8>, a: Seq<AccountView>, data: Seq<u8>)
    ensures
        ({
            let o = stake_outcome(program_id, a, data);
            let n = o.effects.len();
            o.result is Ok ==> {
                &&& clock_slot_of(a[7].key, a[7].data) matches Ok(slot)
                &&& parse_pool(a[1].data) matches Some(pool)
                &&& n >= 3
                &&& o.effects[n - 1] matches EffectView::WriteData { account, bytes }
                &&& account == 4
                &&& parse_position(bytes) matches Some(after)
                &&& after.deposit_slot == slot
                &&& after.reward_per_token_paid == accumulated(pool, slot).reward_per_token_stored
                &&& if a[4].lamports == 0 || a[4].data.len() == 0 {
                    &&& after.amount == le_value(data.subrange(0, 8))
                    &&& after.pending_rewards == 0
                } else {
                    &&& parse_position(a[4].data) matches Some(stored)
                    &&& after.amount == stored.amount + le_value(data.subrange(0, 8))
                    &&& after.pending_rewards == settled(
                        stored,
                        accumulated(pool, slot).reward_per_token_stored,
                    ).pending_rewards
                }
            }
        }),
{
    let o = stake_outcome(program_id, a, data);
    if o.result is Ok {
        lemma_le_value_bound(data.subrange(0, 8));
        lemma_pow256_widths();
        let amount = le_value(data.subrange(0, 8)) as u64;
        let cfg = parse_pool(a[1].data).unwrap();
        if let Ok(slot) = clock_slot_of(a[7].key, a[7].data) {
            let cfg1 = accumulated(cfg, slot);
            if let Ok((pre, p)) = stake_position_source(program_id, a) {
                let p1 = settled(p, cfg1.reward_per_token_stored);
                let p2 = StakePosition {
                    amount: (p1.amount + amount) as u64,
                    deposit_slot: slot,
                    reward_per_token_paid: cfg1.reward_per_token_stored,
                    pending_rewards: p1.pending_rewards,
                };
                lemma_position_roundtrip(p2, Seq::<u8>::empty());
                assert(position_bytes(p2) + Seq::<u8>::empty() =~= position_bytes(p2));
                if a[4].lamports == 0 || a[4].data.len() == 0 {
                    assert(earned(0, (cfg1.reward_per_token_stored - 0) as u128) == 0);
                }
            }
        }
    }
}

/// A new reward rate is any rate over a non-zero epoch: given the accounts and
/// the sixteen argument bytes, set-rewards succeeds exactly when the epoch
/// length is not zero, the coin authority signed, the pool account holds a
/// pool of this program for the given reward mint and the clock can be read,
/// whatever the reward per epoch (zero, which stops emissions, included).
/// It then writes the pool brought up to the clock's slot with the rate and
/// epoch length taken from the arguments and the signer as its authority.
pub proof fn lemma_set_rewards_accepts_any_rate(program_id: Seq<u8>, a: Seq<AccountView>, data: Seq<u8>)
    requires
        a.len() >= 5,
        data.len() >= 16,
    ensures
        set_stake_pool_rewards_outcome(program_id, a, data).result is Ok <==> {
            &&& le_value(data.subrange(8, 16)) != 0
            &&& coin_authority_check(a[3], a[2].key, a[0], program_id) is Ok
            &&& parse_pool(a[1].data) matches Some(pool)
            &&& pool_account_check(a[1], pool, program_id) is Ok
            &&& pool.reward_mint == a[2].key
            &&& clock_slot_of(a[4].key, a[4].data) is Ok
        },
        ({
            let o = set_stake_pool_rewards_outcome(program_id, a, data);
            o.result is Ok ==> {
                &&& parse_pool(a[1].data) matches Some(pool)
                &&& clock_slot_of(a[4].key, a[4].data) matches Ok(slot)
                &&& o.effects.len() == 1
                &&& o.effects[0] matches EffectView::WriteData { account, bytes }
                &&& account == 1
                &&& parse_pool(bytes) matches Some(after)
                &&& after.reward_per_epoch == le_value(data.subrange(0, 8))
                &&& after.epoch_slots == le_value(data.subrange(8, 16))
                &&& after.authority == a[0].key
                &&& after.stake_mint == pool.stake_mint
                &&& after.reward_mint == pool.reward_mint
                &&& after.start_slot == pool.start_slot
                &&& after.total_staked == pool.total_staked
                &&& after.reward_per_token_stored == accumulated(pool, slot).reward_per_token_stored
                &&& after.last_update_slot == slot
            }
        }),
{
    lemma_le_value_bound(data.subrange(0, 8));
    lemma_le_value_bound(data.subrange(8, 16));
    lemma_pow256_widths();
    let o = set_stake_pool_rewards_outcome(program_id, a, data);
    if o.result is Ok {
        let cfg = parse_pool(a[1].data).unwrap();
        if let Ok(slot) = clock_slot_of(a[4].key, a[4].data) {
            let cfg2 = StakePoolConfigView {
                reward_per_epoch: le_value(data.subrange(0, 8)) as u64,
                epoch_slots: le_value(data.subrange(8, 16)) as u64,
                authority: a[0].key,
                ..accumulated(cfg, slot)
            };
            lemma_pool_roundtrip(cfg2, Seq::<u8>::empty());
            assert(pool_bytes(cfg2) + Seq::<u8>::empty() =~= pool_bytes(cfg2));
        }
    }
}

/// The coin authority mints exactly what it asks for: a successful
/// mint-reward emits one minting, of the whole amount in the first eight
/// argument bytes, of the reward mint into the given reward token account,
/// signed by the program's mint authority.
pub proof fn lemma_mint_reward_mints_amount(program_id: Seq<u8>, a: Seq<AccountView>, data: Seq<u8>)
    ensures
        ({
            let o = mint_reward_outcome(program_id, a, data);
            o.result is Ok ==> {
                &&& o.effects.len() == 1
                &&& o.effects[0] matches EffectView::MintTo { token_program, mint, destination, authority, amount, .. }
                &&& token_program == 5
                &&& mint == 1
                &&& destination == 3
                &&& authority == 4
                &&& amount == le_value(data.subrange(0, 8))
                &&& amount > 0
            }
        }),
{
    lemma_le_value_bound(data.subrange(0, 8));
    lemma_pow256_widths();
}

/// A new pool starts as configured: a successful init-stake-pool writes, as
/// its second effect, a pool at the pool account that reads back with the
/// reward per epoch and the epoch length of the arguments, the signing coin
/// authority, the two mints, both its start and its last update at the
/// clock's slot, and nothing accumulated or staked. (Account keys are taken
/// to be 32 bytes long, as every key is.)
pub proof fn lemma_init_pool_starts_as_configured(program_id: Seq<u8>, a: Seq<AccountView>, data: Seq<u8>)
    requires
        forall|i: int| 0 <= i < a.len() ==> (#[trigger] a[i]).key.len() == 32,
    ensures
        ({
            let o = init_stake_pool_outcome(program_id, a, data);
            o.result is Ok ==> {
                &&& clock_slot_of(a[10].key, a[10].data) matches Ok(slot)
                &&& o.effects.len() == 4
                &&& o.effects[1] matches EffectView::WriteData { account, bytes }
                &&& account == 2
                &&& parse_pool(bytes) matches Some(pool)
                &&& pool.reward_per_epoch == le_value(data.subrange(0, 8))
                &&& pool.epoch_slots == le_value(data.subrange(8, 16))
                &&& pool.epoch_slots > 0
                &&& pool.authority == a[1].key
                &&& pool.stake_mint == a[5].key
                &&& pool.reward_mint == a[3].key
                &&& pool.start_slot == slot
                &&& pool.last_update_slot == slot
                &&& pool.reward_per_token_stored == 0
                &&& pool.total_staked == 0
            }
        }),
{
    lemma_le_value_bound(data.subrange(0, 8));
    lemma_le_value_bound(data.subrange(8, 16));
    lemma_pow256_widths();
    let o = init_stake_pool_outcome(program_id, a, data);
    if o.result is Ok {
        if let Ok(slot) = clock_slot_of(a[10].key, a[10].data) {
            let cfg = StakePoolConfigView {
                authority: a[1].key,
                stake_mint: a[5].key,
                reward_mint: a[3].key,
                reward_per_epoch: le_value(data.subrange(0, 8)) as u64,
                epoch_slots: le_value(data.subrange(8, 16)) as u64,
                start_slot: slot,
                reward_per_token_stored: 0,
                last_update_slot: slot,
                total_staked: 0,
            };
            lemma_pool_roundtrip(cfg, Seq::<u8>::empty());
            assert(pool_bytes(cfg) + Seq::<u8>::empty() =~= pool_bytes(cfg));
        }
    }
}


/// Authority goes where the instruction names it: a successful
/// init-coin-config records its signing authority (the second account) in the
/// new coin config, a successful transfer-config-authority records the fourth
/// account as the coin config's authority, and a successful
/// transfer-mint-authority makes one change of the reward mint's authority,
/// from the program's derived mint authority to the fifth account. (Account
/// keys are taken to be 32 bytes long, as every key is.)
pub proof fn lemma_authority_goes_where_named(program_id: Seq<u8>, a: Seq<AccountView>)
    requires
        forall|i: int| 0 <= i < a.len() ==> (#[trigger] a[i]).key.len() == 32,
    ensures
        ({
            let o = init_coin_config_outcome(program_id, a);
            o.result is Ok ==> {
                &&& o.effects.len() == 2
                &&& o.effects[1] matches EffectView::WriteData { account, bytes }
                &&& account == 3
                &&& parse_coin_cfg(bytes) matches Some(c)
                &&& c.authority == a[1].key
                &&& a[1].is_signer
            }
        }),
        ({
            let o = transfer_config_authority_outcome(program_id, a);
            o.result is Ok ==> {
                &&& o.effects.len() == 1
                &&& o.effects[0] matches EffectView::WriteData { account, bytes }
                &&& account == 2
                &&& parse_coin_cfg(bytes) matches Some(c)
                &&& c.authority == a[3].key
            }
        }),
        ({
            let o = transfer_mint_authority_outcome(program_id, a);
            o.result is Ok ==> {
                &&& o.effects.len() == 1
                &&& o.effects[0] matches EffectView::SetMintAuthority { token_program, mint, new_authority, authority, .. }
                &&& token_program == 5
                &&& mint == 1
                &&& new_authority == 4
                &&& authority == 3
                &&& program_address(mint_authority_seeds_view(a[1].key), program_id) matches Some((k, _))
                &&& a[3].key == k
            }
        }),
{
    if a.len() >= 4 {
        lemma_coin_cfg_roundtrip(CoinConfigView { authority: a[3].key }, Seq::<u8>::empty());
        assert(coin_cfg_bytes(CoinConfigView { authority: a[3].key }) + Seq::<u8>::empty() =~= coin_cfg_bytes(CoinConfigView { authority: a[3].key }));
    }
    if a.len() >= 2 {
        lemma_coin_cfg_roundtrip(CoinConfigView { authority: a[1].key }, Seq::<u8>::empty());
        assert(coin_cfg_bytes(CoinConfigView { authority: a[1].key }) + Seq::<u8>::empty() =~= coin_cfg_bytes(CoinConfigView { authority: a[1].key }));
    }
}

} // verus!
