//! Fixed-point reward arithmetic: a 128 x 128 -> 256-bit product, a saturating
//! 256 / 128-bit quotient, and the two reward updates built on them.

use vstd::prelude::*;
use vstd::arithmetic::div_mod::*;
use vstd::arithmetic::mul::*;
use vstd::arithmetic::power2::*;
use crate::state::{StakePoolConfig, StakePoolConfigView, StakePosition};

verus! {

/// One reward unit per staked token in the fixed-point accumulator: 2^64.
pub const FP: u128 = 0x1_0000_0000_0000_0000;

/// 2^64 as a mathematical integer.
pub open spec fn two64() -> nat {
    0x1_0000_0000_0000_0000
}

/// 2^128 as a mathematical integer.
pub open spec fn two128() -> nat {
    0x1_0000_0000_0000_0000_0000_0000_0000_0000nat
}

/// The value of the 256-bit number whose low and high 128-bit halves are given.
pub open spec fn wide_value(lo: u128, hi: u128) -> nat {
    (hi * two128() + lo) as nat
}

proof fn lemma_split_u128(a: u128)
    ensures
        (a as u64) as u128 == a % (two64() as u128),
        a >> 64 == a / (two64() as u128),
        a & 0xFFFF_FFFF_FFFF_FFFF == a % (two64() as u128),
        a == (a >> 64) * two64() + (a as u64) as u128,
{
    assert((a as u64) as u128 == a % 0x1_0000_0000_0000_0000u128) by (bit_vector);
    assert(a >> 64 == a / 0x1_0000_0000_0000_0000u128) by (bit_vector);
    assert(a & 0xFFFF_FFFF_FFFF_FFFF == a % 0x1_0000_0000_0000_0000u128) by (bit_vector);
    lemma_fundamental_div_mod(a as int, two64() as int);
}

proof fn lemma_join_halves(x: u128, m: u128)
    ensures
        (x & 0xFFFF_FFFF_FFFF_FFFF) | (m << 64) == x % (two64() as u128) + (m % (two64() as u128))
            * two64(),
{
    assert((x & 0xFFFF_FFFF_FFFF_FFFF) | (m << 64) == x % 0x1_0000_0000_0000_0000u128 + (m
        % 0x1_0000_0000_0000_0000u128) * 0x1_0000_0000_0000_0000u128) by (bit_vector);
}

proof fn lemma_half_product(x: u128, y: u128)
    requires
        x < two64(),
        y < two64(),
    ensures
        x * y <= (two64() - 1) * (two64() - 1),
        x * y < two128(),
{
    lemma_mul_upper_bound(x as int, (two64() - 1) as int, y as int, (two64() - 1) as int);
    assert(0xFFFF_FFFF_FFFF_FFFFnat * 0xFFFF_FFFF_FFFF_FFFFnat == 0xFFFF_FFFF_FFFF_FFFE_0000_0000_0000_0001nat) by (nonlinear_arith);
}

proof fn lemma_product_expansion(a1: int, a0: int, b1: int, b0: int)
    ensures
        (a1 * two64() + a0) * (b1 * two64() + b0) == a0 * b0 + (a0 * b1 + a1 * b0) * two64() + (
        a1 * b1) * two128(),
{
    assert((a1 * 0x1_0000_0000_0000_0000 + a0) * (b1 * 0x1_0000_0000_0000_0000 + b0) == a0 * b0
        + (a0 * b1 + a1 * b0) * 0x1_0000_0000_0000_0000 + (a1 * b1)
        * 0x1_0000_0000_0000_0000_0000_0000_0000_0000int) by (nonlinear_arith);
}

/// The full 256-bit product of two 128-bit numbers, as its low and high halves.
pub fn mul_u128_wide(a: u128, b: u128) -> (r: (u128, u128))
    ensures
        wide_value(r.0, r.1) == a * b,
{
    let a_lo = #[verifier::truncate] (a as u64) as u128;
    let a_hi = a >> 64;
    let b_lo = #[verifier::truncate] (b as u64) as u128;
    let b_hi = b >> 64;
    proof {
        lemma_split_u128(a);
        lemma_split_u128(b);
        lemma_half_product(a_lo, b_lo);
        lemma_half_product(a_lo, b_hi);
        lemma_half_product(a_hi, b_lo);
        lemma_half_product(a_hi, b_hi);
    }
    let ll = a_lo * b_lo;
    let lh = a_lo * b_hi;
    let hl = a_hi * b_lo;
    let hh = a_hi * b_hi;
    proof {
        lemma_split_u128(ll);
        lemma_split_u128(lh);
        lemma_split_u128(hl);
    }
    let mid = (ll >> 64) + (lh & 0xFFFF_FFFF_FFFF_FFFF) + (hl & 0xFFFF_FFFF_FFFF_FFFF);
    proof {
        lemma_split_u128(mid);
        lemma_join_halves(ll, mid);
        lemma_product_expansion(a_hi as int, a_lo as int, b_hi as int, b_lo as int);
        assert(a * b < two128() * two128()) by (nonlinear_arith)
            requires
                a < two128(),
                b < two128(),
        ;
        let top = hh + (lh >> 64) + (hl >> 64) + (mid >> 64);
        assert(a * b == (ll % (two64() as u128)) + (mid % (two64() as u128)) * two64() + top
            * two128()) by (nonlinear_arith)
            requires
                a * b == a_lo * b_lo + (a_lo * b_hi + a_hi * b_lo) * two64() + (a_hi * b_hi)
                    * two128(),
                a_lo * b_lo == ll,
                a_lo * b_hi == lh,
                a_hi * b_lo == hl,
                a_hi * b_hi == hh,
                ll == (ll >> 64) * two64() + (ll % (two64() as u128)),
                lh == (lh >> 64) * two64() + (lh % (two64() as u128)),
                hl == (hl >> 64) * two64() + (hl % (two64() as u128)),
                mid == (mid >> 64) * two64() + (mid % (two64() as u128)),
                mid == (ll >> 64) + (lh % (two64() as u128)) + (hl % (two64() as u128)),
                top == hh + (lh >> 64) + (hl >> 64) + (mid >> 64),
                two128() == two64() * two64(),
        ;
        assert(top < two128()) by (nonlinear_arith)
            requires
                a * b == (ll % (two64() as u128)) + (mid % (two64() as u128)) * two64() + top
                    * two128(),
                a * b < two128() * two128(),
                0 <= ll % (two64() as u128),
                0 <= mid % (two64() as u128),
                0 <= top,
        ;
    }
    let lo = (ll & 0xFFFF_FFFF_FFFF_FFFF) | (mid << 64);
    let hi = hh + (lh >> 64) + (hl >> 64) + (mid >> 64);
    (lo, hi)
}


/// What `div_u256_by_u128` returns: the floor of the 256-bit numerator over the
/// divisor, saturated at `u128::MAX`, and `u128::MAX` for a zero divisor.
pub open spec fn saturating_wide_div(n_lo: u128, n_hi: u128, d: u128) -> u128 {
    if d == 0 {
        u128::MAX
    } else if wide_value(n_lo, n_hi) / (d as nat) > u128::MAX {
        u128::MAX
    } else {
        (wide_value(n_lo, n_hi) / (d as nat)) as u128
    }
}

/// The numerator's bits above position `k`, as a number: `(n_hi : n_lo) >> k`.
spec fn numerator_prefix(n_lo: u128, n_hi: u128, k: nat) -> nat {
    (n_hi * pow2((128 - k) as nat) + n_lo as nat / pow2(k)) as nat
}

proof fn lemma_pow2_128()
    ensures
        pow2(128) == two128(),
        pow2(64) == two64(),
{
    lemma2_to64();
    lemma_pow2_adds(64, 64);
    assert(0x1_0000_0000_0000_0000nat * 0x1_0000_0000_0000_0000nat == two128()) by (nonlinear_arith);
}

proof fn lemma_one_shl(i: u32)
    requires
        i < 128,
    ensures
        (1u128 << i) == pow2(i as nat),
    decreases i,
{
    if i == 0 {
        assert((1u128 << 0u32) == 1u128) by (bit_vector);
        lemma2_to64();
    } else {
        lemma_one_shl((i - 1) as u32);
        let j = (i - 1) as u32;
        assert((1u128 << i) == 2 * (1u128 << j)) by (bit_vector)
            requires
                0 < i < 128,
                j == i - 1,
        ;
        lemma_pow2_unfold(i as nat);
    }
}

proof fn lemma_bit_at(x: u128, i: u32)
    requires
        i < 128,
    ensures
        (x >> i) & 1 == (x as nat / pow2(i as nat)) % 2,
        (x >> i) == x as nat / pow2(i as nat),
{
    let s = i as u128;
    vstd::bits::lemma_u128_shr_is_div(x, s);
    assert((x >> s) == (x >> i)) by (bit_vector)
        requires
            s == i,
    ;
    let y = x >> i;
    assert(y & 1 == y % 2) by (bit_vector);
}

proof fn lemma_shift_in(rem: u128, bit: u128)
    requires
        bit <= 1,
    ensures
        (rem >> 127u32 != 0) == (rem >= 0x8000_0000_0000_0000_0000_0000_0000_0000),
        rem < 0x8000_0000_0000_0000_0000_0000_0000_0000 ==> ((rem << 1u32) | bit) == 2 * rem + bit,
        rem >= 0x8000_0000_0000_0000_0000_0000_0000_0000 ==> ((rem << 1u32) | bit) + two128() == 2
            * rem + bit,
{
    assert((rem >> 127u32 != 0) == (rem >= 0x8000_0000_0000_0000_0000_0000_0000_0000u128))
        by (bit_vector);
    assert(bit <= 1 && rem < 0x8000_0000_0000_0000_0000_0000_0000_0000u128 ==> ((rem << 1u32)
        | bit) == 2 * rem + bit) by (bit_vector);
    assert(bit <= 1 && rem >= 0x8000_0000_0000_0000_0000_0000_0000_0000u128 ==> ((rem << 1u32)
        | bit) == 2 * (rem - 0x8000_0000_0000_0000_0000_0000_0000_0000u128) + bit) by (bit_vector);
}

proof fn lemma_set_bit(quot: u128, q: nat, i: u32)
    requires
        i < 128,
        quot == q * pow2((i + 1) as nat),
    ensures
        quot | (1u128 << i) == quot + pow2(i as nat),
        quot + pow2(i as nat) == (2 * q + 1) * pow2(i as nat),
        quot == (2 * q) * pow2(i as nat),
{
    lemma_pow2_unfold((i + 1) as nat);
    lemma_pow2_pos(i as nat);
    let p = pow2(i as nat);
    assert(quot == (2 * q) * p) by (nonlinear_arith)
        requires
            quot == q * (2 * p),
    ;
    lemma_div_multiples_vanish((2 * q) as int, p as int);
    assert((2 * q) * p == p * (2 * q)) by (nonlinear_arith);
    lemma_bit_at(quot, i);
    assert((quot >> i) & 1 == 0);
    assert((quot >> i) & 1 == 0 && i < 128 ==> quot | (1u128 << i) == quot + (1u128 << i))
        by (bit_vector);
    lemma_one_shl(i);
    assert(quot + p == (2 * q + 1) * p) by (nonlinear_arith)
        requires
            quot == (2 * q) * p,
    ;
}

proof fn lemma_prefix_step(n_lo: u128, n_hi: u128, i: nat)
    requires
        i < 128,
    ensures
        numerator_prefix(n_lo, n_hi, i) == 2 * numerator_prefix(n_lo, n_hi, i + 1) + (n_lo as nat
            / pow2(i)) % 2,
{
    lemma_pow2_unfold((128 - i) as nat);
    lemma_pow2_unfold(i + 1);
    lemma_pow2_pos(i);
    let x = n_lo as nat / pow2(i);
    lemma_div_denominator(n_lo as int, pow2(i) as int, 2);
    assert(pow2(i) * 2 == pow2(i + 1));
    lemma_fundamental_div_mod(x as int, 2);
    assert(n_hi * pow2((128 - i) as nat) == 2 * (n_hi * pow2((128 - (i + 1)) as nat)))
        by (nonlinear_arith)
        requires
            pow2((128 - i) as nat) == 2 * pow2((128 - i - 1) as nat),
    ;
}

proof fn lemma_prefix_ends(n_lo: u128, n_hi: u128)
    ensures
        numerator_prefix(n_lo, n_hi, 128) == n_hi,
        numerator_prefix(n_lo, n_hi, 0) == wide_value(n_lo, n_hi),
{
    lemma_pow2_128();
    lemma2_to64();
    lemma_basic_div(n_lo as int, two128() as int);
    assert(pow2((128 - 128) as nat) == 1);
    assert(n_lo as nat / pow2(128) == 0);
    assert(n_hi * pow2((128 - 128) as nat) == n_hi);
    assert(n_lo as nat / pow2(0) == n_lo);
    assert(n_hi * pow2((128 - 0) as nat) == n_hi * two128());
}

proof fn lemma_division_step(p: nat, q: nat, rem: nat, d: nat, bit: nat)
    requires
        p == q * d + rem,
        rem < d,
        bit <= 1,
    ensures
        2 * rem + bit >= d ==> 2 * p + bit == (2 * q + 1) * d + (2 * rem + bit - d) && 2 * rem
            + bit - d < d,
        2 * rem + bit < d ==> 2 * p + bit == (2 * q) * d + (2 * rem + bit),
{
    assert(2 * p + bit == (2 * q) * d + (2 * rem + bit)) by (nonlinear_arith)
        requires
            p == q * d + rem,
    ;
    assert((2 * q + 1) * d == (2 * q) * d + d) by (nonlinear_arith);
}

/// The 256-bit numerator `(n_hi : n_lo)` divided by `d`, rounded down and
/// saturated at `u128::MAX` (which is also the answer for `d == 0`).
pub fn div_u256_by_u128(n_lo: u128, n_hi: u128, d: u128) -> (r: u128)
    ensures
        r == saturating_wide_div(n_lo, n_hi, d),
{
    if d == 0 {
        return u128::MAX;
    }
    if n_hi == 0 {
        return n_lo / d;
    }
    if n_hi >= d {
        proof {
            let n = wide_value(n_lo, n_hi);
            assert(n >= (d as nat) * two128()) by (nonlinear_arith)
                requires
                    n == n_hi * two128() + n_lo,
                    n_hi >= d,
            ;
            lemma_div_is_ordered(((d as nat) * two128()) as int, n as int, d as int);
            lemma_div_multiples_vanish(two128() as int, d as int);
        }
        return u128::MAX;
    }
    let mut rem: u128 = n_hi;
    let mut quot: u128 = 0;
    let mut k: u32 = 128;
    let ghost mut q: nat = 0;
    proof {
        lemma_prefix_ends(n_lo, n_hi);
        lemma_pow2_pos(128);
    }
    while k > 0
        invariant
            k <= 128,
            0 < d,
            rem < d,
            numerator_prefix(n_lo, n_hi, k as nat) == q * d + rem,
            quot == q * pow2(k as nat),
        decreases k,
    {
        k = k - 1;
        let i = k;
        let bit = (n_lo >> i) & 1;
        let overflow = rem >> 127 != 0;
        let ghost old_rem = rem;
        let ghost old_quot = quot;
        proof {
            lemma_bit_at(n_lo, i);
            lemma_prefix_step(n_lo, n_hi, i as nat);
            lemma_shift_in(rem, bit);
            lemma_division_step(numerator_prefix(n_lo, n_hi, (i + 1) as nat), q, rem as nat, d as nat, bit as nat);
            lemma_set_bit(quot, q, i);
        }
        rem = rem.wrapping_shl(1) | bit;
        if overflow || rem >= d {
            rem = rem.wrapping_sub(d);
            quot |= 1u128 << i;
            proof {
                q = 2 * q + 1;
            }
        } else {
            proof {
                q = 2 * q;
            }
        }
    }
    proof {
        lemma_prefix_ends(n_lo, n_hi);
        lemma2_to64();
        assert(k == 0);
        assert(pow2(k as nat) == 1);
        assert(quot == q) by (nonlinear_arith)
            requires
                quot == q * pow2(k as nat),
                pow2(k as nat) == 1,
        ;
        lemma_fundamental_div_mod_converse(wide_value(n_lo, n_hi) as int, d as int, q as int, rem as int);
        assert(wide_value(n_lo, n_hi) / (d as nat) == q);
    }
    quot
}


/// `a * b`, or `u128::MAX` where the product does not fit.
fn saturating_mul_u128(a: u128, b: u128) -> (r: u128)
    ensures
        r == if a * b > u128::MAX {
            u128::MAX
        } else {
            (a * b) as u128
        },
{
    match a.checked_mul(b) {
        Some(v) => v,
        None => u128::MAX,
    }
}

/// The rise of the reward-per-token accumulator (2^64 per reward unit per
/// token) over `elapsed` slots, at `reward_per_epoch` per `epoch_slots` slots
/// shared among `total_staked` tokens, rounded down.
pub open spec fn accrual(reward_per_epoch: u64, elapsed: nat, epoch_slots: u64, total_staked: u64) -> nat {
    ((reward_per_epoch * elapsed * two64()) / ((epoch_slots * total_staked) as int)) as nat
}

/// The pool after its accumulator is brought up to `current_slot`.
pub open spec fn accumulated(c: StakePoolConfigView, current_slot: u64) -> StakePoolConfigView {
    if c.total_staked == 0 || current_slot <= c.last_update_slot || c.epoch_slots == 0 {
        StakePoolConfigView { last_update_slot: current_slot, ..c }
    } else {
        let rise = accrual(
            c.reward_per_epoch,
            (current_slot - c.last_update_slot) as nat,
            c.epoch_slots,
            c.total_staked,
        );
        let stored = if c.reward_per_token_stored + rise > u128::MAX {
            u128::MAX
        } else {
            (c.reward_per_token_stored + rise) as u128
        };
        StakePoolConfigView { reward_per_token_stored: stored, last_update_slot: current_slot, ..c }
    }
}

/// Brings the pool's reward-per-token accumulator up to `current_slot`: the
/// rewards of the slots since the last update are shared among the staked
/// tokens; with nothing staked, no time passed or no epoch length, only the
/// slot moves.
pub fn update_accumulator(cfg: &mut StakePoolConfig, current_slot: u64)
    ensures
        final(cfg)@ == accumulated(old(cfg)@, current_slot),
{
    if cfg.total_staked == 0 || current_slot <= cfg.last_update_slot || cfg.epoch_slots == 0 {
        cfg.last_update_slot = current_slot;
        return;
    }
    let elapsed = current_slot - cfg.last_update_slot;
    proof {
        assert((cfg.reward_per_epoch as u128) * (elapsed as u128) <= u128::MAX) by (nonlinear_arith)
            requires
                cfg.reward_per_epoch <= u64::MAX,
                elapsed <= u64::MAX,
        ;
        assert((cfg.epoch_slots as u128) * (cfg.total_staked as u128) <= u128::MAX) by (nonlinear_arith)
            requires
                cfg.epoch_slots <= u64::MAX,
                cfg.total_staked <= u64::MAX,
        ;
        assert((cfg.epoch_slots as u128) * (cfg.total_staked as u128) > 0) by (nonlinear_arith)
            requires
                cfg.epoch_slots > 0,
                cfg.total_staked > 0,
        ;
    }
    let reward_elapsed = saturating_mul_u128(cfg.reward_per_epoch as u128, elapsed as u128);
    let (num_lo, num_hi) = mul_u128_wide(reward_elapsed, FP);
    let denom = saturating_mul_u128(cfg.epoch_slots as u128, cfg.total_staked as u128);
    if denom > 0 {
        let delta = div_u256_by_u128(num_lo, num_hi, denom);
        cfg.reward_per_token_stored = cfg.reward_per_token_stored.saturating_add(delta);
    }
    cfg.last_update_slot = current_slot;
}

/// The rewards that `amount` tokens earn while the accumulator rises by
/// `delta`: `amount * delta / 2^64`, rounded down.
pub open spec fn earned(amount: u64, delta: u128) -> nat {
    ((amount * delta) / two64() as int) as nat
}

/// The position after its rewards are settled against the accumulator value
/// `reward_per_token`: what it earned since it was last settled is added to its
/// pending rewards (capped at `u64::MAX`), and it is marked paid up to
/// `reward_per_token`. An accumulator below the paid mark earns nothing.
pub open spec fn settled(p: StakePosition, reward_per_token: u128) -> StakePosition {
    let delta: u128 = if reward_per_token >= p.reward_per_token_paid {
        (reward_per_token - p.reward_per_token_paid) as u128
    } else {
        0
    };
    let total = p.pending_rewards + earned(p.amount, delta);
    StakePosition {
        pending_rewards: if total > u64::MAX {
            u64::MAX
        } else {
            total as u64
        },
        reward_per_token_paid: reward_per_token,
        ..p
    }
}

/// Settles the position's rewards against the accumulator value `reward_per_token`.
pub fn settle_pending(position: &mut StakePosition, reward_per_token: u128)
    ensures
        *final(position) == settled(*old(position), reward_per_token),
{
    if position.amount == 0 {
        position.reward_per_token_paid = reward_per_token;
        return;
    }
    let delta = reward_per_token.saturating_sub(position.reward_per_token_paid);
    let (lo, hi) = mul_u128_wide(position.amount as u128, delta);
    proof {
        let amount = position.amount;
        assert(amount * delta < two64() * two128()) by (nonlinear_arith)
            requires
                amount < two64(),
                delta < two128(),
        ;
        assert(hi < two64()) by (nonlinear_arith)
            requires
                hi * two128() + lo == amount * delta,
                amount * delta < two64() * two128(),
                lo >= 0,
        ;
        assert(hi < 0x1_0000_0000_0000_0000u128 ==> (lo >> 64u32) | (hi << 64u32) == lo
            / 0x1_0000_0000_0000_0000u128 + hi * 0x1_0000_0000_0000_0000u128) by (bit_vector);
        assert((hi * two128() + lo) / (two64() as int) == hi * two64() + (lo as int) / (two64() as int)) by {
            let lo1 = (lo as int) / (two64() as int);
            let lo0 = (lo as int) % (two64() as int);
            lemma_fundamental_div_mod(lo as int, two64() as int);
            assert(hi * two128() + lo == (hi * two64() + lo1) * two64() + lo0) by (nonlinear_arith)
                requires
                    lo == two64() * lo1 + lo0,
                    two128() == two64() * two64(),
            ;
            lemma_fundamental_div_mod_converse(
                (hi * two128() + lo) as int,
                two64() as int,
                hi * two64() + lo1,
                lo0,
            );
        }
    }
    let earned_u128 = (lo >> 64) | (hi << 64);
    let earned = if earned_u128 > u64::MAX as u128 {
        u64::MAX
    } else {
        earned_u128 as u64
    };
    position.pending_rewards = position.pending_rewards.saturating_add(earned);
    position.reward_per_token_paid = reward_per_token;
}

/// The reward-per-token accumulator never goes down.
pub proof fn lemma_accumulator_never_decreases(c: StakePoolConfigView, current_slot: u64)
    ensures
        accumulated(c, current_slot).reward_per_token_stored >= c.reward_per_token_stored,
        accumulated(c, current_slot).last_update_slot == current_slot,
        accumulated(c, current_slot).total_staked == c.total_staked,
{
}

/// Settling never lowers pending rewards, keeps the staked amount, and a second
/// settlement against the same accumulator value changes nothing.
pub proof fn lemma_settle_monotone_idempotent(p: StakePosition, reward_per_token: u128)
    ensures
        settled(p, reward_per_token).pending_rewards >= p.pending_rewards,
        settled(p, reward_per_token).amount == p.amount,
        settled(settled(p, reward_per_token), reward_per_token) == settled(p, reward_per_token),
{
    let q = settled(p, reward_per_token);
    assert(earned(q.amount, 0) == 0);
}


/// Rewards accrue with time: bringing the same pool to a later slot never
/// leaves a smaller accumulator.
pub proof fn lemma_accrual_grows_with_time(c: StakePoolConfigView, s1: u64, s2: u64)
    requires
        s1 <= s2,
    ensures
        accumulated(c, s1).reward_per_token_stored <= accumulated(c, s2).reward_per_token_stored,
{
    if !(c.total_staked == 0 || s1 <= c.last_update_slot || c.epoch_slots == 0) {
        let e1 = (s1 - c.last_update_slot) as nat;
        let e2 = (s2 - c.last_update_slot) as nat;
        let d = (c.epoch_slots * c.total_staked) as int;
        assert(d > 0) by (nonlinear_arith)
            requires
                c.epoch_slots > 0,
                c.total_staked > 0,
                d == c.epoch_slots * c.total_staked,
        ;
        assert(c.reward_per_epoch * e1 * two64() <= c.reward_per_epoch * e2 * two64()) by (nonlinear_arith)
            requires
                e1 <= e2,
        ;
        lemma_div_is_ordered(
            (c.reward_per_epoch * e1 * two64()) as int,
            (c.reward_per_epoch * e2 * two64()) as int,
            d,
        );
    }
}

} // verus!
