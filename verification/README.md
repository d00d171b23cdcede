# coin_staking

A staking-rewards program for ownership coins launched on MetaDAO, written in
Verus. Users stake one coin (`stake_mint`) into a program-owned vault and earn
a reward coin (`reward_mint`) minted by the program. Each coin's staking is
administered by the governance authority recorded in its coin config.

## Layout

- `src/` — the verified library.
  - `math.rs`: the 128 × 128 → 256-bit product, the saturating 256 / 128-bit
    quotient, the reward accumulator (`update_accumulator`) and the settlement
    of a position (`settle_pending`), with their laws.
  - `codec.rs`, `state.rs`: little-endian encoding and the byte layouts of the
    three account kinds, with read-back laws.
  - `instruction.rs`: reading instruction arguments.
  - `keys.rs`, `token.rs`: well-known addresses, derived-address seeds, and the
    calls into `solana-program` and `spl-token` (address derivation, token
    account and mint unpacking, the clock sysvar).
  - `checks.rs`: the account checks the instructions share.
  - `cpi.rs`: the instructions for the system and SPL token programs that
    carry out those effects, built by `solana-program` and `spl-token`.
  - `accounts.rs`, `processor.rs`: the instruction processors. Each maps the
    accounts it was given and its instruction data to an ordered list of
    effects (account creations, token transfers and mints, data writes,
    account closing) and an answer.
  - `laws.rs`: properties that span the instructions.
- `app/` — the entry point: snapshots the accounts, runs the processor, and
  carries out its effects: data writes, account closing, and the
  cross-program invocations that `cpi.rs` builds (funding new accounts with
  the rent-exempt minimum that the rent sysvar gives).
- `tests/` — tests on concrete values.

## Instructions

| Tag | Instruction |
| --- | --- |
| 0 | `init_coin_config` |
| 1 | `init_stake_pool` (`reward_per_epoch`, `epoch_slots`) |
| 2 | `stake` (`amount`) |
| 3 | `unstake` (`amount`) |
| 4 | `claim_stake_rewards` |
| 5 | `set_stake_pool_rewards` (`reward_per_epoch`, `epoch_slots`) |
| 6 | `mint_reward` (`amount`) |
| 7 | `transfer_mint_authority` |
| 8 | `transfer_config_authority` |

Arguments are little-endian `u64`s after the tag.

## Derived addresses

- coin config: `["coin_cfg", reward_mint]`
- stake pool: `["stake_pool", stake_mint, reward_mint]`
- stake vault: `["stake_vault", stake_pool]`
- stake position: `["stake_position", stake_pool, user]`
- reward mint authority: `["reward_mint_authority", reward_mint]`

Rewards accrue per slot at `reward_per_epoch / epoch_slots`, shared among the
staked tokens through a 64.64 fixed-point reward-per-token accumulator.
