//! What an instruction sees of its accounts, and what it asks the runtime to
//! do: the effects of an instruction, in order.

use vstd::prelude::*;
use crate::error::ProgramError;
use crate::keys::seeds_view;
use crate::state::Pubkey;

verus! {

/// An account as the instruction found it.
pub struct AccountSnapshot {
    pub key: Pubkey,
    pub owner: Pubkey,
    pub lamports: u64,
    pub data: Vec<u8>,
    pub is_signer: bool,
}

#[verifier::ext_equal]
pub struct AccountView {
    pub key: Seq<u8>,
    pub owner: Seq<u8>,
    pub lamports: u64,
    pub data: Seq<u8>,
    pub is_signer: bool,
}

impl View for AccountSnapshot {
    type V = AccountView;

    open spec fn view(&self) -> AccountView {
        AccountView {
            key: self.key@,
            owner: self.owner@,
            lamports: self.lamports,
            data: self.data@,
            is_signer: self.is_signer,
        }
    }
}

/// Where the lamports that make a new account rent-exempt are looked up.
#[derive(Clone, Copy, Debug, PartialEq, Eq, Structural)]
pub enum RentSource {
    /// The rent sysvar as the runtime reports it at this point.
    Current,
    /// The rent sysvar account at this index of the instruction's accounts.
    Account(usize),
}

/// One thing the runtime is asked to do. Accounts are named by their index in
/// the instruction's account list; `signer_seeds` are the seeds, bump last,
/// with which the program signs for a derived address.
#[allow(inconsistent_fields)]
pub enum Effect {
    /// A system-program `create_account` of `space` bytes owned by `owner`,
    /// funded by `payer` with the rent-exempt minimum for `space`.
    CreateAccount {
        payer: usize,
        target: usize,
        system_program: usize,
        space: u64,
        owner: Pubkey,
        rent: RentSource,
        signer_seeds: Vec<Vec<u8>>,
    },
    /// A token-program `initialize_account2` of `account` for `mint`, owned by `owner`.
    InitializeTokenAccount {
        token_program: usize,
        account: usize,
        mint: usize,
        rent_sysvar: usize,
        owner: Pubkey,
    },
    /// A token-program `transfer` of `amount` from `source` to `destination`.
    Transfer {
        token_program: usize,
        source: usize,
        destination: usize,
        authority: usize,
        amount: u64,
        signer_seeds: Option<Vec<Vec<u8>>>,
    },
    /// A token-program `mint_to` of `amount` of `mint` into `destination`.
    MintTo {
        token_program: usize,
        mint: usize,
        destination: usize,
        authority: usize,
        amount: u64,
        signer_seeds: Vec<Vec<u8>>,
    },
    /// A token-program `set_authority` that hands the mint authority of `mint`
    /// to the key of `new_authority`.
    SetMintAuthority {
        token_program: usize,
        mint: usize,
        new_authority: usize,
        authority: usize,
        signer_seeds: Vec<Vec<u8>>,
    },
    /// Overwrites the first `bytes.len()` bytes of the account's data.
    WriteData { account: usize, bytes: Vec<u8> },
    /// Moves all of the account's lamports to `destination`, whose balance
    /// becomes `destination_lamports`, and zeroes the account's data.
    CloseAccount { account: usize, destination: usize, destination_lamports: u64 },
}

#[allow(inconsistent_fields)]
pub enum EffectView {
    CreateAccount {
        payer: usize,
        target: usize,
        system_program: usize,
        space: u64,
        owner: Seq<u8>,
        rent: RentSource,
        signer_seeds: Seq<Seq<u8>>,
    },
    InitializeTokenAccount {
        token_program: usize,
        account: usize,
        mint: usize,
        rent_sysvar: usize,
        owner: Seq<u8>,
    },
    Transfer {
        token_program: usize,
        source: usize,
        destination: usize,
        authority: usize,
        amount: u64,
        signer_seeds: Option<Seq<Seq<u8>>>,
    },
    MintTo {
        token_program: usize,
        mint: usize,
        destination: usize,
        authority: usize,
        amount: u64,
        signer_seeds: Seq<Seq<u8>>,
    },
    SetMintAuthority {
        token_program: usize,
        mint: usize,
        new_authority: usize,
        authority: usize,
        signer_seeds: Seq<Seq<u8>>,
    },
    WriteData { account: usize, bytes: Seq<u8> },
    CloseAccount { account: usize, destination: usize, destination_lamports: u64 },
}

impl View for Effect {
    type V = EffectView;

    open spec fn view(&self) -> EffectView {
        match self {
            Effect::CreateAccount { payer, target, system_program, space, owner, rent, signer_seeds } =>
                EffectView::CreateAccount {
                payer: *payer,
                target: *target,
                system_program: *system_program,
                space: *space,
                owner: owner@,
                rent: *rent,
                signer_seeds: seeds_view(*signer_seeds),
            },
            Effect::InitializeTokenAccount { token_program, account, mint, rent_sysvar, owner } =>
                EffectView::InitializeTokenAccount {
                token_program: *token_program,
                account: *account,
                mint: *mint,
                rent_sysvar: *rent_sysvar,
                owner: owner@,
            },
            Effect::Transfer { token_program, source, destination, authority, amount, signer_seeds } =>
                EffectView::Transfer {
                token_program: *token_program,
                source: *source,
                destination: *destination,
                authority: *authority,
                amount: *amount,
                signer_seeds: match signer_seeds {
                    Some(s) => Some(seeds_view(*s)),
                    None => None,
                },
            },
            Effect::MintTo { token_program, mint, destination, authority, amount, signer_seeds } =>
                EffectView::MintTo {
                token_program: *token_program,
                mint: *mint,
                destination: *destination,
                authority: *authority,
                amount: *amount,
                signer_seeds: seeds_view(*signer_seeds),
            },
            Effect::SetMintAuthority { token_program, mint, new_authority, authority, signer_seeds } =>
                EffectView::SetMintAuthority {
                token_program: *token_program,
                mint: *mint,
                new_authority: *new_authority,
                authority: *authority,
                signer_seeds: seeds_view(*signer_seeds),
            },
            Effect::WriteData { account, bytes } => EffectView::WriteData {
                account: *account,
                bytes: bytes@,
            },
            Effect::CloseAccount { account, destination, destination_lamports } =>
                EffectView::CloseAccount {
                account: *account,
                destination: *destination,
                destination_lamports: *destination_lamports,
            },
        }
    }
}

/// What an instruction does: the effects to carry out in order, then its
/// answer. Where an effect fails, the instruction fails with that effect's
/// error and nothing after it happens; the runtime then undoes everything.
pub struct Outcome {
    pub effects: Vec<Effect>,
    pub result: Result<(), ProgramError>,
}

pub struct OutcomeView {
    pub effects: Seq<EffectView>,
    pub result: Result<(), ProgramError>,
}

impl View for Outcome {
    type V = OutcomeView;

    open spec fn view(&self) -> OutcomeView {
        OutcomeView { effects: effect_views(self.effects@), result: self.result }
    }
}

/// The views of a list of effects.
pub open spec fn effect_views(effects: Seq<Effect>) -> Seq<EffectView> {
    effects.map_values(|e: Effect| e@)
}

/// The views of a list of accounts.
pub open spec fn account_views(accounts: Seq<AccountSnapshot>) -> Seq<AccountView> {
    accounts.map_values(|a: AccountSnapshot| a@)
}

/// An empty list of effects.
pub fn no_effects() -> (r: Vec<Effect>)
    ensures
        effect_views(r@) == Seq::<EffectView>::empty(),
{
    let r: Vec<Effect> = Vec::new();
    assert(effect_views(r@) =~= Seq::<EffectView>::empty());
    r
}

/// Appends an effect to the list.
pub fn push_effect(effects: &mut Vec<Effect>, e: Effect)
    ensures
        effect_views(final(effects)@) == effect_views(old(effects)@).push(e@),
{
    let ghost v = e@;
    effects.push(e);
    assert(effect_views(effects@) =~= effect_views(old(effects)@).push(v));
}

/// An instruction refused before it asked for anything.
pub open spec fn refused(e: ProgramError) -> OutcomeView {
    OutcomeView { effects: seq![], result: Err(e) }
}

} // verus!
