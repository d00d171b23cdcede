//! The cross-program invocations that the effects of an instruction ask for:
//! the system program's account creation and the SPL token program's
//! instructions, built by those crates.

use vstd::prelude::*;
use crate::accounts::{account_views, AccountSnapshot, AccountView, Effect, EffectView};
use crate::codec::le_bytes;
use crate::error::ProgramError;
use crate::keys::{seeds_view, system_program_key, token_program_key};
use crate::state::Pubkey;

verus! {

/// An account that an instruction names, and how.
pub struct CpiAccountMeta {
    pub pubkey: Pubkey,
    pub is_signer: bool,
    pub is_writable: bool,
}

/// An instruction for another program.
pub struct CpiInstruction {
    pub program_id: Pubkey,
    pub accounts: Vec<CpiAccountMeta>,
    pub data: Vec<u8>,
}

#[verifier::ext_equal]
pub struct CpiInstructionView {
    pub program_id: Seq<u8>,
    /// Each account: its key, whether it signs, whether it is written.
    pub accounts: Seq<(Seq<u8>, bool, bool)>,
    pub data: Seq<u8>,
}

impl View for CpiInstruction {
    type V = CpiInstructionView;

    open spec fn view(&self) -> CpiInstructionView {
        CpiInstructionView {
            program_id: self.program_id@,
            accounts: self.accounts@.map_values(|m: CpiAccountMeta| (m.pubkey@, m.is_signer, m.is_writable)),
            data: self.data@,
        }
    }
}

/// The address of the rent sysvar, `SysvarRent111111111111111111111111111111111`.
pub open spec fn rent_sysvar_key() -> Seq<u8> {
    seq![
        6u8, 167u8, 213u8, 23u8, 25u8, 44u8, 92u8, 81u8, 33u8, 140u8, 201u8, 76u8, 61u8, 74u8,
        241u8, 127u8, 88u8, 218u8, 238u8, 8u8, 155u8, 161u8, 253u8, 68u8, 227u8, 219u8, 217u8,
        138u8, 0u8, 0u8, 0u8, 0u8,
    ]
}

/// The system program's `CreateAccount`: funded by `from`, creating `to` with
/// `lamports`, `space` bytes and owner `owner`; its data is the bincode of the
/// instruction (variant 0 as a 4-byte tag, then the three fields).
pub open spec fn create_account_ix(from: Seq<u8>, to: Seq<u8>, lamports: u64, space: u64, owner: Seq<u8>) -> CpiInstructionView {
    CpiInstructionView {
        program_id: system_program_key(),
        accounts: seq![(from, true, true), (to, true, true)],
        data: seq![0u8, 0u8, 0u8, 0u8] + le_bytes(lamports as nat, 8) + le_bytes(space as nat, 8) + owner,
    }
}

/// SPL token's `InitializeAccount2` of `account` for `mint`, owned by `owner`.
pub open spec fn initialize_account2_ix(token_program: Seq<u8>, account: Seq<u8>, mint: Seq<u8>, owner: Seq<u8>) -> CpiInstructionView {
    CpiInstructionView {
        program_id: token_program,
        accounts: seq![(account, false, true), (mint, false, false), (rent_sysvar_key(), false, false)],
        data: seq![16u8] + owner,
    }
}

/// SPL token's `Transfer` of `amount` from `source` to `destination` by `authority`.
pub open spec fn transfer_ix(token_program: Seq<u8>, source: Seq<u8>, destination: Seq<u8>, authority: Seq<u8>, amount: u64) -> CpiInstructionView {
    CpiInstructionView {
        program_id: token_program,
        accounts: seq![(source, false, true), (destination, false, true), (authority, true, false)],
        data: seq![3u8] + le_bytes(amount as nat, 8),
    }
}

/// SPL token's `MintTo` of `amount` of `mint` into `account` by `authority`.
pub open spec fn mint_to_ix(token_program: Seq<u8>, mint: Seq<u8>, account: Seq<u8>, authority: Seq<u8>, amount: u64) -> CpiInstructionView {
    CpiInstructionView {
        program_id: token_program,
        accounts: seq![(mint, false, true), (account, false, true), (authority, true, false)],
        data: seq![7u8] + le_bytes(amount as nat, 8),
    }
}

/// SPL token's `SetAuthority` that makes `new_authority` the mint authority
/// (authority type 0) of `mint`, signed by `authority`.
pub open spec fn set_mint_authority_ix(token_program: Seq<u8>, mint: Seq<u8>, new_authority: Seq<u8>, authority: Seq<u8>) -> CpiInstructionView {
    CpiInstructionView {
        program_id: token_program,
        accounts: seq![(mint, false, true), (authority, true, false)],
        data: seq![6u8, 0u8, 1u8] + new_authority,
    }
}

/// `system_instruction::create_account`: claims the instruction that its
/// source builds, as `create_account_ix` spells it.
#[verifier::external_body]
pub(crate) fn create_account_instruction(from: &Pubkey, to: &Pubkey, lamports: u64, space: u64, owner: &Pubkey) -> (r: CpiInstruction)
    ensures
        r@ == create_account_ix(from@, to@, lamports, space, owner@),
{
    let key = |k: &Pubkey| solana_program::pubkey::Pubkey::new_from_array(k.bytes);
    let ix = solana_program::system_instruction::create_account(&key(from), &key(to), lamports, space, &key(owner));
    CpiInstruction {
        program_id: Pubkey { bytes: ix.program_id.to_bytes() },
        accounts: ix.accounts.iter().map(|m| CpiAccountMeta { pubkey: Pubkey { bytes: m.pubkey.to_bytes() }, is_signer: m.is_signer, is_writable: m.is_writable }).collect(),
        data: ix.data,
    }
}

/// `spl_token::instruction::initialize_account2`: claims that it refuses a
/// program id other than SPL token's (`IncorrectProgramId`) and otherwise
/// builds `initialize_account2_ix`.
#[verifier::external_body]
pub(crate) fn initialize_account2_instruction(token_program: &Pubkey, account: &Pubkey, mint: &Pubkey, owner: &Pubkey) -> (r: Result<CpiInstruction, ProgramError>)
    ensures
        match r {
            Ok(ix) => token_program@ == token_program_key() && ix@ == initialize_account2_ix(token_program@, account@, mint@, owner@),
            Err(e) => token_program@ != token_program_key() && e == ProgramError::IncorrectProgramId,
        },
{
    let key = |k: &Pubkey| solana_program::pubkey::Pubkey::new_from_array(k.bytes);
    match spl_token::instruction::initialize_account2(&key(token_program), &key(account), &key(mint), &key(owner)) {
        Ok(ix) => Ok(CpiInstruction {
            program_id: Pubkey { bytes: ix.program_id.to_bytes() },
            accounts: ix.accounts.iter().map(|m| CpiAccountMeta { pubkey: Pubkey { bytes: m.pubkey.to_bytes() }, is_signer: m.is_signer, is_writable: m.is_writable }).collect(),
            data: ix.data,
        }),
        Err(_) => Err(ProgramError::IncorrectProgramId),
    }
}

/// `spl_token::instruction::transfer` with no multisig signers: claims that it
/// refuses a program id other than SPL token's (`IncorrectProgramId`) and
/// otherwise builds `transfer_ix`.
#[verifier::external_body]
pub(crate) fn transfer_instruction(token_program: &Pubkey, source: &Pubkey, destination: &Pubkey, authority: &Pubkey, amount: u64) -> (r: Result<CpiInstruction, ProgramError>)
    ensures
        match r {
            Ok(ix) => token_program@ == token_program_key() && ix@ == transfer_ix(token_program@, source@, destination@, authority@, amount),
            Err(e) => token_program@ != token_program_key() && e == ProgramError::IncorrectProgramId,
        },
{
    let key = |k: &Pubkey| solana_program::pubkey::Pubkey::new_from_array(k.bytes);
    match spl_token::instruction::transfer(&key(token_program), &key(source), &key(destination), &key(authority), &[], amount) {
        Ok(ix) => Ok(CpiInstruction {
            program_id: Pubkey { bytes: ix.program_id.to_bytes() },
            accounts: ix.accounts.iter().map(|m| CpiAccountMeta { pubkey: Pubkey { bytes: m.pubkey.to_bytes() }, is_signer: m.is_signer, is_writable: m.is_writable }).collect(),
            data: ix.data,
        }),
        Err(_) => Err(ProgramError::IncorrectProgramId),
    }
}

/// `spl_token::instruction::mint_to` with no multisig signers: claims that it
/// refuses a program id other than SPL token's (`IncorrectProgramId`) and
/// otherwise builds `mint_to_ix`.
#[verifier::external_body]
pub(crate) fn mint_to_instruction(token_program: &Pubkey, mint: &Pubkey, account: &Pubkey, authority: &Pubkey, amount: u64) -> (r: Result<CpiInstruction, ProgramError>)
    ensures
        match r {
            Ok(ix) => token_program@ == token_program_key() && ix@ == mint_to_ix(token_program@, mint@, account@, authority@, amount),
            Err(e) => token_program@ != token_program_key() && e == ProgramError::IncorrectProgramId,
        },
{
    let key = |k: &Pubkey| solana_program::pubkey::Pubkey::new_from_array(k.bytes);
    match spl_token::instruction::mint_to(&key(token_program), &key(mint), &key(account), &key(authority), &[], amount) {
        Ok(ix) => Ok(CpiInstruction {
            program_id: Pubkey { bytes: ix.program_id.to_bytes() },
            accounts: ix.accounts.iter().map(|m| CpiAccountMeta { pubkey: Pubkey { bytes: m.pubkey.to_bytes() }, is_signer: m.is_signer, is_writable: m.is_writable }).collect(),
            data: ix.data,
        }),
        Err(_) => Err(ProgramError::IncorrectProgramId),
    }
}

/// `spl_token::instruction::set_authority` for the mint-tokens authority with a
/// new authority and no multisig signers: claims that it refuses a program id
/// other than SPL token's (`IncorrectProgramId`) and otherwise builds
/// `set_mint_authority_ix`.
#[verifier::external_body]
pub(crate) fn set_mint_authority_instruction(token_program: &Pubkey, mint: &Pubkey, new_authority: &Pubkey, authority: &Pubkey) -> (r: Result<CpiInstruction, ProgramError>)
    ensures
        match r {
            Ok(ix) => token_program@ == token_program_key() && ix@ == set_mint_authority_ix(token_program@, mint@, new_authority@, authority@),
            Err(e) => token_program@ != token_program_key() && e == ProgramError::IncorrectProgramId,
        },
{
    let key = |k: &Pubkey| solana_program::pubkey::Pubkey::new_from_array(k.bytes);
    let kind = spl_token::instruction::AuthorityType::MintTokens;
    match spl_token::instruction::set_authority(&key(token_program), &key(mint), Some(&key(new_authority)), kind, &key(authority), &[]) {
        Ok(ix) => Ok(CpiInstruction {
            program_id: Pubkey { bytes: ix.program_id.to_bytes() },
            accounts: ix.accounts.iter().map(|m| CpiAccountMeta { pubkey: Pubkey { bytes: m.pubkey.to_bytes() }, is_signer: m.is_signer, is_writable: m.is_writable }).collect(),
            data: ix.data,
        }),
        Err(_) => Err(ProgramError::IncorrectProgramId),
    }
}


/// A cross-program invocation: the instruction, the accounts (by index in the
/// instruction's account list) handed to it, and the seeds, bump last, with
/// which the program signs, if it signs.
pub struct Invocation {
    pub instruction: CpiInstruction,
    pub account_infos: Vec<usize>,
    pub signer_seeds: Option<Vec<Vec<u8>>>,
}

pub struct InvocationView {
    pub instruction: CpiInstructionView,
    pub account_infos: Seq<usize>,
    pub signer_seeds: Option<Seq<Seq<u8>>>,
}

impl View for Invocation {
    type V = InvocationView;

    open spec fn view(&self) -> InvocationView {
        InvocationView {
            instruction: self.instruction@,
            account_infos: self.account_infos@,
            signer_seeds: match self.signer_seeds {
                Some(s) => Some(seeds_view(s)),
                None => None,
            },
        }
    }
}

/// Whether every account that the effect names is among the first `n`.
pub open spec fn effect_in_bounds(e: EffectView, n: nat) -> bool {
    match e {
        EffectView::CreateAccount { payer, target, system_program, .. } => payer < n && target < n && system_program < n,
        EffectView::InitializeTokenAccount { token_program, account, mint, rent_sysvar, .. } =>
            token_program < n && account < n && mint < n && rent_sysvar < n,
        EffectView::Transfer { token_program, source, destination, authority, .. } =>
            token_program < n && source < n && destination < n && authority < n,
        EffectView::MintTo { token_program, mint, destination, authority, .. } =>
            token_program < n && mint < n && destination < n && authority < n,
        EffectView::SetMintAuthority { token_program, mint, new_authority, authority, .. } =>
            token_program < n && mint < n && new_authority < n && authority < n,
        EffectView::WriteData { account, .. } => account < n,
        EffectView::CloseAccount { account, destination, .. } => account < n && destination < n,
    }
}

/// The invocation that carries out an effect, if it is one: account creations
/// are funded with `lamports`; data writes and closings are no invocation.
pub open spec fn invocation_of(e: EffectView, a: Seq<AccountView>, lamports: u64) -> Result<Option<InvocationView>, ProgramError> {
    match e {
        EffectView::CreateAccount { payer, target, system_program, space, owner, signer_seeds, .. } => Ok(
            Some(
                InvocationView {
                    instruction: create_account_ix(a[payer as int].key, a[target as int].key, lamports, space, owner),
                    account_infos: seq![payer, target, system_program],
                    signer_seeds: Some(signer_seeds),
                },
            ),
        ),
        EffectView::InitializeTokenAccount { token_program, account, mint, rent_sysvar, owner } =>
            if a[token_program as int].key != token_program_key() {
            Err(ProgramError::IncorrectProgramId)
        } else {
            Ok(
                Some(
                    InvocationView {
                        instruction: initialize_account2_ix(a[token_program as int].key, a[account as int].key, a[mint as int].key, owner),
                        account_infos: seq![account, mint, rent_sysvar, token_program],
                        signer_seeds: None,
                    },
                ),
            )
        },
        EffectView::Transfer { token_program, source, destination, authority, amount, signer_seeds } =>
            if a[token_program as int].key != token_program_key() {
            Err(ProgramError::IncorrectProgramId)
        } else {
            Ok(
                Some(
                    InvocationView {
                        instruction: transfer_ix(a[token_program as int].key, a[source as int].key, a[destination as int].key, a[authority as int].key, amount),
                        account_infos: seq![source, destination, authority, token_program],
                        signer_seeds,
                    },
                ),
            )
        },
        EffectView::MintTo { token_program, mint, destination, authority, amount, signer_seeds } =>
            if a[token_program as int].key != token_program_key() {
            Err(ProgramError::IncorrectProgramId)
        } else {
            Ok(
                Some(
                    InvocationView {
                        instruction: mint_to_ix(a[token_program as int].key, a[mint as int].key, a[destination as int].key, a[authority as int].key, amount),
                        account_infos: seq![mint, destination, authority, token_program],
                        signer_seeds: Some(signer_seeds),
                    },
                ),
            )
        },
        EffectView::SetMintAuthority { token_program, mint, new_authority, authority, signer_seeds } =>
            if a[token_program as int].key != token_program_key() {
            Err(ProgramError::IncorrectProgramId)
        } else {
            Ok(
                Some(
                    InvocationView {
                        instruction: set_mint_authority_ix(a[token_program as int].key, a[mint as int].key, a[new_authority as int].key, a[authority as int].key),
                        account_infos: seq![mint, authority, token_program],
                        signer_seeds: Some(signer_seeds),
                    },
                ),
            )
        },
        EffectView::WriteData { .. } => Ok(None),
        EffectView::CloseAccount { .. } => Ok(None),
    }
}

fn copy_seeds(seeds: &Vec<Vec<u8>>) -> (r: Vec<Vec<u8>>)
    ensures
        seeds_view(r) == seeds_view(*seeds),
{
    let mut r: Vec<Vec<u8>> = Vec::new();
    let mut i: usize = 0;
    while i < seeds.len()
        invariant
            i <= seeds@.len(),
            r@.len() == i,
            forall|j: int| 0 <= j < i ==> #[trigger] r@[j]@ == seeds@[j]@,
        decreases seeds@.len() - i,
    {
        r.push(vstd::slice::slice_to_vec(seeds[i].as_slice()));
        i = i + 1;
    }
    assert(seeds_view(r) =~= seeds_view(*seeds));
    r
}

fn wrap(instruction: CpiInstruction, account_infos: Vec<usize>, signer_seeds: Option<Vec<Vec<u8>>>) -> (r: Result<Option<Invocation>, ProgramError>)
    ensures
        r matches Ok(Some(i)) && i.instruction@ == instruction@ && i.account_infos@ == account_infos@ && i.signer_seeds == signer_seeds,
{
    Ok(Some(Invocation { instruction, account_infos, signer_seeds }))
}

/// The invocation that carries out `effect`, built by the system and SPL token
/// crates; account creations are funded with `lamports`.
pub fn invocation(effect: &Effect, accounts: &[AccountSnapshot], lamports: u64) -> (r: Result<Option<Invocation>, ProgramError>)
    requires
        effect_in_bounds(effect@, accounts@.len()),
    ensures
        match r {
            Ok(Some(i)) => invocation_of(effect@, account_views(accounts@), lamports) == Ok::<Option<InvocationView>, ProgramError>(Some(i@)),
            Ok(None) => invocation_of(effect@, account_views(accounts@), lamports) == Ok::<Option<InvocationView>, ProgramError>(None),
            Err(e) => invocation_of(effect@, account_views(accounts@), lamports) == Err::<Option<InvocationView>, ProgramError>(e),
        },
{
    let ghost a = account_views(accounts@);
    match effect {
        Effect::CreateAccount { payer, target, system_program, space, owner, signer_seeds, .. } => {
            assert(a[*payer as int] == accounts@[*payer as int]@ && a[*target as int] == accounts@[*target as int]@);
            let ix = create_account_instruction(&accounts[*payer].key, &accounts[*target].key, lamports, *space, owner);
            let seeds = copy_seeds(signer_seeds);
            let infos = vec![*payer, *target, *system_program];
            assert(infos@ =~= seq![*payer, *target, *system_program]);
            let r = wrap(ix, infos, Some(seeds));
            r
        },
        Effect::InitializeTokenAccount { token_program, account, mint, rent_sysvar, owner } => {
            assert(a[*token_program as int] == accounts@[*token_program as int]@ && a[*account as int] == accounts@[*account as int]@ && a[*mint as int] == accounts@[*mint as int]@);
            let ix = initialize_account2_instruction(&accounts[*token_program].key, &accounts[*account].key, &accounts[*mint].key, owner)?;
            let infos = vec![*account, *mint, *rent_sysvar, *token_program];
            assert(infos@ =~= seq![*account, *mint, *rent_sysvar, *token_program]);
            let r = wrap(ix, infos, None);
            r
        },
        Effect::Transfer { token_program, source, destination, authority, amount, signer_seeds } => {
            assert(a[*token_program as int] == accounts@[*token_program as int]@ && a[*source as int] == accounts@[*source as int]@ && a[*destination as int] == accounts@[*destination as int]@ && a[*authority as int] == accounts@[*authority as int]@);
            let ix = transfer_instruction(&accounts[*token_program].key, &accounts[*source].key, &accounts[*destination].key, &accounts[*authority].key, *amount)?;
            let seeds = match signer_seeds {
                Some(s) => Some(copy_seeds(s)),
                None => None,
            };
            let infos = vec![*source, *destination, *authority, *token_program];
            assert(infos@ =~= seq![*source, *destination, *authority, *token_program]);
            let r = wrap(ix, infos, seeds);
            r
        },
        Effect::MintTo { token_program, mint, destination, authority, amount, signer_seeds } => {
            assert(a[*token_program as int] == accounts@[*token_program as int]@ && a[*mint as int] == accounts@[*mint as int]@ && a[*destination as int] == accounts@[*destination as int]@ && a[*authority as int] == accounts@[*authority as int]@);
            let ix = mint_to_instruction(&accounts[*token_program].key, &accounts[*mint].key, &accounts[*destination].key, &accounts[*authority].key, *amount)?;
            let infos = vec![*mint, *destination, *authority, *token_program];
            assert(infos@ =~= seq![*mint, *destination, *authority, *token_program]);
            let r = wrap(ix, infos, Some(copy_seeds(signer_seeds)));
            r
        },
        Effect::SetMintAuthority { token_program, mint, new_authority, authority, signer_seeds } => {
            assert(a[*token_program as int] == accounts@[*token_program as int]@ && a[*mint as int] == accounts@[*mint as int]@ && a[*new_authority as int] == accounts@[*new_authority as int]@ && a[*authority as int] == accounts@[*authority as int]@);
            let ix = set_mint_authority_instruction(&accounts[*token_program].key, &accounts[*mint].key, &accounts[*new_authority].key, &accounts[*authority].key)?;
            let infos = vec![*mint, *authority, *token_program];
            assert(infos@ =~= seq![*mint, *authority, *token_program]);
            let r = wrap(ix, infos, Some(copy_seeds(signer_seeds)));
            r
        },
        Effect::WriteData { .. } => Ok(None),
        Effect::CloseAccount { .. } => Ok(None),
    }
}

} // verus!
