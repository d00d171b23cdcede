use coin_staking::accounts::{AccountSnapshot, Effect, RentSource};
use coin_staking::cpi::{invocation, CpiInstruction};
use coin_staking::error::ProgramError;
use coin_staking::state::Pubkey;
use solana_program::instruction::Instruction;
use solana_program::pubkey::Pubkey as SolKey;

fn lib_key(k: &SolKey) -> Pubkey {
    Pubkey { bytes: k.to_bytes() }
}

fn keyed(bytes: [u8; 32]) -> AccountSnapshot {
    AccountSnapshot {
        key: Pubkey { bytes },
        owner: Pubkey { bytes: [0u8; 32] },
        lamports: 0,
        data: Vec::new(),
        is_signer: false,
    }
}

fn accounts_with_token_program() -> Vec<AccountSnapshot> {
    let mut a: Vec<AccountSnapshot> = (0u8..6).map(|i| keyed([i + 20; 32])).collect();
    a[5] = keyed(spl_token::ID.to_bytes());
    a
}

fn same(ours: &CpiInstruction, theirs: &Instruction) {
    assert_eq!(ours.program_id.bytes, theirs.program_id.to_bytes());
    assert_eq!(ours.data, theirs.data);
    assert_eq!(ours.accounts.len(), theirs.accounts.len());
    for (m, t) in ours.accounts.iter().zip(theirs.accounts.iter()) {
        assert_eq!(m.pubkey.bytes, t.pubkey.to_bytes());
        assert_eq!((m.is_signer, m.is_writable), (t.is_signer, t.is_writable));
    }
}

fn k(i: u8) -> SolKey {
    SolKey::new_from_array([i + 20; 32])
}

#[test]
fn transfer_invocation_matches_spl_token() {
    let a = accounts_with_token_program();
    let effect = Effect::Transfer { token_program: 5, source: 0, destination: 1, authority: 2, amount: 0x0102, signer_seeds: None };
    let inv = invocation(&effect, &a, 0).unwrap().unwrap();
    let expected = spl_token::instruction::transfer(&spl_token::ID, &k(0), &k(1), &k(2), &[], 0x0102).unwrap();
    same(&inv.instruction, &expected);
    assert_eq!(inv.instruction.data, vec![3, 2, 1, 0, 0, 0, 0, 0, 0]);
    assert_eq!(inv.account_infos, vec![0, 1, 2, 5]);
    assert!(inv.signer_seeds.is_none());
}

#[test]
fn mint_to_invocation_matches_spl_token() {
    let a = accounts_with_token_program();
    let effect = Effect::MintTo { token_program: 5, mint: 3, destination: 1, authority: 4, amount: 9, signer_seeds: vec![vec![1, 2], vec![3]] };
    let inv = invocation(&effect, &a, 0).unwrap().unwrap();
    let expected = spl_token::instruction::mint_to(&spl_token::ID, &k(3), &k(1), &k(4), &[], 9).unwrap();
    same(&inv.instruction, &expected);
    assert_eq!(inv.instruction.data[0], 7);
    assert_eq!(inv.account_infos, vec![3, 1, 4, 5]);
    assert_eq!(inv.signer_seeds, Some(vec![vec![1, 2], vec![3]]));
}

#[test]
fn set_authority_invocation_matches_spl_token() {
    let a = accounts_with_token_program();
    let effect = Effect::SetMintAuthority { token_program: 5, mint: 3, new_authority: 0, authority: 4, signer_seeds: vec![vec![7]] };
    let inv = invocation(&effect, &a, 0).unwrap().unwrap();
    let expected = spl_token::instruction::set_authority(
        &spl_token::ID,
        &k(3),
        Some(&k(0)),
        spl_token::instruction::AuthorityType::MintTokens,
        &k(4),
        &[],
    )
    .unwrap();
    same(&inv.instruction, &expected);
    assert_eq!(&inv.instruction.data[..3], &[6, 0, 1]);
    assert_eq!(inv.account_infos, vec![3, 4, 5]);
}

#[test]
fn initialize_account_invocation_matches_spl_token() {
    let a = accounts_with_token_program();
    let effect = Effect::InitializeTokenAccount { token_program: 5, account: 1, mint: 3, rent_sysvar: 2, owner: lib_key(&k(0)) };
    let inv = invocation(&effect, &a, 0).unwrap().unwrap();
    let expected = spl_token::instruction::initialize_account2(&spl_token::ID, &k(1), &k(3), &k(0)).unwrap();
    same(&inv.instruction, &expected);
    assert_eq!(inv.instruction.accounts[2].pubkey.bytes, solana_program::sysvar::rent::ID.to_bytes());
    assert_eq!(inv.account_infos, vec![1, 3, 2, 5]);
}

#[test]
fn create_account_invocation_matches_the_system_program() {
    let a = accounts_with_token_program();
    let effect = Effect::CreateAccount {
        payer: 0,
        target: 1,
        system_program: 2,
        space: 48,
        owner: lib_key(&k(4)),
        rent: RentSource::Current,
        signer_seeds: vec![vec![1]],
    };
    let inv = invocation(&effect, &a, 890_880).unwrap().unwrap();
    let expected = solana_program::system_instruction::create_account(&k(0), &k(1), 890_880, 48, &k(4));
    same(&inv.instruction, &expected);
    assert_eq!(inv.instruction.data.len(), 52);
    assert_eq!(&inv.instruction.data[4..12], &890_880u64.to_le_bytes());
    assert_eq!(inv.account_infos, vec![0, 1, 2]);
}

#[test]
fn token_invocations_refuse_another_program() {
    let mut a = accounts_with_token_program();
    a[5] = keyed([99u8; 32]);
    let effect = Effect::Transfer { token_program: 5, source: 0, destination: 1, authority: 2, amount: 1, signer_seeds: None };
    assert_eq!(invocation(&effect, &a, 0).err(), Some(ProgramError::IncorrectProgramId));
}

#[test]
fn writes_and_closings_are_no_invocation() {
    let a = accounts_with_token_program();
    let write = Effect::WriteData { account: 1, bytes: vec![1, 2, 3] };
    assert!(invocation(&write, &a, 0).unwrap().is_none());
    let close = Effect::CloseAccount { account: 1, destination: 0, destination_lamports: 5 };
    assert!(invocation(&close, &a, 0).unwrap().is_none());
}
