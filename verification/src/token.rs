//! SPL token accounts and mints as the program reads them, and the clock.

use vstd::prelude::*;
use crate::codec::le_value;
use crate::error::ProgramError;
use crate::keys::clock_sysvar_key;
use crate::state::Pubkey;

verus! {

/// Bytes of a packed SPL token account.
pub const TOKEN_ACCOUNT_LEN: usize = 165;

/// Bytes of a packed SPL mint.
pub const MINT_LEN: usize = 82;

/// Whether the 4-byte option tag at `off` is one of the two that SPL token
/// accepts: `[0, 0, 0, 0]` (none) or `[1, 0, 0, 0]` (some).
pub open spec fn option_tag_valid(s: Seq<u8>, off: int) -> bool {
    s.subrange(off, off + 4) == seq![0u8, 0u8, 0u8, 0u8] || s.subrange(off, off + 4) == seq![
        1u8,
        0u8,
        0u8,
        0u8,
    ]
}

/// The optional key stored at `off` behind a valid option tag.
pub open spec fn option_key(s: Seq<u8>, off: int) -> Option<Seq<u8>> {
    if s[off] == 1 {
        Some(s.subrange(off + 4, off + 36))
    } else {
        None
    }
}

/// Why SPL token refuses to unpack `s` as an initialized token account, if it does.
pub open spec fn token_account_error(s: Seq<u8>) -> Option<ProgramError> {
    if s.len() != TOKEN_ACCOUNT_LEN || !option_tag_valid(s, 72) || s[108] > 2 || !option_tag_valid(
        s,
        109,
    ) || !option_tag_valid(s, 129) {
        Some(ProgramError::InvalidAccountData)
    } else if s[108] == 0 {
        Some(ProgramError::UninitializedAccount)
    } else {
        None
    }
}

/// Why SPL token refuses to unpack `s` as an initialized mint, if it does.
pub open spec fn mint_error(s: Seq<u8>) -> Option<ProgramError> {
    if s.len() != MINT_LEN || !option_tag_valid(s, 0) || s[45] > 1 || !option_tag_valid(s, 46) {
        Some(ProgramError::InvalidAccountData)
    } else if s[45] == 0 {
        Some(ProgramError::UninitializedAccount)
    } else {
        None
    }
}

/// The fields of a token account that the program reads.
pub struct TokenAccountInfo {
    pub mint: Pubkey,
    pub owner: Pubkey,
}

/// The fields of a mint that the program reads.
pub struct MintInfo {
    pub mint_authority: Option<Pubkey>,
    pub freeze_authority: Option<Pubkey>,
}

pub open spec fn option_key_view(k: Option<Pubkey>) -> Option<Seq<u8>> {
    match k {
        Some(k) => Some(k@),
        None => None,
    }
}

/// `Pack::unpack` of `spl_token::state::Account`: claims the SPL token layout
/// of version 7 (165 bytes; mint, owner, amount, an optional delegate, the
/// state byte 0 uninitialized / 1 initialized / 2 frozen, an optional native
/// amount, the delegated amount, an optional close authority), the errors it
/// gives, and the mint and owner it reads. The other fields are not read.
#[verifier::external_body]
pub(crate) fn unpack_token_account(data: &[u8]) -> (r: Result<TokenAccountInfo, ProgramError>)
    ensures
        match r {
            Ok(t) => token_account_error(data@) is None && t.mint@ == data@.subrange(0, 32)
                && t.owner@ == data@.subrange(32, 64),
            Err(e) => token_account_error(data@) == Some(e),
        },
{
    match <spl_token::state::Account as solana_program::program_pack::Pack>::unpack(data) {
        Ok(a) => Ok(
            TokenAccountInfo {
                mint: Pubkey { bytes: a.mint.to_bytes() },
                owner: Pubkey { bytes: a.owner.to_bytes() },
            },
        ),
        Err(solana_program::program_error::ProgramError::UninitializedAccount) => Err(
            ProgramError::UninitializedAccount,
        ),
        Err(_) => Err(ProgramError::InvalidAccountData),
    }
}

/// `Pack::unpack` of `spl_token::state::Mint`: claims the SPL token layout of
/// version 7 (82 bytes; an optional mint authority, supply, decimals, the
/// initialized flag 0 or 1, an optional freeze authority), the errors it
/// gives, and the two authorities it reads. Supply and decimals are not read.
#[verifier::external_body]
pub(crate) fn unpack_mint(data: &[u8]) -> (r: Result<MintInfo, ProgramError>)
    ensures
        match r {
            Ok(m) => mint_error(data@) is None && option_key_view(m.mint_authority) == option_key(
                data@,
                0,
            ) && option_key_view(m.freeze_authority) == option_key(data@, 46),
            Err(e) => mint_error(data@) == Some(e),
        },
{
    match <spl_token::state::Mint as solana_program::program_pack::Pack>::unpack(data) {
        Ok(m) => Ok(
            MintInfo {
                mint_authority: Option::from(m.mint_authority).map(|k: solana_program::pubkey::Pubkey| Pubkey { bytes: k.to_bytes() }),
                freeze_authority: Option::from(m.freeze_authority).map(|k: solana_program::pubkey::Pubkey| Pubkey { bytes: k.to_bytes() }),
            },
        ),
        Err(solana_program::program_error::ProgramError::UninitializedAccount) => Err(
            ProgramError::UninitializedAccount,
        ),
        Err(_) => Err(ProgramError::InvalidAccountData),
    }
}

/// The slot that the clock sysvar account holds, if `key` and `data` are one.
pub open spec fn clock_slot_of(key: Seq<u8>, data: Seq<u8>) -> Result<u64, ProgramError> {
    if key == clock_sysvar_key() && data.len() >= 40 {
        Ok(le_value(data.subrange(0, 8)) as u64)
    } else {
        Err(ProgramError::InvalidArgument)
    }
}

/// `Clock::from_account_info` on an account with this key and data: claims
/// that it refuses (`InvalidArgument`) an account that is not the clock sysvar
/// or whose data is shorter than the five 8-byte fields it decodes, and that
/// the slot is the first field, little-endian.
#[verifier::external_body]
pub(crate) fn clock_slot(key: &Pubkey, data: &[u8]) -> (r: Result<u64, ProgramError>)
    ensures
        r == clock_slot_of(key@, data@),
{
    let key = solana_program::pubkey::Pubkey::new_from_array(key.bytes);
    let owner = solana_program::sysvar::ID;
    let mut lamports: u64 = 0;
    let mut bytes = data.to_vec();
    let info = solana_program::account_info::AccountInfo::new(
        &key, false, false, &mut lamports, &mut bytes, &owner, false, 0,
    );
    match <solana_program::clock::Clock as solana_program::sysvar::Sysvar>::from_account_info(&info) {
        Ok(clock) => Ok(clock.slot),
        Err(_) => Err(ProgramError::InvalidArgument),
    }
}

} // verus!
