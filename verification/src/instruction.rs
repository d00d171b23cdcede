//! Reading the fields of instruction data, front to back.

use vstd::prelude::*;
use crate::codec::{le_value, read_le, lemma_pow256_widths};
use crate::error::ProgramError;

verus! {

/// Takes one byte off the front of `data`.
pub fn read_u8(data: &mut &[u8]) -> (r: Result<u8, ProgramError>)
    ensures
        match r {
            Ok(v) => old(data)@.len() >= 1 && v == old(data)@[0] && final(data)@ == old(
                data,
            )@.subrange(1, old(data)@.len() as int),
            Err(e) => old(data)@.len() == 0 && e == ProgramError::InvalidInstructionData
                && final(data)@ == old(data)@,
        },
{
    if data.is_empty() {
        return Err(ProgramError::InvalidInstructionData);
    }
    let value = data[0];
    *data = vstd::slice::slice_subrange(*data, 1, data.len());
    Ok(value)
}

/// Takes a little-endian `u64` off the front of `data`.
pub fn read_u64(data: &mut &[u8]) -> (r: Result<u64, ProgramError>)
    ensures
        match r {
            Ok(v) => old(data)@.len() >= 8 && v == le_value(old(data)@.subrange(0, 8))
                && final(data)@ == old(data)@.subrange(8, old(data)@.len() as int),
            Err(e) => old(data)@.len() < 8 && e == ProgramError::InvalidInstructionData
                && final(data)@ == old(data)@,
        },
{
    if data.len() < 8 {
        return Err(ProgramError::InvalidInstructionData);
    }
    proof {
        lemma_pow256_widths();
    }
    let value = read_le(*data, 0, 8) as u64;
    *data = vstd::slice::slice_subrange(*data, 8, data.len());
    Ok(value)
}

} // verus!
