use vstd::bytes::u32_from_le_bytes;
use vstd::bytes::u32_to_le_bytes;
use vstd::bytes::u64_from_le_bytes;
use vstd::bytes::u64_to_le_bytes;
use vstd::prelude::*;
use vstd::slice::slice_subrange;
use vstd::slice::slice_to_vec;

use crate::error::BitcoinError;
use crate::wire::dec_output;
use crate::wire::enc_output;
use crate::wire::output_wf;
use crate::wire::TxOutputModel;

verus! {

/// One output of a transaction: an amount in the smallest ledger unit and
/// a variable-length locking script.
#[derive(Debug, Clone)]
pub struct TxOutput {
    pub value: u64,
    pub script_pubkey: Vec<u8>,
}

impl View for TxOutput {
    type V = TxOutputModel;

    open spec fn view(&self) -> TxOutputModel {
        TxOutputModel { value: self.value, script_pubkey: self.script_pubkey@ }
    }
}

impl TxOutput {
    /// Concatenates the little-endian amount, the 4-byte script length
    /// prefix, and the script bytes.
    pub fn serialize(&self) -> (r: Vec<u8>)
        requires
            output_wf(self@),
        ensures
            r@ == enc_output(self@),
            r@.len() == 12 + self.script_pubkey@.len(),
    {
        let mut v = u64_to_le_bytes(self.value);
        let mut len_bytes = u32_to_le_bytes(self.script_pubkey.len() as u32);
        v.append(&mut len_bytes);
        v.extend_from_slice(self.script_pubkey.as_slice());
        v
    }

    /// Reads an output from the front of `data`: the 12 header bytes are
    /// required before anything is read, the script body is checked against
    /// its announced length before it is copied, and the consumed count is
    /// `12 + script_len`.
    pub fn parse(data: &[u8]) -> (r: Result<(Self, usize), BitcoinError>)
        ensures
            match dec_output(data@) {
                Some(p) => r matches Ok(q) && q.0@ == p.0 && q.1 as int == p.1,
                None => r == Err::<(TxOutput, usize), BitcoinError>(
                    BitcoinError::InvalidTransaction,
                ),
            },
    {
        if data.len() < 12 {
            return Err(BitcoinError::InvalidTransaction);
        }
        let value = u64_from_le_bytes(slice_subrange(data, 0, 8));
        let script_len = u32_from_le_bytes(slice_subrange(data, 8, 12)) as usize;
        if script_len > data.len() - 12 {
            return Err(BitcoinError::InvalidTransaction);
        }
        let script_pubkey = slice_to_vec(slice_subrange(data, 12, 12 + script_len));
        Ok((TxOutput { value, script_pubkey }, 12 + script_len))
    }
}

} // verus!
