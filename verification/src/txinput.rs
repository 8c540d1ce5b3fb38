use vstd::bytes::u32_from_le_bytes;
use vstd::bytes::u32_to_le_bytes;
use vstd::prelude::*;
use vstd::slice::slice_subrange;
use vstd::slice::slice_to_vec;

use crate::error::BitcoinError;
use crate::outpoint::OutPoint;
use crate::wire::dec_input;
use crate::wire::enc_input;
use crate::wire::input_wf;
use crate::wire::TxInputModel;

verus! {

/// One input of a transaction: the out-point being spent, a variable-length
/// unlocking script, and a 4-byte sequence number.
#[derive(Debug, Clone)]
pub struct TxInput {
    pub previous_output: OutPoint,
    pub script_sig: Vec<u8>,
    pub sequence: u32,
}

impl View for TxInput {
    type V = TxInputModel;

    open spec fn view(&self) -> TxInputModel {
        TxInputModel {
            previous_output: self.previous_output@,
            script_sig: self.script_sig@,
            sequence: self.sequence,
        }
    }
}

impl TxInput {
    /// Concatenates the encoded out-point, the 4-byte script length prefix,
    /// the script bytes, and the little-endian sequence number.
    pub fn serialize(&self) -> (r: Vec<u8>)
        requires
            input_wf(self@),
        ensures
            r@ == enc_input(self@),
            r@.len() == 44 + self.script_sig@.len(),
    {
        let mut v = self.previous_output.serialize();
        let mut len_bytes = u32_to_le_bytes(self.script_sig.len() as u32);
        v.append(&mut len_bytes);
        v.extend_from_slice(self.script_sig.as_slice());
        let mut seq_bytes = u32_to_le_bytes(self.sequence);
        v.append(&mut seq_bytes);
        v
    }

    /// Reads an input from the front of `data`.
    ///
    /// A coarse 40-byte pre-check covers the embedded out-point and the
    /// script length prefix; the script body plus the trailing sequence
    /// field are then checked against the announced length strictly before
    /// any indexing into the script region.  The consumed count is
    /// `36 + 4 + script_len + 4`.
    pub fn parse(data: &[u8]) -> (r: Result<(Self, usize), BitcoinError>)
        ensures
            match dec_input(data@) {
                Some(p) => r matches Ok(q) && q.0@ == p.0 && q.1 as int == p.1,
                None => r == Err::<(TxInput, usize), BitcoinError>(
                    BitcoinError::InvalidTransaction,
                ),
            },
    {
        if data.len() < 40 {
            return Err(BitcoinError::InvalidTransaction);
        }
        let (previous_output, outpoint_len) = match OutPoint::parse(data) {
            Ok(p) => p,
            Err(e) => {
                return Err(e);
            },
        };
        let script_len = u32_from_le_bytes(
            slice_subrange(data, outpoint_len, outpoint_len + 4),
        ) as usize;
        if data.len() < 44 || data.len() - 44 < script_len {
            return Err(BitcoinError::InvalidTransaction);
        }
        let script_start = outpoint_len + 4;
        let script_end = script_start + script_len;
        let script_sig = slice_to_vec(slice_subrange(data, script_start, script_end));
        let sequence = u32_from_le_bytes(slice_subrange(data, script_end, script_end + 4));
        Ok((TxInput { previous_output, script_sig, sequence }, script_end + 4))
    }
}

} // verus!
