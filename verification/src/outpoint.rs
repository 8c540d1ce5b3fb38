use vstd::bytes::u32_from_le_bytes;
use vstd::bytes::u32_to_le_bytes;
use vstd::prelude::*;
use vstd::slice::slice_subrange;

use crate::error::BitcoinError;
use crate::wire::dec_outpoint;
use crate::wire::enc_outpoint;
use crate::wire::OutPointModel;

verus! {

broadcast use vstd::array::group_array_axioms;

/// A reference to a specific output of a specific prior transaction:
/// a fixed 32-byte identifier and a 4-byte index.
#[derive(Debug, Clone)]
pub struct OutPoint {
    pub txid: [u8; 32],
    pub vout: u32,
}

impl View for OutPoint {
    type V = OutPointModel;

    open spec fn view(&self) -> OutPointModel {
        OutPointModel { txid: self.txid@, vout: self.vout }
    }
}

impl OutPoint {
    /// Produces exactly 36 bytes: the identifier followed by the
    /// little-endian index.
    pub fn serialize(&self) -> (r: Vec<u8>)
        ensures
            r@ == enc_outpoint(self@),
            r@.len() == 36,
    {
        let mut v: Vec<u8> = Vec::new();
        v.extend_from_slice(self.txid.as_slice());
        let mut vout_bytes = u32_to_le_bytes(self.vout);
        v.append(&mut vout_bytes);
        v
    }

    /// Reads an out-point from the front of `data`: fails unless at least
    /// 36 bytes remain, and consumes exactly 36 on success.
    pub fn parse(data: &[u8]) -> (r: Result<(Self, usize), BitcoinError>)
        ensures
            match dec_outpoint(data@) {
                Some(p) => r matches Ok(q) && q.0@ == p.0 && q.1 as int == p.1,
                None => r == Err::<(OutPoint, usize), BitcoinError>(
                    BitcoinError::InvalidTransaction,
                ),
            },
    {
        if data.len() < 36 {
            return Err(BitcoinError::InvalidTransaction);
        }
        let mut txid: [u8; 32] = [0u8; 32];
        let mut i: usize = 0;
        while i < 32
            invariant
                i <= 32,
                data@.len() >= 36,
                forall|j: int| 0 <= j < i ==> txid@[j] == data@[j],
            decreases 32 - i,
        {
            txid[i] = data[i];
            i += 1;
        }
        let vout = u32_from_le_bytes(slice_subrange(data, 32, 36));
        proof {
            assert(txid@ =~= data@.subrange(0, 32));
        }
        Ok((OutPoint { txid, vout }, 36))
    }
}

} // verus!
