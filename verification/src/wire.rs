use vstd::bytes::*;
use vstd::prelude::*;

verus! {

// ---------------------------------------------------------------------------
// Mathematical models of the wire entities
// ---------------------------------------------------------------------------

/// Model of a reference to a prior output: a 32-byte identifier and an index.
pub struct OutPointModel {
    pub txid: Seq<u8>,
    pub vout: u32,
}

/// Model of one transaction input.
pub struct TxInputModel {
    pub previous_output: OutPointModel,
    pub script_sig: Seq<u8>,
    pub sequence: u32,
}

/// Model of one transaction output.
pub struct TxOutputModel {
    pub value: u64,
    pub script_pubkey: Seq<u8>,
}

/// Model of a whole transaction record.
pub struct TransactionModel {
    pub version: i32,
    pub inputs: Seq<TxInputModel>,
    pub outputs: Seq<TxOutputModel>,
    pub lock_time: u32,
}

// ---------------------------------------------------------------------------
// Well-formedness
// ---------------------------------------------------------------------------

/// The identifier of an out-point is exactly 32 bytes.
pub open spec fn outpoint_wf(p: OutPointModel) -> bool {
    p.txid.len() == 32
}

/// An input's script length must fit in its 4-byte length prefix.
pub open spec fn input_wf(i: TxInputModel) -> bool {
    &&& outpoint_wf(i.previous_output)
    &&& i.script_sig.len() <= u32::MAX
}

/// An output's script length must fit in its 4-byte length prefix.
pub open spec fn output_wf(o: TxOutputModel) -> bool {
    o.script_pubkey.len() <= u32::MAX
}

/// The input and output counts must fit in their 4-byte count fields.
pub open spec fn transaction_wf(t: TransactionModel) -> bool {
    &&& t.inputs.len() <= u32::MAX
    &&& t.outputs.len() <= u32::MAX
    &&& forall|k: int| 0 <= k < t.inputs.len() ==> input_wf(#[trigger] t.inputs[k])
    &&& forall|k: int| 0 <= k < t.outputs.len() ==> output_wf(#[trigger] t.outputs[k])
}

// ---------------------------------------------------------------------------
// The two's-complement 32-bit wire representation of a signed version field
// ---------------------------------------------------------------------------

/// The unsigned 32-bit word that stands for `v` on the wire.
pub open spec fn i32_wire_word(v: i32) -> u32 {
    if v >= 0 {
        v as u32
    } else {
        (v + 0x1_0000_0000) as u32
    }
}

/// The signed value read back from an unsigned 32-bit wire word.
pub open spec fn wire_word_i32(w: u32) -> i32 {
    if w < 0x8000_0000 {
        w as i32
    } else {
        (w - 0x1_0000_0000) as i32
    }
}

pub proof fn lemma_i32_wire_word_round_trip(v: i32)
    ensures
        wire_word_i32(i32_wire_word(v)) == v,
{
}

/// Computes the unsigned wire word that encodes `v`.
pub fn wire_word_of_i32(v: i32) -> (r: u32)
    ensures
        r == i32_wire_word(v),
{
    if v >= 0 {
        v as u32
    } else {
        ((v as i64) + 0x1_0000_0000i64) as u32
    }
}

/// Reads the signed value back from an unsigned wire word.
pub fn i32_of_wire_word(w: u32) -> (r: i32)
    ensures
        r == wire_word_i32(w),
{
    if w < 0x8000_0000 {
        w as i32
    } else {
        ((w as i64) - 0x1_0000_0000i64) as i32
    }
}

// ---------------------------------------------------------------------------
// Encoding
// ---------------------------------------------------------------------------

/// Encoding of an out-point: the 32 identifier bytes, then the index.
pub open spec fn enc_outpoint(p: OutPointModel) -> Seq<u8> {
    p.txid + spec_u32_to_le_bytes(p.vout)
}

/// Encoding of one input: out-point, script length prefix, script bytes,
/// sequence number.
pub open spec fn enc_input(i: TxInputModel) -> Seq<u8> {
    enc_outpoint(i.previous_output) + spec_u32_to_le_bytes(i.script_sig.len() as u32)
        + i.script_sig + spec_u32_to_le_bytes(i.sequence)
}

/// Encoding of one output: amount, script length prefix, script bytes.
pub open spec fn enc_output(o: TxOutputModel) -> Seq<u8> {
    spec_u64_to_le_bytes(o.value) + spec_u32_to_le_bytes(o.script_pubkey.len() as u32)
        + o.script_pubkey
}

/// Concatenation of the encodings of a sequence of inputs, in order.
pub open spec fn enc_inputs(s: Seq<TxInputModel>) -> Seq<u8>
    decreases s.len(),
{
    if s.len() == 0 {
        Seq::empty()
    } else {
        enc_input(s[0]) + enc_inputs(s.drop_first())
    }
}

/// Concatenation of the encodings of a sequence of outputs, in order.
pub open spec fn enc_outputs(s: Seq<TxOutputModel>) -> Seq<u8>
    decreases s.len(),
{
    if s.len() == 0 {
        Seq::empty()
    } else {
        enc_output(s[0]) + enc_outputs(s.drop_first())
    }
}

/// Appending one input to a sequence appends its encoding to the
/// sequence's encoding.
pub proof fn lemma_enc_inputs_push(s: Seq<TxInputModel>, x: TxInputModel)
    ensures
        enc_inputs(s.push(x)) == enc_inputs(s) + enc_input(x),
    decreases s.len(),
{
    if s.len() == 0 {
        assert(s.push(x).drop_first() =~= s);
        assert(enc_inputs(s.push(x)) =~= enc_inputs(s) + enc_input(x));
    } else {
        assert(s.push(x).drop_first() =~= s.drop_first().push(x));
        lemma_enc_inputs_push(s.drop_first(), x);
        assert(enc_inputs(s.push(x)) =~= enc_inputs(s) + enc_input(x));
    }
}

/// Appending one output to a sequence appends its encoding to the
/// sequence's encoding.
pub proof fn lemma_enc_outputs_push(s: Seq<TxOutputModel>, x: TxOutputModel)
    ensures
        enc_outputs(s.push(x)) == enc_outputs(s) + enc_output(x),
    decreases s.len(),
{
    if s.len() == 0 {
        assert(s.push(x).drop_first() =~= s);
        assert(enc_outputs(s.push(x)) =~= enc_outputs(s) + enc_output(x));
    } else {
        assert(s.push(x).drop_first() =~= s.drop_first().push(x));
        lemma_enc_outputs_push(s.drop_first(), x);
        assert(enc_outputs(s.push(x)) =~= enc_outputs(s) + enc_output(x));
    }
}

/// Encoding of a whole record: version, input count, output count,
/// lock time, then every input and every output in order.
pub open spec fn enc_transaction(t: TransactionModel) -> Seq<u8> {
    spec_u32_to_le_bytes(i32_wire_word(t.version)) + spec_u32_to_le_bytes(t.inputs.len() as u32)
        + spec_u32_to_le_bytes(t.outputs.len() as u32) + spec_u32_to_le_bytes(t.lock_time)
        + enc_inputs(t.inputs) + enc_outputs(t.outputs)
}

// ---------------------------------------------------------------------------
// Decoding
// ---------------------------------------------------------------------------

/// Decoding of an out-point from the front of `data`: requires 36 bytes and
/// always consumes exactly 36.
pub open spec fn dec_outpoint(data: Seq<u8>) -> Option<(OutPointModel, int)> {
    if data.len() >= 36 {
        Some(
            (
                OutPointModel {
                    txid: data.subrange(0, 32),
                    vout: spec_u32_from_le_bytes(data.subrange(32, 36)),
                },
                36int,
            ),
        )
    } else {
        None
    }
}

/// Decoding of one input from the front of `data`.
///
/// A coarse 40-byte pre-check covers the out-point and the length prefix;
/// the script body and the trailing sequence field are then checked against
/// the announced script length before any byte of them is read.
pub open spec fn dec_input(data: Seq<u8>) -> Option<(TxInputModel, int)> {
    if data.len() < 40 {
        None
    } else {
        let sl = spec_u32_from_le_bytes(data.subrange(36, 40)) as int;
        if data.len() >= 44 + sl {
            Some(
                (
                    TxInputModel {
                        previous_output: OutPointModel {
                            txid: data.subrange(0, 32),
                            vout: spec_u32_from_le_bytes(data.subrange(32, 36)),
                        },
                        script_sig: data.subrange(40, 40 + sl),
                        sequence: spec_u32_from_le_bytes(data.subrange(40 + sl, 44 + sl)),
                    },
                    44 + sl,
                ),
            )
        } else {
            None
        }
    }
}

/// Decoding of one output from the front of `data`.
///
/// The amount and the length prefix need 12 bytes; the script body is then
/// checked against the announced length.  There is no trailing field, so
/// the consumed count and the script's end offset coincide.
pub open spec fn dec_output(data: Seq<u8>) -> Option<(TxOutputModel, int)> {
    if data.len() < 12 {
        None
    } else {
        let sl = spec_u32_from_le_bytes(data.subrange(8, 12)) as int;
        if data.len() >= 12 + sl {
            Some(
                (
                    TxOutputModel {
                        value: spec_u64_from_le_bytes(data.subrange(0, 8)),
                        script_pubkey: data.subrange(12, 12 + sl),
                    },
                    12 + sl,
                ),
            )
        } else {
            None
        }
    }
}

/// Decoding of `n` consecutive inputs from the front of `data`, returning
/// them in order together with the total byte count consumed.
pub open spec fn dec_inputs(data: Seq<u8>, n: nat) -> Option<(Seq<TxInputModel>, int)>
    decreases n,
{
    if n == 0 {
        Some((Seq::empty(), 0int))
    } else {
        match dec_input(data) {
            None => None,
            Some((v, used)) => match dec_inputs(
                data.subrange(used, data.len() as int),
                (n - 1) as nat,
            ) {
                None => None,
                Some((rest, m)) => Some((seq![v] + rest, used + m)),
            },
        }
    }
}

/// Decoding of `n` consecutive outputs from the front of `data`.
pub open spec fn dec_outputs(data: Seq<u8>, n: nat) -> Option<(Seq<TxOutputModel>, int)>
    decreases n,
{
    if n == 0 {
        Some((Seq::empty(), 0int))
    } else {
        match dec_output(data) {
            None => None,
            Some((v, used)) => match dec_outputs(
                data.subrange(used, data.len() as int),
                (n - 1) as nat,
            ) {
                None => None,
                Some((rest, m)) => Some((seq![v] + rest, used + m)),
            },
        }
    }
}

/// Decoding of a whole record.
///
/// The four header fields sit at fixed offsets 0, 4, 8 and 12; the running
/// offset then starts at 16.  Bytes beyond the last consumed offset are
/// ignored, and any nested failure aborts the whole decode.
pub open spec fn dec_transaction(data: Seq<u8>) -> Option<TransactionModel> {
    if data.len() < 16 {
        None
    } else {
        let version = wire_word_i32(spec_u32_from_le_bytes(data.subrange(0, 4)));
        let n_in = spec_u32_from_le_bytes(data.subrange(4, 8));
        let n_out = spec_u32_from_le_bytes(data.subrange(8, 12));
        let lock_time = spec_u32_from_le_bytes(data.subrange(12, 16));
        match dec_inputs(data.subrange(16, data.len() as int), n_in as nat) {
            None => None,
            Some((ins, used_in)) => match dec_outputs(
                data.subrange(16 + used_in, data.len() as int),
                n_out as nat,
            ) {
                None => None,
                Some((outs, _used_out)) => Some(
                    TransactionModel { version, inputs: ins, outputs: outs, lock_time },
                ),
            },
        }
    }
}

} // verus!
