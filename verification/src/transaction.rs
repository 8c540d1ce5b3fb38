use vstd::bytes::spec_u32_from_le_bytes;
use vstd::bytes::u32_from_le_bytes;
use vstd::bytes::u32_to_le_bytes;
use vstd::prelude::*;
use vstd::slice::slice_subrange;

use crate::error::BitcoinError;
use crate::txinput::TxInput;
use crate::txoutput::TxOutput;
use crate::wire::dec_input;
use crate::wire::dec_inputs;
use crate::wire::dec_output;
use crate::wire::dec_outputs;
use crate::wire::dec_transaction;
use crate::wire::enc_inputs;
use crate::wire::enc_outputs;
use crate::wire::enc_transaction;
use crate::wire::i32_of_wire_word;
use crate::wire::input_wf;
use crate::wire::lemma_enc_inputs_push;
use crate::wire::lemma_enc_outputs_push;
use crate::wire::output_wf;
use crate::wire::transaction_wf;
use crate::wire::wire_word_of_i32;
use crate::wire::TransactionModel;
use crate::wire::TxInputModel;
use crate::wire::TxOutputModel;

verus! {

/// The serialization capability of a wire entity: a total, never-failing
/// conversion of an in-memory value to its exact byte layout.
pub trait BitcoinSerialize {
    /// Whether the value fits the format's 4-byte length and count fields.
    spec fn serializable(&self) -> bool;

    /// The exact byte encoding of the value.
    spec fn encoding(&self) -> Seq<u8>;

    /// Emits the exact byte encoding.
    fn serialize(&self) -> (r: Vec<u8>)
        requires
            self.serializable(),
        ensures
            r@ == self.encoding(),
    ;
}

/// A transaction record: a signed version, ordered sequences of inputs and
/// outputs, and a lock-time field.
#[derive(Debug, Clone)]
pub struct LegacyTransaction {
    pub version: i32,
    pub inputs: Vec<TxInput>,
    pub outputs: Vec<TxOutput>,
    pub lock_time: u32,
}

impl View for LegacyTransaction {
    type V = TransactionModel;

    open spec fn view(&self) -> TransactionModel {
        TransactionModel {
            version: self.version,
            inputs: self.inputs@.map_values(|i: TxInput| i@),
            outputs: self.outputs@.map_values(|o: TxOutput| o@),
            lock_time: self.lock_time,
        }
    }
}

impl LegacyTransaction {
    /// Starts incremental construction of a record.
    pub fn builder() -> (r: LegacyTransactionBuilder)
        ensures
            r.version == 1,
            r.inputs@.len() == 0,
            r.outputs@.len() == 0,
            r.lock_time == 0,
    {
        LegacyTransactionBuilder::default()
    }

    /// Decodes a record from `data`.
    ///
    /// The four fixed header fields are read from offsets 0, 4, 8 and 12;
    /// a running offset then starts at 16 and advances by the consumed
    /// count of each nested decode.  Any nested failure aborts the whole
    /// decode; trailing bytes beyond the last consumed offset are ignored.
    pub fn parse(data: &[u8]) -> (r: Result<Self, BitcoinError>)
        ensures
            match dec_transaction(data@) {
                Some(t) => r matches Ok(tx) && tx@ == t,
                None => r == Err::<LegacyTransaction, BitcoinError>(
                    BitcoinError::InvalidTransaction,
                ),
            },
    {
        if data.len() < 16 {
            return Err(BitcoinError::InvalidTransaction);
        }
        let version = i32_of_wire_word(u32_from_le_bytes(slice_subrange(data, 0, 4)));
        let inputs_count = u32_from_le_bytes(slice_subrange(data, 4, 8)) as usize;
        let outputs_count = u32_from_le_bytes(slice_subrange(data, 8, 12)) as usize;
        let lock_time = u32_from_le_bytes(slice_subrange(data, 12, 16));
        let mut offset: usize = 16;
        let mut inputs: Vec<TxInput> = Vec::with_capacity(inputs_count);
        proof {
            if let Some((rest, m)) = dec_inputs(
                data@.subrange(16, data@.len() as int),
                inputs_count as nat,
            ) {
                assert(inputs@.map_values(|i: TxInput| i@) + rest =~= rest);
            }
        }
        let mut k: usize = 0;
        while k < inputs_count
            invariant
                data@.len() >= 16,
                16 <= offset <= data@.len(),
                k <= inputs_count,
                inputs@.len() == k,
                inputs_count as nat == spec_u32_from_le_bytes(data@.subrange(4, 8)) as nat,
                dec_inputs(data@.subrange(16, data@.len() as int), inputs_count as nat) == (
                match dec_inputs(
                    data@.subrange(offset as int, data@.len() as int),
                    (inputs_count - k) as nat,
                ) {
                    None => None::<(Seq<TxInputModel>, int)>,
                    Some((rest, m)) => Some(
                        (inputs@.map_values(|i: TxInput| i@) + rest, offset - 16 + m),
                    ),
                }),
            decreases inputs_count - k,
        {
            let sub = slice_subrange(data, offset, data.len());
            match TxInput::parse(sub) {
                Err(e) => {
                    proof {
                        assert(dec_inputs(
                            data@.subrange(16, data@.len() as int),
                            inputs_count as nat,
                        ) is None);
                        assert(dec_transaction(data@) is None);
                    }
                    return Err(e);
                },
                Ok((input, used)) => {
                    proof {
                        let ln = data@.len() as int;
                        let tail = data@.subrange(offset as int, ln);
                        assert(dec_input(tail) == Some((input@, used as int)));
                        assert(used as int <= tail.len());
                        assert(tail.subrange(used as int, tail.len() as int) =~= data@.subrange(
                            offset as int + used as int,
                            ln,
                        ));
                        let prev = inputs@.map_values(|i: TxInput| i@);
                        assert(inputs@.push(input).map_values(|i: TxInput| i@) =~= prev.push(
                            input@,
                        ));
                        if let Some((rest2, _m2)) = dec_inputs(
                            data@.subrange(offset as int + used as int, ln),
                            (inputs_count - k - 1) as nat,
                        ) {
                            assert(prev + (seq![input@] + rest2) =~= prev.push(input@) + rest2);
                        }
                    }
                    inputs.push(input);
                    offset = offset + used;
                    k = k + 1;
                },
            }
        }
        let ghost inputs_used = offset - 16;
        let ghost input_models = inputs@.map_values(|i: TxInput| i@);
        proof {
            assert(dec_inputs(data@.subrange(16, data@.len() as int), inputs_count as nat)
                == Some((input_models, inputs_used as int)));
            if let Some((rest, m)) = dec_outputs(
                data@.subrange(offset as int, data@.len() as int),
                outputs_count as nat,
            ) {
                let empty_outs = Seq::<TxOutputModel>::empty();
                assert(empty_outs + rest =~= rest);
            }
        }
        let mut outputs: Vec<TxOutput> = Vec::with_capacity(outputs_count);
        let ghost outputs_start = offset;
        let mut j: usize = 0;
        while j < outputs_count
            invariant
                data@.len() >= 16,
                16 <= outputs_start <= offset <= data@.len(),
                j <= outputs_count,
                outputs@.len() == j,
                inputs_count as nat == spec_u32_from_le_bytes(data@.subrange(4, 8)) as nat,
                outputs_count as nat == spec_u32_from_le_bytes(data@.subrange(8, 12)) as nat,
                dec_inputs(data@.subrange(16, data@.len() as int), inputs_count as nat) == Some(
                    (input_models, outputs_start - 16),
                ),
                dec_outputs(
                    data@.subrange(outputs_start as int, data@.len() as int),
                    outputs_count as nat,
                ) == (match dec_outputs(
                    data@.subrange(offset as int, data@.len() as int),
                    (outputs_count - j) as nat,
                ) {
                    None => None::<(Seq<TxOutputModel>, int)>,
                    Some((rest, m)) => Some(
                        (outputs@.map_values(|o: TxOutput| o@) + rest, offset - outputs_start + m),
                    ),
                }),
            decreases outputs_count - j,
        {
            let sub = slice_subrange(data, offset, data.len());
            match TxOutput::parse(sub) {
                Err(e) => {
                    proof {
                        assert(dec_outputs(
                            data@.subrange(outputs_start as int, data@.len() as int),
                            outputs_count as nat,
                        ) is None);
                        assert(dec_transaction(data@) is None);
                    }
                    return Err(e);
                },
                Ok((output, used)) => {
                    proof {
                        let ln = data@.len() as int;
                        let tail = data@.subrange(offset as int, ln);
                        assert(dec_output(tail) == Some((output@, used as int)));
                        assert(used as int <= tail.len());
                        assert(tail.subrange(used as int, tail.len() as int) =~= data@.subrange(
                            offset as int + used as int,
                            ln,
                        ));
                        let prev = outputs@.map_values(|o: TxOutput| o@);
                        assert(outputs@.push(output).map_values(|o: TxOutput| o@) =~= prev.push(
                            output@,
                        ));
                        if let Some((rest2, _m2)) = dec_outputs(
                            data@.subrange(offset as int + used as int, ln),
                            (outputs_count - j - 1) as nat,
                        ) {
                            assert(prev + (seq![output@] + rest2) =~= prev.push(output@) + rest2);
                        }
                    }
                    outputs.push(output);
                    offset = offset + used;
                    j = j + 1;
                },
            }
        }
        let tx = LegacyTransaction { version, inputs, outputs, lock_time };
        proof {
            assert(dec_outputs(
                data@.subrange(outputs_start as int, data@.len() as int),
                outputs_count as nat,
            ) matches Some((outs, _m)) && outs == tx.outputs@.map_values(|o: TxOutput| o@));
            if let Some(t) = dec_transaction(data@) {
                assert(tx@ == t);
            }
        }
        Ok(tx)
    }
}

impl BitcoinSerialize for LegacyTransaction {
    open spec fn serializable(&self) -> bool {
        transaction_wf(self@)
    }

    open spec fn encoding(&self) -> Seq<u8> {
        enc_transaction(self@)
    }

    /// Emits, in fixed order: version, input count, output count, lock
    /// time, then each input's encoding and each output's encoding in
    /// sequence order.
    fn serialize(&self) -> (r: Vec<u8>) {
        let mut v = u32_to_le_bytes(wire_word_of_i32(self.version));
        let mut count_in = u32_to_le_bytes(self.inputs.len() as u32);
        v.append(&mut count_in);
        let mut count_out = u32_to_le_bytes(self.outputs.len() as u32);
        v.append(&mut count_out);
        let mut lock = u32_to_le_bytes(self.lock_time);
        v.append(&mut lock);
        let ghost header = v@;
        proof {
            assert(header + enc_inputs(self@.inputs.subrange(0, 0)) =~= header);
        }
        let mut k: usize = 0;
        while k < self.inputs.len()
            invariant
                transaction_wf(self@),
                k <= self.inputs@.len(),
                v@ == header + enc_inputs(self@.inputs.subrange(0, k as int)),
            decreases self.inputs@.len() - k,
        {
            proof {
                assert(self@.inputs[k as int] == self.inputs@[k as int]@);
                assert(input_wf(self@.inputs[k as int]));
            }
            let mut encoded = self.inputs[k].serialize();
            v.append(&mut encoded);
            proof {
                assert(self@.inputs.subrange(0, k + 1) =~= self@.inputs.subrange(
                    0,
                    k as int,
                ).push(self@.inputs[k as int]));
                lemma_enc_inputs_push(self@.inputs.subrange(0, k as int), self@.inputs[k as int]);
            }
            k = k + 1;
        }
        proof {
            assert(self@.inputs.subrange(0, self@.inputs.len() as int) =~= self@.inputs);
        }
        let ghost with_inputs = v@;
        proof {
            assert(with_inputs + enc_outputs(self@.outputs.subrange(0, 0)) =~= with_inputs);
        }
        let mut j: usize = 0;
        while j < self.outputs.len()
            invariant
                transaction_wf(self@),
                j <= self.outputs@.len(),
                v@ == with_inputs + enc_outputs(self@.outputs.subrange(0, j as int)),
            decreases self.outputs@.len() - j,
        {
            proof {
                assert(self@.outputs[j as int] == self.outputs@[j as int]@);
                assert(output_wf(self@.outputs[j as int]));
            }
            let mut encoded = self.outputs[j].serialize();
            v.append(&mut encoded);
            proof {
                assert(self@.outputs.subrange(0, j + 1) =~= self@.outputs.subrange(
                    0,
                    j as int,
                ).push(self@.outputs[j as int]));
                lemma_enc_outputs_push(
                    self@.outputs.subrange(0, j as int),
                    self@.outputs[j as int],
                );
            }
            j = j + 1;
        }
        proof {
            assert(self@.outputs.subrange(0, self@.outputs.len() as int) =~= self@.outputs);
            assert(v@ =~= enc_transaction(self@));
        }
        v
    }
}

/// A single-use, fluent builder for a transaction record.
///
/// The version defaults to 1 and the lock time to 0; both sequences start
/// empty.  Every mutating operation consumes the builder and returns it,
/// and `build` consumes it for good.
pub struct LegacyTransactionBuilder {
    pub version: i32,
    pub inputs: Vec<TxInput>,
    pub outputs: Vec<TxOutput>,
    pub lock_time: u32,
}

impl Default for LegacyTransactionBuilder {
    /// The starting state: version 1, no inputs, no outputs, lock time 0.
    fn default() -> (r: Self)
        ensures
            r.version == 1,
            r.inputs@.len() == 0,
            r.outputs@.len() == 0,
            r.lock_time == 0,
    {
        LegacyTransactionBuilder {
            version: 1,
            inputs: Vec::new(),
            outputs: Vec::new(),
            lock_time: 0,
        }
    }
}

impl LegacyTransactionBuilder {
    /// Starts from the default state.
    pub fn new() -> (r: Self)
        ensures
            r.version == 1,
            r.inputs@.len() == 0,
            r.outputs@.len() == 0,
            r.lock_time == 0,
    {
        Self::default()
    }

    /// Replaces the version, leaving every other field untouched.
    pub fn version(self, version: i32) -> (r: Self)
        ensures
            r.version == version,
            r.inputs == self.inputs,
            r.outputs == self.outputs,
            r.lock_time == self.lock_time,
    {
        LegacyTransactionBuilder {
            version,
            inputs: self.inputs,
            outputs: self.outputs,
            lock_time: self.lock_time,
        }
    }

    /// Appends one input, leaving every other field untouched.
    pub fn add_input(self, input: TxInput) -> (r: Self)
        ensures
            r.version == self.version,
            r.inputs@ == self.inputs@.push(input),
            r.outputs == self.outputs,
            r.lock_time == self.lock_time,
    {
        let mut inputs = self.inputs;
        inputs.push(input);
        LegacyTransactionBuilder {
            version: self.version,
            inputs,
            outputs: self.outputs,
            lock_time: self.lock_time,
        }
    }

    /// Appends one output, leaving every other field untouched.
    pub fn add_output(self, output: TxOutput) -> (r: Self)
        ensures
            r.version == self.version,
            r.inputs == self.inputs,
            r.outputs@ == self.outputs@.push(output),
            r.lock_time == self.lock_time,
    {
        let mut outputs = self.outputs;
        outputs.push(output);
        LegacyTransactionBuilder {
            version: self.version,
            inputs: self.inputs,
            outputs,
            lock_time: self.lock_time,
        }
    }

    /// Replaces the lock time, leaving every other field untouched.
    pub fn lock_time(self, lock_time: u32) -> (r: Self)
        ensures
            r.version == self.version,
            r.inputs == self.inputs,
            r.outputs == self.outputs,
            r.lock_time == lock_time,
    {
        LegacyTransactionBuilder {
            version: self.version,
            inputs: self.inputs,
            outputs: self.outputs,
            lock_time,
        }
    }

    /// Finalizes the accumulated fields into an immutable record,
    /// consuming the builder.
    pub fn build(self) -> (r: LegacyTransaction)
        ensures
            r.version == self.version,
            r.inputs == self.inputs,
            r.outputs == self.outputs,
            r.lock_time == self.lock_time,
    {
        LegacyTransaction {
            version: self.version,
            inputs: self.inputs,
            outputs: self.outputs,
            lock_time: self.lock_time,
        }
    }
}

} // verus!
