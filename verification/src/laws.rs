use vstd::bytes::lemma_auto_spec_u32_to_from_le_bytes;
use vstd::bytes::lemma_auto_spec_u64_to_from_le_bytes;
use vstd::bytes::spec_u32_from_le_bytes;
use vstd::bytes::spec_u32_to_le_bytes;
use vstd::bytes::spec_u64_to_le_bytes;
use vstd::prelude::*;

use crate::wire::dec_input;
use crate::wire::dec_inputs;
use crate::wire::dec_outpoint;
use crate::wire::dec_output;
use crate::wire::dec_outputs;
use crate::wire::dec_transaction;
use crate::wire::enc_input;
use crate::wire::enc_inputs;
use crate::wire::enc_outpoint;
use crate::wire::enc_output;
use crate::wire::enc_outputs;
use crate::wire::enc_transaction;
use crate::wire::i32_wire_word;
use crate::wire::input_wf;
use crate::wire::lemma_i32_wire_word_round_trip;
use crate::wire::outpoint_wf;
use crate::wire::output_wf;
use crate::wire::transaction_wf;
use crate::wire::OutPointModel;
use crate::wire::TransactionModel;
use crate::wire::TxInputModel;
use crate::wire::TxOutputModel;

verus! {

// ---------------------------------------------------------------------------
// Decoding the encoding of one entity, with arbitrary bytes behind it
// ---------------------------------------------------------------------------

/// Decoding a buffer that starts with an encoded out-point yields that
/// out-point and consumes exactly its 36 encoded bytes, whatever follows.
pub proof fn lemma_dec_outpoint_with_suffix(p: OutPointModel, rest: Seq<u8>)
    requires
        outpoint_wf(p),
    ensures
        enc_outpoint(p).len() == 36,
        dec_outpoint(enc_outpoint(p) + rest) == Some((p, 36int)),
{
    lemma_auto_spec_u32_to_from_le_bytes();
    let d = enc_outpoint(p) + rest;
    assert(d.subrange(0, 32) =~= p.txid);
    assert(d.subrange(32, 36) =~= spec_u32_to_le_bytes(p.vout));
}

/// Decoding a buffer that starts with an encoded input yields that input
/// and consumes exactly its `36 + 4 + script_len + 4` encoded bytes,
/// whatever follows.
pub proof fn lemma_dec_input_with_suffix(i: TxInputModel, rest: Seq<u8>)
    requires
        input_wf(i),
    ensures
        enc_input(i).len() == 44 + i.script_sig.len(),
        dec_input(enc_input(i) + rest) == Some((i, 44 + i.script_sig.len() as int)),
{
    lemma_auto_spec_u32_to_from_le_bytes();
    let sl = i.script_sig.len() as int;
    let d = enc_input(i) + rest;
    assert(enc_outpoint(i.previous_output).len() == 36);
    assert(enc_input(i).len() == 44 + sl);
    assert(d.subrange(0, 32) =~= i.previous_output.txid);
    assert(d.subrange(32, 36) =~= spec_u32_to_le_bytes(i.previous_output.vout));
    assert(d.subrange(36, 40) =~= spec_u32_to_le_bytes(i.script_sig.len() as u32));
    assert(spec_u32_from_le_bytes(d.subrange(36, 40)) as int == sl);
    assert(d.subrange(40, 40 + sl) =~= i.script_sig);
    assert(d.subrange(40 + sl, 44 + sl) =~= spec_u32_to_le_bytes(i.sequence));
    assert(OutPointModel {
        txid: d.subrange(0, 32),
        vout: spec_u32_from_le_bytes(d.subrange(32, 36)),
    } == i.previous_output);
}

/// Decoding a buffer that starts with an encoded output yields that output
/// and consumes exactly its `8 + 4 + script_len` encoded bytes, whatever
/// follows.
pub proof fn lemma_dec_output_with_suffix(o: TxOutputModel, rest: Seq<u8>)
    requires
        output_wf(o),
    ensures
        enc_output(o).len() == 12 + o.script_pubkey.len(),
        dec_output(enc_output(o) + rest) == Some((o, 12 + o.script_pubkey.len() as int)),
{
    lemma_auto_spec_u32_to_from_le_bytes();
    lemma_auto_spec_u64_to_from_le_bytes();
    let sl = o.script_pubkey.len() as int;
    let d = enc_output(o) + rest;
    assert(enc_output(o).len() == 12 + sl);
    assert(d.subrange(0, 8) =~= spec_u64_to_le_bytes(o.value));
    assert(d.subrange(8, 12) =~= spec_u32_to_le_bytes(o.script_pubkey.len() as u32));
    assert(spec_u32_from_le_bytes(d.subrange(8, 12)) as int == sl);
    assert(d.subrange(12, 12 + sl) =~= o.script_pubkey);
}

// ---------------------------------------------------------------------------
// Decoding a strict prefix of one entity's encoding fails
// ---------------------------------------------------------------------------

/// Cutting an encoded input anywhere before its end makes its decode fail.
pub proof fn lemma_dec_input_truncated(i: TxInputModel, k: int)
    requires
        input_wf(i),
        0 <= k < enc_input(i).len(),
    ensures
        dec_input(enc_input(i).subrange(0, k)) == None::<(TxInputModel, int)>,
{
    lemma_auto_spec_u32_to_from_le_bytes();
    let sl = i.script_sig.len() as int;
    let e = enc_input(i);
    assert(enc_outpoint(i.previous_output).len() == 36);
    assert(e.len() == 44 + sl);
    let d = e.subrange(0, k);
    if k >= 40 {
        assert(d.subrange(36, 40) =~= spec_u32_to_le_bytes(i.script_sig.len() as u32));
        assert(spec_u32_from_le_bytes(d.subrange(36, 40)) as int == sl);
        assert(d.len() < 44 + sl);
    }
}

/// Cutting an encoded output anywhere before its end makes its decode fail.
pub proof fn lemma_dec_output_truncated(o: TxOutputModel, k: int)
    requires
        output_wf(o),
        0 <= k < enc_output(o).len(),
    ensures
        dec_output(enc_output(o).subrange(0, k)) == None::<(TxOutputModel, int)>,
{
    lemma_auto_spec_u32_to_from_le_bytes();
    lemma_auto_spec_u64_to_from_le_bytes();
    let sl = o.script_pubkey.len() as int;
    let e = enc_output(o);
    assert(e.len() == 12 + sl);
    let d = e.subrange(0, k);
    if k >= 12 {
        assert(d.subrange(8, 12) =~= spec_u32_to_le_bytes(o.script_pubkey.len() as u32));
        assert(spec_u32_from_le_bytes(d.subrange(8, 12)) as int == sl);
        assert(d.len() < 12 + sl);
    }
}

// ---------------------------------------------------------------------------
// Decoding runs of entities
// ---------------------------------------------------------------------------

/// Decoding a buffer that starts with the concatenated encodings of a run
/// of inputs yields exactly that run and consumes exactly its bytes,
/// whatever follows.
pub proof fn lemma_dec_inputs_with_suffix(s: Seq<TxInputModel>, rest: Seq<u8>)
    requires
        forall|k: int| 0 <= k < s.len() ==> input_wf(#[trigger] s[k]),
    ensures
        dec_inputs(enc_inputs(s) + rest, s.len()) == Some((s, enc_inputs(s).len() as int)),
    decreases s.len(),
{
    if s.len() == 0 {
        assert(s =~= Seq::<TxInputModel>::empty());
        assert(enc_inputs(s).len() == 0);
    } else {
        let e0 = enc_input(s[0]);
        let tail = enc_inputs(s.drop_first()) + rest;
        let d = enc_inputs(s) + rest;
        assert(d =~= e0 + tail);
        lemma_dec_input_with_suffix(s[0], tail);
        assert(d.subrange(e0.len() as int, d.len() as int) =~= tail);
        assert forall|k: int| 0 <= k < s.drop_first().len() implies input_wf(
            #[trigger] s.drop_first()[k],
        ) by {
            assert(s.drop_first()[k] == s[k + 1]);
        }
        lemma_dec_inputs_with_suffix(s.drop_first(), rest);
        assert(seq![s[0]] + s.drop_first() =~= s);
    }
}

/// Decoding a buffer that starts with the concatenated encodings of a run
/// of outputs yields exactly that run and consumes exactly its bytes,
/// whatever follows.
pub proof fn lemma_dec_outputs_with_suffix(s: Seq<TxOutputModel>, rest: Seq<u8>)
    requires
        forall|k: int| 0 <= k < s.len() ==> output_wf(#[trigger] s[k]),
    ensures
        dec_outputs(enc_outputs(s) + rest, s.len()) == Some((s, enc_outputs(s).len() as int)),
    decreases s.len(),
{
    if s.len() == 0 {
        assert(s =~= Seq::<TxOutputModel>::empty());
        assert(enc_outputs(s).len() == 0);
    } else {
        let e0 = enc_output(s[0]);
        let tail = enc_outputs(s.drop_first()) + rest;
        let d = enc_outputs(s) + rest;
        assert(d =~= e0 + tail);
        lemma_dec_output_with_suffix(s[0], tail);
        assert(d.subrange(e0.len() as int, d.len() as int) =~= tail);
        assert forall|k: int| 0 <= k < s.drop_first().len() implies output_wf(
            #[trigger] s.drop_first()[k],
        ) by {
            assert(s.drop_first()[k] == s[k + 1]);
        }
        lemma_dec_outputs_with_suffix(s.drop_first(), rest);
        assert(seq![s[0]] + s.drop_first() =~= s);
    }
}

/// Decoding a strict prefix of a non-empty run of encoded inputs fails.
pub proof fn lemma_dec_inputs_truncated(s: Seq<TxInputModel>, d: Seq<u8>)
    requires
        forall|k: int| 0 <= k < s.len() ==> input_wf(#[trigger] s[k]),
        d.len() < enc_inputs(s).len(),
        d == enc_inputs(s).subrange(0, d.len() as int),
    ensures
        dec_inputs(d, s.len()) == None::<(Seq<TxInputModel>, int)>,
    decreases s.len(),
{
    if s.len() == 0 {
        assert(false);
    } else {
        let e0 = enc_input(s[0]);
        let erest = enc_inputs(s.drop_first());
        lemma_dec_input_with_suffix(s[0], erest);
        assert forall|k: int| 0 <= k < s.drop_first().len() implies input_wf(
            #[trigger] s.drop_first()[k],
        ) by {
            assert(s.drop_first()[k] == s[k + 1]);
        }
        if d.len() < e0.len() {
            assert(d =~= e0.subrange(0, d.len() as int));
            lemma_dec_input_truncated(s[0], d.len() as int);
        } else {
            let d2 = d.subrange(e0.len() as int, d.len() as int);
            assert(d =~= e0 + d2);
            lemma_dec_input_with_suffix(s[0], d2);
            assert(d2.len() < erest.len());
            assert(d2 =~= erest.subrange(0, d2.len() as int));
            lemma_dec_inputs_truncated(s.drop_first(), d2);
        }
    }
}

/// Decoding a strict prefix of a non-empty run of encoded outputs fails.
pub proof fn lemma_dec_outputs_truncated(s: Seq<TxOutputModel>, d: Seq<u8>)
    requires
        forall|k: int| 0 <= k < s.len() ==> output_wf(#[trigger] s[k]),
        d.len() < enc_outputs(s).len(),
        d == enc_outputs(s).subrange(0, d.len() as int),
    ensures
        dec_outputs(d, s.len()) == None::<(Seq<TxOutputModel>, int)>,
    decreases s.len(),
{
    if s.len() == 0 {
        assert(false);
    } else {
        let e0 = enc_output(s[0]);
        let erest = enc_outputs(s.drop_first());
        lemma_dec_output_with_suffix(s[0], erest);
        assert forall|k: int| 0 <= k < s.drop_first().len() implies output_wf(
            #[trigger] s.drop_first()[k],
        ) by {
            assert(s.drop_first()[k] == s[k + 1]);
        }
        if d.len() < e0.len() {
            assert(d =~= e0.subrange(0, d.len() as int));
            lemma_dec_output_truncated(s[0], d.len() as int);
        } else {
            let d2 = d.subrange(e0.len() as int, d.len() as int);
            assert(d =~= e0 + d2);
            lemma_dec_output_with_suffix(s[0], d2);
            assert(d2.len() < erest.len());
            assert(d2 =~= erest.subrange(0, d2.len() as int));
            lemma_dec_outputs_truncated(s.drop_first(), d2);
        }
    }
}

// ---------------------------------------------------------------------------
// The round-trip law
// ---------------------------------------------------------------------------

/// Round-trip law: decoding the encoding of any well-formed transaction
/// record yields exactly that record — same version, same input and output
/// sequences field for field, same lock time.
pub proof fn lemma_transaction_round_trip(t: TransactionModel)
    requires
        transaction_wf(t),
    ensures
        enc_transaction(t).len() == 16 + enc_inputs(t.inputs).len() + enc_outputs(
            t.outputs,
        ).len(),
        dec_transaction(enc_transaction(t)) == Some(t),
{
    lemma_auto_spec_u32_to_from_le_bytes();
    let w1 = spec_u32_to_le_bytes(i32_wire_word(t.version));
    let w2 = spec_u32_to_le_bytes(t.inputs.len() as u32);
    let w3 = spec_u32_to_le_bytes(t.outputs.len() as u32);
    let w4 = spec_u32_to_le_bytes(t.lock_time);
    let ib = enc_inputs(t.inputs);
    let ob = enc_outputs(t.outputs);
    let d = enc_transaction(t);
    assert(d.len() == 16 + ib.len() + ob.len());
    assert(d.subrange(0, 4) =~= w1);
    assert(d.subrange(4, 8) =~= w2);
    assert(d.subrange(8, 12) =~= w3);
    assert(d.subrange(12, 16) =~= w4);
    lemma_i32_wire_word_round_trip(t.version);
    assert(d.subrange(16, d.len() as int) =~= ib + ob);
    lemma_dec_inputs_with_suffix(t.inputs, ob);
    assert((t.inputs.len() as u32) as nat == t.inputs.len());
    assert((t.outputs.len() as u32) as nat == t.outputs.len());
    assert(d.subrange(16 + ib.len() as int, d.len() as int) =~= ob);
    assert(ob =~= ob + Seq::<u8>::empty());
    lemma_dec_outputs_with_suffix(t.outputs, Seq::<u8>::empty());
}

// ---------------------------------------------------------------------------
// The truncation law
// ---------------------------------------------------------------------------

/// Truncation law: cutting the valid encoding of any well-formed record
/// anywhere before its end makes the whole decode fail; no partial record
/// is ever produced.
pub proof fn lemma_transaction_truncation_fails(t: TransactionModel, k: int)
    requires
        transaction_wf(t),
        0 <= k < enc_transaction(t).len(),
    ensures
        dec_transaction(enc_transaction(t).subrange(0, k)) == None::<TransactionModel>,
{
    lemma_auto_spec_u32_to_from_le_bytes();
    let e = enc_transaction(t);
    let d = e.subrange(0, k);
    if k >= 16 {
        let ib = enc_inputs(t.inputs);
        let ob = enc_outputs(t.outputs);
        assert(e.len() == 16 + ib.len() + ob.len());
        assert(d.subrange(4, 8) =~= spec_u32_to_le_bytes(t.inputs.len() as u32));
        assert(d.subrange(8, 12) =~= spec_u32_to_le_bytes(t.outputs.len() as u32));
        assert((t.inputs.len() as u32) as nat == t.inputs.len());
        assert((t.outputs.len() as u32) as nat == t.outputs.len());
        let tail = d.subrange(16, k);
        if k - 16 < ib.len() {
            assert(tail =~= ib.subrange(0, k - 16));
            lemma_dec_inputs_truncated(t.inputs, tail);
        } else {
            let cut = k - 16 - ib.len() as int;
            let tail_o = tail.subrange(ib.len() as int, tail.len() as int);
            assert(tail =~= ib + tail_o);
            lemma_dec_inputs_with_suffix(t.inputs, tail_o);
            assert(cut < ob.len());
            assert(tail_o =~= ob.subrange(0, cut));
            lemma_dec_outputs_truncated(t.outputs, tail_o);
            assert(d.subrange(16 + ib.len() as int, d.len() as int) =~= tail_o);
        }
    }
}

// ---------------------------------------------------------------------------
// The offset-consistency law
// ---------------------------------------------------------------------------

/// Offset consistency for out-points: decoding an exact encoding consumes
/// exactly the encoded size, here always 36 bytes.
pub proof fn lemma_outpoint_consumes_exact(p: OutPointModel)
    requires
        outpoint_wf(p),
    ensures
        enc_outpoint(p).len() == 36,
        dec_outpoint(enc_outpoint(p)) == Some((p, 36int)),
{
    lemma_dec_outpoint_with_suffix(p, Seq::<u8>::empty());
    assert(enc_outpoint(p) + Seq::<u8>::empty() =~= enc_outpoint(p));
}

/// Offset consistency for inputs: decoding an exact encoding consumes
/// exactly the encoded size, `36 + 4 + script_len + 4`.
pub proof fn lemma_input_consumes_exact(i: TxInputModel)
    requires
        input_wf(i),
    ensures
        enc_input(i).len() == 44 + i.script_sig.len(),
        dec_input(enc_input(i)) == Some((i, enc_input(i).len() as int)),
{
    lemma_dec_input_with_suffix(i, Seq::<u8>::empty());
    assert(enc_input(i) + Seq::<u8>::empty() =~= enc_input(i));
}

/// Offset consistency for outputs: decoding an exact encoding consumes
/// exactly the encoded size, `8 + 4 + script_len`.
pub proof fn lemma_output_consumes_exact(o: TxOutputModel)
    requires
        output_wf(o),
    ensures
        enc_output(o).len() == 12 + o.script_pubkey.len(),
        dec_output(enc_output(o)) == Some((o, enc_output(o).len() as int)),
{
    lemma_dec_output_with_suffix(o, Seq::<u8>::empty());
    assert(enc_output(o) + Seq::<u8>::empty() =~= enc_output(o));
}

/// Offset consistency across a concatenation: two independently encoded
/// inputs laid end to end decode back, in order, each consuming exactly
/// its own encoded size.
pub proof fn lemma_sequential_input_decode(a: TxInputModel, b: TxInputModel)
    requires
        input_wf(a),
        input_wf(b),
    ensures
        ({
            let buf = enc_input(a) + enc_input(b);
            &&& dec_input(buf) == Some((a, enc_input(a).len() as int))
            &&& dec_input(buf.subrange(enc_input(a).len() as int, buf.len() as int)) == Some(
                (b, enc_input(b).len() as int),
            )
        }),
{
    lemma_dec_input_with_suffix(a, enc_input(b));
    let buf = enc_input(a) + enc_input(b);
    assert(buf.subrange(enc_input(a).len() as int, buf.len() as int) =~= enc_input(b));
    lemma_input_consumes_exact(b);
}

} // verus!
