use txcodec::BitcoinError;
use txcodec::BitcoinSerialize;
use txcodec::LegacyTransaction;
use txcodec::LegacyTransactionBuilder;
use txcodec::OutPoint;
use txcodec::Point;
use txcodec::TxInput;
use txcodec::TxOutput;

fn sample_input(fill: u8, script: Vec<u8>, sequence: u32) -> TxInput {
    TxInput {
        previous_output: OutPoint { txid: [fill; 32], vout: fill as u32 },
        script_sig: script,
        sequence,
    }
}

#[test]
fn outpoint_parse_rejects_35_bytes() {
    let buf = vec![0u8; 35];
    let r = OutPoint::parse(&buf);
    assert!(matches!(r, Err(BitcoinError::InvalidTransaction)));
}

#[test]
fn outpoint_parse_accepts_36_zero_bytes() {
    let buf = vec![0u8; 36];
    let (p, used) = OutPoint::parse(&buf).unwrap();
    assert_eq!(used, 36);
    assert_eq!(p.vout, 0);
    assert_eq!(p.txid, [0u8; 32]);
}

#[test]
fn outpoint_round_trip() {
    let p = OutPoint { txid: [0xabu8; 32], vout: 0x01020304 };
    let bytes = p.serialize();
    assert_eq!(bytes.len(), 36);
    assert_eq!(&bytes[0..32], &[0xabu8; 32]);
    assert_eq!(&bytes[32..36], &[0x04, 0x03, 0x02, 0x01]);
    let (p2, used) = OutPoint::parse(&bytes).unwrap();
    assert_eq!(used, 36);
    assert_eq!(p2.txid, p.txid);
    assert_eq!(p2.vout, p.vout);
}

#[test]
fn txoutput_boundary_value_empty_script() {
    let o = TxOutput { value: 5_000_000_000u64, script_pubkey: vec![] };
    let bytes = o.serialize();
    let expected: Vec<u8> = vec![
        0x00, 0xf2, 0x05, 0x2a, 0x01, 0x00, 0x00, 0x00, 0x00, 0x00, 0x00, 0x00,
    ];
    assert_eq!(bytes, expected);
    let (o2, used) = TxOutput::parse(&bytes).unwrap();
    assert_eq!(used, 12);
    assert_eq!(o2.value, 5_000_000_000u64);
    assert!(o2.script_pubkey.is_empty());
}

#[test]
fn txoutput_parse_rejects_short_buffers() {
    let buf = vec![0u8; 11];
    assert!(matches!(TxOutput::parse(&buf), Err(BitcoinError::InvalidTransaction)));
    // announced script length 1, but no script byte present
    let buf2: Vec<u8> = vec![0, 0, 0, 0, 0, 0, 0, 0, 1, 0, 0, 0];
    assert!(matches!(TxOutput::parse(&buf2), Err(BitcoinError::InvalidTransaction)));
}

#[test]
fn txinput_round_trip_reports_exact_size() {
    let i = sample_input(0x11, vec![1, 2, 3, 4, 5], 0xfffffffe);
    let bytes = i.serialize();
    assert_eq!(bytes.len(), 36 + 4 + 5 + 4);
    let (i2, used) = TxInput::parse(&bytes).unwrap();
    assert_eq!(used, bytes.len());
    assert_eq!(i2.previous_output.txid, i.previous_output.txid);
    assert_eq!(i2.previous_output.vout, i.previous_output.vout);
    assert_eq!(i2.script_sig, i.script_sig);
    assert_eq!(i2.sequence, i.sequence);
}

#[test]
fn txinput_parse_rejects_short_buffers() {
    let buf = vec![0u8; 39];
    assert!(matches!(TxInput::parse(&buf), Err(BitcoinError::InvalidTransaction)));
    // announced script length 2 but only one script byte and no sequence
    let mut buf2 = vec![0u8; 40];
    buf2[36] = 2;
    buf2.push(0xaa);
    assert!(matches!(TxInput::parse(&buf2), Err(BitcoinError::InvalidTransaction)));
}

#[test]
fn sequential_inputs_decode_in_order() {
    let a = sample_input(0x01, vec![9, 8, 7], 100);
    let b = sample_input(0x02, vec![], 200);
    let mut buf = a.serialize();
    let len_a = buf.len();
    buf.extend(b.serialize());
    let (a2, used_a) = TxInput::parse(&buf).unwrap();
    assert_eq!(used_a, len_a);
    assert_eq!(a2.script_sig, a.script_sig);
    assert_eq!(a2.sequence, a.sequence);
    let (b2, used_b) = TxInput::parse(&buf[used_a..]).unwrap();
    assert_eq!(used_a + used_b, buf.len());
    assert_eq!(b2.previous_output.txid, b.previous_output.txid);
    assert_eq!(b2.script_sig, b.script_sig);
    assert_eq!(b2.sequence, b.sequence);
}

#[test]
fn empty_transaction_encodes_to_16_bytes() {
    let tx = LegacyTransaction { version: 1, inputs: vec![], outputs: vec![], lock_time: 0 };
    let bytes = tx.serialize();
    let expected: Vec<u8> = vec![1, 0, 0, 0, 0, 0, 0, 0, 0, 0, 0, 0, 0, 0, 0, 0];
    assert_eq!(bytes, expected);
    let tx2 = LegacyTransaction::parse(&bytes).unwrap();
    assert_eq!(tx2.version, 1);
    assert_eq!(tx2.lock_time, 0);
    assert!(tx2.inputs.is_empty());
    assert!(tx2.outputs.is_empty());
}

#[test]
fn transaction_parse_rejects_short_header() {
    let buf = vec![0u8; 15];
    assert!(matches!(LegacyTransaction::parse(&buf), Err(BitcoinError::InvalidTransaction)));
}

#[test]
fn builder_defaults() {
    let b = LegacyTransactionBuilder::new();
    assert_eq!(b.version, 1);
    assert_eq!(b.lock_time, 0);
    assert!(b.inputs.is_empty());
    assert!(b.outputs.is_empty());
    let b2 = LegacyTransaction::builder();
    assert_eq!(b2.version, 1);
    assert_eq!(b2.lock_time, 0);
}

#[test]
fn builder_chain_matches_manual_layout() {
    let input = TxInput {
        previous_output: OutPoint { txid: [7u8; 32], vout: 1 },
        script_sig: vec![0xaa, 0xbb, 0xcc],
        sequence: 0xfffffffe,
    };
    let output = TxOutput { value: 1000, script_pubkey: vec![] };
    let tx = LegacyTransaction::builder()
        .version(2)
        .add_input(input)
        .add_output(output)
        .lock_time(0)
        .build();
    let bytes = tx.serialize();
    let mut expected: Vec<u8> = vec![2, 0, 0, 0, 1, 0, 0, 0, 1, 0, 0, 0, 0, 0, 0, 0];
    expected.extend([7u8; 32]);
    expected.extend([1, 0, 0, 0]);
    expected.extend([3, 0, 0, 0]);
    expected.extend([0xaa, 0xbb, 0xcc]);
    expected.extend([0xfe, 0xff, 0xff, 0xff]);
    expected.extend([0xe8, 0x03, 0, 0, 0, 0, 0, 0]);
    expected.extend([0, 0, 0, 0]);
    assert_eq!(bytes, expected);
}

#[test]
fn transaction_round_trip_with_negative_version() {
    let tx = LegacyTransaction {
        version: -2,
        inputs: vec![
            sample_input(0x21, vec![1, 2], 11),
            sample_input(0x22, vec![], 22),
        ],
        outputs: vec![
            TxOutput { value: 42, script_pubkey: vec![5, 6, 7] },
            TxOutput { value: u64::MAX, script_pubkey: vec![] },
        ],
        lock_time: 0xdeadbeef,
    };
    let bytes = tx.serialize();
    let tx2 = LegacyTransaction::parse(&bytes).unwrap();
    assert_eq!(tx2.version, -2);
    assert_eq!(tx2.lock_time, 0xdeadbeef);
    assert_eq!(tx2.inputs.len(), 2);
    assert_eq!(tx2.outputs.len(), 2);
    for k in 0usize..2 {
        assert_eq!(tx2.inputs[k].previous_output.txid, tx.inputs[k].previous_output.txid);
        assert_eq!(tx2.inputs[k].previous_output.vout, tx.inputs[k].previous_output.vout);
        assert_eq!(tx2.inputs[k].script_sig, tx.inputs[k].script_sig);
        assert_eq!(tx2.inputs[k].sequence, tx.inputs[k].sequence);
        assert_eq!(tx2.outputs[k].value, tx.outputs[k].value);
        assert_eq!(tx2.outputs[k].script_pubkey, tx.outputs[k].script_pubkey);
    }
}

#[test]
fn every_truncation_of_a_valid_buffer_fails() {
    let tx = LegacyTransaction {
        version: 3,
        inputs: vec![sample_input(0x31, vec![0xde, 0xad], 7)],
        outputs: vec![TxOutput { value: 9, script_pubkey: vec![1] }],
        lock_time: 77,
    };
    let bytes = tx.serialize();
    for k in 0usize..bytes.len() {
        let r = LegacyTransaction::parse(&bytes[0..k]);
        assert!(matches!(r, Err(BitcoinError::InvalidTransaction)));
    }
}

#[test]
fn trailing_bytes_are_ignored() {
    let tx = LegacyTransaction {
        version: 1,
        inputs: vec![],
        outputs: vec![TxOutput { value: 5, script_pubkey: vec![] }],
        lock_time: 0,
    };
    let mut bytes = tx.serialize();
    bytes.extend([0xff, 0xff, 0xff]);
    let tx2 = LegacyTransaction::parse(&bytes).unwrap();
    assert_eq!(tx2.outputs.len(), 1);
    assert_eq!(tx2.outputs[0].value, 5);
}

#[test]
fn point_new_holds_components() {
    let p = Point::new(3u32, 9u32);
    assert_eq!(p.x, 3);
    assert_eq!(p.y, 9);
    let q = Point::new("a", "b");
    assert_eq!(q.x, "a");
    assert_eq!(q.y, "b");
}
