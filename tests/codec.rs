use spendkit::custody::Wallet;
use spendkit::tx::{ScriptRef, TxInput, TxOutPoint, TxOutput, UnsignedTransaction};

fn sample() -> UnsignedTransaction {
    UnsignedTransaction {
        version: 2,
        inputs: vec![
            TxInput {
                previous_output: TxOutPoint { txid: [0x11; 32], vout: 0x0102_0304 },
                unlocking_script: ScriptRef::empty(),
                sequence: 0xffff_fffe,
            },
            TxInput {
                previous_output: TxOutPoint { txid: [0x22; 32], vout: 7 },
                unlocking_script: ScriptRef::from_bytes(vec![0x51, 0x52]),
                sequence: 0,
            },
        ],
        outputs: vec![TxOutput { value: 0x0102_0304_0506_0708, locking_script: ScriptRef::from_bytes(vec![0x6a; 300]) }],
        lock_time: 650_000,
    }
}

fn same(a: &UnsignedTransaction, b: &UnsignedTransaction) -> bool {
    a.version == b.version
        && a.lock_time == b.lock_time
        && a.inputs.len() == b.inputs.len()
        && a.outputs.len() == b.outputs.len()
        && a.inputs.iter().zip(b.inputs.iter()).all(|(x, y)| {
            x.previous_output.txid == y.previous_output.txid
                && x.previous_output.vout == y.previous_output.vout
                && x.unlocking_script.bytes == y.unlocking_script.bytes
                && x.sequence == y.sequence
        })
        && a.outputs.iter().zip(b.outputs.iter()).all(|(x, y)| {
            x.value == y.value && x.locking_script.bytes == y.locking_script.bytes
        })
}

#[test]
fn encode_lays_out_every_field() {
    let bytes = sample().encode();
    let mut expected: Vec<u8> = vec![2, 0, 0, 0, 2];
    expected.extend_from_slice(&[0x11; 32]);
    expected.extend_from_slice(&[4, 3, 2, 1, 0]);
    expected.extend_from_slice(&[0xfe, 0xff, 0xff, 0xff]);
    expected.extend_from_slice(&[0x22; 32]);
    expected.extend_from_slice(&[7, 0, 0, 0, 2, 0x51, 0x52, 0, 0, 0, 0]);
    expected.push(1);
    expected.extend_from_slice(&[8, 7, 6, 5, 4, 3, 2, 1]);
    expected.extend_from_slice(&[0xfd, 0x2c, 0x01]);
    expected.extend_from_slice(&[0x6a; 300]);
    expected.extend_from_slice(&650_000u32.to_le_bytes());
    assert_eq!(bytes, expected);
}

#[test]
fn decode_inverts_encode() {
    let t = sample();
    let back = UnsignedTransaction::decode(&t.encode()).unwrap();
    assert!(same(&t, &back));
}

#[test]
fn decode_refuses_truncated_or_padded_bytes() {
    let bytes = sample().encode();
    assert!(UnsignedTransaction::decode(&bytes[..bytes.len() - 1]).is_none());
    let mut longer = bytes.clone();
    longer.push(0);
    assert!(UnsignedTransaction::decode(&longer).is_none());
    assert!(UnsignedTransaction::decode(&[]).is_none());
    assert!(UnsignedTransaction::decode(&[2, 0, 0, 0, 5]).is_none());
}

#[test]
fn round_trip_then_sign_matches_direct_signing() {
    let mut key = vec![0x01, 0x02, 0x03];
    key.resize(32, 0);
    let w = Wallet::new(key, ScriptRef::from_bytes(vec![0x51])).unwrap();
    let t = sample();
    let back = UnsignedTransaction::decode(&t.encode()).unwrap();
    let a = w.sign_transaction(&t).unwrap();
    let b = w.sign_transaction(&back).unwrap();
    assert_eq!(a.inputs().len(), b.inputs().len());
    for (x, y) in a.inputs().iter().zip(b.inputs().iter()) {
        assert_eq!(x.unlocking_script.bytes, y.unlocking_script.bytes);
        assert_eq!(x.sequence, y.sequence);
    }
    assert_eq!(a.outputs()[0].value, b.outputs()[0].value);
}
