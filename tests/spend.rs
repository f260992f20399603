use bdk::bitcoin::absolute::LockTime;
use bdk::bitcoin::secp256k1::ecdsa::Signature;
use bdk::bitcoin::secp256k1::{Message, PublicKey, Secp256k1};
use bdk::bitcoin::sighash::SighashCache;
use bdk::bitcoin::{OutPoint, Script, ScriptBuf, Sequence, Transaction, TxIn, TxOut, Txid, Witness};
use spendkit::custody::{SendOutcome, Wallet, WalletError};
use spendkit::sighash::signing_preimage;
use spendkit::tx::{ScriptRef, SignedTransaction, TxInput, TxOutPoint, TxOutput, UnsignedTransaction};

const DEST_ADDRESS: &str = "bc1qw508d6qejxtdg4y5r3zarvary0c5xw7kv8f3t4";

fn dest_script_bytes() -> Vec<u8> {
    let mut v = vec![0x00, 0x14];
    v.extend_from_slice(&[
        0x75, 0x1e, 0x76, 0xe8, 0x19, 0x91, 0x96, 0xd4, 0x54, 0x94, 0x1c, 0x45, 0xd1, 0xb3, 0xa3, 0x23, 0xf1, 0x43,
        0x3b, 0xd6,
    ]);
    v
}

fn key32() -> Vec<u8> {
    let mut k = vec![0x01, 0x02, 0x03];
    k.resize(32, 0);
    k
}

fn wallet_script() -> ScriptRef {
    ScriptRef::from_bytes(vec![0x76, 0xa9, 0x14, 0x11, 0x22, 0x33, 0x88, 0xac])
}

fn utxo() -> TxOutPoint {
    TxOutPoint { txid: [0xab; 32], vout: 1 }
}

fn to_bitcoin(tx: &UnsignedTransaction) -> Transaction {
    Transaction {
        version: tx.version as i32,
        lock_time: LockTime::from_consensus(tx.lock_time),
        input: tx
            .inputs
            .iter()
            .map(|i| TxIn {
                previous_output: OutPoint::new(
                    <Txid as bdk::bitcoin::hashes::Hash>::from_byte_array(i.previous_output.txid),
                    i.previous_output.vout,
                ),
                script_sig: ScriptBuf::from_bytes(i.unlocking_script.bytes.clone()),
                sequence: Sequence(i.sequence),
                witness: Witness::new(),
            })
            .collect(),
        output: tx
            .outputs
            .iter()
            .map(|o| TxOut { value: o.value, script_pubkey: ScriptBuf::from_bytes(o.locking_script.bytes.clone()) })
            .collect(),
    }
}

/// Checks that every input of `signed` carries a signature of `unsigned`
/// that the bitcoin library accepts for `lock`, under the key's public key.
fn verifies(signed: &SignedTransaction, unsigned: &UnsignedTransaction, lock: &ScriptRef, key: &[u8]) -> bool {
    let btc = to_bitcoin(unsigned);
    let cache = SighashCache::new(&btc);
    let secp = Secp256k1::new();
    let sk = bdk::bitcoin::secp256k1::SecretKey::from_slice(key).unwrap();
    let expected_pk = PublicKey::from_secret_key(&secp, &sk);
    for (j, input) in signed.inputs().iter().enumerate() {
        let s = &input.unlocking_script.bytes;
        let sig_len = s[0] as usize;
        let sig = &s[1..1 + sig_len];
        if sig[sig_len - 1] != 0x01 || s[1 + sig_len] != 33 || s.len() != 2 + sig_len + 33 {
            return false;
        }
        let pk = PublicKey::from_slice(&s[2 + sig_len..]).unwrap();
        if pk != expected_pk {
            return false;
        }
        let h = cache.legacy_signature_hash(j, Script::from_bytes(&lock.bytes), 1).unwrap();
        let msg = Message::from_slice(&bdk::bitcoin::hashes::Hash::to_byte_array(h)).unwrap();
        let der = Signature::from_der(&sig[..sig_len - 1]).unwrap();
        if secp.verify_ecdsa(&msg, &der, &pk).is_err() {
            return false;
        }
    }
    true
}

fn expected_unsigned(amount: u64) -> UnsignedTransaction {
    UnsignedTransaction {
        version: 2,
        inputs: vec![TxInput { previous_output: utxo(), unlocking_script: ScriptRef::empty(), sequence: 0 }],
        outputs: vec![TxOutput { value: amount, locking_script: ScriptRef::from_bytes(dest_script_bytes()) }],
        lock_time: 0,
    }
}

#[test]
fn full_wallet_send_returns_verifying_signed_transaction() {
    let w = Wallet::new(key32(), wallet_script()).unwrap();
    let dest = ScriptRef::from_bytes(dest_script_bytes());
    for amount in [1i64, 1000, 50_000, i64::MAX] {
        match w.send(amount, &dest, utxo()).unwrap() {
            SendOutcome::Signed(s) => {
                assert!(verifies(&s, &expected_unsigned(amount as u64), &wallet_script(), &key32()));
            }
            SendOutcome::Unsigned(_) => panic!("a full wallet signs"),
        }
    }
}

#[test]
fn full_wallet_send_to_address_example() {
    let w = Wallet::new(key32(), wallet_script()).unwrap();
    let s = match w.send_to_address(1000, DEST_ADDRESS, utxo()).unwrap() {
        SendOutcome::Signed(s) => s,
        SendOutcome::Unsigned(_) => panic!("a full wallet signs"),
    };
    assert_eq!(s.version(), 2);
    assert_eq!(s.lock_time(), 0);
    assert_eq!(s.outputs().len(), 1);
    assert_eq!(s.outputs()[0].value, 1000);
    assert_eq!(s.outputs()[0].locking_script.bytes, dest_script_bytes());
    assert_eq!(s.inputs().len(), 1);
    assert_eq!(s.inputs()[0].previous_output.txid, [0xab; 32]);
    assert_eq!(s.inputs()[0].previous_output.vout, 1);
    assert!(!s.inputs()[0].unlocking_script.bytes.is_empty());
    assert!(verifies(&s, &expected_unsigned(1000), &wallet_script(), &key32()));
}

#[test]
fn short_key_is_refused() {
    assert!(matches!(Wallet::new(vec![0x01, 0x02, 0x03], wallet_script()), Err(WalletError::InvalidKey)));
}

#[test]
fn empty_key_is_refused() {
    assert!(matches!(Wallet::new(vec![], wallet_script()), Err(WalletError::InvalidKey)));
}

#[test]
fn zero_key_is_refused() {
    assert!(matches!(Wallet::new(vec![0; 32], wallet_script()), Err(WalletError::InvalidKey)));
}

#[test]
fn watch_only_send_is_unsigned_and_signable_elsewhere() {
    let watch = Wallet::new_watch_only(wallet_script());
    assert!(!watch.has_signing_key());
    let dest = ScriptRef::from_bytes(dest_script_bytes());
    let u = match watch.send(1000, &dest, utxo()).unwrap() {
        SendOutcome::Unsigned(u) => u,
        SendOutcome::Signed(_) => panic!("a watch-only wallet never signs"),
    };
    assert_eq!(u.version, 2);
    assert_eq!(u.lock_time, 0);
    assert_eq!(u.inputs.len(), 1);
    assert!(u.inputs[0].unlocking_script.bytes.is_empty());
    assert_eq!(u.outputs.len(), 1);
    assert_eq!(u.outputs[0].value, 1000);
    let full = Wallet::new(key32(), wallet_script()).unwrap();
    assert!(full.has_signing_key());
    let s = full.sign_transaction(&u).unwrap();
    assert!(verifies(&s, &u, &wallet_script(), &key32()));
}

#[test]
fn watch_only_sign_fails_with_no_signing_key() {
    let watch = Wallet::new_watch_only(wallet_script());
    let empty = UnsignedTransaction { version: 1, inputs: vec![], outputs: vec![], lock_time: 7 };
    assert!(matches!(watch.sign_transaction(&empty), Err(WalletError::NoSigningKey)));
    assert!(matches!(watch.sign_transaction(&expected_unsigned(5)), Err(WalletError::NoSigningKey)));
}

#[test]
fn zero_or_negative_amount_is_invalid() {
    let dest = ScriptRef::from_bytes(dest_script_bytes());
    let full = Wallet::new(key32(), wallet_script()).unwrap();
    let watch = Wallet::new_watch_only(wallet_script());
    for w in [&full, &watch] {
        assert!(matches!(w.send(0, &dest, utxo()), Err(WalletError::InvalidAmount)));
        assert!(matches!(w.send(-5, &dest, utxo()), Err(WalletError::InvalidAmount)));
        assert!(matches!(w.send(i64::MIN, &dest, utxo()), Err(WalletError::InvalidAmount)));
        assert!(matches!(w.send_to_address(0, DEST_ADDRESS, utxo()), Err(WalletError::InvalidAmount)));
    }
}

#[test]
fn null_outpoint_is_refused() {
    let dest = ScriptRef::from_bytes(dest_script_bytes());
    let w = Wallet::new(key32(), wallet_script()).unwrap();
    let null = TxOutPoint { txid: [0; 32], vout: 0 };
    assert!(matches!(w.send(1000, &dest, null), Err(WalletError::NoUtxoAvailable)));
    assert!(null.is_null());
    assert!(!utxo().is_null());
}

#[test]
fn bad_address_is_refused() {
    let w = Wallet::new_watch_only(wallet_script());
    assert!(matches!(w.send_to_address(1000, "not an address", utxo()), Err(WalletError::InvalidAddress)));
}

#[test]
fn address_decodes_to_its_script() {
    let w = Wallet::new_watch_only(wallet_script());
    match w.send_to_address(1000, DEST_ADDRESS, utxo()).unwrap() {
        SendOutcome::Unsigned(u) => assert_eq!(u.outputs[0].locking_script.bytes, dest_script_bytes()),
        SendOutcome::Signed(_) => panic!("a watch-only wallet never signs"),
    }
}

#[test]
fn signing_twice_both_verify() {
    let w = Wallet::new(key32(), wallet_script()).unwrap();
    let u = expected_unsigned(777);
    let a = w.sign_transaction(&u).unwrap();
    let b = w.sign_transaction(&u).unwrap();
    assert!(verifies(&a, &u, &wallet_script(), &key32()));
    assert!(verifies(&b, &u, &wallet_script(), &key32()));
    assert_eq!(a.inputs()[0].unlocking_script.bytes, b.inputs()[0].unlocking_script.bytes);
}

#[test]
fn signing_leaves_other_fields_alone() {
    let w = Wallet::new(key32(), wallet_script()).unwrap();
    let u = UnsignedTransaction {
        version: 1,
        inputs: vec![
            TxInput { previous_output: utxo(), unlocking_script: ScriptRef::empty(), sequence: 9 },
            TxInput {
                previous_output: TxOutPoint { txid: [0x05; 32], vout: 3 },
                unlocking_script: ScriptRef::from_bytes(vec![0x51]),
                sequence: 0xffff_ffff,
            },
        ],
        outputs: vec![
            TxOutput { value: 10, locking_script: ScriptRef::from_bytes(vec![0x6a]) },
            TxOutput { value: 20, locking_script: ScriptRef::from_bytes(dest_script_bytes()) },
        ],
        lock_time: 500_000,
    };
    let s = w.sign_transaction(&u).unwrap();
    assert_eq!(s.version(), 1);
    assert_eq!(s.lock_time(), 500_000);
    assert_eq!(s.inputs().len(), 2);
    assert_eq!(s.inputs()[0].sequence, 9);
    assert_eq!(s.inputs()[1].sequence, 0xffff_ffff);
    assert_eq!(s.inputs()[1].previous_output.vout, 3);
    assert_eq!(s.outputs()[1].value, 20);
    assert!(verifies(&s, &u, &wallet_script(), &key32()));
}

#[test]
fn preimage_matches_the_bitcoin_layout() {
    let u = expected_unsigned(1000);
    let lock = wallet_script();
    let pre = signing_preimage(&u, 0, &lock);
    let mut expected: Vec<u8> = vec![2, 0, 0, 0, 1];
    expected.extend_from_slice(&[0xab; 32]);
    expected.extend_from_slice(&[1, 0, 0, 0]);
    expected.push(lock.bytes.len() as u8);
    expected.extend_from_slice(&lock.bytes);
    expected.extend_from_slice(&[0, 0, 0, 0]);
    expected.push(1);
    expected.extend_from_slice(&1000u64.to_le_bytes());
    expected.push(22);
    expected.extend_from_slice(&dest_script_bytes());
    expected.extend_from_slice(&[0, 0, 0, 0]);
    expected.extend_from_slice(&[1, 0, 0, 0]);
    assert_eq!(pre, expected);
}
