//! Properties that relate several calls of the wallet's operations.

use vstd::prelude::*;
use crate::custody::{authorized_by, send_result, sign_result, SendOutcome, WalletError, WalletModel};
use crate::codec::{decoded_from, encodable, lemma_parse_enc_tx};
use crate::sighash::enc_tx;
use crate::tx::{is_null_txid, SignedTransaction, TxModel, TxOutPoint, UnsignedTransaction};

verus! {

/// Signing one unsigned transaction twice with the same key succeeds both
/// times, and both results authorize it against the same locking script;
/// here the two are even equal, the signatures being deterministic.
pub proof fn lemma_sign_twice(
    w: WalletModel,
    t: TxModel,
    r1: Result<SignedTransaction, WalletError>,
    r2: Result<SignedTransaction, WalletError>,
)
    requires
        w.key is Some,
        sign_result(w, t, r1),
        sign_result(w, t, r2),
    ensures
        r1 matches Ok(s1) && authorized_by(s1@, t, w.script, w.key.unwrap()),
        r2 matches Ok(s2) && authorized_by(s2@, t, w.script, w.key.unwrap()),
        r1 matches Ok(s1) && r2 matches Ok(s2) && s1@ == s2@,
{
    if let (Ok(s1), Ok(s2)) = (r1, r2) {
        assert(s1@.inputs =~= s2@.inputs);
    }
}

/// A watch-only wallet hands back the spend unsigned, its one input with an
/// empty unlocking script; a full wallet over the same locking script then
/// authorizes exactly that transaction.
pub proof fn lemma_watch_only_then_sign(
    watch: WalletModel,
    full: WalletModel,
    amount: i64,
    dest: Seq<u8>,
    utxo: TxOutPoint,
    sent: Result<SendOutcome, WalletError>,
    signed: Result<SignedTransaction, WalletError>,
)
    requires
        watch.key is None,
        full.key is Some,
        full.script == watch.script,
        amount > 0,
        !is_null_txid(utxo.txid@),
        send_result(watch, amount, dest, utxo, sent),
    ensures
        sent matches Ok(SendOutcome::Unsigned(u)) && u@.inputs.len() == 1 && u@.inputs[0].unlocking.len() == 0,
        sent matches Ok(SendOutcome::Unsigned(u)) && (sign_result(full, u@, signed) ==> (signed matches Ok(s)
            && authorized_by(s@, u@, watch.script, full.key.unwrap()))),
{
}

/// A wallet without a key refuses to sign any transaction at all.
pub proof fn lemma_watch_only_never_signs(w: WalletModel, t: TxModel, r: Result<SignedTransaction, WalletError>)
    requires
        w.key is None,
        sign_result(w, t, r),
    ensures
        r == Err::<SignedTransaction, WalletError>(WalletError::NoSigningKey),
{
}

/// Serializing an unsigned transaction and reading the bytes back gives the
/// same transaction, and signing that copy gives what signing the original
/// gives.
pub proof fn lemma_round_trip_then_sign(
    w: WalletModel,
    t: UnsignedTransaction,
    bytes: Seq<u8>,
    decoded: Option<UnsignedTransaction>,
    direct: Result<SignedTransaction, WalletError>,
    resigned: Result<SignedTransaction, WalletError>,
)
    requires
        encodable(t@),
        bytes == enc_tx(t@),
        decoded_from(bytes, decoded),
        sign_result(w, t@, direct),
        decoded matches Some(d) ==> sign_result(w, d@, resigned),
    ensures
        decoded matches Some(d) && d@ == t@,
        match (direct, resigned) {
            (Ok(a), Ok(b)) => a@ == b@,
            (Err(e1), Err(e2)) => e1 == e2,
            _ => false,
        },
{
    lemma_parse_enc_tx(t@);
    if w.key is Some {
        lemma_sign_twice(w, t@, direct, resigned);
    }
}

} // verus!
