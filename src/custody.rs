//! Wallets in two modes: a full wallet holds a secret key and signs; a
//! watch-only wallet builds the same transactions and never signs.

use vstd::prelude::*;
use crate::crypto::{
    address_script, address_script_of, compressed_pubkey, double_sha256, ecdsa_der_of, ecdsa_sign_der,
    is_valid_secret_key, pubkey_of, secret_key_ok, sha256d_of,
};
use crate::sighash::{sighash_preimage, signing_preimage, SIGHASH_ALL};
use crate::tx::{
    is_null_txid, outputs_view, InputModel, OutputModel, ScriptRef, SignedTransaction, TxInput, TxModel, TxOutPoint,
    TxOutput, UnsignedTransaction,
};

verus! {

/// The version that built transactions carry.
pub const TX_VERSION: u32 = 2;

/// The lock-time that built transactions carry.
pub const LOCK_TIME: u32 = 0;

/// The sequence number of a built transaction's input.
pub const INPUT_SEQUENCE: u32 = 0;

#[derive(Debug, Clone, Copy, PartialEq, Eq, Structural)]
pub enum WalletError {
    /// The amount to send is zero or negative.
    InvalidAmount,
    /// The destination address does not decode.
    InvalidAddress,
    /// The key given to a full wallet is empty or not a valid secret key.
    InvalidKey,
    /// Signing was asked of a wallet that holds no key.
    NoSigningKey,
    /// The output to spend is the all-zero placeholder.
    NoUtxoAvailable,
}

/// Whether a wallet can sign, and with which key.
pub enum SigningCapability {
    Present(Vec<u8>),
    Absent,
}

/// What a wallet is: its own locking script, and its key if it has one.
pub struct WalletModel {
    pub script: Seq<u8>,
    pub key: Option<Seq<u8>>,
}

/// A key, where present, is a valid secret key.
pub open spec fn wallet_wf(w: WalletModel) -> bool {
    w.key matches Some(k) ==> secret_key_ok(k) && k.len() > 0
}

/// The unlocking script that pushes a signature, then a public key.
pub open spec fn push_pair(sig: Seq<u8>, pk: Seq<u8>) -> Seq<u8> {
    seq![sig.len() as u8] + sig + seq![pk.len() as u8] + pk
}

/// The unlocking script for input `j` of `t`, which spends an output locked
/// by `lock`, signed with `key` under the all-covering policy.
pub open spec fn unlocking_for(t: TxModel, j: int, lock: Seq<u8>, key: Seq<u8>) -> Seq<u8> {
    push_pair(
        ecdsa_der_of(sha256d_of(sighash_preimage(t, j, lock)), key).push(SIGHASH_ALL as u8),
        pubkey_of(key),
    )
}

/// `s` is `t` with every input authorized by `key` against `lock`: every
/// other field is kept, and each unlocking script is the signature over that
/// input's message followed by the key's public key.
pub open spec fn authorized_by(s: TxModel, t: TxModel, lock: Seq<u8>, key: Seq<u8>) -> bool {
    &&& s.version == t.version
    &&& s.lock_time == t.lock_time
    &&& s.outputs == t.outputs
    &&& s.inputs.len() == t.inputs.len()
    &&& forall|j: int|
        0 <= j < t.inputs.len() ==> (#[trigger] s.inputs[j]) == (InputModel {
            unlocking: unlocking_for(t, j, lock, key),
            ..t.inputs[j]
        })
}

/// The transaction that `send` builds: one input spending `utxo` with an
/// empty unlocking script, one output paying `amount` to `dest`.
pub open spec fn spend_model(amount: u64, dest: Seq<u8>, utxo: TxOutPoint) -> TxModel {
    TxModel {
        version: TX_VERSION,
        inputs: seq![InputModel { txid: utxo.txid@, vout: utxo.vout, unlocking: Seq::empty(), sequence: INPUT_SEQUENCE }],
        outputs: seq![OutputModel { value: amount, locking: dest }],
        lock_time: LOCK_TIME,
    }
}

/// A built transaction, in one of its two lifecycle stages.
pub enum SendOutcome {
    Unsigned(UnsignedTransaction),
    Signed(SignedTransaction),
}

/// The result of `send` for a positive amount and a real outpoint: signed by
/// a full wallet, handed back unsigned by a watch-only one.
pub open spec fn send_outcome(w: WalletModel, t: TxModel, r: SendOutcome) -> bool {
    match w.key {
        None => r matches SendOutcome::Unsigned(u) && u@ == t,
        Some(k) => r matches SendOutcome::Signed(s) && authorized_by(s@, t, w.script, k),
    }
}

/// What `send` returns: a non-positive amount is refused first, then the
/// all-zero outpoint; otherwise the one-input, one-output spend is built,
/// and signed where the wallet holds a key.
pub open spec fn send_result(
    w: WalletModel,
    amount: i64,
    dest: Seq<u8>,
    utxo: TxOutPoint,
    r: Result<SendOutcome, WalletError>,
) -> bool {
    if amount <= 0 {
        r == Err::<SendOutcome, WalletError>(WalletError::InvalidAmount)
    } else if is_null_txid(utxo.txid@) {
        r == Err::<SendOutcome, WalletError>(WalletError::NoUtxoAvailable)
    } else {
        r matches Ok(o) && send_outcome(w, spend_model(amount as u64, dest, utxo), o)
    }
}

/// What `sign_transaction` returns: without a key it fails with
/// `NoSigningKey`; with one it authorizes every input.
pub open spec fn sign_result(w: WalletModel, t: TxModel, r: Result<SignedTransaction, WalletError>) -> bool {
    match w.key {
        None => r == Err::<SignedTransaction, WalletError>(WalletError::NoSigningKey),
        Some(k) => r matches Ok(s) && authorized_by(s@, t, w.script, k),
    }
}

pub struct Wallet {
    pubscript: ScriptRef,
    capability: SigningCapability,
}

impl Wallet {
    #[verifier::type_invariant]
    spec fn inv(&self) -> bool {
        wallet_wf(self@)
    }
}

impl View for Wallet {
    type V = WalletModel;

    closed spec fn view(&self) -> WalletModel {
        WalletModel {
            script: self.pubscript@,
            key: match self.capability {
                SigningCapability::Present(k) => Some(k@),
                SigningCapability::Absent => None,
            },
        }
    }
}

fn push_all(buf: &mut Vec<u8>, s: &[u8])
    ensures
        final(buf)@ == old(buf)@ + s@,
{
    let ghost start = buf@;
    let mut k: usize = 0;
    while k < s.len()
        invariant
            k <= s.len(),
            buf@ == start + s@.subrange(0, k as int),
        decreases s.len() - k,
    {
        buf.push(s[k]);
        assert(s@.subrange(0, k + 1) =~= s@.subrange(0, k as int).push(s@[k as int]));
        k = k + 1;
    }
    assert(s@.subrange(0, s@.len() as int) =~= s@);
}

/// The unlocking script for input `idx` of `tx`, spending an output locked
/// by `lock`.
fn unlock_input(tx: &UnsignedTransaction, idx: usize, lock: &ScriptRef, key: &Vec<u8>) -> (r: Vec<u8>)
    requires
        secret_key_ok(key@),
    ensures
        r@ == unlocking_for(tx@, idx as int, lock@, key@),
{
    let preimage = signing_preimage(tx, idx, lock);
    let digest = double_sha256(&preimage);
    let der = ecdsa_sign_der(&digest, key);
    let pk = compressed_pubkey(key);
    let ghost sig = der@.push(SIGHASH_ALL as u8);
    let mut out: Vec<u8> = Vec::new();
    out.push((der.len() + 1) as u8);
    push_all(&mut out, der.as_slice());
    out.push(SIGHASH_ALL as u8);
    out.push(33u8);
    push_all(&mut out, pk.as_slice());
    assert(pk@.len() == 33);
    assert(out@ =~= push_pair(sig, pk@));
    out
}

fn copy_outputs(v: &Vec<TxOutput>) -> (r: Vec<TxOutput>)
    ensures
        outputs_view(r@) == outputs_view(v@),
{
    let mut r: Vec<TxOutput> = Vec::new();
    let mut k: usize = 0;
    while k < v.len()
        invariant
            k <= v.len(),
            r@.len() == k,
            forall|j: int| 0 <= j < k ==> (#[trigger] r@[j])@ == v@[j]@,
        decreases v.len() - k,
    {
        r.push(TxOutput { value: v[k].value, locking_script: v[k].locking_script.clone_script() });
        k = k + 1;
    }
    assert(outputs_view(r@) =~= outputs_view(v@));
    r
}

/// Signs every input of `tx` with `key`, against `lock`.
fn sign_with_key(tx: &UnsignedTransaction, lock: &ScriptRef, key: &Vec<u8>) -> (r: SignedTransaction)
    requires
        secret_key_ok(key@),
    ensures
        authorized_by(r@, tx@, lock@, key@),
{
    let mut inputs: Vec<TxInput> = Vec::new();
    let mut k: usize = 0;
    while k < tx.inputs.len()
        invariant
            k <= tx.inputs.len(),
            secret_key_ok(key@),
            inputs@.len() == k,
            forall|j: int|
                0 <= j < k ==> (#[trigger] inputs@[j])@ == (InputModel {
                    unlocking: unlocking_for(tx@, j, lock@, key@),
                    ..tx@.inputs[j]
                }),
        decreases tx.inputs.len() - k,
    {
        let unlocking = unlock_input(tx, k, lock, key);
        let input = TxInput {
            previous_output: tx.inputs[k].previous_output,
            unlocking_script: ScriptRef::from_bytes(unlocking),
            sequence: tx.inputs[k].sequence,
        };
        inputs.push(input);
        k = k + 1;
    }
    let outputs = copy_outputs(&tx.outputs);
    let r = SignedTransaction::assemble(tx.version, inputs, outputs, tx.lock_time);
    assert(r@.inputs.len() == tx@.inputs.len());
    r
}

impl Wallet {
    /// A full wallet: it holds `private_key` and signs what it builds. The
    /// key must be non-empty and a valid secret key.
    pub fn new(private_key: Vec<u8>, pubscript: ScriptRef) -> (r: Result<Wallet, WalletError>)
        ensures
            r is Ok <==> private_key@.len() > 0 && secret_key_ok(private_key@),
            match r {
                Ok(w) => w@ == (WalletModel { script: pubscript@, key: Some(private_key@) }),
                Err(e) => e == WalletError::InvalidKey,
            },
    {
        if private_key.len() == 0 || !is_valid_secret_key(&private_key) {
            return Err(WalletError::InvalidKey);
        }
        Ok(Wallet { pubscript, capability: SigningCapability::Present(private_key) })
    }

    /// A watch-only wallet: it holds no key and never signs.
    pub fn new_watch_only(pubscript: ScriptRef) -> (r: Wallet)
        ensures
            r@ == (WalletModel { script: pubscript@, key: None }),
    {
        Wallet { pubscript, capability: SigningCapability::Absent }
    }

    pub fn has_signing_key(&self) -> (r: bool)
        ensures
            r == self@.key is Some,
    {
        match &self.capability {
            SigningCapability::Present(_) => true,
            SigningCapability::Absent => false,
        }
    }

    pub fn pubscript(&self) -> (r: &ScriptRef)
        ensures
            r@ == self@.script,
    {
        &self.pubscript
    }

    /// Builds the transaction that spends `utxo` to pay `amount` to
    /// `destination`, and signs it when this wallet holds a key.
    pub fn send(&self, amount: i64, destination: &ScriptRef, utxo: TxOutPoint) -> (r: Result<SendOutcome, WalletError>)
        ensures
            send_result(self@, amount, destination@, utxo, r),
    {
        if amount <= 0 {
            return Err(WalletError::InvalidAmount);
        }
        if utxo.is_null() {
            return Err(WalletError::NoUtxoAvailable);
        }
        let input = TxInput { previous_output: utxo, unlocking_script: ScriptRef::empty(), sequence: INPUT_SEQUENCE };
        let output = TxOutput { value: amount as u64, locking_script: destination.clone_script() };
        let tx = UnsignedTransaction {
            version: TX_VERSION,
            inputs: vec![input],
            outputs: vec![output],
            lock_time: LOCK_TIME,
        };
        assert(tx@.inputs =~= spend_model(amount as u64, destination@, utxo).inputs);
        assert(tx@.outputs =~= spend_model(amount as u64, destination@, utxo).outputs);
        proof {
            use_type_invariant(self);
        }
        match &self.capability {
            SigningCapability::Present(key) => Ok(SendOutcome::Signed(sign_with_key(&tx, &self.pubscript, key))),
            SigningCapability::Absent => Ok(SendOutcome::Unsigned(tx)),
        }
    }

    /// Like `send`, with the destination given as an address text.
    pub fn send_to_address(&self, amount: i64, address: &str, utxo: TxOutPoint) -> (r: Result<SendOutcome, WalletError>)
        ensures
            amount > 0 && address_script_of(address@) is None ==> r == Err::<SendOutcome, WalletError>(
                WalletError::InvalidAddress,
            ),
            amount <= 0 ==> r == Err::<SendOutcome, WalletError>(WalletError::InvalidAmount),
            amount > 0 ==> match address_script_of(address@) {
                Some(dest) => send_result(self@, amount, dest, utxo, r),
                None => true,
            },
    {
        if amount <= 0 {
            return Err(WalletError::InvalidAmount);
        }
        match address_script(address) {
            Some(bytes) => self.send(amount, &ScriptRef::from_bytes(bytes), utxo),
            None => Err(WalletError::InvalidAddress),
        }
    }

    /// Authorizes every input of `tx` with this wallet's key, against this
    /// wallet's locking script; without a key, fails and leaves `tx` as is.
    pub fn sign_transaction(&self, tx: &UnsignedTransaction) -> (r: Result<SignedTransaction, WalletError>)
        ensures
            sign_result(self@, tx@, r),
    {
        proof {
            use_type_invariant(self);
        }
        match &self.capability {
            SigningCapability::Present(key) => Ok(sign_with_key(tx, &self.pubscript, key)),
            SigningCapability::Absent => Err(WalletError::NoSigningKey),
        }
    }
}

} // verus!
