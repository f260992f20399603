//! The transaction data model: scripts, outpoints, inputs, outputs, and the
//! two lifecycle stages of a transaction.

use vstd::prelude::*;

verus! {

/// An immutable script: a locking script on an output, or an unlocking
/// script on an input.
#[derive(Clone, Debug)]
pub struct ScriptRef {
    pub bytes: Vec<u8>,
}

impl View for ScriptRef {
    type V = Seq<u8>;

    open spec fn view(&self) -> Seq<u8> {
        self.bytes@
    }
}

impl ScriptRef {
    pub fn from_bytes(bytes: Vec<u8>) -> (r: ScriptRef)
        ensures
            r@ == bytes@,
    {
        ScriptRef { bytes }
    }

    pub fn empty() -> (r: ScriptRef)
        ensures
            r@ == Seq::<u8>::empty(),
    {
        ScriptRef { bytes: Vec::new() }
    }

    pub fn len(&self) -> (r: usize)
        ensures
            r == self@.len(),
    {
        self.bytes.len()
    }

    pub fn clone_script(&self) -> (r: ScriptRef)
        ensures
            r@ == self@,
    {
        ScriptRef { bytes: self.bytes.clone() }
    }
}

/// A reference to one output of an earlier transaction.
#[derive(Clone, Copy, Debug)]
pub struct TxOutPoint {
    pub txid: [u8; 32],
    pub vout: u32,
}

/// The all-zero transaction id: a placeholder, never a spendable output.
pub open spec fn is_null_txid(txid: Seq<u8>) -> bool {
    forall|j: int| 0 <= j < txid.len() ==> txid[j] == 0u8
}

impl TxOutPoint {
    /// Whether this outpoint carries the all-zero placeholder id.
    pub fn is_null(&self) -> (r: bool)
        ensures
            r == is_null_txid(self.txid@),
    {
        let mut j: usize = 0;
        while j < 32
            invariant
                j <= 32,
                self.txid@.len() == 32,
                forall|k: int| 0 <= k < j ==> self.txid@[k] == 0u8,
            decreases 32 - j,
        {
            if self.txid[j] != 0 {
                return false;
            }
            j = j + 1;
        }
        true
    }
}

/// What an input is, as a mathematical value.
pub struct InputModel {
    pub txid: Seq<u8>,
    pub vout: u32,
    pub unlocking: Seq<u8>,
    pub sequence: u32,
}

/// What an output is, as a mathematical value.
pub struct OutputModel {
    pub value: u64,
    pub locking: Seq<u8>,
}

/// What a transaction is, as a mathematical value; both lifecycle stages
/// share it.
pub struct TxModel {
    pub version: u32,
    pub inputs: Seq<InputModel>,
    pub outputs: Seq<OutputModel>,
    pub lock_time: u32,
}

/// An input: the output it spends, the script that unlocks it, and its
/// sequence number.
#[derive(Clone, Debug)]
pub struct TxInput {
    pub previous_output: TxOutPoint,
    pub unlocking_script: ScriptRef,
    pub sequence: u32,
}

impl View for TxInput {
    type V = InputModel;

    open spec fn view(&self) -> InputModel {
        InputModel {
            txid: self.previous_output.txid@,
            vout: self.previous_output.vout,
            unlocking: self.unlocking_script@,
            sequence: self.sequence,
        }
    }
}

/// An output: an amount in the smallest unit, and the script that locks it.
#[derive(Clone, Debug)]
pub struct TxOutput {
    pub value: u64,
    pub locking_script: ScriptRef,
}

impl View for TxOutput {
    type V = OutputModel;

    open spec fn view(&self) -> OutputModel {
        OutputModel { value: self.value, locking: self.locking_script@ }
    }
}

pub open spec fn inputs_view(v: Seq<TxInput>) -> Seq<InputModel> {
    v.map_values(|i: TxInput| i@)
}

pub open spec fn outputs_view(v: Seq<TxOutput>) -> Seq<OutputModel> {
    v.map_values(|o: TxOutput| o@)
}

/// A transaction that no one has authorized yet.
#[derive(Clone, Debug)]
pub struct UnsignedTransaction {
    pub version: u32,
    pub inputs: Vec<TxInput>,
    pub outputs: Vec<TxOutput>,
    pub lock_time: u32,
}

impl View for UnsignedTransaction {
    type V = TxModel;

    open spec fn view(&self) -> TxModel {
        TxModel {
            version: self.version,
            inputs: inputs_view(self.inputs@),
            outputs: outputs_view(self.outputs@),
            lock_time: self.lock_time,
        }
    }
}

impl UnsignedTransaction {
    /// At least one input and one output.
    pub open spec fn wf(&self) -> bool {
        self.inputs.len() > 0 && self.outputs.len() > 0
    }
}

/// A transaction whose every input carries an unlocking script. Only
/// signing produces one; its fields are read through getters.
#[derive(Clone, Debug)]
pub struct SignedTransaction {
    version: u32,
    inputs: Vec<TxInput>,
    outputs: Vec<TxOutput>,
    lock_time: u32,
}

impl View for SignedTransaction {
    type V = TxModel;

    closed spec fn view(&self) -> TxModel {
        TxModel {
            version: self.version,
            inputs: inputs_view(self.inputs@),
            outputs: outputs_view(self.outputs@),
            lock_time: self.lock_time,
        }
    }
}

impl SignedTransaction {
    pub(crate) fn assemble(version: u32, inputs: Vec<TxInput>, outputs: Vec<TxOutput>, lock_time: u32) -> (r: SignedTransaction)
        ensures
            r@ == (TxModel {
                version,
                inputs: inputs_view(inputs@),
                outputs: outputs_view(outputs@),
                lock_time,
            }),
    {
        SignedTransaction { version, inputs, outputs, lock_time }
    }

    pub fn version(&self) -> (r: u32)
        ensures
            r == self@.version,
    {
        self.version
    }

    pub fn lock_time(&self) -> (r: u32)
        ensures
            r == self@.lock_time,
    {
        self.lock_time
    }

    pub fn inputs(&self) -> (r: &Vec<TxInput>)
        ensures
            inputs_view(r@) == self@.inputs,
    {
        &self.inputs
    }

    pub fn outputs(&self) -> (r: &Vec<TxOutput>)
        ensures
            outputs_view(r@) == self@.outputs,
    {
        &self.outputs
    }
}

} // verus!
