//! The message that a signature on one input commits to: the transaction
//! laid out field by field, with every unlocking script blanked except the
//! signed input's, which carries the locking script of the output it spends.

use vstd::prelude::*;
use crate::encoding::{le_bytes, compact_size, push_le, push_compact_size};
use crate::tx::{InputModel, OutputModel, ScriptRef, TxInput, TxModel, TxOutput, UnsignedTransaction};

verus! {

/// The one signing policy in use: every input and every output is covered.
pub const SIGHASH_ALL: u32 = 1;

pub open spec fn enc_script(s: Seq<u8>) -> Seq<u8> {
    compact_size(s.len()) + s
}

pub open spec fn enc_input(i: InputModel) -> Seq<u8> {
    i.txid + le_bytes(i.vout as nat, 4) + enc_script(i.unlocking) + le_bytes(i.sequence as nat, 4)
}

pub open spec fn enc_output(o: OutputModel) -> Seq<u8> {
    le_bytes(o.value as nat, 8) + enc_script(o.locking)
}

pub open spec fn enc_inputs(s: Seq<InputModel>) -> Seq<u8>
    decreases s.len(),
{
    if s.len() == 0 {
        Seq::empty()
    } else {
        enc_inputs(s.drop_last()) + enc_input(s.last())
    }
}

pub open spec fn enc_outputs(s: Seq<OutputModel>) -> Seq<u8>
    decreases s.len(),
{
    if s.len() == 0 {
        Seq::empty()
    } else {
        enc_outputs(s.drop_last()) + enc_output(s.last())
    }
}

/// The standard field layout: version, inputs, outputs, lock-time.
pub open spec fn enc_tx(t: TxModel) -> Seq<u8> {
    le_bytes(t.version as nat, 4) + compact_size(t.inputs.len()) + enc_inputs(t.inputs)
        + compact_size(t.outputs.len()) + enc_outputs(t.outputs) + le_bytes(t.lock_time as nat, 4)
}

/// The transaction as seen when signing input `idx` against `spent`.
pub open spec fn signing_view(t: TxModel, idx: int, spent: Seq<u8>) -> TxModel {
    TxModel {
        inputs: Seq::new(
            t.inputs.len(),
            |j: int| InputModel { unlocking: if j == idx { spent } else { Seq::empty() }, ..t.inputs[j] },
        ),
        ..t
    }
}

/// The bytes that are hashed and signed for input `idx`.
pub open spec fn sighash_preimage(t: TxModel, idx: int, spent: Seq<u8>) -> Seq<u8> {
    enc_tx(signing_view(t, idx, spent)) + le_bytes(SIGHASH_ALL as nat, 4)
}

pub(crate) fn push_script(buf: &mut Vec<u8>, s: &Vec<u8>)
    ensures
        final(buf)@ == old(buf)@ + enc_script(s@),
{
    push_compact_size(buf, s.len() as u64);
    let ghost mid = buf@;
    let mut k: usize = 0;
    while k < s.len()
        invariant
            k <= s.len(),
            mid == old(buf)@ + compact_size(s@.len()),
            buf@ == mid + s@.subrange(0, k as int),
        decreases s.len() - k,
    {
        buf.push(s[k]);
        assert(s@.subrange(0, k + 1) =~= s@.subrange(0, k as int).push(s@[k as int]));
        k = k + 1;
    }
    assert(s@.subrange(0, s@.len() as int) =~= s@);
    assert(buf@ =~= old(buf)@ + enc_script(s@));
}

pub(crate) fn push_input(buf: &mut Vec<u8>, i: &TxInput, unlocking: &Vec<u8>)
    ensures
        final(buf)@ == old(buf)@ + enc_input(InputModel { unlocking: unlocking@, ..i@ }),
{
    let ghost start = buf@;
    let mut k: usize = 0;
    while k < 32
        invariant
            k <= 32,
            i.previous_output.txid@.len() == 32,
            buf@ == start + i.previous_output.txid@.subrange(0, k as int),
        decreases 32 - k,
    {
        buf.push(i.previous_output.txid[k]);
        assert(i.previous_output.txid@.subrange(0, k + 1)
            =~= i.previous_output.txid@.subrange(0, k as int).push(i.previous_output.txid@[k as int]));
        k = k + 1;
    }
    assert(i.previous_output.txid@.subrange(0, 32) =~= i.previous_output.txid@);
    push_le(buf, i.previous_output.vout as u64, 4);
    push_script(buf, unlocking);
    push_le(buf, i.sequence as u64, 4);
    assert(buf@ =~= start + enc_input(InputModel { unlocking: unlocking@, ..i@ }));
}

pub(crate) fn push_output(buf: &mut Vec<u8>, o: &TxOutput)
    ensures
        final(buf)@ == old(buf)@ + enc_output(o@),
{
    let ghost start = buf@;
    push_le(buf, o.value, 8);
    push_script(buf, &o.locking_script.bytes);
    assert(buf@ =~= start + enc_output(o@));
}

/// Lays out `tx` as it is signed for input `idx`, whose spent output is
/// locked by `spent`.
pub fn signing_preimage(tx: &UnsignedTransaction, idx: usize, spent: &ScriptRef) -> (r: Vec<u8>)
    ensures
        r@ == sighash_preimage(tx@, idx as int, spent@),
{
    let ghost sv = signing_view(tx@, idx as int, spent@);
    let mut buf: Vec<u8> = Vec::new();
    push_le(&mut buf, tx.version as u64, 4);
    push_compact_size(&mut buf, tx.inputs.len() as u64);
    let ghost head = buf@;
    let empty: Vec<u8> = Vec::new();
    let mut k: usize = 0;
    while k < tx.inputs.len()
        invariant
            k <= tx.inputs.len(),
            sv == signing_view(tx@, idx as int, spent@),
            empty@ == Seq::<u8>::empty(),
            buf@ == head + enc_inputs(sv.inputs.subrange(0, k as int)),
        decreases tx.inputs.len() - k,
    {
        let ghost prev = buf@;
        if k == idx {
            push_input(&mut buf, &tx.inputs[k], &spent.bytes);
        } else {
            push_input(&mut buf, &tx.inputs[k], &empty);
        }
        let ghost sub = sv.inputs.subrange(0, k + 1);
        assert(sub.drop_last() =~= sv.inputs.subrange(0, k as int));
        assert(sub.last() == sv.inputs[k as int]);
        assert(buf@ =~= prev + enc_input(sv.inputs[k as int]));
        k = k + 1;
    }
    assert(sv.inputs.subrange(0, tx.inputs.len() as int) =~= sv.inputs);
    push_compact_size(&mut buf, tx.outputs.len() as u64);
    let ghost mid = buf@;
    let mut m: usize = 0;
    while m < tx.outputs.len()
        invariant
            m <= tx.outputs.len(),
            buf@ == mid + enc_outputs(tx@.outputs.subrange(0, m as int)),
        decreases tx.outputs.len() - m,
    {
        let ghost prev = buf@;
        push_output(&mut buf, &tx.outputs[m]);
        let ghost sub = tx@.outputs.subrange(0, m + 1);
        assert(sub.drop_last() =~= tx@.outputs.subrange(0, m as int));
        assert(buf@ =~= prev + enc_output(tx@.outputs[m as int]));
        m = m + 1;
    }
    assert(tx@.outputs.subrange(0, tx.outputs.len() as int) =~= tx@.outputs);
    push_le(&mut buf, tx.lock_time as u64, 4);
    push_le(&mut buf, SIGHASH_ALL as u64, 4);
    assert(buf@ =~= sighash_preimage(tx@, idx as int, spent@));
    buf
}

} // verus!
