//! Serialization of unsigned transactions in the standard field layout, and
//! its inverse.

use vstd::prelude::*;
use crate::encoding::{compact_size, le_bytes, push_compact_size, push_le};
use crate::sighash::{enc_input, enc_inputs, enc_output, enc_outputs, enc_script, enc_tx, push_input, push_output};
use crate::tx::{
    inputs_view, outputs_view, InputModel, OutputModel, ScriptRef, TxInput, TxModel, TxOutPoint, TxOutput,
    UnsignedTransaction,
};

verus! {

pub open spec fn pow256(n: nat) -> nat
    decreases n,
{
    if n == 0 {
        1
    } else {
        256 * pow256((n - 1) as nat)
    }
}

/// The number whose little-endian bytes are `s`.
pub open spec fn from_le(s: Seq<u8>) -> nat
    decreases s.len(),
{
    if s.len() == 0 {
        0
    } else {
        s[0] as nat + 256 * from_le(s.drop_first())
    }
}

pub proof fn lemma_from_le_bytes(v: nat, n: nat)
    requires
        v < pow256(n),
    ensures
        from_le(le_bytes(v, n)) == v,
        le_bytes(v, n).len() == n,
    decreases n,
{
    if n == 0 {
    } else {
        let m = (n - 1) as nat;
        assert(le_bytes(v, n).drop_first() =~= le_bytes(v / 256, m));
        assert(v / 256 < pow256(m)) by (nonlinear_arith)
            requires
                v < 256 * pow256(m),
        ;
        lemma_from_le_bytes(v / 256, m);
        assert(v == (v % 256) + 256 * (v / 256)) by (nonlinear_arith);
    }
}

pub proof fn lemma_pow256_values()
    ensures
        pow256(2) == 0x1_0000,
        pow256(4) == 0x1_0000_0000,
        pow256(8) == 0x1_0000_0000_0000_0000,
{
    reveal_with_fuel(pow256, 9);
}

/// The value of the `n` bytes at `p`.
pub open spec fn parse_le(b: Seq<u8>, p: int, n: nat) -> nat {
    from_le(b.subrange(p, p + n))
}

/// A compact size at `p`: its value and the position after it.
pub open spec fn parse_compact(b: Seq<u8>, p: int) -> Option<(nat, int)> {
    if p < 0 || p >= b.len() {
        None
    } else {
        let width: nat = if b[p] < 0xfd { 0 } else if b[p] == 0xfd { 2 } else if b[p] == 0xfe { 4 } else { 8 };
        if p + 1 + width > b.len() {
            None
        } else if width == 0 {
            Some((b[p] as nat, p + 1))
        } else {
            Some((parse_le(b, p + 1, width), p + 1 + width))
        }
    }
}

pub open spec fn parse_script(b: Seq<u8>, p: int) -> Option<(Seq<u8>, int)> {
    match parse_compact(b, p) {
        None => None,
        Some((n, q)) => if q + n <= b.len() {
            Some((b.subrange(q, q + n), q + n))
        } else {
            None
        },
    }
}

pub open spec fn parse_input(b: Seq<u8>, p: int) -> Option<(InputModel, int)> {
    if p < 0 || p + 36 > b.len() {
        None
    } else {
        match parse_script(b, p + 36) {
            None => None,
            Some((s, q)) => if q + 4 <= b.len() {
                Some((
                    InputModel {
                        txid: b.subrange(p, p + 32),
                        vout: parse_le(b, p + 32, 4) as u32,
                        unlocking: s,
                        sequence: parse_le(b, q, 4) as u32,
                    },
                    q + 4,
                ))
            } else {
                None
            },
        }
    }
}

pub open spec fn parse_output(b: Seq<u8>, p: int) -> Option<(OutputModel, int)> {
    if p < 0 || p + 8 > b.len() {
        None
    } else {
        match parse_script(b, p + 8) {
            None => None,
            Some((s, q)) => Some((OutputModel { value: parse_le(b, p, 8) as u64, locking: s }, q)),
        }
    }
}

pub open spec fn parse_inputs(b: Seq<u8>, p: int, count: nat) -> Option<(Seq<InputModel>, int)>
    decreases count,
{
    if count == 0 {
        Some((Seq::empty(), p))
    } else {
        match parse_inputs(b, p, (count - 1) as nat) {
            None => None,
            Some((s, q)) => match parse_input(b, q) {
                None => None,
                Some((i, r)) => Some((s.push(i), r)),
            },
        }
    }
}

pub open spec fn parse_outputs(b: Seq<u8>, p: int, count: nat) -> Option<(Seq<OutputModel>, int)>
    decreases count,
{
    if count == 0 {
        Some((Seq::empty(), p))
    } else {
        match parse_outputs(b, p, (count - 1) as nat) {
            None => None,
            Some((s, q)) => match parse_output(b, q) {
                None => None,
                Some((o, r)) => Some((s.push(o), r)),
            },
        }
    }
}

/// The transaction that `b` lays out, if `b` is exactly one such layout.
pub open spec fn parse_tx(b: Seq<u8>) -> Option<TxModel> {
    if b.len() < 4 {
        None
    } else {
        match parse_compact(b, 4) {
            None => None,
            Some((ni, at_inputs)) => match parse_inputs(b, at_inputs, ni) {
                None => None,
                Some((ins, after_inputs)) => match parse_compact(b, after_inputs) {
                    None => None,
                    Some((no, at_outputs)) => match parse_outputs(b, at_outputs, no) {
                        None => None,
                        Some((outs, at_lock)) => if at_lock + 4 == b.len() {
                            Some(TxModel {
                                version: parse_le(b, 0, 4) as u32,
                                inputs: ins,
                                outputs: outs,
                                lock_time: parse_le(b, at_lock, 4) as u32,
                            })
                        } else {
                            None
                        },
                    },
                },
            },
        }
    }
}

/// What `decode` gives for `b`: the transaction that `b` lays out, or
/// nothing where `b` lays out none.
pub open spec fn decoded_from(b: Seq<u8>, r: Option<UnsignedTransaction>) -> bool {
    match r {
        Some(t) => parse_tx(b) == Some(t@),
        None => parse_tx(b) is None,
    }
}

/// `e` stands in `b` at `p`.
pub open spec fn at(b: Seq<u8>, p: int, e: Seq<u8>) -> bool {
    0 <= p && p + e.len() <= b.len() && b.subrange(p, p + e.len()) == e
}

proof fn lemma_at_split(b: Seq<u8>, p: int, e1: Seq<u8>, e2: Seq<u8>)
    requires
        at(b, p, e1 + e2),
    ensures
        at(b, p, e1),
        at(b, p + e1.len(), e2),
{
    let w = b.subrange(p, p + e1.len() + e2.len());
    assert(w == e1 + e2);
    assert(b.subrange(p, p + e1.len()) =~= w.subrange(0, e1.len() as int));
    assert(w.subrange(0, e1.len() as int) =~= e1);
    assert(b.subrange(p + e1.len(), p + e1.len() + e2.len()) =~= w.subrange(
        e1.len() as int,
        (e1.len() + e2.len()) as int,
    ));
    assert(w.subrange(e1.len() as int, (e1.len() + e2.len()) as int) =~= e2);
}

proof fn lemma_parse_le(b: Seq<u8>, p: int, v: nat, n: nat)
    requires
        v < pow256(n),
        at(b, p, le_bytes(v, n)),
    ensures
        parse_le(b, p, n) == v,
        le_bytes(v, n).len() == n,
{
    lemma_from_le_bytes(v, n);
}

proof fn lemma_parse_compact(b: Seq<u8>, p: int, n: nat)
    requires
        n < pow256(8),
        at(b, p, compact_size(n)),
    ensures
        parse_compact(b, p) == Some((n, p + compact_size(n).len())),
{
    lemma_pow256_values();
    let e = compact_size(n);
    assert(b[p] == e[0]) by {
        assert(b.subrange(p, p + e.len())[0] == b[p]);
    }
    if n >= 0xfd {
        let w: nat = if n <= 0xffff { 2 } else if n <= 0xffff_ffff { 4 } else { 8 };
        assert(e == seq![e[0]] + le_bytes(n, w));
        lemma_at_split(b, p, seq![e[0]], le_bytes(n, w));
        lemma_parse_le(b, p + 1, n, w);
    }
}

proof fn lemma_parse_script(b: Seq<u8>, p: int, s: Seq<u8>)
    requires
        s.len() < pow256(8),
        at(b, p, enc_script(s)),
    ensures
        parse_script(b, p) == Some((s, p + enc_script(s).len())),
{
    lemma_at_split(b, p, compact_size(s.len()), s);
    lemma_parse_compact(b, p, s.len());
}

proof fn lemma_parse_input(b: Seq<u8>, p: int, i: InputModel)
    requires
        i.txid.len() == 32,
        i.unlocking.len() < pow256(8),
        at(b, p, enc_input(i)),
    ensures
        parse_input(b, p) == Some((i, p + enc_input(i).len())),
{
    lemma_pow256_values();
    let a = i.txid;
    let c = le_bytes(i.vout as nat, 4);
    let d = enc_script(i.unlocking);
    let e = le_bytes(i.sequence as nat, 4);
    assert(enc_input(i) == a + c + d + e);
    lemma_at_split(b, p, a + c + d, e);
    lemma_at_split(b, p, a + c, d);
    lemma_at_split(b, p, a, c);
    lemma_parse_le(b, p + 32, i.vout as nat, 4);
    lemma_parse_script(b, p + 36, i.unlocking);
    lemma_parse_le(b, p + 36 + d.len(), i.sequence as nat, 4);
}

proof fn lemma_parse_output(b: Seq<u8>, p: int, o: OutputModel)
    requires
        o.locking.len() < pow256(8),
        at(b, p, enc_output(o)),
    ensures
        parse_output(b, p) == Some((o, p + enc_output(o).len())),
{
    lemma_pow256_values();
    let c = le_bytes(o.value as nat, 8);
    lemma_at_split(b, p, c, enc_script(o.locking));
    lemma_parse_le(b, p, o.value as nat, 8);
    lemma_parse_script(b, p + 8, o.locking);
}

/// Every length in `t` fits the 64-bit counts of the layout, and every
/// transaction id has 32 bytes.
pub open spec fn encodable(t: TxModel) -> bool {
    &&& t.inputs.len() < pow256(8)
    &&& t.outputs.len() < pow256(8)
    &&& forall|j: int| 0 <= j < t.inputs.len() ==> (#[trigger] t.inputs[j]).txid.len() == 32
        && t.inputs[j].unlocking.len() < pow256(8)
    &&& forall|j: int| 0 <= j < t.outputs.len() ==> (#[trigger] t.outputs[j]).locking.len() < pow256(8)
}

proof fn lemma_parse_inputs(b: Seq<u8>, p: int, s: Seq<InputModel>)
    requires
        forall|j: int| 0 <= j < s.len() ==> (#[trigger] s[j]).txid.len() == 32 && s[j].unlocking.len() < pow256(8),
        at(b, p, enc_inputs(s)),
    ensures
        parse_inputs(b, p, s.len()) == Some((s, p + enc_inputs(s).len())),
    decreases s.len(),
{
    if s.len() > 0 {
        let s0 = s.drop_last();
        lemma_at_split(b, p, enc_inputs(s0), enc_input(s.last()));
        lemma_parse_inputs(b, p, s0);
        lemma_parse_input(b, p + enc_inputs(s0).len(), s.last());
        assert(s0.push(s.last()) =~= s);
    }
}

proof fn lemma_parse_outputs(b: Seq<u8>, p: int, s: Seq<OutputModel>)
    requires
        forall|j: int| 0 <= j < s.len() ==> (#[trigger] s[j]).locking.len() < pow256(8),
        at(b, p, enc_outputs(s)),
    ensures
        parse_outputs(b, p, s.len()) == Some((s, p + enc_outputs(s).len())),
    decreases s.len(),
{
    if s.len() > 0 {
        let s0 = s.drop_last();
        lemma_at_split(b, p, enc_outputs(s0), enc_output(s.last()));
        lemma_parse_outputs(b, p, s0);
        lemma_parse_output(b, p + enc_outputs(s0).len(), s.last());
        assert(s0.push(s.last()) =~= s);
    }
}

/// Parsing the layout of a transaction gives that transaction back.
pub proof fn lemma_parse_enc_tx(t: TxModel)
    requires
        encodable(t),
    ensures
        parse_tx(enc_tx(t)) == Some(t),
{
    lemma_pow256_values();
    let b = enc_tx(t);
    let v = le_bytes(t.version as nat, 4);
    let ci = compact_size(t.inputs.len());
    let ei = enc_inputs(t.inputs);
    let co = compact_size(t.outputs.len());
    let eo = enc_outputs(t.outputs);
    let l = le_bytes(t.lock_time as nat, 4);
    assert(b.subrange(0, b.len() as int) =~= b);
    assert(at(b, 0, v + ci + ei + co + eo + l));
    lemma_at_split(b, 0, v + ci + ei + co + eo, l);
    lemma_at_split(b, 0, v + ci + ei + co, eo);
    lemma_at_split(b, 0, v + ci + ei, co);
    lemma_at_split(b, 0, v + ci, ei);
    lemma_at_split(b, 0, v, ci);
    lemma_parse_le(b, 0, t.version as nat, 4);
    lemma_parse_compact(b, 4, t.inputs.len());
    lemma_parse_inputs(b, (4 + ci.len()) as int, t.inputs);
    lemma_parse_compact(b, (4 + ci.len() + ei.len()) as int, t.outputs.len());
    lemma_parse_outputs(b, (4 + ci.len() + ei.len() + co.len()) as int, t.outputs);
    lemma_parse_le(b, (4 + ci.len() + ei.len() + co.len() + eo.len()) as int, t.lock_time as nat, 4);
}

proof fn lemma_pow256_mono(m: nat, k: nat)
    requires
        m <= k,
    ensures
        pow256(m) <= pow256(k),
    decreases k,
{
    if m < k {
        lemma_pow256_mono(m, (k - 1) as nat);
    }
}

proof fn lemma_from_le_bound(s: Seq<u8>)
    ensures
        from_le(s) < pow256(s.len()),
    decreases s.len(),
{
    if s.len() > 0 {
        lemma_from_le_bound(s.drop_first());
    }
}

proof fn lemma_inputs_none(b: Seq<u8>, p: int, k: nat, m: nat)
    requires
        k <= m,
        parse_inputs(b, p, k) is None,
    ensures
        parse_inputs(b, p, m) is None,
    decreases m,
{
    if k < m {
        lemma_inputs_none(b, p, k, (m - 1) as nat);
    }
}

proof fn lemma_outputs_none(b: Seq<u8>, p: int, k: nat, m: nat)
    requires
        k <= m,
        parse_outputs(b, p, k) is None,
    ensures
        parse_outputs(b, p, m) is None,
    decreases m,
{
    if k < m {
        lemma_outputs_none(b, p, k, (m - 1) as nat);
    }
}

fn read_le(b: &[u8], p: usize, n: usize) -> (r: u64)
    requires
        n <= 8,
        p + n <= b@.len(),
    ensures
        r as nat == parse_le(b@, p as int, n as nat),
{
    let len: usize = b.len();
    let e: usize = p + n;
    let mut i: usize = e;
    let mut v: u64 = 0;
    assert(b@.subrange(e as int, e as int) =~= Seq::<u8>::empty());
    while i > p
        invariant
            p <= i <= e,
            e == p + n,
            n <= 8,
            e <= b@.len(),
            v as nat == from_le(b@.subrange(i as int, e as int)),
        decreases i,
    {
        let ghost old_v = v;
        proof {
            lemma_from_le_bound(b@.subrange(i as int, e as int));
            lemma_pow256_mono((e - i + 1) as nat, 8);
            lemma_pow256_values();
            assert(pow256((e - i + 1) as nat) == 256 * pow256((e - i) as nat));
            assert(b@.subrange(i - 1, e as int).drop_first() =~= b@.subrange(i as int, e as int));
        }
        v = v * 256 + b[i - 1] as u64;
        i = i - 1;
    }
    v
}

fn read_compact(b: &[u8], p: usize) -> (r: Option<(u64, usize)>)
    requires
        p <= b@.len(),
    ensures
        match r {
            Some((n, q)) => parse_compact(b@, p as int) == Some((n as nat, q as int)),
            None => parse_compact(b@, p as int) is None,
        },
{
    if p >= b.len() {
        return None;
    }
    let first = b[p];
    let width: usize = if first < 0xfd { 0 } else if first == 0xfd { 2 } else if first == 0xfe { 4 } else { 8 };
    if width > b.len() - p - 1 {
        None
    } else if width == 0 {
        Some((first as u64, p + 1))
    } else {
        Some((read_le(b, p + 1, width), p + 1 + width))
    }
}

fn read_script(b: &[u8], p: usize) -> (r: Option<(ScriptRef, usize)>)
    requires
        p <= b@.len(),
    ensures
        match r {
            Some((s, q)) => parse_script(b@, p as int) == Some((s@, q as int)) && q <= b@.len(),
            None => parse_script(b@, p as int) is None,
        },
{
    match read_compact(b, p) {
        None => None,
        Some((n, q)) => {
            if n > (b.len() - q) as u64 {
                return None;
            }
            let end: usize = q + n as usize;
            let mut out: Vec<u8> = Vec::new();
            let mut k: usize = q;
            while k < end
                invariant
                    q <= k <= end,
                    end <= b@.len(),
                    out@ == b@.subrange(q as int, k as int),
                decreases end - k,
            {
                out.push(b[k]);
                assert(b@.subrange(q as int, k + 1) =~= b@.subrange(q as int, k as int).push(b@[k as int]));
                k = k + 1;
            }
            Some((ScriptRef::from_bytes(out), end))
        },
    }
}

fn read_input(b: &[u8], p: usize) -> (r: Option<(TxInput, usize)>)
    requires
        p <= b@.len(),
    ensures
        match r {
            Some((i, q)) => parse_input(b@, p as int) == Some((i@, q as int)) && q <= b@.len(),
            None => parse_input(b@, p as int) is None,
        },
{
    let len: usize = b.len();
    if 36 > len - p {
        return None;
    }
    let mut txid: [u8; 32] = [0u8; 32];
    let mut j: usize = 0;
    while j < 32
        invariant
            j <= 32,
            p + 36 <= b@.len(),
            len == b@.len(),
            txid@.len() == 32,
            forall|k: int| 0 <= k < j ==> txid@[k] == b@[p + k],
        decreases 32 - j,
    {
        txid[j] = b[p + j];
        j = j + 1;
    }
    assert(txid@ =~= b@.subrange(p as int, p + 32));
    let vout = read_le(b, p + 32, 4);
    match read_script(b, p + 36) {
        None => None,
        Some((script, q)) => {
            if 4 > b.len() - q {
                return None;
            }
            let sequence = read_le(b, q, 4);
            proof {
                lemma_pow256_values();
                lemma_from_le_bound(b@.subrange(p + 32, p + 36));
                lemma_from_le_bound(b@.subrange(q as int, q + 4));
            }
            let input = TxInput {
                previous_output: TxOutPoint { txid, vout: vout as u32 },
                unlocking_script: script,
                sequence: sequence as u32,
            };
            Some((input, q + 4))
        },
    }
}

fn read_output(b: &[u8], p: usize) -> (r: Option<(TxOutput, usize)>)
    requires
        p <= b@.len(),
    ensures
        match r {
            Some((o, q)) => parse_output(b@, p as int) == Some((o@, q as int)) && q <= b@.len(),
            None => parse_output(b@, p as int) is None,
        },
{
    if 8 > b.len() - p {
        return None;
    }
    let value = read_le(b, p, 8);
    match read_script(b, p + 8) {
        None => None,
        Some((script, q)) => Some((TxOutput { value, locking_script: script }, q)),
    }
}

impl UnsignedTransaction {
    /// The transaction in the standard field layout.
    pub fn encode(&self) -> (r: Vec<u8>)
        ensures
            r@ == enc_tx(self@),
    {
        let mut buf: Vec<u8> = Vec::new();
        push_le(&mut buf, self.version as u64, 4);
        push_compact_size(&mut buf, self.inputs.len() as u64);
        let ghost head = buf@;
        let mut k: usize = 0;
        while k < self.inputs.len()
            invariant
                k <= self.inputs.len(),
                buf@ == head + enc_inputs(self@.inputs.subrange(0, k as int)),
            decreases self.inputs.len() - k,
        {
            let ghost prev = buf@;
            push_input(&mut buf, &self.inputs[k], &self.inputs[k].unlocking_script.bytes);
            let ghost sub = self@.inputs.subrange(0, k + 1);
            assert(sub.drop_last() =~= self@.inputs.subrange(0, k as int));
            assert(buf@ =~= prev + enc_input(self@.inputs[k as int]));
            k = k + 1;
        }
        assert(self@.inputs.subrange(0, self.inputs.len() as int) =~= self@.inputs);
        push_compact_size(&mut buf, self.outputs.len() as u64);
        let ghost mid = buf@;
        let mut m: usize = 0;
        while m < self.outputs.len()
            invariant
                m <= self.outputs.len(),
                buf@ == mid + enc_outputs(self@.outputs.subrange(0, m as int)),
            decreases self.outputs.len() - m,
        {
            let ghost prev = buf@;
            push_output(&mut buf, &self.outputs[m]);
            let ghost sub = self@.outputs.subrange(0, m + 1);
            assert(sub.drop_last() =~= self@.outputs.subrange(0, m as int));
            assert(buf@ =~= prev + enc_output(self@.outputs[m as int]));
            m = m + 1;
        }
        assert(self@.outputs.subrange(0, self.outputs.len() as int) =~= self@.outputs);
        push_le(&mut buf, self.lock_time as u64, 4);
        assert(buf@ =~= enc_tx(self@));
        buf
    }

    /// The transaction that `b` lays out, if they are exactly one such
    /// layout.
    pub fn decode(b: &[u8]) -> (r: Option<UnsignedTransaction>)
        ensures
            decoded_from(b@, r),
    {
        if b.len() < 4 {
            return None;
        }
        let version = read_le(b, 0, 4);
        let (ni, at_inputs) = match read_compact(b, 4) {
            None => return None,
            Some(x) => x,
        };
        let mut inputs: Vec<TxInput> = Vec::new();
        let mut pos: usize = at_inputs;
        let mut k: u64 = 0;
        while k < ni
            invariant
                k <= ni,
                pos <= b@.len(),
                b@.len() >= 4,
                parse_compact(b@, 4) == Some((ni as nat, at_inputs as int)),
                parse_inputs(b@, at_inputs as int, k as nat) == Some((inputs_view(inputs@), pos as int)),
            decreases ni - k,
        {
            match read_input(b, pos) {
                None => {
                    proof {
                        assert(parse_inputs(b@, at_inputs as int, (k + 1) as nat) is None);
                        lemma_inputs_none(b@, at_inputs as int, (k + 1) as nat, ni as nat);
                    }
                    return None;
                },
                Some((i, q)) => {
                    let ghost prev = inputs_view(inputs@);
                    inputs.push(i);
                    assert(inputs_view(inputs@) =~= prev.push(i@));
                    pos = q;
                },
            }
            k = k + 1;
        }
        let ghost after_inputs = pos;
        let (no, at_outputs) = match read_compact(b, pos) {
            None => return None,
            Some(x) => x,
        };
        let mut outputs: Vec<TxOutput> = Vec::new();
        pos = at_outputs;
        let mut m: u64 = 0;
        while m < no
            invariant
                m <= no,
                pos <= b@.len(),
                b@.len() >= 4,
                parse_compact(b@, 4) == Some((ni as nat, at_inputs as int)),
                parse_inputs(b@, at_inputs as int, ni as nat) == Some((inputs_view(inputs@), after_inputs as int)),
                parse_compact(b@, after_inputs as int) == Some((no as nat, at_outputs as int)),
                parse_outputs(b@, at_outputs as int, m as nat) == Some((outputs_view(outputs@), pos as int)),
            decreases no - m,
        {
            match read_output(b, pos) {
                None => {
                    proof {
                        assert(parse_outputs(b@, at_outputs as int, (m + 1) as nat) is None);
                        lemma_outputs_none(b@, at_outputs as int, (m + 1) as nat, no as nat);
                    }
                    return None;
                },
                Some((o, q)) => {
                    let ghost prev = outputs_view(outputs@);
                    outputs.push(o);
                    assert(outputs_view(outputs@) =~= prev.push(o@));
                    pos = q;
                },
            }
            m = m + 1;
        }
        if b.len() - pos != 4 {
            return None;
        }
        let lock_time = read_le(b, pos, 4);
        proof {
            lemma_pow256_values();
            lemma_from_le_bound(b@.subrange(0, 4));
            lemma_from_le_bound(b@.subrange(pos as int, pos + 4));
        }
        Some(UnsignedTransaction { version: version as u32, inputs, outputs, lock_time: lock_time as u32 })
    }
}

} // verus!
