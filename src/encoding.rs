//! Little-endian integers and compact sizes, as they appear in the
//! transaction layout that signatures commit to.

use vstd::prelude::*;

verus! {

/// The `n` low-order bytes of `v`, least significant first.
pub open spec fn le_bytes(v: nat, n: nat) -> Seq<u8>
    decreases n,
{
    if n == 0 {
        Seq::empty()
    } else {
        seq![(v % 256) as u8] + le_bytes(v / 256, (n - 1) as nat)
    }
}

/// The variable-length count prefix used before lists and scripts.
pub open spec fn compact_size(n: nat) -> Seq<u8> {
    if n < 0xfd {
        seq![n as u8]
    } else if n <= 0xffff {
        seq![0xfdu8] + le_bytes(n, 2)
    } else if n <= 0xffff_ffff {
        seq![0xfeu8] + le_bytes(n, 4)
    } else {
        seq![0xffu8] + le_bytes(n, 8)
    }
}

/// Appends the `n` low-order bytes of `v` to `buf`, least significant first.
pub fn push_le(buf: &mut Vec<u8>, v: u64, n: usize)
    requires
        n <= 8,
    ensures
        final(buf)@ == old(buf)@ + le_bytes(v as nat, n as nat),
{
    let mut cur: u64 = v;
    let mut k: usize = 0;
    while k < n
        invariant
            k <= n,
            buf@ + le_bytes(cur as nat, (n - k) as nat) == old(buf)@ + le_bytes(v as nat, n as nat),
        decreases n - k,
    {
        let ghost before = buf@;
        buf.push((cur % 256) as u8);
        proof {
            let m = (n - k) as nat;
            assert(le_bytes(cur as nat, m) == seq![(cur % 256) as u8] + le_bytes((cur / 256) as nat, (m - 1) as nat));
            assert(before + le_bytes(cur as nat, m) =~= buf@ + le_bytes((cur / 256) as nat, (m - 1) as nat));
        }
        cur = cur / 256;
        k = k + 1;
    }
    assert(le_bytes(cur as nat, 0) =~= Seq::<u8>::empty());
    assert(buf@ =~= buf@ + le_bytes(cur as nat, 0));
}

/// Appends the compact-size encoding of `n` to `buf`.
pub fn push_compact_size(buf: &mut Vec<u8>, n: u64)
    ensures
        final(buf)@ == old(buf)@ + compact_size(n as nat),
{
    if n < 0xfd {
        buf.push(n as u8);
        assert(buf@ =~= old(buf)@ + compact_size(n as nat));
    } else {
        let ghost start = buf@;
        if n <= 0xffff {
            buf.push(0xfd);
            push_le(buf, n, 2);
        } else if n <= 0xffff_ffff {
            buf.push(0xfe);
            push_le(buf, n, 4);
        } else {
            buf.push(0xff);
            push_le(buf, n, 8);
        }
        assert(buf@ =~= start + compact_size(n as nat));
    }
}

} // verus!
