//! Accumulation of long-file-name fragments into one candidate long name.
//!
//! Each fragment carries 13 UTF-16 code units and a 1-based slot index; the
//! buffer is addressed by slot position, not appended, so fragments may
//! arrive in any order. Trailing 0x0000 and 0xFFFF units are padding.

use vstd::prelude::*;

verus! {

/// Number of UTF-16 code units carried by one long-file-name fragment.
pub const LFN_PART_LEN: usize = 13;

/// Largest buffer a fragment can force: 31 slots of 13 units each.
pub const LFN_BUF_MAX: usize = 403;

/// The buffer after writing the 13 units of slot `idx` (0-based), growing it
/// with zero-fill if it is shorter than `13 * (idx + 1)`.
pub open spec fn lfn_insert(acc: Seq<u16>, idx: int, units: Seq<u16>) -> Seq<u16>
    recommends
        0 <= idx,
        units.len() == 13,
{
    let len = if acc.len() >= 13 * (idx + 1) {
        acc.len() as int
    } else {
        13 * (idx + 1)
    };
    Seq::new(
        len as nat,
        |i: int|
            if 13 * idx <= i < 13 * (idx + 1) {
                units[i - 13 * idx]
            } else if i < acc.len() {
                acc[i]
            } else {
                0u16
            },
    )
}

/// The buffer with trailing padding units (0x0000 or 0xFFFF) removed.
pub open spec fn lfn_trim(acc: Seq<u16>) -> Seq<u16>
    decreases acc.len(),
{
    if acc.len() == 0 {
        acc
    } else if acc.last() == 0u16 || acc.last() == 0xffffu16 {
        lfn_trim(acc.drop_last())
    } else {
        acc
    }
}

/// Writes the 13 units of slot `idx` into the buffer, growing it with
/// zero-fill first if it is too short.
pub(crate) fn lfn_buf_insert(buf: &mut Vec<u16>, idx: usize, units: &Vec<u16>)
    requires
        idx <= 30,
        units@.len() == 13,
        old(buf)@.len() <= LFN_BUF_MAX,
    ensures
        final(buf)@ == lfn_insert(old(buf)@, idx as int, units@),
        final(buf)@.len() <= LFN_BUF_MAX,
{
    let end = LFN_PART_LEN * (idx + 1);
    while buf.len() < end
        invariant
            end == 13 * (idx + 1),
            idx <= 30,
            buf@.len() <= end || buf@.len() == old(buf)@.len(),
            buf@.len() <= LFN_BUF_MAX,
            buf@.len() >= old(buf)@.len(),
            forall|i: int| 0 <= i < old(buf)@.len() ==> buf@[i] == old(buf)@[i],
            forall|i: int| old(buf)@.len() <= i < buf@.len() ==> buf@[i] == 0u16,
        decreases end - buf@.len(),
    {
        buf.push(0u16);
    }
    let base = LFN_PART_LEN * idx;
    let mut k: usize = 0;
    let ghost grown = buf@;
    while k < LFN_PART_LEN
        invariant
            k <= 13,
            base == 13 * idx,
            idx <= 30,
            units@.len() == 13,
            buf@.len() == grown.len(),
            grown.len() >= 13 * (idx + 1),
            grown.len() <= LFN_BUF_MAX,
            forall|i: int| 0 <= i < buf@.len() && !(base <= i < base + k) ==> buf@[i] == grown[i],
            forall|i: int| base <= i < base + k ==> buf@[i] == units@[i - base],
        decreases 13 - k,
    {
        buf[base + k] = units[k];
        k = k + 1;
    }
    proof {
        let r = lfn_insert(old(buf)@, idx as int, units@);
        assert(buf@.len() == r.len());
        assert forall|i: int| 0 <= i < r.len() implies buf@[i] == r[i] by {
            if !(base <= i < base + 13) {
                assert(buf@[i] == grown[i]);
            }
        }
        assert(buf@ =~= r);
    }
}

/// Removes trailing padding units (0x0000 or 0xFFFF) from the buffer.
pub(crate) fn lfn_buf_trim(buf: &mut Vec<u16>)
    ensures
        final(buf)@ == lfn_trim(old(buf)@),
{
    let mut l = buf.len();
    proof {
        assert(buf@.take(l as int) =~= buf@);
    }
    while l > 0 && (buf[l - 1] == 0u16 || buf[l - 1] == 0xffffu16)
        invariant
            l <= buf@.len(),
            buf@ == old(buf)@,
            lfn_trim(buf@) == lfn_trim(buf@.take(l as int)),
        decreases l,
    {
        proof {
            assert(buf@.take(l as int).drop_last() =~= buf@.take(l - 1));
        }
        l = l - 1;
    }
    proof {
        if l > 0 {
            assert(lfn_trim(buf@.take(l as int)) == buf@.take(l as int));
        } else {
            assert(buf@.take(0) =~= Seq::<u16>::empty());
        }
    }
    buf.truncate(l);
}

/// The buffer after feeding the fragments for slots `n - 1` down to `idx`,
/// in that (reverse) order, starting from an empty buffer, where the
/// fragment for slot `i` carries `name.subrange(13 * i, 13 * (i + 1))`.
pub open spec fn lfn_assemble_reverse(name: Seq<u16>, n: int, idx: int) -> Seq<u16>
    decreases n - idx,
{
    if idx >= n {
        Seq::empty()
    } else {
        lfn_insert(
            lfn_assemble_reverse(name, n, idx + 1),
            idx,
            name.subrange(13 * idx, 13 * (idx + 1)),
        )
    }
}

proof fn lemma_lfn_assemble_reverse_suffix(name: Seq<u16>, n: int, idx: int)
    requires
        name.len() == 13 * n,
        0 <= idx < n,
    ensures
        lfn_assemble_reverse(name, n, idx).len() == 13 * n,
        forall|i: int|
            13 * idx <= i < 13 * n ==> lfn_assemble_reverse(name, n, idx)[i] == name[i],
        forall|i: int| 0 <= i < 13 * idx ==> lfn_assemble_reverse(name, n, idx)[i] == 0u16,
    decreases n - idx,
{
    let chunk = name.subrange(13 * idx, 13 * (idx + 1));
    let prev = lfn_assemble_reverse(name, n, idx + 1);
    let r = lfn_assemble_reverse(name, n, idx);
    assert(r == lfn_insert(prev, idx, chunk));
    if idx + 1 < n {
        lemma_lfn_assemble_reverse_suffix(name, n, idx + 1);
        assert(prev.len() == 13 * n);
    } else {
        assert(prev == Seq::<u16>::empty());
    }
    assert(r.len() == 13 * n);
    assert forall|i: int| 13 * idx <= i < 13 * n implies r[i] == name[i] by {
        if i < 13 * (idx + 1) {
            assert(r[i] == chunk[i - 13 * idx]);
        }
    }
}

/// Law: a long name whose fragments are supplied in reverse slot order (the
/// highest slot first, slot one last) reconstructs exactly, for any fragment
/// count `n` that covers the whole name.
pub proof fn lemma_lfn_reverse_order_reconstruction(name: Seq<u16>, n: int)
    requires
        n >= 1,
        name.len() == 13 * n,
    ensures
        lfn_assemble_reverse(name, n, 0) == name,
{
    lemma_lfn_assemble_reverse_suffix(name, n, 0);
    assert(lfn_assemble_reverse(name, n, 0) =~= name);
}

} // verus!
