//! The memory builtins a freestanding target provides itself: copy, move,
//! fill and compare, over byte buffers.
//!
//! A move copies between two ranges of one buffer that may overlap: it
//! copies away from the overlap, from the head when the destination lies
//! below the source, else from the tail, so that every source byte is read
//! before a write can reach it.

use vstd::prelude::*;

verus! {

/// Copy the first `n` bytes of `src` over the first `n` of `dst`.
pub fn memcpy(dst: &mut Vec<u8>, src: &[u8], n: usize)
    requires
        n <= old(dst)@.len(),
        n <= src@.len(),
    ensures
        final(dst)@ == src@.subrange(0, n as int) + old(dst)@.subrange(n as int, old(dst)@.len() as int),
{
    let mut i: usize = 0;
    while i < n
        invariant
            n <= dst@.len(),
            n <= src@.len(),
            i <= n,
            dst@.len() == old(dst)@.len(),
            forall|k: int| 0 <= k < i ==> dst@[k] == src@[k],
            forall|k: int| i <= k < dst@.len() ==> dst@[k] == old(dst)@[k],
        decreases n - i,
    {
        dst.set(i, src[i]);
        i = i + 1;
    }
    assert(dst@ =~= src@.subrange(0, n as int) + old(dst)@.subrange(n as int, old(dst)@.len() as int));
}

/// What a move of `n` bytes from `src` to `dst` within `buf` leaves: the
/// destination range holds what the source range held before, and every
/// other byte is as it was.
pub open spec fn moved(buf: Seq<u8>, dst: int, src: int, n: int) -> Seq<u8> {
    Seq::new(buf.len(), |k: int| if dst <= k < dst + n { buf[src + (k - dst)] } else { buf[k] })
}

/// Move `n` bytes within `buf` from offset `src` to offset `dst`; the two
/// ranges may overlap.
pub fn memmove(buf: &mut Vec<u8>, dst: usize, src: usize, n: usize)
    requires
        dst + n <= old(buf)@.len(),
        src + n <= old(buf)@.len(),
    ensures
        final(buf)@ == moved(old(buf)@, dst as int, src as int, n as int),
{
    let ghost orig = buf@;
    let len = buf.len();
    if dst < src {
        let mut i: usize = 0;
        while i < n
            invariant
                dst < src,
                dst + n <= orig.len(),
                src + n <= orig.len(),
                buf@.len() == orig.len(),
                orig.len() == len,
                i <= n,
                forall|k: int| dst <= k < dst + i ==> buf@[k] == orig[src + (k - dst)],
                forall|k: int| 0 <= k < buf@.len() && !(dst <= k < dst + i) ==> buf@[k] == orig[k],
            decreases n - i,
        {
            let b = buf[src + i];
            buf.set(dst + i, b);
            i = i + 1;
        }
    } else {
        let mut i: usize = n;
        while i > 0
            invariant
                dst >= src,
                dst + n <= orig.len(),
                src + n <= orig.len(),
                buf@.len() == orig.len(),
                orig.len() == len,
                i <= n,
                forall|k: int| dst + i <= k < dst + n ==> buf@[k] == orig[src + (k - dst)],
                forall|k: int|
                    0 <= k < buf@.len() && !(dst + i <= k < dst + n) ==> buf@[k] == orig[k],
            decreases i,
        {
            i = i - 1;
            let b = buf[src + i];
            buf.set(dst + i, b);
        }
    }
    assert(buf@ =~= moved(orig, dst as int, src as int, n as int));
}

/// Set the first `n` bytes of `dst` to `c`.
pub fn memset(dst: &mut Vec<u8>, c: u8, n: usize)
    requires
        n <= old(dst)@.len(),
    ensures
        final(dst)@.len() == old(dst)@.len(),
        forall|k: int| 0 <= k < n ==> final(dst)@[k] == c,
        forall|k: int| n <= k < old(dst)@.len() ==> final(dst)@[k] == old(dst)@[k],
{
    let mut i: usize = 0;
    while i < n
        invariant
            n <= dst@.len(),
            i <= n,
            dst@.len() == old(dst)@.len(),
            forall|k: int| 0 <= k < i ==> dst@[k] == c,
            forall|k: int| i <= k < dst@.len() ==> dst@[k] == old(dst)@[k],
        decreases n - i,
    {
        dst.set(i, c);
        i = i + 1;
    }
}

/// The comparison of the first `n` bytes of `a` and `b` from `i` on: the
/// difference of the first pair of bytes that differ, or zero.
pub open spec fn compare_from(a: Seq<u8>, b: Seq<u8>, n: int, i: int) -> int
    decreases n - i,
{
    if i >= n {
        0
    } else if a[i] != b[i] {
        a[i] - b[i]
    } else {
        compare_from(a, b, n, i + 1)
    }
}

/// The difference of the first pair of bytes that differ among the first
/// `n` of `a` and `b`, or zero.
pub open spec fn first_difference(a: Seq<u8>, b: Seq<u8>, n: usize) -> int {
    compare_from(a, b, n as int, 0)
}

/// The first `n` bytes of `a` and `b` are the same.
pub open spec fn same_prefix(a: Seq<u8>, b: Seq<u8>, n: usize) -> bool {
    a.subrange(0, n as int) == b.subrange(0, n as int)
}

fn byte_difference(a: &[u8], b: &[u8], n: usize) -> (r: i32)
    requires
        n <= a@.len(),
        n <= b@.len(),
    ensures
        r == first_difference(a@, b@, n),
        r == 0 <==> same_prefix(a@, b@, n),
{
    let mut i: usize = 0;
    while i < n
        invariant
            n <= a@.len(),
            n <= b@.len(),
            i <= n,
            compare_from(a@, b@, n as int, 0) == compare_from(a@, b@, n as int, i as int),
            forall|k: int| 0 <= k < i ==> a@[k] == b@[k],
        decreases n - i,
    {
        let u = a[i];
        let v = b[i];
        if u != v {
            proof {
                assert(a@.subrange(0, n as int)[i as int] != b@.subrange(0, n as int)[i as int]);
            }
            return (u as i32) - (v as i32);
        }
        i = i + 1;
    }
    assert(a@.subrange(0, n as int) =~= b@.subrange(0, n as int));
    0
}

/// Compare the first `n` bytes of `a` and `b`: the difference of the first
/// pair that differs (negative when `a`'s byte is the smaller), else zero.
pub fn memcmp(a: &[u8], b: &[u8], n: usize) -> (r: i32)
    requires
        n <= a@.len(),
        n <= b@.len(),
    ensures
        r == first_difference(a@, b@, n),
        r == 0 <==> same_prefix(a@, b@, n),
{
    byte_difference(a, b, n)
}

} // verus!
