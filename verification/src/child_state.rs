//! The child-state page a spawner hands a new process: a header of
//! little-endian 32-bit words, `[n_handles][handle ...]`, then zeros.  A
//! server's state is a channel pair (`n_handles = 2`); a child handed no
//! state reads a zero page, so a count of zero and not a first handle of
//! zero is what says "no handles" (channel 0 is a valid handle).

use vstd::prelude::*;
use crate::bytes::{append_bytes, le32_at, le32_bytes, u32_from_le, u32_to_le};

verus! {

/// The handles' words, in order.
pub open spec fn handle_words(hs: Seq<u32>) -> Seq<u8>
    decreases hs.len(),
{
    if hs.len() == 0 {
        Seq::empty()
    } else {
        handle_words(hs.drop_last()) + le32_bytes(hs.last())
    }
}

/// The header for `hs`: the count, then each handle.
pub open spec fn header(hs: Seq<u32>) -> Seq<u8> {
    le32_bytes(hs.len() as u32) + handle_words(hs)
}

proof fn lemma_handle_words(hs: Seq<u32>)
    ensures
        handle_words(hs).len() == 4 * hs.len(),
        forall|i: int|
            0 <= i < hs.len() ==> #[trigger] handle_words(hs).subrange(4 * i, 4 * i + 4) == le32_bytes(
                hs[i],
            ),
    decreases hs.len(),
{
    if hs.len() > 0 {
        let prev = hs.drop_last();
        lemma_handle_words(prev);
        let w = handle_words(hs);
        assert forall|i: int| 0 <= i < hs.len() implies #[trigger] w.subrange(4 * i, 4 * i + 4)
            == le32_bytes(hs[i]) by {
            if i < hs.len() - 1 {
                assert(w.subrange(4 * i, 4 * i + 4) =~= handle_words(prev).subrange(4 * i, 4 * i + 4));
                assert(prev[i] == hs[i]);
            } else {
                assert(w.subrange(4 * i, 4 * i + 4) =~= le32_bytes(hs.last()));
            }
        }
    }
}

/// The state page of `page` bytes for the handles `hs`: the header, then
/// zeros.
pub fn child_state(hs: &[u32], page: usize) -> (r: Vec<u8>)
    requires
        4 + 4 * hs@.len() <= page,
    ensures
        r@.len() == page,
        r@.subrange(0, 4 + 4 * hs@.len() as int) == header(hs@),
        forall|i: int| 4 + 4 * hs@.len() <= i < page ==> r@[i] == 0,
{
    proof {
        lemma_handle_words(hs@);
    }
    let mut r = u32_to_le(hs.len() as u32);
    let mut i: usize = 0;
    while i < hs.len()
        invariant
            i <= hs@.len(),
            4 + 4 * hs@.len() <= page,
            r@ == le32_bytes(hs@.len() as u32) + handle_words(hs@.subrange(0, i as int)),
        decreases hs@.len() - i,
    {
        let w = u32_to_le(hs[i]);
        append_bytes(&mut r, w.as_slice());
        proof {
            assert(hs@.subrange(0, i + 1).drop_last() =~= hs@.subrange(0, i as int));
            assert(hs@.subrange(0, i + 1).last() == hs@[i as int]);
        }
        i = i + 1;
    }
    assert(hs@.subrange(0, hs@.len() as int) =~= hs@);
    proof {
        lemma_handle_words(hs@);
    }
    let n = r.len();
    while r.len() < page
        invariant
            n == 4 + 4 * hs@.len(),
            n <= r@.len() <= page,
            r@.subrange(0, n as int) == header(hs@),
            forall|i: int| n <= i < r@.len() ==> r@[i] == 0,
        decreases page - r@.len(),
    {
        let ghost before = r@;
        r.push(0);
        assert(r@.subrange(0, n as int) =~= before.subrange(0, n as int));
    }
    r
}

/// The handle count of a state page.
pub fn n_handles(state: &[u8]) -> (r: u32)
    requires
        state@.len() >= 4,
    ensures
        r == le32_at(state@, 0),
{
    u32_from_le(state, 0)
}

/// Handle `i` of a state page.
pub fn handle_at(state: &[u8], i: usize) -> (r: u32)
    requires
        8 + 4 * i <= state@.len(),
    ensures
        r == le32_at(state@, 4 + 4 * i),
{
    let n = state.len();
    assert(8 + 4 * i <= n);
    u32_from_le(state, 4 + 4 * i)
}

/// A server's channel pair: the state's first two handles.
pub fn handles(state: &[u8]) -> (r: (u32, u32))
    requires
        state@.len() >= 12,
    ensures
        r == (le32_at(state@, 4) as u32, le32_at(state@, 8) as u32),
{
    (handle_at(state, 0), handle_at(state, 1))
}

/// A child reads back the handles its spawner wrote: the count and each
/// handle of the page `child_state` lays out.
pub proof fn lemma_state_reads_back(hs: Seq<u32>, page: Seq<u8>)
    requires
        4 + 4 * hs.len() <= page.len(),
        hs.len() <= u32::MAX,
        page.subrange(0, 4 + 4 * hs.len() as int) == header(hs),
    ensures
        le32_at(page, 0) == hs.len(),
        forall|i: int| 0 <= i < hs.len() ==> #[trigger] le32_at(page, 4 + 4 * i) == hs[i],
{
    lemma_handle_words(hs);
    let h = header(hs);
    assert(page.subrange(0, 4) =~= h.subrange(0, 4));
    assert(h.subrange(0, 4) =~= le32_bytes(hs.len() as u32));
    crate::nameserver::lemma_le32_roundtrip(hs.len() as u32, page, 0);
    assert forall|i: int| 0 <= i < hs.len() implies #[trigger] le32_at(page, 4 + 4 * i) == hs[i] by {
        assert(page.subrange(4 + 4 * i, 8 + 4 * i) =~= h.subrange(4 + 4 * i, 8 + 4 * i));
        assert(h.subrange(4 + 4 * i, 8 + 4 * i) =~= handle_words(hs).subrange(4 * i, 4 * i + 4));
        crate::nameserver::lemma_le32_roundtrip(hs[i], page, 4 + 4 * i);
    }
}

} // verus!
