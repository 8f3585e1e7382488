//! The process heap's bookkeeping: a `brk`-style top watermark over
//! page-granular grants from the kernel.
//!
//! An allocation asks the kernel for whole pages (a sub-page request rounds
//! up to one page) and the watermark moves to the grant's end.  Only the most
//! recent grant can be given back: freeing the allocation that ends at the
//! watermark lowers it to the allocation's start; any other free is a no-op.

use vstd::prelude::*;

verus! {

/// The whole-page count an allocation of `size` bytes takes: the size
/// divided by the page size, rounded up, and at least one page.
pub open spec fn pages_spec(size: nat, page: nat) -> nat {
    let n = if size % page == 0 { size / page } else { size / page + 1 };
    if n == 0 { 1 } else { n }
}

/// The whole-page count an allocation of `size` bytes takes.
pub fn pages_for(size: usize, page: usize) -> (r: usize)
    requires
        page > 0,
    ensures
        r == pages_spec(size as nat, page as nat),
        r >= 1,
{
    let n = if size % page == 0 {
        size / page
    } else {
        assert(size / page < usize::MAX) by (nonlinear_arith)
            requires
                page > 1,
        ;
        size / page + 1
    };
    if n == 0 {
        1
    } else {
        n
    }
}

/// The bytes an allocation of `size` asks the kernel for: its whole pages.
pub open spec fn grant_bytes(size: nat, page: nat) -> nat {
    pages_spec(size, page) * page
}

/// The page a physical-page allocation returned, or `None` when the kernel
/// refused: a refusal is a small code below the first page, never a heap
/// address.
pub fn alloc_page_result(va: usize, pa: u64, page: usize) -> (r: Option<(usize, u64)>)
    ensures
        r == (if va < page { None } else { Some((va, pa)) }),
{
    if va < page {
        None
    } else {
        Some((va, pa))
    }
}

/// The watermark after the kernel answered a request of `needed` bytes
/// with `va`: the grant's end, or unchanged when the kernel refused.
pub open spec fn after_grant(top: nat, va: nat, needed: nat, page: nat) -> nat {
    if va < page { top } else { va + needed }
}

/// The watermark after freeing the allocation of `size` bytes at `ptr`, and
/// whether the kernel is told: only the allocation ending at the watermark
/// is given back.
pub open spec fn after_release(top: nat, ptr: nat, size: nat, page: nat) -> (nat, bool) {
    if ptr + grant_bytes(size, page) == top { (ptr, true) } else { (top, false) }
}

/// The heap's top watermark.
pub struct Heap {
    brk: usize,
}

impl Heap {
    pub closed spec fn top(&self) -> nat {
        self.brk as nat
    }

    /// No grant yet: the watermark is zero.
    pub fn new() -> (r: Heap)
        ensures
            r.top() == 0,
    {
        Heap { brk: 0 }
    }

    /// The watermark.
    pub fn brk(&self) -> (r: usize)
        ensures
            r == self.top(),
    {
        self.brk
    }

    /// The bytes to ask the kernel for an allocation of `size`.
    pub fn request(size: usize, page: usize) -> (r: usize)
        requires
            page > 0,
            grant_bytes(size as nat, page as nat) <= usize::MAX,
        ensures
            r == grant_bytes(size as nat, page as nat),
    {
        pages_for(size, page) * page
    }

    /// Record the kernel's answer to a request of `needed` bytes: the
    /// grant's start, or `None` when the kernel refused (a code below the
    /// first page), in which case nothing moves.
    pub fn grant(&mut self, va: usize, needed: usize, page: usize) -> (r: Option<usize>)
        requires
            va < page || va + needed <= usize::MAX,
        ensures
            r == (if va < page { None } else { Some(va) }),
            final(self).top() == after_grant(old(self).top(), va as nat, needed as nat, page as nat),
    {
        if va < page {
            None
        } else {
            self.brk = va + needed;
            Some(va)
        }
    }

    /// Free the allocation of `size` bytes at `ptr`: when it is the most
    /// recent grant (it ends at the watermark) the watermark drops to its
    /// start and `true` says the kernel is to be told; otherwise nothing.
    pub fn release(&mut self, ptr: usize, size: usize, page: usize) -> (r: bool)
        requires
            page > 0,
            ptr + grant_bytes(size as nat, page as nat) <= usize::MAX,
        ensures
            (final(self).top(), r) == after_release(old(self).top(), ptr as nat, size as nat, page as nat),
    {
        let pages = pages_for(size, page);
        let top = ptr + pages * page;
        if top == self.brk {
            self.brk = ptr;
            true
        } else {
            false
        }
    }
}

/// Free-the-top: the allocation just granted can be given back, and giving
/// it back restores the watermark the grant moved; freeing anything that
/// does not end at the watermark changes nothing.
pub proof fn lemma_grant_then_release(top: nat, va: nat, size: nat, page: nat, other: nat)
    requires
        page > 0,
        va >= page,
        other != va,
    ensures
        after_release(after_grant(top, va, grant_bytes(size, page), page), va, size, page) == (va, true),
        after_release(after_grant(top, va, grant_bytes(size, page), page), other, size, page) == (
            after_grant(top, va, grant_bytes(size, page), page),
            false,
        ),
{
}

} // verus!
