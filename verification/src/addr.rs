//! Address types: `PhysAddr`, `PhysRange`, `VirtRange` and the page-size
//! constants.  Pure data with no kernel dependencies.

use vstd::prelude::*;
use vstd::arithmetic::power2::pow2;
use vstd::bits::low_bits_mask;
use vstd::bits::lemma_u64_low_bits_mask_is_mod;
use vstd::bits::lemma_u64_pow2_no_overflow;
use vstd::arithmetic::div_mod::lemma_fundamental_div_mod;
use vstd::arithmetic::div_mod::lemma_mod_multiples_basic;
use vstd::arithmetic::div_mod::lemma_mod_bound;

verus! {

pub const PAGE_SIZE_4K: usize = 4096;
pub const PAGE_SIZE_2M: usize = 2097152;
pub const PAGE_SIZE_1G: usize = 1073741824;

/// `step` is a power of two that fits in a `u64`.
pub open spec fn is_power_of_two(step: int) -> bool {
    exists|k: nat| k < 64 && step == pow2(k)
}

/// The largest multiple of `step` at or below `n`.
pub open spec fn round_down(n: int, step: int) -> int {
    n - n % step
}

/// The smallest multiple of `step` at or above `n`.
pub open spec fn round_up(n: int, step: int) -> int {
    round_down(n + step - 1, step)
}

/// For a power-of-two `step`, masking off the low bits is taking the
/// remainder away.
proof fn lemma_mask_is_round_down(n: u64, step: u64)
    requires
        is_power_of_two(step as int),
    ensures
        n & !((step - 1) as u64) == round_down(n as int, step as int),
        step > 0,
{
    let k = choose|k: nat| k < 64 && step == pow2(k);
    lemma_u64_pow2_no_overflow(k);
    lemma_u64_low_bits_mask_is_mod(n, k);
    let m: u64 = (step - 1) as u64;
    assert(low_bits_mask(k) as u64 == m);
    assert(n & m == n % step);
    assert(n & !m == n - (n & m)) by (bit_vector);
    assert(n & m <= n) by (bit_vector);
}

/// The facts about `round_down` that callers reason with.
pub proof fn lemma_round_down_facts(n: int, step: int)
    requires
        step > 0,
        n >= 0,
    ensures
        round_down(n, step) % step == 0,
        round_down(n, step) <= n < round_down(n, step) + step,
        round_down(n, step) == (n / step) * step,
        round_down(n, step) >= 0,
{
    lemma_fundamental_div_mod(n, step);
    lemma_mod_bound(n, step);
    lemma_mod_multiples_basic(n / step, step);
    assert((n / step) * step == step * (n / step)) by (nonlinear_arith);
    assert(n / step >= 0) by (nonlinear_arith)
        requires
            n >= 0,
            step > 0,
    ;
    assert((n / step) * step >= 0) by (nonlinear_arith)
        requires
            n / step >= 0,
            step > 0,
    ;
}

/// Rounding to a power of two lands on a multiple of it, and moves `n` by
/// less than one step: down never rises above `n`, up never falls below it.
pub proof fn lemma_rounding_brackets(n: int, step: int)
    requires
        step > 0,
        n >= 0,
    ensures
        round_down(n, step) % step == 0,
        round_up(n, step) % step == 0,
        round_down(n, step) <= n < round_down(n, step) + step,
        n <= round_up(n, step) < n + step,
{
    lemma_round_down_facts(n, step);
    lemma_round_down_facts(n + step - 1, step);
}

/// Rounding is idempotent: a multiple of `step` rounds to itself either way.
pub proof fn lemma_rounding_idempotent(n: int, step: int)
    requires
        step > 0,
        n >= 0,
        n % step == 0,
    ensures
        round_down(n, step) == n,
        round_up(n, step) == n,
{
    lemma_round_down_facts(n, step);
    lemma_round_down_facts(n + step - 1, step);
    let rd = round_down(n + step - 1, step);
    if rd > n {
        lemma_next_multiple(n, rd, step);
    }
}

/// Between two multiples of `s`, the next multiple after the lower one
/// does not overshoot the upper.
proof fn lemma_next_multiple(x: int, y: int, s: int)
    requires
        s > 0,
        x >= 0,
        x % s == 0,
        y % s == 0,
        x < y,
    ensures
        x + s <= y,
        (x + s) % s == 0,
{
    lemma_fundamental_div_mod(x, s);
    lemma_fundamental_div_mod(y, s);
    let a = x / s;
    let b = y / s;
    assert(a < b) by (nonlinear_arith)
        requires
            x == s * a,
            y == s * b,
            x < y,
            s > 0,
    ;
    assert(x + s <= y) by (nonlinear_arith)
        requires
            x == s * a,
            y == s * b,
            a < b,
            s > 0,
    ;
    lemma_mod_multiples_basic(a + 1, s);
    assert(x + s == (a + 1) * s) by (nonlinear_arith)
        requires
            x == s * a,
    ;
}

/// Round up by a power of 2.
pub fn round_up2_u64(n: u64, step: u64) -> (r: u64)
    requires
        is_power_of_two(step as int),
        n + step - 1 <= u64::MAX,
    ensures
        r == round_up(n as int, step as int),
{
    proof {
        lemma_mask_is_round_down(0, step);
    }
    let m = n + (step - 1);
    proof {
        lemma_mask_is_round_down(m, step);
    }
    m & !(step - 1)
}

/// Round down by a power of 2.
pub fn round_down2_u64(n: u64, step: u64) -> (r: u64)
    requires
        is_power_of_two(step as int),
    ensures
        r == round_down(n as int, step as int),
{
    proof {
        lemma_mask_is_round_down(n, step);
    }
    n & !(step - 1)
}

/// A device-tree `reg` block: a base address and, where the node's
/// `size_cells` is nonzero, a length.
#[derive(Clone, Copy, Debug, PartialEq, Eq, Structural)]
pub struct RegBlock {
    pub addr: u64,
    pub len: Option<u64>,
}

#[derive(Clone, Copy, Debug, PartialEq, Eq, Structural)]
pub struct VirtRange {
    pub start: usize,
    pub end: usize,
}

impl VirtRange {
    pub fn new(start: usize, end: usize) -> (r: Self)
        ensures
            r.start == start,
            r.end == end,
    {
        Self { start, end }
    }

    pub fn with_len(start: usize, len: usize) -> (r: Self)
        requires
            start + len <= usize::MAX,
        ensures
            r.start == start,
            r.end == start + len,
    {
        Self { start, end: start + len }
    }

    pub fn from_physrange(pr: &PhysRange, offset: usize) -> (r: Self)
        requires
            (pr.start.0 as usize) + offset <= usize::MAX,
            (pr.end.0 as usize) + offset <= usize::MAX,
        ensures
            r.start == (pr.start.0 as usize) + offset,
            r.end == (pr.end.0 as usize) + offset,
    {
        Self { start: pr.start.0 as usize + offset, end: pr.end.0 as usize + offset }
    }

    pub fn offset_addr(&self, offset: usize) -> (r: Option<usize>)
        requires
            self.start + offset <= usize::MAX,
        ensures
            r == (if self.start <= self.start + offset < self.end {
                Some((self.start + offset) as usize)
            } else {
                None
            }),
    {
        let addr = self.start + offset;
        if self.contains(addr) {
            Some(addr)
        } else {
            None
        }
    }

    pub fn size(&self) -> (r: usize)
        requires
            self.start <= self.end,
        ensures
            r == self.end - self.start,
    {
        self.end - self.start
    }

    pub fn contains(&self, addr: usize) -> (r: bool)
        ensures
            r == (self.start <= addr < self.end),
    {
        addr >= self.start && addr < self.end
    }

    /// The range a reg block spans, a block with no length collapsing to a
    /// zero-size range.
    pub fn from_reg(r: &RegBlock) -> (v: Self)
        requires
            (r.addr as usize) + (match r.len {
                Some(l) => (l as usize) as int,
                None => 0int,
            }) <= usize::MAX,
        ensures
            v.start == r.addr as usize,
            v.end == (r.addr as usize) + (match r.len {
                Some(l) => (l as usize) as int,
                None => 0int,
            }),
    {
        let start = r.addr as usize;
        let len: u64 = match r.len {
            Some(l) => l,
            None => 0,
        };
        let end = start + len as usize;
        VirtRange { start, end }
    }
}

#[derive(Clone, Copy, Debug, PartialEq, Eq, Structural)]
pub struct PhysAddr(pub u64);

impl PhysAddr {
    pub fn new(value: u64) -> (r: PhysAddr)
        ensures
            r.0 == value,
    {
        PhysAddr(value)
    }

    pub fn addr(&self) -> (r: u64)
        ensures
            r == self.0,
    {
        self.0
    }

    /// Round up by a power of 2.
    pub fn round_up2(&self, step: u64) -> (r: PhysAddr)
        requires
            is_power_of_two(step as int),
            self.0 + step - 1 <= u64::MAX,
        ensures
            r.0 == round_up(self.0 as int, step as int),
    {
        PhysAddr(round_up2_u64(self.0, step))
    }

    /// Round down by a power of 2.
    pub fn round_down2(&self, step: u64) -> (r: PhysAddr)
        requires
            is_power_of_two(step as int),
        ensures
            r.0 == round_down(self.0 as int, step as int),
    {
        PhysAddr(round_down2_u64(self.0, step))
    }

    pub fn is_multiple_of(&self, n: u64) -> (r: bool)
        ensures
            r == (if n == 0 {
                self.0 == 0
            } else {
                self.0 % n == 0
            }),
    {
        self.0.is_multiple_of(n)
    }

    /// The address `offset` bytes above this one.
    pub fn add(self, offset: u64) -> (r: PhysAddr)
        requires
            self.0 + offset <= u64::MAX,
        ensures
            r.0 == self.0 + offset,
    {
        PhysAddr(self.0 + offset)
    }

    /// The number of whole steps from `startpa` up to `endpa`, with the
    /// upper bound `None` when the range runs backwards.
    pub fn steps_between(startpa: &PhysAddr, endpa: &PhysAddr) -> (r: (usize, Option<usize>))
        ensures
            r == (if startpa.0 <= endpa.0 && endpa.0 - startpa.0 <= usize::MAX {
                ((endpa.0 - startpa.0) as usize, Some((endpa.0 - startpa.0) as usize))
            } else {
                (0usize, None)
            }),
    {
        if startpa.0 <= endpa.0 {
            let diff = endpa.0 - startpa.0;
            if diff <= usize::MAX as u64 {
                let d = diff as usize;
                return (d, Some(d));
            }
        }
        (0, None)
    }

    pub fn forward_checked(startpa: PhysAddr, count: usize) -> (r: Option<PhysAddr>)
        ensures
            r == (if startpa.0 + count <= u64::MAX {
                Some(PhysAddr((startpa.0 + count) as u64))
            } else {
                None
            }),
    {
        match startpa.0.checked_add(count as u64) {
            Some(v) => Some(PhysAddr(v)),
            None => None,
        }
    }

    pub fn backward_checked(startpa: PhysAddr, count: usize) -> (r: Option<PhysAddr>)
        ensures
            r == (if startpa.0 >= count {
                Some(PhysAddr((startpa.0 - count) as u64))
            } else {
                None
            }),
    {
        match startpa.0.checked_sub(count as u64) {
            Some(v) => Some(PhysAddr(v)),
            None => None,
        }
    }

    pub fn forward_overflowing(startpa: PhysAddr, count: usize) -> (r: (PhysAddr, bool))
        ensures
            r.1 == (startpa.0 + count > u64::MAX),
            r.0.0 == (if startpa.0 + count > u64::MAX {
                startpa.0 + count - 0x1_0000_0000_0000_0000
            } else {
                startpa.0 + count
            }),
    {
        let c = count as u64;
        if startpa.0 <= u64::MAX - c {
            (PhysAddr(startpa.0 + c), false)
        } else {
            let pa = c - (u64::MAX - startpa.0) - 1;
            (PhysAddr(pa), true)
        }
    }

    pub fn backward_overflowing(startpa: PhysAddr, count: usize) -> (r: (PhysAddr, bool))
        ensures
            r.1 == (startpa.0 < count),
            r.0.0 == (if startpa.0 < count {
                startpa.0 - count + 0x1_0000_0000_0000_0000
            } else {
                startpa.0 - count
            }),
    {
        let c = count as u64;
        if startpa.0 >= c {
            (PhysAddr(startpa.0 - c), false)
        } else {
            let pa = u64::MAX - (c - startpa.0) + 1;
            (PhysAddr(pa), true)
        }
    }
}

#[derive(Clone, Copy, Debug, PartialEq, Eq, Structural)]
pub struct PhysRange {
    pub start: PhysAddr,
    pub end: PhysAddr,
}

/// The addresses a stepped walk visits: `count` addresses, `step` apart,
/// from `start`.
pub open spec fn stepped(start: int, step: int, count: nat) -> Seq<u64> {
    Seq::new(count, |i: int| (start + i * step) as u64)
}

impl PhysRange {
    pub fn new(start: PhysAddr, end: PhysAddr) -> (r: Self)
        ensures
            r.start == start,
            r.end == end,
    {
        Self { start, end }
    }

    pub fn with_end(start: u64, end: u64) -> (r: Self)
        ensures
            r.start.0 == start,
            r.end.0 == end,
    {
        Self { start: PhysAddr(start), end: PhysAddr(end) }
    }

    pub fn with_len(start: u64, len: usize) -> (r: Self)
        requires
            start + len <= u64::MAX,
        ensures
            r.start.0 == start,
            r.end.0 == start + len,
    {
        Self { start: PhysAddr(start), end: PhysAddr(start + len as u64) }
    }

    pub fn with_pa_len(start: PhysAddr, len: usize) -> (r: Self)
        requires
            start.0 + len <= u64::MAX,
        ensures
            r.start == start,
            r.end.0 == start.0 + len,
    {
        Self { start, end: PhysAddr(start.0 + len as u64) }
    }

    /// Build a device-register range from a device-tree reg block, or `None`
    /// if the block carries no length (`size_cells == 0`).
    pub fn from_regblock(r: &RegBlock) -> (p: Option<PhysRange>)
        requires
            r.len matches Some(l) ==> r.addr + (l as usize) <= u64::MAX,
        ensures
            p == (match r.len {
                Some(l) => Some(
                    PhysRange { start: PhysAddr(r.addr), end: PhysAddr((r.addr + (l as usize)) as u64) },
                ),
                None => None,
            }),
    {
        let len = match r.len {
            Some(l) => l,
            None => return None,
        };
        Some(PhysRange::with_len(r.addr, len as usize))
    }

    /// The range a reg block spans, a block with no length collapsing to a
    /// zero-size range (for length-guaranteed extents such as memory nodes).
    pub fn from_reg(r: &RegBlock) -> (p: PhysRange)
        requires
            r.len matches Some(l) ==> r.addr + l <= u64::MAX,
        ensures
            p.start.0 == r.addr,
            p.end.0 == (match r.len {
                Some(l) => r.addr + l,
                None => r.addr as int,
            }),
    {
        let start = PhysAddr(r.addr);
        let len: u64 = match r.len {
            Some(l) => l,
            None => 0,
        };
        let end = start.add(len);
        PhysRange::new(start, end)
    }

    pub fn offset_addr(&self, offset: u64) -> (r: Option<PhysAddr>)
        requires
            self.start.0 + offset <= u64::MAX,
        ensures
            r == (if self.start.0 <= self.start.0 + offset < self.end.0 {
                Some(PhysAddr((self.start.0 + offset) as u64))
            } else {
                None
            }),
    {
        let addr = self.start.add(offset);
        if self.contains(addr) {
            Some(addr)
        } else {
            None
        }
    }

    pub fn size(&self) -> (r: usize)
        requires
            self.start.0 <= self.end.0,
        ensures
            r == (self.end.0 - self.start.0) as usize,
    {
        (self.end.addr() - self.start.addr()) as usize
    }

    /// Every `step_size`-aligned address from the rounded-down start up to
    /// (not including) the rounded-up end.
    pub fn step_by_rounded(&self, step_size: usize) -> (r: Vec<PhysAddr>)
        requires
            is_power_of_two(step_size as int),
            self.end.0 + step_size - 1 <= u64::MAX,
        ensures
            r.len() * step_size == (if round_down(self.start.0 as int, step_size as int) < round_up(
                self.end.0 as int,
                step_size as int,
            ) {
                round_up(self.end.0 as int, step_size as int) - round_down(
                    self.start.0 as int,
                    step_size as int,
                )
            } else {
                0
            }),
            forall|i: int|
                0 <= i < r.len() ==> #[trigger] r[i].0 == round_down(self.start.0 as int, step_size as int)
                    + i * step_size,
    {
        let startpa = self.start.round_down2(step_size as u64);
        let endpa = self.end.round_up2(step_size as u64);
        let step = step_size as u64;
        proof {
            lemma_mask_is_round_down(0, step);
            lemma_round_down_facts(self.start.0 as int, step as int);
            lemma_round_down_facts(self.end.0 + step - 1, step as int);
        }
        let ghost lo = startpa.0 as int;
        let ghost hi = endpa.0 as int;
        let mut out: Vec<PhysAddr> = Vec::new();
        let mut cur = startpa.0;
        proof {
            assert(lo + out.len() * step == lo) by (nonlinear_arith)
                requires
                    out.len() == 0,
            ;
        }
        while cur < endpa.0
            invariant
                step > 0,
                step == step_size,
                lo == startpa.0,
                hi == endpa.0,
                lo % (step as int) == 0,
                hi % (step as int) == 0,
                cur % step == 0,
                lo <= cur,
                lo <= hi ==> cur <= hi,
                lo > hi ==> cur == lo,
                cur == lo + out.len() * step,
                forall|i: int| 0 <= i < out.len() ==> #[trigger] out[i].0 == lo + i * step,
            decreases endpa.0 - cur,
        {
            proof {
                lemma_next_multiple(cur as int, hi, step as int);
            }
            out.push(PhysAddr(cur));
            cur = cur + step;
            proof {
                assert(cur == lo + out.len() * step) by (nonlinear_arith)
                    requires
                        cur == lo + (out.len() - 1) * step + step,
                ;
            }
        }
        out
    }

    /// The smallest range covering both ranges.
    pub fn add(&self, other: &PhysRange) -> (r: Self)
        ensures
            r.start.0 == (if self.start.0 <= other.start.0 { self.start.0 } else { other.start.0 }),
            r.end.0 == (if self.end.0 >= other.end.0 { self.end.0 } else { other.end.0 }),
    {
        let start = if other.start.0 < self.start.0 { other.start } else { self.start };
        let end = if other.end.0 > self.end.0 { other.end } else { self.end };
        Self { start, end }
    }

    /// Round extents so that start and end lie on multiples of step_size.
    pub fn round(&self, step_size: usize) -> (r: Self)
        requires
            is_power_of_two(step_size as int),
            self.end.0 + step_size - 1 <= u64::MAX,
        ensures
            r.start.0 == round_down(self.start.0 as int, step_size as int),
            r.end.0 == round_up(self.end.0 as int, step_size as int),
    {
        Self {
            start: self.start.round_down2(step_size as u64),
            end: self.end.round_up2(step_size as u64),
        }
    }

    pub fn contains(&self, addr: PhysAddr) -> (r: bool)
        ensures
            r == (self.start.0 <= addr.0 < self.end.0),
    {
        addr.0 >= self.start.0 && addr.0 < self.end.0
    }
}

} // verus!
