//! Core-local interrupt-context tracking and the interrupt-mask guard's
//! bookkeeping.
//!
//! The depth is a per-core table rather than a single counter, so a trap on
//! one core never reads as interrupt context on another; a depth rather than
//! a flag, so nested exceptions stay counted.

use vstd::prelude::*;

verus! {

/// Upper bound on the cores the kernel supports.  The interrupt-depth
/// table is sized to it, and every arch's `core_id` hook must return an
/// index below it.
pub const MAX_CPUS: usize = 16;

/// The per-core interrupt depth table.
pub struct InterruptDepth {
    depth: Vec<usize>,
}

/// One more nested interrupt: the depth counter wraps as the atomic
/// counter it models does.
pub open spec fn depth_inc(d: usize) -> usize {
    if d == usize::MAX { 0 } else { (d + 1) as usize }
}

/// One fewer nested interrupt, wrapping as the atomic counter does.
pub open spec fn depth_dec(d: usize) -> usize {
    if d == 0 { usize::MAX } else { (d - 1) as usize }
}

impl View for InterruptDepth {
    type V = Seq<usize>;

    closed spec fn view(&self) -> Seq<usize> {
        self.depth@
    }
}

impl InterruptDepth {
    /// Every core starts outside interrupt context.
    pub fn new() -> (r: Self)
        ensures
            r@.len() == MAX_CPUS,
            forall|c: int| 0 <= c < MAX_CPUS ==> r@[c] == 0,
    {
        let mut depth: Vec<usize> = Vec::new();
        let mut i: usize = 0;
        while i < MAX_CPUS
            invariant
                i <= MAX_CPUS,
                depth@.len() == i,
                forall|c: int| 0 <= c < i ==> depth@[c] == 0,
            decreases MAX_CPUS - i,
        {
            depth.push(0);
            i = i + 1;
        }
        InterruptDepth { depth }
    }

    /// Mark entry to interrupt context on `core`.
    pub fn enter_on(&mut self, core: usize)
        requires
            old(self)@.len() == MAX_CPUS,
            core < MAX_CPUS,
        ensures
            final(self)@ == old(self)@.update(core as int, depth_inc(old(self)@[core as int])),
    {
        let d = self.depth[core];
        let n = if d == usize::MAX { 0 } else { d + 1 };
        self.depth.set(core, n);
    }

    /// Mark exit from interrupt context on `core`.
    pub fn exit_on(&mut self, core: usize)
        requires
            old(self)@.len() == MAX_CPUS,
            core < MAX_CPUS,
        ensures
            final(self)@ == old(self)@.update(core as int, depth_dec(old(self)@[core as int])),
    {
        let d = self.depth[core];
        let n = if d == 0 { usize::MAX } else { d - 1 };
        self.depth.set(core, n);
    }

    /// True while `core` is handling an interrupt or exception.
    pub fn in_interrupt_on(&self, core: usize) -> (r: bool)
        requires
            self@.len() == MAX_CPUS,
            core < MAX_CPUS,
        ensures
            r == (self@[core as int] > 0),
    {
        self.depth[core] > 0
    }

    /// Mark entry to interrupt context on the core the arch hook names (core
    /// zero when no hook is registered).
    pub fn enter_interrupt(&mut self, hook_core: Option<usize>)
        requires
            old(self)@.len() == MAX_CPUS,
            hook_core matches Some(c) ==> c < MAX_CPUS,
        ensures
            final(self)@ == old(self)@.update(
                core_of(hook_core) as int,
                depth_inc(old(self)@[core_of(hook_core) as int]),
            ),
    {
        let c = core_index(hook_core);
        self.enter_on(c);
    }

    /// Mark exit from interrupt context on the core the arch hook names.
    pub fn exit_interrupt(&mut self, hook_core: Option<usize>)
        requires
            old(self)@.len() == MAX_CPUS,
            hook_core matches Some(c) ==> c < MAX_CPUS,
        ensures
            final(self)@ == old(self)@.update(
                core_of(hook_core) as int,
                depth_dec(old(self)@[core_of(hook_core) as int]),
            ),
    {
        let c = core_index(hook_core);
        self.exit_on(c);
    }

    /// True while the core the arch hook names is in interrupt context.
    pub fn in_interrupt(&self, hook_core: Option<usize>) -> (r: bool)
        requires
            self@.len() == MAX_CPUS,
            hook_core matches Some(c) ==> c < MAX_CPUS,
        ensures
            r == (self@[core_of(hook_core) as int] > 0),
    {
        self.in_interrupt_on(core_index(hook_core))
    }
}

/// The calling core's index: the hook's answer, or zero with no hook (the
/// correct answer for a single boot core).
pub open spec fn core_of(hook_core: Option<usize>) -> usize {
    match hook_core {
        Some(c) => c,
        None => 0,
    }
}

/// The calling core's index into the depth table.
pub fn core_index(hook_core: Option<usize>) -> (r: usize)
    requires
        hook_core matches Some(c) ==> c < MAX_CPUS,
    ensures
        r == core_of(hook_core),
        r < MAX_CPUS,
{
    match hook_core {
        Some(c) => c,
        None => 0,
    }
}

/// Entering and then leaving interrupt context on a core restores the
/// table exactly.
pub proof fn lemma_enter_exit_restores(t: Seq<usize>, core: int)
    requires
        0 <= core < t.len(),
    ensures
        t.update(core, depth_inc(t[core])).update(core, depth_dec(depth_inc(t[core]))) == t,
{
    assert(t.update(core, depth_inc(t[core])).update(core, depth_dec(depth_inc(t[core]))) =~= t);
}

/// The depth is per core: entering interrupt context on one core puts that
/// core in interrupt context (below the counter's wrap) and leaves every
/// other core's depth, and so whether it is in interrupt context, as it
/// was; leaving does the same.
pub proof fn lemma_depth_is_per_core(t: Seq<usize>, core: int, other: int)
    requires
        0 <= core < t.len(),
        0 <= other < t.len(),
        core != other,
    ensures
        t[core] < usize::MAX ==> t.update(core, depth_inc(t[core]))[core] > 0,
        t.update(core, depth_inc(t[core]))[other] == t[other],
        t.update(core, depth_dec(t[core]))[other] == t[other],
{
}

/// The depth table after a run of enters (`true`) and exits (`false`) on
/// `core`, each as `enter_on` and `exit_on` state it.
pub open spec fn after_runs(t: Seq<usize>, core: int, ops: Seq<bool>) -> Seq<usize>
    decreases ops.len(),
{
    if ops.len() == 0 {
        t
    } else {
        let p = after_runs(t, core, ops.drop_last());
        if ops.last() {
            p.update(core, depth_inc(p[core]))
        } else {
            p.update(core, depth_dec(p[core]))
        }
    }
}

/// How many of `ops` are enters.
pub open spec fn enters(ops: Seq<bool>) -> int
    decreases ops.len(),
{
    if ops.len() == 0 {
        0
    } else {
        enters(ops.drop_last()) + if ops.last() {
            1int
        } else {
            0int
        }
    }
}

/// How many of `ops` are exits.
pub open spec fn exits(ops: Seq<bool>) -> int
    decreases ops.len(),
{
    if ops.len() == 0 {
        0
    } else {
        exits(ops.drop_last()) + if ops.last() {
            0int
        } else {
            1int
        }
    }
}

/// No prefix of `ops` leaves more exits than enters.
pub open spec fn exits_never_lead(ops: Seq<bool>) -> bool {
    forall|i: int| 0 <= i <= ops.len() ==> exits(#[trigger] ops.take(i)) <= enters(ops.take(i))
}

/// Nested interrupts stay counted: from depth zero, after `n` enters and
/// `m` exits on a core, with exits never ahead of enters and fewer enters
/// than the counter's wrap, the core's depth is `n - m`, so it is in
/// interrupt context exactly when `n > m`; every other core is untouched.
pub proof fn lemma_depth_counts_nesting(t: Seq<usize>, core: int, ops: Seq<bool>)
    requires
        0 <= core < t.len(),
        t[core] == 0,
        exits_never_lead(ops),
        enters(ops) < usize::MAX,
    ensures
        after_runs(t, core, ops).len() == t.len(),
        after_runs(t, core, ops)[core] == enters(ops) - exits(ops),
        (after_runs(t, core, ops)[core] > 0) == (enters(ops) > exits(ops)),
        forall|c: int| 0 <= c < t.len() && c != core ==> after_runs(t, core, ops)[c] == t[c],
    decreases ops.len(),
{
    if ops.len() > 0 {
        let d = ops.drop_last();
        assert forall|i: int| 0 <= i <= d.len() implies exits(#[trigger] d.take(i)) <= enters(d.take(i)) by {
            assert(d.take(i) =~= ops.take(i));
        }
        lemma_enters_le(d);
        lemma_depth_counts_nesting(t, core, d);
        assert(ops.take(ops.len() as int) =~= ops);
    }
}

proof fn lemma_enters_le(ops: Seq<bool>)
    ensures
        0 <= enters(ops),
        0 <= exits(ops),
        ops.len() > 0 ==> enters(ops.drop_last()) <= enters(ops),
    decreases ops.len(),
{
    if ops.len() > 0 {
        lemma_enters_le(ops.drop_last());
    }
}

/// The state a guard hands the arch's `restore` hook when it ends: the
/// state it saved, when a hook is registered; nothing otherwise.
pub open spec fn restore_of(saved: Option<u64>, hook_registered: bool) -> Option<u64> {
    if hook_registered {
        saved
    } else {
        None
    }
}

/// A guard restores exactly what it saved: with a hook registered, ending
/// the guard hands back the state masking returned; with none, nothing is
/// masked and nothing restored.
pub proof fn lemma_guard_restores_saved(saved: Option<u64>)
    ensures
        restore_of(saved, true) == saved,
        restore_of(saved, false) is None,
        restore_of(None, true) is None,
{
}

/// The interrupt mask state a guard saved: `None` when no arch hook was
/// registered when it was taken (the guard is then a no-op).
pub struct IrqGuard {
    saved: Option<u64>,
}

impl IrqGuard {
    /// A guard over the mask state the arch's `mask` hook returned, or none
    /// when no hook is registered.
    pub fn new(saved: Option<u64>) -> (r: Self)
        ensures
            r.saved_state() == saved,
    {
        IrqGuard { saved }
    }

    pub closed spec fn saved_state(&self) -> Option<u64> {
        self.saved
    }

    /// The state to hand the arch's `restore` hook when the guard ends:
    /// only when a state was saved and a hook is registered.
    pub fn restore_state(&self, hook_registered: bool) -> (r: Option<u64>)
        ensures
            r == restore_of(self.saved_state(), hook_registered),
    {
        if hook_registered {
            self.saved
        } else {
            None
        }
    }
}

} // verus!
